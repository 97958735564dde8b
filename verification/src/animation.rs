//! Animation state: the chapter fade-in and the flash of a newly toggled
//! highlight, each running for a fixed time from when it started.
use std::time::{Duration, Instant};

use vstd::prelude::*;

verus! {

/// How long the chapter fade-in runs, in milliseconds.
pub const FADE_MS: u128 = 300;

/// How long a highlight flash runs, in milliseconds.
pub const FLASH_MS: u128 = 400;

/// Nanoseconds in a millisecond.
pub const NANOS_PER_MS: u128 = 1_000_000;

#[verifier::external_type_specification]
#[verifier::external_body]
pub struct ExInstant(Instant);

/// `Instant::now`: the current time. Nothing is claimed of the value.
#[verifier::external_body]
fn instant_now() -> Instant {
    Instant::now()
}

/// `Instant::elapsed`: the time since `start`. Nothing is claimed of the
/// value, which depends on the clock.
#[verifier::external_body]
fn instant_elapsed(start: &Instant) -> Duration {
    start.elapsed()
}

/// `Duration::as_nanos`: whole nanoseconds of `d`. Nothing is claimed of
/// the value, since `Duration` is opaque here.
#[verifier::external_body]
fn duration_as_nanos(d: &Duration) -> u128 {
    d.as_nanos()
}

/// The running animations: a fade from its start time, a flash of one verse
/// from its start time.
pub struct AnimationState {
    pub fade_start: Option<Instant>,
    pub flash: Option<(usize, Instant)>,
}

impl AnimationState {
    /// No animation running.
    pub fn new() -> (res: AnimationState)
        ensures
            res.fade_start is None,
            res.flash is None,
    {
        AnimationState { fade_start: None, flash: None }
    }

    /// Whether a fade or a flash is running.
    pub fn is_animating(&self) -> (res: bool)
        ensures
            res == (self.fade_start is Some || self.flash is Some),
    {
        self.fade_start.is_some() || self.flash.is_some()
    }

    /// Starts the fade now.
    pub fn start_fade(&mut self)
        ensures
            final(self).fade_start is Some,
            final(self).flash == old(self).flash,
    {
        self.fade_start = Some(instant_now());
    }

    /// Starts a flash of verse `verse_idx` now.
    pub fn start_flash(&mut self, verse_idx: usize)
        ensures
            final(self).flash matches Some((i, _)) && i == verse_idx,
            final(self).fade_start == old(self).fade_start,
    {
        self.flash = Some((verse_idx, instant_now()));
    }

    /// Ends the animations whose time is up, given how long ago each started
    /// (in nanoseconds, `None` for one not running): an animation ends once
    /// its whole running time has passed.
    pub fn settle(&mut self, fade_elapsed_ns: Option<u128>, flash_elapsed_ns: Option<u128>)
        ensures
            final(self).fade_start == (match fade_elapsed_ns {
                Some(e) if e >= FADE_MS * NANOS_PER_MS => None,
                _ => old(self).fade_start,
            }),
            final(self).flash == (match flash_elapsed_ns {
                Some(e) if e >= FLASH_MS * NANOS_PER_MS => None,
                _ => old(self).flash,
            }),
    {
        if let Some(e) = fade_elapsed_ns {
            if e >= FADE_MS * NANOS_PER_MS {
                self.fade_start = None;
            }
        }
        if let Some(e) = flash_elapsed_ns {
            if e >= FLASH_MS * NANOS_PER_MS {
                self.flash = None;
            }
        }
    }

    /// Ends the animations whose time is up. A running animation either
    /// stays as it was or ends; one not running stays so.
    pub fn tick(&mut self)
        ensures
            final(self).fade_start is None || final(self).fade_start == old(self).fade_start,
            final(self).flash is None || final(self).flash == old(self).flash,
    {
        let fade_elapsed = match &self.fade_start {
            Some(start) => Some(duration_as_nanos(&instant_elapsed(start))),
            None => None,
        };
        let flash_elapsed = match &self.flash {
            Some((_, start)) => Some(duration_as_nanos(&instant_elapsed(start))),
            None => None,
        };
        self.settle(fade_elapsed, flash_elapsed);
    }
}

} // verus!
