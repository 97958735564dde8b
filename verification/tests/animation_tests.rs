use meditui::animation::{AnimationState, FADE_MS, FLASH_MS, NANOS_PER_MS};

#[test]
fn new_state_is_still() {
    let a = AnimationState::new();
    assert!(!a.is_animating());
}

#[test]
fn settle_ends_animations_whose_time_is_up() {
    let mut a = AnimationState::new();
    a.start_fade();
    a.start_flash(4);
    assert!(a.is_animating());
    a.settle(Some(FADE_MS * NANOS_PER_MS - 1), Some(FLASH_MS * NANOS_PER_MS - 1));
    assert!(a.fade_start.is_some());
    assert!(matches!(a.flash, Some((4, _))));
    // A fraction of a millisecond short of the end keeps it running.
    a.settle(Some(FADE_MS * NANOS_PER_MS), Some(FLASH_MS * NANOS_PER_MS - 500_000));
    assert!(a.fade_start.is_none());
    assert!(a.flash.is_some());
    a.settle(None, Some(FLASH_MS * NANOS_PER_MS));
    assert!(!a.is_animating());
}

#[test]
fn tick_keeps_fresh_animation_and_ends_old_one() {
    let mut a = AnimationState::new();
    a.start_fade();
    a.tick();
    assert!(a.fade_start.is_some());
    let begun = std::time::Instant::now();
    while begun.elapsed().as_millis() < 450 {}
    a.tick();
    assert!(a.fade_start.is_none());
}
