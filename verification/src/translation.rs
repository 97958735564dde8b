//! Which translation the reader shows: the one saved last time, while it is
//! still available, and the available ones in order.
use vstd::prelude::*;
use vstd::multiset::Multiset;

use crate::text::{chars_of, compare_chars, lemma_str_lt_total, lemma_str_lt_transitive, push_chars, push_str_chars, str_lt, trim_chars, trim_spec};

verus! {

broadcast use vstd::seq_lib::group_seq_properties, vstd::multiset::group_multiset_axioms;

/// The translation read when no other is chosen.
pub open spec fn default_translation() -> Seq<char> {
    "kjv"@
}

/// The translation named by the settings file's text (`None` when there is
/// no file to read): the text without surrounding white space, or the
/// default when that is empty.
pub open spec fn saved_translation_spec(saved: Option<Seq<char>>) -> Seq<char> {
    match saved {
        Some(t) => if trim_spec(t).len() > 0 {
            trim_spec(t)
        } else {
            default_translation()
        },
        None => default_translation(),
    }
}

fn default_name() -> (res: String)
    ensures
        res@ == default_translation(),
{
    let mut s = String::new();
    push_str_chars(&mut s, "kjv");
    assert(s@ =~= default_translation());
    s
}

/// The translation named by the settings file's text, if it could be read.
pub fn translation_from_saved(saved: Option<&str>) -> (res: String)
    ensures
        res@ == saved_translation_spec(
            match saved {
                Some(t) => Some(t@),
                None => None,
            },
        ),
{
    match saved {
        Some(t) => {
            let c = trim_chars(t);
            if c.len() > 0 {
                let mut s = String::new();
                push_chars(&mut s, &c, 0, c.len());
                assert(c@.subrange(0, c@.len() as int) =~= c@);
                s
            } else {
                default_name()
            }
        },
        None => default_name(),
    }
}

/// Whether one of `available` is `t`.
pub open spec fn is_available(available: Seq<String>, t: Seq<char>) -> bool {
    exists|i: int| 0 <= i < available.len() && (#[trigger] available[i])@ == t
}

/// `t` while it is among the available translations, else the default.
pub fn validated_translation(t: String, available: &Vec<String>) -> (res: String)
    ensures
        res@ == if is_available(available@, t@) {
            t@
        } else {
            default_translation()
        },
{
    let tc = chars_of(t.as_str());
    let mut i: usize = 0;
    while i < available.len()
        invariant
            i <= available@.len(),
            tc@ == t@,
            forall|j: int| 0 <= j < i ==> (#[trigger] available@[j])@ != t@,
        decreases available@.len() - i,
    {
        let ac = chars_of(available[i].as_str());
        if compare_chars(&ac, &tc) == 0 {
            return t;
        }
        i += 1;
    }
    default_name()
}

/// The views of a list of names.
pub open spec fn names_view(v: Seq<String>) -> Seq<Seq<char>> {
    v.map_values(|s: String| s@)
}

/// In order: no name comes before an earlier one.
pub open spec fn names_sorted(s: Seq<Seq<char>>) -> bool {
    forall|i: int, j: int| 0 <= i < j < s.len() ==> !str_lt(#[trigger] s[j], #[trigger] s[i])
}

/// The names in order of their characters, as `Vec::sort` orders strings.
pub fn sort_translations(names: Vec<String>) -> (res: Vec<String>)
    ensures
        names_sorted(names_view(res@)),
        names_view(res@).to_multiset() == names_view(names@).to_multiset(),
{
    let ghost all = names_view(names@).to_multiset();
    let mut rest = names;
    let mut out: Vec<String> = Vec::new();
    proof {
        assert(names_view(out@) =~= Seq::<Seq<char>>::empty());
        assert(names_view(out@).to_multiset() =~= Multiset::empty());
        assert(names_view(out@).to_multiset().add(names_view(rest@).to_multiset()) =~= all);
    }
    while rest.len() > 0
        invariant
            names_sorted(names_view(out@)),
            names_view(out@).to_multiset().add(names_view(rest@).to_multiset()) == all,
        decreases rest@.len(),
    {
        let ghost before_rest = rest@;
        let x = rest.pop().unwrap();
        proof {
            assert(names_view(before_rest) =~= names_view(rest@).push(x@));
            vstd::seq_lib::to_multiset_build(names_view(rest@), x@);
        }
        let xc = chars_of(x.as_str());
        let mut p: usize = 0;
        while p < out.len() && compare_chars(&xc, &chars_of(out[p].as_str())) != -1
            invariant
                p <= out@.len(),
                xc@ == x@,
                forall|q: int| 0 <= q < p ==> !str_lt(x@, (#[trigger] out@[q])@),
            decreases out@.len() - p,
        {
            p += 1;
        }
        let ghost before = names_view(out@);
        proof {
            if p < out@.len() {
                assert(str_lt(x@, out@[p as int]@));
            }
        }
        out.insert(p, x);
        proof {
            assert(names_view(out@) =~= before.insert(p as int, x@));
            vstd::seq_lib::to_multiset_insert(before, p as int, x@);
            let v = names_view(out@);
            assert forall|i: int, j: int| 0 <= i < j < v.len() implies !str_lt(#[trigger] v[j], #[trigger] v[i]) by {
                if j < p {
                    assert(v[i] == before[i] && v[j] == before[j]);
                } else if j == p {
                    assert(v[i] == before[i]);
                } else if i == p {
                    assert(v[j] == before[j - 1]);
                    if p < before.len() && j - 1 != p {
                        assert(!str_lt(before[j - 1], before[p as int]));
                    }
                    if str_lt(before[j - 1], x@) {
                        lemma_str_lt_transitive(before[j - 1], x@, before[p as int]);
                        lemma_str_lt_total(before[j - 1], before[p as int]);
                        if j - 1 == p {
                            crate::text::lemma_str_lt_irreflexive(before[p as int]);
                        }
                    }
                } else if i < p {
                    assert(v[i] == before[i] && v[j] == before[j - 1]);
                } else {
                    assert(v[i] == before[i - 1] && v[j] == before[j - 1]);
                }
            }
            assert(names_view(out@).to_multiset().add(names_view(rest@).to_multiset()) =~= all);
        }
    }
    proof {
        assert(names_view(rest@) =~= Seq::<Seq<char>>::empty());
        assert(names_view(rest@).to_multiset() =~= Multiset::empty());
        assert(names_view(out@).to_multiset() =~= all);
    }
    out
}

} // verus!
