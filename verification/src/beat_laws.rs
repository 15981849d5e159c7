//! What the patterns on beats look like once they are generated.
use crate::beats::{alternate, chase, last_frame, min_of, next_beat, on_beat, on_beats, put, strobe, strobe_off};
use crate::editing::lemma_overlaid_add;
use crate::logic::{edited, held_at, key_at, law_hold, law_off_before_first, overlaid};
use crate::rows::LightEditInput;
use vstd::prelude::*;

verus! {

broadcast use vstd::seq::group_seq_axioms;

/// The beats ascend and lie on a timeline of `nf` frames.
pub open spec fn beats_ok(beats: Seq<u32>, nf: u32) -> bool {
    &&& forall|i: int, j: int| 0 <= i < j < beats.len() ==> #[trigger] beats[i] < #[trigger] beats[j]
    &&& forall|i: int| 0 <= i < beats.len() ==> #[trigger] beats[i] < nf
}

/// A beat lasts until the next one, and the last until the show ends.
pub open spec fn beat_end(beats: Seq<u32>, i: int, nf: u32) -> int {
    if i == beats.len() - 1 {
        nf as int
    } else {
        beats[i + 1] as int
    }
}

proof fn lemma_next(beats: Seq<u32>, i: int, nf: u32)
    requires
        beats_ok(beats, nf),
        0 <= i < beats.len(),
    ensures
        next_beat(beats, i, nf) == beat_end(beats, i, nf),
        beats[i] < beat_end(beats, i, nf) <= nf,
{
    if i < beats.len() - 1 {
        assert(beats[i] < beats[i + 1]);
        assert(beats[i + 1] < nf);
    }
    assert(beats[i] < nf);
}

/// What the edits on one more beat do to a keyframe.
proof fn lemma_more(m: Map<(u32, u32), bool>, beats: Seq<u32>, nl: u32, nf: u32, pattern: u8, n: nat)
    requires
        n > 0,
    ensures
        overlaid(m, on_beats(beats, nl, nf, pattern, n)) == overlaid(
            overlaid(m, on_beats(beats, nl, nf, pattern, (n - 1) as nat)),
            on_beat(beats, n - 1, nl, nf, pattern),
        ),
{
    lemma_overlaid_add(m, on_beats(beats, nl, nf, pattern, (n - 1) as nat), on_beat(beats, n - 1, nl, nf, pattern));
}

/// A light is held by its keyframes up to a frame alone.
proof fn lemma_held_same(a: Map<(u32, u32), bool>, b: Map<(u32, u32), bool>, light: u32, f: u32)
    requires
        forall|g: u32| g <= f ==> key_at(a, (light, g)) == #[trigger] key_at(b, (light, g)),
    ensures
        held_at(a, light, f as nat) == held_at(b, light, f as nat),
    decreases f,
{
    assert(key_at(a, (light, f)) == key_at(b, (light, f)));
    if f > 0 {
        lemma_held_same(a, b, light, (f - 1) as u32);
    }
}

// ---- alternate --------------------------------------------------------------

proof fn lemma_alternate(m: Map<(u32, u32), bool>, i: int, bf: u32, n: nat, q: (u32, u32))
    requires
        n <= u32::MAX,
        i >= 0,
    ensures
        key_at(overlaid(m, alternate(i, bf as int, n)), q) == (if q.1 == bf && q.0 < n {
            Some((q.0 + i) % 2 == 0)
        } else {
            key_at(m, q)
        }),
    decreases n,
{
    if n > 0 {
        let rest = alternate(i, bf as int, (n - 1) as nat);
        lemma_alternate(m, i, bf, (n - 1) as nat, q);
        let e = put(n - 1, bf as int, if (n - 1 + i) % 2 == 0 { 1 } else { 0 });
        assert(alternate(i, bf as int, n).drop_last() =~= rest);
        assert(alternate(i, bf as int, n).last() == e);
    }
}

proof fn lemma_alternating(m: Map<(u32, u32), bool>, beats: Seq<u32>, nl: u32, nf: u32, pattern: u8, n: nat, i: int, l: u32)
    requires
        pattern >= 2,
        beats_ok(beats, nf),
        0 <= i < n <= beats.len(),
        l < nl,
    ensures
        key_at(overlaid(m, on_beats(beats, nl, nf, pattern, n)), (l, beats[i])) == Some((l + i) % 2 == 0),
    decreases n,
{
    let before = overlaid(m, on_beats(beats, nl, nf, pattern, (n - 1) as nat));
    lemma_more(m, beats, nl, nf, pattern, n);
    lemma_alternate(before, n - 1, beats[n - 1], nl as nat, (l, beats[i]));
    if i < n - 1 {
        lemma_alternating(m, beats, nl, nf, pattern, (n - 1) as nat, i, l);
        assert(beats[i] < beats[n - 1]);
    }
}

/// The alternate pattern alternates: at every beat each light is the opposite of what it
/// was at the beat before and of its neighbour, and light 0 is on at the first beat.
pub proof fn law_alternate(m: Map<(u32, u32), bool>, beats: Seq<u32>, nl: u32, nf: u32, pattern: u8, i: int, l: u32)
    requires
        pattern >= 2,
        beats_ok(beats, nf),
        0 <= i < beats.len(),
        l < nl,
    ensures
        ({
            let after = overlaid(m, on_beats(beats, nl, nf, pattern, beats.len()));
            &&& i > 0 ==> held_at(after, l, beats[i] as nat) == !held_at(after, l, beats[i - 1] as nat)
            &&& l > 0 ==> held_at(after, l, beats[i] as nat) == !held_at(after, (l - 1) as u32, beats[i] as nat)
            &&& held_at(after, 0, beats[0] as nat)
        }),
{
    lemma_alternating(m, beats, nl, nf, pattern, beats.len(), i, l);
    lemma_alternating(m, beats, nl, nf, pattern, beats.len(), 0, 0);
    if i > 0 {
        lemma_alternating(m, beats, nl, nf, pattern, beats.len(), i - 1, l);
    }
    if l > 0 {
        lemma_alternating(m, beats, nl, nf, pattern, beats.len(), i, (l - 1) as u32);
    }
}

// ---- strobe -----------------------------------------------------------------

proof fn lemma_strobe(m: Map<(u32, u32), bool>, bf: u32, off: u32, n: nat, q: (u32, u32))
    requires
        n <= u32::MAX,
    ensures
        key_at(overlaid(m, strobe(bf as int, off as int, n)), q) == (if q.0 < n && q.1 == bf {
            Some(true)
        } else if q.0 < n && q.1 == off && off > bf {
            Some(false)
        } else {
            key_at(m, q)
        }),
    decreases n,
{
    if n > 0 {
        let rest = strobe(bf as int, off as int, (n - 1) as nat);
        lemma_strobe(m, bf, off, (n - 1) as nat, q);
        let e = put(n - 1, bf as int, 1);
        let on = rest.push(e);
        assert(on.drop_last() =~= rest);
        assert(on.last() == e);
        assert(overlaid(m, on) == edited(overlaid(m, rest), e.light, e.frame, e.state));
        if off > bf {
            assert(strobe(bf as int, off as int, n).drop_last() =~= on);
        }
    }
}

/// The keyframes of a strobe, as far as beat `n`.
proof fn lemma_strobing(beats: Seq<u32>, nl: u32, nf: u32, n: nat, l: u32, f: u32)
    requires
        beats_ok(beats, nf),
        n <= beats.len(),
        l < nl,
    ensures
        ({
            let k = key_at(overlaid(Map::empty(), on_beats(beats, nl, nf, 0, n)), (l, f));
            &&& n < beats.len() && f >= beats[n as int] ==> k is None
            &&& forall|i: int|
                0 <= i < n && #[trigger] beats[i] <= f < beat_end(beats, i, nf) ==> k == (if f == beats[i] {
                    Some(true)
                } else if f == beats[i] + (beat_end(beats, i, nf) - beats[i]) / 2 {
                    Some(false)
                } else {
                    None
                })
        }),
    decreases n,
{
    let after = overlaid(Map::empty(), on_beats(beats, nl, nf, 0, n));
    if n > 0 {
        let j = n - 1;
        let before = overlaid(Map::empty(), on_beats(beats, nl, nf, 0, j as nat));
        let b = beats[j];
        lemma_next(beats, j, nf);
        let end = beat_end(beats, j, nf);
        let off = strobe_off(b as int, next_beat(beats, j, nf), nf);
        assert(off == b + (end - b) / 2);
        lemma_strobing(beats, nl, nf, j as nat, l, f);
        lemma_more(Map::empty(), beats, nl, nf, 0, n);
        lemma_strobe(before, b, off as u32, nl as nat, (l, f));
        assert forall|i: int| 0 <= i < n && #[trigger] beats[i] <= f < beat_end(beats, i, nf) implies key_at(after, (l, f)) == (if f
            == beats[i] {
            Some(true)
        } else if f == beats[i] + (beat_end(beats, i, nf) - beats[i]) / 2 {
            Some(false)
        } else {
            None
        }) by {
            if i < j {
                assert(beats[i + 1] <= beats[j]);
            }
        }
    }
}

/// A strobe flashes: on every beat of a fresh show all lights go on together, and they go
/// off halfway to the next beat. A beat of a single frame is on throughout.
pub proof fn law_strobe(beats: Seq<u32>, nl: u32, nf: u32, i: int, l: u32, f: u32)
    requires
        beats_ok(beats, nf),
        0 <= i < beats.len(),
        l < nl,
        beats[i] <= f < beat_end(beats, i, nf),
    ensures
        held_at(overlaid(Map::empty(), on_beats(beats, nl, nf, 0, beats.len())), l, f as nat) <==> (f - beats[i]) < (beat_end(
            beats,
            i,
            nf,
        ) - beats[i]) / 2 || f == beats[i],
{
    let after = overlaid(Map::empty(), on_beats(beats, nl, nf, 0, beats.len()));
    let b = beats[i];
    let half = b + (beat_end(beats, i, nf) - b) / 2;
    lemma_next(beats, i, nf);
    assert forall|g: u32| b <= g <= f implies key_at(after, (l, g)) == (if g == b {
        Some(true)
    } else if g == half {
        Some(false)
    } else {
        None
    }) by {
        lemma_strobing(beats, nl, nf, beats.len(), l, g);
    }
    assert(key_at(after, (l, b)) == Some(true));
    if f < half || half == b {
        assert forall|g: u32| b < g <= f implies !after.contains_key((l, g)) by {
            assert(key_at(after, (l, g)) is None);
        }
        law_hold(after, l, b, f);
        if half == b {
            assert(beat_end(beats, i, nf) - b < 2);
        }
    } else {
        assert(key_at(after, (l, half as u32)) == Some(false));
        assert forall|g: u32| half < g <= f implies !after.contains_key((l, g)) by {
            assert(key_at(after, (l, g)) is None);
        }
        law_hold(after, l, half as u32, f);
    }
}

// ---- chase ------------------------------------------------------------------

proof fn lemma_chase(m: Map<(u32, u32), bool>, light: u32, bf: u32, off: u32, q: (u32, u32))
    ensures
        key_at(overlaid(m, chase(light as int, bf as int, off as int)), q) == (if q.0 == light && q.1 == off && off > bf {
            Some(false)
        } else if q.0 == light && q.1 == bf {
            Some(true)
        } else {
            key_at(m, q)
        }),
{
    let on = put(light as int, bf as int, 1);
    let c = chase(light as int, bf as int, off as int);
    reveal_with_fuel(overlaid, 3);
    if off > bf {
        assert(c.drop_last() =~= seq![on]);
        assert(c.drop_last().drop_last() =~= Seq::<LightEditInput>::empty());
    } else {
        assert(c.drop_last() =~= Seq::<LightEditInput>::empty());
    }
}

/// What a chase shows, as far as beat `n`: where it has been, one light at a time; from
/// there on nothing.
proof fn lemma_chasing(beats: Seq<u32>, nl: u32, nf: u32, n: nat, l: u32)
    requires
        beats_ok(beats, nf),
        n <= beats.len(),
        l < nl,
    ensures
        ({
            let after = overlaid(Map::empty(), on_beats(beats, nl, nf, 1, n));
            &&& n < beats.len() ==> forall|f: u32| f > beats[n as int] ==> #[trigger] key_at(after, (l, f)) is None
            &&& n < beats.len() ==> !held_at(after, l, beats[n as int] as nat)
            &&& forall|i: int, f: u32|
                0 <= i < n && #[trigger] beats[i] <= f < beat_end(beats, i, nf) && (f < nf - 1 || f == beats[i]) ==> (#[trigger] held_at(
                    after,
                    l,
                    f as nat,
                ) <==> l == i % nl as int)
        }),
    decreases n,
{
    let after = overlaid(Map::empty(), on_beats(beats, nl, nf, 1, n));
    if n == 0 {
        assert(after =~= Map::<(u32, u32), bool>::empty());
        if beats.len() > 0 {
            law_off_before_first(after, l, beats[0]);
        }
    } else {
        let j = n - 1;
        let before = overlaid(Map::empty(), on_beats(beats, nl, nf, 1, j as nat));
        let b = beats[j];
        let light = (j % nl as int) as u32;
        lemma_next(beats, j, nf);
        let end = beat_end(beats, j, nf);
        let off = min_of(next_beat(beats, j, nf), last_frame(nf)) as u32;
        lemma_chasing(beats, nl, nf, j as nat, l);
        lemma_more(Map::empty(), beats, nl, nf, 1, n);
        assert forall|f: u32| #[trigger] key_at(after, (l, f)) == (if l == light && f == off && off > b {
            Some(false)
        } else if l == light && f == b {
            Some(true)
        } else {
            key_at(before, (l, f))
        }) by {
            lemma_chase(before, light, b, off, (l, f));
        }
        assert forall|f: u32| f < b implies held_at(after, l, f as nat) == held_at(before, l, f as nat) by {
            lemma_held_same(after, before, l, f);
        }
        assert forall|i: int, f: u32|
            0 <= i < n && #[trigger] beats[i] <= f < beat_end(beats, i, nf) && (f < nf - 1 || f == beats[i]) implies (#[trigger] held_at(
            after,
            l,
            f as nat,
        ) <==> l == i % nl as int) by {
            if i < j {
                assert(beats[i + 1] <= beats[j]);
                assert(f < b);
                assert(held_at(before, l, f as nat) <==> l == i % nl as int);
            } else {
                lemma_after_beat(before, after, l, b, off, f, l == light);
            }
        }
        if n < beats.len() {
            assert(end == beats[n as int]);
            assert(beats[n as int] < nf);
            assert(off == end);
            if l == light {
                assert(key_at(after, (l, off)) == Some(false));
            } else {
                lemma_after_beat(before, after, l, b, off, off, false);
            }
        }
    }
}

/// From a beat on, a light that it starts is on until it is stopped, and another is off.
proof fn lemma_after_beat(
    before: Map<(u32, u32), bool>,
    after: Map<(u32, u32), bool>,
    l: u32,
    b: u32,
    off: u32,
    f: u32,
    own: bool,
)
    requires
        b <= f,
        forall|g: u32| g > b ==> #[trigger] key_at(before, (l, g)) is None,
        !held_at(before, l, b as nat),
        forall|g: u32| #[trigger]
            key_at(after, (l, g)) == (if own && g == off && off > b {
                Some(false)
            } else if own && g == b {
                Some(true)
            } else {
                key_at(before, (l, g))
            }),
        own ==> f < off || f == b,
    ensures
        held_at(after, l, f as nat) == own,
    decreases f,
{
    assert(key_at(after, (l, f)) == (if own && f == off && off > b {
        Some(false)
    } else if own && f == b {
        Some(true)
    } else {
        key_at(before, (l, f))
    }));
    if f > b {
        assert(key_at(before, (l, f)) is None);
        lemma_after_beat(before, after, l, b, off, (f - 1) as u32, own);
    } else if !own {
        lemma_held_same(after, before, l, b);
    }
}

/// A chase lights one light at a time: throughout a beat of a fresh show exactly one
/// light is on, the first on the first beat and the next one, in a circle, on each beat
/// after. Only the show's last frame, where no beat falls, is dark.
pub proof fn law_chase(beats: Seq<u32>, nl: u32, nf: u32, i: int, l: u32, f: u32)
    requires
        beats_ok(beats, nf),
        0 <= i < beats.len(),
        l < nl,
        beats[i] <= f < beat_end(beats, i, nf),
        f < nf - 1 || f == beats[i],
    ensures
        held_at(overlaid(Map::empty(), on_beats(beats, nl, nf, 1, beats.len())), l, f as nat) <==> l == i % nl as int,
{
    lemma_chasing(beats, nl, nf, beats.len(), l);
    assert(beats[i] <= f);
}

} // verus!
