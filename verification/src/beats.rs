//! Beats: stepping between them and generating edits on them. A beat spans two
//! frames of the timeline.
use crate::rows::LightEditInput;
use vstd::prelude::*;

verus! {

broadcast use vstd::seq::group_seq_axioms;

/// The first beat after `f`, or the last one before it.
pub fn neighbor_beat(beats: &[u32], f: u32, forward: bool) -> (r: Option<u32>)
    ensures
        forward ==> match r {
            Some(b) => exists|i: int|
                0 <= i < beats@.len() && #[trigger] beats@[i] == b && b > f && forall|j: int| 0 <= j < i ==> #[trigger] beats@[j] <= f,
            None => forall|j: int| 0 <= j < beats@.len() ==> #[trigger] beats@[j] <= f,
        },
        !forward ==> match r {
            Some(b) => exists|i: int|
                0 <= i < beats@.len() && #[trigger] beats@[i] == b && b < f && forall|j: int|
                    i < j < beats@.len() ==> #[trigger] beats@[j] >= f,
            None => forall|j: int| 0 <= j < beats@.len() ==> #[trigger] beats@[j] >= f,
        },
        (forall|i: int, j: int| 0 <= i < j < beats@.len() ==> #[trigger] beats@[i] < #[trigger] beats@[j]) ==> {
            &&& r matches Some(b) ==> beats@.contains(b) && (forward <==> b > f) && b != f
            &&& forward ==> forall|j: int| 0 <= j < beats@.len() && #[trigger] beats@[j] > f ==> r is Some && r->0 <= beats@[j]
            &&& !forward ==> forall|j: int| 0 <= j < beats@.len() && #[trigger] beats@[j] < f ==> r is Some && r->0 >= beats@[j]
        },
{
    if forward {
        let mut i: usize = 0;
        while i < beats.len()
            invariant
                i <= beats@.len(),
                forward,
                forall|j: int| 0 <= j < i ==> #[trigger] beats@[j] <= f,
            decreases beats@.len() - i,
        {
            if beats[i] > f {
                assert(beats@[i as int] > f);
                return Some(beats[i]);
            }
            i = i + 1;
        }
        None
    } else {
        let mut i: usize = beats.len();
        while i > 0
            invariant
                i <= beats@.len(),
                !forward,
                forall|j: int| i <= j < beats@.len() ==> #[trigger] beats@[j] >= f,
            decreases i,
        {
            if beats[i - 1] < f {
                assert(beats@[i - 1] < f);
                return Some(beats[i - 1]);
            }
            i = i - 1;
        }
        None
    }
}

/// An edit.
pub open spec fn put(light: int, frame: int, state: u8) -> LightEditInput {
    LightEditInput { light: light as u32, frame: frame as u32, state }
}

/// The smaller of two numbers.
pub open spec fn min_of(a: int, b: int) -> int {
    if a < b {
        a
    } else {
        b
    }
}

/// The last frame of the timeline.
pub open spec fn last_frame(nf: u32) -> int {
    if nf == 0 {
        0
    } else {
        nf - 1
    }
}

/// The frame of the beat after beat `i`; the end of the timeline after the last.
pub open spec fn next_beat(beats: Seq<u32>, i: int, nf: u32) -> int {
    min_of(
        if i + 1 < beats.len() {
            beats[i + 1] as int
        } else {
            nf as int
        },
        nf as int,
    )
}

/// Where a strobe flash on a beat ends: halfway to the next beat.
pub open spec fn strobe_off(bf: int, next: int, nf: u32) -> int {
    min_of(
        bf + if next > bf {
            (next - bf) / 2
        } else {
            0
        },
        last_frame(nf),
    )
}

/// A flash of the first `n` lights.
pub open spec fn strobe(bf: int, off: int, n: nat) -> Seq<LightEditInput>
    decreases n,
{
    if n == 0 {
        Seq::empty()
    } else {
        let on = strobe(bf, off, (n - 1) as nat).push(put(n - 1, bf, 1));
        if off > bf {
            on.push(put(n - 1, off, 0))
        } else {
            on
        }
    }
}

/// One light on for one beat.
pub open spec fn chase(light: int, bf: int, off: int) -> Seq<LightEditInput> {
    if off > bf {
        seq![put(light, bf, 1), put(light, off, 0)]
    } else {
        seq![put(light, bf, 1)]
    }
}

/// The first `n` lights on or off by turns.
pub open spec fn alternate(i: int, bf: int, n: nat) -> Seq<LightEditInput>
    decreases n,
{
    if n == 0 {
        Seq::empty()
    } else {
        alternate(i, bf, (n - 1) as nat).push(put(n - 1, bf, if (n - 1 + i) % 2 == 0 { 1 } else { 0 }))
    }
}

/// The edits on beat `i`: 0 flashes every light until halfway to the next beat, 1
/// lights one after the other for a beat each, and anything else alternates.
pub open spec fn on_beat(beats: Seq<u32>, i: int, nl: u32, nf: u32, pattern: u8) -> Seq<LightEditInput> {
    let bf = beats[i] as int;
    let next = next_beat(beats, i, nf);
    if pattern == 0 {
        strobe(bf, strobe_off(bf, next, nf), nl as nat)
    } else if pattern == 1 {
        chase(i % nl as int, bf, min_of(next, last_frame(nf)))
    } else {
        alternate(i, bf, nl as nat)
    }
}

/// The edits on the first `n` beats.
pub open spec fn on_beats(beats: Seq<u32>, nl: u32, nf: u32, pattern: u8, n: nat) -> Seq<LightEditInput>
    decreases n,
{
    if n == 0 {
        Seq::empty()
    } else {
        on_beats(beats, nl, nf, pattern, (n - 1) as nat) + on_beat(beats, n - 1, nl, nf, pattern)
    }
}

/// Generates light keyframes on every beat, by the chosen pattern.
pub fn autogen_on_beats(nl: u32, nf: u32, beats: &[u32], pattern: u8) -> (r: Vec<LightEditInput>)
    requires
        pattern == 1 && beats@.len() > 0 ==> nl >= 1,
        nl + beats@.len() <= u32::MAX,
    ensures
        r@ == on_beats(beats@, nl, nf, pattern, beats@.len()),
{
    let mut out: Vec<LightEditInput> = Vec::new();
    let last: u32 = if nf == 0 { 0 } else { nf - 1 };
    let mut i: usize = 0;
    while i < beats.len()
        invariant
            i <= beats@.len(),
            pattern == 1 && beats@.len() > 0 ==> nl >= 1,
            nl + beats@.len() <= u32::MAX,
            last == last_frame(nf),
            out@ == on_beats(beats@, nl, nf, pattern, i as nat),
        decreases beats@.len() - i,
    {
        let bf: u32 = beats[i];
        let ghost before = out@;
        let after: u32 = if i < beats.len() - 1 { beats[i + 1] } else { nf };
        let next: u32 = if after < nf { after } else { nf };
        assert(next == next_beat(beats@, i as int, nf));
        if pattern == 0 {
            let half: u32 = bf + if next > bf { (next - bf) / 2 } else { 0 };
            let off: u32 = if half < last { half } else { last };
            let mut l: u32 = 0;
            assert(out@ =~= before + strobe(bf as int, off as int, 0));
            while l < nl
                invariant
                    l <= nl,
                    out@ == before + strobe(bf as int, off as int, l as nat),
                decreases nl - l,
            {
                let ghost done = strobe(bf as int, off as int, l as nat);
                out.push(LightEditInput { light: l, frame: bf, state: 1 });
                if off > bf {
                    out.push(LightEditInput { light: l, frame: off, state: 0 });
                }
                l = l + 1;
                assert(out@ =~= before + strobe(bf as int, off as int, l as nat));
            }
        } else if pattern == 1 {
            let l: u32 = i as u32 % nl;
            out.push(LightEditInput { light: l, frame: bf, state: 1 });
            let off: u32 = if next < last { next } else { last };
            if off > bf {
                out.push(LightEditInput { light: l, frame: off, state: 0 });
            }
            assert(out@ =~= before + chase(l as int, bf as int, off as int));
        } else {
            let mut l: u32 = 0;
            assert(out@ =~= before + alternate(i as int, bf as int, 0));
            while l < nl
                invariant
                    l <= nl,
                    i < beats@.len(),
                    nl + beats@.len() <= u32::MAX,
                    out@ == before + alternate(i as int, bf as int, l as nat),
                decreases nl - l,
            {
                let on: bool = (l + i as u32) % 2 == 0;
                let state: u8 = if on { 1 } else { 0 };
                out.push(LightEditInput { light: l, frame: bf, state });
                l = l + 1;
                assert(out@ =~= before + alternate(i as int, bf as int, l as nat));
            }
        }
        i = i + 1;
    }
    out
}

} // verus!
