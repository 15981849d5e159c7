//! Editing one light's row: the bars of a held row, and the edits that turn a
//! row into another.
use crate::logic::{
    fewest, held_at, held_row, key_at, key_before, key_of, keyframe_map, law_fewest, named, overlaid, state_for, Keyframe, Keyframes,
};
use crate::rows::LightEditInput;
use vstd::prelude::*;

verus! {

broadcast use vstd::seq::group_seq_axioms;

// ---- bars -------------------------------------------------------------------

/// `s..=e` is a bar of the row: every frame in it is on, and the frames next to
/// it are off or outside.
pub open spec fn is_bar(row: Seq<bool>, s: int, e: int) -> bool {
    &&& 0 <= s <= e < row.len()
    &&& forall|f: int| s <= f <= e ==> #[trigger] row[f]
    &&& s == 0 || !row[s - 1]
    &&& e == row.len() - 1 || !row[e + 1]
}

/// The bar that contains frame `f`, if `f` is on.
pub open spec fn bar_at(row: Seq<bool>, f: int) -> Option<(u32, u32)> {
    if 0 <= f < row.len() && row[f] {
        Some(choose|b: (u32, u32)| #[trigger] is_bar(row, b.0 as int, b.1 as int) && b.0 <= f <= b.1)
    } else {
        None
    }
}

/// The bar that contains frame `f`, if `f` is on.
pub fn run_containing(row: &[bool], f: u32) -> (r: Option<(u32, u32)>)
    requires
        row@.len() <= u32::MAX,
    ensures
        r is None <==> f >= row@.len() || !row@[f as int],
        r matches Some((s, e)) ==> is_bar(row@, s as int, e as int) && s <= f <= e,
        r == bar_at(row@, f as int),
{
    let fi: usize = f as usize;
    if fi >= row.len() || !row[fi] {
        return None;
    }
    let mut s: usize = fi;
    while s > 0 && row[s - 1]
        invariant
            s <= fi < row@.len(),
            forall|g: int| s <= g <= fi ==> #[trigger] row@[g],
        decreases s,
    {
        s = s - 1;
    }
    let mut e: usize = fi;
    while e < row.len() - 1 && row[e + 1]
        invariant
            fi <= e < row@.len(),
            forall|g: int| fi <= g <= e ==> #[trigger] row@[g],
        decreases row@.len() - e,
    {
        e = e + 1;
    }
    proof {
        let b = (s as u32, e as u32);
        assert(is_bar(row@, b.0 as int, b.1 as int));
        let c = bar_at(row@, f as int)->0;
        assert(is_bar(row@, c.0 as int, c.1 as int) && c.0 <= f <= c.1);
        law_bars_are_disjoint(row@, (b.0 as int, b.1 as int), (c.0 as int, c.1 as int), f as int);
    }
    Some((s as u32, e as u32))
}

/// Two bars that share a frame are the same.
pub proof fn law_bars_are_disjoint(row: Seq<bool>, a: (int, int), b: (int, int), f: int)
    requires
        is_bar(row, a.0, a.1),
        is_bar(row, b.0, b.1),
        a.0 <= f <= a.1,
        b.0 <= f <= b.1,
    ensures
        a == b,
{
    if a.0 < b.0 {
        assert(row[b.0 - 1]);
    }
    if b.0 < a.0 {
        assert(row[a.0 - 1]);
    }
    if a.1 < b.1 {
        assert(row[a.1 + 1]);
    }
    if b.1 < a.1 {
        assert(row[b.1 + 1]);
    }
}

/// The list holds every bar of the row's first `n` frames, in order.
pub open spec fn lists_bars(row: Seq<bool>, bars: Seq<(u32, u32)>, n: int) -> bool {
    &&& forall|i: int| 0 <= i < bars.len() ==> is_bar(row, (#[trigger] bars[i]).0 as int, bars[i].1 as int)
    &&& forall|i: int, j: int| 0 <= i < j < bars.len() ==> (#[trigger] bars[i]).1 < (#[trigger] bars[j]).0
    &&& forall|f: int|
        0 <= f < n && #[trigger] row[f] ==> exists|i: int| 0 <= i < bars.len() && (#[trigger] bars[i]).0 <= f <= bars[i].1
}

/// The bars of a row, in order.
pub fn bars(row: &[bool]) -> (r: Vec<(u32, u32)>)
    requires
        row@.len() <= u32::MAX,
    ensures
        lists_bars(row@, r@, row@.len() as int),
{
    let mut out: Vec<(u32, u32)> = Vec::new();
    let mut f: usize = 0;
    while f < row.len()
        invariant
            f <= row@.len() <= u32::MAX,
            lists_bars(row@, out@, f as int),
            forall|i: int| 0 <= i < out@.len() ==> (#[trigger] out@[i]).1 < f,
            f > 0 && f < row@.len() && row@[f as int] ==> !row@[f - 1],
        decreases row@.len() - f,
    {
        let run: Option<(u32, u32)> = run_containing(row, f as u32);
        let ghost before = out@;
        match run {
            Some((s, e)) => {
                assert(s == f) by {
                    if s < f {
                        assert(row@[f - 1]);
                    }
                }
                out.push((s, e));
                proof {
                    assert forall|g: int| 0 <= g < e + 1 && #[trigger] row@[g] implies exists|i: int|
                        0 <= i < out@.len() && (#[trigger] out@[i]).0 <= g <= out@[i].1 by {
                        if g < f {
                            let i = choose|i: int| 0 <= i < before.len() && (#[trigger] before[i]).0 <= g <= before[i].1;
                            assert(out@[i] == before[i]);
                        } else {
                            assert(out@[before.len() as int].0 <= g);
                        }
                    }
                }
                f = e as usize + 1;
            },
            None => {
                proof {
                    assert forall|g: int| 0 <= g < f + 1 && #[trigger] row@[g] implies exists|i: int|
                        0 <= i < out@.len() && (#[trigger] out@[i]).0 <= g <= out@[i].1 by {
                        assert(g < f);
                    }
                }
                f = f + 1;
            },
        }
    }
    out
}

// ---- rows -------------------------------------------------------------------

/// The row with the frames `a..=b` set to `v`.
pub open spec fn filled(row: Seq<bool>, a: int, b: int, v: bool) -> Seq<bool> {
    Seq::new(row.len(), |f: int| if a <= f <= b { v } else { row[f] })
}

/// Sets the frames `a..=b` to `v`.
pub fn fill(row: &mut Vec<bool>, a: u32, b: u32, v: bool)
    requires
        b < old(row)@.len(),
    ensures
        final(row)@ == filled(old(row)@, a as int, b as int, v),
{
    let ghost start = row@;
    assert(b < row.len());
    let end: usize = b as usize + 1;
    let mut f: usize = a as usize;
    assert(row@ =~= filled(start, a as int, a - 1, v));
    while f < end
        invariant
            end == b + 1,
            a <= f,
            f <= end || f == a,
            b < start.len(),
            row@ == filled(start, a as int, f - 1, v),
        decreases end - f,
    {
        row.set(f, v);
        assert(row@ =~= filled(start, a as int, f as int, v));
        f = f + 1;
    }
    assert(row@ =~= filled(start, a as int, b as int, v));
}

/// The row after painting from frame `start` to frame `cur`.
pub open spec fn painted(row: Seq<bool>, start: u32, cur: u32) -> Seq<bool> {
    if start <= cur {
        filled(row, start as int, cur as int, true)
    } else {
        filled(row, cur as int, start as int, true)
    }
}

/// Paints from frame `start` to frame `cur`.
pub fn paint(row: &Vec<bool>, start: u32, cur: u32) -> (r: Vec<bool>)
    requires
        start < row@.len(),
        cur < row@.len(),
    ensures
        r@ == painted(row@, start, cur),
{
    let mut r: Vec<bool> = crate::rows::copy_vec(row);
    if start <= cur {
        fill(&mut r, start, cur, true);
    } else {
        fill(&mut r, cur, start, true);
    }
    r
}

/// Where a bar lies after one of its edges is dragged to `cur`: the other edge
/// stays, and the bar keeps at least one frame.
pub open spec fn resized_bar(bar_start: u32, bar_end: u32, drag_left: bool, cur: u32) -> (u32, u32) {
    if drag_left {
        (if cur < bar_end { cur } else { bar_end }, bar_end)
    } else {
        (bar_start, if cur > bar_start { cur } else { bar_start })
    }
}

/// The row after a bar's edge is dragged.
pub open spec fn resized(row: Seq<bool>, bar_start: u32, bar_end: u32, drag_left: bool, cur: u32) -> Seq<bool> {
    let (s, e) = resized_bar(bar_start, bar_end, drag_left, cur);
    filled(filled(row, bar_start as int, bar_end as int, false), s as int, e as int, true)
}

/// Drags an edge of the bar `bar_start..=bar_end` to frame `cur`.
pub fn resize(row: &Vec<bool>, bar_start: u32, bar_end: u32, drag_left: bool, cur: u32) -> (r: Vec<bool>)
    requires
        bar_start < row@.len(),
        bar_end < row@.len(),
        cur < row@.len(),
    ensures
        r@ == resized(row@, bar_start, bar_end, drag_left, cur),
{
    let mut r: Vec<bool> = crate::rows::copy_vec(row);
    fill(&mut r, bar_start, bar_end, false);
    if drag_left {
        let s: u32 = if cur < bar_end { cur } else { bar_end };
        fill(&mut r, s, bar_end, true);
    } else {
        let e: u32 = if cur > bar_start { cur } else { bar_start };
        fill(&mut r, bar_start, e, true);
    }
    r
}

/// The row with one frame flipped.
pub open spec fn toggled(row: Seq<bool>, f: u32) -> Seq<bool> {
    row.update(f as int, !row[f as int])
}

/// Flips one frame.
pub fn toggle(row: &Vec<bool>, f: u32) -> (r: Vec<bool>)
    requires
        f < row@.len(),
    ensures
        r@ == toggled(row@, f),
{
    let mut r: Vec<bool> = crate::rows::copy_vec(row);
    let v: bool = r[f as usize];
    r.set(f as usize, !v);
    r
}

// ---- from a row to edits ----------------------------------------------------

/// `keys` are exactly the keyframes of one light, by frame.
pub open spec fn light_keys(m: Map<(u32, u32), bool>, light: u32, keys: Seq<(u32, bool)>) -> bool {
    &&& forall|i: int, j: int| 0 <= i < j < keys.len() ==> (#[trigger] keys[i]).0 < (#[trigger] keys[j]).0
    &&& forall|i: int| 0 <= i < keys.len() ==> m.contains_key((light, (#[trigger] keys[i]).0)) && m[(light, keys[i].0)] == keys[i].1
    &&& forall|f: u32| #[trigger] m.contains_key((light, f)) ==> keys.contains((f, m[(light, f)]))
}

/// One of the first `n` keyframes is of `light` and at `frame`.
spec fn has_frame(all: Seq<Keyframe>, n: int, light: u32, frame: u32) -> bool {
    exists|k: int| 0 <= k < n && (#[trigger] all[k]).light == light && all[k].frame == frame
}

/// The keyframes of one light before frame `n`, by frame.
pub open spec fn keys_below(m: Map<(u32, u32), bool>, light: u32, n: nat) -> Seq<(u32, bool)>
    decreases n,
{
    if n == 0 {
        Seq::empty()
    } else {
        let rest = keys_below(m, light, (n - 1) as nat);
        let f = (n - 1) as u32;
        if m.contains_key((light, f)) {
            rest.push((f, m[(light, f)]))
        } else {
            rest
        }
    }
}

/// The keyframes of one light, by frame.
pub open spec fn keys_of(m: Map<(u32, u32), bool>, light: u32) -> Seq<(u32, bool)> {
    keys_below(m, light, 0x1_0000_0000)
}

proof fn lemma_keys_below(m: Map<(u32, u32), bool>, light: u32, n: nat)
    requires
        n <= 0x1_0000_0000,
    ensures
        ({
            let keys = keys_below(m, light, n);
            &&& forall|i: int, j: int| 0 <= i < j < keys.len() ==> (#[trigger] keys[i]).0 < (#[trigger] keys[j]).0
            &&& forall|i: int|
                0 <= i < keys.len() ==> (#[trigger] keys[i]).0 < n && m.contains_key((light, keys[i].0)) && m[(light, keys[i].0)]
                    == keys[i].1
            &&& forall|f: u32| f < n && #[trigger] m.contains_key((light, f)) ==> keys.contains((f, m[(light, f)]))
        }),
    decreases n,
{
    if n > 0 {
        lemma_keys_below(m, light, (n - 1) as nat);
        let rest = keys_below(m, light, (n - 1) as nat);
        let keys = keys_below(m, light, n);
        assert forall|f: u32| f < n && #[trigger] m.contains_key((light, f)) implies keys.contains((f, m[(light, f)])) by {
            if f < n - 1 {
                assert(rest.contains((f, m[(light, f)])));
                let k = choose|k: int| 0 <= k < rest.len() && rest[k] == (f, m[(light, f)]);
                assert(keys[k] == rest[k]);
            } else {
                assert(keys[rest.len() as int] == (f, m[(light, f)]));
            }
        }
    }
}

/// Ascending lists of the same elements are the same.
proof fn lemma_same_keys(a: Seq<(u32, bool)>, b: Seq<(u32, bool)>)
    requires
        forall|i: int, j: int| 0 <= i < j < a.len() ==> (#[trigger] a[i]).0 < (#[trigger] a[j]).0,
        forall|i: int, j: int| 0 <= i < j < b.len() ==> (#[trigger] b[i]).0 < (#[trigger] b[j]).0,
        forall|x: (u32, bool)| #[trigger] a.contains(x) <==> b.contains(x),
    ensures
        a == b,
    decreases a.len(),
{
    if a.len() == 0 {
        if b.len() > 0 {
            assert(b.contains(b[0]));
            assert(a.contains(b[0]));
        }
        assert(a =~= b);
    } else {
        assert(a.contains(a.last()));
        assert(b.contains(a.last()));
        let j = choose|j: int| 0 <= j < b.len() && b[j] == a.last();
        assert(b.contains(b.last()));
        assert(a.contains(b.last()));
        let i = choose|i: int| 0 <= i < a.len() && a[i] == b.last();
        if j < b.len() - 1 {
            assert(b[j].0 < b[b.len() - 1].0);
            if i < a.len() - 1 {
                assert(a[i].0 < a[a.len() - 1].0);
            }
        }
        let c = a.drop_last();
        let d = b.drop_last();
        assert forall|x: (u32, bool)| #[trigger] c.contains(x) <==> d.contains(x) by {
            if c.contains(x) {
                let p = choose|p: int| 0 <= p < c.len() && c[p] == x;
                assert(a[p] == x);
                assert(a.contains(x));
                assert(b.contains(x));
                let q = choose|q: int| 0 <= q < b.len() && b[q] == x;
                assert(a[p].0 < a[a.len() - 1].0);
                assert(d[q] == x);
            }
            if d.contains(x) {
                let p = choose|p: int| 0 <= p < d.len() && d[p] == x;
                assert(b[p] == x);
                assert(b.contains(x));
                assert(a.contains(x));
                let q = choose|q: int| 0 <= q < a.len() && a[q] == x;
                assert(b[p].0 < b[b.len() - 1].0);
                assert(c[q] == x);
            }
        }
        lemma_same_keys(c, d);
        assert(a =~= c.push(a.last()));
        assert(b =~= d.push(b.last()));
    }
}

/// A light's keyframes are one list.
pub proof fn lemma_keys_of(m: Map<(u32, u32), bool>, light: u32, keys: Seq<(u32, bool)>)
    requires
        light_keys(m, light, keys),
    ensures
        keys == keys_of(m, light),
        light_keys(m, light, keys_of(m, light)),
{
    let other = keys_of(m, light);
    lemma_keys_below(m, light, 0x1_0000_0000);
    assert(light_keys(m, light, other));
    assert forall|x: (u32, bool)| #[trigger] keys.contains(x) <==> other.contains(x) by {
        if keys.contains(x) {
            let i = choose|i: int| 0 <= i < keys.len() && keys[i] == x;
            assert(m.contains_key((light, keys[i].0)));
        }
        if other.contains(x) {
            let i = choose|i: int| 0 <= i < other.len() && other[i] == x;
            assert(m.contains_key((light, other[i].0)));
        }
    }
    lemma_same_keys(keys, other);
}

/// The explicit keyframes of one light, in order of frame.
pub fn light_kfs(keyframes: &Keyframes, light: u32) -> (r: Vec<(u32, bool)>)
    ensures
        light_keys(keyframes@, light, r@),
        r@ == keys_of(keyframes@, light),
{
    let all: &Vec<Keyframe> = keyframes.entries();
    let ghost m = keyframes@;
    let mut out: Vec<(u32, bool)> = Vec::new();
    let mut i: usize = 0;
    while i < all.len()
        invariant
            i <= all@.len(),
            m == keyframe_map(all@),
            crate::logic::in_order(all@),
            forall|a: int, b: int| 0 <= a < b < out@.len() ==> (#[trigger] out@[a]).0 < (#[trigger] out@[b]).0,
            forall|a: int|
                0 <= a < out@.len() ==> m.contains_key((light, (#[trigger] out@[a]).0)) && m[(light, out@[a].0)] == out@[a].1,
            forall|a: int| 0 <= a < out@.len() ==> has_frame(all@, i as int, light, (#[trigger] out@[a]).0),
            forall|k: int| 0 <= k < i && (#[trigger] all@[k]).light == light ==> out@.contains((all@[k].frame, all@[k].on)),
        decreases all@.len() - i,
    {
        let k: Keyframe = all[i];
        let ghost before = out@;
        if k.light == light {
            out.push((k.frame, k.on));
            proof {
                crate::logic::lemma_keyframe_at(all@, i as int);
                assert forall|a: int, b: int| 0 <= a < b < out@.len() implies (#[trigger] out@[a]).0 < (#[trigger] out@[b]).0 by {
                    if b == before.len() {
                        assert(out@[a] == before[a]);
                        assert(has_frame(all@, i as int, light, before[a].0));
                        let q = choose|q: int| 0 <= q < i && (#[trigger] all@[q]).light == light && all@[q].frame == before[a].0;
                        assert(key_before(key_of(all@[q]), key_of(all@[i as int])));
                    }
                }
                assert forall|a: int| 0 <= a < out@.len() implies has_frame(all@, i + 1, light, (#[trigger] out@[a]).0) by {
                    if a < before.len() {
                        assert(has_frame(all@, i as int, light, before[a].0));
                    } else {
                        assert(all@[i as int].frame == out@[a].0);
                    }
                }
                assert forall|q: int| 0 <= q < i + 1 && (#[trigger] all@[q]).light == light implies out@.contains((all@[q].frame, all@[q].on)) by {
                    if q < i {
                        assert(before.contains((all@[q].frame, all@[q].on)));
                        let z = choose|z: int| 0 <= z < before.len() && before[z] == (all@[q].frame, all@[q].on);
                        assert(out@[z] == before[z]);
                    } else {
                        assert(out@[before.len() as int] == (k.frame, k.on));
                    }
                }
            }
        }
        i = i + 1;
    }
    proof {
        assert forall|f: u32| #[trigger] m.contains_key((light, f)) implies out@.contains((f, m[(light, f)])) by {
            let q = choose|q: int| 0 <= q < all@.len() && key_of(#[trigger] all@[q]) == (light, f);
            crate::logic::lemma_keyframe_at(all@, q);
            assert(all@[q].light == light);
        }
        lemma_keys_of(m, light, out@);
    }
    out
}

/// The keyframe that a row needs at `f`: where it changes, and at the start only
/// if it is on there.
pub open spec fn boundary(row: Seq<bool>, f: int) -> Option<bool> {
    if 0 <= f < row.len() && row[f] != (f > 0 && row[f - 1]) {
        Some(row[f])
    } else {
        None
    }
}

/// The edits that remove the keyframes at frames where the row needs none.
pub open spec fn clearing(light: u32, keys: Seq<(u32, bool)>, row: Seq<bool>) -> Seq<LightEditInput>
    decreases keys.len(),
{
    if keys.len() == 0 {
        Seq::empty()
    } else {
        let rest = clearing(light, keys.drop_last(), row);
        let k = keys.last();
        if boundary(row, k.0 as int) is None {
            rest.push(LightEditInput { light, frame: k.0, state: 2 })
        } else {
            rest
        }
    }
}

/// The edits that place the keyframes which the row needs in its first `n` frames
/// and which are not there; another keyframe at such a frame is overwritten.
pub open spec fn placing(light: u32, keys: Seq<(u32, bool)>, row: Seq<bool>, n: nat) -> Seq<LightEditInput>
    decreases n,
{
    if n == 0 {
        Seq::empty()
    } else {
        let rest = placing(light, keys, row, (n - 1) as nat);
        let f = (n - 1) as u32;
        match boundary(row, n - 1) {
            Some(v) => if keys.contains((f, v)) {
                rest
            } else {
                rest.push(LightEditInput { light, frame: f, state: if v { 1 } else { 0 } })
            },
            None => rest,
        }
    }
}

/// The edits that rewrite a light's keyframes to exactly the boundaries of `row`.
pub open spec fn reconciling(light: u32, keys: Seq<(u32, bool)>, row: Seq<bool>) -> Seq<LightEditInput> {
    clearing(light, keys, row) + placing(light, keys, row, row.len())
}

/// Appends the fewest edits after which the keyframes of `light` are exactly the
/// boundaries of `desired`, so that its held row is `desired`.
pub fn reconcile_light_edits(light: u32, cur_kfs: &Vec<(u32, bool)>, desired: &[bool], out: &mut Vec<LightEditInput>)
    requires
        desired@.len() <= u32::MAX,
        forall|i: int, j: int| 0 <= i < j < cur_kfs@.len() ==> (#[trigger] cur_kfs@[i]).0 < (#[trigger] cur_kfs@[j]).0,
    ensures
        final(out)@ == old(out)@ + reconciling(light, cur_kfs@, desired@),
{
    let ghost start = out@;
    let mut i: usize = 0;
    assert(out@ =~= start + clearing(light, cur_kfs@.take(0), desired@));
    while i < cur_kfs.len()
        invariant
            i <= cur_kfs@.len(),
            desired@.len() <= u32::MAX,
            out@ == start + clearing(light, cur_kfs@.take(i as int), desired@),
        decreases cur_kfs@.len() - i,
    {
        let k: (u32, bool) = cur_kfs[i];
        let ghost before = clearing(light, cur_kfs@.take(i as int), desired@);
        assert(cur_kfs@.take(i + 1).drop_last() =~= cur_kfs@.take(i as int));
        if boundary_at(desired, k.0).is_none() {
            out.push(LightEditInput { light, frame: k.0, state: 2 });
            assert(out@ =~= start + before.push(LightEditInput { light, frame: k.0, state: 2 }));
        }
        i = i + 1;
    }
    assert(cur_kfs@.take(cur_kfs@.len() as int) =~= cur_kfs@);
    let ghost mid = out@;
    let mut f: u32 = 0;
    // `at` is the first keyframe not before `f`.
    let mut at: usize = 0;
    let n: usize = desired.len();
    assert(out@ =~= mid + placing(light, cur_kfs@, desired@, 0));
    while (f as usize) < n
        invariant
            f <= n == desired@.len() <= u32::MAX,
            at <= cur_kfs@.len(),
            forall|a: int, b: int| 0 <= a < b < cur_kfs@.len() ==> (#[trigger] cur_kfs@[a]).0 < (#[trigger] cur_kfs@[b]).0,
            forall|a: int| 0 <= a < at ==> (#[trigger] cur_kfs@[a]).0 < f,
            out@ == mid + placing(light, cur_kfs@, desired@, f as nat),
        decreases n - f,
    {
        while at < cur_kfs.len() && cur_kfs[at].0 < f
            invariant
                at <= cur_kfs@.len(),
                forall|a: int| 0 <= a < at ==> (#[trigger] cur_kfs@[a]).0 < f,
            decreases cur_kfs@.len() - at,
        {
            at = at + 1;
        }
        let ghost before = placing(light, cur_kfs@, desired@, f as nat);
        let want: Option<bool> = boundary_at(desired, f);
        match want {
            Some(v) => {
                let there: bool = at < cur_kfs.len() && cur_kfs[at].0 == f && cur_kfs[at].1 == v;
                proof {
                    if there {
                        assert(cur_kfs@[at as int] == (f, v));
                        assert(cur_kfs@.contains((f, v)));
                    } else if cur_kfs@.contains((f, v)) {
                        let z = choose|z: int| 0 <= z < cur_kfs@.len() && cur_kfs@[z] == (f, v);
                        assert(z >= at);
                        if z > at {
                            assert(cur_kfs@[at as int].0 < cur_kfs@[z].0);
                        }
                    }
                }
                if !there {
                    let state: u8 = if v { 1 } else { 0 };
                    out.push(LightEditInput { light, frame: f, state });
                    assert(out@ =~= mid + before.push(LightEditInput { light, frame: f, state }));
                }
            },
            None => {},
        }
        f = f + 1;
    }
    assert(out@ =~= start + reconciling(light, cur_kfs@, desired@));
}

/// The keyframe that a row needs at `f`.
fn boundary_at(row: &[bool], f: u32) -> (r: Option<bool>)
    ensures
        r == boundary(row@, f as int),
{
    let i: usize = f as usize;
    if i >= row.len() {
        return None;
    }
    let prev: bool = i > 0 && row[i - 1];
    if row[i] != prev {
        Some(row[i])
    } else {
        None
    }
}

// ---- several rows -----------------------------------------------------------

/// The edits that turn the rows of the lights below `n` that are `touched` into
/// `rows`, light by light.
pub open spec fn rows_edits(
    m: Map<(u32, u32), bool>,
    rows: spec_fn(int) -> Seq<bool>,
    touched: spec_fn(int) -> bool,
    n: nat,
) -> Seq<LightEditInput>
    decreases n,
{
    if n == 0 {
        Seq::empty()
    } else {
        let rest = rows_edits(m, rows, touched, (n - 1) as nat);
        if touched(n - 1) {
            rest + reconciling((n - 1) as u32, keys_of(m, (n - 1) as u32), rows(n - 1))
        } else {
            rest
        }
    }
}

/// The keyframes `m` with those of the touched lights below `n` replaced by the
/// boundaries of their rows.
pub open spec fn rows_rewritten(
    m: Map<(u32, u32), bool>,
    rows: spec_fn(int) -> Seq<bool>,
    touched: spec_fn(int) -> bool,
    n: nat,
) -> Map<(u32, u32), bool> {
    Map::new(
        |k: (u32, u32)|
            if k.0 < n && touched(k.0 as int) {
                boundary(rows(k.0 as int), k.1 as int) is Some
            } else {
                m.contains_key(k)
            },
        |k: (u32, u32)|
            if k.0 < n && touched(k.0 as int) {
                boundary(rows(k.0 as int), k.1 as int)->0
            } else {
                m[k]
            },
    )
}

// ---- what the gestures do ---------------------------------------------------

/// Painting turns on the frames between the two ends, whichever comes first, and
/// leaves the others.
pub proof fn law_paint(row: Seq<bool>, start: u32, cur: u32)
    requires
        start < row.len(),
        cur < row.len(),
    ensures
        painted(row, start, cur).len() == row.len(),
        forall|f: int|
            0 <= f < row.len() ==> (#[trigger] painted(row, start, cur)[f] <==> row[f] || (start <= f <= cur) || (cur <= f <= start)),
        painted(row, start, cur) == painted(row, cur, start),
{
    assert(painted(row, start, cur) =~= painted(row, cur, start));
}

/// A dragged edge follows the pointer: with the right edge at `cur` the bar covers
/// exactly the frames from its start up to `cur`, with the left edge at `cur` exactly
/// those from `cur` to its end, and no frame outside the old and the new bar changes.
/// Past the other edge the bar keeps that edge's frame.
pub proof fn law_resize(row: Seq<bool>, bar_start: u32, bar_end: u32, drag_left: bool, cur: u32)
    requires
        bar_start <= bar_end < row.len(),
        cur < row.len(),
    ensures
        ({
            let r = resized(row, bar_start, bar_end, drag_left, cur);
            &&& r.len() == row.len()
            &&& !drag_left && cur >= bar_start ==> forall|f: int| bar_start <= f <= cur ==> #[trigger] r[f]
            &&& !drag_left && cur >= bar_start ==> forall|f: int| cur < f <= bar_end ==> !(#[trigger] r[f])
            &&& drag_left && cur <= bar_end ==> forall|f: int| cur <= f <= bar_end ==> #[trigger] r[f]
            &&& drag_left && cur <= bar_end ==> forall|f: int| bar_start <= f < cur ==> !(#[trigger] r[f])
            &&& !drag_left && cur < bar_start ==> r[bar_start as int] && forall|f: int| bar_start < f <= bar_end ==> !(#[trigger] r[f])
            &&& drag_left && cur > bar_end ==> r[bar_end as int] && forall|f: int| bar_start <= f < bar_end ==> !(#[trigger] r[f])
            &&& forall|f: int|
                0 <= f < row.len() && !(bar_start <= f <= bar_end) && !(!drag_left && bar_end < f <= cur) && !(drag_left && cur <= f
                    < bar_start) ==> #[trigger] r[f] == row[f]
        }),
{
}

/// To drag an edge back to where it was is to undo the drag, where the frames that it
/// passed were off.
pub proof fn law_resize_undone(row: Seq<bool>, bar_start: u32, bar_end: u32, cur: u32)
    requires
        bar_start <= bar_end < row.len(),
        bar_start <= cur < row.len(),
        forall|f: int| bar_start <= f <= bar_end ==> #[trigger] row[f],
        forall|f: int| bar_end < f <= cur ==> !(#[trigger] row[f]),
    ensures
        resized(resized(row, bar_start, bar_end, false, cur), bar_start, cur, false, bar_end) == row,
{
    assert(resized(resized(row, bar_start, bar_end, false, cur), bar_start, cur, false, bar_end) =~= row);
}

/// A toggle flips its frame and no other, and to toggle twice changes nothing.
pub proof fn law_toggle(row: Seq<bool>, f: u32)
    requires
        f < row.len(),
    ensures
        toggled(row, f).len() == row.len(),
        toggled(row, f)[f as int] != row[f as int],
        forall|g: int| 0 <= g < row.len() && g != f ==> #[trigger] toggled(row, f)[g] == row[g],
        toggled(toggled(row, f), f) == row,
{
    assert(toggled(toggled(row, f), f) =~= row);
}

// ---- laws -------------------------------------------------------------------

/// Edits one after the other are their concatenation.
pub proof fn lemma_overlaid_add(m: Map<(u32, u32), bool>, a: Seq<LightEditInput>, b: Seq<LightEditInput>)
    ensures
        overlaid(m, a + b) == overlaid(overlaid(m, a), b),
    decreases b.len(),
{
    if b.len() == 0 {
        assert(a + b =~= a);
    } else {
        assert((a + b).drop_last() =~= a + b.drop_last());
        lemma_overlaid_add(m, a, b.drop_last());
    }
}

/// The keyframes `m` with those of `light` replaced by the boundaries of `row`.
pub open spec fn rewritten(m: Map<(u32, u32), bool>, light: u32, row: Seq<bool>) -> Map<(u32, u32), bool> {
    Map::new(
        |k: (u32, u32)|
            if k.0 == light {
                boundary(row, k.1 as int) is Some
            } else {
                m.contains_key(k)
            },
        |k: (u32, u32)|
            if k.0 == light {
                boundary(row, k.1 as int)->0
            } else {
                m[k]
            },
    )
}

/// `keys` has a keyframe at `f`, where the row needs none.
spec fn unneeded(keys: Seq<(u32, bool)>, row: Seq<bool>, f: u32) -> bool {
    boundary(row, f as int) is None && exists|i: int| 0 <= i < keys.len() && (#[trigger] keys[i]).0 == f
}

proof fn lemma_clearing(m: Map<(u32, u32), bool>, light: u32, keys: Seq<(u32, bool)>, row: Seq<bool>, q: (u32, u32))
    ensures
        ({
            let r = overlaid(m, clearing(light, keys, row));
            &&& r.contains_key(q) <==> m.contains_key(q) && !(q.0 == light && unneeded(keys, row, q.1))
            &&& r.contains_key(q) ==> r[q] == m[q]
        }),
    decreases keys.len(),
{
    if keys.len() > 0 {
        let p = keys.drop_last();
        let k = keys.last();
        let c = clearing(light, p, row);
        lemma_clearing(m, light, p, row, q);
        assert(unneeded(keys, row, q.1) <==> unneeded(p, row, q.1) || (k.0 == q.1 && boundary(row, q.1 as int) is None)) by {
            if unneeded(keys, row, q.1) {
                let i = choose|i: int| 0 <= i < keys.len() && (#[trigger] keys[i]).0 == q.1;
                if i < p.len() {
                    assert(p[i] == keys[i]);
                }
            }
            if unneeded(p, row, q.1) {
                let i = choose|i: int| 0 <= i < p.len() && (#[trigger] p[i]).0 == q.1;
                assert(keys[i] == p[i]);
            }
            assert(keys[keys.len() - 1] == k);
        }
        if boundary(row, k.0 as int) is None {
            let e = LightEditInput { light, frame: k.0, state: 2 };
            assert(c.push(e).drop_last() =~= c);
        }
    }
}

proof fn lemma_placing(m: Map<(u32, u32), bool>, light: u32, keys: Seq<(u32, bool)>, row: Seq<bool>, n: nat, q: (u32, u32))
    requires
        n <= row.len() <= u32::MAX,
    ensures
        ({
            let r = overlaid(m, placing(light, keys, row, n));
            let b = boundary(row, q.1 as int);
            let put = q.0 == light && q.1 < n && b is Some && !keys.contains((q.1, b->0));
            &&& r.contains_key(q) <==> m.contains_key(q) || put
            &&& put ==> r[q] == b->0
            &&& !put && m.contains_key(q) ==> r[q] == m[q]
        }),
    decreases n,
{
    if n > 0 {
        let rest = placing(light, keys, row, (n - 1) as nat);
        let f = (n - 1) as u32;
        lemma_placing(m, light, keys, row, (n - 1) as nat, q);
        match boundary(row, n - 1) {
            Some(v) => {
                if !keys.contains((f, v)) {
                    let e = LightEditInput { light, frame: f, state: if v { 1 } else { 0 } };
                    assert(rest.push(e).drop_last() =~= rest);
                }
            },
            None => {},
        }
    }
}

/// The reconciling edits leave exactly the boundaries of the row as the light's
/// keyframes and touch no other light.
pub proof fn law_reconcile(m: Map<(u32, u32), bool>, light: u32, keys: Seq<(u32, bool)>, row: Seq<bool>)
    requires
        row.len() <= u32::MAX,
        light_keys(m, light, keys),
    ensures
        overlaid(m, reconciling(light, keys, row)) == rewritten(m, light, row),
{
    let a = overlaid(m, clearing(light, keys, row));
    let r = overlaid(m, reconciling(light, keys, row));
    let w = rewritten(m, light, row);
    lemma_overlaid_add(m, clearing(light, keys, row), placing(light, keys, row, row.len()));
    assert forall|q: (u32, u32)| #[trigger] r.contains_key(q) <==> w.contains_key(q) by {
        lemma_reconciled_at(m, light, keys, row, q);
    }
    assert forall|q: (u32, u32)| #[trigger] r.contains_key(q) implies r[q] == w[q] by {
        lemma_reconciled_at(m, light, keys, row, q);
    }
    assert(r =~= w);
}

proof fn lemma_reconciled_at(m: Map<(u32, u32), bool>, light: u32, keys: Seq<(u32, bool)>, row: Seq<bool>, q: (u32, u32))
    requires
        row.len() <= u32::MAX,
        light_keys(m, light, keys),
    ensures
        ({
            let r = overlaid(m, reconciling(light, keys, row));
            let w = rewritten(m, light, row);
            &&& r.contains_key(q) <==> w.contains_key(q)
            &&& r.contains_key(q) ==> r[q] == w[q]
        }),
{
    let a = overlaid(m, clearing(light, keys, row));
    lemma_overlaid_add(m, clearing(light, keys, row), placing(light, keys, row, row.len()));
    lemma_clearing(m, light, keys, row, q);
    lemma_placing(a, light, keys, row, row.len(), q);
    if q.0 == light {
        let b = boundary(row, q.1 as int);
        if m.contains_key(q) {
            assert(keys.contains((q.1, m[(light, q.1)])));
            let z = choose|z: int| 0 <= z < keys.len() && keys[z] == (q.1, m[q]);
            assert(keys[z].0 == q.1);
        }
        if b is Some && keys.contains((q.1, b->0)) {
            let y = choose|y: int| 0 <= y < keys.len() && keys[y] == (q.1, b->0);
            assert(m.contains_key((light, keys[y].0)) && m[(light, keys[y].0)] == keys[y].1);
        }
    }
}

/// A light whose keyframes are the boundaries of a row is held exactly as the row.
pub proof fn law_boundaries_hold(m: Map<(u32, u32), bool>, light: u32, row: Seq<bool>, f: nat)
    requires
        row.len() <= u32::MAX,
        f < row.len(),
    ensures
        held_at(rewritten(m, light, row), light, f) == row[f as int],
    decreases f,
{
    let w = rewritten(m, light, row);
    if f > 0 {
        law_boundaries_hold(m, light, row, (f - 1) as nat);
    }
    assert(w.contains_key((light, f as u32)) <==> boundary(row, f as int) is Some);
}

/// The frames of the edits ascend.
spec fn frames_ascend(edits: Seq<LightEditInput>) -> bool {
    forall|i: int, j: int| 0 <= i < j < edits.len() ==> (#[trigger] edits[i]).frame < (#[trigger] edits[j]).frame
}

/// What the clearing edits are: one for each keyframe where the row needs none.
proof fn lemma_clearing_list(light: u32, keys: Seq<(u32, bool)>, row: Seq<bool>)
    requires
        forall|i: int, j: int| 0 <= i < j < keys.len() ==> (#[trigger] keys[i]).0 < (#[trigger] keys[j]).0,
    ensures
        ({
            let c = clearing(light, keys, row);
            &&& frames_ascend(c)
            &&& forall|i: int|
                0 <= i < c.len() ==> (#[trigger] c[i]).light == light && c[i].state == 2 && unneeded(keys, row, c[i].frame)
            &&& forall|f: u32| #[trigger] unneeded(keys, row, f) ==> c.contains(LightEditInput { light, frame: f, state: 2 })
        }),
    decreases keys.len(),
{
    let c = clearing(light, keys, row);
    if keys.len() > 0 {
        let p = keys.drop_last();
        let k = keys.last();
        let before = clearing(light, p, row);
        lemma_clearing_list(light, p, row);
        assert forall|i: int| 0 <= i < before.len() implies unneeded(keys, row, (#[trigger] before[i]).frame) && before[i].frame < k.0 by {
            assert(unneeded(p, row, before[i].frame));
            let z = choose|z: int| 0 <= z < p.len() && (#[trigger] p[z]).0 == before[i].frame;
            assert(keys[z].0 < keys[keys.len() - 1].0);
        }
        assert(keys[keys.len() - 1].0 == k.0);
        assert forall|f: u32| #[trigger] unneeded(keys, row, f) implies c.contains(LightEditInput { light, frame: f, state: 2 }) by {
            let z = choose|z: int| 0 <= z < keys.len() && (#[trigger] keys[z]).0 == f;
            let e = LightEditInput { light, frame: f, state: 2 };
            if z < p.len() {
                assert(p[z].0 == f);
                assert(unneeded(p, row, f));
                let y = choose|y: int| 0 <= y < before.len() && before[y] == e;
                assert(c[y] == e);
            } else {
                assert(c[before.len() as int] == e);
            }
        }
    }
}

/// The row needs a keyframe at `f` that is not there.
spec fn lacking(keys: Seq<(u32, bool)>, row: Seq<bool>, f: u32) -> bool {
    boundary(row, f as int) is Some && !keys.contains((f, boundary(row, f as int)->0))
}

/// What the placing edits are: one for each keyframe that the row lacks.
proof fn lemma_placing_list(light: u32, keys: Seq<(u32, bool)>, row: Seq<bool>, n: nat)
    requires
        n <= row.len() <= u32::MAX,
    ensures
        ({
            let c = placing(light, keys, row, n);
            &&& frames_ascend(c)
            &&& forall|i: int|
                0 <= i < c.len() ==> (#[trigger] c[i]).light == light && c[i].frame < n && lacking(keys, row, c[i].frame) && c[i].state
                    == state_for(boundary(row, c[i].frame as int))
            &&& forall|f: u32|
                f < n && #[trigger] lacking(keys, row, f) ==> c.contains(
                    LightEditInput { light, frame: f, state: state_for(boundary(row, f as int)) },
                )
        }),
    decreases n,
{
    let c = placing(light, keys, row, n);
    if n > 0 {
        let before = placing(light, keys, row, (n - 1) as nat);
        let last = (n - 1) as u32;
        lemma_placing_list(light, keys, row, (n - 1) as nat);
        assert forall|f: u32| f < n && #[trigger] lacking(keys, row, f) implies c.contains(
            LightEditInput { light, frame: f, state: state_for(boundary(row, f as int)) },
        ) by {
            let e = LightEditInput { light, frame: f, state: state_for(boundary(row, f as int)) };
            if f < last {
                let y = choose|y: int| 0 <= y < before.len() && before[y] == e;
                assert(c[y] == e);
            } else {
                assert(c[before.len() as int] == e);
            }
        }
    }
}

/// The reconciling edits are the fewest: each is of this light, none names a frame
/// twice, and a frame is named exactly where the keyframe there is not what the row
/// needs. No other edits that bring about the same keyframes are fewer, and where the
/// keyframes are the row's boundaries already there are none.
pub proof fn law_reconcile_is_fewest(m: Map<(u32, u32), bool>, light: u32, keys: Seq<(u32, bool)>, row: Seq<bool>)
    requires
        row.len() <= u32::MAX,
        light_keys(m, light, keys),
    ensures
        ({
            let es = reconciling(light, keys, row);
            &&& forall|i: int| 0 <= i < es.len() ==> (#[trigger] es[i]).light == light
            &&& fewest(es, m, rewritten(m, light, row))
            &&& forall|f: u32| #[trigger] named(es).contains((light, f)) <==> key_at(m, (light, f)) != boundary(row, f as int)
            &&& forall|other: Seq<LightEditInput>| #[trigger] overlaid(m, other) == rewritten(m, light, row) ==> es.len() <= other.len()
            &&& (forall|f: u32| key_at(m, (light, f)) == #[trigger] boundary(row, f as int)) ==> es.len() == 0
        }),
{
    let a = clearing(light, keys, row);
    let b = placing(light, keys, row, row.len());
    let es = reconciling(light, keys, row);
    let w = rewritten(m, light, row);
    lemma_clearing_list(light, keys, row);
    lemma_placing_list(light, keys, row, row.len());
    assert forall|f: u32| key_at(w, (light, f)) == #[trigger] boundary(row, f as int) by {}
    assert forall|f: u32| (unneeded(keys, row, f) || lacking(keys, row, f)) == (#[trigger] key_at(m, (light, f)) != boundary(row, f as int)) by {
        if m.contains_key((light, f)) {
            let z = choose|z: int| 0 <= z < keys.len() && keys[z] == (f, m[(light, f)]);
            assert(keys[z].0 == f);
        }
        if unneeded(keys, row, f) {
            let z = choose|z: int| 0 <= z < keys.len() && (#[trigger] keys[z]).0 == f;
            assert(m.contains_key((light, keys[z].0)));
        }
        if boundary(row, f as int) is Some && keys.contains((f, boundary(row, f as int)->0)) {
            let z = choose|z: int| 0 <= z < keys.len() && keys[z] == (f, boundary(row, f as int)->0);
            assert(m.contains_key((light, keys[z].0)) && m[(light, keys[z].0)] == keys[z].1);
        }
    }
    assert forall|i: int| 0 <= i < es.len() implies (#[trigger] es[i]).light == light && es[i].state == state_for(
        boundary(row, es[i].frame as int),
    ) && key_at(m, (light, es[i].frame)) != boundary(row, es[i].frame as int) by {
        if i < a.len() {
            assert(es[i] == a[i]);
        } else {
            assert(es[i] == b[i - a.len()]);
        }
    }
    assert forall|i: int, j: int| 0 <= i < j < es.len() implies (#[trigger] es[i]).frame != (#[trigger] es[j]).frame by {
        if j < a.len() {
            assert(es[i] == a[i] && es[j] == a[j]);
        } else if i >= a.len() {
            assert(es[i] == b[i - a.len()] && es[j] == b[j - a.len()]);
        } else {
            assert(es[i] == a[i] && es[j] == b[j - a.len()]);
            assert(unneeded(keys, row, a[i].frame));
            assert(lacking(keys, row, b[j - a.len()].frame));
        }
    }
    assert(fewest(es, m, w)) by {
        assert forall|i: int| 0 <= i < es.len() implies key_at(m, ((#[trigger] es[i]).light, es[i].frame)) != key_at(
            w,
            (es[i].light, es[i].frame),
        ) && es[i].state == state_for(key_at(w, (es[i].light, es[i].frame))) by {
            assert(key_at(w, (light, es[i].frame)) == boundary(row, es[i].frame as int));
        }
    }
    assert forall|f: u32| #[trigger] named(es).contains((light, f)) <==> key_at(m, (light, f)) != boundary(row, f as int) by {
        if named(es).contains((light, f)) {
            let i = choose|i: int| 0 <= i < named(es).len() && named(es)[i] == (light, f);
            assert(es[i].frame == f);
        }
        if key_at(m, (light, f)) != boundary(row, f as int) {
            if unneeded(keys, row, f) {
                let e = LightEditInput { light, frame: f, state: 2 };
                let y = choose|y: int| 0 <= y < a.len() && a[y] == e;
                assert(named(es)[y] == (light, f));
            } else {
                assert(lacking(keys, row, f));
                let e = LightEditInput { light, frame: f, state: state_for(boundary(row, f as int)) };
                assert(b.contains(e));
                let y = choose|y: int| 0 <= y < b.len() && b[y] == e;
                assert(es[a.len() + y] == e);
                assert(named(es)[a.len() + y] == (light, f));
            }
        }
    }
    assert forall|other: Seq<LightEditInput>| #[trigger] overlaid(m, other) == w implies es.len() <= other.len() by {
        law_fewest(es, m, w, other);
    }
    if (forall|f: u32| key_at(m, (light, f)) == #[trigger] boundary(row, f as int)) && es.len() > 0 {
        assert(key_at(m, (light, es[0].frame)) == boundary(row, es[0].frame as int));
    }
}

/// What the reconciling edits bring about: the light's keyframes are exactly the
/// boundaries of the row, the light is held as the row, and the keyframes of the other
/// lights stay.
pub proof fn law_reconciled_row(m: Map<(u32, u32), bool>, light: u32, keys: Seq<(u32, bool)>, row: Seq<bool>)
    requires
        row.len() <= u32::MAX,
        light_keys(m, light, keys),
    ensures
        ({
            let after = overlaid(m, reconciling(light, keys, row));
            &&& forall|f: u32| #[trigger] key_at(after, (light, f)) == boundary(row, f as int)
            &&& held_row(after, light, row.len()) == row
            &&& forall|q: (u32, u32)| q.0 != light ==> #[trigger] key_at(after, q) == key_at(m, q)
        }),
{
    let after = overlaid(m, reconciling(light, keys, row));
    law_reconcile(m, light, keys, row);
    assert forall|f: int| 0 <= f < row.len() implies #[trigger] held_row(after, light, row.len())[f] == row[f] by {
        law_boundaries_hold(m, light, row, f as nat);
    }
    assert(held_row(after, light, row.len()) =~= row);
}

/// Rewriting one light leaves what the other lights show.
pub proof fn law_other_lights_keep(m: Map<(u32, u32), bool>, light: u32, row: Seq<bool>, other: u32, f: nat)
    requires
        other != light,
        f <= u32::MAX,
    ensures
        held_at(rewritten(m, light, row), other, f) == held_at(m, other, f),
    decreases f,
{
    if f > 0 {
        law_other_lights_keep(m, light, row, other, (f - 1) as nat);
    }
    assert(rewritten(m, light, row).contains_key((other, f as u32)) <==> m.contains_key((other, f as u32)));
}

/// Editing several rows leaves the boundaries of the wanted rows as the keyframes
/// of the touched lights, and every other light as it was.
pub proof fn law_rows_edits(m: Map<(u32, u32), bool>, rows: spec_fn(int) -> Seq<bool>, touched: spec_fn(int) -> bool, n: nat)
    requires
        n <= u32::MAX,
        forall|l: int| 0 <= l < n && #[trigger] touched(l) ==> rows(l).len() <= u32::MAX,
    ensures
        overlaid(m, rows_edits(m, rows, touched, n)) == rows_rewritten(m, rows, touched, n),
    decreases n,
{
    if n == 0 {
        assert(rows_rewritten(m, rows, touched, n) =~= m);
    } else {
        let k = (n - 1) as nat;
        let light = k as u32;
        law_rows_edits(m, rows, touched, k);
        let a = rows_rewritten(m, rows, touched, k);
        if touched(k as int) {
            let keys = keys_of(m, light);
            lemma_keys_below(m, light, 0x1_0000_0000);
            assert(light_keys(m, light, keys));
            assert(light_keys(a, light, keys)) by {
                assert forall|i: int| 0 <= i < keys.len() implies a.contains_key((light, (#[trigger] keys[i]).0)) && a[(light, keys[i].0)]
                    == keys[i].1 by {
                    assert(m.contains_key((light, keys[i].0)));
                }
                assert forall|f: u32| #[trigger] a.contains_key((light, f)) implies keys.contains((f, a[(light, f)])) by {
                    assert(m.contains_key((light, f)));
                }
            }
            lemma_overlaid_add(m, rows_edits(m, rows, touched, k), reconciling(light, keys, rows(k as int)));
            law_reconcile(a, light, keys, rows(k as int));
            assert(rewritten(a, light, rows(k as int)) =~= rows_rewritten(m, rows, touched, n));
        } else {
            assert(a =~= rows_rewritten(m, rows, touched, n));
        }
    }
}

/// The edits of several rows are the fewest as well.
pub proof fn law_rows_are_fewest(m: Map<(u32, u32), bool>, rows: spec_fn(int) -> Seq<bool>, touched: spec_fn(int) -> bool, n: nat)
    requires
        n <= u32::MAX,
        forall|l: int| 0 <= l < n && #[trigger] touched(l) ==> rows(l).len() <= u32::MAX,
    ensures
        fewest(rows_edits(m, rows, touched, n), m, rows_rewritten(m, rows, touched, n)),
        forall|i: int| 0 <= i < rows_edits(m, rows, touched, n).len() ==> (#[trigger] rows_edits(m, rows, touched, n)[i]).light < n,
        forall|other: Seq<LightEditInput>| #[trigger]
            overlaid(m, other) == rows_rewritten(m, rows, touched, n) ==> rows_edits(m, rows, touched, n).len() <= other.len(),
    decreases n,
{
    let es = rows_edits(m, rows, touched, n);
    let w = rows_rewritten(m, rows, touched, n);
    if n > 0 {
        let k = (n - 1) as nat;
        let light = k as u32;
        let before = rows_edits(m, rows, touched, k);
        let v = rows_rewritten(m, rows, touched, k);
        law_rows_are_fewest(m, rows, touched, k);
        assert forall|q: (u32, u32)| q.0 < k implies #[trigger] key_at(w, q) == key_at(v, q) by {}
        if touched(k as int) {
            let row = rows(k as int);
            let keys = keys_of(m, light);
            lemma_keys_below(m, light, 0x1_0000_0000);
            assert(light_keys(m, light, keys));
            law_reconcile_is_fewest(m, light, keys, row);
            let own = reconciling(light, keys, row);
            let x = rewritten(m, light, row);
            assert forall|f: u32| #[trigger] key_at(w, (light, f)) == key_at(x, (light, f)) by {}
            assert forall|i: int| 0 <= i < es.len() implies key_at(m, ((#[trigger] es[i]).light, es[i].frame)) != key_at(
                w,
                (es[i].light, es[i].frame),
            ) && es[i].state == state_for(key_at(w, (es[i].light, es[i].frame))) && es[i].light < n by {
                if i < before.len() {
                    assert(es[i] == before[i]);
                    assert(key_at(w, (es[i].light, es[i].frame)) == key_at(v, (es[i].light, es[i].frame)));
                } else {
                    assert(es[i] == own[i - before.len()]);
                    assert(key_at(w, (light, es[i].frame)) == key_at(x, (light, es[i].frame)));
                }
            }
            assert forall|i: int, j: int| 0 <= i < j < es.len() implies (#[trigger] es[i]).light != (#[trigger] es[j]).light
                || es[i].frame != es[j].frame by {
                if j < before.len() {
                    assert(es[i] == before[i] && es[j] == before[j]);
                } else if i >= before.len() {
                    assert(es[i] == own[i - before.len()] && es[j] == own[j - before.len()]);
                } else {
                    assert(es[i] == before[i] && es[j] == own[j - before.len()]);
                }
            }
        } else {
            assert forall|i: int| 0 <= i < es.len() implies key_at(m, ((#[trigger] es[i]).light, es[i].frame)) != key_at(
                w,
                (es[i].light, es[i].frame),
            ) && es[i].state == state_for(key_at(w, (es[i].light, es[i].frame))) by {
                assert(es[i] == before[i]);
                assert(key_at(w, (es[i].light, es[i].frame)) == key_at(v, (es[i].light, es[i].frame)));
            }
        }
    }
    assert forall|other: Seq<LightEditInput>| #[trigger] overlaid(m, other) == w implies es.len() <= other.len() by {
        law_fewest(es, m, w, other);
    }
}

/// After the edits every touched light is held as its wanted row, and every other
/// light as before.
pub proof fn law_rows_hold(
    m: Map<(u32, u32), bool>,
    rows: spec_fn(int) -> Seq<bool>,
    touched: spec_fn(int) -> bool,
    n: nat,
    light: u32,
    f: nat,
)
    requires
        light < n <= u32::MAX,
        touched(light as int) ==> f < rows(light as int).len() <= u32::MAX,
        f <= u32::MAX,
    ensures
        held_at(rows_rewritten(m, rows, touched, n), light, f) == (if touched(light as int) {
            rows(light as int)[f as int]
        } else {
            held_at(m, light, f)
        }),
    decreases f,
{
    let w = rows_rewritten(m, rows, touched, n);
    if f > 0 {
        law_rows_hold(m, rows, touched, n, light, (f - 1) as nat);
    }
    if touched(light as int) {
        assert(w.contains_key((light, f as u32)) <==> boundary(rows(light as int), f as int) is Some);
    } else {
        assert(w.contains_key((light, f as u32)) <==> m.contains_key((light, f as u32)));
    }
}

} // verus!
