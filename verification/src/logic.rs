//! The timeline: folding the edit log into keyframes and holding each keyframe
//! until the next one.
use crate::rows::{Edit, Identity, LightEditInput, TurretKeyframe};
use crate::text::text_of;
use vstd::prelude::*;

verus! {

broadcast use {vstd::seq::group_seq_axioms, vstd::string::group_string_axioms};

// ---- keyframes --------------------------------------------------------------

/// One explicit keyframe of a light.
#[derive(Clone, Copy, PartialEq, Eq, Structural, Debug)]
pub struct Keyframe {
    pub light: u32,
    pub frame: u32,
    pub on: bool,
}

/// `a` comes before `b`: lower light, or same light and earlier frame.
pub open spec fn key_before(a: (u32, u32), b: (u32, u32)) -> bool {
    a.0 < b.0 || (a.0 == b.0 && a.1 < b.1)
}

/// The position of a keyframe.
pub open spec fn key_of(k: Keyframe) -> (u32, u32) {
    (k.light, k.frame)
}

/// Each keyframe comes before the ones after it.
pub open spec fn in_order(s: Seq<Keyframe>) -> bool {
    forall|i: int, j: int| 0 <= i < j < s.len() ==> key_before(key_of(#[trigger] s[i]), key_of(#[trigger] s[j]))
}

/// `s` has a keyframe at `k`.
pub open spec fn has_key(s: Seq<Keyframe>, k: (u32, u32)) -> bool {
    exists|i: int| 0 <= i < s.len() && key_of(#[trigger] s[i]) == k
}

/// The keyframes of `s` by position.
pub open spec fn keyframe_map(s: Seq<Keyframe>) -> Map<(u32, u32), bool> {
    Map::new(
        |k: (u32, u32)| has_key(s, k),
        |k: (u32, u32)| s[choose|i: int| 0 <= i < s.len() && key_of(#[trigger] s[i]) == k].on,
    )
}

pub proof fn lemma_keyframe_at(s: Seq<Keyframe>, i: int)
    requires
        in_order(s),
        0 <= i < s.len(),
    ensures
        keyframe_map(s).contains_key(key_of(s[i])),
        keyframe_map(s)[key_of(s[i])] == s[i].on,
{
    let k = key_of(s[i]);
    assert(has_key(s, k));
    let j = choose|j: int| 0 <= j < s.len() && key_of(#[trigger] s[j]) == k;
    assert(i == j) by {
        if i < j {
            assert(key_before(key_of(s[i]), key_of(s[j])));
        } else if j < i {
            assert(key_before(key_of(s[j]), key_of(s[i])));
        }
    }
}

/// The explicit keyframes of a show's lights: on, off, or none at each
/// `(light, frame)`. Kept in order of light, then frame.
#[derive(Debug)]
pub struct Keyframes {
    entries: Vec<Keyframe>,
}

impl View for Keyframes {
    type V = Map<(u32, u32), bool>;

    closed spec fn view(&self) -> Map<(u32, u32), bool> {
        keyframe_map(self.entries@)
    }
}

impl Keyframes {
    #[verifier::type_invariant]
    spec fn inv(self) -> bool {
        in_order(self.entries@)
    }

    /// The keyframes in order.
    pub closed spec fn list(self) -> Seq<Keyframe> {
        self.entries@
    }

    /// No keyframes.
    pub fn new() -> (r: Keyframes)
        ensures
            r@ == Map::<(u32, u32), bool>::empty(),
    {
        let r: Keyframes = Keyframes { entries: Vec::new() };
        assert(r@ =~= Map::<(u32, u32), bool>::empty());
        r
    }

    /// The keyframes, in order of light, then frame.
    pub fn entries(&self) -> (r: &Vec<Keyframe>)
        ensures
            r@ == self.list(),
            in_order(r@),
            keyframe_map(r@) == self@,
    {
        proof {
            use_type_invariant(&*self);
        }
        &self.entries
    }

    /// How many keyframes there are before `(light, frame)`.
    fn rank(&self, light: u32, frame: u32) -> (r: usize)
        ensures
            r <= self.entries@.len(),
            forall|i: int| 0 <= i < r ==> key_before(key_of(#[trigger] self.entries@[i]), (light, frame)),
            forall|i: int| r <= i < self.entries@.len() ==> !key_before(key_of(#[trigger] self.entries@[i]), (light, frame)),
    {
        proof {
            use_type_invariant(&*self);
        }
        let mut lo: usize = 0;
        let mut hi: usize = self.entries.len();
        while lo < hi
            invariant
                lo <= hi <= self.entries@.len(),
                in_order(self.entries@),
                forall|i: int| 0 <= i < lo ==> key_before(key_of(#[trigger] self.entries@[i]), (light, frame)),
                forall|i: int| hi <= i < self.entries@.len() ==> !key_before(key_of(#[trigger] self.entries@[i]), (light, frame)),
            decreases hi - lo,
        {
            let mid: usize = lo + (hi - lo) / 2;
            let k: Keyframe = self.entries[mid];
            if k.light < light || (k.light == light && k.frame < frame) {
                assert forall|i: int| 0 <= i < mid + 1 implies key_before(key_of(#[trigger] self.entries@[i]), (light, frame)) by {
                    if i < mid {
                        assert(key_before(key_of(self.entries@[i]), key_of(self.entries@[mid as int])));
                    }
                }
                lo = mid + 1;
            } else {
                assert forall|i: int| mid <= i < self.entries@.len() implies !key_before(key_of(#[trigger] self.entries@[i]), (light, frame)) by {
                    if mid < i {
                        assert(key_before(key_of(self.entries@[mid as int]), key_of(self.entries@[i])));
                    }
                }
                hi = mid;
            }
        }
        lo
    }

    /// The keyframe at `(light, frame)`, if there is one.
    pub fn get(&self, light: u32, frame: u32) -> (r: Option<bool>)
        ensures
            r == (if self@.contains_key((light, frame)) {
                Some(self@[(light, frame)])
            } else {
                None
            }),
    {
        let i: usize = self.rank(light, frame);
        proof {
            use_type_invariant(&*self);
        }
        if i < self.entries.len() && self.entries[i].light == light && self.entries[i].frame == frame {
            proof {
                lemma_keyframe_at(self.entries@, i as int);
            }
            Some(self.entries[i].on)
        } else {
            proof {
                if has_key(self.entries@, (light, frame)) {
                    let j = choose|j: int| 0 <= j < self.entries@.len() && key_of(#[trigger] self.entries@[j]) == (light, frame);
                    assert(j >= i);
                    if j > i {
                        assert(key_before(key_of(self.entries@[i as int]), key_of(self.entries@[j])));
                    }
                }
            }
            None
        }
    }

    /// Places a keyframe, replacing the one there.
    pub fn insert(&mut self, light: u32, frame: u32, on: bool)
        ensures
            final(self)@ == old(self)@.insert((light, frame), on),
    {
        let i: usize = self.rank(light, frame);
        proof {
            use_type_invariant(&*self);
        }
        let mut e: Vec<Keyframe> = Vec::new();
        std::mem::swap(&mut e, &mut self.entries);
        let ghost s = e@;
        let k: Keyframe = Keyframe { light, frame, on };
        let found: bool = i < e.len() && e[i].light == light && e[i].frame == frame;
        if found {
            e.set(i, k);
            proof {
                lemma_replace(s, i as int, k);
            }
        } else {
            e.insert(i, k);
            proof {
                lemma_insert(s, i as int, k);
            }
        }
        self.entries = e;
    }

    /// Removes the keyframe at `(light, frame)`, if there is one.
    pub fn remove(&mut self, light: u32, frame: u32)
        ensures
            final(self)@ == old(self)@.remove((light, frame)),
    {
        let i: usize = self.rank(light, frame);
        proof {
            use_type_invariant(&*self);
        }
        let mut e: Vec<Keyframe> = Vec::new();
        std::mem::swap(&mut e, &mut self.entries);
        let ghost s = e@;
        let found: bool = i < e.len() && e[i].light == light && e[i].frame == frame;
        if found {
            e.remove(i);
            proof {
                lemma_remove(s, i as int);
            }
        } else {
            proof {
                lemma_absent(s, i as int, (light, frame));
                assert(keyframe_map(s).remove((light, frame)) =~= keyframe_map(s));
            }
        }
        self.entries = e;
    }
}

proof fn lemma_absent(s: Seq<Keyframe>, i: int, k: (u32, u32))
    requires
        in_order(s),
        0 <= i <= s.len(),
        forall|j: int| 0 <= j < i ==> key_before(key_of(#[trigger] s[j]), k),
        i < s.len() ==> !key_before(key_of(s[i]), k) && key_of(s[i]) != k,
    ensures
        !has_key(s, k),
{
    if has_key(s, k) {
        let j = choose|j: int| 0 <= j < s.len() && key_of(#[trigger] s[j]) == k;
        if j > i {
            assert(key_before(key_of(s[i]), key_of(s[j])));
        }
    }
}

proof fn lemma_replace(s: Seq<Keyframe>, i: int, k: Keyframe)
    requires
        in_order(s),
        0 <= i < s.len(),
        key_of(s[i]) == key_of(k),
    ensures
        in_order(s.update(i, k)),
        keyframe_map(s.update(i, k)) == keyframe_map(s).insert(key_of(k), k.on),
{
    let t = s.update(i, k);
    assert forall|a: int, b: int| 0 <= a < b < t.len() implies key_before(key_of(#[trigger] t[a]), key_of(#[trigger] t[b])) by {
        assert(key_before(key_of(s[a]), key_of(s[b])));
    }
    let m = keyframe_map(s).insert(key_of(k), k.on);
    assert forall|q: (u32, u32)| #[trigger] keyframe_map(t).contains_key(q) <==> m.contains_key(q) by {
        if has_key(t, q) {
            let j = choose|j: int| 0 <= j < t.len() && key_of(#[trigger] t[j]) == q;
            assert(key_of(s[j]) == q);
            assert(has_key(s, q));
        }
        if has_key(s, q) {
            let j = choose|j: int| 0 <= j < s.len() && key_of(#[trigger] s[j]) == q;
            assert(key_of(t[j]) == q);
        }
        if q == key_of(k) {
            assert(key_of(t[i]) == q);
        }
    }
    assert forall|q: (u32, u32)| #[trigger] m.contains_key(q) implies keyframe_map(t)[q] == m[q] by {
        assert(keyframe_map(t).contains_key(q));
        let j = choose|j: int| 0 <= j < t.len() && key_of(#[trigger] t[j]) == q;
        lemma_keyframe_at(t, j);
        if j != i {
            lemma_keyframe_at(s, j);
            if q == key_of(k) {
                lemma_keyframe_at(t, i);
            }
        }
    }
    assert(keyframe_map(t) =~= m);
}

proof fn lemma_insert(s: Seq<Keyframe>, i: int, k: Keyframe)
    requires
        in_order(s),
        0 <= i <= s.len(),
        forall|j: int| 0 <= j < i ==> key_before(key_of(#[trigger] s[j]), key_of(k)),
        forall|j: int| i <= j < s.len() ==> !key_before(key_of(#[trigger] s[j]), key_of(k)),
        i < s.len() ==> key_of(s[i]) != key_of(k),
    ensures
        in_order(s.insert(i, k)),
        keyframe_map(s.insert(i, k)) == keyframe_map(s).insert(key_of(k), k.on),
{
    let t = s.insert(i, k);
    s.insert_ensures(i, k);
    lemma_absent(s, i, key_of(k));
    assert forall|a: int, b: int| 0 <= a < b < t.len() implies key_before(key_of(#[trigger] t[a]), key_of(#[trigger] t[b])) by {
        let x = if a < i { a } else { a - 1 };
        let y = if b < i { b } else { b - 1 };
        if a == i {
            assert(t[b] == s[y]);
            assert(!key_before(key_of(s[y]), key_of(k)));
            if key_of(s[y]) == key_of(k) {
                assert(has_key(s, key_of(k)));
            }
        } else if b == i {
            assert(t[a] == s[a]);
        } else {
            assert(key_before(key_of(s[x]), key_of(s[y])));
        }
    }
    let m = keyframe_map(s).insert(key_of(k), k.on);
    assert forall|q: (u32, u32)| #[trigger] keyframe_map(t).contains_key(q) <==> m.contains_key(q) by {
        if has_key(t, q) {
            let j = choose|j: int| 0 <= j < t.len() && key_of(#[trigger] t[j]) == q;
            if j != i {
                let x = if j < i { j } else { j - 1 };
                assert(key_of(s[x]) == q);
            }
        }
        if has_key(s, q) {
            let j = choose|j: int| 0 <= j < s.len() && key_of(#[trigger] s[j]) == q;
            let x = if j < i { j } else { j + 1 };
            assert(key_of(t[x]) == q);
        }
        if q == key_of(k) {
            assert(key_of(t[i]) == q);
        }
    }
    assert forall|q: (u32, u32)| #[trigger] m.contains_key(q) implies keyframe_map(t)[q] == m[q] by {
        assert(keyframe_map(t).contains_key(q));
        let j = choose|j: int| 0 <= j < t.len() && key_of(#[trigger] t[j]) == q;
        lemma_keyframe_at(t, j);
        if j != i {
            let x = if j < i { j } else { j - 1 };
            assert(t[j] == s[x]);
            lemma_keyframe_at(s, x);
        }
    }
    assert(keyframe_map(t) =~= m);
}

proof fn lemma_remove(s: Seq<Keyframe>, i: int)
    requires
        in_order(s),
        0 <= i < s.len(),
    ensures
        in_order(s.remove(i)),
        keyframe_map(s.remove(i)) == keyframe_map(s).remove(key_of(s[i])),
{
    let t = s.remove(i);
    s.remove_ensures(i);
    assert forall|a: int, b: int| 0 <= a < b < t.len() implies key_before(key_of(#[trigger] t[a]), key_of(#[trigger] t[b])) by {
        let x = if a < i { a } else { a + 1 };
        let y = if b < i { b } else { b + 1 };
        assert(t[a] == s[x] && t[b] == s[y]);
        assert(key_before(key_of(s[x]), key_of(s[y])));
    }
    let m = keyframe_map(s).remove(key_of(s[i]));
    assert forall|q: (u32, u32)| #[trigger] keyframe_map(t).contains_key(q) <==> m.contains_key(q) by {
        if has_key(t, q) {
            let j = choose|j: int| 0 <= j < t.len() && key_of(#[trigger] t[j]) == q;
            let x = if j < i { j } else { j + 1 };
            assert(t[j] == s[x]);
            assert(key_of(s[x]) == q);
            if x < i {
                assert(key_before(key_of(s[x]), key_of(s[i])));
            } else {
                assert(key_before(key_of(s[i]), key_of(s[x])));
            }
        }
        if has_key(s, q) && q != key_of(s[i]) {
            let j = choose|j: int| 0 <= j < s.len() && key_of(#[trigger] s[j]) == q;
            let x = if j < i { j } else { j - 1 };
            assert(t[x] == s[j]);
            assert(key_of(t[x]) == q);
        }
    }
    assert forall|q: (u32, u32)| #[trigger] m.contains_key(q) implies keyframe_map(t)[q] == m[q] by {
        assert(keyframe_map(t).contains_key(q));
        let j = choose|j: int| 0 <= j < t.len() && key_of(#[trigger] t[j]) == q;
        lemma_keyframe_at(t, j);
        let x = if j < i { j } else { j + 1 };
        assert(t[j] == s[x]);
        lemma_keyframe_at(s, x);
    }
    assert(keyframe_map(t) =~= m);
}

// ---- folding the edit log ---------------------------------------------------

/// What one edit does to the keyframes: 0 places an off keyframe, 1 an on
/// keyframe, and anything else removes the keyframe.
pub open spec fn edited(m: Map<(u32, u32), bool>, light: u32, frame: u32, state: u8) -> Map<(u32, u32), bool> {
    if state == 0 {
        m.insert((light, frame), false)
    } else if state == 1 {
        m.insert((light, frame), true)
    } else {
        m.remove((light, frame))
    }
}

/// The keyframes `m` after `edits`, in order.
pub open spec fn overlaid(m: Map<(u32, u32), bool>, edits: Seq<LightEditInput>) -> Map<(u32, u32), bool>
    decreases edits.len(),
{
    if edits.len() == 0 {
        m
    } else {
        let e = edits.last();
        edited(overlaid(m, edits.drop_last()), e.light, e.frame, e.state)
    }
}

/// The keyframe at `q`, or none.
pub open spec fn key_at(m: Map<(u32, u32), bool>, q: (u32, u32)) -> Option<bool> {
    if m.contains_key(q) {
        Some(m[q])
    } else {
        None
    }
}

/// The state of the edit that brings about a keyframe, or its absence.
pub open spec fn state_for(want: Option<bool>) -> u8 {
    match want {
        Some(true) => 1,
        Some(false) => 0,
        None => 2,
    }
}

/// Each edit changes one keyframe that differs, and none is changed twice.
pub open spec fn fewest(edits: Seq<LightEditInput>, have: Map<(u32, u32), bool>, want: Map<(u32, u32), bool>) -> bool {
    &&& forall|i: int|
        0 <= i < edits.len() ==> key_at(have, ((#[trigger] edits[i]).light, edits[i].frame)) != key_at(
            want,
            (edits[i].light, edits[i].frame),
        ) && edits[i].state == state_for(key_at(want, (edits[i].light, edits[i].frame)))
    &&& forall|i: int, j: int|
        0 <= i < j < edits.len() ==> (#[trigger] edits[i]).light != (#[trigger] edits[j]).light || edits[i].frame != edits[j].frame
}

/// The places that edits name.
pub open spec fn named(edits: Seq<LightEditInput>) -> Seq<(u32, u32)> {
    edits.map_values(|e: LightEditInput| (e.light, e.frame))
}

/// Edits change only the places that they name.
proof fn lemma_unnamed(m: Map<(u32, u32), bool>, edits: Seq<LightEditInput>, q: (u32, u32))
    requires
        !named(edits).contains(q),
    ensures
        key_at(overlaid(m, edits), q) == key_at(m, q),
    decreases edits.len(),
{
    if edits.len() > 0 {
        let rest = edits.drop_last();
        assert(named(edits)[edits.len() - 1] == (edits.last().light, edits.last().frame));
        assert(!named(rest).contains(q)) by {
            if named(rest).contains(q) {
                let i = choose|i: int| 0 <= i < rest.len() && named(rest)[i] == q;
                assert(named(edits)[i] == q);
            }
        }
        lemma_unnamed(m, rest, q);
    }
}

/// No edits that bring about the same keyframes are fewer.
pub proof fn law_fewest(edits: Seq<LightEditInput>, have: Map<(u32, u32), bool>, want: Map<(u32, u32), bool>, other: Seq<LightEditInput>)
    requires
        fewest(edits, have, want),
        overlaid(have, other) == want,
    ensures
        edits.len() <= other.len(),
{
    let a = named(edits);
    let b = named(other);
    assert(a.no_duplicates()) by {
        assert forall|i: int, j: int| 0 <= i < a.len() && 0 <= j < a.len() && i != j implies a[i] != a[j] by {
            if i < j {
                assert(edits[i].light != edits[j].light || edits[i].frame != edits[j].frame);
            } else {
                assert(edits[j].light != edits[i].light || edits[j].frame != edits[i].frame);
            }
        }
    }
    a.unique_seq_to_set();
    b.lemma_cardinality_of_set();
    vstd::seq_lib::seq_to_set_is_finite(b);
    assert forall|q: (u32, u32)| #[trigger] a.to_set().contains(q) implies b.to_set().contains(q) by {
        let i = choose|i: int| 0 <= i < a.len() && a[i] == q;
        assert(key_at(have, (edits[i].light, edits[i].frame)) != key_at(want, (edits[i].light, edits[i].frame)));
        if !b.contains(q) {
            lemma_unnamed(have, other, q);
        }
    }
    vstd::set_lib::lemma_len_subset(a.to_set(), b.to_set());
}

/// The show as of edit `cutoff`: the edits with `seq <= cutoff`, in order.
pub open spec fn folded(edits: Seq<Edit>, cutoff: u64) -> Map<(u32, u32), bool>
    decreases edits.len(),
{
    if edits.len() == 0 {
        Map::empty()
    } else {
        let before = folded(edits.drop_last(), cutoff);
        let e = edits.last();
        if e.seq <= cutoff {
            edited(before, e.light, e.frame, e.state)
        } else {
            before
        }
    }
}

impl Keyframes {
    /// Applies one edit.
    fn edit(&mut self, light: u32, frame: u32, state: u8)
        ensures
            final(self)@ == edited(old(self)@, light, frame, state),
    {
        if state == 0 {
            self.insert(light, frame, false);
        } else if state == 1 {
            self.insert(light, frame, true);
        } else {
            self.remove(light, frame);
        }
    }
}

/// Applies optimistic (not yet acknowledged) light edits on top of the folded
/// keyframes, so that the view reacts at once.
pub fn apply_pending(kf: &mut Keyframes, pending: &[LightEditInput])
    ensures
        final(kf)@ == overlaid(old(kf)@, pending@),
{
    let ghost start = kf@;
    let mut i: usize = 0;
    while i < pending.len()
        invariant
            i <= pending.len(),
            kf@ == overlaid(start, pending@.take(i as int)),
        decreases pending.len() - i,
    {
        let e: LightEditInput = pending[i];
        kf.edit(e.light, e.frame, e.state);
        i = i + 1;
        assert(pending@.take(i as int).drop_last() =~= pending@.take(i - 1));
    }
    assert(pending@.take(pending@.len() as int) =~= pending@);
}

/// Folds the append-only edit log, up to `cutoff`, into the explicit keyframes.
pub fn fold_keyframes(edits: &[Edit], cutoff: u64) -> (r: Keyframes)
    ensures
        r@ == folded(edits@, cutoff),
{
    let mut kf: Keyframes = Keyframes::new();
    let mut i: usize = 0;
    while i < edits.len()
        invariant
            i <= edits.len(),
            kf@ == folded(edits@.take(i as int), cutoff),
        decreases edits.len() - i,
    {
        let e: Edit = edits[i];
        if e.seq <= cutoff {
            kf.edit(e.light, e.frame, e.state);
        }
        i = i + 1;
        assert(edits@.take(i as int).drop_last() =~= edits@.take(i - 1));
    }
    assert(edits@.take(edits@.len() as int) =~= edits@);
    kf
}

// ---- holding keyframes ------------------------------------------------------

/// Whether `light` is on at `frame`: the state of its latest keyframe at or
/// before `frame`, and off before the first one.
pub open spec fn held_at(m: Map<(u32, u32), bool>, light: u32, frame: nat) -> bool
    decreases frame,
{
    if m.contains_key((light, frame as u32)) {
        m[(light, frame as u32)]
    } else if frame == 0 {
        false
    } else {
        held_at(m, light, (frame - 1) as nat)
    }
}

/// The held row of one light over `nf` frames.
pub open spec fn held_row(m: Map<(u32, u32), bool>, light: u32, nf: nat) -> Seq<bool> {
    Seq::new(nf, |f: int| held_at(m, light, f as nat))
}

/// The held grid of `nl` lights over `nf` frames.
pub open spec fn held_grid(m: Map<(u32, u32), bool>, nl: nat, nf: nat) -> Seq<Seq<bool>> {
    Seq::new(nl, |l: int| held_row(m, l as u32, nf))
}

/// The rows of a grid of booleans.
pub open spec fn grid_view(g: Seq<Vec<bool>>) -> Seq<Seq<bool>> {
    Seq::new(g.len(), |i: int| g[i]@)
}

/// Expands keyframes into the held on/off grid, `held[light][frame]`.
pub fn expand_held(keyframes: &Keyframes, nl: u32, nf: u32) -> (r: Vec<Vec<bool>>)
    ensures
        grid_view(r@) == held_grid(keyframes@, nl as nat, nf as nat),
{
    let kfs: &Vec<Keyframe> = keyframes.entries();
    let ghost m = keyframes@;
    let mut held: Vec<Vec<bool>> = Vec::new();
    let mut idx: usize = 0;
    let mut l: u32 = 0;
    while l < nl
        invariant
            l <= nl,
            m == keyframes@,
            in_order(kfs@),
            m == keyframe_map(kfs@),
            held@.len() == l,
            forall|i: int| 0 <= i < l ==> (#[trigger] held@[i])@ == held_row(m, i as u32, nf as nat),
            idx <= kfs@.len(),
            forall|i: int| 0 <= i < idx ==> (#[trigger] kfs@[i]).light < l,
        decreases nl - l,
    {
        while idx < kfs.len() && kfs[idx].light < l
            invariant
                idx <= kfs@.len(),
                forall|i: int| 0 <= i < idx ==> (#[trigger] kfs@[i]).light < l,
            decreases kfs@.len() - idx,
        {
            idx = idx + 1;
        }
        let mut row: Vec<bool> = Vec::new();
        let mut cur: bool = false;
        let mut f: u32 = 0;
        proof {
            if idx < kfs@.len() {
                assert forall|i: int| idx <= i < kfs@.len() implies !key_before(key_of(#[trigger] kfs@[i]), (l, 0)) by {
                    if idx < i {
                        assert(key_before(key_of(kfs@[idx as int]), key_of(kfs@[i])));
                    }
                }
            }
        }
        while f < nf
            invariant
                f <= nf,
                m == keyframe_map(kfs@),
                in_order(kfs@),
                idx <= kfs@.len(),
                forall|i: int| 0 <= i < idx ==> key_before(key_of(#[trigger] kfs@[i]), (l, f)),
                forall|i: int| idx <= i < kfs@.len() ==> !key_before(key_of(#[trigger] kfs@[i]), (l, f)),
                row@.len() == f,
                forall|j: int| 0 <= j < f ==> #[trigger] row@[j] == held_at(m, l, j as nat),
                cur == (if f == 0 { false } else { held_at(m, l, (f - 1) as nat) }),
            decreases nf - f,
        {
            let hit: bool = idx < kfs.len() && kfs[idx].light == l && kfs[idx].frame == f;
            if hit {
                proof {
                    lemma_keyframe_at(kfs@, idx as int);
                    assert forall|i: int| idx < i < kfs@.len() implies !key_before(key_of(#[trigger] kfs@[i]), (l, (f + 1) as u32)) by {
                        assert(key_before(key_of(kfs@[idx as int]), key_of(kfs@[i])));
                    }
                }
                cur = kfs[idx].on;
                idx = idx + 1;
            } else {
                proof {
                    lemma_absent(kfs@, idx as int, (l, f));
                    assert forall|i: int| idx <= i < kfs@.len() implies !key_before(key_of(#[trigger] kfs@[i]), (l, (f + 1) as u32)) by {
                        if key_of(kfs@[i]) == (l, f) {
                            assert(has_key(kfs@, (l, f)));
                        }
                    }
                }
            }
            row.push(cur);
            f = f + 1;
        }
        assert(row@ =~= held_row(m, l, nf as nat));
        held.push(row);
        l = l + 1;
    }
    assert(grid_view(held@) =~= held_grid(m, nl as nat, nf as nat));
    held
}

// ---- fixture keyframes ------------------------------------------------------

/// `f` answers every row with one value.
pub open spec fn decides<T, U, F: Fn(&T) -> U>(rows: Seq<T>, f: F) -> bool {
    &&& forall|i: int| 0 <= i < rows.len() ==> call_requires(f, (&#[trigger] rows[i],))
    &&& forall|i: int, a: U, b: U|
        0 <= i < rows.len() && #[trigger] call_ensures(f, (&rows[i],), a) && #[trigger] call_ensures(f, (&rows[i],), b) ==> a == b
}

/// What `f` answers for `row`.
pub open spec fn answer<T, U, F: Fn(&T) -> U>(f: F, row: T) -> U {
    choose|u: U| call_ensures(f, (&row,), u)
}

/// `f` did answer for every row.
pub open spec fn answered<T, U, F: Fn(&T) -> U>(rows: Seq<T>, f: F) -> bool {
    forall|i: int| 0 <= i < rows.len() ==> call_ensures(f, (&#[trigger] rows[i],), answer(f, rows[i]))
}

/// The index of the row that governs channel `c` at frame `at`: the one with the
/// latest frame not after `at`, and of several with that frame the first.
pub open spec fn governing<T, C: Fn(&T) -> u8, F: Fn(&T) -> u32>(rows: Seq<T>, channel_of: C, frame_of: F, c: int, at: u32) -> Option<int>
    decreases rows.len(),
{
    if rows.len() == 0 {
        None
    } else {
        let best = governing(rows.drop_last(), channel_of, frame_of, c, at);
        let r = rows.last();
        let f = answer(frame_of, r);
        if answer(channel_of, r) == c && f <= at && (best is None || answer(frame_of, rows[best->0]) < f) {
            Some(rows.len() - 1)
        } else {
            best
        }
    }
}

/// For each channel `0..channels`, the keyframe in effect at `frame`: the latest
/// row of that channel whose own frame is not after `frame`, or `None` if there
/// is none yet.
pub fn fold_fixtures<T: Clone, C: Fn(&T) -> u8, F: Fn(&T) -> u32>(
    rows: &[T],
    frame: u32,
    channels: usize,
    channel_of: C,
    frame_of: F,
) -> (r: Vec<Option<T>>)
    requires
        decides(rows@, channel_of),
        decides(rows@, frame_of),
    ensures
        answered(rows@, channel_of),
        answered(rows@, frame_of),
        r@.len() == channels,
        forall|c: int|
            0 <= c < channels ==> match governing(rows@, channel_of, frame_of, c, frame) {
                None => (#[trigger] r@[c]) is None,
                Some(i) => r@[c] is Some && cloned(rows@[i], r@[c]->0),
            },
{
    let mut best: Vec<Option<(u32, usize)>> = Vec::new();
    let mut k: usize = 0;
    while k < channels
        invariant
            k <= channels,
            best@.len() == k,
            forall|c: int| 0 <= c < k ==> (#[trigger] best@[c]) is None,
        decreases channels - k,
    {
        best.push(None);
        k = k + 1;
    }
    let mut i: usize = 0;
    while i < rows.len()
        invariant
            i <= rows@.len(),
            decides(rows@, channel_of),
            decides(rows@, frame_of),
            forall|j: int| 0 <= j < i ==> call_ensures(channel_of, (&#[trigger] rows@[j],), answer(channel_of, rows@[j])),
            forall|j: int| 0 <= j < i ==> call_ensures(frame_of, (&#[trigger] rows@[j],), answer(frame_of, rows@[j])),
            best@.len() == channels,
            forall|c: int|
                0 <= c < channels ==> match governing(rows@.take(i as int), channel_of, frame_of, c, frame) {
                    None => (#[trigger] best@[c]) is None,
                    Some(j) => best@[c] is Some && (best@[c]->0).1 == j && 0 <= j < i && (best@[c]->0).0 == answer(frame_of, rows@[j]),
                },
        decreases rows.len() - i,
    {
        let c8: u8 = channel_of(&rows[i]);
        let c: usize = c8 as usize;
        let f: u32 = frame_of(&rows[i]);
        assert(c8 == answer(channel_of, rows@[i as int]));
        assert(f == answer(frame_of, rows@[i as int]));
        let ghost prev = best@;
        assert(rows@.take(i + 1).drop_last() =~= rows@.take(i as int));
        assert(rows@.take(i + 1).last() == rows@[i as int]);
        proof {
            assert forall|d: int| 0 <= d < channels implies (#[trigger] governing(rows@.take(i as int), channel_of, frame_of, d, frame) matches Some(j) ==> rows@.take(i + 1)[j] == rows@[j]) by {
                assert(prev[d] == prev[d]);
            }
        }
        if c < channels {
            if f <= frame {
                let better: bool = match best[c] {
                    Some((bf, _)) => bf < f,
                    None => true,
                };
                if better {
                    best.set(c, Some((f, i)));
                }
            }
        }
        i = i + 1;
        proof {
            assert forall|d: int| 0 <= d < channels implies match governing(rows@.take(i as int), channel_of, frame_of, d, frame) {
                None => (#[trigger] best@[d]) is None,
                Some(j) => best@[d] is Some && (best@[d]->0).1 == j && 0 <= j < i && (best@[d]->0).0 == answer(frame_of, rows@[j]),
            } by {
                assert(prev[d] == prev[d]);
            }
        }
    }
    assert(rows@.take(rows@.len() as int) =~= rows@);
    let mut out: Vec<Option<T>> = Vec::new();
    let mut k: usize = 0;
    while k < channels
        invariant
            k <= channels,
            out@.len() == k,
            answered(rows@, channel_of),
            answered(rows@, frame_of),
            best@.len() == channels,
            forall|c: int|
                0 <= c < channels ==> match governing(rows@, channel_of, frame_of, c, frame) {
                    None => (#[trigger] best@[c]) is None,
                    Some(j) => best@[c] is Some && (best@[c]->0).1 == j && 0 <= j < rows@.len(),
                },
            forall|c: int|
                0 <= c < k ==> match governing(rows@, channel_of, frame_of, c, frame) {
                    None => (#[trigger] out@[c]) is None,
                    Some(i) => out@[c] is Some && cloned(rows@[i], out@[c]->0),
                },
        decreases channels - k,
    {
        let entry: Option<(u32, usize)> = best[k];
        match entry {
            Some((_, j)) => {
                out.push(Some(rows[j].clone()));
            },
            None => {
                out.push(None);
            },
        }
        k = k + 1;
    }
    out
}

/// The keyframes of channel `c` as `(frame, on)`, in row order.
pub open spec fn channel_keys<T, C: Fn(&T) -> u8, F: Fn(&T) -> u32, A: Fn(&T) -> bool>(
    rows: Seq<T>,
    channel_of: C,
    frame_of: F,
    active: A,
    c: int,
) -> Seq<(u32, bool)>
    decreases rows.len(),
{
    if rows.len() == 0 {
        Seq::empty()
    } else {
        let before = channel_keys(rows.drop_last(), channel_of, frame_of, active, c);
        let r = rows.last();
        if answer(channel_of, r) == c {
            before.push((answer(frame_of, r), answer(active, r)))
        } else {
            before
        }
    }
}

/// The keyframe of `keys` in effect at `f`: the latest not after `f`, and of
/// several at one frame the last.
pub open spec fn key_in_effect(keys: Seq<(u32, bool)>, f: int) -> Option<(u32, bool)>
    decreases keys.len(),
{
    if keys.len() == 0 {
        None
    } else {
        let best = key_in_effect(keys.drop_last(), f);
        let k = keys.last();
        if k.0 <= f && (best is None || (best->0).0 <= k.0) {
            Some(k)
        } else {
            best
        }
    }
}

/// Whether the channel is on at `f`; off before the first keyframe.
pub open spec fn key_held(keys: Seq<(u32, bool)>, f: int) -> bool {
    match key_in_effect(keys, f) {
        Some(k) => k.1,
        None => false,
    }
}

/// The frames of `keys`.
pub open spec fn key_frames(keys: Seq<(u32, bool)>) -> Seq<u32> {
    keys.map_values(|k: (u32, bool)| k.0)
}

/// No frame is followed by a smaller one.
pub open spec fn ascending(s: Seq<u32>) -> bool {
    forall|i: int, j: int| 0 <= i <= j < s.len() ==> #[trigger] s[i] <= #[trigger] s[j]
}

/// The track of a channel with keyframes `keys`: `held` says for each frame
/// whether it is on, and `frames` are the keyframes' frames, ascending.
pub open spec fn is_track(keys: Seq<(u32, bool)>, nf: nat, held: Seq<bool>, frames: Seq<u32>) -> bool {
    &&& held == Seq::new(nf, |f: int| key_held(keys, f))
    &&& ascending(frames)
    &&& frames.to_multiset() == key_frames(keys).to_multiset()
}

/// Where a frame belongs: after every frame that is not greater.
fn slot(sorted: &Vec<(u32, bool)>, f: u32) -> (r: usize)
    requires
        ascending(key_frames(sorted@)),
    ensures
        r <= sorted@.len(),
        forall|i: int| 0 <= i < r ==> (#[trigger] sorted@[i]).0 <= f,
        forall|i: int| r <= i < sorted@.len() ==> (#[trigger] sorted@[i]).0 > f,
{
    let mut i: usize = sorted.len();
    while i > 0 && sorted[i - 1].0 > f
        invariant
            i <= sorted@.len(),
            forall|j: int| i <= j < sorted@.len() ==> (#[trigger] sorted@[j]).0 > f,
        decreases i,
    {
        i = i - 1;
    }
    proof {
        assert forall|j: int| 0 <= j < i implies (#[trigger] sorted@[j]).0 <= f by {
            let fr = key_frames(sorted@);
            assert(fr[j] <= fr[i - 1]);
        }
    }
    i
}

/// Putting a keyframe after all that are not later keeps what holds at each frame.
proof fn lemma_slot_effect(sorted: Seq<(u32, bool)>, keys: Seq<(u32, bool)>, k: (u32, bool), at: int, f: int)
    requires
        0 <= at <= sorted.len(),
        forall|i: int| 0 <= i < at ==> (#[trigger] sorted[i]).0 <= k.0,
        forall|i: int| at <= i < sorted.len() ==> (#[trigger] sorted[i]).0 > k.0,
        key_in_effect(sorted, f) == key_in_effect(keys, f),
    ensures
        key_in_effect(sorted.insert(at, k), f) == key_in_effect(keys.push(k), f),
    decreases sorted.len(),
{
    assert(keys.push(k).drop_last() =~= keys);
    let t = sorted.insert(at, k);
    sorted.insert_ensures(at, k);
    if at == sorted.len() {
        assert(t.drop_last() =~= sorted);
    } else {
        let s1 = sorted.drop_last();
        assert(t.drop_last() =~= s1.insert(at, k));
        lemma_slot_effect(s1, s1, k, at, f);
        assert(s1.push(k).drop_last() =~= s1);
        lemma_effect_frame(s1, f);
        lemma_effect_frame(sorted, f);
    }
}

/// The keyframe in effect is one of the keyframes and not after `f`.
proof fn lemma_effect_frame(keys: Seq<(u32, bool)>, f: int)
    ensures
        key_in_effect(keys, f) matches Some(k) ==> k.0 <= f,
    decreases keys.len(),
{
    if keys.len() > 0 {
        lemma_effect_frame(keys.drop_last(), f);
    }
}

/// In ascending keyframes split at `idx` into those up to frame `f` and those
/// after it, the one in effect at `f` is the last of the former.
proof fn lemma_effect_sorted(s: Seq<(u32, bool)>, idx: int, f: int)
    requires
        ascending(key_frames(s)),
        0 <= idx <= s.len(),
        forall|i: int| 0 <= i < idx ==> (#[trigger] s[i]).0 <= f,
        forall|i: int| idx <= i < s.len() ==> (#[trigger] s[i]).0 > f,
    ensures
        key_in_effect(s, f) == (if idx == 0 {
            None
        } else {
            Some(s[idx - 1])
        }),
    decreases s.len(),
{
    if s.len() > 0 {
        let p = s.drop_last();
        let fr = key_frames(s);
        assert forall|i: int, j: int| 0 <= i <= j < p.len() implies #[trigger] key_frames(p)[i] <= #[trigger] key_frames(p)[j] by {
            assert(fr[i] <= fr[j]);
        }
        if idx == s.len() {
            lemma_effect_sorted(p, idx - 1, f);
            if idx >= 2 {
                assert(fr[idx - 2] <= fr[idx - 1]);
            }
        } else {
            lemma_effect_sorted(p, idx, f);
        }
    }
}

/// Places a keyframe into ascending keyframes.
fn place(sorted: &mut Vec<(u32, bool)>, k: (u32, bool), Ghost(keys): Ghost<Seq<(u32, bool)>>)
    requires
        ascending(key_frames(old(sorted)@)),
        key_frames(old(sorted)@).to_multiset() == key_frames(keys).to_multiset(),
        forall|f: int| #[trigger] key_in_effect(old(sorted)@, f) == key_in_effect(keys, f),
    ensures
        ascending(key_frames(final(sorted)@)),
        key_frames(final(sorted)@).to_multiset() == key_frames(keys.push(k)).to_multiset(),
        forall|f: int| #[trigger] key_in_effect(final(sorted)@, f) == key_in_effect(keys.push(k), f),
{
    let ghost s = sorted@;
    let at: usize = slot(sorted, k.0);
    sorted.insert(at, k);
    proof {
        s.insert_ensures(at as int, k);
        let t = sorted@;
        assert forall|f: int| #[trigger] key_in_effect(t, f) == key_in_effect(keys.push(k), f) by {
            assert(key_in_effect(s, f) == key_in_effect(keys, f));
            lemma_slot_effect(s, keys, k, at as int, f);
        }
        let fs = key_frames(s);
        let ft = key_frames(t);
        assert forall|i: int, j: int| 0 <= i <= j < ft.len() implies #[trigger] ft[i] <= #[trigger] ft[j] by {
            let x = if i < at { i } else { i - 1 };
            let y = if j < at { j } else { j - 1 };
            if i != at && j != at {
                assert(fs[x] <= fs[y]);
                assert(t[i] == s[x] && t[j] == s[y]);
            } else if i == at && j != at {
                assert(t[j] == s[y]);
            } else if j == at && i != at {
                assert(t[i] == s[x]);
            }
        }
        assert(ft =~= fs.insert(at as int, k.0));
        broadcast use vstd::seq_lib::group_to_multiset_ensures;
        assert(key_frames(keys.push(k)) =~= key_frames(keys).push(k.0));
    }
}

/// The held row and the keyframe frames of ascending keyframes.
fn track(sorted: &Vec<(u32, bool)>, nf: u32) -> (r: (Vec<bool>, Vec<u32>))
    requires
        ascending(key_frames(sorted@)),
    ensures
        r.0@ == Seq::new(nf as nat, |f: int| key_held(sorted@, f)),
        r.1@ == key_frames(sorted@),
{
    let mut frames: Vec<u32> = Vec::new();
    let mut i: usize = 0;
    while i < sorted.len()
        invariant
            i <= sorted@.len(),
            frames@ == key_frames(sorted@).take(i as int),
        decreases sorted.len() - i,
    {
        frames.push(sorted[i].0);
        i = i + 1;
        assert(key_frames(sorted@).take(i as int) =~= key_frames(sorted@).take(i - 1).push(sorted@[i - 1].0));
    }
    assert(key_frames(sorted@).take(sorted@.len() as int) =~= key_frames(sorted@));
    let mut held: Vec<bool> = Vec::new();
    let mut cur: bool = false;
    let mut idx: usize = 0;
    let mut f: u32 = 0;
    while f < nf
        invariant
            f <= nf,
            ascending(key_frames(sorted@)),
            idx <= sorted@.len(),
            forall|i: int| 0 <= i < idx ==> (#[trigger] sorted@[i]).0 < f,
            forall|i: int| idx <= i < sorted@.len() ==> (#[trigger] sorted@[i]).0 >= f,
            cur == (if idx == 0 { false } else { sorted@[idx - 1].1 }),
            held@.len() == f,
            forall|j: int| 0 <= j < f ==> #[trigger] held@[j] == key_held(sorted@, j),
        decreases nf - f,
    {
        while idx < sorted.len() && sorted[idx].0 == f
            invariant
                idx <= sorted@.len(),
                ascending(key_frames(sorted@)),
                forall|i: int| 0 <= i < idx ==> (#[trigger] sorted@[i]).0 <= f,
                forall|i: int| idx <= i < sorted@.len() ==> (#[trigger] sorted@[i]).0 >= f,
                cur == (if idx == 0 { false } else { sorted@[idx - 1].1 }),
            decreases sorted@.len() - idx,
        {
            cur = sorted[idx].1;
            idx = idx + 1;
        }
        proof {
            assert forall|i: int| idx <= i < sorted@.len() implies (#[trigger] sorted@[i]).0 > f by {
                let fr = key_frames(sorted@);
                assert(fr[idx as int] <= fr[i]);
                assert(sorted@[idx as int].0 > f);
            }
            lemma_effect_sorted(sorted@, idx as int, f as int);
        }
        held.push(cur);
        f = f + 1;
    }
    (held, frames)
}

/// No two rows are of the same channel and frame.
pub open spec fn one_row_each<T, C: Fn(&T) -> u8, F: Fn(&T) -> u32>(rows: Seq<T>, channel_of: C, frame_of: F) -> bool {
    forall|i: int, j: int|
        0 <= i < j < rows.len() ==> answer(channel_of, #[trigger] rows[i]) != answer(channel_of, #[trigger] rows[j]) || answer(
            frame_of,
            rows[i],
        ) != answer(frame_of, rows[j])
}

/// The row that governs a channel is one of its rows.
proof fn lemma_governs<T, C: Fn(&T) -> u8, F: Fn(&T) -> u32>(rows: Seq<T>, channel_of: C, frame_of: F, c: int, at: u32)
    ensures
        governing(rows, channel_of, frame_of, c, at) matches Some(i) ==> 0 <= i < rows.len() && answer(channel_of, rows[i]) == c,
    decreases rows.len(),
{
    if rows.len() > 0 {
        lemma_governs(rows.drop_last(), channel_of, frame_of, c, at);
    }
}

proof fn lemma_keys_follow<T, C: Fn(&T) -> u8, F: Fn(&T) -> u32, A: Fn(&T) -> bool>(
    rows: Seq<T>,
    channel_of: C,
    frame_of: F,
    active: A,
    c: int,
    f: u32,
)
    requires
        one_row_each(rows, channel_of, frame_of),
    ensures
        key_in_effect(channel_keys(rows, channel_of, frame_of, active, c), f as int) == (match governing(
            rows,
            channel_of,
            frame_of,
            c,
            f,
        ) {
            Some(i) => Some((answer(frame_of, rows[i]), answer(active, rows[i]))),
            None => None,
        }),
    decreases rows.len(),
{
    if rows.len() > 0 {
        let rest = rows.drop_last();
        let n = rows.len() - 1;
        assert forall|i: int, j: int| 0 <= i < j < rest.len() implies answer(channel_of, #[trigger] rest[i]) != answer(
            channel_of,
            #[trigger] rest[j],
        ) || answer(frame_of, rest[i]) != answer(frame_of, rest[j]) by {
            assert(rest[i] == rows[i] && rest[j] == rows[j]);
        }
        lemma_keys_follow(rest, channel_of, frame_of, active, c, f);
        lemma_governs(rest, channel_of, frame_of, c, f);
        let before = channel_keys(rest, channel_of, frame_of, active, c);
        if answer(channel_of, rows[n]) == c {
            let k = (answer(frame_of, rows[n]), answer(active, rows[n]));
            assert(before.push(k).drop_last() =~= before);
            if let Some(i) = governing(rest, channel_of, frame_of, c, f) {
                assert(rest[i] == rows[i]);
                assert(answer(channel_of, rows[i]) != answer(channel_of, rows[n]) || answer(frame_of, rows[i]) != answer(frame_of, rows[n]));
            }
        }
    }
}

/// A track follows the rows that govern: where no two rows are of the same channel and
/// frame, the track of a channel holds at a frame what the row in effect there says, and
/// is off where there is none.
pub proof fn law_tracks_follow_rows<T, C: Fn(&T) -> u8, F: Fn(&T) -> u32, A: Fn(&T) -> bool>(
    rows: Seq<T>,
    channel_of: C,
    frame_of: F,
    active: A,
    c: int,
    nf: u32,
    held: Seq<bool>,
    frames: Seq<u32>,
    f: u32,
)
    requires
        one_row_each(rows, channel_of, frame_of),
        is_track(channel_keys(rows, channel_of, frame_of, active, c), nf as nat, held, frames),
        f < nf,
    ensures
        held[f as int] == (match governing(rows, channel_of, frame_of, c, f) {
            Some(i) => answer(active, rows[i]),
            None => false,
        }),
{
    lemma_keys_follow(rows, channel_of, frame_of, active, c, f);
}

/// Expands fixture keyframe rows into, per channel, a held on/off row and the
/// frames that carry a keyframe. `active` says whether a keyframe turns the
/// channel on; a keyframe holds until the next, and before the first the channel
/// is off.
pub fn expand_fixture_tracks<T, C: Fn(&T) -> u8, F: Fn(&T) -> u32, A: Fn(&T) -> bool>(
    rows: &[T],
    channels: usize,
    nf: u32,
    channel_of: C,
    frame_of: F,
    active: A,
) -> (r: Vec<(Vec<bool>, Vec<u32>)>)
    requires
        decides(rows@, channel_of),
        decides(rows@, frame_of),
        decides(rows@, active),
    ensures
        answered(rows@, channel_of),
        answered(rows@, frame_of),
        answered(rows@, active),
        r@.len() == channels,
        forall|c: int|
            0 <= c < channels ==> is_track(
                channel_keys(rows@, channel_of, frame_of, active, c),
                nf as nat,
                (#[trigger] r@[c]).0@,
                r@[c].1@,
            ),
{
    let mut marks: Vec<(u8, u32, bool)> = Vec::new();
    let mut i: usize = 0;
    while i < rows.len()
        invariant
            i <= rows@.len(),
            decides(rows@, channel_of),
            decides(rows@, frame_of),
            decides(rows@, active),
            forall|j: int| 0 <= j < i ==> call_ensures(channel_of, (&#[trigger] rows@[j],), answer(channel_of, rows@[j])),
            forall|j: int| 0 <= j < i ==> call_ensures(frame_of, (&#[trigger] rows@[j],), answer(frame_of, rows@[j])),
            forall|j: int| 0 <= j < i ==> call_ensures(active, (&#[trigger] rows@[j],), answer(active, rows@[j])),
            marks@.len() == i,
            forall|j: int|
                0 <= j < i ==> #[trigger] marks@[j] == (
                    answer(channel_of, rows@[j]),
                    answer(frame_of, rows@[j]),
                    answer(active, rows@[j]),
                ),
        decreases rows.len() - i,
    {
        let c: u8 = channel_of(&rows[i]);
        let f: u32 = frame_of(&rows[i]);
        let a: bool = active(&rows[i]);
        assert(c == answer(channel_of, rows@[i as int]));
        assert(f == answer(frame_of, rows@[i as int]));
        assert(a == answer(active, rows@[i as int]));
        marks.push((c, f, a));
        i = i + 1;
    }
    let mut out: Vec<(Vec<bool>, Vec<u32>)> = Vec::new();
    let mut c: usize = 0;
    while c < channels
        invariant
            c <= channels,
            marks@.len() == rows@.len(),
            answered(rows@, channel_of),
            answered(rows@, frame_of),
            answered(rows@, active),
            forall|j: int|
                0 <= j < rows@.len() ==> #[trigger] marks@[j] == (
                    answer(channel_of, rows@[j]),
                    answer(frame_of, rows@[j]),
                    answer(active, rows@[j]),
                ),
            out@.len() == c,
            forall|d: int|
                0 <= d < c ==> is_track(
                    channel_keys(rows@, channel_of, frame_of, active, d),
                    nf as nat,
                    (#[trigger] out@[d]).0@,
                    out@[d].1@,
                ),
        decreases channels - c,
    {
        let mut sorted: Vec<(u32, bool)> = Vec::new();
        let mut i: usize = 0;
        let ghost mut keys: Seq<(u32, bool)> = Seq::empty();
        while i < marks.len()
            invariant
                i <= marks@.len() == rows@.len(),
                forall|j: int|
                    0 <= j < rows@.len() ==> #[trigger] marks@[j] == (
                        answer(channel_of, rows@[j]),
                        answer(frame_of, rows@[j]),
                        answer(active, rows@[j]),
                    ),
                keys == channel_keys(rows@.take(i as int), channel_of, frame_of, active, c as int),
                ascending(key_frames(sorted@)),
                key_frames(sorted@).to_multiset() == key_frames(keys).to_multiset(),
                forall|f: int| #[trigger] key_in_effect(sorted@, f) == key_in_effect(keys, f),
            decreases rows.len() - i,
        {
            let k: (u8, u32, bool) = marks[i];
            if k.0 as usize == c {
                place(&mut sorted, (k.1, k.2), Ghost(keys));
                proof {
                    keys = keys.push((k.1, k.2));
                }
            }
            i = i + 1;
            assert(rows@.take(i as int).drop_last() =~= rows@.take(i - 1));
        }
        assert(rows@.take(rows@.len() as int) =~= rows@);
        let t: (Vec<bool>, Vec<u32>) = track(&sorted, nf);
        proof {
            assert forall|f: int| 0 <= f < nf implies #[trigger] key_held(sorted@, f) == key_held(keys, f) by {
                assert(key_in_effect(sorted@, f) == key_in_effect(keys, f));
            }
            assert(t.0@ =~= Seq::new(nf as nat, |f: int| key_held(keys, f)));
        }
        out.push(t);
        c = c + 1;
    }
    out
}

// ---- moving heads -----------------------------------------------------------

/// The keyframe a moving head rests on: of `channel`'s keyframes already
/// reached, the one with the latest frame, and of several the last.
pub open spec fn turret_prev(rows: Seq<TurretKeyframe>, channel: u8, reached: Seq<bool>) -> Option<TurretKeyframe>
    decreases rows.len(),
{
    if rows.len() == 0 {
        None
    } else {
        let best = turret_prev(rows.drop_last(), channel, reached);
        let r = rows.last();
        if r.channel == channel && reached[rows.len() - 1] && (best is None || best->0.frame <= r.frame) {
            Some(r)
        } else {
            best
        }
    }
}

/// The keyframe a moving head moves to: of `channel`'s keyframes not yet
/// reached, the one with the earliest frame, and of several the first.
pub open spec fn turret_next(rows: Seq<TurretKeyframe>, channel: u8, reached: Seq<bool>) -> Option<TurretKeyframe>
    decreases rows.len(),
{
    if rows.len() == 0 {
        None
    } else {
        let best = turret_next(rows.drop_last(), channel, reached);
        let r = rows.last();
        if r.channel == channel && !reached[rows.len() - 1] && (best is None || r.frame < best->0.frame) {
            Some(r)
        } else {
            best
        }
    }
}

/// Where a moving head aims: at `from`, or on its way from there to `to`.
#[derive(Clone, Copy, PartialEq, Eq, Structural, Debug)]
pub struct TurretAim {
    pub from: TurretKeyframe,
    /// The keyframe to ease toward; `None` while the head rests on `from`.
    pub to: Option<TurretKeyframe>,
    pub on: bool,
}

/// The aim between two bracketing keyframes. The head moves only while it is on
/// and the second keyframe lies after the first.
pub open spec fn turret_aim(prev: Option<TurretKeyframe>, next: Option<TurretKeyframe>) -> Option<TurretAim> {
    match prev {
        None => None,
        Some(p) => Some(
            TurretAim {
                from: p,
                to: match next {
                    Some(n) => if p.state > 0 && n.frame > p.frame {
                        Some(n)
                    } else {
                        None
                    },
                    None => None,
                },
                on: p.state > 0,
            },
        ),
    }
}

/// Which keyframe a head rests on and which it moves to.
proof fn lemma_turret_prev(rows: Seq<TurretKeyframe>, channel: u8, reached: Seq<bool>)
    requires
        rows.len() <= reached.len(),
    ensures
        match turret_prev(rows, channel, reached) {
            Some(p) => {
                &&& exists|i: int| 0 <= i < rows.len() && #[trigger] rows[i] == p && reached[i] && p.channel == channel
                &&& forall|i: int| 0 <= i < rows.len() && (#[trigger] rows[i]).channel == channel && reached[i] ==> rows[i].frame <= p.frame
            },
            None => forall|i: int| 0 <= i < rows.len() && (#[trigger] rows[i]).channel == channel ==> !reached[i],
        },
    decreases rows.len(),
{
    if rows.len() > 0 {
        let rest = rows.drop_last();
        lemma_turret_prev(rest, channel, reached);
        assert(forall|i: int| 0 <= i < rest.len() ==> rest[i] == rows[i]);
        if let Some(p) = turret_prev(rest, channel, reached) {
            let i = choose|i: int| 0 <= i < rest.len() && #[trigger] rest[i] == p && reached[i] && p.channel == channel;
            assert(rows[i] == p);
        }
        assert(rows[rows.len() - 1] == rows.last());
    }
}

proof fn lemma_turret_next(rows: Seq<TurretKeyframe>, channel: u8, reached: Seq<bool>)
    requires
        rows.len() <= reached.len(),
    ensures
        match turret_next(rows, channel, reached) {
            Some(p) => {
                &&& exists|i: int| 0 <= i < rows.len() && #[trigger] rows[i] == p && !reached[i] && p.channel == channel
                &&& forall|i: int| 0 <= i < rows.len() && (#[trigger] rows[i]).channel == channel && !reached[i] ==> rows[i].frame >= p.frame
            },
            None => forall|i: int| 0 <= i < rows.len() && (#[trigger] rows[i]).channel == channel ==> reached[i],
        },
    decreases rows.len(),
{
    if rows.len() > 0 {
        let rest = rows.drop_last();
        lemma_turret_next(rest, channel, reached);
        assert(forall|i: int| 0 <= i < rest.len() ==> rest[i] == rows[i]);
        if let Some(p) = turret_next(rest, channel, reached) {
            let i = choose|i: int| 0 <= i < rest.len() && #[trigger] rest[i] == p && !reached[i] && p.channel == channel;
            assert(rows[i] == p);
        }
        assert(rows[rows.len() - 1] == rows.last());
    }
}

/// A moving head goes from keyframe to keyframe: it rests on, or leaves from, the
/// reached keyframe of its channel with the latest frame, and moves to the one not yet
/// reached with the earliest. It has an aim exactly where a keyframe of its channel is
/// reached; it is lit where that keyframe is; and while it is lit it moves wherever a
/// later keyframe of its channel is to come.
pub proof fn law_turret_sweep(rows: Seq<TurretKeyframe>, channel: u8, reached: Seq<bool>)
    requires
        reached.len() == rows.len(),
    ensures
        ({
            let aim = turret_aim(turret_prev(rows, channel, reached), turret_next(rows, channel, reached));
            &&& aim is Some <==> exists|i: int| 0 <= i < rows.len() && (#[trigger] rows[i]).channel == channel && reached[i]
            &&& aim matches Some(a) ==> {
                &&& exists|i: int| 0 <= i < rows.len() && #[trigger] rows[i] == a.from && reached[i]
                &&& a.from.channel == channel
                &&& a.on <==> a.from.state != 0
                &&& forall|i: int|
                    0 <= i < rows.len() && (#[trigger] rows[i]).channel == channel && reached[i] ==> rows[i].frame <= a.from.frame
                &&& a.to matches Some(t) ==> {
                    &&& exists|i: int| 0 <= i < rows.len() && #[trigger] rows[i] == t && !reached[i]
                    &&& t.channel == channel
                    &&& t.frame > a.from.frame
                    &&& a.on
                    &&& forall|i: int|
                        0 <= i < rows.len() && (#[trigger] rows[i]).channel == channel && !reached[i] ==> rows[i].frame >= t.frame
                }
                &&& a.to is None && a.on ==> forall|i: int|
                    0 <= i < rows.len() && (#[trigger] rows[i]).channel == channel && !reached[i] ==> exists|j: int|
                        0 <= j < rows.len() && (#[trigger] rows[j]).channel == channel && !reached[j] && rows[j].frame <= a.from.frame
            }
        }),
{
    lemma_turret_prev(rows, channel, reached);
    lemma_turret_next(rows, channel, reached);
    if let Some(p) = turret_prev(rows, channel, reached) {
        let i = choose|i: int| 0 <= i < rows.len() && #[trigger] rows[i] == p && reached[i] && p.channel == channel;
        assert(rows[i].channel == channel && reached[i]);
    }
    if let Some(n) = turret_next(rows, channel, reached) {
        let i = choose|i: int| 0 <= i < rows.len() && #[trigger] rows[i] == n && !reached[i] && n.channel == channel;
        assert(rows[i].channel == channel && !reached[i]);
    }
}

/// The keyframes that bracket the aim of turret `channel`. `reached[i]` says
/// whether the frame of `rows[i]` is at or before the point in time. Before the
/// first keyframe the head is off (`None`).
pub fn turret_bracket(rows: &[TurretKeyframe], channel: u8, reached: &[bool]) -> (r: Option<TurretAim>)
    requires
        reached@.len() == rows@.len(),
    ensures
        r == turret_aim(turret_prev(rows@, channel, reached@), turret_next(rows@, channel, reached@)),
{
    let mut prev: Option<TurretKeyframe> = None;
    let mut next: Option<TurretKeyframe> = None;
    let mut i: usize = 0;
    while i < rows.len()
        invariant
            i <= rows@.len(),
            reached@.len() == rows@.len(),
            prev == turret_prev(rows@.take(i as int), channel, reached@),
            next == turret_next(rows@.take(i as int), channel, reached@),
        decreases rows.len() - i,
    {
        let r: TurretKeyframe = rows[i];
        if r.channel == channel {
            if reached[i] {
                let later: bool = match prev {
                    Some(p) => r.frame >= p.frame,
                    None => true,
                };
                if later {
                    prev = Some(r);
                }
            } else {
                let sooner: bool = match next {
                    Some(n) => r.frame < n.frame,
                    None => true,
                };
                if sooner {
                    next = Some(r);
                }
            }
        }
        i = i + 1;
        assert(rows@.take(i as int).drop_last() =~= rows@.take(i - 1));
    }
    assert(rows@.take(rows@.len() as int) =~= rows@);
    match prev {
        None => None,
        Some(p) => {
            let on: bool = p.state > 0;
            let to: Option<TurretKeyframe> = match next {
                Some(n) => {
                    if on && n.frame > p.frame {
                        Some(n)
                    } else {
                        None
                    }
                },
                None => None,
            };
            Some(TurretAim { from: p, to, on })
        },
    }
}

// ---- labels -----------------------------------------------------------------

/// The label of an edit's state.
pub fn state_label(state: u8) -> (r: &'static str)
    ensures
        r@ == (if state == 0 {
            "off"@
        } else if state == 1 {
            "ON"@
        } else {
            "clear"@
        }),
{
    match state {
        0 => "off",
        1 => "ON",
        _ => "clear",
    }
}

/// The lower-case hexadecimal digit of a value below sixteen.
pub open spec fn hex_char(d: int) -> char {
    if d < 10 {
        (d + '0' as int) as char
    } else {
        (d - 10 + 'a' as int) as char
    }
}

/// The last `n` hexadecimal digits of `v`, leading zeros kept.
pub open spec fn hex_digits(v: nat, n: nat) -> Seq<char>
    decreases n,
{
    if n == 0 {
        Seq::empty()
    } else {
        hex_digits(v / 16, (n - 1) as nat).push(hex_char((v % 16) as int))
    }
}

/// The hexadecimal digit of a value below sixteen.
fn hex_digit(d: u32) -> (r: char)
    requires
        d < 16,
    ensures
        r == hex_char(d as int),
{
    if d < 10 {
        (d as u8 + 48u8) as char
    } else {
        (d as u8 + 87u8) as char
    }
}

/// Appends the last `n` hexadecimal digits of `v`.
fn push_hex(out: &mut Vec<char>, v: u32, n: u32)
    ensures
        final(out)@ == old(out)@ + hex_digits(v as nat, n as nat),
    decreases n,
{
    if n > 0 {
        push_hex(out, v / 16, n - 1);
        out.push(hex_digit(v % 16));
    }
}

/// How an identity is shown: the first eight of its 64 hexadecimal digits and an
/// ellipsis, or a dash where there is none.
pub open spec fn id_text(id: Option<Identity>) -> Seq<char> {
    match id {
        Some(i) => hex_digits(i.hi as nat / 0x1_0000_0000_0000_0000_0000_0000, 8).push('…'),
        None => seq!['—'],
    }
}

/// A short form of an identity.
pub fn short_id(id: Option<&Identity>) -> (r: String)
    ensures
        r@ == id_text(match id {
            Some(i) => Some(*i),
            None => None,
        }),
{
    let mut out: Vec<char> = Vec::new();
    match id {
        Some(i) => {
            let top: u32 = (i.hi / 0x1_0000_0000_0000_0000_0000_0000) as u32;
            push_hex(&mut out, top, 8);
            out.push('…');
        },
        None => {
            out.push('—');
        },
    }
    text_of(&out)
}

// ---- laws -------------------------------------------------------------------

/// Time travel: the show as of edit `n` does not change when later edits are
/// appended.
pub proof fn law_time_travel(log: Seq<Edit>, later: Seq<Edit>, n: u64)
    requires
        forall|i: int| 0 <= i < later.len() ==> (#[trigger] later[i]).seq > n,
    ensures
        folded(log + later, n) == folded(log, n),
    decreases later.len(),
{
    if later.len() == 0 {
        assert(log + later =~= log);
    } else {
        assert((log + later).drop_last() =~= log + later.drop_last());
        law_time_travel(log, later.drop_last(), n);
    }
}

/// A prediction comes true: once the appended edits are the pending ones, the
/// folded log is what the pending edits showed on top of the old one.
pub proof fn law_prediction(log: Seq<Edit>, acked: Seq<Edit>, pending: Seq<LightEditInput>, n: u64)
    requires
        acked.len() == pending.len(),
        forall|i: int|
            0 <= i < acked.len() ==> (#[trigger] acked[i]).seq <= n && acked[i].light == pending[i].light && acked[i].frame
                == pending[i].frame && acked[i].state == pending[i].state,
    ensures
        folded(log + acked, n) == overlaid(folded(log, n), pending),
    decreases acked.len(),
{
    if acked.len() == 0 {
        assert(log + acked =~= log);
    } else {
        assert((log + acked).drop_last() =~= log + acked.drop_last());
        law_prediction(log, acked.drop_last(), pending.drop_last(), n);
    }
}

/// Hold: a keyframe's state holds from its frame up to the next keyframe.
pub proof fn law_hold(m: Map<(u32, u32), bool>, light: u32, at: u32, f: u32)
    requires
        at <= f,
        m.contains_key((light, at)),
        forall|g: u32| at < g <= f ==> !m.contains_key((light, g)),
    ensures
        held_at(m, light, f as nat) == m[(light, at)],
    decreases f - at,
{
    if f > at {
        law_hold(m, light, at, (f - 1) as u32);
    }
}

/// Before its first keyframe a light is off.
pub proof fn law_off_before_first(m: Map<(u32, u32), bool>, light: u32, f: u32)
    requires
        forall|g: u32| g <= f ==> !m.contains_key((light, g)),
    ensures
        !held_at(m, light, f as nat),
    decreases f,
{
    if f > 0 {
        law_off_before_first(m, light, (f - 1) as u32);
    }
}

} // verus!
