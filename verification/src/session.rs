//! The editing session: which projects are listed, the history cursor, edits not
//! yet acknowledged, restoring and generating edits, and the labels around them.
use crate::logic::{
    fewest, fold_keyframes, folded, has_key, in_order, key_at, key_before, key_of, keyframe_map, lemma_keyframe_at, overlaid,
    state_for, Keyframe, Keyframes,
};
use crate::rows::{Edit, Identity, LightEditInput, Project, ProjectView};
use crate::state::GridSelection;
use crate::store::row_views;
use crate::text::{chars_of, text_of, trim, trimmed};
use vstd::prelude::*;

verus! {

broadcast use {vstd::seq::group_seq_axioms, vstd::string::group_string_axioms};

// ---- projects ---------------------------------------------------------------

/// Which projects a list shows.
#[derive(Clone, Copy, PartialEq, Eq, Structural, Debug)]
pub enum ProjectList {
    /// The user's own projects and every template.
    Visible,
    /// The user's own shows.
    Mine,
    /// The sample shows.
    Samples,
    /// The user's own blueprints.
    Blueprints,
}

/// The project is in the list of user `me`.
pub open spec fn listed(list: ProjectList, me: Option<Identity>, p: ProjectView) -> bool {
    match list {
        ProjectList::Visible => me == Some(p.owner) || p.is_template,
        ProjectList::Mine => !p.is_template && !p.is_blueprint && me == Some(p.owner),
        ProjectList::Samples => p.is_template,
        ProjectList::Blueprints => p.is_blueprint && me == Some(p.owner),
    }
}

/// The projects of a list, in table order.
pub open spec fn listed_projects(list: ProjectList, me: Option<Identity>, ps: Seq<ProjectView>) -> Seq<ProjectView>
    decreases ps.len(),
{
    if ps.len() == 0 {
        Seq::empty()
    } else {
        let rest = listed_projects(list, me, ps.drop_last());
        if listed(list, me, ps.last()) {
            rest.push(ps.last())
        } else {
            rest
        }
    }
}

/// No project is followed by one with a smaller id.
pub open spec fn by_id(ps: Seq<ProjectView>) -> bool {
    forall|i: int, j: int| 0 <= i <= j < ps.len() ==> (#[trigger] ps[i]).id <= (#[trigger] ps[j]).id
}

/// Whether the user is this one.
fn is_user(me: Option<Identity>, who: Identity) -> (r: bool)
    ensures
        r == (me == Some(who)),
{
    match me {
        Some(i) => i == who,
        None => false,
    }
}

/// Puts a project into a list ordered by id.
fn place_project(out: &mut Vec<Project>, p: Project)
    requires
        by_id(row_views(old(out)@)),
    ensures
        by_id(row_views(final(out)@)),
        row_views(final(out)@).to_multiset() == row_views(old(out)@).to_multiset().insert(p@),
{
    let ghost s = row_views(out@);
    let ghost v = p@;
    let ghost before = out@;
    let mut i: usize = out.len();
    while i > 0 && out[i - 1].id > p.id
        invariant
            i <= out@.len(),
            out@ == before,
            s == row_views(before),
            by_id(s),
            forall|j: int| i <= j < s.len() ==> (#[trigger] s[j]).id > p.id,
        decreases i,
    {
        i = i - 1;
        assert(s[i as int].id == out@[i as int].id);
    }
    assert(i > 0 ==> s[i - 1].id == out@[i - 1].id);
    out.insert(i, p);
    proof {
        before.insert_ensures(i as int, out@[i as int]);
        s.insert_ensures(i as int, v);
        let t = row_views(out@);
        assert(t =~= s.insert(i as int, v));
        broadcast use vstd::seq_lib::group_to_multiset_ensures;
        assert forall|a: int, b: int| 0 <= a <= b < t.len() implies (#[trigger] t[a]).id <= (#[trigger] t[b]).id by {
            let x = if a < i { a } else { a - 1 };
            let y = if b < i { b } else { b - 1 };
            if a != i && b != i {
                assert(t[a] == s[x] && t[b] == s[y]);
            } else if a == i && b != i {
                assert(t[b] == s[y]);
            } else if b == i && a != i {
                assert(t[a] == s[x]);
                assert(s[x].id <= s[i - 1].id);
            }
        }
    }
}

/// The projects of a list, ordered by id.
pub fn list_projects(all: &[Project], me: Option<Identity>, list: ProjectList) -> (r: Vec<Project>)
    ensures
        by_id(row_views(r@)),
        row_views(r@).to_multiset() == listed_projects(list, me, row_views(all@)).to_multiset(),
{
    let ghost ps = row_views(all@);
    let mut out: Vec<Project> = Vec::new();
    let mut i: usize = 0;
    assert(row_views(out@) =~= listed_projects(list, me, ps.take(0)));
    while i < all.len()
        invariant
            i <= all@.len(),
            ps == row_views(all@),
            by_id(row_views(out@)),
            row_views(out@).to_multiset() == listed_projects(list, me, ps.take(i as int)).to_multiset(),
        decreases all@.len() - i,
    {
        let p: &Project = &all[i];
        assert(ps[i as int] == p@);
        assert(ps.take(i + 1).drop_last() =~= ps.take(i as int));
        let own: bool = is_user(me, p.owner);
        let keep: bool = match list {
            ProjectList::Visible => own || p.is_template,
            ProjectList::Mine => !p.is_template && !p.is_blueprint && own,
            ProjectList::Samples => p.is_template,
            ProjectList::Blueprints => p.is_blueprint && own,
        };
        if keep {
            proof {
                broadcast use vstd::seq_lib::group_to_multiset_ensures;
                let rest = listed_projects(list, me, ps.take(i as int));
                assert(rest.push(p@).to_multiset() == rest.to_multiset().insert(p@));
            }
            place_project(&mut out, p.clone());
        }
        i = i + 1;
    }
    assert(ps.take(ps.len() as int) =~= ps);
    out
}

/// The opened project, where it is still among the listed ones.
pub fn open_project(projects: &[Project], open: Option<u64>) -> (r: Option<usize>)
    ensures
        match r {
            Some(i) => i < projects@.len() && open == Some(projects@[i as int].id) && forall|j: int|
                0 <= j < i ==> open != Some((#[trigger] projects@[j]).id),
            None => forall|j: int| 0 <= j < projects@.len() ==> open != Some((#[trigger] projects@[j]).id),
        },
{
    match open {
        None => None,
        Some(id) => {
            let mut i: usize = 0;
            while i < projects.len()
                invariant
                    i <= projects@.len(),
                    open == Some(id),
                    forall|j: int| 0 <= j < i ==> (#[trigger] projects@[j]).id != id,
                decreases projects@.len() - i,
            {
                if projects[i].id == id {
                    return Some(i);
                }
                i = i + 1;
            }
            None
        },
    }
}

/// A template that the user does not own is read-only until copied.
pub fn read_only(p: &Project, me: Option<Identity>) -> (r: bool)
    ensures
        r == (p.is_template && me != Some(p.owner)),
{
    p.is_template && !is_user(me, p.owner)
}

/// Whether the show can be edited: neither a past version nor a read-only show can.
pub fn may_edit(viewing_history: bool, read_only: bool) -> (r: bool)
    ensures
        r == (!viewing_history && !read_only),
{
    !viewing_history && !read_only
}

/// Whether the version that is viewed can be restored: a past one can, unless the show
/// is read-only.
pub fn may_restore(viewing_history: bool, read_only: bool) -> (r: bool)
    ensures
        r == (viewing_history && !read_only),
{
    viewing_history && !read_only
}

/// A name as typed, trimmed; none where nothing is left.
pub fn typed_name(name: &str) -> (r: Option<String>)
    ensures
        r is None <==> trimmed(name@).len() == 0,
        r matches Some(s) ==> s@ == trimmed(name@),
{
    let t: Vec<char> = trim(&chars_of(name));
    if t.len() == 0 {
        None
    } else {
        Some(text_of(&t))
    }
}

// ---- the log and the history cursor -----------------------------------------

/// The edits of a project, in the order given.
pub open spec fn edits_of(all: Seq<Edit>, project: u64) -> Seq<Edit>
    decreases all.len(),
{
    if all.len() == 0 {
        Seq::empty()
    } else {
        let rest = edits_of(all.drop_last(), project);
        if all.last().project_id == project {
            rest.push(all.last())
        } else {
            rest
        }
    }
}

/// No edit is followed by an earlier one.
pub open spec fn by_seq(s: Seq<Edit>) -> bool {
    forall|i: int, j: int| 0 <= i <= j < s.len() ==> (#[trigger] s[i]).seq <= (#[trigger] s[j]).seq
}

/// The edits of a project in the order of its history.
pub fn project_log(all: &[Edit], project: u64) -> (r: Vec<Edit>)
    ensures
        by_seq(r@),
        r@.to_multiset() == edits_of(all@, project).to_multiset(),
{
    let mut out: Vec<Edit> = Vec::new();
    let mut i: usize = 0;
    while i < all.len()
        invariant
            i <= all@.len(),
            by_seq(out@),
            out@.to_multiset() == edits_of(all@.take(i as int), project).to_multiset(),
        decreases all@.len() - i,
    {
        let e: Edit = all[i];
        assert(all@.take(i + 1).drop_last() =~= all@.take(i as int));
        if e.project_id == project {
            let ghost s = out@;
            let mut k: usize = out.len();
            while k > 0 && out[k - 1].seq > e.seq
                invariant
                    k <= out@.len(),
                    out@ == s,
                    forall|j: int| k <= j < s.len() ==> (#[trigger] s[j]).seq > e.seq,
                decreases k,
            {
                k = k - 1;
            }
            out.insert(k, e);
            proof {
                s.insert_ensures(k as int, e);
                broadcast use vstd::seq_lib::group_to_multiset_ensures;
                let t = out@;
                assert(t =~= s.insert(k as int, e));
                let rest = edits_of(all@.take(i as int), project);
                assert(rest.push(e).to_multiset() == rest.to_multiset().insert(e));
                assert forall|a: int, b: int| 0 <= a <= b < t.len() implies (#[trigger] t[a]).seq <= (#[trigger] t[b]).seq by {
                    let x = if a < k { a } else { a - 1 };
                    let y = if b < k { b } else { b - 1 };
                    if a != k && b != k {
                        assert(t[a] == s[x] && t[b] == s[y]);
                    } else if a == k && b != k {
                        assert(t[b] == s[y]);
                    } else if b == k && a != k {
                        assert(t[a] == s[x]);
                        assert(s[x].seq <= s[k - 1].seq);
                    }
                }
            }
        }
        i = i + 1;
    }
    assert(all@.take(all@.len() as int) =~= all@);
    out
}

/// A project's edits have one order: where no two share a number in its history,
/// they are arranged in one way only.
pub proof fn law_log_is_unique(a: Seq<Edit>, b: Seq<Edit>)
    requires
        by_seq(a),
        by_seq(b),
        a.to_multiset() == b.to_multiset(),
        forall|i: int, j: int| 0 <= i < j < a.len() ==> (#[trigger] a[i]).seq != (#[trigger] a[j]).seq,
    ensures
        a == b,
    decreases a.len(),
{
    broadcast use vstd::seq_lib::group_to_multiset_ensures;

    assert(a.len() == a.to_multiset().len());
    assert(b.len() == b.to_multiset().len());
    if a.len() == 0 {
        assert(a =~= b);
    } else {
        let x = a.last();
        let y = b.last();
        assert(a.contains(x)) by {
            assert(a[a.len() - 1] == x);
        }
        assert(b.contains(y)) by {
            assert(b[b.len() - 1] == y);
        }
        assert(a.to_multiset().count(x) > 0);
        assert(b.to_multiset().count(y) > 0);
        assert(b.contains(x));
        assert(a.contains(y));
        let j = choose|j: int| 0 <= j < b.len() && b[j] == x;
        let i = choose|i: int| 0 <= i < a.len() && a[i] == y;
        assert(b[j].seq <= b[b.len() - 1].seq);
        assert(a[i].seq <= a[a.len() - 1].seq);
        if i < a.len() - 1 {
            assert(a[i].seq != a[a.len() - 1].seq);
        }
        assert(x == y);
        let a0 = a.drop_last();
        let b0 = b.drop_last();
        assert(a =~= a0.push(x));
        assert(b =~= b0.push(x));
        assert(a0.to_multiset() =~= a.to_multiset().remove(x));
        assert(b0.to_multiset() =~= b.to_multiset().remove(x));
        assert forall|p: int, q: int| 0 <= p < q < a0.len() implies (#[trigger] a0[p]).seq != (#[trigger] a0[q]).seq by {
            assert(a[p].seq != a[q].seq);
        }
        law_log_is_unique(a0, b0);
    }
}

/// The playhead brought onto the timeline.
pub fn clamp_frame(frame: u32, nf: u32) -> (r: u32)
    ensures
        r == (if frame < nf {
            frame
        } else if nf == 0 {
            0u32
        } else {
            (nf - 1) as u32
        }),
        nf > 0 ==> r < nf,
        r <= frame,
        frame < nf ==> r == frame,
{
    if frame < nf {
        frame
    } else if nf == 0 {
        0
    } else {
        nf - 1
    }
}

/// Up to which edit the show is folded.
pub open spec fn cutoff_of(history_pos: Option<u64>, head: u64) -> u64 {
    match history_pos {
        Some(p) => if p < head {
            p
        } else {
            head
        },
        None => head,
    }
}

/// The history cursor stands before the newest edit.
pub open spec fn in_history(history_pos: Option<u64>, head: u64) -> bool {
    match history_pos {
        Some(p) => p < head,
        None => false,
    }
}

/// Up to which edit the show is folded, and whether that is a past version.
pub fn history_view(history_pos: Option<u64>, head: u64) -> (r: (u64, bool))
    ensures
        r.0 == cutoff_of(history_pos, head),
        r.1 == in_history(history_pos, head),
        r.1 <==> r.0 < head,
{
    match history_pos {
        Some(p) => {
            if p < head {
                (p, true)
            } else {
                (head, false)
            }
        },
        None => (head, false),
    }
}

/// The history cursor after choosing an edit: the newest one is the live show.
pub fn choose_edit(pos: u64, head: u64) -> (r: Option<u64>)
    ensures
        r == (if pos >= head {
            None
        } else {
            Some(pos)
        }),
        cutoff_of(r, head) == (if pos >= head {
            head
        } else {
            pos
        }),
{
    if pos >= head {
        None
    } else {
        Some(pos)
    }
}

/// A selection left over from another, or since shrunk, grid is dropped.
pub fn keep_selection(sel: Option<GridSelection>, rows: u32, nf: u32) -> (r: Option<GridSelection>)
    ensures
        r == (match sel {
            Some(s) => if s.row_max >= rows || s.frame_max >= nf {
                None
            } else {
                Some(s)
            },
            None => None,
        }),
        r matches Some(s) ==> sel == Some(s) && s.row_max < rows && s.frame_max < nf,
        sel matches Some(s) && s.row_max < rows && s.frame_max < nf ==> r == sel,
{
    match sel {
        Some(s) => {
            if s.row_max >= rows || s.frame_max >= nf {
                None
            } else {
                Some(s)
            }
        },
        None => None,
    }
}

// ---- edits not yet acknowledged ---------------------------------------------

/// Light edits that were sent and have not come back yet.
#[derive(Debug)]
pub struct Pending {
    pub edits: Vec<LightEditInput>,
    /// The head of the log when the first of them was sent.
    pub base: u64,
    /// The project they belong to.
    pub project: u64,
}

/// How many of the user's own edits came back after `base`.
pub open spec fn landed(log: Seq<Edit>, me: Option<Identity>, base: u64) -> nat
    decreases log.len(),
{
    if log.len() == 0 {
        0
    } else {
        landed(log.drop_last(), me, base) + if me == Some(log.last().author) && log.last().seq > base {
            1nat
        } else {
            0nat
        }
    }
}

impl Pending {
    /// Nothing pending.
    pub fn new() -> (r: Pending)
        ensures
            r.edits@ == Seq::<LightEditInput>::empty(),
            r.base == 0,
            r.project == 0,
    {
        Pending { edits: Vec::new(), base: 0, project: 0 }
    }

    /// Turns to a project; what was pending for another is dropped. Says whether
    /// it was another.
    pub fn switch_to(&mut self, project: u64) -> (r: bool)
        ensures
            r == (old(self).project != project),
            final(self).project == project,
            final(self).base == old(self).base,
            final(self).edits@ == (if r {
                Seq::<LightEditInput>::empty()
            } else {
                old(self).edits@
            }),
    {
        if self.project != project {
            self.edits = Vec::new();
            self.project = project;
            true
        } else {
            false
        }
    }

    /// Drops what is pending once as many of the user's own edits came back, and
    /// while a past version is shown.
    pub fn settle(&mut self, log: &[Edit], me: Option<Identity>, viewing_history: bool)
        ensures
            final(self).base == old(self).base,
            final(self).project == old(self).project,
            final(self).edits@ == (if viewing_history || landed(log@, me, old(self).base) >= old(self).edits@.len() {
                Seq::<LightEditInput>::empty()
            } else {
                old(self).edits@
            }),
    {
        let mut n: usize = 0;
        let mut i: usize = 0;
        while i < log.len()
            invariant
                i <= log@.len(),
                n <= i,
                *self == *old(self),
                n == landed(log@.take(i as int), me, self.base),
            decreases log@.len() - i,
        {
            let e: Edit = log[i];
            assert(log@.take(i + 1).drop_last() =~= log@.take(i as int));
            if is_user(me, e.author) && e.seq > self.base {
                n = n + 1;
            }
            i = i + 1;
        }
        assert(log@.take(log@.len() as int) =~= log@);
        if viewing_history || n >= self.edits.len() {
            self.edits = Vec::new();
        }
    }

    /// Records edits that were sent, so that they show before they come back.
    pub fn predict(&mut self, edits: &[LightEditInput], head: u64)
        ensures
            final(self).project == old(self).project,
            final(self).edits@ == old(self).edits@ + edits@,
            final(self).base == (if edits@.len() > 0 && old(self).edits@.len() == 0 {
                head
            } else {
                old(self).base
            }),
    {
        let ghost start = self.edits@;
        if edits.len() == 0 {
            assert(start + edits@ =~= start);
            return;
        }
        if self.edits.len() == 0 {
            self.base = head;
        }
        let ghost base = self.base;
        let mut i: usize = 0;
        assert(self.edits@ =~= start + edits@.take(0));
        while i < edits.len()
            invariant
                i <= edits@.len(),
                self.base == base,
                self.project == old(self).project,
                self.edits@ == start + edits@.take(i as int),
            decreases edits@.len() - i,
        {
            self.edits.push(edits[i]);
            i = i + 1;
            assert(edits@.take(i as int) =~= edits@.take(i - 1).push(edits@[i - 1]));
            assert(self.edits@ =~= start + edits@.take(i as int));
        }
        assert(edits@.take(edits@.len() as int) =~= edits@);
    }

    /// Drops what is pending after a send failed.
    pub fn failed(&mut self)
        ensures
            final(self).edits@ == Seq::<LightEditInput>::empty(),
            final(self).base == old(self).base,
            final(self).project == old(self).project,
    {
        self.edits = Vec::new();
    }
}

// ---- restoring a version ----------------------------------------------------

proof fn lemma_edit_key(m: Map<(u32, u32), bool>, edits: Seq<LightEditInput>, e: LightEditInput, want: Option<bool>, q: (u32, u32))
    requires
        e.state == state_for(want),
    ensures
        key_at(overlaid(m, edits.push(e)), q) == (if q == (e.light, e.frame) {
            want
        } else {
            key_at(overlaid(m, edits), q)
        }),
{
    assert(edits.push(e).drop_last() =~= edits);
}

proof fn lemma_has_key_push(s: Seq<Keyframe>, i: int, q: (u32, u32))
    requires
        0 <= i < s.len(),
    ensures
        has_key(s.take(i + 1), q) <==> has_key(s.take(i), q) || key_of(s[i]) == q,
{
    let a = s.take(i);
    let b = s.take(i + 1);
    if has_key(b, q) {
        let k = choose|k: int| 0 <= k < b.len() && key_of(#[trigger] b[k]) == q;
        if k < i {
            assert(a[k] == b[k]);
        }
    }
    if has_key(a, q) {
        let k = choose|k: int| 0 <= k < a.len() && key_of(#[trigger] a[k]) == q;
        assert(b[k] == a[k]);
    }
    assert(b[i] == s[i]);
}

/// The edits that turn the newest version's keyframes into those of `cutoff`.
/// Appending them brings the live show back to that version.
pub fn restore_to(edits: &[Edit], head: u64, cutoff: u64) -> (r: Vec<LightEditInput>)
    ensures
        overlaid(folded(edits@, head), r@) == folded(edits@, cutoff),
        fewest(r@, folded(edits@, head), folded(edits@, cutoff)),
{
    let target: Keyframes = fold_keyframes(edits, cutoff);
    let current: Keyframes = fold_keyframes(edits, head);
    let ghost want = target@;
    let ghost have = current@;
    let cur: &Vec<Keyframe> = current.entries();
    let tgt: &Vec<Keyframe> = target.entries();
    let mut out: Vec<LightEditInput> = Vec::new();
    let mut i: usize = 0;
    while i < cur.len()
        invariant
            i <= cur@.len(),
            have == current@,
            want == target@,
            in_order(cur@),
            have == keyframe_map(cur@),
            fewest(out@, have, want),
            forall|j: int| 0 <= j < out@.len() ==> has_key(cur@.take(i as int), ((#[trigger] out@[j]).light, out@[j].frame)),
            forall|q: (u32, u32)|
                #[trigger] key_at(overlaid(have, out@), q) == (if has_key(cur@.take(i as int), q) {
                    key_at(want, q)
                } else {
                    key_at(have, q)
                }),
        decreases cur@.len() - i,
    {
        let k: Keyframe = cur[i];
        let w: Option<bool> = target.get(k.light, k.frame);
        let ghost before = out@;
        let same: bool = match w {
            Some(v) => v == k.on,
            None => false,
        };
        proof {
            lemma_keyframe_at(cur@, i as int);
            assert(!has_key(cur@.take(i as int), key_of(k))) by {
                if has_key(cur@.take(i as int), key_of(k)) {
                    let z = choose|z: int| 0 <= z < i && key_of(#[trigger] cur@.take(i as int)[z]) == key_of(k);
                    assert(key_before(key_of(cur@[z]), key_of(cur@[i as int])));
                }
            }
        }
        if !same {
            let state: u8 = match w {
                Some(true) => 1,
                Some(false) => 0,
                None => 2,
            };
            let e: LightEditInput = LightEditInput { light: k.light, frame: k.frame, state };
            out.push(e);
            proof {
                assert forall|q: (u32, u32)|
                    #[trigger] key_at(overlaid(have, out@), q) == (if has_key(cur@.take(i + 1), q) {
                        key_at(want, q)
                    } else {
                        key_at(have, q)
                    }) by {
                    lemma_edit_key(have, before, e, w, q);
                    lemma_has_key_push(cur@, i as int, q);
                    assert(key_at(overlaid(have, before), q) == (if has_key(cur@.take(i as int), q) {
                        key_at(want, q)
                    } else {
                        key_at(have, q)
                    }));
                }
            }
        } else {
            proof {
                assert forall|q: (u32, u32)|
                    #[trigger] key_at(overlaid(have, out@), q) == (if has_key(cur@.take(i + 1), q) {
                        key_at(want, q)
                    } else {
                        key_at(have, q)
                    }) by {
                    lemma_has_key_push(cur@, i as int, q);
                }
            }
        }
        proof {
            assert forall|j: int| 0 <= j < out@.len() implies has_key(cur@.take(i + 1), ((#[trigger] out@[j]).light, out@[j].frame)) by {
                lemma_has_key_push(cur@, i as int, (out@[j].light, out@[j].frame));
                if j < before.len() {
                    assert(out@[j] == before[j]);
                }
            }
        }
        i = i + 1;
    }
    assert(cur@.take(cur@.len() as int) =~= cur@);
    let mut i: usize = 0;
    proof {
        assert forall|q: (u32, u32)|
            #[trigger] key_at(overlaid(have, out@), q) == (if has_key(cur@, q) || has_key(tgt@.take(0), q) {
                key_at(want, q)
            } else {
                key_at(have, q)
            }) by {}
    }
    while i < tgt.len()
        invariant
            i <= tgt@.len(),
            have == current@,
            want == target@,
            in_order(tgt@),
            want == keyframe_map(tgt@),
            have == keyframe_map(cur@),
            fewest(out@, have, want),
            forall|j: int|
                0 <= j < out@.len() ==> has_key(cur@, ((#[trigger] out@[j]).light, out@[j].frame)) || has_key(
                    tgt@.take(i as int),
                    (out@[j].light, out@[j].frame),
                ),
            forall|q: (u32, u32)|
                #[trigger] key_at(overlaid(have, out@), q) == (if has_key(cur@, q) || has_key(tgt@.take(i as int), q) {
                    key_at(want, q)
                } else {
                    key_at(have, q)
                }),
        decreases tgt@.len() - i,
    {
        let k: Keyframe = tgt[i];
        let h: Option<bool> = current.get(k.light, k.frame);
        let ghost before = out@;
        proof {
            lemma_keyframe_at(tgt@, i as int);
            assert(!has_key(tgt@.take(i as int), key_of(k))) by {
                if has_key(tgt@.take(i as int), key_of(k)) {
                    let z = choose|z: int| 0 <= z < i && key_of(#[trigger] tgt@.take(i as int)[z]) == key_of(k);
                    assert(key_before(key_of(tgt@[z]), key_of(tgt@[i as int])));
                }
            }
        }
        match h {
            None => {
                let state: u8 = if k.on { 1 } else { 0 };
                let e: LightEditInput = LightEditInput { light: k.light, frame: k.frame, state };
                out.push(e);
                proof {
                    assert forall|q: (u32, u32)|
                        #[trigger] key_at(overlaid(have, out@), q) == (if has_key(cur@, q) || has_key(tgt@.take(i + 1), q) {
                            key_at(want, q)
                        } else {
                            key_at(have, q)
                        }) by {
                        lemma_edit_key(have, before, e, Some(k.on), q);
                        lemma_has_key_push(tgt@, i as int, q);
                        assert(key_at(overlaid(have, before), q) == (if has_key(cur@, q) || has_key(tgt@.take(i as int), q) {
                            key_at(want, q)
                        } else {
                            key_at(have, q)
                        }));
                    }
                }
            },
            Some(_) => {
                proof {
                    assert forall|q: (u32, u32)|
                        #[trigger] key_at(overlaid(have, out@), q) == (if has_key(cur@, q) || has_key(tgt@.take(i + 1), q) {
                            key_at(want, q)
                        } else {
                            key_at(have, q)
                        }) by {
                        lemma_has_key_push(tgt@, i as int, q);
                    }
                }
            },
        }
        proof {
            assert forall|j: int|
                0 <= j < out@.len() implies has_key(cur@, ((#[trigger] out@[j]).light, out@[j].frame)) || has_key(
                tgt@.take(i + 1),
                (out@[j].light, out@[j].frame),
            ) by {
                lemma_has_key_push(tgt@, i as int, (out@[j].light, out@[j].frame));
                if j < before.len() {
                    assert(out@[j] == before[j]);
                }
            }
        }
        i = i + 1;
    }
    proof {
        assert(tgt@.take(tgt@.len() as int) =~= tgt@);
        let o = overlaid(have, out@);
        assert forall|q: (u32, u32)| #[trigger] o.contains_key(q) <==> want.contains_key(q) by {
            assert(key_at(o, q) == key_at(want, q));
        }
        assert forall|q: (u32, u32)| #[trigger] o.contains_key(q) implies o[q] == want[q] by {
            assert(key_at(o, q) == key_at(want, q));
        }
        assert(o =~= want);
    }
    out
}

} // verus!
