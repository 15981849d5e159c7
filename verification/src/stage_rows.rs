//! Fixture rows of any kind: picking a project's, replacing one, and finding the
//! one in force.
use crate::logic::{answer, governing};
use crate::rows::{LaserKeyframe, LaserKeyframeView, ProjectorKeyframe, TurretKeyframe};
use crate::store::{lemma_rows_of_push, lemma_views_push, row_views, rows_of, Row};
use vstd::prelude::*;

verus! {

broadcast use vstd::seq::group_seq_axioms;

/// A keyframe of a fixture: it has a channel and a frame.
pub trait StageRow: Row {
    spec fn row_channel(v: Self::V) -> u8;

    spec fn row_frame(v: Self::V) -> u32;

    fn channel_no(&self) -> (r: u8)
        ensures
            r == Self::row_channel(self@),
    ;

    fn frame_no(&self) -> (r: u32)
        ensures
            r == Self::row_frame(self@),
    ;

    fn copy(&self) -> (r: Self)
        ensures
            r@ == self@,
    ;
}

impl StageRow for LaserKeyframe {
    open spec fn row_channel(v: LaserKeyframeView) -> u8 {
        v.channel
    }

    open spec fn row_frame(v: LaserKeyframeView) -> u32 {
        v.frame
    }

    fn channel_no(&self) -> (r: u8) {
        self.channel
    }

    fn frame_no(&self) -> (r: u32) {
        self.frame
    }

    fn copy(&self) -> (r: Self) {
        self.clone()
    }
}

impl StageRow for ProjectorKeyframe {
    open spec fn row_channel(v: ProjectorKeyframe) -> u8 {
        v.channel
    }

    open spec fn row_frame(v: ProjectorKeyframe) -> u32 {
        v.frame
    }

    fn channel_no(&self) -> (r: u8) {
        self.channel
    }

    fn frame_no(&self) -> (r: u32) {
        self.frame
    }

    fn copy(&self) -> (r: Self) {
        *self
    }
}

impl StageRow for TurretKeyframe {
    open spec fn row_channel(v: TurretKeyframe) -> u8 {
        v.channel
    }

    open spec fn row_frame(v: TurretKeyframe) -> u32 {
        v.frame
    }

    fn channel_no(&self) -> (r: u8) {
        self.channel
    }

    fn frame_no(&self) -> (r: u32) {
        self.frame
    }

    fn copy(&self) -> (r: Self) {
        *self
    }
}

/// The rows of a project, in table order.
pub fn own_rows<T: StageRow>(rows: &Vec<T>, project: u64) -> (r: Vec<T>)
    ensures
        row_views(r@) == rows_of::<T>(row_views(rows@), project),
{
    let ghost all = row_views(rows@);
    let mut out: Vec<T> = Vec::new();
    let mut i: usize = 0;
    proof {
        reveal(Seq::filter);
        assert(row_views(out@) =~= rows_of::<T>(all.take(0), project));
    }
    while i < rows.len()
        invariant
            i <= rows@.len(),
            all == row_views(rows@),
            row_views(out@) == rows_of::<T>(all.take(i as int), project),
        decreases rows@.len() - i,
    {
        proof {
            assert(all.take(i + 1) =~= all.take(i as int).push(all[i as int]));
            lemma_rows_of_push::<T>(all.take(i as int), all[i as int], project);
        }
        if rows[i].parent() == project {
            let ghost before = out@;
            out.push(rows[i].copy());
            proof {
                lemma_views_push(before, out@.last());
            }
        }
        i = i + 1;
    }
    assert(all.take(all.len() as int) =~= all);
    out
}

/// Two keyframes stand at the same place.
pub open spec fn same_place<T: StageRow>(a: T::V, b: T::V) -> bool {
    T::row_channel(a) == T::row_channel(b) && T::row_frame(a) == T::row_frame(b)
}

/// The rows with `p` in place of those at its place.
pub open spec fn with_row<T: StageRow>(s: Seq<T::V>, p: T::V) -> Seq<T::V> {
    s.filter(|v: T::V| !same_place::<T>(v, p)).push(p)
}

/// The rows with `p` in place of those at its place.
pub fn replace_row<T: StageRow>(rows: &Vec<T>, p: &T) -> (r: Vec<T>)
    ensures
        row_views(r@) == with_row::<T>(row_views(rows@), p@),
{
    let ghost all = row_views(rows@);
    let ghost keep = |v: T::V| !same_place::<T>(v, p@);
    let mut out: Vec<T> = Vec::new();
    let mut i: usize = 0;
    proof {
        reveal(Seq::filter);
        assert(row_views(out@) =~= all.take(0).filter(keep));
    }
    while i < rows.len()
        invariant
            i <= rows@.len(),
            all == row_views(rows@),
            keep == (|v: T::V| !same_place::<T>(v, p@)),
            row_views(out@) == all.take(i as int).filter(keep),
        decreases rows@.len() - i,
    {
        proof {
            reveal(Seq::filter);
            assert(all.take(i + 1).drop_last() =~= all.take(i as int));
            assert(all.take(i + 1).last() == rows@[i as int]@);
        }
        let same: bool = rows[i].channel_no() == p.channel_no() && rows[i].frame_no() == p.frame_no();
        if !same {
            let ghost before = out@;
            out.push(rows[i].copy());
            proof {
                lemma_views_push(before, out@.last());
            }
        }
        i = i + 1;
    }
    assert(all.take(all.len() as int) =~= all);
    let ghost before = out@;
    out.push(p.copy());
    proof {
        lemma_views_push(before, out@.last());
    }
    out
}

/// The keyframe of a channel in force at a frame: the latest not after it, and of
/// several at one frame the first.
pub open spec fn in_force<T: StageRow>(s: Seq<T::V>, channel: int, frame: u32) -> Option<int>
    decreases s.len(),
{
    if s.len() == 0 {
        None
    } else {
        let best = in_force::<T>(s.drop_last(), channel, frame);
        let v = s.last();
        if T::row_channel(v) == channel && T::row_frame(v) <= frame && (best is None || T::row_frame(s[best->0]) < T::row_frame(v)) {
            Some(s.len() - 1)
        } else {
            best
        }
    }
}

pub proof fn lemma_in_force<T: StageRow, C: Fn(&T) -> u8, F: Fn(&T) -> u32>(rows: Seq<T>, channel_of: C, frame_of: F, c: int, frame: u32)
    requires
        forall|i: int| 0 <= i < rows.len() ==> answer(channel_of, #[trigger] rows[i]) == T::row_channel(rows[i]@),
        forall|i: int| 0 <= i < rows.len() ==> answer(frame_of, #[trigger] rows[i]) == T::row_frame(rows[i]@),
    ensures
        governing(rows, channel_of, frame_of, c, frame) == in_force::<T>(row_views(rows), c, frame),
        in_force::<T>(row_views(rows), c, frame) matches Some(i) ==> 0 <= i < rows.len(),
    decreases rows.len(),
{
    if rows.len() > 0 {
        let rest = rows.drop_last();
        let all = row_views(rows);
        assert(all.drop_last() =~= row_views(rest));
        assert(all.last() == rows.last()@);
        assert forall|i: int| 0 <= i < rest.len() implies answer(channel_of, #[trigger] rest[i]) == T::row_channel(rest[i]@)
            && answer(frame_of, rest[i]) == T::row_frame(rest[i]@) by {
            assert(rest[i] == rows[i]);
        }
        lemma_in_force(rest, channel_of, frame_of, c, frame);
        assert(rows.last() == rows[rows.len() - 1]);
        if let Some(b) = in_force::<T>(row_views(rest), c, frame) {
            assert(all[b] == rows[b]@);
            assert(answer(frame_of, rows[b]) == T::row_frame(rows[b]@));
        }
    }
}

} // verus!
