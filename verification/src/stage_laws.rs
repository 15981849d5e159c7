//! What the fixtures' rows, their editor and the stage show.
use crate::fixtures::{
    drafted_laser, drafted_projector, drafted_turret, echoed, laser_mark, laser_marks, loaded_editor, mark_keys, narrowed, pending_mark,
    projector_mark, projector_marks, same_projector, same_turret, spliced, turret_mark, turret_marks, unechoed, without_mark, Mark, PendingFixture,
};
use crate::lists::{lemma_filtered, lemma_joined, lemma_pushed};
use crate::package_laws::lemma_decimal_digits;
use crate::pattern_laws::law_projector_name;
use crate::patterns::{spread, Pattern};
use crate::projector_patterns::ProjectorPattern;
use crate::regions::in_effect;
use crate::logic::{folded, grid_view, held_at, held_grid, overlaid};
use crate::rows::{Edit, LaserKeyframe, LaserKeyframeView, LightEditInput, Project, ProjectorKeyframe, TurretKeyframe};
use crate::scene::{
    caption, emitter_in, family_name, holds_state, laser_cast, lasers_now, names_light, node_number, projector_cast, projectors_now, shows, three_digits, turrets_now, Beam,
    EmitterFamily, HeldGrid,
};
use crate::stage_rows::{in_force, same_place, with_row, StageRow};
use crate::state::FixtureKind;
use crate::text::{all_digits, begins, decimal, digit_value, digits_value, is_space, law_decimal_reads_back, trim_left, trimmed};
use vstd::prelude::*;

verus! {

broadcast use vstd::seq::group_seq_axioms;

// ---- the rows of the timeline -----------------------------------------------

/// The timeline marks every laser keyframe of the project, at its channel and frame, on
/// where the laser is enabled and draws something, and marks nothing else.
pub proof fn law_laser_marks(rows: Seq<LaserKeyframe>, project: u64, m: Mark)
    ensures
        laser_marks(rows, project).contains(m) <==> exists|i: int|
            0 <= i < rows.len() && (#[trigger] rows[i]).project_id == project && rows[i].channel == m.channel && rows[i].frame == m.frame && (
            m.on <==> rows[i].enable && rows[i].points@.len() > 0),
    decreases rows.len(),
{
    if rows.len() > 0 {
        let p = rows.drop_last();
        let z = rows.len() - 1;
        law_laser_marks(p, project, m);
        assert forall|i: int| 0 <= i < z implies #[trigger] p[i] == rows[i] by {}
        let r = rows.last();
        assert(rows[z] == r);
        if r.project_id == project {
            lemma_pushed(laser_marks(p, project), laser_mark(r), m);
        }
        if exists|i: int|
            0 <= i < p.len() && (#[trigger] p[i]).project_id == project && p[i].channel == m.channel && p[i].frame == m.frame && (m.on
                <==> p[i].enable && p[i].points@.len() > 0) {
            let i = choose|i: int|
                0 <= i < p.len() && (#[trigger] p[i]).project_id == project && p[i].channel == m.channel && p[i].frame == m.frame && (m.on
                    <==> p[i].enable && p[i].points@.len() > 0);
            assert(rows[i].project_id == project);
        }
        if exists|i: int|
            0 <= i < rows.len() && (#[trigger] rows[i]).project_id == project && rows[i].channel == m.channel && rows[i].frame == m.frame && (
            m.on <==> rows[i].enable && rows[i].points@.len() > 0) {
            let i = choose|i: int|
                0 <= i < rows.len() && (#[trigger] rows[i]).project_id == project && rows[i].channel == m.channel && rows[i].frame == m.frame
                    && (m.on <==> rows[i].enable && rows[i].points@.len() > 0);
            if i < z {
                assert(p[i] == rows[i]);
            }
        }
    }
}

/// The timeline marks every turret keyframe of the project, on where its state is not
/// zero, and marks nothing else.
pub proof fn law_turret_marks(rows: Seq<TurretKeyframe>, project: u64, m: Mark)
    ensures
        turret_marks(rows, project).contains(m) <==> exists|i: int|
            0 <= i < rows.len() && (#[trigger] rows[i]).project_id == project && rows[i].channel == m.channel && rows[i].frame == m.frame && (
            m.on <==> rows[i].state != 0),
    decreases rows.len(),
{
    if rows.len() > 0 {
        let p = rows.drop_last();
        let z = rows.len() - 1;
        law_turret_marks(p, project, m);
        assert forall|i: int| 0 <= i < z implies #[trigger] p[i] == rows[i] by {}
        let r = rows.last();
        assert(rows[z] == r);
        if r.project_id == project {
            lemma_pushed(turret_marks(p, project), turret_mark(r), m);
        }
        if exists|i: int|
            0 <= i < p.len() && (#[trigger] p[i]).project_id == project && p[i].channel == m.channel && p[i].frame == m.frame && (m.on
                <==> p[i].state != 0) {
            let i = choose|i: int|
                0 <= i < p.len() && (#[trigger] p[i]).project_id == project && p[i].channel == m.channel && p[i].frame == m.frame && (m.on
                    <==> p[i].state != 0);
            assert(rows[i].project_id == project);
        }
        if exists|i: int|
            0 <= i < rows.len() && (#[trigger] rows[i]).project_id == project && rows[i].channel == m.channel && rows[i].frame == m.frame && (
            m.on <==> rows[i].state != 0) {
            let i = choose|i: int|
                0 <= i < rows.len() && (#[trigger] rows[i]).project_id == project && rows[i].channel == m.channel && rows[i].frame == m.frame
                    && (m.on <==> rows[i].state != 0);
            if i < z {
                assert(p[i] == rows[i]);
            }
        }
    }
}

/// The timeline marks every projector keyframe of the project, on where its state is not
/// zero, and marks nothing else.
pub proof fn law_projector_marks(rows: Seq<ProjectorKeyframe>, project: u64, m: Mark)
    ensures
        projector_marks(rows, project).contains(m) <==> exists|i: int|
            0 <= i < rows.len() && (#[trigger] rows[i]).project_id == project && rows[i].channel == m.channel && rows[i].frame == m.frame && (
            m.on <==> rows[i].state != 0),
    decreases rows.len(),
{
    if rows.len() > 0 {
        let p = rows.drop_last();
        let z = rows.len() - 1;
        law_projector_marks(p, project, m);
        assert forall|i: int| 0 <= i < z implies #[trigger] p[i] == rows[i] by {}
        let r = rows.last();
        assert(rows[z] == r);
        if r.project_id == project {
            lemma_pushed(projector_marks(p, project), projector_mark(r), m);
        }
        if exists|i: int|
            0 <= i < p.len() && (#[trigger] p[i]).project_id == project && p[i].channel == m.channel && p[i].frame == m.frame && (m.on
                <==> p[i].state != 0) {
            let i = choose|i: int|
                0 <= i < p.len() && (#[trigger] p[i]).project_id == project && p[i].channel == m.channel && p[i].frame == m.frame && (m.on
                    <==> p[i].state != 0);
            assert(rows[i].project_id == project);
        }
        if exists|i: int|
            0 <= i < rows.len() && (#[trigger] rows[i]).project_id == project && rows[i].channel == m.channel && rows[i].frame == m.frame && (
            m.on <==> rows[i].state != 0) {
            let i = choose|i: int|
                0 <= i < rows.len() && (#[trigger] rows[i]).project_id == project && rows[i].channel == m.channel && rows[i].frame == m.frame
                    && (m.on <==> rows[i].state != 0);
            if i < z {
                assert(p[i] == rows[i]);
            }
        }
    }
}

/// The pending edit is one of this kind at this channel and frame of the project.
pub open spec fn pends_at(p: PendingFixture, project: u64, kind: FixtureKind, channel: u8, frame: u32) -> bool {
    match p {
        PendingFixture::Laser(r) => kind == FixtureKind::Laser && r.project_id == project && r.channel == channel && r.frame == frame,
        PendingFixture::Turret(r) => kind == FixtureKind::Turret && r.project_id == project && r.channel == channel && r.frame == frame,
        PendingFixture::Projector(r) => kind == FixtureKind::Projector && r.project_id == project && r.channel == channel && r.frame
            == frame,
    }
}

/// The fixture that a pending edit sets is on.
pub open spec fn pends_on(p: PendingFixture) -> bool {
    match p {
        PendingFixture::Laser(r) => r.enable && r.points@.len() > 0,
        PendingFixture::Turret(r) => r.state != 0,
        PendingFixture::Projector(r) => r.state != 0,
    }
}

proof fn lemma_without_mark(marks: Seq<Mark>, m: Mark, x: Mark)
    ensures
        without_mark(marks, m).contains(x) <==> marks.contains(x) && (x.channel != m.channel || x.frame != m.frame),
    decreases marks.len(),
{
    if marks.len() > 0 {
        let p = marks.drop_last();
        lemma_without_mark(p, m, x);
        assert(marks =~= p.push(marks.last()));
        lemma_pushed(p, marks.last(), x);
        lemma_pushed(without_mark(p, m), marks.last(), x);
    }
}

/// An edit on its way shows at once: the last pending edit of a channel and frame is
/// marked in place of the keyframe there, and where none is pending the keyframes are
/// marked as they are.
pub proof fn law_pending_is_marked(marks: Seq<Mark>, pending: Seq<PendingFixture>, project: u64, kind: FixtureKind, x: Mark)
    ensures
        spliced(marks, pending, project, kind).contains(x) <==> {
            ||| marks.contains(x) && forall|k: int|
                0 <= k < pending.len() ==> !pends_at(#[trigger] pending[k], project, kind, x.channel, x.frame)
            ||| exists|k: int|
                {
                    &&& 0 <= k < pending.len() && pends_at(#[trigger] pending[k], project, kind, x.channel, x.frame)
                    &&& x.on <==> pends_on(pending[k])
                    &&& forall|j: int| k < j < pending.len() ==> !pends_at(#[trigger] pending[j], project, kind, x.channel, x.frame)
                }
        },
    decreases pending.len(),
{
    if pending.len() > 0 {
        let p = pending.drop_last();
        let z = pending.len() - 1;
        let last = pending[z];
        law_pending_is_marked(marks, p, project, kind, x);
        assert forall|k: int| 0 <= k < z implies #[trigger] p[k] == pending[k] by {}
        let rest = spliced(marks, p, project, kind);
        let at = pends_at(last, project, kind, x.channel, x.frame);
        match pending_mark(last, project, kind) {
            Some(m) => {
                lemma_without_mark(rest, m, x);
                lemma_pushed(without_mark(rest, m), m, x);
                assert(at <==> m.channel == x.channel && m.frame == x.frame);
                assert(m.on <==> pends_on(last));
            },
            None => {
                assert(!at);
            },
        }
        if !at {
            if marks.contains(x) && (forall|k: int| 0 <= k < p.len() ==> !pends_at(#[trigger] p[k], project, kind, x.channel, x.frame)) {
                assert forall|k: int| 0 <= k < pending.len() implies !pends_at(#[trigger] pending[k], project, kind, x.channel, x.frame) by {
                    if k < z {
                        assert(p[k] == pending[k]);
                    }
                }
            }
            if exists|k: int|
                {
                    &&& 0 <= k < p.len() && pends_at(#[trigger] p[k], project, kind, x.channel, x.frame)
                    &&& x.on <==> pends_on(p[k])
                    &&& forall|j: int| k < j < p.len() ==> !pends_at(#[trigger] p[j], project, kind, x.channel, x.frame)
                } {
                let k = choose|k: int|
                    {
                        &&& 0 <= k < p.len() && pends_at(#[trigger] p[k], project, kind, x.channel, x.frame)
                        &&& x.on <==> pends_on(p[k])
                        &&& forall|j: int| k < j < p.len() ==> !pends_at(#[trigger] p[j], project, kind, x.channel, x.frame)
                    };
                assert(pending[k] == p[k]);
                assert forall|j: int| k < j < pending.len() implies !pends_at(#[trigger] pending[j], project, kind, x.channel, x.frame) by {
                    if j < z {
                        assert(p[j] == pending[j]);
                    }
                }
            }
            if exists|k: int|
                {
                    &&& 0 <= k < pending.len() && pends_at(#[trigger] pending[k], project, kind, x.channel, x.frame)
                    &&& x.on <==> pends_on(pending[k])
                    &&& forall|j: int| k < j < pending.len() ==> !pends_at(#[trigger] pending[j], project, kind, x.channel, x.frame)
                } {
                let k = choose|k: int|
                    {
                        &&& 0 <= k < pending.len() && pends_at(#[trigger] pending[k], project, kind, x.channel, x.frame)
                        &&& x.on <==> pends_on(pending[k])
                        &&& forall|j: int| k < j < pending.len() ==> !pends_at(#[trigger] pending[j], project, kind, x.channel, x.frame)
                    };
                assert(p[k] == pending[k]);
                assert forall|j: int| k < j < p.len() implies !pends_at(#[trigger] p[j], project, kind, x.channel, x.frame) by {
                    assert(p[j] == pending[j]);
                }
            }
        }
    }
}

/// The keyframes of a row are the marks of its channel.
pub proof fn law_mark_keys(marks: Seq<Mark>, channel: u8, frame: u32, on: bool)
    ensures
        mark_keys(marks, channel as int).contains((frame, on)) <==> marks.contains(Mark { channel, frame, on }),
    decreases marks.len(),
{
    if marks.len() > 0 {
        let p = marks.drop_last();
        let m = marks.last();
        law_mark_keys(p, channel, frame, on);
        assert(marks =~= p.push(m));
        lemma_pushed(p, m, Mark { channel, frame, on });
        lemma_pushed(mark_keys(p, channel as int), (m.frame, m.on), (frame, on));
    }
}

/// A pending edit stays pending exactly until its row comes back.
pub proof fn law_unechoed(
    pending: Seq<PendingFixture>,
    project: u64,
    lasers: Seq<LaserKeyframe>,
    turrets: Seq<TurretKeyframe>,
    projectors: Seq<ProjectorKeyframe>,
    x: PendingFixture,
)
    ensures
        unechoed(pending, project, lasers, turrets, projectors).contains(x) <==> pending.contains(x) && !echoed(
            x,
            project,
            lasers,
            turrets,
            projectors,
        ),
        unechoed(pending, project, lasers, turrets, projectors).len() <= pending.len(),
    decreases pending.len(),
{
    if pending.len() > 0 {
        let rest = pending.drop_first();
        law_unechoed(rest, project, lasers, turrets, projectors, x);
        assert(pending =~= seq![pending[0]] + rest);
        lemma_joined(seq![pending[0]], rest, x);
        lemma_joined(seq![pending[0]], unechoed(rest, project, lasers, turrets, projectors), x);
        assert(seq![pending[0]].contains(x) <==> x == pending[0]) by {
            assert(seq![pending[0]][0] == pending[0]);
        }
    }
}

/// A turret or projector edit has come back once its own row is in the project's table.
pub proof fn law_echo(
    turrets: Seq<TurretKeyframe>,
    projectors: Seq<ProjectorKeyframe>,
    lasers: Seq<LaserKeyframe>,
    t: TurretKeyframe,
    p: ProjectorKeyframe,
    project: u64,
    i: int,
)
    ensures
        0 <= i < turrets.len() && turrets[i] == t && t.project_id == project ==> echoed(
            PendingFixture::Turret(t),
            project,
            lasers,
            turrets,
            projectors,
        ),
        0 <= i < projectors.len() && projectors[i] == p && p.project_id == project ==> echoed(
            PendingFixture::Projector(p),
            project,
            lasers,
            turrets,
            projectors,
        ),
        (forall|j: int| 0 <= j < turrets.len() ==> (#[trigger] turrets[j]).pan != t.pan || turrets[j].tilt != t.tilt || turrets[j].state != t.state
            || turrets[j].frame != t.frame || turrets[j].channel != t.channel || turrets[j].project_id != project) ==> !echoed(
            PendingFixture::Turret(t),
            project,
            lasers,
            turrets,
            projectors,
        ),
        (forall|j: int|
            0 <= j < projectors.len() ==> (#[trigger] projectors[j]).gallery != p.gallery || projectors[j].pattern != p.pattern
                || projectors[j].colour != p.colour || projectors[j].state != p.state || projectors[j].frame != p.frame
                || projectors[j].channel != p.channel || projectors[j].project_id != project) ==> !echoed(
            PendingFixture::Projector(p),
            project,
            lasers,
            turrets,
            projectors,
        ),
{
    if 0 <= i < turrets.len() && turrets[i] == t && t.project_id == project {
        assert(same_turret(turrets[i], t, project));
    }
    if 0 <= i < projectors.len() && projectors[i] == p && p.project_id == project {
        assert(same_projector(projectors[i], p, project));
    }
}

// ---- the editor -------------------------------------------------------------

/// To open the editor on a cell and save it unchanged keeps the show: the keyframe that it
/// makes there aims, draws and is lit as the one in effect.
pub proof fn law_editor_keeps(
    lasers: Seq<LaserKeyframe>,
    turrets: Seq<TurretKeyframe>,
    projectors: Seq<ProjectorKeyframe>,
    project: u64,
    channel: u8,
    frame: u32,
    lib: Seq<Pattern>,
)
    ensures
        ({
            let t = drafted_turret(loaded_editor(lasers, turrets, projectors, project, FixtureKind::Turret, channel, frame), project);
            &&& t.project_id == project && t.channel == channel && t.frame == frame
            &&& in_effect(turrets, project, channel, frame) matches Some(i) ==> (t.state != 0 <==> turrets[i].state != 0) && t.pan
                == turrets[i].pan && t.tilt == turrets[i].tilt
            &&& in_effect(turrets, project, channel, frame) is None ==> t.state != 0 && t.pan == 128 && t.tilt == 128
        }),
        ({
            let p = drafted_projector(
                loaded_editor(lasers, turrets, projectors, project, FixtureKind::Projector, channel, frame),
                project,
            );
            &&& p.project_id == project && p.channel == channel && p.frame == frame
            &&& in_effect(projectors, project, channel, frame) matches Some(i) ==> (p.state != 0 <==> projectors[i].state != 0) && p.gallery
                == projectors[i].gallery && p.pattern == projectors[i].pattern && p.colour == projectors[i].colour
        }),
        ({
            let l = drafted_laser(loaded_editor(lasers, turrets, projectors, project, FixtureKind::Laser, channel, frame), project, lib);
            &&& l.project_id == project && l.channel == channel && l.frame == frame
            &&& in_effect(lasers, project, channel, frame) matches Some(i) ==> {
                &&& l.enable == lasers[i].enable && l.pattern == lasers[i].pattern
                &&& lasers[i].cr <= 7 ==> l.cr == lasers[i].cr
                &&& lasers[i].cg <= 7 ==> l.cg == lasers[i].cg
                &&& lasers[i].cb <= 7 ==> l.cb == lasers[i].cb
            }
            &&& l.pattern < lib.len() ==> l.points.len() == lib[l.pattern as int].points@.len() && forall|k: int|
                0 <= k < l.points.len() ==> {
                    let q = #[trigger] l.points[k];
                    q.x == lib[l.pattern as int].points@[k].x && q.y == lib[l.pattern as int].points@[k].y && q.r == l.cr && q.g == l.cg && q.b
                        == l.cb
                }
            &&& l.pattern >= lib.len() ==> l.points.len() == 0
        }),
{
}

/// Three bits of colour are spread evenly, and a colour is brought to the nearest of
/// them: no other comes closer.
pub proof fn law_colours(c: u8, k: u8)
    requires
        k <= 7,
    ensures
        0 <= narrowed(c) <= 7,
        255 * narrowed(c) - 7 * c <= 255 * k - 7 * c || 255 * narrowed(c) - 7 * c <= 7 * c - 255 * k,
        7 * c - 255 * narrowed(c) <= 255 * k - 7 * c || 7 * c - 255 * narrowed(c) <= 7 * c - 255 * k,
        -7 <= 2 * (7 * spread(k) - 255 * k) <= 7,
        spread(0) == 0,
        spread(7) == 255,
{
}

// ---- the stage --------------------------------------------------------------

/// The keyframe in force in a channel is the latest of it that is not after the frame,
/// and of several at one frame the first.
pub proof fn law_in_force<T: StageRow>(s: Seq<T::V>, channel: int, frame: u32)
    ensures
        match in_force::<T>(s, channel, frame) {
            Some(i) => {
                &&& 0 <= i < s.len()
                &&& T::row_channel(s[i]) == channel
                &&& T::row_frame(s[i]) <= frame
                &&& forall|j: int|
                    0 <= j < s.len() && T::row_channel(#[trigger] s[j]) == channel && T::row_frame(s[j]) <= frame ==> T::row_frame(s[j])
                        < T::row_frame(s[i]) || T::row_frame(s[j]) == T::row_frame(s[i]) && i <= j
            },
            None => forall|j: int| 0 <= j < s.len() && T::row_channel(#[trigger] s[j]) == channel ==> T::row_frame(s[j]) > frame,
        },
    decreases s.len(),
{
    if s.len() > 0 {
        let p = s.drop_last();
        let z = s.len() - 1;
        law_in_force::<T>(p, channel, frame);
        if let Some(b) = in_force::<T>(p, channel, frame) {
            assert(p[b] == s[b]);
        }
        match in_force::<T>(s, channel, frame) {
            Some(i) => {
                assert forall|j: int|
                    0 <= j < s.len() && T::row_channel(#[trigger] s[j]) == channel && T::row_frame(s[j]) <= frame implies T::row_frame(s[j])
                    < T::row_frame(s[i]) || T::row_frame(s[j]) == T::row_frame(s[i]) && i <= j by {
                    if j < z {
                        assert(p[j] == s[j]);
                    }
                }
            },
            None => {
                assert forall|j: int| 0 <= j < s.len() && T::row_channel(#[trigger] s[j]) == channel implies T::row_frame(s[j]) > frame by {
                    if j < z {
                        assert(p[j] == s[j]);
                    }
                }
            },
        }
    }
}

proof fn lemma_with_row<T: StageRow>(s: Seq<T::V>, p: T::V, x: T::V)
    ensures
        with_row::<T>(s, p).contains(x) <==> x == p || s.contains(x) && (T::row_channel(x) != T::row_channel(p) || T::row_frame(x)
            != T::row_frame(p)),
{
    let keep = |v: T::V| !same_place::<T>(v, p);
    let kept = s.filter(keep);
    lemma_pushed(kept, p, x);
    lemma_filtered(s, keep, x);
}

/// On the stage an edit on its way takes effect at once: of the turret keyframes at one
/// channel and frame the last pending one counts, and where none is pending those of the
/// project.
pub proof fn law_turrets_now(rows: Seq<TurretKeyframe>, pending: Seq<PendingFixture>, project: u64, x: TurretKeyframe)
    ensures
        turrets_now(rows, pending, project).contains(x) <==> {
            ||| rows.contains(x) && forall|k: int|
                0 <= k < pending.len() ==> !pends_at(#[trigger] pending[k], project, FixtureKind::Turret, x.channel, x.frame)
            ||| exists|k: int|
                {
                    &&& 0 <= k < pending.len() && #[trigger] pending[k] == PendingFixture::Turret(x) && x.project_id == project
                    &&& forall|j: int|
                        k < j < pending.len() ==> !pends_at(#[trigger] pending[j], project, FixtureKind::Turret, x.channel, x.frame)
                }
        },
    decreases pending.len(),
{
    if pending.len() > 0 {
        let p = pending.drop_last();
        let z = pending.len() - 1;
        law_turrets_now(rows, p, project, x);
        assert forall|k: int| 0 <= k < z implies #[trigger] p[k] == pending[k] by {}
        if let PendingFixture::Turret(r) = pending[z] {
            lemma_with_row::<TurretKeyframe>(turrets_now(rows, p, project), r, x);
        }
        lemma_pending_steps(pending, project, FixtureKind::Turret, x.channel, x.frame, PendingFixture::Turret(x));
    }
}

/// As [`law_turrets_now`], for projector keyframes.
pub proof fn law_projectors_now(rows: Seq<ProjectorKeyframe>, pending: Seq<PendingFixture>, project: u64, x: ProjectorKeyframe)
    ensures
        projectors_now(rows, pending, project).contains(x) <==> {
            ||| rows.contains(x) && forall|k: int|
                0 <= k < pending.len() ==> !pends_at(#[trigger] pending[k], project, FixtureKind::Projector, x.channel, x.frame)
            ||| exists|k: int|
                {
                    &&& 0 <= k < pending.len() && #[trigger] pending[k] == PendingFixture::Projector(x) && x.project_id == project
                    &&& forall|j: int|
                        k < j < pending.len() ==> !pends_at(#[trigger] pending[j], project, FixtureKind::Projector, x.channel, x.frame)
                }
        },
    decreases pending.len(),
{
    if pending.len() > 0 {
        let p = pending.drop_last();
        let z = pending.len() - 1;
        law_projectors_now(rows, p, project, x);
        assert forall|k: int| 0 <= k < z implies #[trigger] p[k] == pending[k] by {}
        if let PendingFixture::Projector(r) = pending[z] {
            lemma_with_row::<ProjectorKeyframe>(projectors_now(rows, p, project), r, x);
        }
        lemma_pending_steps(pending, project, FixtureKind::Projector, x.channel, x.frame, PendingFixture::Projector(x));
    }
}

/// One more pending edit: what the quantifiers over the pending edits come to.
proof fn lemma_pending_steps(pending: Seq<PendingFixture>, project: u64, kind: FixtureKind, channel: u8, frame: u32, y: PendingFixture)
    requires
        pending.len() > 0,
    ensures
        ({
            let p = pending.drop_last();
            let at = pends_at(pending.last(), project, kind, channel, frame);
            &&& none_at(pending, 0, project, kind, channel, frame) <==> none_at(p, 0, project, kind, channel, frame) && !at
            &&& last_at(pending, project, kind, channel, frame, y) <==> (if at {
                pending.last() == y
            } else {
                pending.last() == y || last_at(p, project, kind, channel, frame, y)
            })
        }),
{
    let p = pending.drop_last();
    let z = pending.len() - 1;
    let at = pends_at(pending.last(), project, kind, channel, frame);
    assert forall|k: int| 0 <= k < z implies #[trigger] p[k] == pending[k] by {}
    if none_at(p, 0, project, kind, channel, frame) && !at {
        assert forall|j: int| 0 <= j < pending.len() implies !pends_at(#[trigger] pending[j], project, kind, channel, frame) by {
            if j < z {
                assert(p[j] == pending[j]);
            }
        }
    }
    if none_at(pending, 0, project, kind, channel, frame) {
        assert forall|j: int| 0 <= j < p.len() implies !pends_at(#[trigger] p[j], project, kind, channel, frame) by {
            assert(p[j] == pending[j]);
        }
        assert(!pends_at(pending[z], project, kind, channel, frame));
    }
    if last_at(pending, project, kind, channel, frame, y) {
        let k = choose|k: int| 0 <= k < pending.len() && #[trigger] pending[k] == y && none_at(pending, k + 1, project, kind, channel, frame);
        if k < z {
            assert(!pends_at(pending[z], project, kind, channel, frame));
            assert(p[k] == y);
            assert forall|j: int| k + 1 <= j < p.len() implies !pends_at(#[trigger] p[j], project, kind, channel, frame) by {
                assert(p[j] == pending[j]);
            }
            assert(none_at(p, k + 1, project, kind, channel, frame));
        }
    }
    if pending.last() == y {
        assert(pending[z] == y && none_at(pending, z + 1, project, kind, channel, frame));
    }
    if last_at(p, project, kind, channel, frame, y) && !at {
        let k = choose|k: int| 0 <= k < p.len() && #[trigger] p[k] == y && none_at(p, k + 1, project, kind, channel, frame);
        assert(pending[k] == y);
        assert forall|j: int| k + 1 <= j < pending.len() implies !pends_at(#[trigger] pending[j], project, kind, channel, frame) by {
            if j < z {
                assert(p[j] == pending[j]);
            }
        }
        assert(none_at(pending, k + 1, project, kind, channel, frame));
    }
}

spec fn none_at(pending: Seq<PendingFixture>, from: int, project: u64, kind: FixtureKind, channel: u8, frame: u32) -> bool {
    forall|j: int| from <= j < pending.len() ==> !pends_at(#[trigger] pending[j], project, kind, channel, frame)
}

spec fn last_at(pending: Seq<PendingFixture>, project: u64, kind: FixtureKind, channel: u8, frame: u32, y: PendingFixture) -> bool {
    exists|k: int| 0 <= k < pending.len() && #[trigger] pending[k] == y && none_at(pending, k + 1, project, kind, channel, frame)
}

/// The pending edit sets this laser keyframe.
pub open spec fn sets_laser(p: PendingFixture, project: u64, x: LaserKeyframeView) -> bool {
    p matches PendingFixture::Laser(r) && r@ == x && x.project_id == project
}

/// As [`law_turrets_now`], for laser keyframes.
pub proof fn law_lasers_now(rows: Seq<LaserKeyframeView>, pending: Seq<PendingFixture>, project: u64, x: LaserKeyframeView)
    ensures
        lasers_now(rows, pending, project).contains(x) <==> {
            ||| rows.contains(x) && forall|k: int|
                0 <= k < pending.len() ==> !pends_at(#[trigger] pending[k], project, FixtureKind::Laser, x.channel, x.frame)
            ||| exists|k: int|
                {
                    &&& 0 <= k < pending.len() && sets_laser(#[trigger] pending[k], project, x)
                    &&& forall|j: int|
                        k < j < pending.len() ==> !pends_at(#[trigger] pending[j], project, FixtureKind::Laser, x.channel, x.frame)
                }
        },
    decreases pending.len(),
{
    if pending.len() > 0 {
        let p = pending.drop_last();
        let z = pending.len() - 1;
        law_lasers_now(rows, p, project, x);
        let before = lasers_now(rows, p, project);
        let at = pends_at(pending[z], project, FixtureKind::Laser, x.channel, x.frame);
        if let PendingFixture::Laser(r) = pending[z] {
            lemma_with_row::<LaserKeyframe>(before, r@, x);
        }
        assert(sets_laser(pending[z], project, x) ==> at);
        assert forall|k: int| 0 <= k < z implies #[trigger] p[k] == pending[k] by {}
        if !at {
            assert(lasers_now(rows, pending, project).contains(x) <==> before.contains(x));
            if rows.contains(x) && (forall|k: int|
                0 <= k < p.len() ==> !pends_at(#[trigger] p[k], project, FixtureKind::Laser, x.channel, x.frame)) {
                assert forall|k: int| 0 <= k < pending.len() implies !pends_at(
                    #[trigger] pending[k],
                    project,
                    FixtureKind::Laser,
                    x.channel,
                    x.frame,
                ) by {
                    if k < z {
                        assert(p[k] == pending[k]);
                    }
                }
            }
            if exists|k: int|
                {
                    &&& 0 <= k < p.len() && sets_laser(#[trigger] p[k], project, x)
                    &&& forall|j: int| k < j < p.len() ==> !pends_at(#[trigger] p[j], project, FixtureKind::Laser, x.channel, x.frame)
                } {
                let k = choose|k: int|
                    {
                        &&& 0 <= k < p.len() && sets_laser(#[trigger] p[k], project, x)
                        &&& forall|j: int| k < j < p.len() ==> !pends_at(#[trigger] p[j], project, FixtureKind::Laser, x.channel, x.frame)
                    };
                assert(pending[k] == p[k]);
                assert forall|j: int| k < j < pending.len() implies !pends_at(
                    #[trigger] pending[j],
                    project,
                    FixtureKind::Laser,
                    x.channel,
                    x.frame,
                ) by {
                    if j < z {
                        assert(p[j] == pending[j]);
                    }
                }
            }
            if exists|k: int|
                {
                    &&& 0 <= k < pending.len() && sets_laser(#[trigger] pending[k], project, x)
                    &&& forall|j: int|
                        k < j < pending.len() ==> !pends_at(#[trigger] pending[j], project, FixtureKind::Laser, x.channel, x.frame)
                } {
                let k = choose|k: int|
                    {
                        &&& 0 <= k < pending.len() && sets_laser(#[trigger] pending[k], project, x)
                        &&& forall|j: int|
                            k < j < pending.len() ==> !pends_at(#[trigger] pending[j], project, FixtureKind::Laser, x.channel, x.frame)
                    };
                assert(p[k] == pending[k]);
                assert forall|j: int| k < j < p.len() implies !pends_at(#[trigger] p[j], project, FixtureKind::Laser, x.channel, x.frame) by {
                    assert(p[j] == pending[j]);
                }
            }
        }
    }
}

/// The fixtures of a stage stand where their rows say.
pub proof fn law_stage_places(l: LaserKeyframeView, p: ProjectorKeyframe, t: TurretKeyframe)
    ensures
        LaserKeyframe::row_channel(l) == l.channel && LaserKeyframe::row_frame(l) == l.frame,
        ProjectorKeyframe::row_channel(p) == p.channel && ProjectorKeyframe::row_frame(p) == p.frame,
        TurretKeyframe::row_channel(t) == t.channel && TurretKeyframe::row_frame(t) == t.frame,
{
}

// ---- the names of nodes -----------------------------------------------------

proof fn lemma_zeros(s: Seq<char>, n: nat)
    requires
        s == "00"@ || s == "0"@,
    ensures
        all_digits(s + decimal(n), 10),
        digits_value(s + decimal(n), 10) == n,
    decreases n,
{
    reveal_strlit("00");
    reveal_strlit("0");
    law_decimal_reads_back(n);
    let d = decimal(n);
    let t = s + d;
    assert forall|i: int| 0 <= i < t.len() implies digit_value(#[trigger] t[i], 10) is Some by {
        if i < s.len() {
            assert(t[i] == '0');
        } else {
            assert(t[i] == d[i - s.len()]);
        }
    }
    assert(t.drop_last() =~= s + d.drop_last());
    assert(t.last() == d.last());
    if n < 10 {
        assert(d.drop_last() =~= Seq::<char>::empty());
        assert(s + d.drop_last() =~= s);
        assert(digits_value(s, 10) == 0) by {
            assert(digit_value('0', 10) == Some(0nat));
            assert(s.last() == '0');
            assert(s.drop_last() =~= Seq::<char>::empty() || s.drop_last() =~= seq!['0']);
            assert(digits_value(Seq::<char>::empty(), 10) == 0);
            if s.drop_last() =~= seq!['0'] {
                assert(seq!['0'].drop_last() =~= Seq::<char>::empty());
                assert(seq!['0'].last() == '0');
                assert(digits_value(seq!['0'], 10) == 0);
            }
        }
    } else {
        assert(d.drop_last() =~= decimal(n / 10));
        lemma_zeros(s, n / 10);
    }
}

/// Nodes are found by their names: the node that is named after a kind and a number, three
/// digits or more, stands for that emitter.
pub proof fn law_node_names(family: EmitterFamily, n: u32)
    ensures
        emitter_in(family_name(family) + "."@ + three_digits(n as nat)) == Some((family, n as nat)),
{
    reveal_strlit("Laser");
    reveal_strlit("Turret");
    reveal_strlit("Projector");
    reveal_strlit("Laser.");
    reveal_strlit("Turret.");
    reveal_strlit("Projector.");
    reveal_strlit(".");
    reveal_strlit("0");
    reveal_strlit("00");
    let head = family_name(family) + "."@;
    let digits = three_digits(n as nat);
    let name = head + digits;
    law_decimal_reads_back(n as nat);
    if n < 10 {
        lemma_zeros("00"@, n as nat);
    } else if n < 100 {
        lemma_zeros("0"@, n as nat);
    }
    assert(all_digits(digits, 10) && digits_value(digits, 10) == n && digits.len() > 0);
    assert(digit_value(digits[0], 10) is Some);
    assert(digit_value(digits[digits.len() - 1], 10) is Some);
    assert(name[0] == head[0]);
    assert(name[name.len() - 1] == digits[digits.len() - 1]);
    let space = |c: char| is_space(c);
    assert(!space(name[0]) && !space(name.last()));
    assert(trim_left(name, space) == name);
    assert(trimmed(name) == name);
    assert(!space(digits[0]) && !space(digits.last()));
    assert(trim_left(digits, space) == digits);
    assert(trimmed(digits) == digits);
    assert("Laser"@ + "."@ =~= "Laser."@);
    assert("Turret"@ + "."@ =~= "Turret."@);
    assert("Projector"@ + "."@ =~= "Projector."@);
    assert(name.take(head.len() as int) =~= head);
    assert(name.skip(head.len() as int) =~= digits);
    assert(node_number(name, head) == Some(n as nat));
    assert(!(family is Laser) ==> !begins(name, "Laser."@)) by {
        if begins(name, "Laser."@) {
            assert(name.take(6)[0] == 'L');
        }
    }
    assert(family is Projector ==> !begins(name, "Turret."@)) by {
        if begins(name, "Turret."@) {
            assert(name.take(7)[0] == 'T');
        }
    }
}

// ---- what the stage shows ---------------------------------------------------

/// The grid of the stage shows the version that the history cursor stands on: a past one as
/// it was, without the edits on their way, and the newest one with them on top.
pub proof fn law_stage_shows(
    g: HeldGrid,
    p: Project,
    edits: Seq<Edit>,
    history_pos: Option<u64>,
    pending: Seq<LightEditInput>,
    log: Seq<Edit>,
    l: u32,
    f: u32,
)
    requires
        shows(g, p, edits, history_pos, pending, log),
        l < p.num_lights,
        f < p.num_frames,
    ensures
        g.held@.len() == p.num_lights && g.held@[l as int]@.len() == p.num_frames,
        g.held@[l as int]@[f as int] == held_at(g.keyframes@, l, f as nat),
        history_pos matches Some(pos) && pos < p.head_seq ==> g.viewing_history && g.keyframes@ == folded(log, history_pos->0),
        (history_pos matches Some(pos) ==> pos >= p.head_seq) ==> !g.viewing_history && g.keyframes@ == overlaid(
            folded(log, p.head_seq),
            pending,
        ),
{
    let now = g.keyframes@;
    assert(grid_view(g.held@).len() == g.held@.len());
    assert(grid_view(g.held@)[l as int] == held_grid(now, p.num_lights as nat, p.num_frames as nat)[l as int]);
    assert(grid_view(g.held@)[l as int] == g.held@[l as int]@);
}

/// A beam is dark without a project, without a keyframe in force, and where that keyframe is
/// off; else it has the keyframe's colours and shape.
pub proof fn law_beams(has_project: bool, lasers: Seq<Option<LaserKeyframe>>, projectors: Seq<Option<ProjectorKeyframe>>, channel: u8)
    ensures
        match laser_cast(has_project, lasers, channel) {
            Beam::Laser { cr, cg, cb, pattern } => has_project && channel < lasers.len() && (lasers[channel as int] matches Some(k)
                && k.enable && k.cr == cr && k.cg == cg && k.cb == cb && k.pattern == pattern),
            Beam::Projector { .. } => false,
            Beam::Dark => !has_project || channel >= lasers.len() || (lasers[channel as int] matches Some(k) ==> !k.enable),
        },
        match projector_cast(has_project, projectors, channel) {
            Beam::Projector { colour } => has_project && channel < projectors.len() && (projectors[channel as int] matches Some(k) && k.state
                != 0 && k.colour == colour),
            Beam::Laser { .. } => false,
            Beam::Dark => !has_project || channel >= projectors.len() || (projectors[channel as int] matches Some(k) ==> k.state == 0),
        },
{
}

/// What the stage holds of a channel is the latest of its keyframes that is not after the
/// frame; it holds none exactly where every one is later.
pub proof fn law_stage_state<T: StageRow>(state: Seq<Option<T>>, rows: Seq<T::V>, channels: nat, frame: u32, c: int)
    requires
        holds_state(state, rows, channels, frame),
        0 <= c < channels,
    ensures
        match state[c] {
            Some(k) => {
                &&& rows.contains(k@)
                &&& T::row_channel(k@) == c && T::row_frame(k@) <= frame
                &&& forall|j: int|
                    0 <= j < rows.len() && T::row_channel(#[trigger] rows[j]) == c && T::row_frame(rows[j]) <= frame ==> T::row_frame(rows[j])
                        <= T::row_frame(k@)
            },
            None => forall|j: int| 0 <= j < rows.len() && T::row_channel(#[trigger] rows[j]) == c ==> T::row_frame(rows[j]) > frame,
        },
        state.len() == channels,
{
    law_in_force::<T>(rows, c, frame);
    assert(state[c] == state[c]);
}

/// A scene has lights of its own where a node is named `Light.` and a number, and none where no
/// node's name begins so.
pub proof fn law_scene_lights(names: Seq<String>, i: int, n: u32)
    ensures
        0 <= i < names.len() && names[i]@ == "Light."@ + decimal(n as nat) ==> names_light(names),
        (forall|k: int| 0 <= k < names.len() ==> !begins((#[trigger] names[k])@, "Light."@)) ==> !names_light(names),
{
    if 0 <= i < names.len() && names[i]@ == "Light."@ + decimal(n as nat) {
        let d = decimal(n as nat);
        law_decimal_reads_back(n as nat);
        lemma_decimal_digits(n as nat);
        assert(digit_value(d[0], 10) is Some && digit_value(d[d.len() - 1], 10) is Some);
        let space = |c: char| is_space(c);
        assert(!space(d[0]) && !space(d.last()));
        assert(trim_left(d, space) == d);
        assert(trimmed(d) == d);
        let name = names[i]@;
        let head = "Light."@;
        assert(name.take(head.len() as int) =~= head);
        assert(name.skip(head.len() as int) =~= d);
        assert(node_number(name, head) is Some);
    }
}

/// The projector's caption is the name of its picture, or its number where it has none.
pub proof fn law_caption(k: ProjectorKeyframe, lib: Seq<ProjectorPattern>)
    ensures
        (forall|j: int| 0 <= j < lib.len() ==> (#[trigger] lib[j]).gallery != k.gallery || lib[j].pattern != k.pattern) ==> caption(k, lib)
            == "Pattern "@ + decimal(k.pattern as nat),
        (exists|j: int| 0 <= j < lib.len() && (#[trigger] lib[j]).gallery == k.gallery && lib[j].pattern == k.pattern) ==> exists|j: int|
            0 <= j < lib.len() && (#[trigger] lib[j]).gallery == k.gallery && lib[j].pattern == k.pattern && caption(k, lib) == lib[j].name@,
{
    law_projector_name(lib, k.gallery, k.pattern);
}

} // verus!
