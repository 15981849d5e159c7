//! What the region operations do to the keyframes of fixtures, and what a paste does.
use crate::clipboard::{blueprint_problem, nothing, pastes, PastePlan};
use crate::regions::{
    any_fixture, channels_in, channels_picked, channels_shifted, covered, destination_clear, in_effect, inside, no_plan, picked,
    selection_clear, shifted, stamp_clear, stamp_end, FixtureClearView,
};
use crate::rows::{
    LaserInputView, LaserKeyframe, LightEditInput, ProjectorKeyframe, ProjectorKeyframeInput, TurretKeyframe, TurretKeyframeInput,
};
use crate::state::{
    distinct, laser_views, lasers_moved, lights_moved, projectors_moved, turrets_moved, Clipboard, FixtureKind, FixtureRow, FixtureTrack,
    GridSelection,
};
use crate::text::{is_space, trim_where, trimmed};
use crate::text_laws::law_trim;
use vstd::prelude::*;

verus! {

broadcast use vstd::seq::group_seq_axioms;

// ---- the channels of a selection --------------------------------------------

proof fn lemma_channels_in(fixtures: Seq<FixtureTrack>, kind: FixtureKind, a: int, b: int, channel: u8)
    ensures
        channels_in(fixtures, kind, a, b).contains(channel) <==> exists|r: int|
            a <= r < b && (#[trigger] fixtures[r]).kind == kind && fixtures[r].channel == channel,
        channels_in(fixtures, kind, a, b).len() > 0 <==> exists|r: int| a <= r < b && (#[trigger] fixtures[r]).kind == kind,
    decreases b - a,
{
    if a < b {
        lemma_channels_in(fixtures, kind, a, b - 1, channel);
        let rest = channels_in(fixtures, kind, a, b - 1);
        let all = channels_in(fixtures, kind, a, b);
        if all.contains(channel) {
            let k = choose|k: int| 0 <= k < all.len() && all[k] == channel;
            if k < rest.len() {
                assert(rest[k] == channel);
            } else {
                assert(fixtures[b - 1].kind == kind);
            }
        }
        if exists|r: int| a <= r < b && (#[trigger] fixtures[r]).kind == kind && fixtures[r].channel == channel {
            let r = choose|r: int| a <= r < b && (#[trigger] fixtures[r]).kind == kind && fixtures[r].channel == channel;
            if r < b - 1 {
                assert(rest.contains(channel));
                let k = choose|k: int| 0 <= k < rest.len() && rest[k] == channel;
                assert(all[k] == channel);
            } else {
                assert(all[all.len() - 1] == channel);
            }
        }
        if all.len() > 0 && rest.len() == 0 {
            assert(fixtures[b - 1].kind == kind);
        }
    }
}

/// A selection covers the channels of the fixture rows that lie in it, below the `nl`
/// rows of the lights, and no others.
pub proof fn law_selected_channels(sel: GridSelection, nl: u32, fixtures: Seq<FixtureTrack>, kind: FixtureKind, channel: u8)
    requires
        sel.row_min <= sel.row_max,
    ensures
        covered(sel, nl, fixtures, kind).contains(channel) <==> exists|r: int|
            0 <= r < fixtures.len() && (#[trigger] fixtures[r]).kind == kind && fixtures[r].channel == channel && sel.row_min <= nl + r
                <= sel.row_max,
        covered(sel, nl, fixtures, kind).len() > 0 <==> exists|r: int|
            0 <= r < fixtures.len() && (#[trigger] fixtures[r]).kind == kind && sel.row_min <= nl + r <= sel.row_max,
{
    let a: int = if sel.row_min > nl {
        sel.row_min - nl
    } else {
        0
    };
    let n = fixtures.len() as int;
    let b: int = if sel.row_max < nl {
        0
    } else if sel.row_max - nl + 1 < n {
        sel.row_max - nl + 1
    } else {
        n
    };
    lemma_channels_in(fixtures, kind, a, b, channel);
    assert(covered(sel, nl, fixtures, kind) == channels_in(fixtures, kind, a, b));
    if covered(sel, nl, fixtures, kind).contains(channel) {
        let r = choose|r: int| a <= r < b && (#[trigger] fixtures[r]).kind == kind && fixtures[r].channel == channel;
        assert(sel.row_min <= nl + r <= sel.row_max);
    }
    if covered(sel, nl, fixtures, kind).len() > 0 {
        let r = choose|r: int| a <= r < b && (#[trigger] fixtures[r]).kind == kind;
        assert(sel.row_min <= nl + r <= sel.row_max);
    }
}

// ---- moving -----------------------------------------------------------------

/// The row is a keyframe of the project in the frames `f0..=f1`, of this channel where
/// one is named, and stays on the timeline when it moves by `d`.
pub open spec fn moves<T: FixtureRow>(r: T, project: u64, channel: Option<u8>, f0: u32, f1: u32, d: int, nf: u32) -> bool {
    &&& r.project_of() == project
    &&& channel matches Some(c) ==> r.channel_of() == c
    &&& f0 <= r.frame_of() <= f1
    &&& 0 <= r.frame_of() + d < nf
}

proof fn lemma_shifted<T: FixtureRow>(
    rows: Seq<T>,
    project: u64,
    channel: Option<u8>,
    f0: u32,
    f1: u32,
    d: int,
    nf: u32,
    v: <T::Input as View>::V,
)
    ensures
        shifted(rows, project, channel, f0, f1, d, nf).contains(v) <==> exists|i: int|
            0 <= i < rows.len() && moves(#[trigger] rows[i], project, channel, f0, f1, d, nf) && v == rows[i].input_at(
                (rows[i].frame_of() + d) as u32,
            ),
    decreases rows.len(),
{
    if rows.len() > 0 {
        let p = rows.drop_last();
        let n = rows.len() - 1;
        lemma_shifted(p, project, channel, f0, f1, d, nf, v);
        let rest = shifted(p, project, channel, f0, f1, d, nf);
        let all = shifted(rows, project, channel, f0, f1, d, nf);
        if all.contains(v) {
            let k = choose|k: int| 0 <= k < all.len() && all[k] == v;
            if k < rest.len() {
                assert(rest[k] == v);
                let i = choose|i: int|
                    0 <= i < p.len() && moves(#[trigger] p[i], project, channel, f0, f1, d, nf) && v == p[i].input_at(
                        (p[i].frame_of() + d) as u32,
                    );
                assert(rows[i] == p[i]);
            } else {
                assert(moves(rows[n], project, channel, f0, f1, d, nf));
            }
        }
        if exists|i: int|
            0 <= i < rows.len() && moves(#[trigger] rows[i], project, channel, f0, f1, d, nf) && v == rows[i].input_at(
                (rows[i].frame_of() + d) as u32,
            ) {
            let i = choose|i: int|
                0 <= i < rows.len() && moves(#[trigger] rows[i], project, channel, f0, f1, d, nf) && v == rows[i].input_at(
                    (rows[i].frame_of() + d) as u32,
                );
            if i < n {
                assert(p[i] == rows[i]);
                assert(rest.contains(v));
                let k = choose|k: int| 0 <= k < rest.len() && rest[k] == v;
                assert(all[k] == v);
            } else {
                assert(all[all.len() - 1] == v);
            }
        }
    }
}

proof fn lemma_channels_shifted<T: FixtureRow>(
    rows: Seq<T>,
    project: u64,
    channels: Seq<u8>,
    f0: u32,
    f1: u32,
    d: int,
    nf: u32,
    v: <T::Input as View>::V,
)
    ensures
        channels_shifted(rows, project, channels, f0, f1, d, nf).contains(v) <==> exists|i: int|
            0 <= i < rows.len() && moves(#[trigger] rows[i], project, None, f0, f1, d, nf) && channels.contains(rows[i].channel_of())
                && v == rows[i].input_at((rows[i].frame_of() + d) as u32),
    decreases channels.len(),
{
    if channels.len() > 0 {
        let p = channels.drop_last();
        let c = channels.last();
        lemma_channels_shifted(rows, project, p, f0, f1, d, nf, v);
        lemma_shifted(rows, project, Some(c), f0, f1, d, nf, v);
        let a = channels_shifted(rows, project, p, f0, f1, d, nf);
        let b = shifted(rows, project, Some(c), f0, f1, d, nf);
        assert((a + b).contains(v) <==> a.contains(v) || b.contains(v)) by {
            if a.contains(v) {
                let k = choose|k: int| 0 <= k < a.len() && a[k] == v;
                assert((a + b)[k] == v);
            }
            if b.contains(v) {
                let k = choose|k: int| 0 <= k < b.len() && b[k] == v;
                assert((a + b)[a.len() + k] == v);
            }
        }
        assert forall|x: u8| #[trigger] channels.contains(x) <==> p.contains(x) || x == c by {
            if channels.contains(x) {
                let k = choose|k: int| 0 <= k < channels.len() && channels[k] == x;
                if k < p.len() {
                    assert(p[k] == x);
                }
            }
            if p.contains(x) {
                let k = choose|k: int| 0 <= k < p.len() && p[k] == x;
                assert(channels[k] == x);
            }
            assert(channels[channels.len() - 1] == c);
        }
        if b.contains(v) {
            let i = choose|i: int|
                0 <= i < rows.len() && moves(#[trigger] rows[i], project, Some(c), f0, f1, d, nf) && v == rows[i].input_at(
                    (rows[i].frame_of() + d) as u32,
                );
            assert(moves(rows[i], project, None, f0, f1, d, nf) && channels.contains(rows[i].channel_of()));
        }
        if exists|i: int|
            0 <= i < rows.len() && moves(#[trigger] rows[i], project, None, f0, f1, d, nf) && channels.contains(rows[i].channel_of()) && v
                == rows[i].input_at((rows[i].frame_of() + d) as u32) {
            let i = choose|i: int|
                0 <= i < rows.len() && moves(#[trigger] rows[i], project, None, f0, f1, d, nf) && channels.contains(rows[i].channel_of())
                    && v == rows[i].input_at((rows[i].frame_of() + d) as u32);
            if rows[i].channel_of() == c {
                assert(moves(rows[i], project, Some(c), f0, f1, d, nf));
            } else {
                assert(p.contains(rows[i].channel_of()));
            }
        }
    }
}

/// A moved turret keeps its picture: each of its keyframes in the selected frames is
/// inserted so many frames later, with its values, unless it leaves the timeline; and no
/// other keyframe is inserted.
pub proof fn law_turrets_move(
    rows: Seq<TurretKeyframe>,
    project: u64,
    sel: GridSelection,
    nl: u32,
    nf: u32,
    fixtures: Seq<FixtureTrack>,
    d: int,
    x: TurretKeyframeInput,
)
    requires
        sel.row_min <= sel.row_max,
    ensures
        channels_shifted(
            rows,
            project,
            covered(sel, nl, fixtures, FixtureKind::Turret),
            sel.frame_min,
            sel.frame_max,
            d,
            nf,
        ).contains(x) <==> exists|i: int, r: int|
            #![trigger rows[i], fixtures[r]]
            0 <= i < rows.len() && 0 <= r < fixtures.len() && fixtures[r].kind == FixtureKind::Turret && sel.row_min <= nl + r
                <= sel.row_max && rows[i].project_id == project && rows[i].channel == fixtures[r].channel && sel.frame_min <= rows[i].frame
                <= sel.frame_max && x.frame == rows[i].frame + d && x.frame < nf && x.channel == rows[i].channel && x.state
                == rows[i].state && x.pan == rows[i].pan && x.tilt == rows[i].tilt,
{
    let cs = covered(sel, nl, fixtures, FixtureKind::Turret);
    lemma_channels_shifted(rows, project, cs, sel.frame_min, sel.frame_max, d, nf, x);
    if channels_shifted(rows, project, cs, sel.frame_min, sel.frame_max, d, nf).contains(x) {
        let i = choose|i: int|
            0 <= i < rows.len() && moves(#[trigger] rows[i], project, None, sel.frame_min, sel.frame_max, d, nf) && cs.contains(
                rows[i].channel_of(),
            ) && x == rows[i].input_at((rows[i].frame_of() + d) as u32);
        law_selected_channels(sel, nl, fixtures, FixtureKind::Turret, rows[i].channel);
        let r = choose|r: int|
            0 <= r < fixtures.len() && (#[trigger] fixtures[r]).kind == FixtureKind::Turret && fixtures[r].channel == rows[i].channel
                && sel.row_min <= nl + r <= sel.row_max;
        assert(rows[i].channel == fixtures[r].channel);
    }
    assert forall|i: int, r: int|
        #![trigger rows[i], fixtures[r]]
        0 <= i < rows.len() && 0 <= r < fixtures.len() && fixtures[r].kind == FixtureKind::Turret && sel.row_min <= nl + r
            <= sel.row_max && rows[i].project_id == project && rows[i].channel == fixtures[r].channel && sel.frame_min <= rows[i].frame
            <= sel.frame_max && x.frame == rows[i].frame + d && x.frame < nf && x.channel == rows[i].channel && x.state == rows[i].state
            && x.pan == rows[i].pan && x.tilt == rows[i].tilt implies channels_shifted(
        rows,
        project,
        cs,
        sel.frame_min,
        sel.frame_max,
        d,
        nf,
    ).contains(x) by {
        law_selected_channels(sel, nl, fixtures, FixtureKind::Turret, rows[i].channel);
        assert(moves(rows[i], project, None, sel.frame_min, sel.frame_max, d, nf));
        assert(x == rows[i].input_at((rows[i].frame_of() + d) as u32));
    }
}

/// A moved laser keeps its picture, as a moved turret does.
pub proof fn law_lasers_move(
    rows: Seq<LaserKeyframe>,
    project: u64,
    sel: GridSelection,
    nl: u32,
    nf: u32,
    fixtures: Seq<FixtureTrack>,
    d: int,
    x: LaserInputView,
)
    requires
        sel.row_min <= sel.row_max,
    ensures
        channels_shifted(
            rows,
            project,
            covered(sel, nl, fixtures, FixtureKind::Laser),
            sel.frame_min,
            sel.frame_max,
            d,
            nf,
        ).contains(x) <==> exists|i: int, r: int|
            #![trigger rows[i], fixtures[r]]
            0 <= i < rows.len() && 0 <= r < fixtures.len() && fixtures[r].kind == FixtureKind::Laser && sel.row_min <= nl + r
                <= sel.row_max && rows[i].project_id == project && rows[i].channel == fixtures[r].channel && sel.frame_min <= rows[i].frame
                <= sel.frame_max && x.frame == rows[i].frame + d && x.frame < nf && x.channel == rows[i].channel && x.enable
                == rows[i].enable && x.pattern == rows[i].pattern && x.cr == rows[i].cr && x.cg == rows[i].cg && x.cb == rows[i].cb
                && x.points == rows[i].points@,
{
    let cs = covered(sel, nl, fixtures, FixtureKind::Laser);
    lemma_channels_shifted(rows, project, cs, sel.frame_min, sel.frame_max, d, nf, x);
    if channels_shifted(rows, project, cs, sel.frame_min, sel.frame_max, d, nf).contains(x) {
        let i = choose|i: int|
            0 <= i < rows.len() && moves(#[trigger] rows[i], project, None, sel.frame_min, sel.frame_max, d, nf) && cs.contains(
                rows[i].channel_of(),
            ) && x == rows[i].input_at((rows[i].frame_of() + d) as u32);
        law_selected_channels(sel, nl, fixtures, FixtureKind::Laser, rows[i].channel);
        let r = choose|r: int|
            0 <= r < fixtures.len() && (#[trigger] fixtures[r]).kind == FixtureKind::Laser && fixtures[r].channel == rows[i].channel
                && sel.row_min <= nl + r <= sel.row_max;
        assert(rows[i].channel == fixtures[r].channel);
    }
    assert forall|i: int, r: int|
        #![trigger rows[i], fixtures[r]]
        0 <= i < rows.len() && 0 <= r < fixtures.len() && fixtures[r].kind == FixtureKind::Laser && sel.row_min <= nl + r
            <= sel.row_max && rows[i].project_id == project && rows[i].channel == fixtures[r].channel && sel.frame_min <= rows[i].frame
            <= sel.frame_max && x.frame == rows[i].frame + d && x.frame < nf && x.channel == rows[i].channel && x.enable == rows[i].enable
            && x.pattern == rows[i].pattern && x.cr == rows[i].cr && x.cg == rows[i].cg && x.cb == rows[i].cb && x.points
            == rows[i].points@ implies channels_shifted(rows, project, cs, sel.frame_min, sel.frame_max, d, nf).contains(x) by {
        law_selected_channels(sel, nl, fixtures, FixtureKind::Laser, rows[i].channel);
        assert(moves(rows[i], project, None, sel.frame_min, sel.frame_max, d, nf));
        assert(x == rows[i].input_at((rows[i].frame_of() + d) as u32));
    }
}

/// A moved projector keeps its picture: each of its keyframes in the frames is inserted
/// so many frames later, with its values, unless it leaves the timeline; and no other is.
pub proof fn law_projector_moves(
    rows: Seq<ProjectorKeyframe>,
    project: u64,
    f0: u32,
    f1: u32,
    d: int,
    nf: u32,
    x: ProjectorKeyframeInput,
)
    ensures
        shifted(rows, project, None, f0, f1, d, nf).contains(x) <==> exists|i: int|
            0 <= i < rows.len() && (#[trigger] rows[i]).project_id == project && f0 <= rows[i].frame <= f1 && x.frame == rows[i].frame + d
                && x.frame < nf && x.channel == rows[i].channel && x.state == rows[i].state && x.gallery == rows[i].gallery && x.pattern
                == rows[i].pattern && x.colour == rows[i].colour,
{
    lemma_shifted(rows, project, None, f0, f1, d, nf, x);
    assert forall|i: int|
        0 <= i < rows.len() && (#[trigger] rows[i]).project_id == project && f0 <= rows[i].frame <= f1 && x.frame == rows[i].frame + d
            && x.frame < nf && x.channel == rows[i].channel && x.state == rows[i].state && x.gallery == rows[i].gallery && x.pattern
            == rows[i].pattern && x.colour == rows[i].colour implies shifted(rows, project, None, f0, f1, d, nf).contains(x) by {
        assert(moves(rows[i], project, None, f0, f1, d, nf));
        assert(x == rows[i].input_at((rows[i].frame_of() + d) as u32));
    }
}

/// The clear takes keyframes of this kind and channel at this frame.
pub open spec fn takes(c: FixtureClearView, kind: FixtureKind, channel: u8, f: int) -> bool {
    &&& c.frame_min <= f <= c.frame_max
    &&& match kind {
        FixtureKind::Laser => c.lasers.contains(channel),
        FixtureKind::Turret => c.turrets.contains(channel),
        FixtureKind::Projector => c.projector,
    }
}

/// A move first empties the selected channels where they were and where they go: of a
/// channel in the selection, the first clear takes exactly the selected frames, and the
/// second exactly those it lands on. It takes nothing of a channel that is not selected.
/// (Of a region that leaves the timeline at its start altogether, frame 0 is emptied.)
pub proof fn law_move_clears(
    sel: GridSelection,
    d: int,
    nl: u32,
    nf: u32,
    fixtures: Seq<FixtureTrack>,
    kind: FixtureKind,
    channel: u8,
    f: int,
)
    requires
        sel.row_min <= sel.row_max,
        sel.frame_min <= sel.frame_max < nf,
        0 <= f < nf,
        0 <= sel.frame_max + d || f > 0,
        sel.frame_max + d <= u32::MAX,
    ensures
        ({
            let selected = exists|r: int|
                0 <= r < fixtures.len() && (#[trigger] fixtures[r]).kind == kind && (kind == FixtureKind::Projector || fixtures[r].channel
                    == channel) && sel.row_min <= nl + r <= sel.row_max;
            &&& takes(selection_clear(sel, nl, fixtures), kind, channel, f) <==> selected && sel.frame_min <= f <= sel.frame_max
            &&& takes(destination_clear(sel, d, nl, nf, fixtures), kind, channel, f) <==> selected && sel.frame_min + d <= f
                <= sel.frame_max + d
            &&& selected ==> any_fixture(selection_clear(sel, nl, fixtures))
        }),
{
    law_selected_channels(sel, nl, fixtures, kind, channel);
    let cs = covered(sel, nl, fixtures, kind);
    if cs.contains(channel) {
        let k = choose|k: int| 0 <= k < cs.len() && cs[k] == channel;
        assert(cs.len() > 0);
    }
}

/// Once the clears and inserts are applied, `x` is a keyframe of the turret: one that no
/// clear takes, or one that is inserted.
pub open spec fn turret_after(
    rows: Seq<TurretKeyframe>,
    project: u64,
    clears: Seq<FixtureClearView>,
    inserts: Seq<TurretKeyframeInput>,
    x: TurretKeyframeInput,
) -> bool {
    ||| inserts.contains(x)
    ||| turret_before(rows, project, x) && forall|c: int|
        0 <= c < clears.len() ==> !takes(#[trigger] clears[c], FixtureKind::Turret, x.channel, x.frame as int)
}

/// `x` is one of the project's keyframes of the turret.
pub open spec fn turret_before(rows: Seq<TurretKeyframe>, project: u64, x: TurretKeyframeInput) -> bool {
    exists|i: int|
        0 <= i < rows.len() && (#[trigger] rows[i]).project_id == project && rows[i].frame == x.frame && rows[i].channel == x.channel && rows[i].state == x.state && rows[i].pan == x.pan && rows[i].tilt == x.tilt
}

/// Once a move is applied, a selected turret has in the frames it left and in those it
/// reached exactly the keyframes it had in the selection, so many frames later with
/// their values; everywhere else its keyframes are those it had.
pub proof fn law_moved_turret(
    rows: Seq<TurretKeyframe>,
    project: u64,
    sel: GridSelection,
    nl: u32,
    nf: u32,
    fixtures: Seq<FixtureTrack>,
    d: int,
    x: TurretKeyframeInput,
    y: TurretKeyframeInput,
)
    requires
        sel.row_min <= sel.row_max,
        sel.frame_min <= sel.frame_max < nf,
        sel.frame_max + d <= u32::MAX,
        x.frame < nf,
        0 <= sel.frame_max + d || x.frame > 0,
        y == (TurretKeyframeInput { frame: (x.frame - d) as u32, ..x }),
    ensures
        ({
            let selected = exists|r: int|
                0 <= r < fixtures.len() && (#[trigger] fixtures[r]).kind == FixtureKind::Turret && fixtures[r].channel == x.channel && sel.row_min <= nl + r
                    <= sel.row_max;
            let left = sel.frame_min <= x.frame <= sel.frame_max;
            let reached = sel.frame_min + d <= x.frame <= sel.frame_max + d;
            let after = turret_after(
                rows,
                project,
                seq![selection_clear(sel, nl, fixtures), destination_clear(sel, d, nl, nf, fixtures)],
                channels_shifted(rows, project, covered(sel, nl, fixtures, FixtureKind::Turret), sel.frame_min, sel.frame_max, d, nf),
                x,
            );
            if selected && (left || reached) {
                after <==> reached && turret_before(rows, project, y)
            } else {
                after <==> turret_before(rows, project, x)
            }
        }),
{
    let a = selection_clear(sel, nl, fixtures);
    let b = destination_clear(sel, d, nl, nf, fixtures);
    let clears = seq![a, b];
    assert(clears[0] == a && clears[1] == b);
    law_move_clears(sel, d, nl, nf, fixtures, FixtureKind::Turret, x.channel, x.frame as int);
    law_turrets_move(rows, project, sel, nl, nf, fixtures, d, x);
    assert(takes(a, FixtureKind::Turret, x.channel, x.frame as int) || takes(b, FixtureKind::Turret, x.channel, x.frame as int) <==> exists|c: int|
        0 <= c < clears.len() && takes(#[trigger] clears[c], FixtureKind::Turret, x.channel, x.frame as int));
}

/// Once the clears and inserts are applied, `x` is a keyframe of the laser: one that no
/// clear takes, or one that is inserted.
pub open spec fn laser_after(
    rows: Seq<LaserKeyframe>,
    project: u64,
    clears: Seq<FixtureClearView>,
    inserts: Seq<LaserInputView>,
    x: LaserInputView,
) -> bool {
    ||| inserts.contains(x)
    ||| laser_before(rows, project, x) && forall|c: int|
        0 <= c < clears.len() ==> !takes(#[trigger] clears[c], FixtureKind::Laser, x.channel, x.frame as int)
}

/// `x` is one of the project's keyframes of the laser.
pub open spec fn laser_before(rows: Seq<LaserKeyframe>, project: u64, x: LaserInputView) -> bool {
    exists|i: int|
        0 <= i < rows.len() && (#[trigger] rows[i]).project_id == project && rows[i].frame == x.frame && rows[i].channel == x.channel && rows[i].enable == x.enable && rows[i].pattern == x.pattern && rows[i].cr == x.cr && rows[i].cg == x.cg && rows[i].cb == x.cb && rows[i].points@ == x.points
}

/// Once a move is applied, a selected laser has in the frames it left and in those it
/// reached exactly the keyframes it had in the selection, so many frames later with
/// their values; everywhere else its keyframes are those it had.
pub proof fn law_moved_laser(
    rows: Seq<LaserKeyframe>,
    project: u64,
    sel: GridSelection,
    nl: u32,
    nf: u32,
    fixtures: Seq<FixtureTrack>,
    d: int,
    x: LaserInputView,
    y: LaserInputView,
)
    requires
        sel.row_min <= sel.row_max,
        sel.frame_min <= sel.frame_max < nf,
        sel.frame_max + d <= u32::MAX,
        x.frame < nf,
        0 <= sel.frame_max + d || x.frame > 0,
        y == (LaserInputView { frame: (x.frame - d) as u32, ..x }),
    ensures
        ({
            let selected = exists|r: int|
                0 <= r < fixtures.len() && (#[trigger] fixtures[r]).kind == FixtureKind::Laser && fixtures[r].channel == x.channel && sel.row_min <= nl + r
                    <= sel.row_max;
            let left = sel.frame_min <= x.frame <= sel.frame_max;
            let reached = sel.frame_min + d <= x.frame <= sel.frame_max + d;
            let after = laser_after(
                rows,
                project,
                seq![selection_clear(sel, nl, fixtures), destination_clear(sel, d, nl, nf, fixtures)],
                channels_shifted(rows, project, covered(sel, nl, fixtures, FixtureKind::Laser), sel.frame_min, sel.frame_max, d, nf),
                x,
            );
            if selected && (left || reached) {
                after <==> reached && laser_before(rows, project, y)
            } else {
                after <==> laser_before(rows, project, x)
            }
        }),
{
    let a = selection_clear(sel, nl, fixtures);
    let b = destination_clear(sel, d, nl, nf, fixtures);
    let clears = seq![a, b];
    assert(clears[0] == a && clears[1] == b);
    law_move_clears(sel, d, nl, nf, fixtures, FixtureKind::Laser, x.channel, x.frame as int);
    law_lasers_move(rows, project, sel, nl, nf, fixtures, d, x);
    assert(takes(a, FixtureKind::Laser, x.channel, x.frame as int) || takes(b, FixtureKind::Laser, x.channel, x.frame as int) <==> exists|c: int|
        0 <= c < clears.len() && takes(#[trigger] clears[c], FixtureKind::Laser, x.channel, x.frame as int));
}

/// Once the clears and inserts are applied, `x` is a keyframe of the projector: one that no
/// clear takes, or one that is inserted.
pub open spec fn projector_after(
    rows: Seq<ProjectorKeyframe>,
    project: u64,
    clears: Seq<FixtureClearView>,
    inserts: Seq<ProjectorKeyframeInput>,
    x: ProjectorKeyframeInput,
) -> bool {
    ||| inserts.contains(x)
    ||| projector_before(rows, project, x) && forall|c: int|
        0 <= c < clears.len() ==> !takes(#[trigger] clears[c], FixtureKind::Projector, x.channel, x.frame as int)
}

/// `x` is one of the project's keyframes of the projector.
pub open spec fn projector_before(rows: Seq<ProjectorKeyframe>, project: u64, x: ProjectorKeyframeInput) -> bool {
    exists|i: int|
        0 <= i < rows.len() && (#[trigger] rows[i]).project_id == project && rows[i].frame == x.frame && rows[i].channel == x.channel && rows[i].state == x.state && rows[i].gallery == x.gallery && rows[i].pattern == x.pattern && rows[i].colour == x.colour
}

/// Once a move is applied, a selected projector has in the frames it left and in those it
/// reached exactly the keyframes it had in the selection, so many frames later with
/// their values; everywhere else its keyframes are those it had.
pub proof fn law_moved_projector(
    rows: Seq<ProjectorKeyframe>,
    project: u64,
    sel: GridSelection,
    nl: u32,
    nf: u32,
    fixtures: Seq<FixtureTrack>,
    d: int,
    x: ProjectorKeyframeInput,
    y: ProjectorKeyframeInput,
)
    requires
        sel.row_min <= sel.row_max,
        sel.frame_min <= sel.frame_max < nf,
        sel.frame_max + d <= u32::MAX,
        x.frame < nf,
        0 <= sel.frame_max + d || x.frame > 0,
        y == (ProjectorKeyframeInput { frame: (x.frame - d) as u32, ..x }),
    ensures
        ({
            let selected = exists|r: int|
                0 <= r < fixtures.len() && (#[trigger] fixtures[r]).kind == FixtureKind::Projector && sel.row_min <= nl + r
                    <= sel.row_max;
            let left = sel.frame_min <= x.frame <= sel.frame_max;
            let reached = sel.frame_min + d <= x.frame <= sel.frame_max + d;
            let after = projector_after(
                rows,
                project,
                seq![selection_clear(sel, nl, fixtures), destination_clear(sel, d, nl, nf, fixtures)],
                if selection_clear(sel, nl, fixtures).projector {
                    shifted(rows, project, None, sel.frame_min, sel.frame_max, d, nf)
                } else {
                    Seq::empty()
                },
                x,
            );
            if selected && (left || reached) {
                after <==> reached && projector_before(rows, project, y)
            } else {
                after <==> projector_before(rows, project, x)
            }
        }),
{
    let a = selection_clear(sel, nl, fixtures);
    let b = destination_clear(sel, d, nl, nf, fixtures);
    let clears = seq![a, b];
    assert(clears[0] == a && clears[1] == b);
    law_move_clears(sel, d, nl, nf, fixtures, FixtureKind::Projector, x.channel, x.frame as int);
    law_projector_moves(rows, project, sel.frame_min, sel.frame_max, d, nf, x);
    assert(takes(a, FixtureKind::Projector, x.channel, x.frame as int) || takes(b, FixtureKind::Projector, x.channel, x.frame as int) <==> exists|c: int|
        0 <= c < clears.len() && takes(#[trigger] clears[c], FixtureKind::Projector, x.channel, x.frame as int));
}

// ---- copying ----------------------------------------------------------------

/// The keyframe in effect at a frame is the latest of its channel that is not after it:
/// it is one of the project's keyframes of this channel, none of them lies between it and
/// the frame, and there is none exactly where every one of them is later.
pub proof fn law_in_effect<T: FixtureRow>(rows: Seq<T>, project: u64, channel: u8, frame: u32)
    ensures
        match in_effect(rows, project, channel, frame) {
            Some(i) => {
                &&& 0 <= i < rows.len()
                &&& rows[i].project_of() == project && rows[i].channel_of() == channel && rows[i].frame_of() <= frame
                &&& forall|j: int|
                    0 <= j < rows.len() && (#[trigger] rows[j]).project_of() == project && rows[j].channel_of() == channel
                        && rows[j].frame_of() <= frame ==> rows[j].frame_of() <= rows[i].frame_of()
            },
            None => forall|j: int|
                0 <= j < rows.len() && (#[trigger] rows[j]).project_of() == project && rows[j].channel_of() == channel
                    ==> rows[j].frame_of() > frame,
        },
    decreases rows.len(),
{
    if rows.len() > 0 {
        let p = rows.drop_last();
        law_in_effect(p, project, channel, frame);
        assert forall|j: int| 0 <= j < p.len() implies #[trigger] p[j] == rows[j] by {}
        assert forall|j: int| 0 <= j < rows.len() implies j < p.len() && rows[j] == p[j] || #[trigger] rows[j] == rows.last() by {}
    }
}

proof fn lemma_inside<T: FixtureRow>(rows: Seq<T>, project: u64, channel: u8, f0: u32, f1: u32, v: <T::Input as View>::V)
    ensures
        inside(rows, project, channel, f0, f1).contains(v) <==> exists|i: int|
            0 <= i < rows.len() && (#[trigger] rows[i]).project_of() == project && rows[i].channel_of() == channel && f0
                < rows[i].frame_of() <= f1 && v == rows[i].input_at((rows[i].frame_of() - f0) as u32),
    decreases rows.len(),
{
    if rows.len() > 0 {
        let p = rows.drop_last();
        let n = rows.len() - 1;
        lemma_inside(p, project, channel, f0, f1, v);
        let rest = inside(p, project, channel, f0, f1);
        let all = inside(rows, project, channel, f0, f1);
        if all.contains(v) {
            let k = choose|k: int| 0 <= k < all.len() && all[k] == v;
            if k < rest.len() {
                assert(rest[k] == v);
                let i = choose|i: int|
                    0 <= i < p.len() && (#[trigger] p[i]).project_of() == project && p[i].channel_of() == channel && f0 < p[i].frame_of()
                        <= f1 && v == p[i].input_at((p[i].frame_of() - f0) as u32);
                assert(rows[i] == p[i]);
            } else {
                assert(rows[n].project_of() == project);
            }
        }
        if exists|i: int|
            0 <= i < rows.len() && (#[trigger] rows[i]).project_of() == project && rows[i].channel_of() == channel && f0
                < rows[i].frame_of() <= f1 && v == rows[i].input_at((rows[i].frame_of() - f0) as u32) {
            let i = choose|i: int|
                0 <= i < rows.len() && (#[trigger] rows[i]).project_of() == project && rows[i].channel_of() == channel && f0
                    < rows[i].frame_of() <= f1 && v == rows[i].input_at((rows[i].frame_of() - f0) as u32);
            if i < n {
                assert(p[i] == rows[i]);
                assert(rest.contains(v));
                let k = choose|k: int| 0 <= k < rest.len() && rest[k] == v;
                assert(all[k] == v);
            } else {
                assert(all[all.len() - 1] == v);
            }
        }
    }
}

/// A copied channel starts with what was in effect at the region's first frame, so that
/// what is carried in survives, and goes on with its keyframes after that and up to the
/// last frame, counted from the first.
pub proof fn law_copied_channel<T: FixtureRow>(
    rows: Seq<T>,
    project: u64,
    channel: u8,
    f0: u32,
    f1: u32,
    v: <T::Input as View>::V,
)
    ensures
        picked(rows, project, channel, f0, f1).contains(v) <==> {
            ||| in_effect(rows, project, channel, f0) is Some && v == rows[in_effect(rows, project, channel, f0)->0].input_at(0)
            ||| exists|i: int|
                0 <= i < rows.len() && (#[trigger] rows[i]).project_of() == project && rows[i].channel_of() == channel && f0
                    < rows[i].frame_of() <= f1 && v == rows[i].input_at((rows[i].frame_of() - f0) as u32)
        },
        in_effect(rows, project, channel, f0) is Some ==> picked(rows, project, channel, f0, f1).len() > 0 && picked(
            rows,
            project,
            channel,
            f0,
            f1,
        )[0] == rows[in_effect(rows, project, channel, f0)->0].input_at(0),
{
    lemma_inside(rows, project, channel, f0, f1, v);
    let a = match in_effect(rows, project, channel, f0) {
        Some(i) => seq![rows[i].input_at(0)],
        None => Seq::empty(),
    };
    let b = inside(rows, project, channel, f0, f1);
    assert(picked(rows, project, channel, f0, f1) == a + b);
    if b.contains(v) {
        let k = choose|k: int| 0 <= k < b.len() && b[k] == v;
        assert((a + b)[a.len() + k] == v);
    }
    if a.len() > 0 {
        assert((a + b)[0] == a[0]);
    }
    if (a + b).contains(v) {
        let k = choose|k: int| 0 <= k < (a + b).len() && (a + b)[k] == v;
        if k >= a.len() {
            assert(b[k - a.len()] == v);
        }
    }
}

/// The channels of a copied region are copied one by one.
pub proof fn law_copied_channels<T: FixtureRow>(
    rows: Seq<T>,
    project: u64,
    channels: Seq<u8>,
    f0: u32,
    f1: u32,
    v: <T::Input as View>::V,
)
    ensures
        channels_picked(rows, project, channels, f0, f1).contains(v) <==> exists|c: u8| #[trigger]
            channels.contains(c) && picked(rows, project, c, f0, f1).contains(v),
    decreases channels.len(),
{
    if channels.len() > 0 {
        let p = channels.drop_last();
        let c = channels.last();
        law_copied_channels(rows, project, p, f0, f1, v);
        let a = channels_picked(rows, project, p, f0, f1);
        let b = picked(rows, project, c, f0, f1);
        assert(channels[channels.len() - 1] == c);
        if (a + b).contains(v) {
            let k = choose|k: int| 0 <= k < (a + b).len() && (a + b)[k] == v;
            if k < a.len() {
                assert(a[k] == v);
                let x = choose|x: u8| #[trigger] p.contains(x) && picked(rows, project, x, f0, f1).contains(v);
                let z = choose|z: int| 0 <= z < p.len() && p[z] == x;
                assert(channels[z] == x);
                assert(channels.contains(x));
            } else {
                assert(b[k - a.len()] == v);
                assert(channels.contains(c));
            }
        }
        if exists|x: u8| #[trigger] channels.contains(x) && picked(rows, project, x, f0, f1).contains(v) {
            let x = choose|x: u8| #[trigger] channels.contains(x) && picked(rows, project, x, f0, f1).contains(v);
            let z = choose|z: int| 0 <= z < channels.len() && channels[z] == x;
            if z < p.len() {
                assert(p[z] == x);
                assert(p.contains(x));
                assert(a.contains(v));
                let k = choose|k: int| 0 <= k < a.len() && a[k] == v;
                assert((a + b)[k] == v);
            } else {
                let k = choose|k: int| 0 <= k < b.len() && b[k] == v;
                assert((a + b)[a.len() + k] == v);
            }
        }
    }
}

// ---- pasting and stamping ---------------------------------------------------

/// A paste puts every light edit of a region down so many rows and frames further, with
/// its state and in its order.
pub proof fn law_pasted_lights(s: Seq<LightEditInput>, light: u32, frame: u32)
    requires
        forall|i: int| 0 <= i < s.len() ==> (#[trigger] s[i]).light + light <= u32::MAX && s[i].frame + frame <= u32::MAX,
    ensures
        lights_moved(s, light, frame).len() == s.len(),
        forall|i: int|
            0 <= i < s.len() ==> (#[trigger] lights_moved(s, light, frame)[i]).light == s[i].light + light && lights_moved(
                s,
                light,
                frame,
            )[i].frame == s[i].frame + frame && lights_moved(s, light, frame)[i].state == s[i].state,
    decreases s.len(),
{
    if s.len() > 0 {
        let p = s.drop_last();
        assert forall|i: int| 0 <= i < p.len() implies (#[trigger] p[i]).light + light <= u32::MAX && p[i].frame + frame <= u32::MAX by {
            assert(p[i] == s[i]);
        }
        law_pasted_lights(p, light, frame);
        assert(s[s.len() - 1] == s.last());
    }
}

/// A paste puts every turret keyframe of a region down so many frames later and changes
/// nothing else of it.
pub proof fn law_pasted_turrets(s: Seq<TurretKeyframeInput>, frame: u32)
    requires
        forall|i: int| 0 <= i < s.len() ==> (#[trigger] s[i]).frame + frame <= u32::MAX,
    ensures
        turrets_moved(s, frame).len() == s.len(),
        forall|i: int|
            0 <= i < s.len() ==> {
                let x = #[trigger] turrets_moved(s, frame)[i];
                x.frame == s[i].frame + frame && x.channel == s[i].channel && x.state == s[i].state && x.pan == s[i].pan && x.tilt
                    == s[i].tilt
            },
    decreases s.len(),
{
    if s.len() > 0 {
        let p = s.drop_last();
        assert forall|i: int| 0 <= i < p.len() implies (#[trigger] p[i]).frame + frame <= u32::MAX by {
            assert(p[i] == s[i]);
        }
        law_pasted_turrets(p, frame);
        assert(s[s.len() - 1] == s.last());
    }
}

/// A paste puts every projector keyframe of a region down so many frames later and
/// changes nothing else of it.
pub proof fn law_pasted_projectors(s: Seq<ProjectorKeyframeInput>, frame: u32)
    requires
        forall|i: int| 0 <= i < s.len() ==> (#[trigger] s[i]).frame + frame <= u32::MAX,
    ensures
        projectors_moved(s, frame).len() == s.len(),
        forall|i: int|
            0 <= i < s.len() ==> {
                let x = #[trigger] projectors_moved(s, frame)[i];
                x.frame == s[i].frame + frame && x.channel == s[i].channel && x.state == s[i].state && x.gallery == s[i].gallery
                    && x.pattern == s[i].pattern && x.colour == s[i].colour
            },
    decreases s.len(),
{
    if s.len() > 0 {
        let p = s.drop_last();
        assert forall|i: int| 0 <= i < p.len() implies (#[trigger] p[i]).frame + frame <= u32::MAX by {
            assert(p[i] == s[i]);
        }
        law_pasted_projectors(p, frame);
        assert(s[s.len() - 1] == s.last());
    }
}

/// A paste puts every laser keyframe of a region down so many frames later and changes
/// nothing else of it.
pub proof fn law_pasted_lasers(s: Seq<LaserInputView>, frame: u32)
    requires
        forall|i: int| 0 <= i < s.len() ==> (#[trigger] s[i]).frame + frame <= u32::MAX,
    ensures
        lasers_moved(s, frame).len() == s.len(),
        forall|i: int|
            0 <= i < s.len() ==> {
                let x = #[trigger] lasers_moved(s, frame)[i];
                x.frame == s[i].frame + frame && x.channel == s[i].channel && x.enable == s[i].enable && x.pattern == s[i].pattern && x.cr
                    == s[i].cr && x.cg == s[i].cg && x.cb == s[i].cb && x.points == s[i].points
            },
    decreases s.len(),
{
    if s.len() > 0 {
        let p = s.drop_last();
        assert forall|i: int| 0 <= i < p.len() implies (#[trigger] p[i]).frame + frame <= u32::MAX by {
            assert(p[i] == s[i]);
        }
        law_pasted_lasers(p, frame);
        assert(s[s.len() - 1] == s.last());
    }
}

proof fn lemma_distinct(s: Seq<u8>, x: u8)
    ensures
        distinct(s).contains(x) <==> s.contains(x),
    decreases s.len(),
{
    if s.len() > 0 {
        let p = s.drop_last();
        lemma_distinct(p, x);
        assert forall|y: u8| #[trigger] s.contains(y) <==> p.contains(y) || y == s.last() by {
            if s.contains(y) {
                let k = choose|k: int| 0 <= k < s.len() && s[k] == y;
                if k < p.len() {
                    assert(p[k] == y);
                }
            }
            if p.contains(y) {
                let k = choose|k: int| 0 <= k < p.len() && p[k] == y;
                assert(s[k] == y);
            }
            assert(s[s.len() - 1] == s.last());
        }
        let d = distinct(p);
        if d.contains(x) {
            let k = choose|k: int| 0 <= k < d.len() && d[k] == x;
            assert(d.push(s.last())[k] == x);
        }
        assert(d.push(s.last())[d.len() as int] == s.last());
        if !d.contains(s.last()) && d.push(s.last()).contains(x) {
            let k = choose|k: int| 0 <= k < d.push(s.last()).len() && d.push(s.last())[k] == x;
            if k < d.len() {
                assert(d[k] == x);
            }
        }
    }
}

/// A stamp first empties the frames that it covers, as far as the timeline goes, of the
/// channels that it holds keyframes of, and of no others.
pub proof fn law_stamp_clears(cb: Clipboard, base_frame: u32, nf: u32, channel: u8, f: int)
    requires
        cb.frame_span >= 1,
        base_frame + cb.frame_span <= u32::MAX,
        0 <= f < nf,
    ensures
        ({
            let c = stamp_clear(cb, base_frame, nf);
            let under = base_frame <= f < base_frame + cb.frame_span;
            &&& takes(c, FixtureKind::Laser, channel, f) <==> under && exists|i: int|
                0 <= i < cb.lasers@.len() && (#[trigger] cb.lasers@[i]).channel == channel
            &&& takes(c, FixtureKind::Turret, channel, f) <==> under && exists|i: int|
                0 <= i < cb.turrets@.len() && (#[trigger] cb.turrets@[i]).channel == channel
            &&& takes(c, FixtureKind::Projector, channel, f) <==> under && cb.projectors@.len() > 0
        }),
{
    let ls = cb.lasers@.map_values(|k: crate::rows::LaserKeyframeInput| k.channel);
    let ts = cb.turrets@.map_values(|k: TurretKeyframeInput| k.channel);
    lemma_distinct(ls, channel);
    lemma_distinct(ts, channel);
    assert(ls.contains(channel) <==> exists|i: int| 0 <= i < cb.lasers@.len() && (#[trigger] cb.lasers@[i]).channel == channel) by {
        if ls.contains(channel) {
            let k = choose|k: int| 0 <= k < ls.len() && ls[k] == channel;
            assert(cb.lasers@[k].channel == channel);
        }
        assert forall|i: int| 0 <= i < cb.lasers@.len() && (#[trigger] cb.lasers@[i]).channel == channel implies ls.contains(channel) by {
            assert(ls[i] == channel);
        }
    }
    assert(ts.contains(channel) <==> exists|i: int| 0 <= i < cb.turrets@.len() && (#[trigger] cb.turrets@[i]).channel == channel) by {
        if ts.contains(channel) {
            let k = choose|k: int| 0 <= k < ts.len() && ts[k] == channel;
            assert(cb.turrets@[k].channel == channel);
        }
        assert forall|i: int| 0 <= i < cb.turrets@.len() && (#[trigger] cb.turrets@[i]).channel == channel implies ts.contains(channel) by {
            assert(ts[i] == channel);
        }
    }
    assert(stamp_end(base_frame, cb.frame_span, nf) <= base_frame + cb.frame_span - 1);
}

/// A paste puts a region down with its corner at a light and a frame: everything in it, as
/// many rows and frames further and with its values, and nothing else.
pub proof fn law_paste(plan: PastePlan, cb: Clipboard, base_light: u32, base_frame: u32, k: int)
    requires
        pastes(plan, cb, base_light, base_frame),
        forall|i: int|
            0 <= i < cb.lights@.len() ==> (#[trigger] cb.lights@[i]).light + base_light <= u32::MAX && cb.lights@[i].frame + base_frame
                <= u32::MAX,
        forall|i: int| 0 <= i < cb.lasers@.len() ==> (#[trigger] cb.lasers@[i]).frame + base_frame <= u32::MAX,
        forall|i: int| 0 <= i < cb.projectors@.len() ==> (#[trigger] cb.projectors@[i]).frame + base_frame <= u32::MAX,
        forall|i: int| 0 <= i < cb.turrets@.len() ==> (#[trigger] cb.turrets@[i]).frame + base_frame <= u32::MAX,
    ensures
        plan.lights@.len() == cb.lights@.len(),
        0 <= k < cb.lights@.len() ==> plan.lights@[k].light == cb.lights@[k].light + base_light && plan.lights@[k].frame == cb.lights@[k].frame
            + base_frame && plan.lights@[k].state == cb.lights@[k].state,
        plan.lasers@.len() == cb.lasers@.len(),
        0 <= k < cb.lasers@.len() ==> plan.lasers@[k].frame == cb.lasers@[k].frame + base_frame && plan.lasers@[k].channel
            == cb.lasers@[k].channel && plan.lasers@[k].enable == cb.lasers@[k].enable && plan.lasers@[k].pattern == cb.lasers@[k].pattern
            && plan.lasers@[k].points@ == cb.lasers@[k].points@,
        plan.projectors@.len() == cb.projectors@.len(),
        0 <= k < cb.projectors@.len() ==> plan.projectors@[k].frame == cb.projectors@[k].frame + base_frame && plan.projectors@[k].channel
            == cb.projectors@[k].channel && plan.projectors@[k].state == cb.projectors@[k].state && plan.projectors@[k].pattern
            == cb.projectors@[k].pattern,
        plan.turrets@.len() == cb.turrets@.len(),
        0 <= k < cb.turrets@.len() ==> plan.turrets@[k].frame == cb.turrets@[k].frame + base_frame && plan.turrets@[k].channel
            == cb.turrets@[k].channel && plan.turrets@[k].state == cb.turrets@[k].state && plan.turrets@[k].pan == cb.turrets@[k].pan
            && plan.turrets@[k].tilt == cb.turrets@[k].tilt,
{
    let ls = laser_views(cb.lasers@);
    let out = laser_views(plan.lasers@);
    assert(ls.len() == cb.lasers@.len() && out.len() == plan.lasers@.len());
    assert forall|i: int| 0 <= i < ls.len() implies (#[trigger] ls[i]).frame + base_frame <= u32::MAX by {
        assert(cb.lasers@[i].frame + base_frame <= u32::MAX);
    }
    law_pasted_lights(cb.lights@, base_light, base_frame);
    law_pasted_lasers(ls, base_frame);
    law_pasted_projectors(cb.projectors@, base_frame);
    law_pasted_turrets(cb.turrets@, base_frame);
    if 0 <= k < ls.len() {
        assert(ls[k] == cb.lasers@[k]@);
        assert(out[k] == plan.lasers@[k]@);
    }
}

/// A region is empty where it has neither lights nor fixtures. One can be saved exactly where
/// it is not empty and the name has a character other than white space.
pub proof fn law_blueprint(cb: Clipboard, name: Seq<char>)
    ensures
        nothing(cb) <==> cb.lights@.len() == 0 && cb.lasers@.len() == 0 && cb.projectors@.len() == 0 && cb.turrets@.len() == 0,
        blueprint_problem(cb, name) is None <==> !nothing(cb) && exists|i: int| 0 <= i < name.len() && !is_space(#[trigger] name[i]),
{
    let p = |c: char| is_space(c);
    let ends = law_trim(name, p);
    assert(trimmed(name) == trim_where(name, p));
    if trimmed(name).len() > 0 {
        assert(!is_space(name[ends.0]));
    } else {
        assert forall|i: int| 0 <= i < name.len() implies is_space(#[trigger] name[i]) by {
            assert(p(name[i]));
        }
    }
}

/// A move that goes nowhere does nothing.
pub proof fn law_no_move()
    ensures
        no_plan().lights.len() == 0 && no_plan().clears.len() == 0 && no_plan().lasers.len() == 0 && no_plan().turrets.len() == 0
            && no_plan().projectors.len() == 0,
{
}

} // verus!
