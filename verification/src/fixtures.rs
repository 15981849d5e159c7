//! The fixtures beside the lights: their timeline rows, their keyframe editor,
//! and the texts about them.
use crate::logic::{answer, channel_keys, expand_fixture_tracks, is_track};
use crate::patterns::{chan, get, spread, Pattern, PatternPoint};
use crate::regions::{find_in_effect, in_effect};
use crate::rows::{LaserKeyframe, LaserKeyframeView, LaserPoint, ProjectorKeyframe, TurretKeyframe};
use crate::state::{FixtureKind, FixtureTrack};
use crate::text::{decimal, push_decimal, push_str, text_of};
use vstd::prelude::*;

verus! {

broadcast use {vstd::seq::group_seq_axioms, vstd::string::group_string_axioms};

/// How many lasers there are.
pub const N_LASER: usize = 5;

/// How many turrets there are.
pub const N_TURRET: usize = 4;

/// How many projectors there are.
pub const N_PROJECTOR: usize = 1;

// ---- timeline rows ----------------------------------------------------------

/// A fixture keyframe edit that was sent and has not come back yet.
#[derive(Debug)]
pub enum PendingFixture {
    Laser(LaserKeyframe),
    Turret(TurretKeyframe),
    Projector(ProjectorKeyframe),
}

/// A keyframe as the timeline shows it.
#[derive(Clone, Copy, PartialEq, Eq, Structural, Debug)]
pub struct Mark {
    pub channel: u8,
    pub frame: u32,
    pub on: bool,
}

/// A laser keyframe as the timeline shows it: on where enabled with points.
pub open spec fn laser_mark(r: LaserKeyframe) -> Mark {
    Mark { channel: r.channel, frame: r.frame, on: r.enable && r.points@.len() > 0 }
}

/// A turret keyframe as the timeline shows it: on where its state is not zero.
pub open spec fn turret_mark(r: TurretKeyframe) -> Mark {
    Mark { channel: r.channel, frame: r.frame, on: r.state > 0 }
}

/// A projector keyframe as the timeline shows it: on where its state is not zero.
pub open spec fn projector_mark(r: ProjectorKeyframe) -> Mark {
    Mark { channel: r.channel, frame: r.frame, on: r.state > 0 }
}

/// The laser keyframes of a project.
pub open spec fn laser_marks(rows: Seq<LaserKeyframe>, project: u64) -> Seq<Mark>
    decreases rows.len(),
{
    if rows.len() == 0 {
        Seq::empty()
    } else {
        let rest = laser_marks(rows.drop_last(), project);
        if rows.last().project_id == project {
            rest.push(laser_mark(rows.last()))
        } else {
            rest
        }
    }
}

/// The turret keyframes of a project.
pub open spec fn turret_marks(rows: Seq<TurretKeyframe>, project: u64) -> Seq<Mark>
    decreases rows.len(),
{
    if rows.len() == 0 {
        Seq::empty()
    } else {
        let rest = turret_marks(rows.drop_last(), project);
        if rows.last().project_id == project {
            rest.push(turret_mark(rows.last()))
        } else {
            rest
        }
    }
}

/// The projector keyframes of a project.
pub open spec fn projector_marks(rows: Seq<ProjectorKeyframe>, project: u64) -> Seq<Mark>
    decreases rows.len(),
{
    if rows.len() == 0 {
        Seq::empty()
    } else {
        let rest = projector_marks(rows.drop_last(), project);
        if rows.last().project_id == project {
            rest.push(projector_mark(rows.last()))
        } else {
            rest
        }
    }
}

/// The pending edit as a keyframe of one kind in the project.
pub open spec fn pending_mark(p: PendingFixture, project: u64, kind: FixtureKind) -> Option<Mark> {
    match p {
        PendingFixture::Laser(r) => if kind is Laser && r.project_id == project {
            Some(laser_mark(r))
        } else {
            None
        },
        PendingFixture::Turret(r) => if kind is Turret && r.project_id == project {
            Some(turret_mark(r))
        } else {
            None
        },
        PendingFixture::Projector(r) => if kind is Projector && r.project_id == project {
            Some(projector_mark(r))
        } else {
            None
        },
    }
}

/// The marks without those of the same channel and frame as `m`.
pub open spec fn without_mark(marks: Seq<Mark>, m: Mark) -> Seq<Mark>
    decreases marks.len(),
{
    if marks.len() == 0 {
        Seq::empty()
    } else {
        let rest = without_mark(marks.drop_last(), m);
        if marks.last().channel == m.channel && marks.last().frame == m.frame {
            rest
        } else {
            rest.push(marks.last())
        }
    }
}

/// The marks with the pending edits of one kind spliced in, each in place of the
/// keyframe of its channel and frame.
pub open spec fn spliced(marks: Seq<Mark>, pending: Seq<PendingFixture>, project: u64, kind: FixtureKind) -> Seq<Mark>
    decreases pending.len(),
{
    if pending.len() == 0 {
        marks
    } else {
        let rest = spliced(marks, pending.drop_last(), project, kind);
        match pending_mark(pending.last(), project, kind) {
            Some(m) => without_mark(rest, m).push(m),
            None => rest,
        }
    }
}

/// The keyframes of one channel as `(frame, on)`.
pub open spec fn mark_keys(marks: Seq<Mark>, channel: int) -> Seq<(u32, bool)>
    decreases marks.len(),
{
    if marks.len() == 0 {
        Seq::empty()
    } else {
        let rest = mark_keys(marks.drop_last(), channel);
        if marks.last().channel == channel {
            rest.push((marks.last().frame, marks.last().on))
        } else {
            rest
        }
    }
}

fn drop_mark(marks: &Vec<Mark>, m: Mark) -> (r: Vec<Mark>)
    ensures
        r@ == without_mark(marks@, m),
{
    let mut out: Vec<Mark> = Vec::new();
    let mut i: usize = 0;
    while i < marks.len()
        invariant
            i <= marks@.len(),
            out@ == without_mark(marks@.take(i as int), m),
        decreases marks@.len() - i,
    {
        let k: Mark = marks[i];
        assert(marks@.take(i + 1).drop_last() =~= marks@.take(i as int));
        if !(k.channel == m.channel && k.frame == m.frame) {
            out.push(k);
        }
        i = i + 1;
    }
    assert(marks@.take(marks@.len() as int) =~= marks@);
    out
}

fn mark_of(p: &PendingFixture, project: u64, kind: FixtureKind) -> (r: Option<Mark>)
    ensures
        r == pending_mark(*p, project, kind),
{
    match p {
        PendingFixture::Laser(r) => {
            if kind == FixtureKind::Laser && r.project_id == project {
                Some(Mark { channel: r.channel, frame: r.frame, on: r.enable && r.points.len() > 0 })
            } else {
                None
            }
        },
        PendingFixture::Turret(r) => {
            if kind == FixtureKind::Turret && r.project_id == project {
                Some(Mark { channel: r.channel, frame: r.frame, on: r.state > 0 })
            } else {
                None
            }
        },
        PendingFixture::Projector(r) => {
            if kind == FixtureKind::Projector && r.project_id == project {
                Some(Mark { channel: r.channel, frame: r.frame, on: r.state > 0 })
            } else {
                None
            }
        },
    }
}

fn splice(marks: Vec<Mark>, pending: &Vec<PendingFixture>, project: u64, kind: FixtureKind) -> (r: Vec<Mark>)
    ensures
        r@ == spliced(marks@, pending@, project, kind),
{
    let ghost start = marks@;
    let mut out: Vec<Mark> = marks;
    let mut i: usize = 0;
    while i < pending.len()
        invariant
            i <= pending@.len(),
            out@ == spliced(start, pending@.take(i as int), project, kind),
        decreases pending@.len() - i,
    {
        assert(pending@.take(i + 1).drop_last() =~= pending@.take(i as int));
        let m: Option<Mark> = mark_of(&pending[i], project, kind);
        match m {
            Some(m) => {
                out = drop_mark(&out, m);
                out.push(m);
            },
            None => {},
        }
        i = i + 1;
    }
    assert(pending@.take(pending@.len() as int) =~= pending@);
    out
}

proof fn lemma_mark_keys<C: Fn(&Mark) -> u8, F: Fn(&Mark) -> u32, A: Fn(&Mark) -> bool>(
    marks: Seq<Mark>,
    channel_of: C,
    frame_of: F,
    active: A,
    c: int,
)
    requires
        forall|i: int| 0 <= i < marks.len() ==> answer(channel_of, #[trigger] marks[i]) == marks[i].channel,
        forall|i: int| 0 <= i < marks.len() ==> answer(frame_of, #[trigger] marks[i]) == marks[i].frame,
        forall|i: int| 0 <= i < marks.len() ==> answer(active, #[trigger] marks[i]) == marks[i].on,
    ensures
        channel_keys(marks, channel_of, frame_of, active, c) == mark_keys(marks, c),
    decreases marks.len(),
{
    if marks.len() > 0 {
        let p = marks.drop_last();
        assert forall|i: int| 0 <= i < p.len() implies answer(channel_of, #[trigger] p[i]) == p[i].channel by {
            assert(p[i] == marks[i]);
        }
        assert forall|i: int| 0 <= i < p.len() implies answer(frame_of, #[trigger] p[i]) == p[i].frame by {
            assert(p[i] == marks[i]);
        }
        assert forall|i: int| 0 <= i < p.len() implies answer(active, #[trigger] p[i]) == p[i].on by {
            assert(p[i] == marks[i]);
        }
        lemma_mark_keys(p, channel_of, frame_of, active, c);
        assert(marks[marks.len() - 1] == marks.last());
    }
}

/// The tracks of the first channels of some marks.
fn mark_tracks(marks: &Vec<Mark>, channels: usize, nf: u32) -> (r: Vec<(Vec<bool>, Vec<u32>)>)
    ensures
        r@.len() == channels,
        forall|c: int| 0 <= c < channels ==> is_track(mark_keys(marks@, c), nf as nat, (#[trigger] r@[c]).0@, r@[c].1@),
{
    let channel_of = |m: &Mark| -> (r: u8)
        ensures
            r == m.channel,
        { m.channel };
    let frame_of = |m: &Mark| -> (r: u32)
        ensures
            r == m.frame,
        { m.frame };
    let active = |m: &Mark| -> (r: bool)
        ensures
            r == m.on,
        { m.on };
    let r: Vec<(Vec<bool>, Vec<u32>)> = expand_fixture_tracks(marks.as_slice(), channels, nf, channel_of, frame_of, active);
    proof {
        assert forall|c: int| 0 <= c < channels implies is_track(mark_keys(marks@, c), nf as nat, (#[trigger] r@[c]).0@, r@[c].1@) by {
            lemma_mark_keys(marks@, channel_of, frame_of, active, c);
        }
    }
    r
}

/// The name of a fixture's row.
pub open spec fn fixture_name(kind: FixtureKind, channel: u8) -> Seq<char> {
    match kind {
        FixtureKind::Laser => "Laser "@ + decimal((channel + 1) as nat),
        FixtureKind::Turret => "Turret "@ + decimal((channel + 1) as nat),
        FixtureKind::Projector => "Laser Projector"@,
    }
}

fn push_name(out: &mut Vec<char>, kind: FixtureKind, channel: u8)
    ensures
        final(out)@ == old(out)@ + fixture_name(kind, channel),
{
    match kind {
        FixtureKind::Laser => {
            push_str(out, "Laser ");
            push_decimal(out, channel as u64 + 1);
        },
        FixtureKind::Turret => {
            push_str(out, "Turret ");
            push_decimal(out, channel as u64 + 1);
        },
        FixtureKind::Projector => {
            push_str(out, "Laser Projector");
        },
    }
    assert(out@ =~= old(out)@ + fixture_name(kind, channel));
}

/// The name of a fixture's row, numbered from one.
pub fn fixture_label(kind: FixtureKind, channel: u8) -> (r: String)
    ensures
        r@ == fixture_name(kind, channel),
{
    let mut out: Vec<char> = Vec::new();
    push_name(&mut out, kind, channel);
    assert(out@ =~= fixture_name(kind, channel));
    text_of(&out)
}

/// The row shows the marks of this channel.
pub open spec fn shows(t: FixtureTrack, kind: FixtureKind, channel: int, marks: Seq<Mark>, nf: u32) -> bool {
    &&& t.kind == kind
    &&& t.channel == channel
    &&& t.label@ == fixture_name(kind, channel as u8)
    &&& is_track(mark_keys(marks, channel), nf as nat, t.held@, t.keyframes@)
}

fn push_tracks(out: &mut Vec<FixtureTrack>, kind: FixtureKind, marks: &Vec<Mark>, channels: usize, nf: u32)
    requires
        channels <= 255,
    ensures
        final(out)@.len() == old(out)@.len() + channels,
        forall|i: int| 0 <= i < old(out)@.len() ==> #[trigger] final(out)@[i] == old(out)@[i],
        forall|c: int| 0 <= c < channels ==> shows(#[trigger] final(out)@[old(out)@.len() + c], kind, c, marks@, nf),
{
    let ghost start = out@;
    let mut tracks: Vec<(Vec<bool>, Vec<u32>)> = mark_tracks(marks, channels, nf);
    let ghost all = tracks@;
    let mut c: usize = 0;
    while c < channels
        invariant
            c <= channels <= 255,
            all.len() == channels,
            tracks@.len() == channels - c,
            forall|k: int| 0 <= k < channels - c ==> #[trigger] tracks@[k] == all[c + k],
            forall|k: int| 0 <= k < channels ==> is_track(mark_keys(marks@, k), nf as nat, (#[trigger] all[k]).0@, all[k].1@),
            out@.len() == start.len() + c,
            forall|i: int| 0 <= i < start.len() ==> #[trigger] out@[i] == start[i],
            forall|k: int| 0 <= k < c ==> shows(#[trigger] out@[start.len() + k], kind, k, marks@, nf),
        decreases channels - c,
    {
        let ghost before = out@;
        let ghost left = tracks@;
        let t: (Vec<bool>, Vec<u32>) = tracks.remove(0);
        assert(t == all[c as int]) by {
            assert(left[0] == all[c + 0]);
        }
        let label: String = fixture_label(kind, c as u8);
        out.push(FixtureTrack { label, held: t.0, keyframes: t.1, kind, channel: c as u8 });
        proof {
            assert forall|k: int| 0 <= k < channels - c - 1 implies #[trigger] tracks@[k] == all[c + 1 + k] by {
                assert(tracks@[k] == left[k + 1]);
                assert(left[k + 1] == all[c + (k + 1)]);
            }
            assert forall|k: int| 0 <= k < c + 1 implies shows(#[trigger] out@[start.len() + k], kind, k, marks@, nf) by {
                if k < c {
                    assert(out@[start.len() + k] == before[start.len() + k]);
                }
            }
        }
        c = c + 1;
    }
}

/// The rows of a project's fixtures: always every channel, the lasers first, then
/// the turrets, then the projector. Edits not yet acknowledged are spliced in.
pub fn build_fixture_tracks(
    lasers: &Vec<LaserKeyframe>,
    turrets: &Vec<TurretKeyframe>,
    projectors: &Vec<ProjectorKeyframe>,
    project_id: u64,
    nf: u32,
    pending: &Vec<PendingFixture>,
) -> (r: Vec<FixtureTrack>)
    ensures
        r@.len() == N_LASER + N_TURRET + N_PROJECTOR,
        forall|c: int|
            0 <= c < N_LASER ==> shows(
                #[trigger] r@[c],
                FixtureKind::Laser,
                c,
                spliced(laser_marks(lasers@, project_id), pending@, project_id, FixtureKind::Laser),
                nf,
            ),
        forall|c: int|
            0 <= c < N_TURRET ==> shows(
                #[trigger] r@[N_LASER + c],
                FixtureKind::Turret,
                c,
                spliced(turret_marks(turrets@, project_id), pending@, project_id, FixtureKind::Turret),
                nf,
            ),
        shows(
            r@[N_LASER + N_TURRET],
            FixtureKind::Projector,
            0,
            spliced(projector_marks(projectors@, project_id), pending@, project_id, FixtureKind::Projector),
            nf,
        ),
{
    let mut lm: Vec<Mark> = Vec::new();
    let mut i: usize = 0;
    while i < lasers.len()
        invariant
            i <= lasers@.len(),
            lm@ == laser_marks(lasers@.take(i as int), project_id),
        decreases lasers@.len() - i,
    {
        let r: &LaserKeyframe = &lasers[i];
        assert(lasers@.take(i + 1).drop_last() =~= lasers@.take(i as int));
        if r.project_id == project_id {
            lm.push(Mark { channel: r.channel, frame: r.frame, on: r.enable && r.points.len() > 0 });
        }
        i = i + 1;
    }
    assert(lasers@.take(lasers@.len() as int) =~= lasers@);
    let mut tm: Vec<Mark> = Vec::new();
    let mut i: usize = 0;
    while i < turrets.len()
        invariant
            i <= turrets@.len(),
            tm@ == turret_marks(turrets@.take(i as int), project_id),
        decreases turrets@.len() - i,
    {
        let r: TurretKeyframe = turrets[i];
        assert(turrets@.take(i + 1).drop_last() =~= turrets@.take(i as int));
        if r.project_id == project_id {
            tm.push(Mark { channel: r.channel, frame: r.frame, on: r.state > 0 });
        }
        i = i + 1;
    }
    assert(turrets@.take(turrets@.len() as int) =~= turrets@);
    let mut pm: Vec<Mark> = Vec::new();
    let mut i: usize = 0;
    while i < projectors.len()
        invariant
            i <= projectors@.len(),
            pm@ == projector_marks(projectors@.take(i as int), project_id),
        decreases projectors@.len() - i,
    {
        let r: ProjectorKeyframe = projectors[i];
        assert(projectors@.take(i + 1).drop_last() =~= projectors@.take(i as int));
        if r.project_id == project_id {
            pm.push(Mark { channel: r.channel, frame: r.frame, on: r.state > 0 });
        }
        i = i + 1;
    }
    assert(projectors@.take(projectors@.len() as int) =~= projectors@);
    let lm: Vec<Mark> = splice(lm, pending, project_id, FixtureKind::Laser);
    let tm: Vec<Mark> = splice(tm, pending, project_id, FixtureKind::Turret);
    let pm: Vec<Mark> = splice(pm, pending, project_id, FixtureKind::Projector);
    let mut out: Vec<FixtureTrack> = Vec::new();
    push_tracks(&mut out, FixtureKind::Laser, &lm, N_LASER, nf);
    let ghost a = out@;
    assert forall|c: int| 0 <= c < N_LASER implies shows(#[trigger] a[c], FixtureKind::Laser, c, lm@, nf) by {
        assert(a[c] == a[0int + c]);
    }
    push_tracks(&mut out, FixtureKind::Turret, &tm, N_TURRET, nf);
    let ghost b = out@;
    push_tracks(&mut out, FixtureKind::Projector, &pm, N_PROJECTOR, nf);
    proof {
        assert forall|c: int| 0 <= c < N_LASER implies shows(#[trigger] out@[c], FixtureKind::Laser, c, lm@, nf) by {
            assert(out@[c] == b[c]);
            assert(b[c] == a[c]);
        }
        assert forall|c: int| 0 <= c < N_TURRET implies shows(#[trigger] out@[N_LASER + c], FixtureKind::Turret, c, tm@, nf) by {
            assert(out@[N_LASER + c] == b[N_LASER + c]);
        }
        assert(shows(out@[b.len() + 0int], FixtureKind::Projector, 0, pm@, nf));
    }
    out
}

// ---- acknowledged edits -----------------------------------------------------

/// Some row matches the pending edit in its key fields. A laser's points are not
/// compared, since the backend fills them in.
pub open spec fn echoed(
    p: PendingFixture,
    project: u64,
    lasers: Seq<LaserKeyframe>,
    turrets: Seq<TurretKeyframe>,
    projectors: Seq<ProjectorKeyframe>,
) -> bool {
    match p {
        PendingFixture::Laser(p) => exists|i: int|
            0 <= i < lasers.len() && same_laser(#[trigger] lasers[i], p, project),
        PendingFixture::Turret(p) => exists|i: int|
            0 <= i < turrets.len() && same_turret(#[trigger] turrets[i], p, project),
        PendingFixture::Projector(p) => exists|i: int|
            0 <= i < projectors.len() && same_projector(#[trigger] projectors[i], p, project),
    }
}

/// The rows agree in their key fields.
pub open spec fn same_laser(r: LaserKeyframe, p: LaserKeyframe, project: u64) -> bool {
    r.project_id == project && r.channel == p.channel && r.frame == p.frame && r.enable == p.enable && r.pattern == p.pattern && r.cr
        == p.cr && r.cg == p.cg && r.cb == p.cb
}

/// The rows agree in their key fields.
pub open spec fn same_turret(r: TurretKeyframe, p: TurretKeyframe, project: u64) -> bool {
    r.project_id == project && r.channel == p.channel && r.frame == p.frame && r.state == p.state && r.pan == p.pan && r.tilt == p.tilt
}

/// The rows agree in their key fields.
pub open spec fn same_projector(r: ProjectorKeyframe, p: ProjectorKeyframe, project: u64) -> bool {
    r.project_id == project && r.channel == p.channel && r.frame == p.frame && r.state == p.state && r.gallery == p.gallery && r.pattern
        == p.pattern && r.colour == p.colour
}

/// Whether the backend has sent back a row that matches the pending edit.
pub fn fixture_echoed(
    pf: &PendingFixture,
    project_id: u64,
    lasers: &Vec<LaserKeyframe>,
    turrets: &Vec<TurretKeyframe>,
    projectors: &Vec<ProjectorKeyframe>,
) -> (r: bool)
    ensures
        r == echoed(*pf, project_id, lasers@, turrets@, projectors@),
{
    match pf {
        PendingFixture::Laser(p) => {
            let mut i: usize = 0;
            while i < lasers.len()
                invariant
                    i <= lasers@.len(),
                    *pf == PendingFixture::Laser(*p),
                    forall|j: int| 0 <= j < i ==> !same_laser(#[trigger] lasers@[j], *p, project_id),
                decreases lasers@.len() - i,
            {
                let r: &LaserKeyframe = &lasers[i];
                if r.project_id == project_id && r.channel == p.channel && r.frame == p.frame && r.enable == p.enable && r.pattern
                    == p.pattern && r.cr == p.cr && r.cg == p.cg && r.cb == p.cb {
                    assert(same_laser(lasers@[i as int], *p, project_id));
                    return true;
                }
                i = i + 1;
            }
            false
        },
        PendingFixture::Turret(p) => {
            let mut i: usize = 0;
            while i < turrets.len()
                invariant
                    i <= turrets@.len(),
                    *pf == PendingFixture::Turret(*p),
                    forall|j: int| 0 <= j < i ==> !same_turret(#[trigger] turrets@[j], *p, project_id),
                decreases turrets@.len() - i,
            {
                let r: &TurretKeyframe = &turrets[i];
                if r.project_id == project_id && r.channel == p.channel && r.frame == p.frame && r.state == p.state && r.pan == p.pan
                    && r.tilt == p.tilt {
                    assert(same_turret(turrets@[i as int], *p, project_id));
                    return true;
                }
                i = i + 1;
            }
            false
        },
        PendingFixture::Projector(p) => {
            let mut i: usize = 0;
            while i < projectors.len()
                invariant
                    i <= projectors@.len(),
                    *pf == PendingFixture::Projector(*p),
                    forall|j: int| 0 <= j < i ==> !same_projector(#[trigger] projectors@[j], *p, project_id),
                decreases projectors@.len() - i,
            {
                let r: &ProjectorKeyframe = &projectors[i];
                if r.project_id == project_id && r.channel == p.channel && r.frame == p.frame && r.state == p.state && r.gallery
                    == p.gallery && r.pattern == p.pattern && r.colour == p.colour {
                    assert(same_projector(projectors@[i as int], *p, project_id));
                    return true;
                }
                i = i + 1;
            }
            false
        },
    }
}

/// The pending edits that the backend has not sent back.
pub open spec fn unechoed(
    pending: Seq<PendingFixture>,
    project: u64,
    lasers: Seq<LaserKeyframe>,
    turrets: Seq<TurretKeyframe>,
    projectors: Seq<ProjectorKeyframe>,
) -> Seq<PendingFixture>
    decreases pending.len(),
{
    if pending.len() == 0 {
        Seq::empty()
    } else {
        let rest = unechoed(pending.drop_first(), project, lasers, turrets, projectors);
        if echoed(pending[0], project, lasers, turrets, projectors) {
            rest
        } else {
            seq![pending[0]] + rest
        }
    }
}

/// Drops the pending edits whose row has come back.
pub fn clear_echoed_fixtures(
    pending: &mut Vec<PendingFixture>,
    project_id: u64,
    lasers: &Vec<LaserKeyframe>,
    turrets: &Vec<TurretKeyframe>,
    projectors: &Vec<ProjectorKeyframe>,
)
    ensures
        final(pending)@ == unechoed(old(pending)@, project_id, lasers@, turrets@, projectors@),
{
    let ghost all = pending@;
    let mut i: usize = pending.len();
    assert(all.take(i as int) + unechoed(all.skip(i as int), project_id, lasers@, turrets@, projectors@) =~= all);
    while i > 0
        invariant
            i <= all.len(),
            i <= pending@.len(),
            pending@ == all.take(i as int) + unechoed(all.skip(i as int), project_id, lasers@, turrets@, projectors@),
        decreases i,
    {
        let ghost rest = unechoed(all.skip(i as int), project_id, lasers@, turrets@, projectors@);
        let ghost before = pending@;
        i = i - 1;
        assert(pending@[i as int] == all[i as int]);
        assert(all.skip(i as int).drop_first() =~= all.skip(i + 1));
        if fixture_echoed(&pending[i], project_id, lasers, turrets, projectors) {
            pending.remove(i);
            proof {
                before.remove_ensures(i as int);
                assert(pending@ =~= all.take(i as int) + rest);
            }
        } else {
            assert(pending@ =~= all.take(i as int) + (seq![all[i as int]] + rest));
        }
    }
    assert(all.skip(0) =~= all);
    assert(pending@ =~= unechoed(all, project_id, lasers@, turrets@, projectors@));
}

// ---- the keyframe editor ----------------------------------------------------

/// The draft of a fixture keyframe.
#[derive(Clone, Copy, PartialEq, Eq, Debug)]
pub struct FixtureEditor {
    pub kind: FixtureKind,
    pub channel: u8,
    pub frame: u32,
    pub laser_enable: bool,
    pub laser_pattern: u8,
    /// Red, green and blue, 0 to 255.
    pub laser_color: (u8, u8, u8),
    pub turret_on: bool,
    pub turret_pan: u8,
    pub turret_tilt: u8,
    pub proj_on: bool,
    pub proj_gallery: u8,
    pub proj_pattern: u8,
    pub proj_colour: u8,
}

/// A draft before anything is loaded into it.
pub open spec fn blank_editor(kind: FixtureKind, channel: u8, frame: u32) -> FixtureEditor {
    FixtureEditor {
        kind,
        channel,
        frame,
        laser_enable: true,
        laser_pattern: 0,
        laser_color: (255, 255, 255),
        turret_on: true,
        turret_pan: 128,
        turret_tilt: 128,
        proj_on: true,
        proj_gallery: 0,
        proj_pattern: 0,
        proj_colour: 0,
    }
}

/// The draft for a cell: that of the keyframe in effect there.
pub open spec fn loaded_editor(
    lasers: Seq<LaserKeyframe>,
    turrets: Seq<TurretKeyframe>,
    projectors: Seq<ProjectorKeyframe>,
    project: u64,
    kind: FixtureKind,
    channel: u8,
    frame: u32,
) -> FixtureEditor {
    let ed = blank_editor(kind, channel, frame);
    match kind {
        FixtureKind::Laser => match in_effect(lasers, project, channel, frame) {
            Some(i) => FixtureEditor {
                laser_enable: lasers[i].enable,
                laser_pattern: lasers[i].pattern,
                laser_color: (spread(lasers[i].cr) as u8, spread(lasers[i].cg) as u8, spread(lasers[i].cb) as u8),
                ..ed
            },
            None => ed,
        },
        FixtureKind::Turret => match in_effect(turrets, project, channel, frame) {
            Some(i) => FixtureEditor {
                turret_on: turrets[i].state > 0,
                turret_pan: turrets[i].pan,
                turret_tilt: turrets[i].tilt,
                ..ed
            },
            None => ed,
        },
        FixtureKind::Projector => match in_effect(projectors, project, channel, frame) {
            Some(i) => FixtureEditor {
                proj_on: projectors[i].state > 0,
                proj_gallery: projectors[i].gallery,
                proj_pattern: projectors[i].pattern,
                proj_colour: projectors[i].colour,
                ..ed
            },
            None => ed,
        },
    }
}

/// A 3-bit channel spread over 0 to 255, for the colour picker.
pub fn expand3(c: u8) -> (r: u8)
    ensures
        r == spread(c),
{
    chan(c)
}

/// A channel of 0 to 255 brought to 3 bits, rounded to the nearest.
pub open spec fn narrowed(c: u8) -> int {
    (14 * c + 255) / 510
}

/// A channel of 0 to 255 brought to 3 bits, for storage.
pub fn quant3(c: u8) -> (r: u8)
    ensures
        r == narrowed(c),
        r <= 7,
{
    ((14 * c as u32 + 255) / 510) as u8
}

/// A stored colour survives the editor: spreading it and bringing it back gives
/// the same 3 bits.
pub proof fn law_colour_round_trip(c: u8)
    requires
        c <= 7,
    ensures
        0 <= spread(c) <= 255,
        narrowed(spread(c) as u8) == c,
{
}

/// Loads the draft for a cell from the keyframe in effect there.
pub fn load_fixture_editor(
    lasers: &Vec<LaserKeyframe>,
    turrets: &Vec<TurretKeyframe>,
    projectors: &Vec<ProjectorKeyframe>,
    project_id: u64,
    kind: FixtureKind,
    channel: u8,
    frame: u32,
) -> (r: FixtureEditor)
    ensures
        r == loaded_editor(lasers@, turrets@, projectors@, project_id, kind, channel, frame),
{
    let mut ed: FixtureEditor = FixtureEditor {
        kind,
        channel,
        frame,
        laser_enable: true,
        laser_pattern: 0,
        laser_color: (255, 255, 255),
        turret_on: true,
        turret_pan: 128,
        turret_tilt: 128,
        proj_on: true,
        proj_gallery: 0,
        proj_pattern: 0,
        proj_colour: 0,
    };
    match kind {
        FixtureKind::Laser => {
            let i: Option<usize> = find_in_effect(lasers.as_slice(), project_id, channel, frame);
            match i {
                Some(i) => {
                    let r: &LaserKeyframe = &lasers[i];
                    ed.laser_enable = r.enable;
                    ed.laser_pattern = r.pattern;
                    ed.laser_color = (expand3(r.cr), expand3(r.cg), expand3(r.cb));
                },
                None => {},
            }
        },
        FixtureKind::Turret => {
            let i: Option<usize> = find_in_effect(turrets.as_slice(), project_id, channel, frame);
            match i {
                Some(i) => {
                    let r: TurretKeyframe = turrets[i];
                    ed.turret_on = r.state > 0;
                    ed.turret_pan = r.pan;
                    ed.turret_tilt = r.tilt;
                },
                None => {},
            }
        },
        FixtureKind::Projector => {
            let i: Option<usize> = find_in_effect(projectors.as_slice(), project_id, channel, frame);
            match i {
                Some(i) => {
                    let r: ProjectorKeyframe = projectors[i];
                    ed.proj_on = r.state > 0;
                    ed.proj_gallery = r.gallery;
                    ed.proj_pattern = r.pattern;
                    ed.proj_colour = r.colour;
                },
                None => {},
            }
        },
    }
    ed
}

/// A pattern's points in one colour.
pub open spec fn tinted(points: Seq<PatternPoint>, r: u8, g: u8, b: u8) -> Seq<LaserPoint> {
    points.map_values(|p: PatternPoint| LaserPoint { x: p.x, y: p.y, r, g, b })
}

/// The state byte of a fixture that is on or off.
pub open spec fn state_byte(on: bool) -> u8 {
    if on {
        255
    } else {
        0
    }
}

/// The laser row that a draft makes: the library's shape in the draft's colour.
pub open spec fn drafted_laser(ed: FixtureEditor, project: u64, lib: Seq<Pattern>) -> LaserKeyframeView {
    let cr = narrowed(ed.laser_color.0) as u8;
    let cg = narrowed(ed.laser_color.1) as u8;
    let cb = narrowed(ed.laser_color.2) as u8;
    LaserKeyframeView {
        id: 0,
        project_id: project,
        frame: ed.frame,
        channel: ed.channel,
        enable: ed.laser_enable,
        pattern: ed.laser_pattern,
        cr,
        cg,
        cb,
        points: if ed.laser_pattern < lib.len() {
            tinted(lib[ed.laser_pattern as int].points@, cr, cg, cb)
        } else {
            Seq::empty()
        },
    }
}

/// The turret row that a draft makes.
pub open spec fn drafted_turret(ed: FixtureEditor, project: u64) -> TurretKeyframe {
    TurretKeyframe {
        id: 0,
        project_id: project,
        frame: ed.frame,
        channel: ed.channel,
        state: state_byte(ed.turret_on),
        pan: ed.turret_pan,
        tilt: ed.turret_tilt,
    }
}

/// The projector row that a draft makes.
pub open spec fn drafted_projector(ed: FixtureEditor, project: u64) -> ProjectorKeyframe {
    ProjectorKeyframe {
        id: 0,
        project_id: project,
        frame: ed.frame,
        channel: ed.channel,
        state: state_byte(ed.proj_on),
        gallery: ed.proj_gallery,
        pattern: ed.proj_pattern,
        colour: ed.proj_colour,
    }
}

/// The row that a draft makes, to send and to show until it comes back.
pub fn apply_fixture_edit(ed: &FixtureEditor, project_id: u64, lib: &Vec<Pattern>) -> (r: PendingFixture)
    ensures
        match ed.kind {
            FixtureKind::Laser => r matches PendingFixture::Laser(k) && k@ == drafted_laser(*ed, project_id, lib@),
            FixtureKind::Turret => r == PendingFixture::Turret(drafted_turret(*ed, project_id)),
            FixtureKind::Projector => r == PendingFixture::Projector(drafted_projector(*ed, project_id)),
        },
{
    match ed.kind {
        FixtureKind::Laser => {
            let cr: u8 = quant3(ed.laser_color.0);
            let cg: u8 = quant3(ed.laser_color.1);
            let cb: u8 = quant3(ed.laser_color.2);
            let mut points: Vec<LaserPoint> = Vec::new();
            let shape: Option<&Pattern> = get(lib, ed.laser_pattern);
            match shape {
                Some(shape) => {
                    let mut i: usize = 0;
                    while i < shape.points.len()
                        invariant
                            i <= shape.points@.len(),
                            points@ == tinted(shape.points@, cr, cg, cb).take(i as int),
                        decreases shape.points@.len() - i,
                    {
                        let p: PatternPoint = shape.points[i];
                        points.push(LaserPoint { x: p.x, y: p.y, r: cr, g: cg, b: cb });
                        i = i + 1;
                        assert(points@ =~= tinted(shape.points@, cr, cg, cb).take(i as int));
                    }
                    assert(points@ =~= tinted(shape.points@, cr, cg, cb));
                },
                None => {},
            }
            PendingFixture::Laser(
                LaserKeyframe {
                    id: 0,
                    project_id,
                    frame: ed.frame,
                    channel: ed.channel,
                    enable: ed.laser_enable,
                    pattern: ed.laser_pattern,
                    cr,
                    cg,
                    cb,
                    points,
                },
            )
        },
        FixtureKind::Turret => {
            let state: u8 = if ed.turret_on { 255 } else { 0 };
            PendingFixture::Turret(
                TurretKeyframe {
                    id: 0,
                    project_id,
                    frame: ed.frame,
                    channel: ed.channel,
                    state,
                    pan: ed.turret_pan,
                    tilt: ed.turret_tilt,
                },
            )
        },
        FixtureKind::Projector => {
            let state: u8 = if ed.proj_on { 255 } else { 0 };
            PendingFixture::Projector(
                ProjectorKeyframe {
                    id: 0,
                    project_id,
                    frame: ed.frame,
                    channel: ed.channel,
                    state,
                    gallery: ed.proj_gallery,
                    pattern: ed.proj_pattern,
                    colour: ed.proj_colour,
                },
            )
        },
    }
}

} // verus!
