//! Operations on a selected region of the grid: copy, delete, stamp and move.
use crate::editing::{fill, filled, light_kfs, reconcile_light_edits, rows_edits};
use crate::logic::{grid_view, held_grid, overlaid, Keyframes};
use crate::rows::{
    copy_vec, LaserInputView, LaserKeyframe, LaserKeyframeInput, LightEditInput, ProjectorKeyframe, ProjectorKeyframeInput,
    TurretKeyframe, TurretKeyframeInput,
};
use crate::state::{laser_views, Clipboard, FixtureKind, FixtureRow, FixtureTrack, GridSelection};
use vstd::prelude::*;

verus! {

broadcast use vstd::seq::group_seq_axioms;

// ---- picking a channel's keyframes ------------------------------------------

/// The row is a keyframe of this channel of the project.
pub open spec fn of_channel<T: FixtureRow>(r: T, project: u64, channel: u8) -> bool {
    r.project_of() == project && r.channel_of() == channel
}

/// The keyframe of a channel in effect at `frame`: the latest not after it, and
/// of several the last.
pub open spec fn in_effect<T: FixtureRow>(rows: Seq<T>, project: u64, channel: u8, frame: u32) -> Option<int>
    decreases rows.len(),
{
    if rows.len() == 0 {
        None
    } else {
        let best = in_effect(rows.drop_last(), project, channel, frame);
        let r = rows.last();
        if of_channel(r, project, channel) && r.frame_of() <= frame && (best is None || rows[best->0].frame_of() <= r.frame_of()) {
            Some(rows.len() - 1)
        } else {
            best
        }
    }
}

/// Finds the keyframe of a channel in effect at `frame`.
pub fn find_in_effect<T: FixtureRow>(rows: &[T], project: u64, channel: u8, frame: u32) -> (r: Option<usize>)
    ensures
        match r {
            Some(i) => i < rows@.len() && in_effect(rows@, project, channel, frame) == Some(i as int),
            None => in_effect(rows@, project, channel, frame) is None,
        },
{
    let mut best: Option<usize> = None;
    let mut i: usize = 0;
    while i < rows.len()
        invariant
            i <= rows@.len(),
            match best {
                Some(b) => b < i && in_effect(rows@.take(i as int), project, channel, frame) == Some(b as int),
                None => in_effect(rows@.take(i as int), project, channel, frame) is None,
            },
        decreases rows@.len() - i,
    {
        assert(rows@.take(i + 1).drop_last() =~= rows@.take(i as int));
        if rows[i].project() == project && rows[i].channel() == channel && rows[i].frame() <= frame {
            let later: bool = match best {
                Some(b) => rows[b].frame() <= rows[i].frame(),
                None => true,
            };
            if later {
                best = Some(i);
            }
        }
        i = i + 1;
    }
    assert(rows@.take(rows@.len() as int) =~= rows@);
    best
}

/// The keyframes of a channel strictly after `f0` and up to `f1`, relative to `f0`.
pub open spec fn inside<T: FixtureRow>(rows: Seq<T>, project: u64, channel: u8, f0: u32, f1: u32) -> Seq<<T::Input as View>::V>
    decreases rows.len(),
{
    if rows.len() == 0 {
        Seq::empty()
    } else {
        let rest = inside(rows.drop_last(), project, channel, f0, f1);
        let r = rows.last();
        if of_channel(r, project, channel) && f0 < r.frame_of() <= f1 {
            rest.push(r.input_at((r.frame_of() - f0) as u32))
        } else {
            rest
        }
    }
}

/// The keyframes that reproduce frames `f0..=f1` of a channel: the one carried in
/// at `f0`, placed at the start, and those inside.
pub open spec fn picked<T: FixtureRow>(rows: Seq<T>, project: u64, channel: u8, f0: u32, f1: u32) -> Seq<<T::Input as View>::V> {
    let carried = match in_effect(rows, project, channel, f0) {
        Some(i) => seq![rows[i].input_at(0)],
        None => Seq::empty(),
    };
    carried + inside(rows, project, channel, f0, f1)
}

/// Values of inputs.
pub open spec fn input_views<I: View>(s: Seq<I>) -> Seq<I::V> {
    s.map_values(|i: I| i@)
}

proof fn lemma_input_push<I: View>(s: Seq<I>, i: I)
    ensures
        input_views(s.push(i)) == input_views(s).push(i@),
{
    assert(input_views(s.push(i)) =~= input_views(s).push(i@));
}

/// Appends the keyframes of one channel that reproduce frames `f0..=f1`.
pub fn pick_region<T: FixtureRow>(rows: &[T], project: u64, channel: u8, f0: u32, f1: u32, out: &mut Vec<T::Input>)
    ensures
        input_views(final(out)@) == input_views(old(out)@) + picked(rows@, project, channel, f0, f1),
{
    let ghost start = input_views(out@);
    let carried: Option<usize> = find_in_effect(rows, project, channel, f0);
    match carried {
        Some(i) => {
            let ghost before = out@;
            let x: T::Input = rows[i].to_input(0);
            let ghost v = x@;
            out.push(x);
            proof {
                lemma_input_push(before, out@.last());
                assert(input_views(out@) =~= start + seq![v]);
            }
        },
        None => {
            assert(input_views(out@) =~= start + Seq::<<T::Input as View>::V>::empty());
        },
    }
    let ghost mid = input_views(out@);
    let mut i: usize = 0;
    assert(input_views(out@) =~= mid + inside(rows@.take(0), project, channel, f0, f1));
    while i < rows.len()
        invariant
            i <= rows@.len(),
            input_views(out@) == mid + inside(rows@.take(i as int), project, channel, f0, f1),
        decreases rows@.len() - i,
    {
        assert(rows@.take(i + 1).drop_last() =~= rows@.take(i as int));
        let f: u32 = rows[i].frame();
        if rows[i].project() == project && rows[i].channel() == channel && f > f0 && f <= f1 {
            let ghost before = out@;
            let x: T::Input = rows[i].to_input(f - f0);
            let ghost v = x@;
            out.push(x);
            proof {
                lemma_input_push(before, out@.last());
                assert(input_views(out@) =~= mid + inside(rows@.take(i as int), project, channel, f0, f1).push(v));
            }
        }
        i = i + 1;
    }
    assert(rows@.take(rows@.len() as int) =~= rows@);
    assert(input_views(out@) =~= start + picked(rows@, project, channel, f0, f1));
}

// ---- the fixtures a selection covers ----------------------------------------

/// The first fixture row that a selection covers.
pub open spec fn fixture_from(sel: GridSelection, nl: u32) -> int {
    if sel.row_min > nl {
        sel.row_min - nl
    } else {
        0
    }
}

/// One past the last fixture row that a selection covers.
pub open spec fn fixture_to(sel: GridSelection, nl: u32, n: int) -> int {
    if sel.row_max < nl {
        0
    } else if sel.row_max - nl + 1 < n {
        sel.row_max - nl + 1
    } else {
        n
    }
}

/// The channels of the fixtures of one kind in rows `a..b`.
pub open spec fn channels_in(fixtures: Seq<FixtureTrack>, kind: FixtureKind, a: int, b: int) -> Seq<u8>
    decreases b - a,
{
    if b <= a {
        Seq::empty()
    } else {
        let rest = channels_in(fixtures, kind, a, b - 1);
        if fixtures[b - 1].kind == kind {
            rest.push(fixtures[b - 1].channel)
        } else {
            rest
        }
    }
}

/// The channels of one kind that a selection covers.
pub open spec fn covered(sel: GridSelection, nl: u32, fixtures: Seq<FixtureTrack>, kind: FixtureKind) -> Seq<u8> {
    channels_in(fixtures, kind, fixture_from(sel, nl), fixture_to(sel, nl, fixtures.len() as int))
}

/// The fixture channels that a selection's rows cover: lasers, turrets, and
/// whether the projector is among them.
pub fn selection_fixture_channels(sel: GridSelection, nl: u32, fixtures: &Vec<FixtureTrack>) -> (r: (Vec<u8>, Vec<u8>, bool))
    ensures
        r.0@ == covered(sel, nl, fixtures@, FixtureKind::Laser),
        r.1@ == covered(sel, nl, fixtures@, FixtureKind::Turret),
        r.2 == (covered(sel, nl, fixtures@, FixtureKind::Projector).len() > 0),
{
    let mut lasers: Vec<u8> = Vec::new();
    let mut turrets: Vec<u8> = Vec::new();
    let mut projector: bool = false;
    if sel.row_max >= nl {
        let a: u32 = if sel.row_min > nl { sel.row_min - nl } else { 0 };
        let last: u32 = sel.row_max - nl;
        let mut k: usize = a as usize;
        while k < fixtures.len() && k <= last as usize
            invariant
                a as int == fixture_from(sel, nl),
                last as int == sel.row_max - nl,
                sel.row_max >= nl,
                k >= a,
                k == a || k <= fixture_to(sel, nl, fixtures@.len() as int),
                lasers@ == channels_in(fixtures@, FixtureKind::Laser, a as int, k as int),
                turrets@ == channels_in(fixtures@, FixtureKind::Turret, a as int, k as int),
                projector == (channels_in(fixtures@, FixtureKind::Projector, a as int, k as int).len() > 0),
            decreases fixtures@.len() - k,
        {
            let tr: &FixtureTrack = &fixtures[k];
            match tr.kind {
                FixtureKind::Laser => {
                    lasers.push(tr.channel);
                },
                FixtureKind::Turret => {
                    turrets.push(tr.channel);
                },
                FixtureKind::Projector => {
                    projector = true;
                },
            }
            k = k + 1;
        }
        assert(k == fixture_to(sel, nl, fixtures@.len() as int) || fixture_to(sel, nl, fixtures@.len() as int) <= a);
    }
    (lasers, turrets, projector)
}

// ---- copying ----------------------------------------------------------------

/// The held grid has `nl` rows of `nf` frames.
pub open spec fn grid_ok(held: Seq<Vec<bool>>, nl: u32, nf: u32) -> bool {
    &&& held.len() == nl
    &&& forall|l: int| 0 <= l < held.len() ==> (#[trigger] held[l])@.len() == nf
}

/// The keyframes of `light` in the `n` frames from `f0`, as edits of row `row`
/// relative to `f0`.
pub open spec fn keys_from(m: Map<(u32, u32), bool>, light: u32, row: u32, f0: u32, n: nat) -> Seq<LightEditInput>
    decreases n,
{
    if n == 0 {
        Seq::empty()
    } else {
        let rest = keys_from(m, light, row, f0, (n - 1) as nat);
        let k = (light, (f0 + n - 1) as u32);
        if m.contains_key(k) {
            rest.push(LightEditInput { light: row, frame: (n - 1) as u32, state: if m[k] { 1 } else { 0 } })
        } else {
            rest
        }
    }
}

/// The edits that reproduce one light of a region: an on keyframe at the start
/// where the light is carried in on, and the keyframes inside.
pub open spec fn light_copied(m: Map<(u32, u32), bool>, held: Seq<Seq<bool>>, sel: GridSelection, row: nat) -> Seq<LightEditInput> {
    let light = (sel.row_min + row) as u32;
    let carried = if !m.contains_key((light, sel.frame_min)) && held[light as int][sel.frame_min as int] {
        seq![LightEditInput { light: row as u32, frame: 0, state: 1 }]
    } else {
        Seq::empty()
    };
    carried + keys_from(m, light, row as u32, sel.frame_min, (sel.frame_max - sel.frame_min + 1) as nat)
}

/// The edits that reproduce the first `n` lights of a region.
pub open spec fn lights_copied(m: Map<(u32, u32), bool>, held: Seq<Seq<bool>>, sel: GridSelection, n: nat) -> Seq<LightEditInput>
    decreases n,
{
    if n == 0 {
        Seq::empty()
    } else {
        lights_copied(m, held, sel, (n - 1) as nat) + light_copied(m, held, sel, (n - 1) as nat)
    }
}

/// How many light rows a selection covers.
pub open spec fn light_span(sel: GridSelection, nl: u32) -> nat {
    if sel.row_min >= nl {
        0
    } else if sel.row_max < nl {
        (sel.row_max - sel.row_min + 1) as nat
    } else {
        (nl - sel.row_min) as nat
    }
}

/// The keyframes of the channels, one channel after the other.
pub open spec fn channels_picked<T: FixtureRow>(rows: Seq<T>, project: u64, channels: Seq<u8>, f0: u32, f1: u32) -> Seq<
    <T::Input as View>::V,
>
    decreases channels.len(),
{
    if channels.len() == 0 {
        Seq::empty()
    } else {
        channels_picked(rows, project, channels.drop_last(), f0, f1) + picked(rows, project, channels.last(), f0, f1)
    }
}

/// Copies the light rows of a region.
fn copy_lights(sel: GridSelection, span: u32, keyframes: &Keyframes, held: &Vec<Vec<bool>>) -> (r: Vec<LightEditInput>)
    requires
        sel.wf(),
        sel.row_min + span <= held@.len(),
        held@.len() <= u32::MAX,
        sel.frame_max < u32::MAX,
        forall|l: int| sel.row_min <= l < sel.row_min + span ==> (#[trigger] held@[l])@.len() > sel.frame_min,
    ensures
        r@ == lights_copied(keyframes@, grid_view(held@), sel, span as nat),
{
    let ghost m = keyframes@;
    let ghost g = grid_view(held@);
    let mut out: Vec<LightEditInput> = Vec::new();
    let mut row: u32 = 0;
    while row < span
        invariant
            row <= span,
            m == keyframes@,
            g == grid_view(held@),
            sel.wf(),
            sel.row_min + span <= held@.len() <= u32::MAX,
            sel.frame_max < u32::MAX,
            forall|l: int| sel.row_min <= l < sel.row_min + span ==> (#[trigger] held@[l])@.len() > sel.frame_min,
            out@ == lights_copied(m, g, sel, row as nat),
        decreases span - row,
    {
        let l: u32 = sel.row_min + row;
        let ghost before = out@;
        assert(g[l as int] == held@[l as int]@);
        let at_start: Option<bool> = keyframes.get(l, sel.frame_min);
        let carried: bool = match at_start {
            Some(_) => false,
            None => held[l as usize][sel.frame_min as usize],
        };
        if carried {
            out.push(LightEditInput { light: row, frame: 0, state: 1 });
        }
        let ghost mid = out@;
        let n: u32 = sel.frame_max - sel.frame_min + 1;
        let mut k: u32 = 0;
        assert(out@ =~= mid + keys_from(m, l, row, sel.frame_min, 0));
        while k < n
            invariant
                k <= n == sel.frame_max - sel.frame_min + 1,
                m == keyframes@,
                sel.wf(),
                sel.frame_max < u32::MAX,
                out@ == mid + keys_from(m, l, row, sel.frame_min, k as nat),
            decreases n - k,
        {
            let ghost done = keys_from(m, l, row, sel.frame_min, k as nat);
            let kf: Option<bool> = keyframes.get(l, sel.frame_min + k);
            match kf {
                Some(on) => {
                    let state: u8 = if on { 1 } else { 0 };
                    out.push(LightEditInput { light: row, frame: k, state });
                    assert(out@ =~= mid + done.push(LightEditInput { light: row, frame: k, state }));
                },
                None => {},
            }
            k = k + 1;
        }
        assert(out@ =~= before + light_copied(m, g, sel, row as nat));
        row = row + 1;
    }
    out
}

/// Copies the keyframes of some channels.
fn copy_channels<T: FixtureRow>(rows: &[T], project: u64, channels: &Vec<u8>, f0: u32, f1: u32) -> (r: Vec<T::Input>)
    ensures
        input_views(r@) == channels_picked(rows@, project, channels@, f0, f1),
{
    let mut out: Vec<T::Input> = Vec::new();
    let mut i: usize = 0;
    assert(input_views(out@) =~= channels_picked(rows@, project, channels@.take(0), f0, f1));
    while i < channels.len()
        invariant
            i <= channels@.len(),
            input_views(out@) == channels_picked(rows@, project, channels@.take(i as int), f0, f1),
        decreases channels@.len() - i,
    {
        pick_region(rows, project, channels[i], f0, f1, &mut out);
        i = i + 1;
        assert(channels@.take(i as int).drop_last() =~= channels@.take(i - 1));
    }
    assert(channels@.take(channels@.len() as int) =~= channels@);
    out
}

/// Copies a selected region into a clipboard. Lights come from the keyframes and
/// the held grid, with a keyframe at the start where a light is carried in on;
/// fixtures come from the rows of the channels that the selection covers.
pub fn extract_region(
    project_id: u64,
    nl: u32,
    sel: GridSelection,
    keyframes: &Keyframes,
    held: &Vec<Vec<bool>>,
    fixtures: &Vec<FixtureTrack>,
    lasers: &[LaserKeyframe],
    projectors: &[ProjectorKeyframe],
    turrets: &[TurretKeyframe],
) -> (r: Clipboard)
    requires
        sel.wf(),
        sel.frame_max < u32::MAX,
        held@.len() == nl,
        sel.row_min < nl ==> forall|l: int| 0 <= l < nl ==> (#[trigger] held@[l])@.len() > sel.frame_min,
    ensures
        r.light_span == light_span(sel, nl),
        r.frame_span == sel.frame_max - sel.frame_min + 1,
        r.src_light_min == (if sel.row_min < nl {
            sel.row_min
        } else {
            0
        }),
        r.lights@ == lights_copied(keyframes@, grid_view(held@), sel, light_span(sel, nl)),
        input_views(r.lasers@) == channels_picked(
            lasers@,
            project_id,
            covered(sel, nl, fixtures@, FixtureKind::Laser),
            sel.frame_min,
            sel.frame_max,
        ),
        input_views(r.turrets@) == channels_picked(
            turrets@,
            project_id,
            covered(sel, nl, fixtures@, FixtureKind::Turret),
            sel.frame_min,
            sel.frame_max,
        ),
        input_views(r.projectors@) == channels_picked(
            projectors@,
            project_id,
            covered(sel, nl, fixtures@, FixtureKind::Projector),
            sel.frame_min,
            sel.frame_max,
        ),
{
    let mut span: u32 = 0;
    let mut src: u32 = 0;
    if sel.row_min < nl {
        src = sel.row_min;
        span = if sel.row_max < nl { sel.row_max - sel.row_min + 1 } else { nl - sel.row_min };
    }
    let lights: Vec<LightEditInput> = if span == 0 {
        Vec::new()
    } else {
        copy_lights(sel, span, keyframes, held)
    };
    let (lc, tc, _) = selection_fixture_channels(sel, nl, fixtures);
    let pc: Vec<u8> = projector_channels(sel, nl, fixtures);
    Clipboard {
        light_span: span,
        frame_span: sel.frame_max - sel.frame_min + 1,
        src_light_min: src,
        lights,
        lasers: copy_channels(lasers, project_id, &lc, sel.frame_min, sel.frame_max),
        projectors: copy_channels(projectors, project_id, &pc, sel.frame_min, sel.frame_max),
        turrets: copy_channels(turrets, project_id, &tc, sel.frame_min, sel.frame_max),
    }
}

/// The projector channels that a selection's rows cover.
fn projector_channels(sel: GridSelection, nl: u32, fixtures: &Vec<FixtureTrack>) -> (r: Vec<u8>)
    ensures
        r@ == covered(sel, nl, fixtures@, FixtureKind::Projector),
{
    let mut out: Vec<u8> = Vec::new();
    if sel.row_max >= nl {
        let a: u32 = if sel.row_min > nl { sel.row_min - nl } else { 0 };
        let last: u32 = sel.row_max - nl;
        let mut k: usize = a as usize;
        while k < fixtures.len() && k <= last as usize
            invariant
                a as int == fixture_from(sel, nl),
                last as int == sel.row_max - nl,
                sel.row_max >= nl,
                k >= a,
                k == a || k <= fixture_to(sel, nl, fixtures@.len() as int),
                out@ == channels_in(fixtures@, FixtureKind::Projector, a as int, k as int),
            decreases fixtures@.len() - k,
        {
            let tr: &FixtureTrack = &fixtures[k];
            match tr.kind {
                FixtureKind::Projector => {
                    out.push(tr.channel);
                },
                _ => {},
            }
            k = k + 1;
        }
        assert(k == fixture_to(sel, nl, fixtures@.len() as int) || fixture_to(sel, nl, fixtures@.len() as int) <= a);
    }
    out
}

// ---- plans ------------------------------------------------------------------

/// Fixture keyframes to remove: those of the channels in frames
/// `frame_min..=frame_max`.
#[derive(Debug)]
pub struct FixtureClear {
    pub frame_min: u32,
    pub frame_max: u32,
    pub lasers: Vec<u8>,
    pub turrets: Vec<u8>,
    pub projector: bool,
}

/// What a [`FixtureClear`] holds.
pub struct FixtureClearView {
    pub frame_min: u32,
    pub frame_max: u32,
    pub lasers: Seq<u8>,
    pub turrets: Seq<u8>,
    pub projector: bool,
}

impl View for FixtureClear {
    type V = FixtureClearView;

    open spec fn view(&self) -> FixtureClearView {
        FixtureClearView {
            frame_min: self.frame_min,
            frame_max: self.frame_max,
            lasers: self.lasers@,
            turrets: self.turrets@,
            projector: self.projector,
        }
    }
}

/// What a region operation asks of the backend, in this order: light edits,
/// fixture keyframes to remove, and fixture keyframes to insert.
#[derive(Debug)]
pub struct RegionPlan {
    pub lights: Vec<LightEditInput>,
    pub clears: Vec<FixtureClear>,
    pub lasers: Vec<LaserKeyframeInput>,
    pub turrets: Vec<TurretKeyframeInput>,
    pub projectors: Vec<ProjectorKeyframeInput>,
}

/// What a [`RegionPlan`] holds.
pub struct RegionPlanView {
    pub lights: Seq<LightEditInput>,
    pub clears: Seq<FixtureClearView>,
    pub lasers: Seq<LaserInputView>,
    pub turrets: Seq<TurretKeyframeInput>,
    pub projectors: Seq<ProjectorKeyframeInput>,
}

impl View for RegionPlan {
    type V = RegionPlanView;

    open spec fn view(&self) -> RegionPlanView {
        RegionPlanView {
            lights: self.lights@,
            clears: input_views(self.clears@),
            lasers: input_views(self.lasers@),
            turrets: input_views(self.turrets@),
            projectors: input_views(self.projectors@),
        }
    }
}

/// A plan that asks for nothing.
pub open spec fn no_plan() -> RegionPlanView {
    RegionPlanView {
        lights: Seq::empty(),
        clears: Seq::empty(),
        lasers: Seq::empty(),
        turrets: Seq::empty(),
        projectors: Seq::empty(),
    }
}

/// Any fixture channel is named.
pub open spec fn any_fixture(c: FixtureClearView) -> bool {
    c.lasers.len() > 0 || c.turrets.len() > 0 || c.projector
}

// ---- deleting ---------------------------------------------------------------

/// The light lies in the selection's rows.
pub open spec fn deleted_rows(sel: GridSelection) -> spec_fn(int) -> bool {
    |l: int| sel.row_min <= l <= sel.row_max
}

/// Each row without the selection's frames.
pub open spec fn rows_deleted(held: Seq<Seq<bool>>, sel: GridSelection) -> spec_fn(int) -> Seq<bool> {
    |l: int| filled(held[l], sel.frame_min as int, sel.frame_max as int, false)
}

/// The fixture keyframes that deleting a selection removes.
pub open spec fn selection_clear(sel: GridSelection, nl: u32, fixtures: Seq<FixtureTrack>) -> FixtureClearView {
    FixtureClearView {
        frame_min: sel.frame_min,
        frame_max: sel.frame_max,
        lasers: covered(sel, nl, fixtures, FixtureKind::Laser),
        turrets: covered(sel, nl, fixtures, FixtureKind::Turret),
        projector: covered(sel, nl, fixtures, FixtureKind::Projector).len() > 0,
    }
}

/// Deletes everything inside a selection: its lights are set off, and its
/// fixtures' keyframes are removed.
pub fn do_delete_region(
    sel: GridSelection,
    nl: u32,
    nf: u32,
    held: &Vec<Vec<bool>>,
    keyframes: &Keyframes,
    fixtures: &Vec<FixtureTrack>,
) -> (r: RegionPlan)
    requires
        sel.wf(),
        sel.frame_max < nf,
        grid_ok(held@, nl, nf),
    ensures
        r@ == (RegionPlanView {
            lights: rows_edits(keyframes@, rows_deleted(grid_view(held@), sel), deleted_rows(sel), nl as nat),
            clears: if any_fixture(selection_clear(sel, nl, fixtures@)) {
                seq![selection_clear(sel, nl, fixtures@)]
            } else {
                Seq::empty()
            },
            ..no_plan()
        }),
{
    let ghost g = grid_view(held@);
    let ghost rows = rows_deleted(g, sel);
    let ghost touched = deleted_rows(sel);
    let mut lights: Vec<LightEditInput> = Vec::new();
    let mut l: u32 = 0;
    while l < nl
        invariant
            l <= nl,
            sel.wf(),
            sel.frame_max < nf,
            grid_ok(held@, nl, nf),
            g == grid_view(held@),
            rows == rows_deleted(g, sel),
            touched == deleted_rows(sel),
            lights@ == rows_edits(keyframes@, rows, touched, l as nat),
        decreases nl - l,
    {
        if sel.row_min <= l && l <= sel.row_max {
            assert(g[l as int] == held@[l as int]@);
            let mut desired: Vec<bool> = copy_vec(&held[l as usize]);
            fill(&mut desired, sel.frame_min, sel.frame_max, false);
            assert(desired@ == rows(l as int));
            let keys: Vec<(u32, bool)> = light_kfs(keyframes, l);
            reconcile_light_edits(l, &keys, desired.as_slice(), &mut lights);
        }
        l = l + 1;
    }
    let (lasers, turrets, projector) = selection_fixture_channels(sel, nl, fixtures);
    let mut clears: Vec<FixtureClear> = Vec::new();
    if lasers.len() > 0 || turrets.len() > 0 || projector {
        clears.push(FixtureClear { frame_min: sel.frame_min, frame_max: sel.frame_max, lasers, turrets, projector });
        assert(input_views(clears@) =~= seq![selection_clear(sel, nl, fixtures@)]);
    } else {
        assert(input_views(clears@) =~= Seq::<FixtureClearView>::empty());
    }
    let r: RegionPlan = RegionPlan { lights, clears, lasers: Vec::new(), turrets: Vec::new(), projectors: Vec::new() };
    proof {
        assert(r@.lasers =~= Seq::<LaserInputView>::empty());
        assert(r@.turrets =~= Seq::<TurretKeyframeInput>::empty());
        assert(r@.projectors =~= Seq::<ProjectorKeyframeInput>::empty());
    }
    r
}

// ---- stamping ---------------------------------------------------------------

/// The row with a pattern written over it from frame `base`.
pub open spec fn stamped(row: Seq<bool>, pattern: Seq<bool>, base: int) -> Seq<bool> {
    Seq::new(
        row.len(),
        |f: int|
            if base <= f < base + pattern.len() {
                pattern[f - base]
            } else {
                row[f]
            },
    )
}

/// The light lies under the stamped rows.
pub open spec fn stamped_rows(base_light: u32, n: nat) -> spec_fn(int) -> bool {
    |l: int| base_light <= l < base_light + n
}

/// Each row with its row of the pattern written over it.
pub open spec fn rows_stamped(held: Seq<Seq<bool>>, pattern: Seq<Seq<bool>>, base_light: u32, base_frame: u32) -> spec_fn(int) -> Seq<bool> {
    |l: int| stamped(held[l], pattern[l - base_light], base_frame as int)
}

/// The smaller of two numbers.
pub open spec fn lesser(a: int, b: int) -> int {
    if a < b {
        a
    } else {
        b
    }
}

/// The last frame a stamped region reaches.
pub open spec fn stamp_end(base_frame: u32, frame_span: u32, nf: u32) -> int {
    let end = if base_frame + frame_span > 0 {
        base_frame + frame_span - 1
    } else {
        0
    };
    lesser(end, if nf > 0 { nf - 1 } else { 0 })
}

/// The fixture keyframes that a stamp overwrites.
pub open spec fn stamp_clear(cb: Clipboard, base_frame: u32, nf: u32) -> FixtureClearView {
    FixtureClearView {
        frame_min: base_frame,
        frame_max: stamp_end(base_frame, cb.frame_span, nf) as u32,
        lasers: crate::state::distinct(cb.lasers@.map_values(|k: LaserKeyframeInput| k.channel)),
        turrets: crate::state::distinct(cb.turrets@.map_values(|k: TurretKeyframeInput| k.channel)),
        projector: cb.projectors@.len() > 0,
    }
}

/// Writes a pattern over a row.
fn stamp_row(row: &Vec<bool>, pattern: &Vec<bool>, base_frame: u32) -> (r: Vec<bool>)
    ensures
        r@ == stamped(row@, pattern@, base_frame as int),
{
    let mut r: Vec<bool> = copy_vec(row);
    let mut k: usize = 0;
    assert(r@ =~= stamped(row@, pattern@.take(0), base_frame as int));
    while k < pattern.len()
        invariant
            k <= pattern@.len(),
            r@ == stamped(row@, pattern@.take(k as int), base_frame as int),
        decreases pattern@.len() - k,
    {
        if (base_frame as usize) < r.len() && k < r.len() - base_frame as usize {
            r.set(base_frame as usize + k, pattern[k]);
        }
        k = k + 1;
        assert(r@ =~= stamped(row@, pattern@.take(k as int), base_frame as int));
    }
    assert(pattern@.take(pattern@.len() as int) =~= pattern@);
    r
}

/// Stamps a clipboard region at `(base_light, base_frame)`: light cells are
/// replaced, and the fixture keyframes in range are removed before the region's
/// own are inserted (frames offset, channels kept).
pub fn do_stamp_region(
    cb: &Clipboard,
    base_light: u32,
    base_frame: u32,
    nl: u32,
    nf: u32,
    held: &Vec<Vec<bool>>,
    keyframes: &Keyframes,
) -> (r: RegionPlan)
    requires
        grid_ok(held@, nl, nf),
        base_frame + cb.frame_span <= u32::MAX,
    ensures
        r@ == (RegionPlanView {
            lights: rows_edits(
                keyframes@,
                rows_stamped(
                    grid_view(held@),
                    held_grid(overlaid(Map::empty(), cb.lights@), cb.light_span as nat, cb.frame_span as nat),
                    base_light,
                    base_frame,
                ),
                stamped_rows(base_light, cb.light_span as nat),
                nl as nat,
            ),
            clears: if any_fixture(stamp_clear(*cb, base_frame, nf)) {
                seq![stamp_clear(*cb, base_frame, nf)]
            } else {
                Seq::empty()
            },
            lasers: crate::state::lasers_moved(laser_views(cb.lasers@), base_frame),
            turrets: crate::state::turrets_moved(cb.turrets@, base_frame),
            projectors: crate::state::projectors_moved(cb.projectors@, base_frame),
        }),
{
    let gh: Vec<Vec<bool>> = cb.light_held();
    let ghost pattern = held_grid(overlaid(Map::empty(), cb.lights@), cb.light_span as nat, cb.frame_span as nat);
    let ghost g = grid_view(held@);
    let ghost rows = rows_stamped(g, pattern, base_light, base_frame);
    let ghost touched = stamped_rows(base_light, cb.light_span as nat);
    assert(grid_view(gh@).len() == gh@.len());
    let mut lights: Vec<LightEditInput> = Vec::new();
    let mut l: u32 = 0;
    while l < nl
        invariant
            l <= nl,
            grid_ok(held@, nl, nf),
            g == grid_view(held@),
            pattern == grid_view(gh@),
            gh@.len() == cb.light_span,
            rows == rows_stamped(g, pattern, base_light, base_frame),
            touched == stamped_rows(base_light, cb.light_span as nat),
            lights@ == rows_edits(keyframes@, rows, touched, l as nat),
        decreases nl - l,
    {
        if base_light <= l && ((l - base_light) as usize) < gh.len() {
            let k: usize = (l - base_light) as usize;
            assert(g[l as int] == held@[l as int]@);
            assert(pattern[k as int] == gh@[k as int]@);
            let desired: Vec<bool> = stamp_row(&held[l as usize], &gh[k], base_frame);
            assert(desired@ == rows(l as int));
            let keys: Vec<(u32, bool)> = light_kfs(keyframes, l);
            reconcile_light_edits(l, &keys, desired.as_slice(), &mut lights);
        }
        l = l + 1;
    }
    let (lasers, turrets, projector) = cb.fixture_channels();
    let mut clears: Vec<FixtureClear> = Vec::new();
    if lasers.len() > 0 || turrets.len() > 0 || projector {
        let past: u32 = base_frame + cb.frame_span;
        let end: u32 = if past > 0 { past - 1 } else { 0 };
        let last: u32 = if nf > 0 { nf - 1 } else { 0 };
        let frame_max: u32 = if end < last { end } else { last };
        clears.push(FixtureClear { frame_min: base_frame, frame_max, lasers, turrets, projector });
        assert(input_views(clears@) =~= seq![stamp_clear(*cb, base_frame, nf)]);
    } else {
        assert(input_views(clears@) =~= Seq::<FixtureClearView>::empty());
    }
    let r: RegionPlan = RegionPlan {
        lights,
        clears,
        lasers: cb.laser_rows(base_frame),
        turrets: cb.turret_rows(base_frame),
        projectors: cb.projector_rows(base_frame),
    };
    proof {
        assert(r@.lasers =~= laser_views(r.lasers@));
        assert(r@.turrets =~= r.turrets@);
        assert(r@.projectors =~= r.projectors@);
    }
    r
}

// ---- moving -----------------------------------------------------------------

/// The cell of the grid after the region was moved: what was moved onto it, off
/// where the region was moved away, and else as before.
pub open spec fn moved_cell(held: Seq<Seq<bool>>, sel: GridSelection, drow: int, dframe: int, nl: u32, l: int, f: int) -> bool {
    if 0 <= l - drow < nl && sel.covers(l - drow, f - dframe) {
        held[l - drow][f - dframe]
    } else if sel.covers(l, f) {
        false
    } else {
        held[l][f]
    }
}

/// Each row after the region was moved.
pub open spec fn rows_moved(held: Seq<Seq<bool>>, sel: GridSelection, drow: int, dframe: int, nl: u32, nf: u32) -> spec_fn(int) -> Seq<bool> {
    |l: int| Seq::new(nf as nat, |f: int| moved_cell(held, sel, drow, dframe, nl, l, f))
}

/// The light lies under the region where it was or where it goes.
pub open spec fn moved_rows(sel: GridSelection, drow: int, nl: u32) -> spec_fn(int) -> bool {
    |l: int| sel.row_min <= l <= sel.row_max || (0 <= l - drow < nl && sel.row_min <= l - drow <= sel.row_max)
}

/// The keyframes in frames `f0..=f1` of a channel (of any channel where it is
/// `None`), moved by `d` frames; those that leave the timeline are left out.
pub open spec fn shifted<T: FixtureRow>(rows: Seq<T>, project: u64, channel: Option<u8>, f0: u32, f1: u32, d: int, nf: u32) -> Seq<
    <T::Input as View>::V,
>
    decreases rows.len(),
{
    if rows.len() == 0 {
        Seq::empty()
    } else {
        let rest = shifted(rows.drop_last(), project, channel, f0, f1, d, nf);
        let r = rows.last();
        if r.project_of() == project && (channel is None || channel == Some(r.channel_of())) && f0 <= r.frame_of() <= f1 && 0
            <= r.frame_of() + d < nf {
            rest.push(r.input_at((r.frame_of() + d) as u32))
        } else {
            rest
        }
    }
}

/// The moved keyframes of the channels, one channel after the other.
pub open spec fn channels_shifted<T: FixtureRow>(
    rows: Seq<T>,
    project: u64,
    channels: Seq<u8>,
    f0: u32,
    f1: u32,
    d: int,
    nf: u32,
) -> Seq<<T::Input as View>::V>
    decreases channels.len(),
{
    if channels.len() == 0 {
        Seq::empty()
    } else {
        channels_shifted(rows, project, channels.drop_last(), f0, f1, d, nf) + shifted(
            rows,
            project,
            Some(channels.last()),
            f0,
            f1,
            d,
            nf,
        )
    }
}

/// A frame moved by `d`, not below zero.
pub open spec fn moved_frame(f: u32, d: int) -> int {
    if f + d < 0 {
        0
    } else {
        f + d
    }
}

/// The fixture keyframes that a move overwrites.
pub open spec fn destination_clear(sel: GridSelection, d: int, nl: u32, nf: u32, fixtures: Seq<FixtureTrack>) -> FixtureClearView {
    FixtureClearView {
        frame_min: moved_frame(sel.frame_min, d) as u32,
        frame_max: lesser(moved_frame(sel.frame_max, d), if nf > 0 { nf - 1 } else { 0 }) as u32,
        ..selection_clear(sel, nl, fixtures)
    }
}

/// Appends the moved keyframes of one channel.
fn shift_channel<T: FixtureRow>(
    rows: &[T],
    project: u64,
    channel: Option<u8>,
    f0: u32,
    f1: u32,
    d: i64,
    nf: u32,
    out: &mut Vec<T::Input>,
)
    ensures
        input_views(final(out)@) == input_views(old(out)@) + shifted(rows@, project, channel, f0, f1, d as int, nf),
{
    let ghost start = input_views(out@);
    let mut i: usize = 0;
    assert(input_views(out@) =~= start + shifted(rows@.take(0), project, channel, f0, f1, d as int, nf));
    while i < rows.len()
        invariant
            i <= rows@.len(),
            input_views(out@) == start + shifted(rows@.take(i as int), project, channel, f0, f1, d as int, nf),
        decreases rows@.len() - i,
    {
        assert(rows@.take(i + 1).drop_last() =~= rows@.take(i as int));
        let named: bool = match channel {
            Some(c) => rows[i].channel() == c,
            None => true,
        };
        let f: u32 = rows[i].frame();
        let to: i128 = f as i128 + d as i128;
        if rows[i].project() == project && named && f >= f0 && f <= f1 && to >= 0 && to < nf as i128 {
            let ghost before = out@;
            let x: T::Input = rows[i].to_input(to as u32);
            let ghost v = x@;
            out.push(x);
            proof {
                lemma_input_push(before, out@.last());
                assert(input_views(out@) =~= start + shifted(rows@.take(i as int), project, channel, f0, f1, d as int, nf).push(v));
            }
        }
        i = i + 1;
    }
    assert(rows@.take(rows@.len() as int) =~= rows@);
}

/// The moved keyframes of some channels.
fn shift_channels<T: FixtureRow>(rows: &[T], project: u64, channels: &Vec<u8>, f0: u32, f1: u32, d: i64, nf: u32) -> (r: Vec<T::Input>)
    ensures
        input_views(r@) == channels_shifted(rows@, project, channels@, f0, f1, d as int, nf),
{
    let mut out: Vec<T::Input> = Vec::new();
    let mut i: usize = 0;
    assert(input_views(out@) =~= channels_shifted(rows@, project, channels@.take(0), f0, f1, d as int, nf));
    while i < channels.len()
        invariant
            i <= channels@.len(),
            input_views(out@) == channels_shifted(rows@, project, channels@.take(i as int), f0, f1, d as int, nf),
        decreases channels@.len() - i,
    {
        shift_channel(rows, project, Some(channels[i]), f0, f1, d, nf, &mut out);
        i = i + 1;
        assert(channels@.take(i as int).drop_last() =~= channels@.take(i - 1));
    }
    assert(channels@.take(channels@.len() as int) =~= channels@);
    out
}

/// One row after the region was moved.
pub fn moved_row(held: &Vec<Vec<bool>>, sel: GridSelection, drow: i64, dframe: i64, nl: u32, nf: u32, l: u32) -> (r: Vec<bool>)
    requires
        sel.wf(),
        sel.frame_max < nf,
        grid_ok(held@, nl, nf),
        l < nl,
    ensures
        r@ == rows_moved(grid_view(held@), sel, drow as int, dframe as int, nl, nf)(l as int),
{
    let ghost g = grid_view(held@);
    let mut out: Vec<bool> = Vec::new();
    let sl: i128 = l as i128 - drow as i128;
    let mut f: u32 = 0;
    while f < nf
        invariant
            f <= nf,
            l < nl,
            sel.wf(),
            sel.frame_max < nf,
            grid_ok(held@, nl, nf),
            g == grid_view(held@),
            sl == l - drow,
            out@.len() == f,
            forall|k: int| 0 <= k < f ==> #[trigger] out@[k] == moved_cell(g, sel, drow as int, dframe as int, nl, l as int, k),
        decreases nf - f,
    {
        let sf: i128 = f as i128 - dframe as i128;
        let from: bool = sl >= 0 && sl < nl as i128 && sl >= sel.row_min as i128 && sl <= sel.row_max as i128 && sf >= sel.frame_min as i128
            && sf <= sel.frame_max as i128;
        let v: bool = if from {
            assert(g[sl as int] == held@[sl as int]@);
            held[sl as usize][sf as usize]
        } else if l >= sel.row_min && l <= sel.row_max && f >= sel.frame_min && f <= sel.frame_max {
            false
        } else {
            assert(g[l as int] == held@[l as int]@);
            held[l as usize][f as usize]
        };
        out.push(v);
        f = f + 1;
    }
    assert(out@ =~= rows_moved(g, sel, drow as int, dframe as int, nl, nf)(l as int));
    out
}

/// Moves the selected region by `(drow, dframe)`, overwriting the destination.
/// Lights move by both; fixtures move in time only (channels are physical), as a
/// cut and overwrite of their keyframes.
pub fn do_move_region(
    project_id: u64,
    orig: GridSelection,
    drow: i64,
    dframe: i64,
    nl: u32,
    nf: u32,
    held: &Vec<Vec<bool>>,
    keyframes: &Keyframes,
    fixtures: &Vec<FixtureTrack>,
    lasers: &[LaserKeyframe],
    turrets: &[TurretKeyframe],
    projectors: &[ProjectorKeyframe],
) -> (r: RegionPlan)
    requires
        orig.wf(),
        orig.frame_max < nf,
        grid_ok(held@, nl, nf),
        orig.frame_max + dframe <= u32::MAX,
    ensures
        drow == 0 && dframe == 0 ==> r@ == no_plan(),
        drow != 0 || dframe != 0 ==> {
            let c = selection_clear(orig, nl, fixtures@);
            let f0 = orig.frame_min;
            let f1 = orig.frame_max;
            &&& r@.lights == rows_edits(
                keyframes@,
                rows_moved(grid_view(held@), orig, drow as int, dframe as int, nl, nf),
                moved_rows(orig, drow as int, nl),
                nl as nat,
            )
            &&& r@.clears == (if any_fixture(c) {
                seq![c, destination_clear(orig, dframe as int, nl, nf, fixtures@)]
            } else {
                Seq::empty()
            })
            &&& r@.lasers == channels_shifted(lasers@, project_id, c.lasers, f0, f1, dframe as int, nf)
            &&& r@.turrets == channels_shifted(turrets@, project_id, c.turrets, f0, f1, dframe as int, nf)
            &&& r@.projectors == (if c.projector {
                shifted(projectors@, project_id, None, f0, f1, dframe as int, nf)
            } else {
                Seq::empty()
            })
        },
{
    let mut plan: RegionPlan = RegionPlan {
        lights: Vec::new(),
        clears: Vec::new(),
        lasers: Vec::new(),
        turrets: Vec::new(),
        projectors: Vec::new(),
    };
    if drow == 0 && dframe == 0 {
        proof {
            assert(plan@.clears =~= Seq::<FixtureClearView>::empty());
            assert(plan@.lasers =~= Seq::<LaserInputView>::empty());
            assert(plan@.turrets =~= Seq::<TurretKeyframeInput>::empty());
            assert(plan@.projectors =~= Seq::<ProjectorKeyframeInput>::empty());
        }
        return plan;
    }
    let f0: u32 = orig.frame_min;
    let f1: u32 = orig.frame_max;
    let ghost g = grid_view(held@);
    let ghost rows = rows_moved(g, orig, drow as int, dframe as int, nl, nf);
    let ghost touched = moved_rows(orig, drow as int, nl);
    let mut lights: Vec<LightEditInput> = Vec::new();
    let mut l: u32 = 0;
    while l < nl
        invariant
            l <= nl,
            orig.wf(),
            orig.frame_max < nf,
            grid_ok(held@, nl, nf),
            g == grid_view(held@),
            rows == rows_moved(g, orig, drow as int, dframe as int, nl, nf),
            touched == moved_rows(orig, drow as int, nl),
            lights@ == rows_edits(keyframes@, rows, touched, l as nat),
        decreases nl - l,
    {
        let sl: i128 = l as i128 - drow as i128;
        let was: bool = orig.row_min <= l && l <= orig.row_max;
        let comes: bool = sl >= 0 && sl < nl as i128 && sl >= orig.row_min as i128 && sl <= orig.row_max as i128;
        if was || comes {
            let desired: Vec<bool> = moved_row(held, orig, drow, dframe, nl, nf, l);
            let keys: Vec<(u32, bool)> = light_kfs(keyframes, l);
            reconcile_light_edits(l, &keys, desired.as_slice(), &mut lights);
        }
        l = l + 1;
    }
    let (lc, tc, pj) = selection_fixture_channels(orig, nl, fixtures);
    let ghost c = selection_clear(orig, nl, fixtures@);
    let mut clears: Vec<FixtureClear> = Vec::new();
    if lc.len() > 0 || tc.len() > 0 || pj {
        let a: i128 = f0 as i128 + dframe as i128;
        let b: i128 = f1 as i128 + dframe as i128;
        let df0: u32 = if a < 0 { 0 } else { a as u32 };
        let mut df1: u32 = if b < 0 { 0 } else { b as u32 };
        let last: u32 = if nf > 0 { nf - 1 } else { 0 };
        if df1 > last {
            df1 = last;
        }
        clears.push(
            FixtureClear { frame_min: f0, frame_max: f1, lasers: copy_vec(&lc), turrets: copy_vec(&tc), projector: pj },
        );
        clears.push(
            FixtureClear { frame_min: df0, frame_max: df1, lasers: copy_vec(&lc), turrets: copy_vec(&tc), projector: pj },
        );
        assert(input_views(clears@) =~= seq![c, destination_clear(orig, dframe as int, nl, nf, fixtures@)]);
    } else {
        assert(input_views(clears@) =~= Seq::<FixtureClearView>::empty());
    }
    let ls: Vec<LaserKeyframeInput> = shift_channels(lasers, project_id, &lc, f0, f1, dframe, nf);
    let ts: Vec<TurretKeyframeInput> = shift_channels(turrets, project_id, &tc, f0, f1, dframe, nf);
    let mut ps: Vec<ProjectorKeyframeInput> = Vec::new();
    assert(input_views(ps@) =~= Seq::<ProjectorKeyframeInput>::empty());
    if pj {
        shift_channel(projectors, project_id, None, f0, f1, dframe, nf, &mut ps);
        assert(input_views(ps@) =~= shifted(projectors@, project_id, None, f0, f1, dframe as int, nf));
    }
    RegionPlan { lights, clears, lasers: ls, turrets: ts, projectors: ps }
}

} // verus!
