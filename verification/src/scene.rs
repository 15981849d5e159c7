//! What the stage shows: which node of a scene is which fixture, the playhead's
//! steps, and the state of every light and fixture at a frame.
use crate::audio::at_most_zero;
use crate::fixtures::{PendingFixture, N_LASER, N_PROJECTOR, N_TURRET};
use crate::logic::{apply_pending, expand_held, fold_fixtures, fold_keyframes, folded, grid_view, held_grid, overlaid, Keyframes};
use crate::package::is_log_of;
use crate::projector_patterns::{name_for, name_in, ProjectorPattern};
use crate::rows::{Edit, LaserKeyframe, LaserKeyframeView, LightEditInput, Project, ProjectorKeyframe, TurretKeyframe};
use crate::session::{cutoff_of, history_view, in_history, open_project, project_log};
use crate::stage_rows::{in_force, lemma_in_force, own_rows, replace_row, with_row, StageRow};
use crate::store::{row_views, rows_of};
use crate::text::{
    begins, chars_of, decimal, parse_unsigned, push_decimal, push_str, strip_prefix, text_of, trim, trimmed, unsigned_value,
};
use vstd::arithmetic::div_mod::{lemma_fundamental_div_mod_converse_mod, lemma_small_mod};
use vstd::prelude::*;

verus! {

broadcast use {vstd::seq::group_seq_axioms, vstd::string::group_string_axioms};

// ---- nodes ------------------------------------------------------------------

/// The number behind a prefix, with white space around it.
pub open spec fn node_number(name: Seq<char>, prefix: Seq<char>) -> Option<nat> {
    if begins(name, prefix) {
        unsigned_value(trimmed(name.skip(prefix.len() as int)), 10, u32::MAX as nat)
    } else {
        None
    }
}

fn read_node(name: &Vec<char>, prefix: &str) -> (r: Option<u32>)
    ensures
        match node_number(name@, prefix@) {
            Some(n) => r == Some(n as u32) && n <= u32::MAX,
            None => r is None,
        },
{
    match strip_prefix(name, prefix) {
        None => None,
        Some(rest) => match parse_unsigned(&trim(&rest), 10, 0xffff_ffff) {
            Some(n) => Some(n as u32),
            None => None,
        },
    }
}

/// The light that a node named `Light.<n>` stands for.
pub fn parse_light_index(name: &str) -> (r: Option<u32>)
    ensures
        match node_number(name@, "Light."@) {
            Some(n) => r == Some(n as u32) && n <= u32::MAX,
            None => r is None,
        },
{
    read_node(&chars_of(name), "Light.")
}

/// A node of these names stands for a light.
pub open spec fn names_light(names: Seq<String>) -> bool {
    exists|i: int| 0 <= i < names.len() && node_number((#[trigger] names[i])@, "Light."@) is Some
}

/// Whether the stage shows a row of lights of its own: where no scene was loaded, and
/// where no node of the scene, all of whose names are given, stands for a light.
pub fn shows_own_lights(names: Option<&Vec<String>>) -> (r: bool)
    ensures
        r == match names {
            None => true,
            Some(v) => !names_light(v@),
        },
{
    let v: &Vec<String> = match names {
        None => {
            return true;
        },
        Some(v) => v,
    };
    let mut i: usize = 0;
    while i < v.len()
        invariant
            i <= v@.len(),
            names == Some(v),
            forall|j: int| 0 <= j < i ==> node_number((#[trigger] v@[j])@, "Light."@) is None,
        decreases v@.len() - i,
    {
        if parse_light_index(v[i].as_str()).is_some() {
            assert(node_number(v@[i as int]@, "Light."@) is Some);
            return false;
        }
        i = i + 1;
    }
    true
}

/// The kinds of fixtures that cast a beam.
#[derive(Clone, Copy, PartialEq, Eq, Structural, Debug)]
pub enum EmitterFamily {
    Laser,
    Turret,
    Projector,
}

/// The name of a kind, as nodes spell it.
pub open spec fn family_name(f: EmitterFamily) -> Seq<char> {
    match f {
        EmitterFamily::Laser => "Laser"@,
        EmitterFamily::Turret => "Turret"@,
        EmitterFamily::Projector => "Projector"@,
    }
}

/// The name of a kind, as nodes spell it.
pub fn fam_name(f: EmitterFamily) -> (r: &'static str)
    ensures
        r@ == family_name(f),
{
    match f {
        EmitterFamily::Laser => "Laser",
        EmitterFamily::Turret => "Turret",
        EmitterFamily::Projector => "Projector",
    }
}

/// The emitter that a node stands for, by a name like `Turret.002`.
pub open spec fn emitter_in(name: Seq<char>) -> Option<(EmitterFamily, nat)> {
    let n = trimmed(name);
    if node_number(n, "Laser."@) is Some {
        Some((EmitterFamily::Laser, node_number(n, "Laser."@)->0))
    } else if node_number(n, "Turret."@) is Some {
        Some((EmitterFamily::Turret, node_number(n, "Turret."@)->0))
    } else if node_number(n, "Projector."@) is Some {
        Some((EmitterFamily::Projector, node_number(n, "Projector."@)->0))
    } else {
        None
    }
}

/// The emitter that a node stands for: see [`emitter_in`].
pub fn parse_emitter(name: &str) -> (r: Option<(EmitterFamily, u32)>)
    ensures
        match emitter_in(name@) {
            Some(e) => r == Some((e.0, e.1 as u32)) && e.1 <= u32::MAX,
            None => r is None,
        },
{
    let n: Vec<char> = trim(&chars_of(name));
    if let Some(i) = read_node(&n, "Laser.") {
        return Some((EmitterFamily::Laser, i));
    }
    if let Some(i) = read_node(&n, "Turret.") {
        return Some((EmitterFamily::Turret, i));
    }
    if let Some(i) = read_node(&n, "Projector.") {
        return Some((EmitterFamily::Projector, i));
    }
    None
}

/// Whether a node sets the camera: one without a mesh whose name begins so.
pub fn is_camera_node(name: &str, has_mesh: bool) -> (r: bool)
    ensures
        r == (!has_mesh && begins(name@, "Camera"@)),
{
    !has_mesh && strip_prefix(&chars_of(name), "Camera").is_some()
}

/// A number with at least three digits.
pub open spec fn three_digits(n: nat) -> Seq<char> {
    if n < 10 {
        "00"@ + decimal(n)
    } else if n < 100 {
        "0"@ + decimal(n)
    } else {
        decimal(n)
    }
}

/// The name of a numbered node: its kind, a dot, its number, and what follows.
pub fn node_name(kind: &str, n: u32, rest: &str) -> (r: String)
    ensures
        r@ == kind@ + "."@ + three_digits(n as nat) + rest@,
{
    let mut v: Vec<char> = chars_of(kind);
    push_str(&mut v, ".");
    let ghost base = v@;
    if n < 10 {
        push_str(&mut v, "00");
    } else if n < 100 {
        push_str(&mut v, "0");
    }
    push_decimal(&mut v, n as u64);
    assert(v@ =~= base + three_digits(n as nat));
    push_str(&mut v, rest);
    text_of(&v)
}

// ---- the lights -------------------------------------------------------------

/// What the stage's lights do over the whole show.
#[derive(Debug)]
pub struct HeldGrid {
    /// For each light, whether it is on at each frame.
    pub held: Vec<Vec<bool>>,
    pub keyframes: Keyframes,
    pub nl: u32,
    pub nf: u32,
    pub head: u64,
    pub viewing_history: bool,
}

/// What becomes of the grid.
#[derive(Debug)]
pub enum HeldStep {
    /// The open project is not known yet: it stays.
    Keep,
    /// No project is open: it is emptied.
    Clear,
    Show(HeldGrid),
}

/// The grid shows the project as of the history cursor, with the edits that have
/// not come back yet on top where that is the newest version.
pub open spec fn shows(
    g: HeldGrid,
    p: Project,
    edits: Seq<Edit>,
    history_pos: Option<u64>,
    pending: Seq<LightEditInput>,
    log: Seq<Edit>,
) -> bool {
    let past = folded(log, cutoff_of(history_pos, p.head_seq));
    let now = if in_history(history_pos, p.head_seq) {
        past
    } else {
        overlaid(past, pending)
    };
    &&& is_log_of(log, edits, p.id)
    &&& g.keyframes@ == now
    &&& grid_view(g.held@) == held_grid(now, p.num_lights as nat, p.num_frames as nat)
    &&& g.nl == p.num_lights
    &&& g.nf == p.num_frames
    &&& g.head == p.head_seq
    &&& g.viewing_history == in_history(history_pos, p.head_seq)
}

/// The first project of this id.
pub open spec fn is_open(projects: Seq<Project>, open: Option<u64>, i: int) -> bool {
    &&& 0 <= i < projects.len()
    &&& open == Some(projects[i].id)
    &&& forall|j: int| 0 <= j < i ==> open != Some((#[trigger] projects[j]).id)
}

/// The grid shows the open project: see [`shows`].
pub open spec fn shows_open(
    g: HeldGrid,
    projects: Seq<Project>,
    open: Option<u64>,
    edits: Seq<Edit>,
    history_pos: Option<u64>,
    pending: Seq<LightEditInput>,
) -> bool {
    exists|i: int, log: Seq<Edit>|
        is_open(projects, open, i) && #[trigger] shows(g, projects[i], edits, history_pos, pending, log)
}

/// Recomputes what the lights do for the open project.
pub fn recompute_held(
    projects: &Vec<Project>,
    edits: &Vec<Edit>,
    open: Option<u64>,
    history_pos: Option<u64>,
    pending: &Vec<LightEditInput>,
) -> (r: HeldStep)
    ensures
        r is Clear <==> open is None,
        r is Keep <==> open is Some && forall|i: int| 0 <= i < projects@.len() ==> open != Some((#[trigger] projects@[i]).id),
        r matches HeldStep::Show(g) ==> shows_open(g, projects@, open, edits@, history_pos, pending@),
{
    if open.is_none() {
        return HeldStep::Clear;
    }
    let i: usize = match open_project(projects.as_slice(), open) {
        None => {
            return HeldStep::Keep;
        },
        Some(i) => i,
    };
    let p: &Project = &projects[i];
    assert(is_open(projects@, open, i as int));
    let log: Vec<Edit> = project_log(edits.as_slice(), p.id);
    let view: (u64, bool) = history_view(history_pos, p.head_seq);
    let mut keyframes: Keyframes = fold_keyframes(log.as_slice(), view.0);
    if !view.1 {
        apply_pending(&mut keyframes, pending.as_slice());
    }
    let held: Vec<Vec<bool>> = expand_held(&keyframes, p.num_lights, p.num_frames);
    let g: HeldGrid = HeldGrid {
        held,
        keyframes,
        nl: p.num_lights,
        nf: p.num_frames,
        head: p.head_seq,
        viewing_history: view.1,
    };
    assert(shows(g, projects@[i as int], edits@, history_pos, pending@, log@));
    assert(shows_open(g, projects@, open, edits@, history_pos, pending@));
    HeldStep::Show(g)
}

/// Whether a light of the stage is on: where a project is open and its grid says
/// so.
pub fn light_on(has_project: bool, held: &Vec<Vec<bool>>, index: u32, frame: u32) -> (r: bool)
    ensures
        r == (has_project && index < held@.len() && frame < held@[index as int]@.len() && held@[index as int]@[frame as int]),
{
    if !has_project || index as usize >= held.len() {
        return false;
    }
    let row: &Vec<bool> = &held[index as usize];
    if frame as usize >= row.len() {
        return false;
    }
    row[frame as usize]
}

// ---- the playhead -----------------------------------------------------------

/// Whether the playhead moves by the clock: while playing at a rate above zero, in
/// a show that is not empty, unless the sound moves it.
pub fn clock_driven(playing: bool, fps_bits: u32, nf: u32, audio_driven: bool) -> (r: bool)
    ensures
        r == (playing && !at_most_zero(fps_bits) && nf > 0 && !audio_driven),
{
    let still: bool = fps_bits == 0 || (fps_bits >= 0x8000_0000 && fps_bits <= 0xff80_0000);
    playing && !still && nf > 0 && !audio_driven
}

/// The playhead after so many steps, and whether it plays on: a looping show wraps
/// around, another stops on its last frame.
pub fn playback_advance(current: u32, steps: u64, nf: u32, looping: bool) -> (r: (u32, bool))
    requires
        nf > 0,
        current + steps <= u64::MAX,
    ensures
        r.0 == (if looping {
            (current + steps) % (nf as int)
        } else if current + steps >= nf {
            nf - 1
        } else {
            current + steps
        }),
        r.1 == (looping || current + steps < nf),
        r.0 < nf,
        current + steps < nf ==> r.0 == current + steps && r.1,
        !looping && current + steps >= nf ==> r.0 == nf - 1 && !r.1,
        looping && nf <= current + steps < 2 * nf ==> r.0 == current + steps - nf,
{
    let n: u64 = nf as u64;
    let next: u64 = current as u64 + steps;
    proof {
        if next < nf {
            lemma_small_mod(next as nat, nf as nat);
        } else if next < 2 * nf {
            lemma_fundamental_div_mod_converse_mod(next as int, nf as int, 1, next - nf);
        }
    }
    if looping {
        ((next % n) as u32, true)
    } else if next >= n {
        (nf - 1, false)
    } else {
        (next as u32, true)
    }
}

/// What gives the playhead's part of a frame.
#[derive(Clone, Copy, PartialEq, Eq, Structural, Debug)]
pub enum Fraction {
    /// It stands on the frame.
    Zero,
    /// The sound.
    Audio,
    /// The clock.
    Clock,
}

/// What gives the playhead's part of a frame.
pub fn publish_playhead(playing: bool, audio_driven: bool) -> (r: Fraction)
    ensures
        r == (if !playing {
            Fraction::Zero
        } else if audio_driven {
            Fraction::Audio
        } else {
            Fraction::Clock
        }),
{
    if !playing {
        Fraction::Zero
    } else if audio_driven {
        Fraction::Audio
    } else {
        Fraction::Clock
    }
}

// ---- the fixtures -----------------------------------------------------------

/// The state of the fixtures at a frame.
#[derive(Debug)]
pub struct FixtureGrid {
    pub lasers: Vec<Option<LaserKeyframe>>,
    pub projectors: Vec<Option<ProjectorKeyframe>>,
    pub turrets: Vec<Option<TurretKeyframe>>,
    /// Every turret keyframe, to move between them.
    pub turret_rows: Vec<TurretKeyframe>,
}

/// The laser keyframes with those edits on top that have not come back yet.
pub open spec fn lasers_now(rows: Seq<LaserKeyframeView>, pending: Seq<PendingFixture>, project: u64) -> Seq<LaserKeyframeView>
    decreases pending.len(),
{
    if pending.len() == 0 {
        rows
    } else {
        let before = lasers_now(rows, pending.drop_last(), project);
        match pending.last() {
            PendingFixture::Laser(p) => if p.project_id == project {
                with_row::<LaserKeyframe>(before, p@)
            } else {
                before
            },
            _ => before,
        }
    }
}

/// The projector keyframes with those edits on top that have not come back yet.
pub open spec fn projectors_now(rows: Seq<ProjectorKeyframe>, pending: Seq<PendingFixture>, project: u64) -> Seq<ProjectorKeyframe>
    decreases pending.len(),
{
    if pending.len() == 0 {
        rows
    } else {
        let before = projectors_now(rows, pending.drop_last(), project);
        match pending.last() {
            PendingFixture::Projector(p) => if p.project_id == project {
                with_row::<ProjectorKeyframe>(before, p)
            } else {
                before
            },
            _ => before,
        }
    }
}

/// The turret keyframes with those edits on top that have not come back yet.
pub open spec fn turrets_now(rows: Seq<TurretKeyframe>, pending: Seq<PendingFixture>, project: u64) -> Seq<TurretKeyframe>
    decreases pending.len(),
{
    if pending.len() == 0 {
        rows
    } else {
        let before = turrets_now(rows, pending.drop_last(), project);
        match pending.last() {
            PendingFixture::Turret(p) => if p.project_id == project {
                with_row::<TurretKeyframe>(before, p)
            } else {
                before
            },
            _ => before,
        }
    }
}

/// Each channel holds the keyframe in force at the frame.
pub open spec fn holds_state<T: StageRow>(state: Seq<Option<T>>, rows: Seq<T::V>, channels: nat, frame: u32) -> bool {
    &&& state.len() == channels
    &&& forall|c: int|
        0 <= c < channels ==> match in_force::<T>(rows, c, frame) {
            None => (#[trigger] state[c]) is None,
            Some(i) => state[c] is Some && state[c]->0@ == rows[i],
        }
}

fn fold_lasers(rows: &Vec<LaserKeyframe>, frame: u32) -> (r: Vec<Option<LaserKeyframe>>)
    ensures
        holds_state(r@, row_views(rows@), N_LASER as nat, frame),
{
    let channel_of = |k: &LaserKeyframe| -> (c: u8)
        ensures
            c == k.channel,
        { k.channel };
    let frame_of = |k: &LaserKeyframe| -> (f: u32)
        ensures
            f == k.frame,
        { k.frame };
    let r: Vec<Option<LaserKeyframe>> = fold_fixtures(rows.as_slice(), frame, N_LASER, channel_of, frame_of);
    proof {
        assert forall|c: int| 0 <= c < N_LASER implies match in_force::<LaserKeyframe>(row_views(rows@), c, frame) {
            None => (#[trigger] r@[c]) is None,
            Some(i) => r@[c] is Some && r@[c]->0@ == row_views(rows@)[i],
        } by {
            lemma_in_force(rows@, channel_of, frame_of, c, frame);
        }
    }
    r
}

fn fold_projectors(rows: &Vec<ProjectorKeyframe>, frame: u32) -> (r: Vec<Option<ProjectorKeyframe>>)
    ensures
        holds_state(r@, row_views(rows@), N_PROJECTOR as nat, frame),
{
    let channel_of = |k: &ProjectorKeyframe| -> (c: u8)
        ensures
            c == k.channel,
        { k.channel };
    let frame_of = |k: &ProjectorKeyframe| -> (f: u32)
        ensures
            f == k.frame,
        { k.frame };
    let r: Vec<Option<ProjectorKeyframe>> = fold_fixtures(rows.as_slice(), frame, N_PROJECTOR, channel_of, frame_of);
    proof {
        assert forall|c: int| 0 <= c < N_PROJECTOR implies match in_force::<ProjectorKeyframe>(row_views(rows@), c, frame) {
            None => (#[trigger] r@[c]) is None,
            Some(i) => r@[c] is Some && r@[c]->0@ == row_views(rows@)[i],
        } by {
            lemma_in_force(rows@, channel_of, frame_of, c, frame);
        }
    }
    r
}

fn fold_turrets(rows: &Vec<TurretKeyframe>, frame: u32) -> (r: Vec<Option<TurretKeyframe>>)
    ensures
        holds_state(r@, row_views(rows@), N_TURRET as nat, frame),
{
    let channel_of = |k: &TurretKeyframe| -> (c: u8)
        ensures
            c == k.channel,
        { k.channel };
    let frame_of = |k: &TurretKeyframe| -> (f: u32)
        ensures
            f == k.frame,
        { k.frame };
    let r: Vec<Option<TurretKeyframe>> = fold_fixtures(rows.as_slice(), frame, N_TURRET, channel_of, frame_of);
    proof {
        assert forall|c: int| 0 <= c < N_TURRET implies match in_force::<TurretKeyframe>(row_views(rows@), c, frame) {
            None => (#[trigger] r@[c]) is None,
            Some(i) => r@[c] is Some && r@[c]->0@ == row_views(rows@)[i],
        } by {
            lemma_in_force(rows@, channel_of, frame_of, c, frame);
        }
    }
    r
}

/// Recomputes the state of the fixtures of the open project at a frame. Without one
/// the channels are emptied.
pub fn recompute_fixtures(
    grid: &mut FixtureGrid,
    lasers: &Vec<LaserKeyframe>,
    projectors: &Vec<ProjectorKeyframe>,
    turrets: &Vec<TurretKeyframe>,
    pending: &Vec<PendingFixture>,
    open: Option<u64>,
    frame: u32,
)
    ensures
        open is None ==> {
            &&& final(grid).lasers@.len() == 0
            &&& final(grid).projectors@.len() == 0
            &&& final(grid).turrets@.len() == 0
            &&& final(grid).turret_rows@ == old(grid).turret_rows@
        },
        open matches Some(id) ==> {
            &&& holds_state(
                final(grid).lasers@,
                lasers_now(rows_of::<LaserKeyframe>(row_views(lasers@), id), pending@, id),
                N_LASER as nat,
                frame,
            )
            &&& holds_state(
                final(grid).projectors@,
                projectors_now(rows_of::<ProjectorKeyframe>(projectors@, id), pending@, id),
                N_PROJECTOR as nat,
                frame,
            )
            &&& holds_state(
                final(grid).turrets@,
                turrets_now(rows_of::<TurretKeyframe>(turrets@, id), pending@, id),
                N_TURRET as nat,
                frame,
            )
            &&& final(grid).turret_rows@ == turrets_now(rows_of::<TurretKeyframe>(turrets@, id), pending@, id)
        },
{
    let id: u64 = match open {
        None => {
            grid.lasers = Vec::new();
            grid.projectors = Vec::new();
            grid.turrets = Vec::new();
            return ;
        },
        Some(id) => id,
    };
    let mut ls: Vec<LaserKeyframe> = own_rows(lasers, id);
    let mut ps: Vec<ProjectorKeyframe> = own_rows(projectors, id);
    let mut ts: Vec<TurretKeyframe> = own_rows(turrets, id);
    let ghost l0 = rows_of::<LaserKeyframe>(row_views(lasers@), id);
    let ghost p0 = rows_of::<ProjectorKeyframe>(projectors@, id);
    let ghost t0 = rows_of::<TurretKeyframe>(turrets@, id);
    proof {
        assert(row_views(projectors@) =~= projectors@);
        assert(row_views(turrets@) =~= turrets@);
    }
    let mut i: usize = 0;
    while i < pending.len()
        invariant
            i <= pending@.len(),
            row_views(ls@) == lasers_now(l0, pending@.take(i as int), id),
            row_views(ps@) == projectors_now(p0, pending@.take(i as int), id),
            row_views(ts@) == turrets_now(t0, pending@.take(i as int), id),
        decreases pending@.len() - i,
    {
        assert(pending@.take(i + 1).drop_last() =~= pending@.take(i as int));
        match &pending[i] {
            PendingFixture::Laser(p) => {
                if p.project_id == id {
                    ls = replace_row(&ls, p);
                }
            },
            PendingFixture::Projector(p) => {
                if p.project_id == id {
                    ps = replace_row(&ps, p);
                }
            },
            PendingFixture::Turret(p) => {
                if p.project_id == id {
                    ts = replace_row(&ts, p);
                }
            },
        }
        i = i + 1;
    }
    assert(pending@.take(pending@.len() as int) =~= pending@);
    assert(row_views(ts@) =~= ts@);
    grid.lasers = fold_lasers(&ls, frame);
    grid.projectors = fold_projectors(&ps, frame);
    grid.turrets = fold_turrets(&ts, frame);
    grid.turret_rows = ts;
}

/// What an emitter casts.
#[derive(Clone, Copy, PartialEq, Eq, Structural, Debug)]
pub enum Beam {
    Dark,
    /// A laser of this 3-bit tint and pattern.
    Laser { cr: u8, cg: u8, cb: u8, pattern: u8 },
    /// A projector of this colour byte.
    Projector { colour: u8 },
}

/// What a laser casts: where a project is open and the laser is on.
pub open spec fn laser_cast(has_project: bool, lasers: Seq<Option<LaserKeyframe>>, channel: u8) -> Beam {
    if has_project && channel < lasers.len() && lasers[channel as int] is Some && lasers[channel as int]->0.enable {
        let k = lasers[channel as int]->0;
        Beam::Laser { cr: k.cr, cg: k.cg, cb: k.cb, pattern: k.pattern }
    } else {
        Beam::Dark
    }
}

/// What a laser casts.
pub fn laser_beam(has_project: bool, lasers: &Vec<Option<LaserKeyframe>>, channel: u8) -> (r: Beam)
    ensures
        r == laser_cast(has_project, lasers@, channel),
{
    if !has_project || channel as usize >= lasers.len() {
        return Beam::Dark;
    }
    match &lasers[channel as usize] {
        Some(k) => if k.enable {
            Beam::Laser { cr: k.cr, cg: k.cg, cb: k.cb, pattern: k.pattern }
        } else {
            Beam::Dark
        },
        None => Beam::Dark,
    }
}

/// What a projector casts: where a project is open and its state is above zero.
pub open spec fn projector_cast(has_project: bool, projectors: Seq<Option<ProjectorKeyframe>>, channel: u8) -> Beam {
    if has_project && channel < projectors.len() && projectors[channel as int] is Some && projectors[channel as int]->0.state > 0 {
        Beam::Projector { colour: projectors[channel as int]->0.colour }
    } else {
        Beam::Dark
    }
}

/// What a projector casts.
pub fn projector_beam(has_project: bool, projectors: &Vec<Option<ProjectorKeyframe>>, channel: u8) -> (r: Beam)
    ensures
        r == projector_cast(has_project, projectors@, channel),
{
    if !has_project || channel as usize >= projectors.len() {
        return Beam::Dark;
    }
    match projectors[channel as usize] {
        Some(k) => if k.state > 0 {
            Beam::Projector { colour: k.colour }
        } else {
            Beam::Dark
        },
        None => Beam::Dark,
    }
}

/// The caption of a projector's picture: its pattern's name, or its number.
pub open spec fn caption(k: ProjectorKeyframe, lib: Seq<ProjectorPattern>) -> Seq<char> {
    match name_in(lib, k.gallery, k.pattern) {
        Some(n) => n,
        None => "Pattern "@ + decimal(k.pattern as nat),
    }
}

/// The caption of the projector's picture, and its colour byte; none while it is
/// dark.
pub fn projector_label(has_project: bool, projectors: &Vec<Option<ProjectorKeyframe>>, lib: &Vec<ProjectorPattern>) -> (r: Option<
    (String, u8),
>)
    ensures
        r is Some <==> projector_cast(has_project, projectors@, 0) != Beam::Dark,
        r matches Some(l) ==> l.1 == projectors@[0]->0.colour && l.0@ == caption(projectors@[0]->0, lib@),
{
    if !has_project || projectors.len() == 0 {
        return None;
    }
    match projectors[0] {
        Some(k) => {
            if k.state == 0 {
                return None;
            }
            let text: String = match name_for(lib, k.gallery, k.pattern) {
                Some(name) => name.to_owned(),
                None => {
                    let mut v: Vec<char> = chars_of("Pattern ");
                    push_decimal(&mut v, k.pattern as u64);
                    text_of(&v)
                },
            };
            Some((text, k.colour))
        },
        None => None,
    }
}

} // verus!
