//! The editor's vocabulary: fixtures, selections, drags and the clipboard.
use crate::logic::{apply_pending, expand_held, grid_view, held_grid, overlaid, Keyframes};
use crate::rows::{
    LaserInputView, LaserKeyframe, LaserKeyframeInput, LightEditInput, ProjectorKeyframe, ProjectorKeyframeInput, TurretKeyframe,
    TurretKeyframeInput,
};
use vstd::prelude::*;

verus! {

broadcast use vstd::seq::group_seq_axioms;

/// The kinds of fixture beside the plain lights.
#[derive(Clone, Copy, PartialEq, Eq, Structural, Debug)]
pub enum FixtureKind {
    Laser,
    Turret,
    Projector,
}

/// Which rows the timeline shows.
#[derive(Clone, Copy, PartialEq, Eq, Structural, Debug)]
pub enum TimelineFilter {
    All,
    Lights,
    Lasers,
    Turrets,
    Projector,
}

/// A rectangle of the grid, both ends included. Rows count the lights first and
/// then the fixtures.
#[derive(Clone, Copy, PartialEq, Eq, Structural, Debug)]
pub struct GridSelection {
    pub row_min: u32,
    pub row_max: u32,
    pub frame_min: u32,
    pub frame_max: u32,
}

impl GridSelection {
    /// The ends are in order.
    pub open spec fn wf(self) -> bool {
        self.row_min <= self.row_max && self.frame_min <= self.frame_max
    }

    /// The cell lies in the rectangle.
    pub open spec fn covers(self, row: int, frame: int) -> bool {
        self.row_min <= row <= self.row_max && self.frame_min <= frame <= self.frame_max
    }
}

/// What a drag on the grid does.
#[derive(Clone, Copy, PartialEq, Eq, Structural, Debug)]
pub enum DragKind {
    /// Moves the playhead.
    Scrub,
    /// Spans a selection; with `in_hand` the selection is then picked up.
    Marquee { in_hand: bool },
    /// Paints a light's frames from `start` to `cur`.
    Paint { light: u32, start: u32, cur: u32 },
    /// Drags one edge of a light's bar to `cur`.
    Resize { light: u32, bar_start: u32, bar_end: u32, drag_left: bool, cur: u32 },
    /// Moves the selected region.
    Move { orig: GridSelection, grab_row: u32, grab_frame: u32, cur_row: u32, cur_frame: u32 },
}

/// A timeline row of a fixture channel: its held on/off state per frame and the
/// frames that carry a keyframe.
#[derive(Debug)]
pub struct FixtureTrack {
    pub label: String,
    pub held: Vec<bool>,
    pub keyframes: Vec<u32>,
    pub kind: FixtureKind,
    pub channel: u8,
}

// ---- fixture rows -----------------------------------------------------------

impl View for ProjectorKeyframeInput {
    type V = ProjectorKeyframeInput;

    open spec fn view(&self) -> ProjectorKeyframeInput {
        *self
    }
}

impl View for TurretKeyframeInput {
    type V = TurretKeyframeInput;

    open spec fn view(&self) -> TurretKeyframeInput {
        *self
    }
}

/// A keyframe row of a fixture.
pub trait FixtureRow: Sized {
    /// The row as bulk operations take it.
    type Input: View;

    spec fn project_of(self) -> u64;

    spec fn channel_of(self) -> u8;

    spec fn frame_of(self) -> u32;

    /// The row at another frame, as an input.
    spec fn input_at(self, frame: u32) -> <Self::Input as View>::V;

    fn project(&self) -> (r: u64)
        ensures
            r == self.project_of(),
    ;

    fn channel(&self) -> (r: u8)
        ensures
            r == self.channel_of(),
    ;

    fn frame(&self) -> (r: u32)
        ensures
            r == self.frame_of(),
    ;

    fn to_input(&self, frame: u32) -> (r: Self::Input)
        ensures
            r@ == self.input_at(frame),
    ;
}

impl FixtureRow for LaserKeyframe {
    type Input = LaserKeyframeInput;

    open spec fn project_of(self) -> u64 {
        self.project_id
    }

    open spec fn channel_of(self) -> u8 {
        self.channel
    }

    open spec fn frame_of(self) -> u32 {
        self.frame
    }

    open spec fn input_at(self, frame: u32) -> LaserInputView {
        LaserInputView {
            frame,
            channel: self.channel,
            enable: self.enable,
            pattern: self.pattern,
            cr: self.cr,
            cg: self.cg,
            cb: self.cb,
            points: self.points@,
        }
    }

    fn project(&self) -> (r: u64) {
        self.project_id
    }

    fn channel(&self) -> (r: u8) {
        self.channel
    }

    fn frame(&self) -> (r: u32) {
        self.frame
    }

    fn to_input(&self, frame: u32) -> (r: LaserKeyframeInput) {
        let r: LaserKeyframeInput = LaserKeyframeInput {
            frame,
            channel: self.channel,
            enable: self.enable,
            pattern: self.pattern,
            cr: self.cr,
            cg: self.cg,
            cb: self.cb,
            points: crate::rows::copy_vec(&self.points),
        };
        assert(r@ == self.input_at(frame));
        r
    }
}

impl FixtureRow for ProjectorKeyframe {
    type Input = ProjectorKeyframeInput;

    open spec fn project_of(self) -> u64 {
        self.project_id
    }

    open spec fn channel_of(self) -> u8 {
        self.channel
    }

    open spec fn frame_of(self) -> u32 {
        self.frame
    }

    open spec fn input_at(self, frame: u32) -> ProjectorKeyframeInput {
        ProjectorKeyframeInput {
            frame,
            channel: self.channel,
            state: self.state,
            gallery: self.gallery,
            pattern: self.pattern,
            colour: self.colour,
        }
    }

    fn project(&self) -> (r: u64) {
        self.project_id
    }

    fn channel(&self) -> (r: u8) {
        self.channel
    }

    fn frame(&self) -> (r: u32) {
        self.frame
    }

    fn to_input(&self, frame: u32) -> (r: ProjectorKeyframeInput) {
        let r: ProjectorKeyframeInput = ProjectorKeyframeInput {
            frame,
            channel: self.channel,
            state: self.state,
            gallery: self.gallery,
            pattern: self.pattern,
            colour: self.colour,
        };
        assert(r@ == self.input_at(frame));
        r
    }
}

impl FixtureRow for TurretKeyframe {
    type Input = TurretKeyframeInput;

    open spec fn project_of(self) -> u64 {
        self.project_id
    }

    open spec fn channel_of(self) -> u8 {
        self.channel
    }

    open spec fn frame_of(self) -> u32 {
        self.frame
    }

    open spec fn input_at(self, frame: u32) -> TurretKeyframeInput {
        TurretKeyframeInput { frame, channel: self.channel, state: self.state, pan: self.pan, tilt: self.tilt }
    }

    fn project(&self) -> (r: u64) {
        self.project_id
    }

    fn channel(&self) -> (r: u8) {
        self.channel
    }

    fn frame(&self) -> (r: u32) {
        self.frame
    }

    fn to_input(&self, frame: u32) -> (r: TurretKeyframeInput) {
        let r: TurretKeyframeInput = TurretKeyframeInput {
            frame,
            channel: self.channel,
            state: self.state,
            pan: self.pan,
            tilt: self.tilt,
        };
        assert(r@ == self.input_at(frame));
        r
    }
}

// ---- the clipboard ----------------------------------------------------------

/// A copied region. Light rows and frames count from the region's corner; the
/// fixtures keep their channels.
#[derive(Debug)]
pub struct Clipboard {
    pub light_span: u32,
    pub frame_span: u32,
    /// The first light row of the source, where a plain paste puts it back.
    pub src_light_min: u32,
    pub lights: Vec<LightEditInput>,
    pub lasers: Vec<LaserKeyframeInput>,
    pub projectors: Vec<ProjectorKeyframeInput>,
    pub turrets: Vec<TurretKeyframeInput>,
}

/// Laser inputs as values.
pub open spec fn laser_views(s: Seq<LaserKeyframeInput>) -> Seq<LaserInputView> {
    s.map_values(|r: LaserKeyframeInput| r@)
}

/// Light edits moved by a row and a frame offset; those past the last index are
/// left out.
pub open spec fn lights_moved(s: Seq<LightEditInput>, light: u32, frame: u32) -> Seq<LightEditInput>
    decreases s.len(),
{
    if s.len() == 0 {
        Seq::empty()
    } else {
        let rest = lights_moved(s.drop_last(), light, frame);
        let e = s.last();
        if e.light + light <= u32::MAX && e.frame + frame <= u32::MAX {
            rest.push(LightEditInput { light: (e.light + light) as u32, frame: (e.frame + frame) as u32, state: e.state })
        } else {
            rest
        }
    }
}

/// Laser keyframes moved by a frame offset.
pub open spec fn lasers_moved(s: Seq<LaserInputView>, frame: u32) -> Seq<LaserInputView>
    decreases s.len(),
{
    if s.len() == 0 {
        Seq::empty()
    } else {
        let rest = lasers_moved(s.drop_last(), frame);
        let e = s.last();
        if e.frame + frame <= u32::MAX {
            rest.push(LaserInputView { frame: (e.frame + frame) as u32, ..e })
        } else {
            rest
        }
    }
}

/// Projector keyframes moved by a frame offset.
pub open spec fn projectors_moved(s: Seq<ProjectorKeyframeInput>, frame: u32) -> Seq<ProjectorKeyframeInput>
    decreases s.len(),
{
    if s.len() == 0 {
        Seq::empty()
    } else {
        let rest = projectors_moved(s.drop_last(), frame);
        let e = s.last();
        if e.frame + frame <= u32::MAX {
            rest.push(ProjectorKeyframeInput { frame: (e.frame + frame) as u32, ..e })
        } else {
            rest
        }
    }
}

/// Turret keyframes moved by a frame offset.
pub open spec fn turrets_moved(s: Seq<TurretKeyframeInput>, frame: u32) -> Seq<TurretKeyframeInput>
    decreases s.len(),
{
    if s.len() == 0 {
        Seq::empty()
    } else {
        let rest = turrets_moved(s.drop_last(), frame);
        let e = s.last();
        if e.frame + frame <= u32::MAX {
            rest.push(TurretKeyframeInput { frame: (e.frame + frame) as u32, ..e })
        } else {
            rest
        }
    }
}

/// The distinct numbers of `s`, in order of first appearance.
pub open spec fn distinct(s: Seq<u8>) -> Seq<u8>
    decreases s.len(),
{
    if s.len() == 0 {
        Seq::empty()
    } else {
        let rest = distinct(s.drop_last());
        if rest.contains(s.last()) {
            rest
        } else {
            rest.push(s.last())
        }
    }
}

/// Adds a number that is not there yet.
fn add_distinct(v: &mut Vec<u8>, x: u8)
    ensures
        final(v)@ == (if old(v)@.contains(x) {
            old(v)@
        } else {
            old(v)@.push(x)
        }),
{
    let mut i: usize = 0;
    while i < v.len()
        invariant
            i <= v@.len(),
            v@ == old(v)@,
            forall|j: int| 0 <= j < i ==> #[trigger] v@[j] != x,
        decreases v@.len() - i,
    {
        if v[i] == x {
            assert(v@[i as int] == x);
            return;
        }
        i = i + 1;
    }
    v.push(x);
}

impl Clipboard {
    /// Nothing was copied.
    pub fn is_empty(&self) -> (r: bool)
        ensures
            r == (self.lights@.len() == 0 && self.lasers@.len() == 0 && self.projectors@.len() == 0 && self.turrets@.len() == 0),
    {
        self.lights.len() == 0 && self.lasers.len() == 0 && self.projectors.len() == 0 && self.turrets.len() == 0
    }

    /// The light edits that paste the region at `(base_light, base_frame)`.
    pub fn light_rows(&self, base_light: u32, base_frame: u32) -> (r: Vec<LightEditInput>)
        ensures
            r@ == lights_moved(self.lights@, base_light, base_frame),
    {
        let mut out: Vec<LightEditInput> = Vec::new();
        let mut i: usize = 0;
        while i < self.lights.len()
            invariant
                i <= self.lights@.len(),
                out@ == lights_moved(self.lights@.take(i as int), base_light, base_frame),
            decreases self.lights@.len() - i,
        {
            let e: LightEditInput = self.lights[i];
            match (e.light.checked_add(base_light), e.frame.checked_add(base_frame)) {
                (Some(light), Some(frame)) => {
                    out.push(LightEditInput { light, frame, state: e.state });
                },
                _ => {},
            }
            i = i + 1;
            assert(self.lights@.take(i as int).drop_last() =~= self.lights@.take(i - 1));
        }
        assert(self.lights@.take(self.lights@.len() as int) =~= self.lights@);
        out
    }

    /// The laser keyframes that paste the region at `base_frame`.
    pub fn laser_rows(&self, base_frame: u32) -> (r: Vec<LaserKeyframeInput>)
        ensures
            laser_views(r@) == lasers_moved(laser_views(self.lasers@), base_frame),
    {
        let mut out: Vec<LaserKeyframeInput> = Vec::new();
        let ghost all = laser_views(self.lasers@);
        let mut i: usize = 0;
        assert(laser_views(out@) =~= lasers_moved(all.take(0), base_frame));
        while i < self.lasers.len()
            invariant
                i <= self.lasers@.len(),
                all == laser_views(self.lasers@),
                laser_views(out@) == lasers_moved(all.take(i as int), base_frame),
            decreases self.lasers@.len() - i,
        {
            let e: &LaserKeyframeInput = &self.lasers[i];
            assert(all.take(i + 1).drop_last() =~= all.take(i as int));
            match e.frame.checked_add(base_frame) {
                Some(frame) => {
                    let mut c: LaserKeyframeInput = e.clone();
                    c.frame = frame;
                    let ghost before = out@;
                    out.push(c);
                    assert(laser_views(out@) =~= laser_views(before).push(c@));
                },
                None => {},
            }
            i = i + 1;
        }
        assert(all.take(all.len() as int) =~= all);
        out
    }

    /// The projector keyframes that paste the region at `base_frame`.
    pub fn projector_rows(&self, base_frame: u32) -> (r: Vec<ProjectorKeyframeInput>)
        ensures
            r@ == projectors_moved(self.projectors@, base_frame),
    {
        let mut out: Vec<ProjectorKeyframeInput> = Vec::new();
        let mut i: usize = 0;
        while i < self.projectors.len()
            invariant
                i <= self.projectors@.len(),
                out@ == projectors_moved(self.projectors@.take(i as int), base_frame),
            decreases self.projectors@.len() - i,
        {
            let mut e: ProjectorKeyframeInput = self.projectors[i];
            match e.frame.checked_add(base_frame) {
                Some(frame) => {
                    e.frame = frame;
                    out.push(e);
                },
                None => {},
            }
            i = i + 1;
            assert(self.projectors@.take(i as int).drop_last() =~= self.projectors@.take(i - 1));
        }
        assert(self.projectors@.take(self.projectors@.len() as int) =~= self.projectors@);
        out
    }

    /// The turret keyframes that paste the region at `base_frame`.
    pub fn turret_rows(&self, base_frame: u32) -> (r: Vec<TurretKeyframeInput>)
        ensures
            r@ == turrets_moved(self.turrets@, base_frame),
    {
        let mut out: Vec<TurretKeyframeInput> = Vec::new();
        let mut i: usize = 0;
        while i < self.turrets.len()
            invariant
                i <= self.turrets@.len(),
                out@ == turrets_moved(self.turrets@.take(i as int), base_frame),
            decreases self.turrets@.len() - i,
        {
            let mut e: TurretKeyframeInput = self.turrets[i];
            match e.frame.checked_add(base_frame) {
                Some(frame) => {
                    e.frame = frame;
                    out.push(e);
                },
                None => {},
            }
            i = i + 1;
            assert(self.turrets@.take(i as int).drop_last() =~= self.turrets@.take(i - 1));
        }
        assert(self.turrets@.take(self.turrets@.len() as int) =~= self.turrets@);
        out
    }

    /// The lights of the region as they are held, row by row.
    pub fn light_held(&self) -> (r: Vec<Vec<bool>>)
        ensures
            grid_view(r@) == held_grid(overlaid(Map::empty(), self.lights@), self.light_span as nat, self.frame_span as nat),
    {
        let mut kf: Keyframes = Keyframes::new();
        apply_pending(&mut kf, self.lights.as_slice());
        expand_held(&kf, self.light_span, self.frame_span)
    }

    /// The fixture channels the region holds keyframes of: lasers, turrets, and
    /// whether the projector is among them.
    pub fn fixture_channels(&self) -> (r: (Vec<u8>, Vec<u8>, bool))
        ensures
            r.0@ == distinct(self.lasers@.map_values(|k: LaserKeyframeInput| k.channel)),
            r.1@ == distinct(self.turrets@.map_values(|k: TurretKeyframeInput| k.channel)),
            r.2 == (self.projectors@.len() > 0),
    {
        let mut lasers: Vec<u8> = Vec::new();
        let ghost lc = self.lasers@.map_values(|k: LaserKeyframeInput| k.channel);
        let mut i: usize = 0;
        while i < self.lasers.len()
            invariant
                i <= self.lasers@.len(),
                lc == self.lasers@.map_values(|k: LaserKeyframeInput| k.channel),
                lasers@ == distinct(lc.take(i as int)),
            decreases self.lasers@.len() - i,
        {
            add_distinct(&mut lasers, self.lasers[i].channel);
            i = i + 1;
            assert(lc.take(i as int).drop_last() =~= lc.take(i - 1));
        }
        assert(lc.take(lc.len() as int) =~= lc);
        let mut turrets: Vec<u8> = Vec::new();
        let ghost tc = self.turrets@.map_values(|k: TurretKeyframeInput| k.channel);
        let mut i: usize = 0;
        while i < self.turrets.len()
            invariant
                i <= self.turrets@.len(),
                tc == self.turrets@.map_values(|k: TurretKeyframeInput| k.channel),
                turrets@ == distinct(tc.take(i as int)),
            decreases self.turrets@.len() - i,
        {
            add_distinct(&mut turrets, self.turrets[i].channel);
            i = i + 1;
            assert(tc.take(i as int).drop_last() =~= tc.take(i - 1));
        }
        assert(tc.take(tc.len() as int) =~= tc);
        (lasers, turrets, self.projectors.len() > 0)
    }
}

} // verus!
