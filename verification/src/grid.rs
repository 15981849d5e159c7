//! The timeline grid: which rows it shows, what a pointer hits, and what drags
//! and clicks do.
use crate::editing::{
    bar_at, keys_of, light_kfs, paint, painted, reconcile_light_edits, reconciling, resize, resized, run_containing, toggle,
    toggled,
};
use crate::logic::{grid_view, Keyframes};
use crate::regions::{grid_ok, moved_row, moved_rows, rows_moved};
use crate::rows::LightEditInput;
use crate::state::{DragKind, FixtureKind, FixtureTrack, GridSelection, TimelineFilter};
use vstd::prelude::*;

verus! {

broadcast use vstd::seq::group_seq_axioms;

// ---- rows -------------------------------------------------------------------

/// How many fixtures are of this kind.
pub open spec fn kind_count(fixtures: Seq<FixtureTrack>, kind: FixtureKind) -> nat
    decreases fixtures.len(),
{
    if fixtures.len() == 0 {
        0
    } else {
        kind_count(fixtures.drop_last(), kind) + if fixtures.last().kind == kind {
            1nat
        } else {
            0nat
        }
    }
}

/// Where the lasers, the turrets and the projector begin among the rows.
pub open spec fn category_starts(nl: u32, fixtures: Seq<FixtureTrack>) -> (int, int, int) {
    let lasers = kind_count(fixtures, FixtureKind::Laser);
    let turrets = kind_count(fixtures, FixtureKind::Turret);
    (nl as int, nl + lasers, nl + lasers + turrets)
}

/// The rows that a filter shows: the first, and how many.
pub open spec fn shown(filter: TimelineFilter, nl: u32, fixtures: Seq<FixtureTrack>) -> (int, int) {
    let (l, t, p) = category_starts(nl, fixtures);
    let n = fixtures.len() as int;
    match filter {
        TimelineFilter::All => (0, nl + n),
        TimelineFilter::Lights => (0, nl as int),
        TimelineFilter::Lasers => (l, t - l),
        TimelineFilter::Turrets => (t, p - t),
        TimelineFilter::Projector => (p, n - (p - nl)),
    }
}

proof fn lemma_kind_counts(fixtures: Seq<FixtureTrack>)
    ensures
        kind_count(fixtures, FixtureKind::Laser) + kind_count(fixtures, FixtureKind::Turret) <= fixtures.len(),
    decreases fixtures.len(),
{
    if fixtures.len() > 0 {
        lemma_kind_counts(fixtures.drop_last());
    }
}

/// Counts the fixtures of a kind.
fn count_kind(fixtures: &Vec<FixtureTrack>, kind: FixtureKind) -> (r: u32)
    requires
        fixtures@.len() <= u32::MAX,
    ensures
        r == kind_count(fixtures@, kind),
        r <= fixtures@.len(),
{
    let mut n: u32 = 0;
    let mut i: usize = 0;
    while i < fixtures.len()
        invariant
            i <= fixtures@.len() <= u32::MAX,
            n <= i,
            n == kind_count(fixtures@.take(i as int), kind),
        decreases fixtures@.len() - i,
    {
        if fixtures[i].kind == kind {
            n = n + 1;
        }
        i = i + 1;
        assert(fixtures@.take(i as int).drop_last() =~= fixtures@.take(i - 1));
    }
    assert(fixtures@.take(fixtures@.len() as int) =~= fixtures@);
    n
}

/// Where the lasers, the turrets and the projector begin: the rows that a divider
/// is drawn above.
pub fn category_rows(nl: u32, fixtures: &Vec<FixtureTrack>) -> (r: (u32, u32, u32))
    requires
        nl + fixtures@.len() <= u32::MAX,
    ensures
        (r.0 as int, r.1 as int, r.2 as int) == category_starts(nl, fixtures@),
{
    let lasers: u32 = count_kind(fixtures, FixtureKind::Laser);
    let turrets: u32 = count_kind(fixtures, FixtureKind::Turret);
    proof {
        lemma_kind_counts(fixtures@);
    }
    (nl, nl + lasers, nl + lasers + turrets)
}

/// The contiguous rows that the filter shows: the first, and how many.
pub fn visible_rows(filter: TimelineFilter, nl: u32, fixtures: &Vec<FixtureTrack>) -> (r: (u32, u32))
    requires
        nl + fixtures@.len() <= u32::MAX,
    ensures
        (r.0 as int, r.1 as int) == shown(filter, nl, fixtures@),
        r.0 + r.1 <= nl + fixtures@.len(),
{
    let n: u32 = fixtures.len() as u32;
    let (l, t, p) = category_rows(nl, fixtures);
    proof {
        lemma_kind_counts(fixtures@);
    }
    match filter {
        TimelineFilter::All => (0, nl + n),
        TimelineFilter::Lights => (0, nl),
        TimelineFilter::Lasers => (l, t - l),
        TimelineFilter::Turrets => (t, p - t),
        TimelineFilter::Projector => (p, n - (p - nl)),
    }
}

// ---- hits -------------------------------------------------------------------

/// Where a pointer landed on the grid: the beat ruler, a row, or off the grid.
#[derive(Clone, Copy, PartialEq, Eq, Structural, Debug)]
pub enum GridHit {
    Ruler(u32),
    Row(u32, u32),
    Outside,
}

/// A pointer position in cells of the grid, rounded toward zero.
#[derive(Clone, Copy, PartialEq, Eq, Structural, Debug)]
pub struct CellPos {
    /// Left of the first column.
    pub before: bool,
    pub column: i64,
    /// Above the rows, on the ruler.
    pub on_ruler: bool,
    pub row: i64,
}

/// The column brought onto the timeline.
pub open spec fn column_frame(column: i64, nf: u32) -> u32 {
    if column < 0 {
        0
    } else if column > nf - 1 {
        (nf - 1) as u32
    } else {
        column as u32
    }
}

/// What a position hits when `count` rows from `first` are shown.
pub open spec fn hit_at(p: CellPos, first: u32, count: u32, nf: u32) -> GridHit {
    let f = column_frame(p.column, nf);
    if p.before {
        GridHit::Outside
    } else if p.on_ruler {
        GridHit::Ruler(f)
    } else if p.row < 0 || p.row >= count {
        GridHit::Outside
    } else {
        GridHit::Row((first + p.row) as u32, f)
    }
}

/// What a position hits when `count` rows from `first` are shown.
pub fn grid_hit(p: CellPos, first: u32, count: u32, nf: u32) -> (r: GridHit)
    requires
        nf >= 1,
        first + count <= u32::MAX,
    ensures
        r == hit_at(p, first, count, nf),
        r matches GridHit::Row(c, f) ==> first <= c < first + count && f < nf,
        r matches GridHit::Ruler(f) ==> f < nf,
{
    if p.before {
        return GridHit::Outside;
    }
    let f: u32 = if p.column < 0 {
        0
    } else if p.column > nf as i64 - 1 {
        nf - 1
    } else {
        p.column as u32
    };
    if p.on_ruler {
        return GridHit::Ruler(f);
    }
    if p.row < 0 || p.row >= count as i64 {
        return GridHit::Outside;
    }
    GridHit::Row(first + p.row as u32, f)
}

/// The frame of a hit, or `fallback` off the grid.
pub open spec fn hit_frame(h: GridHit, fallback: u32) -> u32 {
    match h {
        GridHit::Ruler(f) => f,
        GridHit::Row(_, f) => f,
        GridHit::Outside => fallback,
    }
}

/// The row and frame of a hit: on the ruler the first row, off the grid the first
/// row at the playhead.
pub open spec fn hit_cell(h: GridHit, first: u32, playhead: u32) -> (u32, u32) {
    match h {
        GridHit::Row(r, f) => (r, f),
        GridHit::Ruler(f) => (first, f),
        GridHit::Outside => (first, playhead),
    }
}

impl GridHit {
    /// The frame of the hit, or `fallback` off the grid.
    pub fn frame(&self, fallback: u32) -> (r: u32)
        ensures
            r == hit_frame(*self, fallback),
    {
        match self {
            GridHit::Ruler(f) => *f,
            GridHit::Row(_, f) => *f,
            GridHit::Outside => fallback,
        }
    }

    /// The row and frame of the hit.
    pub fn cell(&self, first: u32, playhead: u32) -> (r: (u32, u32))
        ensures
            r == hit_cell(*self, first, playhead),
    {
        match self {
            GridHit::Row(r, f) => (*r, *f),
            GridHit::Ruler(f) => (first, *f),
            GridHit::Outside => (first, playhead),
        }
    }
}

// ---- drags ------------------------------------------------------------------

/// What drags and clicks on the grid change.
#[derive(Clone, Copy, PartialEq, Eq, Debug)]
pub struct GridState {
    pub selection: Option<GridSelection>,
    pub sel_anchor: Option<(u32, u32)>,
    pub drag: Option<DragKind>,
    pub current_frame: u32,
    pub playing: bool,
}

/// Which part of a bar the pointer is on.
#[derive(Clone, Copy, PartialEq, Eq, Structural, Debug)]
pub enum BarPart {
    LeftEdge,
    RightEdge,
    Body,
}

/// What surrounds a press on the grid.
#[derive(Clone, Copy, PartialEq, Eq, Structural, Debug)]
pub struct Press {
    pub shift: bool,
    pub ctrl: bool,
    /// A region is in hand.
    pub in_hand: bool,
    /// Edits are not allowed.
    pub locked: bool,
    /// Number of lights.
    pub nl: u32,
    /// First row shown.
    pub first: u32,
    pub part: BarPart,
}

/// A selection of one cell.
pub open spec fn one_cell(c: (u32, u32)) -> GridSelection {
    GridSelection { row_min: c.0, row_max: c.0, frame_min: c.1, frame_max: c.1 }
}

/// The drag that a press on row `c` of a light begins.
pub open spec fn light_drag(row: Seq<bool>, c: u32, f: u32, part: BarPart) -> DragKind {
    match bar_at(row, f as int) {
        Some((s, e)) => match part {
            BarPart::LeftEdge => DragKind::Resize { light: c, bar_start: s, bar_end: e, drag_left: true, cur: s },
            BarPart::RightEdge => DragKind::Resize { light: c, bar_start: s, bar_end: e, drag_left: false, cur: e },
            BarPart::Body => DragKind::Paint { light: c, start: f, cur: f },
        },
        None => DragKind::Paint { light: c, start: f, cur: f },
    }
}

/// The state after a drag begins at `hit`.
pub open spec fn drag_begun(s: GridState, hit: Option<GridHit>, p: Press, held: Seq<Seq<bool>>) -> GridState {
    match hit {
        None => GridState { drag: None, ..s },
        Some(h) => if p.shift || p.ctrl {
            let c = hit_cell(h, p.first, s.current_frame);
            GridState {
                sel_anchor: Some(c),
                selection: Some(one_cell(c)),
                drag: Some(DragKind::Marquee { in_hand: p.ctrl && !p.shift }),
                ..s
            }
        } else {
            match h {
                GridHit::Ruler(f) => GridState { current_frame: f, playing: false, drag: Some(DragKind::Scrub), ..s },
                GridHit::Row(c, f) => {
                    let drag = if p.in_hand {
                        None
                    } else if s.selection matches Some(sel) && sel.covers(c as int, f as int) {
                        Some(DragKind::Move { orig: s.selection->0, grab_row: c, grab_frame: f, cur_row: c, cur_frame: f })
                    } else if !p.locked && c < p.nl {
                        Some(light_drag(held[c as int], c, f, p.part))
                    } else {
                        None
                    };
                    GridState { drag, ..s }
                },
                GridHit::Outside => GridState { drag: None, ..s },
            }
        },
    }
}

/// A drag names lights and frames of the project.
pub open spec fn drag_ok(drag: Option<DragKind>, nl: u32, nf: u32) -> bool {
    match drag {
        Some(DragKind::Paint { light, start, cur }) => light < nl && start < nf && cur < nf,
        Some(DragKind::Resize { light, bar_start, bar_end, cur, .. }) => light < nl && bar_start < nf && bar_end < nf && cur < nf,
        Some(DragKind::Move { orig, .. }) => orig.wf() && orig.frame_max < nf,
        _ => true,
    }
}

/// The selection and the playhead lie on the timeline, and the drag fits.
pub open spec fn state_ok(s: GridState, nl: u32, nf: u32) -> bool {
    &&& s.current_frame < nf
    &&& s.selection matches Some(sel) ==> sel.wf() && sel.frame_max < nf
    &&& s.sel_anchor matches Some(a) ==> a.1 < nf
    &&& drag_ok(s.drag, nl, nf)
}

/// A hit lies on the timeline.
pub open spec fn hit_ok(h: Option<GridHit>, nf: u32) -> bool {
    match h {
        Some(GridHit::Ruler(f)) => f < nf,
        Some(GridHit::Row(_, f)) => f < nf,
        _ => true,
    }
}

/// Begins a drag. With Shift or Ctrl it spans a selection (with Ctrl alone to
/// pick it up); on the ruler it scrubs; inside the selection it moves it; and on
/// a light it drags a bar's edge or paints.
pub fn drag_started(s: &mut GridState, hit: Option<GridHit>, p: Press, held: &Vec<Vec<bool>>, nf: u32)
    requires
        grid_ok(held@, p.nl, nf),
        state_ok(*old(s), p.nl, nf),
        hit_ok(hit, nf),
    ensures
        *final(s) == drag_begun(*old(s), hit, p, grid_view(held@)),
        state_ok(*final(s), p.nl, nf),
{
    s.drag = None;
    match hit {
        None => {},
        Some(h) => {
            if p.shift || p.ctrl {
                let c: (u32, u32) = h.cell(p.first, s.current_frame);
                s.sel_anchor = Some(c);
                s.selection = Some(GridSelection { row_min: c.0, row_max: c.0, frame_min: c.1, frame_max: c.1 });
                s.drag = Some(DragKind::Marquee { in_hand: p.ctrl && !p.shift });
            } else {
                match h {
                    GridHit::Ruler(f) => {
                        s.current_frame = f;
                        s.playing = false;
                        s.drag = Some(DragKind::Scrub);
                    },
                    GridHit::Row(c, f) => {
                        let inside: Option<GridSelection> = match s.selection {
                            Some(sel) => {
                                if c >= sel.row_min && c <= sel.row_max && f >= sel.frame_min && f <= sel.frame_max {
                                    Some(sel)
                                } else {
                                    None
                                }
                            },
                            None => None,
                        };
                        if !p.in_hand {
                            match inside {
                                Some(sel) => {
                                    s.drag = Some(
                                        DragKind::Move { orig: sel, grab_row: c, grab_frame: f, cur_row: c, cur_frame: f },
                                    );
                                },
                                None => {
                                    if !p.locked && c < p.nl {
                                        assert(grid_view(held@)[c as int] == held@[c as int]@);
                                        let bar: Option<(u32, u32)> = run_containing(held[c as usize].as_slice(), f);
                                        s.drag = Some(
                                            match bar {
                                                Some((bs, be)) => match p.part {
                                                    BarPart::LeftEdge => DragKind::Resize {
                                                        light: c,
                                                        bar_start: bs,
                                                        bar_end: be,
                                                        drag_left: true,
                                                        cur: bs,
                                                    },
                                                    BarPart::RightEdge => DragKind::Resize {
                                                        light: c,
                                                        bar_start: bs,
                                                        bar_end: be,
                                                        drag_left: false,
                                                        cur: be,
                                                    },
                                                    BarPart::Body => DragKind::Paint { light: c, start: f, cur: f },
                                                },
                                                None => DragKind::Paint { light: c, start: f, cur: f },
                                            },
                                        );
                                    }
                                },
                            }
                        }
                    },
                    GridHit::Outside => {},
                }
            }
        },
    }
}

/// The selection spanned by two cells.
pub open spec fn spanned(a: (u32, u32), b: (u32, u32)) -> GridSelection {
    GridSelection {
        row_min: if a.0 < b.0 { a.0 } else { b.0 },
        row_max: if a.0 > b.0 { a.0 } else { b.0 },
        frame_min: if a.1 < b.1 { a.1 } else { b.1 },
        frame_max: if a.1 > b.1 { a.1 } else { b.1 },
    }
}

/// The state after the pointer of a drag moved to `hit`. `playhead` is where the
/// playhead stood before this frame.
pub open spec fn drag_moved(s: GridState, hit: Option<GridHit>, first: u32, playhead: u32) -> GridState {
    if hit is None || s.drag is None {
        s
    } else {
        let h = hit->0;
        let f = hit_frame(h, playhead);
        let c = hit_cell(h, first, playhead);
        match s.drag->0 {
            DragKind::Scrub => GridState { current_frame: f, playing: false, ..s },
            DragKind::Marquee { .. } => match s.sel_anchor {
                Some(a) => GridState { selection: Some(spanned(a, c)), ..s },
                None => s,
            },
            DragKind::Paint { light, start, .. } => GridState { drag: Some(DragKind::Paint { light, start, cur: f }), ..s },
            DragKind::Resize { light, bar_start, bar_end, drag_left, .. } => GridState {
                drag: Some(DragKind::Resize { light, bar_start, bar_end, drag_left, cur: f }),
                ..s
            },
            DragKind::Move { orig, grab_row, grab_frame, .. } => GridState {
                drag: Some(DragKind::Move { orig, grab_row, grab_frame, cur_row: c.0, cur_frame: c.1 }),
                ..s
            },
        }
    }
}

/// Follows the pointer of a drag.
pub fn dragged(s: &mut GridState, hit: Option<GridHit>, first: u32, playhead: u32, nl: u32, nf: u32)
    requires
        state_ok(*old(s), nl, nf),
        hit_ok(hit, nf),
        playhead < nf,
    ensures
        *final(s) == drag_moved(*old(s), hit, first, playhead),
        state_ok(*final(s), nl, nf),
{
    match (hit, s.drag) {
        (Some(h), Some(drag)) => {
            let f: u32 = h.frame(playhead);
            let c: (u32, u32) = h.cell(first, playhead);
            match drag {
                DragKind::Scrub => {
                    s.current_frame = f;
                    s.playing = false;
                },
                DragKind::Marquee { .. } => {
                    match s.sel_anchor {
                        Some(a) => {
                            s.selection = Some(
                                GridSelection {
                                    row_min: if a.0 < c.0 { a.0 } else { c.0 },
                                    row_max: if a.0 > c.0 { a.0 } else { c.0 },
                                    frame_min: if a.1 < c.1 { a.1 } else { c.1 },
                                    frame_max: if a.1 > c.1 { a.1 } else { c.1 },
                                },
                            );
                        },
                        None => {},
                    }
                },
                DragKind::Paint { light, start, .. } => {
                    s.drag = Some(DragKind::Paint { light, start, cur: f });
                },
                DragKind::Resize { light, bar_start, bar_end, drag_left, .. } => {
                    s.drag = Some(DragKind::Resize { light, bar_start, bar_end, drag_left, cur: f });
                },
                DragKind::Move { orig, grab_row, grab_frame, .. } => {
                    s.drag = Some(DragKind::Move { orig, grab_row, grab_frame, cur_row: c.0, cur_frame: c.1 });
                },
            }
        },
        _ => {},
    }
}

/// What the end of a drag asks for.
#[derive(Clone, Copy, PartialEq, Eq, Structural, Debug)]
pub enum DragEnd {
    Nothing,
    /// Take this region in hand.
    PickUp(GridSelection),
    /// Give the light the row that the drag shows.
    EditRow(DragKind),
    /// Move the region by so many rows and frames.
    MoveRegion { orig: GridSelection, drow: i64, dframe: i64 },
}

/// `n` brought between zero and `hi`.
pub open spec fn clamp_index(n: int, hi: int) -> int {
    if n < 0 {
        0
    } else if n > hi {
        hi
    } else {
        n
    }
}

/// Where a moved selection lies, brought onto the grid.
pub open spec fn destination(orig: GridSelection, drow: int, dframe: int, rows: u32, nf: u32) -> GridSelection {
    GridSelection {
        row_min: clamp_index(orig.row_min + drow, rows - 1) as u32,
        row_max: clamp_index(orig.row_max + drow, rows - 1) as u32,
        frame_min: clamp_index(orig.frame_min + dframe, nf - 1) as u32,
        frame_max: clamp_index(orig.frame_max + dframe, nf - 1) as u32,
    }
}

fn clamped_index(n: u32, d: i64, hi: u32) -> (r: u32)
    requires
        -0x1_0000_0000 < d < 0x1_0000_0000,
    ensures
        r == clamp_index(n + d, hi as int),
{
    let x: i64 = n as i64 + d;
    if x < 0 {
        0
    } else if x > hi as i64 {
        hi
    } else {
        x as u32
    }
}

/// Where a moved selection lies, brought onto the grid.
pub fn move_destination(orig: GridSelection, drow: i64, dframe: i64, rows: u32, nf: u32) -> (r: GridSelection)
    requires
        rows >= 1,
        nf >= 1,
        -0x1_0000_0000 < drow < 0x1_0000_0000,
        -0x1_0000_0000 < dframe < 0x1_0000_0000,
    ensures
        r == destination(orig, drow as int, dframe as int, rows, nf),
        orig.wf() ==> r.wf(),
        r.frame_max < nf,
{
    GridSelection {
        row_min: clamped_index(orig.row_min, drow, rows - 1),
        row_max: clamped_index(orig.row_max, drow, rows - 1),
        frame_min: clamped_index(orig.frame_min, dframe, nf - 1),
        frame_max: clamped_index(orig.frame_max, dframe, nf - 1),
    }
}

/// What the end of a drag asks for.
pub open spec fn drag_result(s: GridState, locked: bool) -> DragEnd {
    match s.drag {
        Some(DragKind::Marquee { in_hand }) => match s.selection {
            Some(sel) => if in_hand {
                DragEnd::PickUp(sel)
            } else {
                DragEnd::Nothing
            },
            None => DragEnd::Nothing,
        },
        Some(DragKind::Paint { light, start, cur }) => if locked {
            DragEnd::Nothing
        } else {
            DragEnd::EditRow(DragKind::Paint { light, start, cur })
        },
        Some(DragKind::Resize { light, bar_start, bar_end, drag_left, cur }) => if locked {
            DragEnd::Nothing
        } else {
            DragEnd::EditRow(DragKind::Resize { light, bar_start, bar_end, drag_left, cur })
        },
        Some(DragKind::Move { orig, grab_row, grab_frame, cur_row, cur_frame }) => if locked {
            DragEnd::Nothing
        } else {
            DragEnd::MoveRegion { orig, drow: (cur_row - grab_row) as i64, dframe: (cur_frame - grab_frame) as i64 }
        },
        _ => DragEnd::Nothing,
    }
}

/// The state after a drag ended: a picked-up selection is gone, and a moved one
/// lies at its destination.
pub open spec fn drag_ended(s: GridState, locked: bool, rows: u32, nf: u32) -> GridState {
    GridState {
        sel_anchor: None,
        drag: None,
        selection: match drag_result(s, locked) {
            DragEnd::PickUp(_) => None,
            DragEnd::MoveRegion { orig, drow, dframe } => Some(destination(orig, drow as int, dframe as int, rows, nf)),
            _ => s.selection,
        },
        ..s
    }
}

/// Ends a drag.
pub fn drag_stopped(s: &mut GridState, locked: bool, rows: u32, nl: u32, nf: u32) -> (r: DragEnd)
    requires
        state_ok(*old(s), nl, nf),
        rows >= 1,
    ensures
        r == drag_result(*old(s), locked),
        *final(s) == drag_ended(*old(s), locked, rows, nf),
        state_ok(*final(s), nl, nf),
        r matches DragEnd::EditRow(d) ==> drag_ok(Some(d), nl, nf),
        r matches DragEnd::MoveRegion { orig, .. } ==> orig.wf() && orig.frame_max < nf,
{
    let drag: Option<DragKind> = s.drag;
    s.sel_anchor = None;
    s.drag = None;
    match drag {
        Some(DragKind::Marquee { in_hand }) => {
            if in_hand {
                match s.selection {
                    Some(sel) => {
                        s.selection = None;
                        return DragEnd::PickUp(sel);
                    },
                    None => {},
                }
            }
            DragEnd::Nothing
        },
        Some(DragKind::Paint { light, start, cur }) => {
            if locked {
                DragEnd::Nothing
            } else {
                DragEnd::EditRow(DragKind::Paint { light, start, cur })
            }
        },
        Some(DragKind::Resize { light, bar_start, bar_end, drag_left, cur }) => {
            if locked {
                DragEnd::Nothing
            } else {
                DragEnd::EditRow(DragKind::Resize { light, bar_start, bar_end, drag_left, cur })
            }
        },
        Some(DragKind::Move { orig, grab_row, grab_frame, cur_row, cur_frame }) => {
            if locked {
                DragEnd::Nothing
            } else {
                let drow: i64 = cur_row as i64 - grab_row as i64;
                let dframe: i64 = cur_frame as i64 - grab_frame as i64;
                s.selection = Some(move_destination(orig, drow, dframe, rows, nf));
                DragEnd::MoveRegion { orig, drow, dframe }
            }
        },
        _ => DragEnd::Nothing,
    }
}

/// The row of a light while a drag is in progress, where the drag affects it.
pub open spec fn preview(drag: Option<DragKind>, held: Seq<Seq<bool>>, nl: u32, nf: u32, light: u32) -> Option<Seq<bool>> {
    match drag {
        Some(DragKind::Paint { light: l, start, cur }) => if l == light {
            Some(painted(held[light as int], start, cur))
        } else {
            None
        },
        Some(DragKind::Resize { light: l, bar_start, bar_end, drag_left, cur }) => if l == light {
            Some(resized(held[light as int], bar_start, bar_end, drag_left, cur))
        } else {
            None
        },
        Some(DragKind::Move { orig, grab_row, grab_frame, cur_row, cur_frame }) => if moved_rows(orig, cur_row - grab_row, nl)(
            light as int,
        ) {
            Some(rows_moved(held, orig, cur_row - grab_row, cur_frame - grab_frame, nl, nf)(light as int))
        } else {
            None
        },
        _ => None,
    }
}

/// The row of a light while a drag is in progress, where the drag affects it: the
/// bar grows, shrinks or moves under the pointer.
pub fn preview_row(drag: Option<DragKind>, held: &Vec<Vec<bool>>, nl: u32, nf: u32, light: u32) -> (r: Option<Vec<bool>>)
    requires
        grid_ok(held@, nl, nf),
        drag_ok(drag, nl, nf),
        light < nl,
    ensures
        match r {
            Some(row) => preview(drag, grid_view(held@), nl, nf, light) == Some(row@),
            None => preview(drag, grid_view(held@), nl, nf, light) is None,
        },
        r matches Some(row) ==> row@.len() == nf,
{
    assert(grid_view(held@)[light as int] == held@[light as int]@);
    match drag {
        Some(DragKind::Paint { light: l, start, cur }) => {
            if l == light {
                Some(paint(&held[light as usize], start, cur))
            } else {
                None
            }
        },
        Some(DragKind::Resize { light: l, bar_start, bar_end, drag_left, cur }) => {
            if l == light {
                Some(resize(&held[light as usize], bar_start, bar_end, drag_left, cur))
            } else {
                None
            }
        },
        Some(DragKind::Move { orig, grab_row, grab_frame, cur_row, cur_frame }) => {
            let drow: i64 = cur_row as i64 - grab_row as i64;
            let dframe: i64 = cur_frame as i64 - grab_frame as i64;
            let sl: i64 = light as i64 - drow;
            let was: bool = orig.row_min <= light && light <= orig.row_max;
            let comes: bool = sl >= 0 && sl < nl as i64 && sl >= orig.row_min as i64 && sl <= orig.row_max as i64;
            if was || comes {
                Some(moved_row(held, orig, drow, dframe, nl, nf, light))
            } else {
                None
            }
        },
        _ => None,
    }
}

/// The light that a paint or resize drag edits.
pub open spec fn drag_light(d: DragKind) -> u32 {
    match d {
        DragKind::Paint { light, .. } => light,
        DragKind::Resize { light, .. } => light,
        _ => 0,
    }
}

/// The edits that a finished paint or resize drag makes: those that give the
/// light the row that the drag showed.
pub fn drag_edits(d: DragKind, held: &Vec<Vec<bool>>, keyframes: &Keyframes, nl: u32, nf: u32) -> (r: Vec<LightEditInput>)
    requires
        grid_ok(held@, nl, nf),
        drag_ok(Some(d), nl, nf),
        d is Paint || d is Resize,
    ensures
        r@ == reconciling(
            drag_light(d),
            keys_of(keyframes@, drag_light(d)),
            preview(Some(d), grid_view(held@), nl, nf, drag_light(d))->0,
        ),
{
    let light: u32 = match d {
        DragKind::Paint { light, .. } => light,
        DragKind::Resize { light, .. } => light,
        _ => 0,
    };
    let row: Option<Vec<bool>> = preview_row(Some(d), held, nl, nf, light);
    let mut out: Vec<LightEditInput> = Vec::new();
    match row {
        Some(desired) => {
            let keys: Vec<(u32, bool)> = light_kfs(keyframes, light);
            reconcile_light_edits(light, &keys, desired.as_slice(), &mut out);
            assert(out@ =~= reconciling(light, keys@, desired@));
        },
        None => {},
    }
    out
}

// ---- clicks -----------------------------------------------------------------

/// What a click asks for.
#[derive(Clone, Copy, PartialEq, Eq, Structural, Debug)]
pub enum ClickEnd {
    Nothing,
    /// Stamp the region in hand here.
    Stamp { base_light: u32, base_frame: u32 },
    /// Flip one frame of a light.
    Toggle { light: u32, frame: u32 },
}

/// The larger of a span and one.
pub open spec fn at_least_one(n: u32) -> u32 {
    if n == 0 {
        1
    } else {
        n
    }
}

/// `a - b`, not below zero.
pub open spec fn minus(a: u32, b: u32) -> u32 {
    if a < b {
        0
    } else {
        (a - b) as u32
    }
}

/// Where a region of this size lands when dropped on a cell: pushed back so that
/// it fits, and on a fixture row at the first light.
pub open spec fn drop_base(c: u32, f: u32, light_span: u32, frame_span: u32, nl: u32, nf: u32) -> (u32, u32) {
    let lmax = minus(nl, at_least_one(light_span));
    let fmax = minus(nf, at_least_one(frame_span));
    (
        if c < nl {
            if c < lmax {
                c
            } else {
                lmax
            }
        } else {
            0
        },
        if f < fmax {
            f
        } else {
            fmax
        },
    )
}

/// Where a region of this size lands when dropped on a cell.
pub fn stamp_base(c: u32, f: u32, light_span: u32, frame_span: u32, nl: u32, nf: u32) -> (r: (u32, u32))
    ensures
        r == drop_base(c, f, light_span, frame_span, nl, nf),
{
    let ls: u32 = if light_span == 0 { 1 } else { light_span };
    let fs: u32 = if frame_span == 0 { 1 } else { frame_span };
    let lmax: u32 = if nl < ls { 0 } else { nl - ls };
    let fmax: u32 = if nf < fs { 0 } else { nf - fs };
    let bl: u32 = if c < nl {
        if c < lmax {
            c
        } else {
            lmax
        }
    } else {
        0
    };
    let bf: u32 = if f < fmax {
        f
    } else {
        fmax
    };
    (bl, bf)
}

/// Where the region in hand is shown: under the pointer, or at the playhead while
/// the pointer is on no row.
pub fn hand_base(hit: Option<GridHit>, playhead: u32, light_span: u32, frame_span: u32, nl: u32, nf: u32) -> (r: (u32, u32))
    ensures
        r == (match hit {
            Some(GridHit::Row(c, f)) => drop_base(c, f, light_span, frame_span, nl, nf),
            _ => (0u32, drop_base(0, playhead, light_span, frame_span, nl, nf).1),
        }),
        1 <= light_span <= nl && 1 <= frame_span <= nf ==> r.0 + light_span <= nl && r.1 + frame_span <= nf,
{
    match hit {
        Some(GridHit::Row(c, f)) => stamp_base(c, f, light_span, frame_span, nl, nf),
        _ => {
            let b: (u32, u32) = stamp_base(0, playhead, light_span, frame_span, nl, nf);
            (0, b.1)
        },
    }
}

/// What a click asks for; `hand` is the size of the region in hand.
pub open spec fn click_result(hit: GridHit, hand: Option<(u32, u32)>, locked: bool, nl: u32, nf: u32) -> ClickEnd {
    match hit {
        GridHit::Row(c, f) => match hand {
            Some((ls, fs)) => if locked {
                ClickEnd::Nothing
            } else {
                let b = drop_base(c, f, ls, fs, nl, nf);
                ClickEnd::Stamp { base_light: b.0, base_frame: b.1 }
            },
            None => if !locked && c < nl {
                ClickEnd::Toggle { light: c, frame: f }
            } else {
                ClickEnd::Nothing
            },
        },
        _ => ClickEnd::Nothing,
    }
}

/// The state after a click: the ruler moves the playhead (and stops playback
/// unless a region is in hand), and a row drops the selection unless one is.
pub open spec fn clicked_state(s: GridState, hit: GridHit, hand: bool) -> GridState {
    match hit {
        GridHit::Ruler(f) => GridState { current_frame: f, playing: s.playing && hand, ..s },
        GridHit::Row(..) => if hand {
            s
        } else {
            GridState { selection: None, ..s }
        },
        GridHit::Outside => s,
    }
}

/// Handles a plain click.
pub fn clicked(s: &mut GridState, hit: GridHit, hand: Option<(u32, u32)>, locked: bool, nl: u32, nf: u32) -> (r: ClickEnd)
    ensures
        r == click_result(hit, hand, locked, nl, nf),
        *final(s) == clicked_state(*old(s), hit, hand is Some),
{
    match hit {
        GridHit::Ruler(f) => {
            s.current_frame = f;
            match hand {
                None => {
                    s.playing = false;
                },
                Some(_) => {},
            }
            ClickEnd::Nothing
        },
        GridHit::Row(c, f) => match hand {
            Some((ls, fs)) => {
                if locked {
                    ClickEnd::Nothing
                } else {
                    let b: (u32, u32) = stamp_base(c, f, ls, fs, nl, nf);
                    ClickEnd::Stamp { base_light: b.0, base_frame: b.1 }
                }
            },
            None => {
                s.selection = None;
                if !locked && c < nl {
                    ClickEnd::Toggle { light: c, frame: f }
                } else {
                    ClickEnd::Nothing
                }
            },
        },
        GridHit::Outside => ClickEnd::Nothing,
    }
}

/// The edits that flip one frame of a light and leave its other frames.
pub fn toggle_edits(light: u32, frame: u32, held: &Vec<Vec<bool>>, keyframes: &Keyframes, nl: u32, nf: u32) -> (r: Vec<LightEditInput>)
    requires
        grid_ok(held@, nl, nf),
        light < nl,
        frame < nf,
    ensures
        r@ == reconciling(light, keys_of(keyframes@, light), toggled(grid_view(held@)[light as int], frame)),
{
    assert(grid_view(held@)[light as int] == held@[light as int]@);
    let desired: Vec<bool> = toggle(&held[light as usize], frame);
    let keys: Vec<(u32, bool)> = light_kfs(keyframes, light);
    let mut out: Vec<LightEditInput> = Vec::new();
    reconcile_light_edits(light, &keys, desired.as_slice(), &mut out);
    assert(out@ =~= reconciling(light, keys@, desired@));
    out
}

/// What a right click asks for.
#[derive(Clone, Copy, PartialEq, Eq, Structural, Debug)]
pub enum MenuEnd {
    Nothing,
    /// Let go of the region in hand.
    Drop,
    /// Edit the keyframe of a fixture row at a frame.
    Edit { fixture: u32, frame: u32 },
}

/// Handles a right click: it lets go of a region in hand, and else opens the
/// editor of a fixture row.
pub fn secondary_clicked(hit: Option<GridHit>, in_hand: bool, locked: bool, nl: u32) -> (r: MenuEnd)
    ensures
        r == (if in_hand {
            MenuEnd::Drop
        } else {
            match hit {
                Some(GridHit::Row(c, f)) => if !locked && c >= nl {
                    MenuEnd::Edit { fixture: (c - nl) as u32, frame: f }
                } else {
                    MenuEnd::Nothing
                },
                _ => MenuEnd::Nothing,
            }
        }),
{
    if in_hand {
        return MenuEnd::Drop;
    }
    match hit {
        Some(GridHit::Row(c, f)) => {
            if !locked && c >= nl {
                MenuEnd::Edit { fixture: c - nl, frame: f }
            } else {
                MenuEnd::Nothing
            }
        },
        _ => MenuEnd::Nothing,
    }
}

} // verus!
