//! What gestures on the grid come to.
use crate::editing::{bar_at, is_bar, law_bars_are_disjoint, law_paint, law_reconciled_row, law_resize, light_keys, reconciling};
use crate::grid::{
    category_starts, click_result, clicked_state, destination, drag_begun, drag_ended, drag_light, drag_moved, drag_result, drop_base, hit_at,
    kind_count, preview, shown, spanned, BarPart, CellPos, ClickEnd, DragEnd, GridHit, GridState, Press,
};
use crate::logic::{held_at, held_row, key_at, overlaid};
use crate::state::{DragKind, FixtureKind, FixtureTrack, GridSelection, TimelineFilter};
use vstd::prelude::*;

verus! {

broadcast use vstd::seq::group_seq_axioms;

// ---- which rows a filter shows ----------------------------------------------

/// Where a kind stands among the rows: lasers before turrets before the projector.
pub open spec fn place_of(kind: FixtureKind) -> int {
    match kind {
        FixtureKind::Laser => 0,
        FixtureKind::Turret => 1,
        FixtureKind::Projector => 2,
    }
}

proof fn lemma_counts(fixtures: Seq<FixtureTrack>)
    requires
        forall|i: int, j: int| 0 <= i < j < fixtures.len() ==> place_of((#[trigger] fixtures[i]).kind) <= place_of((#[trigger] fixtures[j]).kind),
    ensures
        ({
            let l = kind_count(fixtures, FixtureKind::Laser);
            let t = kind_count(fixtures, FixtureKind::Turret);
            &&& l + t <= fixtures.len()
            &&& forall|r: int|
                0 <= r < fixtures.len() ==> {
                    &&& (#[trigger] fixtures[r]).kind == FixtureKind::Laser <==> r < l
                    &&& fixtures[r].kind == FixtureKind::Turret <==> l <= r < l + t
                    &&& fixtures[r].kind == FixtureKind::Projector <==> l + t <= r
                }
        }),
    decreases fixtures.len(),
{
    if fixtures.len() > 0 {
        let p = fixtures.drop_last();
        let z = fixtures.len() - 1;
        assert forall|i: int, j: int| 0 <= i < j < p.len() implies place_of((#[trigger] p[i]).kind) <= place_of((#[trigger] p[j]).kind) by {
            assert(p[i] == fixtures[i] && p[j] == fixtures[j]);
        }
        lemma_counts(p);
        let l = kind_count(p, FixtureKind::Laser);
        let t = kind_count(p, FixtureKind::Turret);
        assert forall|r: int| 0 <= r < z implies #[trigger] p[r] == fixtures[r] && place_of(fixtures[r].kind) <= place_of(fixtures[z].kind) by {}
        if fixtures[z].kind == FixtureKind::Laser && z > 0 {
            assert(p[z - 1].kind == FixtureKind::Laser);
            assert(l == z);
        }
        if fixtures[z].kind == FixtureKind::Turret && z > 0 {
            assert(p[z - 1].kind != FixtureKind::Projector);
            assert(l + t == z);
        }
        assert forall|r: int| 0 <= r < fixtures.len() implies {
            let l2 = kind_count(fixtures, FixtureKind::Laser);
            let t2 = kind_count(fixtures, FixtureKind::Turret);
            &&& (#[trigger] fixtures[r]).kind == FixtureKind::Laser <==> r < l2
            &&& fixtures[r].kind == FixtureKind::Turret <==> l2 <= r < l2 + t2
            &&& fixtures[r].kind == FixtureKind::Projector <==> l2 + t2 <= r
        } by {
            if r < z {
                assert(p[r] == fixtures[r]);
            }
        }
    }
}

/// A filter shows its own rows and no others: where lasers come before turrets and those
/// before the projector, a row is shown exactly where it is of the filter's kind, and
/// without a filter every row is shown.
pub proof fn law_filter_shows(filter: TimelineFilter, nl: u32, fixtures: Seq<FixtureTrack>, row: int)
    requires
        forall|i: int, j: int| 0 <= i < j < fixtures.len() ==> place_of((#[trigger] fixtures[i]).kind) <= place_of((#[trigger] fixtures[j]).kind),
        0 <= row < nl + fixtures.len(),
    ensures
        shown(filter, nl, fixtures).0 <= row < shown(filter, nl, fixtures).0 + shown(filter, nl, fixtures).1 <==> match filter {
            TimelineFilter::All => true,
            TimelineFilter::Lights => row < nl,
            TimelineFilter::Lasers => row >= nl && fixtures[row - nl].kind == FixtureKind::Laser,
            TimelineFilter::Turrets => row >= nl && fixtures[row - nl].kind == FixtureKind::Turret,
            TimelineFilter::Projector => row >= nl && fixtures[row - nl].kind == FixtureKind::Projector,
        },
        row == category_starts(nl, fixtures).1 && row > nl ==> fixtures[row - nl - 1].kind == FixtureKind::Laser,
{
    lemma_counts(fixtures);
}

// ---- what a pointer hits ----------------------------------------------------

/// A position over the shown rows hits the row under it, and off the timeline's ends the
/// nearest frame; one on the ruler hits its frame; everything else hits nothing.
pub proof fn law_hit(p: CellPos, first: u32, count: u32, nf: u32, g: u32)
    requires
        nf >= 1,
        first + count <= u32::MAX,
        g < nf,
    ensures
        match hit_at(p, first, count, nf) {
            GridHit::Row(c, f) => {
                &&& !p.before && !p.on_ruler
                &&& c == first + p.row && first <= c < first + count
                &&& f < nf
                &&& 0 <= p.column < nf ==> f == p.column
                &&& p.column >= g ==> f >= g
                &&& p.column <= g ==> f <= g
            },
            GridHit::Ruler(f) => {
                &&& !p.before && p.on_ruler
                &&& f < nf
                &&& p.column >= g ==> f >= g
                &&& p.column <= g ==> f <= g
            },
            GridHit::Outside => p.before || !p.on_ruler && !(0 <= p.row < count),
        },
{
}

// ---- dropping a region ------------------------------------------------------

/// A dropped region that is not larger than the grid fits onto it: it starts at the
/// cell that it is dropped on, or so much before it that it just fits. On a fixture row
/// it starts at the first light.
pub proof fn law_drop_fits(c: u32, f: u32, light_span: u32, frame_span: u32, nl: u32, nf: u32)
    requires
        1 <= light_span <= nl,
        1 <= frame_span <= nf,
    ensures
        ({
            let b = drop_base(c, f, light_span, frame_span, nl, nf);
            &&& b.0 + light_span <= nl
            &&& b.1 + frame_span <= nf
            &&& c < nl && c + light_span <= nl ==> b.0 == c
            &&& c < nl && c + light_span > nl ==> b.0 + light_span == nl
            &&& c >= nl ==> b.0 == 0
            &&& f + frame_span <= nf ==> b.1 == f
            &&& f + frame_span > nf ==> b.1 + frame_span == nf
        }),
{
}

/// A moved selection goes as far as it is moved, as long as it stays on the grid; each
/// of its edges stops at the grid's.
pub proof fn law_destination(orig: GridSelection, drow: int, dframe: int, rows: u32, nf: u32)
    requires
        rows >= 1,
        nf >= 1,
    ensures
        ({
            let d = destination(orig, drow, dframe, rows, nf);
            &&& d.row_max < rows && d.row_min < rows && d.frame_min < nf && d.frame_max < nf
            &&& 0 <= orig.row_min + drow < rows ==> d.row_min == orig.row_min + drow
            &&& 0 <= orig.row_max + drow < rows ==> d.row_max == orig.row_max + drow
            &&& 0 <= orig.frame_min + dframe < nf ==> d.frame_min == orig.frame_min + dframe
            &&& 0 <= orig.frame_max + dframe < nf ==> d.frame_max == orig.frame_max + dframe
            &&& orig.row_min + drow < 0 ==> d.row_min == 0
            &&& orig.row_max + drow < 0 ==> d.row_max == 0
            &&& orig.frame_min + dframe < 0 ==> d.frame_min == 0
            &&& orig.frame_max + dframe < 0 ==> d.frame_max == 0
            &&& orig.row_min + drow >= rows ==> d.row_min == rows - 1
            &&& orig.row_max + drow >= rows ==> d.row_max == rows - 1
            &&& orig.frame_min + dframe >= nf ==> d.frame_min == nf - 1
            &&& orig.frame_max + dframe >= nf ==> d.frame_max == nf - 1
        }),
{
}

// ---- gestures ---------------------------------------------------------------

/// With Shift or Ctrl a drag from one cell to another selects exactly the cells between
/// them: the smallest rectangle that holds both. With Ctrl alone the end of the drag
/// picks the region up and leaves no selection; else it stays selected.
pub proof fn law_marquee(s: GridState, p: Press, a: (u32, u32), b: (u32, u32), held: Seq<Seq<bool>>, playhead: u32, locked: bool, rows: u32, nf: u32)
    requires
        p.shift || p.ctrl,
    ensures
        ({
            let begun = drag_begun(s, Some(GridHit::Row(a.0, a.1)), p, held);
            let moved = drag_moved(begun, Some(GridHit::Row(b.0, b.1)), p.first, playhead);
            let end = drag_ended(moved, locked, rows, nf);
            &&& begun.selection == Some(spanned(a, a))
            &&& moved.selection is Some
            &&& forall|r: int, f: int|
                #![trigger moved.selection->0.covers(r, f)]
                moved.selection->0.covers(r, f) <==> (a.0 <= r <= b.0 || b.0 <= r <= a.0) && (a.1 <= f <= b.1 || b.1 <= f <= a.1)
            &&& if p.shift {
                drag_result(moved, locked) == DragEnd::Nothing && end.selection == moved.selection
            } else {
                drag_result(moved, locked) == DragEnd::PickUp(moved.selection->0) && end.selection is None
            }
            &&& end.drag is None && end.sel_anchor is None
            &&& end.current_frame == s.current_frame && end.playing == s.playing
        }),
{
}

/// A drag that begins inside the selection moves it by as many rows and frames as the
/// pointer went, unless edits are not allowed.
pub proof fn law_move_gesture(s: GridState, p: Press, sel: GridSelection, a: (u32, u32), b: (u32, u32), held: Seq<Seq<bool>>, playhead: u32, locked: bool, rows: u32, nf: u32)
    requires
        !p.shift && !p.ctrl && !p.in_hand,
        s.selection == Some(sel),
        sel.row_min <= a.0 <= sel.row_max && sel.frame_min <= a.1 <= sel.frame_max,
        rows >= 1,
        nf >= 1,
    ensures
        ({
            let begun = drag_begun(s, Some(GridHit::Row(a.0, a.1)), p, held);
            let moved = drag_moved(begun, Some(GridHit::Row(b.0, b.1)), p.first, playhead);
            let end = drag_ended(moved, locked, rows, nf);
            &&& moved.selection == Some(sel)
            &&& locked ==> drag_result(moved, locked) == DragEnd::Nothing && end.selection == Some(sel)
            &&& !locked ==> drag_result(moved, locked) == (DragEnd::MoveRegion { orig: sel, drow: (b.0 - a.0) as i64, dframe: (b.1 - a.1) as i64 })
            &&& !locked && 0 <= sel.row_min + b.0 - a.0 && sel.row_max + b.0 - a.0 < rows && 0 <= sel.frame_min + b.1 - a.1 && sel.frame_max
                + b.1 - a.1 < nf && sel.wf() ==> end.selection == Some(
                GridSelection {
                    row_min: (sel.row_min + b.0 - a.0) as u32,
                    row_max: (sel.row_max + b.0 - a.0) as u32,
                    frame_min: (sel.frame_min + b.1 - a.1) as u32,
                    frame_max: (sel.frame_max + b.1 - a.1) as u32,
                },
            )
            &&& end.drag is None
        }),
{
}

/// A drag on a light that begins at no bar's edge and outside the selection paints from
/// where it began to where it ends; one that begins at a bar's edge drags that edge.
pub proof fn law_light_gesture(
    s: GridState,
    p: Press,
    light: u32,
    f: u32,
    g: u32,
    h: GridHit,
    held: Seq<Seq<bool>>,
    playhead: u32,
    a: u32,
    b: u32,
)
    requires
        !p.shift && !p.ctrl && !p.in_hand && !p.locked,
        light < p.nl,
        s.selection is None,
        h == GridHit::Ruler(g) || exists|r: u32| h == GridHit::Row(r, g),
        f < held[light as int].len() <= u32::MAX,
    ensures
        ({
            let begun = drag_begun(s, Some(GridHit::Row(light, f)), p, held);
            let moved = drag_moved(begun, Some(h), p.first, playhead);
            &&& p.part == BarPart::Body || !held[light as int][f as int] ==> drag_result(moved, false) == DragEnd::EditRow(
                DragKind::Paint { light, start: f, cur: g },
            )
            &&& is_bar(held[light as int], a as int, b as int) && a <= f <= b ==> {
                &&& p.part == BarPart::LeftEdge ==> drag_result(moved, false) == DragEnd::EditRow(
                    DragKind::Resize { light, bar_start: a, bar_end: b, drag_left: true, cur: g },
                )
                &&& p.part == BarPart::RightEdge ==> drag_result(moved, false) == DragEnd::EditRow(
                    DragKind::Resize { light, bar_start: a, bar_end: b, drag_left: false, cur: g },
                )
            }
            &&& drag_result(moved, true) == DragEnd::Nothing
            &&& moved.selection is None && moved.current_frame == s.current_frame && moved.playing == s.playing
        }),
{
    let row = held[light as int];
    if is_bar(row, a as int, b as int) && a <= f <= b {
        assert(row[f as int]);
        let c = bar_at(row, f as int)->0;
        assert(is_bar(row, a as int, b as int) && (a, b).0 <= f <= (a, b).1);
        law_bars_are_disjoint(row, (a as int, b as int), (c.0 as int, c.1 as int), f as int);
    }
}

/// A drag on the ruler takes the playhead along and stops playback.
pub proof fn law_scrub(s: GridState, p: Press, f: u32, g: u32, held: Seq<Seq<bool>>, playhead: u32)
    requires
        !p.shift && !p.ctrl,
    ensures
        ({
            let begun = drag_begun(s, Some(GridHit::Ruler(f)), p, held);
            let moved = drag_moved(begun, Some(GridHit::Ruler(g)), p.first, playhead);
            &&& begun.current_frame == f && !begun.playing
            &&& moved.current_frame == g && !moved.playing
            &&& moved.selection == s.selection
            &&& drag_result(moved, false) == DragEnd::Nothing
        }),
{
}

/// A click on a light toggles its frame, or puts down the region in hand where it fits;
/// on a fixture row without a region it does nothing. Where edits are not allowed no
/// click makes one.
pub proof fn law_click(hit: GridHit, hand: Option<(u32, u32)>, locked: bool, nl: u32, nf: u32)
    ensures
        match click_result(hit, hand, locked, nl, nf) {
            ClickEnd::Toggle { light, frame } => hit == GridHit::Row(light, frame) && light < nl && hand is None && !locked,
            ClickEnd::Stamp { base_light, base_frame } => {
                &&& !locked
                &&& hand is Some && hit is Row
                &&& (hand matches Some((ls, fs)) && 1 <= ls <= nl && 1 <= fs <= nf) ==> {
                    &&& base_light + (hand->0).0 <= nl
                    &&& base_frame + (hand->0).1 <= nf
                    &&& base_light <= hit->Row_0
                    &&& base_frame <= hit->Row_1
                }
            },
            ClickEnd::Nothing => locked || !(hit is Row) || hand is None && hit->Row_0 >= nl,
        },
{
}

/// A click on the ruler puts the playhead there and stops playback, unless a region is in
/// hand; a click on a row lets the selection go, unless a region is in hand.
pub proof fn law_click_state(s: GridState, hit: GridHit, hand: bool)
    ensures
        ({
            let t = clicked_state(s, hit, hand);
            &&& hit matches GridHit::Ruler(f) ==> t.current_frame == f && t.selection == s.selection && (t.playing <==> s.playing && hand)
            &&& hit is Row ==> t.current_frame == s.current_frame && t.playing == s.playing && t.selection == (if hand {
                s.selection
            } else {
                None
            })
            &&& hit is Outside ==> t == s
        }),
{
}

// ---- previews ---------------------------------------------------------------

/// While a bar's edge or a stroke is dragged, only its light is shown otherwise, as the
/// stroke or the edge at the pointer makes it.
pub proof fn law_row_preview(drag: DragKind, held: Seq<Seq<bool>>, nl: u32, nf: u32, light: u32, f: int)
    requires
        light < held.len(),
        0 <= f < held[light as int].len(),
    ensures
        match drag {
            DragKind::Paint { light: l, start, cur } => {
                let p = preview(Some(drag), held, nl, nf, light);
                &&& l != light ==> p is None
                &&& l == light && start < held[light as int].len() && cur < held[light as int].len() ==> p is Some && (p->0[f]
                    <==> held[light as int][f] || start <= f <= cur || cur <= f <= start)
            },
            DragKind::Resize { light: l, bar_start, bar_end, drag_left, cur } => {
                let p = preview(Some(drag), held, nl, nf, light);
                &&& l != light ==> p is None
                &&& l == light && bar_start <= bar_end < held[light as int].len() && cur < held[light as int].len() ==> {
                    &&& p is Some
                    &&& !drag_left && bar_start <= f <= cur ==> p->0[f]
                    &&& !drag_left && bar_start <= cur < f <= bar_end ==> !p->0[f]
                    &&& drag_left && cur <= f <= bar_end ==> p->0[f]
                    &&& drag_left && bar_start <= f < cur <= bar_end ==> !p->0[f]
                    &&& f < bar_start && f < cur || bar_end < f && cur < f ==> p->0[f] == held[light as int][f]
                }
            },
            DragKind::Move { .. } => true,
            _ => preview(Some(drag), held, nl, nf, light) is None,
        },
{
    let row = held[light as int];
    match drag {
        DragKind::Paint { start, cur, .. } => {
            if start < row.len() && cur < row.len() {
                law_paint(row, start, cur);
            }
        },
        DragKind::Resize { bar_start, bar_end, drag_left, cur, .. } => {
            if bar_start <= bar_end < row.len() && cur < row.len() {
                law_resize(row, bar_start, bar_end, drag_left, cur);
            }
        },
        _ => {},
    }
}

/// While a region is dragged the grid shows it where it would land: there as it was, off
/// where it came from, and every other cell as it is.
pub proof fn law_move_preview(drag: DragKind, orig: GridSelection, a: (u32, u32), b: (u32, u32), held: Seq<Seq<bool>>, nl: u32, nf: u32, light: u32, f: int)
    requires
        drag == (DragKind::Move { orig, grab_row: a.0, grab_frame: a.1, cur_row: b.0, cur_frame: b.1 }),
        held.len() == nl,
        light < nl,
        held[light as int].len() == nf,
        0 <= f < nf,
        orig.wf(),
    ensures
        ({
            let shown = match preview(Some(drag), held, nl, nf, light) {
                Some(row) => row[f],
                None => held[light as int][f],
            };
            let l = light - (b.0 - a.0);
            let g = f - (b.1 - a.1);
            shown == (if orig.row_min <= l <= orig.row_max && l < nl && orig.frame_min <= g <= orig.frame_max {
                held[l][g]
            } else if orig.row_min <= light <= orig.row_max && orig.frame_min <= f <= orig.frame_max {
                false
            } else {
                held[light as int][f]
            })
        }),
{
}

/// What a finished stroke or edge drag leaves is what was shown: once its edits are
/// made, the light is held as the preview, and no other light changes.
pub proof fn law_drag_keeps_preview(m: Map<(u32, u32), bool>, light: u32, keys: Seq<(u32, bool)>, shown: Seq<bool>, f: u32, q: (u32, u32))
    requires
        shown.len() <= u32::MAX,
        f < shown.len(),
        light_keys(m, light, keys),
        q.0 != light,
    ensures
        held_at(overlaid(m, reconciling(light, keys, shown)), light, f as nat) == shown[f as int],
        key_at(overlaid(m, reconciling(light, keys, shown)), q) == key_at(m, q),
{
    law_reconciled_row(m, light, keys, shown);
    let after = overlaid(m, reconciling(light, keys, shown));
    assert(held_row(after, light, shown.len())[f as int] == shown[f as int]);
}

/// An empty region is dropped like one of a single cell, and one that is larger than the grid
/// starts at its corner.
pub proof fn law_drop_odd_sizes(c: u32, f: u32, light_span: u32, frame_span: u32, nl: u32, nf: u32)
    ensures
        drop_base(c, f, 0, frame_span, nl, nf) == drop_base(c, f, 1, frame_span, nl, nf),
        drop_base(c, f, light_span, 0, nl, nf) == drop_base(c, f, light_span, 1, nl, nf),
        light_span >= nl ==> drop_base(c, f, light_span, frame_span, nl, nf).0 == 0,
        frame_span >= nf ==> drop_base(c, f, light_span, frame_span, nl, nf).1 == 0,
{
}

/// A stroke or edge drag edits the light that it began on.
pub proof fn law_drag_light(light: u32, a: u32, b: u32, left: bool, cur: u32)
    ensures
        drag_light(DragKind::Paint { light, start: a, cur }) == light,
        drag_light(DragKind::Resize { light, bar_start: a, bar_end: b, drag_left: left, cur }) == light,
{
}

} // verus!
