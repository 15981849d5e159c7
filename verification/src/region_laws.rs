//! What the region operations do to the picture on the grid.
use crate::editing::{law_rows_edits, law_rows_hold, lemma_overlaid_add, rows_edits};
use crate::logic::{held_at, held_grid, overlaid};
use crate::regions::{
    deleted_rows, keys_from, light_copied, light_span, lights_copied, moved_cell, moved_rows, rows_deleted, rows_moved,
    rows_stamped, stamped_rows,
};
use crate::rows::LightEditInput;
use crate::state::GridSelection;
use vstd::prelude::*;

verus! {

broadcast use vstd::seq::group_seq_axioms;

/// Deleting a selection turns its cells off and leaves every other cell as it was.
pub proof fn law_delete(m: Map<(u32, u32), bool>, sel: GridSelection, nl: u32, nf: u32, l: u32, f: u32)
    requires
        sel.wf(),
        l < nl,
        f < nf,
    ensures
        held_at(
            overlaid(m, rows_edits(m, rows_deleted(held_grid(m, nl as nat, nf as nat), sel), deleted_rows(sel), nl as nat)),
            l,
            f as nat,
        ) == (if sel.row_min <= l <= sel.row_max && sel.frame_min <= f <= sel.frame_max {
            false
        } else {
            held_at(m, l, f as nat)
        }),
{
    let g = held_grid(m, nl as nat, nf as nat);
    let rows = rows_deleted(g, sel);
    let touched = deleted_rows(sel);
    assert forall|k: int| 0 <= k < nl && #[trigger] touched(k) implies rows(k).len() <= u32::MAX by {
        assert(g[k].len() == nf);
    }
    law_rows_edits(m, rows, touched, nl as nat);
    assert(g[l as int].len() == nf);
    law_rows_hold(m, rows, touched, nl as nat, l, f as nat);
}

/// Once the edits of a move are made the grid shows the moved rows.
pub proof fn law_move(m: Map<(u32, u32), bool>, sel: GridSelection, drow: int, dframe: int, nl: u32, nf: u32, l: u32, f: u32)
    requires
        sel.wf(),
        l < nl,
        f < nf,
    ensures
        ({
            let g = held_grid(m, nl as nat, nf as nat);
            held_at(
                overlaid(m, rows_edits(m, rows_moved(g, sel, drow, dframe, nl, nf), moved_rows(sel, drow, nl), nl as nat)),
                l,
                f as nat,
            ) == moved_cell(g, sel, drow, dframe, nl, l as int, f as int)
        }),
{
    let g = held_grid(m, nl as nat, nf as nat);
    let rows = rows_moved(g, sel, drow, dframe, nl, nf);
    let touched = moved_rows(sel, drow, nl);
    law_rows_edits(m, rows, touched, nl as nat);
    law_rows_hold(m, rows, touched, nl as nat, l, f as nat);
    assert(g[l as int][f as int] == held_at(m, l, f as nat));
}

/// Moving a selection takes its picture along: the destination shows what the
/// source showed, the rest of the source is off, and every other cell keeps.
pub proof fn law_moved_picture(m: Map<(u32, u32), bool>, sel: GridSelection, drow: int, dframe: int, nl: u32, nf: u32, l: u32, f: u32)
    requires
        sel.wf(),
        sel.frame_max < nf,
        l < nl,
        f < nf,
    ensures
        ({
            let g = held_grid(m, nl as nat, nf as nat);
            let from = l - drow;
            let at = f - dframe;
            held_at(
                overlaid(m, rows_edits(m, rows_moved(g, sel, drow, dframe, nl, nf), moved_rows(sel, drow, nl), nl as nat)),
                l,
                f as nat,
            ) == (if sel.row_min <= from <= sel.row_max && from < nl && sel.frame_min <= at <= sel.frame_max {
                held_at(m, from as u32, at as nat)
            } else if sel.row_min <= l <= sel.row_max && sel.frame_min <= f <= sel.frame_max {
                false
            } else {
                held_at(m, l, f as nat)
            })
        }),
{
    law_move(m, sel, drow, dframe, nl, nf, l, f);
    let g = held_grid(m, nl as nat, nf as nat);
    assert(g[l as int][f as int] == held_at(m, l, f as nat));
    let from = l - drow;
    let at = f - dframe;
    if sel.row_min <= from <= sel.row_max && from < nl && sel.frame_min <= at <= sel.frame_max {
        assert(g[from][at] == held_at(m, from as u32, at as nat));
    }
}

/// Stamping a pattern makes the grid show it there, and leaves every other cell
/// as it was.
pub proof fn law_stamp(
    m: Map<(u32, u32), bool>,
    pattern: Seq<Seq<bool>>,
    base_light: u32,
    base_frame: u32,
    nl: u32,
    nf: u32,
    l: u32,
    f: u32,
)
    requires
        l < nl,
        f < nf,
    ensures
        held_at(
            overlaid(
                m,
                rows_edits(
                    m,
                    rows_stamped(held_grid(m, nl as nat, nf as nat), pattern, base_light, base_frame),
                    stamped_rows(base_light, pattern.len()),
                    nl as nat,
                ),
            ),
            l,
            f as nat,
        ) == (if base_light <= l < base_light + pattern.len() && base_frame <= f < base_frame + pattern[l - base_light].len() {
            pattern[l - base_light][f - base_frame]
        } else {
            held_at(m, l, f as nat)
        }),
{
    let g = held_grid(m, nl as nat, nf as nat);
    let rows = rows_stamped(g, pattern, base_light, base_frame);
    let touched = stamped_rows(base_light, pattern.len());
    assert forall|k: int| 0 <= k < nl && #[trigger] touched(k) implies rows(k).len() <= u32::MAX by {
        assert(g[k].len() == nf);
    }
    law_rows_edits(m, rows, touched, nl as nat);
    assert(g[l as int].len() == nf);
    assert(g[l as int][f as int] == held_at(m, l, f as nat));
    law_rows_hold(m, rows, touched, nl as nat, l, f as nat);
}

// ---- copying ----------------------------------------------------------------

/// What the copied keyframes of one light put at `q`.
proof fn lemma_keys_from(
    base: Map<(u32, u32), bool>,
    m: Map<(u32, u32), bool>,
    light: u32,
    row: u32,
    f0: u32,
    n: nat,
    q: (u32, u32),
)
    requires
        f0 + n <= u32::MAX,
    ensures
        ({
            let r = overlaid(base, keys_from(m, light, row, f0, n));
            let k = (light, (f0 + q.1) as u32);
            let put = q.0 == row && q.1 < n && m.contains_key(k);
            &&& r.contains_key(q) <==> base.contains_key(q) || put
            &&& put ==> r[q] == m[k]
            &&& !put && base.contains_key(q) ==> r[q] == base[q]
        }),
    decreases n,
{
    if n > 0 {
        let rest = keys_from(m, light, row, f0, (n - 1) as nat);
        let k = (light, (f0 + n - 1) as u32);
        lemma_keys_from(base, m, light, row, f0, (n - 1) as nat, q);
        if m.contains_key(k) {
            let e = LightEditInput { light: row, frame: (n - 1) as u32, state: if m[k] { 1 } else { 0 } };
            assert(rest.push(e).drop_last() =~= rest);
        }
    }
}

/// What one copied light puts at `q`.
proof fn lemma_light_copied(
    base: Map<(u32, u32), bool>,
    m: Map<(u32, u32), bool>,
    held: Seq<Seq<bool>>,
    sel: GridSelection,
    row: nat,
    q: (u32, u32),
)
    requires
        sel.wf(),
        sel.frame_max < u32::MAX,
        sel.row_min + row <= u32::MAX,
    ensures
        ({
            let r = overlaid(base, light_copied(m, held, sel, row));
            let light = (sel.row_min + row) as u32;
            let k = (light, (sel.frame_min + q.1) as u32);
            let put = q.0 == row && q.1 <= sel.frame_max - sel.frame_min && m.contains_key(k);
            let carried = q == (row as u32, 0u32) && !m.contains_key((light, sel.frame_min)) && held[light as int][sel.frame_min as int];
            &&& r.contains_key(q) <==> base.contains_key(q) || put || carried
            &&& put ==> r[q] == m[k]
            &&& carried ==> r[q]
            &&& !put && !carried && base.contains_key(q) ==> r[q] == base[q]
        }),
{
    let light = (sel.row_min + row) as u32;
    let n = (sel.frame_max - sel.frame_min + 1) as nat;
    let keys = keys_from(m, light, row as u32, sel.frame_min, n);
    let carried = if !m.contains_key((light, sel.frame_min)) && held[light as int][sel.frame_min as int] {
        seq![LightEditInput { light: row as u32, frame: 0, state: 1 }]
    } else {
        Seq::empty()
    };
    lemma_overlaid_add(base, carried, keys);
    let mid = overlaid(base, carried);
    if carried.len() > 0 {
        assert(carried.drop_last() =~= Seq::<LightEditInput>::empty());
        assert(mid == base.insert((row as u32, 0u32), true)) by {
            assert(overlaid(base, carried.drop_last()) == base);
        }
    }
    lemma_keys_from(mid, m, light, row as u32, sel.frame_min, n, q);
}

/// What the copied lights put at `q`.
proof fn lemma_lights_copied(m: Map<(u32, u32), bool>, held: Seq<Seq<bool>>, sel: GridSelection, n: nat, q: (u32, u32))
    requires
        sel.wf(),
        sel.frame_max < u32::MAX,
        sel.row_min + n <= u32::MAX,
    ensures
        ({
            let r = overlaid(Map::empty(), lights_copied(m, held, sel, n));
            let light = (sel.row_min + q.0) as u32;
            let k = (light, (sel.frame_min + q.1) as u32);
            let put = q.0 < n && q.1 <= sel.frame_max - sel.frame_min && m.contains_key(k);
            let carried = q.0 < n && q.1 == 0 && !m.contains_key((light, sel.frame_min)) && held[light as int][sel.frame_min as int];
            &&& r.contains_key(q) <==> put || carried
            &&& put ==> r[q] == m[k]
            &&& carried ==> r[q]
        }),
    decreases n,
{
    if n > 0 {
        let rest = lights_copied(m, held, sel, (n - 1) as nat);
        let one = light_copied(m, held, sel, (n - 1) as nat);
        lemma_lights_copied(m, held, sel, (n - 1) as nat, q);
        lemma_overlaid_add(Map::empty(), rest, one);
        lemma_light_copied(overlaid(Map::empty(), rest), m, held, sel, (n - 1) as nat, q);
    }
}

/// A copied region shows the picture that the selection showed: a state carried
/// in from before the region survives the copy.
pub proof fn law_copy_keeps_picture(m: Map<(u32, u32), bool>, sel: GridSelection, nl: u32, nf: u32, row: u32, f: u32)
    requires
        sel.wf(),
        sel.frame_max < nf,
        row < light_span(sel, nl),
        f <= sel.frame_max - sel.frame_min,
    ensures
        ({
            let g = held_grid(m, nl as nat, nf as nat);
            held_at(overlaid(Map::empty(), lights_copied(m, g, sel, light_span(sel, nl))), row, f as nat)
                == g[sel.row_min + row][sel.frame_min + f]
        }),
    decreases f,
{
    let g = held_grid(m, nl as nat, nf as nat);
    let r = overlaid(Map::empty(), lights_copied(m, g, sel, light_span(sel, nl)));
    let light = (sel.row_min + row) as u32;
    lemma_lights_copied(m, g, sel, light_span(sel, nl), (row, f));
    assert(g[light as int][sel.frame_min + f] == held_at(m, light, (sel.frame_min + f) as nat));
    assert(g[light as int][sel.frame_min as int] == held_at(m, light, sel.frame_min as nat));
    if f > 0 {
        law_copy_keeps_picture(m, sel, nl, nf, row, (f - 1) as u32);
        assert(g[light as int][sel.frame_min + f - 1] == held_at(m, light, (sel.frame_min + f - 1) as nat));
    }
}

/// Copying a region and stamping it elsewhere makes the grid show there what it showed
/// in the selection, as far as it reaches, and leaves every other cell as it was.
pub proof fn law_copy_and_stamp(
    m: Map<(u32, u32), bool>,
    sel: GridSelection,
    base_light: u32,
    base_frame: u32,
    nl: u32,
    nf: u32,
    l: u32,
    f: u32,
)
    requires
        sel.wf(),
        sel.row_max < nl,
        sel.frame_max < nf,
        l < nl,
        f < nf,
    ensures
        ({
            let g = held_grid(m, nl as nat, nf as nat);
            let rows = light_span(sel, nl);
            let copy = overlaid(Map::empty(), lights_copied(m, g, sel, rows));
            let pattern = held_grid(copy, rows, (sel.frame_max - sel.frame_min + 1) as nat);
            let row = l - base_light;
            let at = f - base_frame;
            held_at(
                overlaid(m, rows_edits(m, rows_stamped(g, pattern, base_light, base_frame), stamped_rows(base_light, rows), nl as nat)),
                l,
                f as nat,
            ) == (if 0 <= row <= sel.row_max - sel.row_min && 0 <= at <= sel.frame_max - sel.frame_min {
                held_at(m, (sel.row_min + row) as u32, (sel.frame_min + at) as nat)
            } else {
                held_at(m, l, f as nat)
            })
        }),
{
    let g = held_grid(m, nl as nat, nf as nat);
    let rows = light_span(sel, nl);
    let copy = overlaid(Map::empty(), lights_copied(m, g, sel, rows));
    let pattern = held_grid(copy, rows, (sel.frame_max - sel.frame_min + 1) as nat);
    law_stamp(m, pattern, base_light, base_frame, nl, nf, l, f);
    let row = l - base_light;
    let at = f - base_frame;
    if 0 <= row <= sel.row_max - sel.row_min {
        assert(pattern[row].len() == sel.frame_max - sel.frame_min + 1);
        if 0 <= at <= sel.frame_max - sel.frame_min {
            law_copy_keeps_picture(m, sel, nl, nf, row as u32, at as u32);
            assert(pattern[row][at] == held_at(copy, row as u32, at as nat));
            assert(g[sel.row_min + row][sel.frame_min + at] == held_at(m, (sel.row_min + row) as u32, (sel.frame_min + at) as nat));
        }
    }
}

/// Moving a region by some rows and frames and then back shows again what it showed,
/// where it stays within the grid.
pub proof fn law_move_and_back(
    m: Map<(u32, u32), bool>,
    sel: GridSelection,
    back: GridSelection,
    drow: int,
    dframe: int,
    nl: u32,
    nf: u32,
    l: u32,
    f: u32,
)
    requires
        sel.wf(),
        sel.row_max < nl,
        sel.frame_max < nf,
        0 <= sel.row_min + drow && sel.row_max + drow < nl,
        0 <= sel.frame_min + dframe && sel.frame_max + dframe < nf,
        back.row_min == sel.row_min + drow && back.row_max == sel.row_max + drow,
        back.frame_min == sel.frame_min + dframe && back.frame_max == sel.frame_max + dframe,
        sel.row_min <= l <= sel.row_max,
        sel.frame_min <= f <= sel.frame_max,
    ensures
        ({
            let g = held_grid(m, nl as nat, nf as nat);
            let n = overlaid(m, rows_edits(m, rows_moved(g, sel, drow, dframe, nl, nf), moved_rows(sel, drow, nl), nl as nat));
            let h = held_grid(n, nl as nat, nf as nat);
            held_at(
                overlaid(n, rows_edits(n, rows_moved(h, back, -drow, -dframe, nl, nf), moved_rows(back, -drow, nl), nl as nat)),
                l,
                f as nat,
            ) == held_at(m, l, f as nat)
        }),
{
    let g = held_grid(m, nl as nat, nf as nat);
    let n = overlaid(m, rows_edits(m, rows_moved(g, sel, drow, dframe, nl, nf), moved_rows(sel, drow, nl), nl as nat));
    law_moved_picture(m, sel, drow, dframe, nl, nf, (l + drow) as u32, (f + dframe) as u32);
    law_moved_picture(n, back, -drow, -dframe, nl, nf, l, f);
}

} // verus!
