//! Editing the timeline: bars, regions, drags, the clipboard and the history.
use lightshow::beats::{autogen_on_beats, neighbor_beat};
use lightshow::clipboard::{do_copy, do_duplicate, do_paste, do_save_blueprint};
use lightshow::editing::{bars, light_kfs, paint, reconcile_light_edits, resize, run_containing, toggle};
use lightshow::fixtures::{
    apply_fixture_edit, build_fixture_tracks, clear_echoed_fixtures, expand3, load_fixture_editor, quant3, PendingFixture,
};
use lightshow::grid::{
    clicked, drag_edits, drag_started, drag_stopped, dragged, grid_hit, secondary_clicked, toggle_edits, visible_rows, BarPart,
    CellPos, ClickEnd, DragEnd, GridHit, GridState, MenuEnd, Press,
};
use lightshow::labels::{beat_label, fmt_ms, history_label, pattern_label, size_label};
use lightshow::logic::{apply_pending, expand_held, fold_keyframes, Keyframes};
use lightshow::patterns::{Pattern, PatternPoint};
use lightshow::regions::{do_delete_region, do_move_region, do_stamp_region, extract_region};
use lightshow::rows::{Edit, Identity, LaserKeyframe, LaserPoint, LightEditInput, Project, ProjectorKeyframe, TurretKeyframe};
use lightshow::session::{
    choose_edit, history_view, list_projects, may_edit, may_restore, project_log, read_only, restore_to, typed_name, Pending,
    ProjectList,
};
use lightshow::state::{Clipboard, DragKind, FixtureKind, FixtureTrack, GridSelection, TimelineFilter};

fn row(s: &str) -> Vec<bool> {
    s.chars().map(|c| c == '#').collect()
}

fn shown(v: &[bool]) -> String {
    v.iter().map(|&on| if on { '#' } else { '.' }).collect()
}

/// Keyframes that hold the rows.
fn keyed(rows: &[&str]) -> Keyframes {
    let mut kf = Keyframes::new();
    for (l, r) in rows.iter().enumerate() {
        let mut on = false;
        for (f, v) in row(r).into_iter().enumerate() {
            if v != on {
                kf.insert(l as u32, f as u32, v);
                on = v;
            }
        }
    }
    kf
}

fn held(kf: &Keyframes, nl: u32, nf: u32) -> Vec<String> {
    expand_held(kf, nl, nf).iter().map(|r| shown(r)).collect()
}

fn sel(row_min: u32, row_max: u32, frame_min: u32, frame_max: u32) -> GridSelection {
    GridSelection { row_min, row_max, frame_min, frame_max }
}

fn me() -> Identity {
    Identity { hi: 3, lo: 4 }
}

#[test]
fn bars_are_found_and_dragged() {
    let r = row(".##..#");
    assert_eq!(bars(&r), vec![(1, 2), (5, 5)]);
    assert_eq!(run_containing(&r, 2), Some((1, 2)));
    assert_eq!(run_containing(&r, 3), None);
    assert_eq!(shown(&paint(&r, 4, 3)), ".#####");
    assert_eq!(shown(&resize(&r, 1, 2, false, 4)), ".#####");
    assert_eq!(shown(&resize(&r, 1, 2, true, 2)), "..#..#");
    assert_eq!(shown(&toggle(&r, 0)), "###..#");
}

#[test]
fn edits_bring_a_light_to_the_desired_row() {
    let mut kf = keyed(&["..##..", "#####."]);
    let want = row("#..##.");
    let mut out = Vec::new();
    reconcile_light_edits(0, &light_kfs(&kf, 0), &want, &mut out);
    apply_pending(&mut kf, &out);
    assert_eq!(held(&kf, 2, 6), vec!["#..##.", "#####."]);
    // Nothing to do the second time.
    let mut again = Vec::new();
    reconcile_light_edits(0, &light_kfs(&kf, 0), &want, &mut again);
    assert!(again.is_empty());
}

#[test]
fn reconciling_edits_are_the_fewest() {
    // One off keyframe overwrites the on keyframe at frame 2.
    let mut out = Vec::new();
    reconcile_light_edits(0, &vec![(0, true), (2, true)], &row("##."), &mut out);
    assert_eq!(out, vec![LightEditInput { light: 0, frame: 2, state: 0 }]);
    // A keyframe is cleared only where the row needs none.
    let mut out = Vec::new();
    reconcile_light_edits(3, &vec![(0, false), (1, true), (4, false)], &row(".#.#"), &mut out);
    assert_eq!(
        out,
        vec![
            LightEditInput { light: 3, frame: 0, state: 2 },
            LightEditInput { light: 3, frame: 4, state: 2 },
            LightEditInput { light: 3, frame: 2, state: 0 },
            LightEditInput { light: 3, frame: 3, state: 1 },
        ]
    );
    let mut kf = keyed(&["######", "##..##"]);
    kf.insert(0, 3, true);
    let grid = expand_held(&kf, 2, 6);
    let edits = toggle_edits(0, 3, &grid, &kf, 2, 6);
    assert_eq!(
        edits,
        vec![LightEditInput { light: 0, frame: 3, state: 0 }, LightEditInput { light: 0, frame: 4, state: 1 }]
    );
}

#[test]
fn only_the_live_show_of_its_owner_is_edited() {
    assert!(may_edit(false, false));
    assert!(!may_edit(true, false) && !may_edit(false, true) && !may_edit(true, true));
    assert!(may_restore(true, false));
    assert!(!may_restore(false, false) && !may_restore(true, true) && !may_restore(false, true));
}

#[test]
fn a_show_without_lights_gets_no_edits() {
    assert!(autogen_on_beats(0, 6, &[0, 2], 0).is_empty());
    assert!(autogen_on_beats(0, 6, &[0, 2], 2).is_empty());
    assert!(autogen_on_beats(0, 6, &[], 1).is_empty());
}

#[test]
fn regions_are_cleared_moved_and_stamped() {
    let kf = keyed(&["######", "......", ".#...."]);
    let grid = expand_held(&kf, 3, 6);
    let none: Vec<FixtureTrack> = vec![];
    let mut cleared = keyed(&["######", "......", ".#...."]);
    let plan = do_delete_region(sel(0, 0, 2, 3), 3, 6, &grid, &kf, &none);
    apply_pending(&mut cleared, &plan.lights);
    assert_eq!(held(&cleared, 3, 6), vec!["##..##", "......", ".#...."]);

    let mut moved = keyed(&["######", "......", ".#...."]);
    let plan = do_move_region(1, sel(0, 0, 0, 1), 1, 2, 3, 6, &grid, &kf, &none, &[], &[], &[]);
    apply_pending(&mut moved, &plan.lights);
    assert_eq!(held(&moved, 3, 6), vec!["..####", "..##..", ".#...."]);

    let cb = extract_region(1, 3, sel(1, 2, 0, 2), &kf, &grid, &none, &[], &[], &[]);
    assert_eq!((cb.light_span, cb.frame_span, cb.src_light_min), (2, 3, 1));
    let mut stamped = keyed(&["######", "......", ".#...."]);
    let plan = do_stamp_region(&cb, 0, 3, 3, 6, &grid, &kf);
    apply_pending(&mut stamped, &plan.lights);
    assert_eq!(held(&stamped, 3, 6), vec!["###...", "....#.", ".#...."]);
}

#[test]
fn copies_are_pasted_and_saved() {
    let kf = keyed(&["....", "##.."]);
    let grid = expand_held(&kf, 2, 4);
    let copy = || extract_region(1, 2, sel(1, 1, 0, 1), &kf, &grid, &vec![], &[], &[], &[]);
    let cb = do_copy(copy()).unwrap();
    let plan = do_paste(&cb, 2);
    assert!(plan.lights.iter().all(|e| e.light == 1 && e.frame >= 2));
    assert!(plan.lasers.is_empty());
    let twice = do_duplicate(&cb, sel(1, 1, 0, 1)).unwrap();
    assert_eq!(twice.lights[0], LightEditInput { light: 1, frame: 2, state: 1 });
    let b = do_save_blueprint(copy(), "  Riff ").unwrap();
    assert_eq!((b.name.as_str(), b.num_lights, b.num_frames), ("Riff", 1, 2));
    assert_eq!(do_save_blueprint(copy(), " ").unwrap_err(), "Blueprint name cannot be empty");
    let empty = || Clipboard {
        light_span: 0,
        frame_span: 1,
        src_light_min: 0,
        lights: vec![],
        lasers: vec![],
        projectors: vec![],
        turrets: vec![],
    };
    assert_eq!(do_copy(empty()).unwrap_err(), "Nothing in the selection to copy");
    assert_eq!(do_save_blueprint(empty(), "x").unwrap_err(), "Nothing in the selection to save");
    assert!(do_duplicate(&empty(), sel(0, 0, 0, 0)).is_none());
}

fn press(shift: bool, ctrl: bool) -> Press {
    Press { shift, ctrl, in_hand: false, locked: false, nl: 2, first: 0, part: BarPart::Body }
}

fn idle() -> GridState {
    GridState { selection: None, sel_anchor: None, drag: None, current_frame: 0, playing: true }
}

#[test]
fn pointers_hit_cells() {
    let p = CellPos { before: false, column: 7, on_ruler: false, row: 1 };
    assert_eq!(grid_hit(p, 2, 3, 6), GridHit::Row(3, 5));
    assert_eq!(grid_hit(CellPos { row: 3, ..p }, 2, 3, 6), GridHit::Outside);
    assert_eq!(grid_hit(CellPos { on_ruler: true, column: -1, ..p }, 2, 3, 6), GridHit::Ruler(0));
    assert_eq!(grid_hit(CellPos { before: true, ..p }, 2, 3, 6), GridHit::Outside);
    assert_eq!(visible_rows(TimelineFilter::Lights, 4, &vec![]), (0, 4));
}

#[test]
fn drags_paint_select_and_scrub() {
    let kf = keyed(&["......", "......"]);
    let grid = expand_held(&kf, 2, 6);
    let mut s = idle();
    drag_started(&mut s, Some(GridHit::Row(1, 2)), press(false, false), &grid, 6);
    dragged(&mut s, Some(GridHit::Row(1, 4)), 0, 0, 2, 6);
    let end = drag_stopped(&mut s, false, 2, 2, 6);
    let d = match end {
        DragEnd::EditRow(d) => d,
        other => panic!("not an edit: {other:?}"),
    };
    let mut after = keyed(&["......", "......"]);
    apply_pending(&mut after, &drag_edits(d, &grid, &kf, 2, 6));
    assert_eq!(held(&after, 2, 6), vec!["......", "..###."]);

    let mut s = idle();
    drag_started(&mut s, Some(GridHit::Row(1, 4)), press(true, false), &grid, 6);
    dragged(&mut s, Some(GridHit::Row(0, 2)), 0, 0, 2, 6);
    assert_eq!(s.selection, Some(sel(0, 1, 2, 4)));
    assert_eq!(drag_stopped(&mut s, false, 2, 2, 6), DragEnd::Nothing);

    let mut s = idle();
    drag_started(&mut s, Some(GridHit::Row(1, 4)), press(false, true), &grid, 6);
    assert_eq!(drag_stopped(&mut s, false, 2, 2, 6), DragEnd::PickUp(sel(1, 1, 4, 4)));

    let mut s = idle();
    drag_started(&mut s, Some(GridHit::Ruler(3)), press(false, false), &grid, 6);
    assert_eq!((s.current_frame, s.playing, s.drag), (3, false, Some(DragKind::Scrub)));
}

#[test]
fn clicks_toggle_and_menus_open() {
    let kf = keyed(&["#.....", "......"]);
    let grid = expand_held(&kf, 2, 6);
    let mut s = idle();
    assert_eq!(clicked(&mut s, GridHit::Row(0, 0), None, false, 2, 6), ClickEnd::Toggle { light: 0, frame: 0 });
    let mut after = keyed(&["#.....", "......"]);
    apply_pending(&mut after, &toggle_edits(0, 0, &grid, &kf, 2, 6));
    assert_eq!(held(&after, 2, 6), vec!["......", "......"]);
    assert_eq!(secondary_clicked(Some(GridHit::Row(3, 4)), false, false, 2), MenuEnd::Edit { fixture: 1, frame: 4 });
    assert_eq!(secondary_clicked(None, true, false, 2), MenuEnd::Drop);
}

fn edit(seq: u64, light: u32, frame: u32, state: u8) -> Edit {
    Edit { id: seq, project_id: 1, seq, author: me(), created_at: 0, light, frame, state }
}

#[test]
fn the_history_is_walked_and_restored() {
    assert_eq!(history_view(Some(3), 5), (3, true));
    assert_eq!(history_view(Some(9), 5), (5, false));
    assert_eq!(choose_edit(5, 5), None);
    assert_eq!(choose_edit(4, 5), Some(4));
    let log = vec![edit(2, 0, 3, 0), edit(1, 0, 1, 1), edit(3, 0, 1, 2), edit(4, 1, 0, 1)];
    let log = project_log(&log, 1);
    assert_eq!(log.iter().map(|e| e.seq).collect::<Vec<_>>(), vec![1, 2, 3, 4]);
    let mut now = fold_keyframes(&log, 4);
    let back = restore_to(&log, 4, 2);
    apply_pending(&mut now, &back);
    assert_eq!(now.entries(), fold_keyframes(&log, 2).entries());
    assert_eq!(back.len(), 2);
}

#[test]
fn predictions_last_until_they_land() {
    let mut p = Pending::new();
    assert!(p.switch_to(1));
    let e = LightEditInput { light: 0, frame: 1, state: 1 };
    p.predict(&[e, e], 5);
    assert_eq!(p.base, 5);
    p.settle(&[edit(6, 0, 1, 1)], Some(me()), false);
    assert_eq!(p.edits.len(), 2);
    p.settle(&[edit(6, 0, 1, 1), edit(7, 0, 1, 1)], Some(me()), false);
    assert!(p.edits.is_empty());
    p.predict(&[e], 7);
    p.failed();
    assert!(p.edits.is_empty());
}

fn project(id: u64, owner: Identity, is_template: bool) -> Project {
    Project {
        id,
        owner,
        name: format!("P{id}"),
        num_lights: 1,
        num_frames: 1,
        created_at: 0,
        head_seq: 0,
        is_template,
        is_blueprint: false,
    }
}

#[test]
fn projects_are_listed_by_owner() {
    let other = Identity { hi: 9, lo: 9 };
    let all = vec![project(1, me(), false), project(2, other, false), project(3, other, true)];
    let mine = list_projects(&all, Some(me()), ProjectList::Mine);
    assert_eq!(mine.iter().map(|p| p.id).collect::<Vec<_>>(), vec![1]);
    let samples = list_projects(&all, None, ProjectList::Samples);
    assert_eq!(samples.iter().map(|p| p.id).collect::<Vec<_>>(), vec![3]);
    assert!(!read_only(&all[0], Some(me())));
    assert!(read_only(&all[2], Some(me())));
    assert_eq!(typed_name("  a b "), Some("a b".to_string()));
    assert_eq!(typed_name("  "), None);
}

fn library() -> Vec<Pattern> {
    vec![Pattern { id: 0, name: "bat", points: vec![PatternPoint { x: 5, y: 6, r: 7, g: 7, b: 7 }] }]
}

#[test]
fn fixtures_are_drafted_and_echoed() {
    let laser = LaserKeyframe {
        id: 1,
        project_id: 1,
        frame: 2,
        channel: 3,
        enable: true,
        pattern: 0,
        cr: 7,
        cg: 0,
        cb: 3,
        points: vec![LaserPoint { x: 5, y: 6, r: 7, g: 0, b: 3 }],
    };
    let turret = TurretKeyframe { id: 1, project_id: 1, frame: 0, channel: 1, state: 1, pan: 9, tilt: 8 };
    let projector = ProjectorKeyframe { id: 1, project_id: 1, frame: 4, channel: 0, state: 0, gallery: 1, pattern: 2, colour: 3 };
    let (ls, ts, ps) = (vec![laser], vec![turret], vec![projector]);
    let ed = load_fixture_editor(&ls, &ts, &ps, 1, FixtureKind::Laser, 3, 5);
    assert!(ed.laser_enable);
    assert_eq!(ed.laser_color, (expand3(7), expand3(0), expand3(3)));
    let drafted = apply_fixture_edit(&ed, 1, &library());
    match &drafted {
        PendingFixture::Laser(k) => {
            assert_eq!((k.frame, k.channel, k.cr, k.cb), (5, 3, 7, 3));
            assert_eq!(k.points.len(), 1);
        }
        other => panic!("not a laser: {other:?}"),
    }
    let mut pending = vec![drafted];
    let tracks = build_fixture_tracks(&ls, &ts, &ps, 1, 6, &pending);
    assert_eq!(tracks.len(), 10);
    assert_eq!(tracks[3].keyframes, vec![2, 5]);
    clear_echoed_fixtures(&mut pending, 1, &ls, &ts, &ps);
    assert_eq!(pending.len(), 1);
    for c in 0..8u8 {
        assert_eq!(quant3(expand3(c)), c);
    }
}

#[test]
fn beats_make_a_show() {
    let beats = [0, 2, 4];
    assert_eq!(neighbor_beat(&beats, 2, true), Some(4));
    assert_eq!(neighbor_beat(&beats, 2, false), Some(0));
    assert_eq!(neighbor_beat(&beats, 4, true), None);
    let mut kf = Keyframes::new();
    apply_pending(&mut kf, &autogen_on_beats(2, 6, &beats, 0));
    assert_eq!(held(&kf, 2, 6), vec!["#.#.#.", "#.#.#."]);
    let mut kf = Keyframes::new();
    apply_pending(&mut kf, &autogen_on_beats(2, 6, &beats, 1));
    assert_eq!(held(&kf, 2, 6), vec!["##..#.", "..##.."]);
}

#[test]
fn labels_are_spelled() {
    assert_eq!(pattern_label(1), "Chase");
    assert_eq!(beat_label(5), "2½");
    assert_eq!(fmt_ms(61_999), "1:01");
    assert_eq!(size_label(7, 21, Some(3)), "7 lights · 10 beats · 3 edits");
    assert_eq!(history_label(2, 5), "Viewing edit 2/5 (read-only)");
}
