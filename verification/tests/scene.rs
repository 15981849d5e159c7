//! What the stage shows.
use lightshow::cookies::{build_mask, COOKIE_SIZE};
use lightshow::fixture_text::{gallery_heading, matches_filter, projector_choice, turret_text};
use lightshow::fixtures::PendingFixture;
use lightshow::projector_patterns::ProjectorPattern;
use lightshow::rows::{Edit, Identity, LaserKeyframe, LightEditInput, Project, ProjectorKeyframe, TurretKeyframe};
use lightshow::scene::{
    clock_driven, is_camera_node, laser_beam, light_on, node_name, parse_emitter, parse_light_index, playback_advance,
    projector_beam, projector_label, publish_playhead, recompute_fixtures, recompute_held, shows_own_lights, Beam, EmitterFamily,
    FixtureGrid, Fraction, HeldStep,
};
use lightshow::upload::next_scene;

#[test]
fn nodes_are_named() {
    assert_eq!(parse_light_index("Light.007"), Some(7));
    assert_eq!(parse_light_index("Light. 7 "), Some(7));
    assert_eq!(parse_light_index("Lamp.1"), None);
    assert_eq!(parse_emitter(" Turret.002 "), Some((EmitterFamily::Turret, 2)));
    assert_eq!(parse_emitter("Laser.x"), None);
    assert_eq!(parse_emitter("Projector.0"), Some((EmitterFamily::Projector, 0)));
    assert!(is_camera_node("Camera.main", false));
    assert!(!is_camera_node("Camera", true));
    assert_eq!(node_name("Light", 7, ""), "Light.007");
    assert_eq!(node_name("Laser", 1234, ".beam"), "Laser.1234.beam");
    assert_eq!(node_name("Laser", 42, ".beam"), "Laser.042.beam");
}

fn me() -> Identity {
    Identity { hi: 1, lo: 1 }
}

fn project() -> Project {
    Project {
        id: 1,
        owner: me(),
        name: "x".to_string(),
        num_lights: 2,
        num_frames: 4,
        created_at: 0,
        head_seq: 2,
        is_template: false,
        is_blueprint: false,
    }
}

#[test]
fn lights_follow_the_log() {
    let edit = |seq, light, frame, state| Edit { id: seq, project_id: 1, seq, author: me(), created_at: 0, light, frame, state };
    let edits = vec![edit(2, 1, 2, 1), edit(1, 0, 1, 1)];
    let pending = vec![LightEditInput { light: 0, frame: 3, state: 0 }];
    let ps = vec![project()];
    assert!(matches!(recompute_held(&ps, &edits, None, None, &pending), HeldStep::Clear));
    assert!(matches!(recompute_held(&ps, &edits, Some(5), None, &pending), HeldStep::Keep));
    let now = match recompute_held(&ps, &edits, Some(1), None, &pending) {
        HeldStep::Show(g) => g,
        other => panic!("nothing shown: {other:?}"),
    };
    assert_eq!(now.held, vec![vec![false, true, true, false], vec![false, false, true, true]]);
    assert!(!now.viewing_history);
    let past = match recompute_held(&ps, &edits, Some(1), Some(1), &pending) {
        HeldStep::Show(g) => g,
        other => panic!("nothing shown: {other:?}"),
    };
    assert_eq!(past.held, vec![vec![false, true, true, true], vec![false; 4]]);
    assert!(past.viewing_history);
    assert!(light_on(true, &now.held, 0, 1));
    assert!(!light_on(false, &now.held, 0, 1));
    assert!(!light_on(true, &now.held, 0, 9));
    assert!(!light_on(true, &now.held, 9, 0));
}

#[test]
fn the_playhead_wraps_or_stops() {
    assert_eq!(playback_advance(3, 2, 4, true), (1, true));
    assert_eq!(playback_advance(3, 2, 4, false), (3, false));
    assert_eq!(playback_advance(1, 2, 4, false), (3, true));
    assert!(clock_driven(true, 30.0f32.to_bits(), 4, false));
    assert!(!clock_driven(true, 0, 4, false));
    assert!(!clock_driven(true, 30.0f32.to_bits(), 0, false));
    assert!(!clock_driven(true, 30.0f32.to_bits(), 4, true));
    assert_eq!(publish_playhead(false, true), Fraction::Zero);
    assert_eq!(publish_playhead(true, true), Fraction::Audio);
    assert_eq!(publish_playhead(true, false), Fraction::Clock);
}

fn laser(frame: u32, enable: bool) -> LaserKeyframe {
    LaserKeyframe {
        id: 1,
        project_id: 1,
        frame,
        channel: 1,
        enable,
        pattern: 6,
        cr: 1,
        cg: 2,
        cb: 3,
        points: vec![],
    }
}

fn projector(frame: u32, state: u8) -> ProjectorKeyframe {
    ProjectorKeyframe { id: 1, project_id: 1, frame, channel: 0, state, gallery: 0, pattern: 12, colour: 99 }
}

#[test]
fn fixtures_show_what_is_in_force() {
    let mut g = FixtureGrid { lasers: vec![], projectors: vec![], turrets: vec![], turret_rows: vec![] };
    let turret = TurretKeyframe { id: 1, project_id: 1, frame: 0, channel: 3, state: 1, pan: 5, tilt: 6 };
    let mut foreign = turret;
    foreign.project_id = 2;
    let pending = vec![PendingFixture::Laser(laser(2, false)), PendingFixture::Turret(TurretKeyframe { pan: 7, ..turret })];
    recompute_fixtures(
        &mut g,
        &vec![laser(0, true), laser(2, true)],
        &vec![projector(0, 1), projector(3, 0)],
        &vec![turret, foreign],
        &pending,
        Some(1),
        2,
    );
    assert_eq!((g.lasers.len(), g.projectors.len(), g.turrets.len()), (5, 1, 4));
    assert!(!g.lasers[1].as_ref().unwrap().enable);
    assert_eq!(g.turrets[3].unwrap().pan, 7);
    assert_eq!(g.turret_rows.len(), 1);
    assert_eq!(laser_beam(true, &g.lasers, 1), Beam::Dark);
    assert_eq!(laser_beam(true, &g.lasers, 77), Beam::Dark);
    assert_eq!(projector_beam(true, &g.projectors, 0), Beam::Projector { colour: 99 });
    assert_eq!(projector_beam(false, &g.projectors, 0), Beam::Dark);
    let lib = vec![ProjectorPattern { name: "Large_Square".to_string(), gallery: 0, pattern: 12 }];
    assert_eq!(projector_label(true, &g.projectors, &lib), Some(("Large_Square".to_string(), 99)));
    assert_eq!(projector_label(true, &g.projectors, &vec![]), Some(("Pattern 12".to_string(), 99)));
    assert_eq!(laser_beam(true, &vec![Some(laser(0, true))], 0), Beam::Laser { cr: 1, cg: 2, cb: 3, pattern: 6 });
    recompute_fixtures(&mut g, &vec![], &vec![], &vec![], &vec![], None, 0);
    assert!(g.lasers.is_empty() && g.turrets.is_empty());
    assert_eq!(projector_label(true, &g.projectors, &lib), None);
}

#[test]
fn masks_are_drawn_with_a_brush() {
    let mask = build_mask(&vec![(10, 20), (-1, 0), (300, 300)]);
    assert_eq!(mask.len(), COOKIE_SIZE * COOKIE_SIZE);
    let at = |x: usize, y: usize| mask[y * COOKIE_SIZE + x];
    assert_eq!((at(9, 19), at(11, 21), at(12, 20)), (255, 255, 0));
    assert_eq!((at(0, 0), at(0, 1), at(0, 2), at(1, 0)), (255, 255, 0, 0));
    assert_eq!(mask.iter().filter(|&&b| b == 255).count(), 9 + 2);
}

#[test]
fn scenes_get_fresh_paths() {
    let (v, path, address) = next_scene(0);
    assert_eq!((v, path.as_str(), address.as_str()), (1, "scene_1.glb", "upload://scene_1.glb"));
    assert_ne!(next_scene(1).1, path);
}

#[test]
fn fixture_texts() {
    assert_eq!(projector_choice(&vec![], 0, 12), "0x00,0x0c");
    assert!(matches_filter("Large_Square", "square"));
    assert!(!matches_filter("Large_Square", "circle"));
    assert_ne!(gallery_heading(0), gallery_heading(255));
    assert!(turret_text(2, None).ends_with("—"));
}

#[test]
fn a_stage_without_lights_shows_its_own() {
    let names = |list: &[&str]| -> Vec<String> { list.iter().map(|n| n.to_string()).collect() };
    assert!(shows_own_lights(None));
    assert!(shows_own_lights(Some(&vec![])));
    assert!(shows_own_lights(Some(&names(&["House", "Light.x", "Laser.001"]))));
    assert!(!shows_own_lights(Some(&names(&["House", "Light.003"]))));
}
