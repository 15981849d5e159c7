//! Folding the log, holding keyframes, and the fixtures' states.
use lightshow::logic::{
    apply_pending, expand_fixture_tracks, expand_held, fold_fixtures, fold_keyframes, short_id, state_label, turret_bracket,
    Keyframes,
};
use lightshow::rows::{Edit, Identity, LightEditInput, TurretKeyframe};

fn tk(channel: u8, frame: u32, state: u8, pan: u8, tilt: u8) -> TurretKeyframe {
    TurretKeyframe { id: 0, project_id: 0, frame, channel, state, pan, tilt }
}

fn smoothstep(t: f32) -> f32 {
    let t = t.clamp(0.0, 1.0);
    t * t * (3.0 - 2.0 * t)
}

/// Pan, tilt and whether the head is lit, eased between the bracketing keyframes.
fn turret_pose_at(rows: &[TurretKeyframe], channel: u8, t: f32) -> Option<(f32, f32, bool)> {
    let reached: Vec<bool> = rows.iter().map(|r| r.frame as f32 <= t).collect();
    let aim = turret_bracket(rows, channel, &reached)?;
    let (pan, tilt) = (aim.from.pan as f32, aim.from.tilt as f32);
    Some(match aim.to {
        Some(n) => {
            let s = smoothstep((t - aim.from.frame as f32) / (n.frame - aim.from.frame) as f32);
            (pan + (n.pan as f32 - pan) * s, tilt + (n.tilt as f32 - tilt) * s, aim.on)
        }
        None => (pan, tilt, aim.on),
    })
}

#[test]
fn turret_pose_before_first_is_off() {
    let rows = [tk(0, 10, 1, 100, 100)];
    assert_eq!(turret_pose_at(&rows, 0, 5.0), None);
}

#[test]
fn turret_pose_after_last_holds() {
    let rows = [tk(0, 10, 1, 40, 60)];
    let p = turret_pose_at(&rows, 0, 100.0).unwrap();
    assert_eq!(p, (40.0, 60.0, true));
}

#[test]
fn turret_pose_single_keyframe_holds() {
    let rows = [tk(0, 0, 1, 200, 50)];
    let p = turret_pose_at(&rows, 0, 7.0).unwrap();
    assert_eq!((p.0, p.1), (200.0, 50.0));
}

#[test]
fn turret_pose_midpoint_is_eased() {
    // 0..100 over frames 0..10; at the exact midpoint smoothstep(0.5)=0.5.
    let rows = [tk(0, 0, 1, 0, 0), tk(0, 10, 1, 100, 200)];
    let p = turret_pose_at(&rows, 0, 5.0).unwrap();
    assert!((p.0 - 50.0).abs() < 1e-4);
    assert!((p.1 - 100.0).abs() < 1e-4);
    // A quarter in, easing keeps it below the linear value.
    let q = turret_pose_at(&rows, 0, 2.5).unwrap();
    assert!(q.0 < 25.0, "eased quarter pan {} should trail linear", q.0);
}

#[test]
fn turret_pose_off_prev_does_not_animate() {
    let rows = [tk(0, 0, 0, 10, 10), tk(0, 10, 1, 250, 250)];
    let p = turret_pose_at(&rows, 0, 5.0).unwrap();
    assert!(!p.2);
    assert_eq!((p.0, p.1), (10.0, 10.0)); // rests on prev, no tween
}

#[test]
fn turret_pose_isolates_channels() {
    let rows = [tk(0, 0, 1, 0, 0), tk(1, 0, 1, 255, 255)];
    assert_eq!(turret_pose_at(&rows, 1, 0.0).unwrap().0, 255.0);
}

fn edit(seq: u64, light: u32, frame: u32, state: u8) -> Edit {
    Edit { id: seq, project_id: 1, seq, author: Identity { hi: 0, lo: 7 }, created_at: 0, light, frame, state }
}

#[test]
fn folding_stops_at_the_cutoff() {
    let log = [edit(1, 0, 2, 1), edit(2, 0, 5, 0), edit(3, 0, 2, 2)];
    let kf = fold_keyframes(&log, 2);
    assert_eq!(kf.get(0, 2), Some(true));
    assert_eq!(kf.get(0, 5), Some(false));
    let now = fold_keyframes(&log, 3);
    assert_eq!(now.get(0, 2), None);
    assert_eq!(now.entries().len(), 1);
}

#[test]
fn lights_hold_until_the_next_keyframe() {
    let mut kf = Keyframes::new();
    kf.insert(0, 1, true);
    kf.insert(0, 3, false);
    kf.insert(5, 0, true); // beyond the lights shown
    let held = expand_held(&kf, 2, 5);
    assert_eq!(held, vec![vec![false, true, true, false, false], vec![false; 5]]);
    assert_eq!(expand_held(&kf, 0, 3), Vec::<Vec<bool>>::new());
}

#[test]
fn pending_edits_show_at_once() {
    let mut kf = Keyframes::new();
    kf.insert(0, 1, true);
    apply_pending(
        &mut kf,
        &[
            LightEditInput { light: 0, frame: 1, state: 2 },
            LightEditInput { light: 1, frame: 4, state: 1 },
            LightEditInput { light: 1, frame: 6, state: 0 },
        ],
    );
    assert_eq!(kf.get(0, 1), None);
    assert_eq!(kf.get(1, 4), Some(true));
    assert_eq!(kf.get(1, 6), Some(false));
    kf.remove(1, 6);
    assert_eq!(kf.entries().len(), 1);
}

#[test]
fn the_latest_fixture_keyframe_is_in_force() {
    let rows = [tk(0, 4, 1, 1, 1), tk(0, 2, 1, 2, 2), tk(1, 0, 1, 3, 3), tk(0, 4, 1, 9, 9), tk(7, 0, 1, 0, 0)];
    let at = fold_fixtures(&rows, 4, 3, |r| r.channel, |r| r.frame);
    assert_eq!(at[0].map(|r| r.pan), Some(1)); // of two at one frame the first
    assert_eq!(at[1].map(|r| r.pan), Some(3));
    assert_eq!(at[2], None);
    assert_eq!(fold_fixtures(&rows, 1, 1, |r| r.channel, |r| r.frame)[0], None);
}

#[test]
fn tracks_follow_the_rows_in_effect() {
    let row = |channel: u8, frame: u32, state: u8| TurretKeyframe { id: 0, project_id: 1, frame, channel, state, pan: 0, tilt: 0 };
    let rows = vec![row(0, 4, 0), row(1, 2, 1), row(0, 1, 9), row(0, 6, 1), row(5, 0, 1)];
    let tracks = expand_fixture_tracks(&rows, 3, 8, |r| r.channel, |r| r.frame, |r| r.state > 0);
    for f in 0..8 {
        let at = fold_fixtures(&rows, f, 3, |r| r.channel, |r| r.frame);
        for c in 0..3 {
            assert_eq!(tracks[c].0[f as usize], at[c].as_ref().is_some_and(|r| r.state > 0));
        }
    }
    assert_eq!(tracks[0].0, vec![false, true, true, true, false, false, true, true]);
}

#[test]
fn fixture_rows_expand_to_tracks() {
    let rows = [tk(0, 3, 0, 0, 0), tk(0, 1, 5, 0, 0), tk(1, 9, 1, 0, 0)];
    let tracks = expand_fixture_tracks(&rows, 2, 5, |r| r.channel, |r| r.frame, |r| r.state > 0);
    assert_eq!(tracks[0].0, vec![false, true, true, false, false]);
    assert_eq!(tracks[0].1, vec![1, 3]);
    assert!(tracks[1].0.iter().all(|on| !on));
}

#[test]
fn small_texts() {
    assert_eq!(state_label(0), "off");
    assert_eq!(state_label(1), "ON");
    assert_eq!(state_label(2), "clear");
    let id = Identity { hi: 0xabcd_ef01u128 << 96, lo: 0 };
    assert_eq!(short_id(Some(&id)), "abcdef01…");
    assert_eq!(short_id(None), "—");
}
