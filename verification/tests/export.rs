//! Exporting a show: devices, instructions, names and the archive.
use lightshow::audio::build_analysis;
use lightshow::export::{collapse_hex, laser_value};
use lightshow::instructions::build_instructions;
use lightshow::json::Json;
use lightshow::logic::Keyframes;
use lightshow::package::{
    audio_ext, build_metadata, build_zip, can_pack, export_audio, export_open_project, gather, sanitize_name, ExportData,
};
use lightshow::rows::{
    Edit, Identity, LaserKeyframe, LaserPoint, Project, ProjectorKeyframe, Song, SongChunk, TurretKeyframe,
};
use std::io::{Cursor, Read};

fn me() -> Identity {
    Identity { hi: 1, lo: 2 }
}

fn laser(enable: bool, pattern: u8, color: (u8, u8, u8), pts: usize) -> LaserKeyframe {
    LaserKeyframe {
        id: 0,
        project_id: 1,
        frame: 0,
        channel: 0,
        enable,
        pattern,
        cr: color.0,
        cg: color.1,
        cb: color.2,
        points: (0..pts)
            .map(|i| LaserPoint { x: i as i16, y: i as i16, r: 7, g: 0, b: 0 })
            .collect(),
    }
}

fn song() -> Song {
    Song {
        id: 9,
        project_id: 1,
        owner: me(),
        name: "Track.MP3".to_string(),
        mime: "audio/mpeg".to_string(),
        byte_len: 5,
        num_chunks: 2,
        chunks_received: 2,
        duration_ms: 61_999,
        fps_bits: 5.0f32.to_bits(),
        beats_frames: vec![0, 2],
        bpm_bits: 150.0f32.to_bits(),
        first_beat_ms: 0,
        complete: true,
        created_at: 0,
    }
}

fn chunk(song_id: u64, idx: u32, data: &[u8]) -> SongChunk {
    SongChunk { id: 100 + idx as u64, song_id, project_id: 1, idx, data: data.to_vec() }
}

fn project() -> Project {
    Project {
        id: 1,
        owner: me(),
        name: " My Show! ".to_string(),
        num_lights: 7,
        num_frames: 20,
        created_at: 0,
        head_seq: 2,
        is_template: false,
        is_blueprint: false,
    }
}

fn text_at<'a>(j: &'a Json, key: &str) -> &'a str {
    match j.get(key) {
        Some(Json::Text(t)) => t,
        other => panic!("no text under {key}: {other:?}"),
    }
}

#[test]
fn hex_has_exactly_one_f() {
    assert_eq!(collapse_hex(7, 0, 0), "f00");
    assert_eq!(collapse_hex(0, 5, 0), "0f0");
    assert_eq!(collapse_hex(0, 0, 3), "00f");
    assert_eq!(collapse_hex(0, 0, 0), "f00"); // all-zero stays valid
    assert_eq!(collapse_hex(4, 4, 1), "f00"); // R>=G tie -> red
    for s in [collapse_hex(1, 2, 3), collapse_hex(7, 7, 7), collapse_hex(0, 0, 1)] {
        assert_eq!(s.len(), 3);
        assert_eq!(s.chars().filter(|&c| c == 'f').count(), 1);
        assert!(s.chars().all(|c| c == '0' || c == 'f'));
    }
}

#[test]
fn disabled_or_empty_laser_is_reset_number() {
    assert!(matches!(laser_value(&laser(false, 4, (7, 0, 0), 4)), Json::PosInt(0)));
    assert!(matches!(laser_value(&laser(true, 4, (7, 0, 0), 0)), Json::PosInt(0)));
}

#[test]
fn enabled_laser_is_object_with_required_keys() {
    let v = laser_value(&laser(true, 4, (0, 7, 0), 3));
    assert!(v.get("config").is_some());
    match v.get("points") {
        Some(Json::Array(points)) => {
            assert_eq!(points.len(), 3);
            assert_eq!(
                format!("{:?}", points[0]),
                format!(
                    "{:?}",
                    Json::Array(vec![Json::PosInt(0), Json::PosInt(0), Json::PosInt(7), Json::PosInt(0), Json::PosInt(0)])
                )
            );
        }
        other => panic!("points: {other:?}"),
    }
    assert_eq!(text_at(&v, "hex"), "0f0");
    assert_eq!(text_at(&v, "value"), "circle"); // pattern 4 == "circle"
}

#[test]
fn devices_at_same_frame_merge_under_one_ms_key() {
    let mut lights = Keyframes::new();
    lights.insert(0, 2, true); // -> light-1
    lights.insert(6, 2, false); // -> light-7
    lights.insert(7, 2, true); // light-8: clamped out
    let lasers = vec![{
        let mut l = laser(true, 4, (7, 0, 0), 2);
        l.channel = 1;
        l.frame = 2;
        l
    }];
    // Constant frame->ms so frame 2 -> "2".
    let v = build_instructions(&lights, &lasers, &vec![], &vec![], |f| f as i64);
    match &v {
        Json::Object(obj) => assert_eq!(obj.len(), 1, "all keyframes share frame 2 -> one ms key"),
        other => panic!("not an object: {other:?}"),
    }
    let frame = v.get("2").unwrap();
    assert!(matches!(frame.get("light-1"), Some(Json::PosInt(1))));
    assert!(matches!(frame.get("light-7"), Some(Json::PosInt(0))));
    assert!(frame.get("light-8").is_none(), "light index clamped to 7");
    assert!(frame.get("laser-2").is_some());
}

#[test]
fn frame_to_ms_inverts_importer_rounding() {
    let bpm = 154.0_f64;
    let period = 30_000.0 / bpm;
    let frame_to_ms = |f: u32| -> i64 { ((f as f64) * period).round() as i64 };
    let to_frame = |ms: f64| -> u32 { (ms / period).round() as u32 };
    for f in [0u32, 1, 7, 42, 1000] {
        assert_eq!(to_frame(frame_to_ms(f) as f64), f);
    }
    // The same times stand in the instructions.
    let mut lights = Keyframes::new();
    lights.insert(0, 42, true);
    let v = build_instructions(&lights, &vec![], &vec![], &vec![], frame_to_ms);
    assert!(v.get(&frame_to_ms(42).to_string()).is_some());
}

#[test]
fn sanitize_makes_safe_folder_names() {
    assert_eq!(sanitize_name("Spooky Scary Skeletons"), "Spooky_Scary_Skeletons");
    assert_eq!(sanitize_name("  a/b:c  "), "a_b_c");
    assert_eq!(sanitize_name("***"), "show");
}

#[test]
fn safe_names_keep_dots_and_dashes() {
    assert_eq!(sanitize_name("v1.2-final_"), "v1.2-final");
    assert_eq!(sanitize_name(""), "show");
    assert_eq!(sanitize_name("Grüße"), "Gr__e");
}

#[test]
fn colliding_times_keep_the_later_frame() {
    let mut lights = Keyframes::new();
    lights.insert(0, 3, true);
    lights.insert(0, 4, false);
    lights.insert(1, 3, true);
    // Both frames round to the same millisecond, and negative times to zero.
    let v = build_instructions(&lights, &vec![], &vec![], &vec![], |_| -5);
    let at = v.get("0").unwrap();
    assert!(matches!(at.get("light-1"), Some(Json::PosInt(0))));
    assert!(matches!(at.get("light-2"), Some(Json::PosInt(1))));
}

#[test]
fn channels_without_a_device_are_left_out() {
    let mut l = laser(true, 0, (1, 0, 0), 1);
    l.channel = 5;
    let p = ProjectorKeyframe { id: 1, project_id: 1, frame: 0, channel: 1, state: 1, gallery: 2, pattern: 3, colour: 4 };
    let t = TurretKeyframe { id: 1, project_id: 1, frame: 0, channel: 4, state: 1, pan: 2, tilt: 3 };
    let v = build_instructions(&Keyframes::new(), &vec![l], &vec![p], &vec![t], |f| f as i64);
    match v {
        Json::Object(entries) => assert!(entries.is_empty()),
        other => panic!("not an object: {other:?}"),
    }
}

#[test]
fn projector_and_turret_entries_hold_their_bytes() {
    let p = ProjectorKeyframe { id: 1, project_id: 1, frame: 1, channel: 0, state: 1, gallery: 2, pattern: 3, colour: 4 };
    let t = TurretKeyframe { id: 1, project_id: 1, frame: 1, channel: 3, state: 5, pan: 6, tilt: 7 };
    let v = build_instructions(&Keyframes::new(), &vec![], &vec![p], &vec![t], |f| f as i64 * 100);
    let at = v.get("100").unwrap();
    let lp = at.get("lp-1").unwrap();
    assert_eq!(lp.get("gallery").unwrap().as_u64(), Some(2));
    assert_eq!(lp.get("colour").unwrap().as_u64(), Some(4));
    let turret = at.get("turret-4").unwrap();
    assert_eq!(turret.get("state").unwrap().as_u64(), Some(5));
    assert_eq!(turret.get("tilt").unwrap().as_u64(), Some(7));
}

#[test]
fn audio_ending_comes_from_name_or_mime() {
    assert_eq!(audio_ext("Track.MP3", ""), "mp3");
    assert_eq!(audio_ext("a/b.c/song.wav", ""), "wav");
    assert_eq!(audio_ext("noext", "audio/ogg"), "ogg");
    assert_eq!(audio_ext(".hidden", "audio/flac"), "flac");
    assert_eq!(audio_ext("dot.", "audio/mp4"), "m4a");
    assert_eq!(audio_ext("..", "audio/x-wav"), "wav");
    assert_eq!(audio_ext("dir.d/", "text/plain"), "d");
    assert_eq!(audio_ext("", "text/plain"), "mp3");
}

#[test]
fn metadata_holds_the_song() {
    let m = build_metadata("My_Show", "My Show", 61_999, Json::Float("150.0".to_string()), vec![Json::Float("0.4".to_string())]);
    assert_eq!(text_at(&m, "filename"), "songs/My_Show/My_Show.mp3");
    assert_eq!(text_at(&m, "title"), "My Show");
    assert_eq!(text_at(&m, "channel"), "");
    assert_eq!(m.get("duration").unwrap().as_u64(), Some(61));
    assert!(matches!(m.get("tempo"), Some(Json::Float(t)) if t == "150.0"));
    assert!(matches!(m.get("beats"), Some(Json::Array(b)) if b.len() == 1));
}

#[test]
fn export_waits_for_the_audio() {
    let full = vec![chunk(9, 1, &[4, 5]), chunk(9, 0, &[1, 2, 3]), chunk(8, 0, &[9])];
    let none = export_audio(&vec![], &full, 1).unwrap_err();
    assert_eq!(none, "This project has no song yet. Upload audio before exporting.");
    let mut s = song();
    s.complete = false;
    let uploading = export_audio(&vec![s], &full, 1).unwrap_err();
    assert_eq!(uploading, "Audio is still uploading — wait until it finishes, then export.");
    let mut s = song();
    s.bpm_bits = (-0.0f32).to_bits();
    let still = export_audio(&vec![s], &full, 1).unwrap_err();
    assert_eq!(still, "Song has no tempo, so timing can't be computed.");
    let missing = export_audio(&vec![song()], &vec![chunk(9, 0, &[1, 2, 3])], 1).unwrap_err();
    assert_eq!(missing, "Audio is still downloading to this client. Try again in a moment.");
    let (i, bytes) = export_audio(&vec![song()], &full, 1).unwrap();
    assert_eq!((i, bytes), (0, vec![1, 2, 3, 4, 5]));
}

fn gathered(name: &str) -> ExportData {
    let mut p = project();
    p.name = name.to_string();
    let edit = |seq: u64, frame: u32, state: u8| Edit {
        id: seq,
        project_id: 1,
        seq,
        author: me(),
        created_at: 0,
        light: 0,
        frame,
        state,
    };
    // Out of order, with an edit past the head and one of another project.
    let mut other = edit(1, 9, 1);
    other.project_id = 2;
    let edits = vec![edit(2, 4, 0), edit(3, 8, 1), other, edit(1, 4, 1)];
    let mut foreign = laser(true, 4, (7, 0, 0), 2);
    foreign.project_id = 2;
    foreign.frame = 6;
    gather(
        &p,
        &song(),
        vec![1, 2, 3, 4, 5],
        &edits,
        &vec![laser(true, 4, (7, 0, 0), 2), foreign],
        &vec![],
        &vec![],
        Json::Float("150.0".to_string()),
        vec![],
        |f| f as i64 * 200,
    )
}

#[test]
fn gathering_folds_the_log_in_order() {
    let d = gathered(" My Show! ");
    assert_eq!(d.show_name, "My_Show");
    assert_eq!(d.audio_ext, "mp3");
    // The later edit of frame 4 wins, frame 8 is past the head.
    assert!(matches!(d.instructions.get("800").unwrap().get("light-1"), Some(Json::PosInt(0))));
    assert!(d.instructions.get("1600").is_none());
    assert!(d.instructions.get("0").unwrap().get("laser-1").is_some());
    assert!(d.instructions.get("1200").is_none());
    assert_eq!(text_at(&d.metadata, "title"), " My Show! ");
}

#[test]
fn archive_holds_the_three_files() {
    let d = gathered("My Show");
    assert!(can_pack(&d));
    let (name, bytes) = export_open_project(&d).unwrap();
    assert_eq!(name, "My_Show.zip");
    let mut zip = zip::ZipArchive::new(Cursor::new(bytes.clone())).unwrap();
    assert_eq!(zip.len(), 3);
    let mut audio = Vec::new();
    zip.by_name("My_Show/My_Show.mp3").unwrap().read_to_end(&mut audio).unwrap();
    assert_eq!(audio, vec![1, 2, 3, 4, 5]);
    let mut meta = String::new();
    zip.by_name("My_Show/metadata.json").unwrap().read_to_string(&mut meta).unwrap();
    let meta: serde_json::Value = serde_json::from_str(&meta).unwrap();
    assert_eq!(meta["duration"], serde_json::Value::from(61));
    assert_eq!(meta["tempo"], serde_json::Value::from(150.0));
    let mut doc = String::new();
    zip.by_name("My_Show/instructions-exported.json").unwrap().read_to_string(&mut doc).unwrap();
    let doc: serde_json::Value = serde_json::from_str(&doc).unwrap();
    assert_eq!(doc["0"]["laser-1"]["points"][1], serde_json::Value::from(vec![1, 1, 7, 0, 0]));
    // The bytes depend on the show alone.
    assert_eq!(export_open_project(&gathered("My Show")).unwrap().1, bytes);
}

#[test]
fn archive_refuses_two_files_of_one_name() {
    let mut d = gathered("metadata");
    d.audio_ext = "json".to_string();
    assert!(build_zip(&d).is_err());
    let mut d = gathered("x");
    d.audio_ext = "y".repeat(70_000);
    assert!(!can_pack(&d));
}

#[test]
fn timeline_has_two_frames_to_a_beat() {
    let a = build_analysis(1000, 3, 250, 120.0f32.to_bits(), 4.0f32.to_bits());
    assert_eq!(a.num_frames, 6);
    assert_eq!(a.beats_frames, vec![0, 2, 4]);
    assert_eq!(build_analysis(0, 0, 0, 0, 0).num_frames, 1);
    let long = build_analysis(0, 60_000, 0, 0, 0);
    assert_eq!(long.num_frames, 100_000);
    assert_eq!(long.beats_frames.len(), 50_000);
}
