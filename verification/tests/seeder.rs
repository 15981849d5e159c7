//! Importing packages.
use lightshow::chunking::split_chunks;
use lightshow::export::laser_value;
use lightshow::instructions::build_instructions;
use lightshow::json::Json;
use lightshow::logic::{apply_pending, Keyframes};
use lightshow::package::{build_metadata, can_pack, export_open_project, ExportData};
use lightshow::rows::{LaserKeyframe, LaserPoint, LightEditInput, TurretKeyframe};
use lightshow::seeder::{
    call_name, can_convert, convert_show, is_mp3, parse_laser, prettify, read_device, read_document, seed_show, show_order, Converted,
    Device, SeedCall,
};
use std::io::{Cursor, Read};

fn doc(text: &str) -> Json {
    read_document(text).unwrap()
}

const BPM: u32 = 0x4316_0000; // 150.0

#[test]
fn shows_are_converted() {
    assert_eq!(BPM, 150.0f32.to_bits());
    let meta = doc("{\"tempo\": 150, \"duration\": 4, \"beats\": [0.0, \"x\", 0.4, 99.0]}");
    let instructions = doc(
        "{\"song\": {\"light-1\": 1}, \"0\": {\"light-1\": 1, \"light-7\": 0, \"lp-1\": {\"state\": 300, \"gallery\": 1}}, \
         \"200\": {\"laser-2\": 0, \"turret-4\": {\"state\": 1, \"pan\": 2, \"tilt\": 3}, \"fog-1\": 1}, \"abc\": {\"light-2\": 1}, \
         \"8000\": 5}",
    );
    // Documents list their keys in order: "0", "200", "8000", "abc", "song".
    let frames = vec![Some(0), Some(1), Some(40), None, None];
    let beats = vec![0, 0, 2, 495];
    assert!(can_convert(&meta, BPM, 20, &instructions, &frames, &beats));
    let c = convert_show(Some("My_First__Show_"), &meta, BPM, 4000, 20, &instructions, &frames, &beats).unwrap();
    assert_eq!(c.name, "My First  Show");
    assert_eq!((c.num_lights, c.num_frames, c.duration_ms), (7, 41, 4000));
    assert_eq!(c.beats_frames, vec![0, 2]);
    assert_eq!(
        c.lights,
        vec![LightEditInput { light: 0, frame: 0, state: 1 }, LightEditInput { light: 6, frame: 0, state: 0 }]
    );
    assert_eq!(c.lasers.len(), 1);
    assert!(!c.lasers[0].enable && c.lasers[0].channel == 1 && c.lasers[0].frame == 1);
    assert_eq!((c.projectors[0].state, c.projectors[0].gallery, c.projectors[0].colour), (255, 1, 0));
    assert_eq!((c.turrets[0].channel, c.turrets[0].tilt), (3, 3));
}

#[test]
fn packages_without_tempo_are_no_shows() {
    let obj = doc("{}");
    let none = vec![];
    let e = convert_show(None, &doc("{}"), BPM, 0, 0, &obj, &none, &vec![]).unwrap_err();
    assert_eq!(e, "metadata.json: missing tempo");
    let tempo = doc("{\"tempo\": 0}");
    let e = convert_show(None, &tempo, 0, 0, 0, &obj, &none, &vec![]).unwrap_err();
    assert_eq!(e, "non-positive tempo");
    let e = convert_show(None, &doc("{\"tempo\": 1.5}"), BPM, 0, 0, &doc("[]"), &none, &vec![]).unwrap_err();
    assert_eq!(e, "instructions-exported.json: not an object");
    assert!(read_document("{").is_err());
    assert_eq!(convert_show(None, &doc("{\"tempo\": 1.5}"), BPM, 0, 0, &obj, &none, &vec![]).unwrap().num_frames, 1);
}

#[test]
fn devices_numbered_zero_are_not_taken() {
    let meta = doc("{\"tempo\": 150}");
    let bad = doc("{\"0\": {\"light-0\": 1}}");
    assert!(!can_convert(&meta, BPM, 0, &bad, &vec![Some(0)], &vec![]));
    // Where the key is no time, nobody looks.
    assert!(can_convert(&meta, BPM, 0, &bad, &vec![None], &vec![]));
    assert!(!can_convert(&meta, BPM, 0, &bad, &vec![], &vec![]));
}

#[test]
fn lasers_are_read() {
    assert!(parse_laser(1, 0, &doc("{\"points\": []}")).is_none());
    assert!(parse_laser(1, 0, &doc("\"x\"")).is_none());
    let off = parse_laser(1, 2, &doc("3.5")).unwrap();
    assert!(!off.enable && off.points.is_empty());
    let on = parse_laser(
        1,
        2,
        &doc("{\"config\": 0, \"points\": [[1, -2, 300, -4, 5], 7, [70000]], \"value\": \"square-small\"}"),
    )
    .unwrap();
    assert!(on.enable);
    assert_eq!(on.pattern, 28);
    assert_eq!(on.points[0], LaserPoint { x: 1, y: -2, r: 255, g: 0, b: 5 });
    assert_eq!(on.points[1], LaserPoint { x: 4464, y: 0, r: 0, g: 0, b: 0 });
    assert_eq!(on.points.len(), 2);
}

#[test]
fn device_names_are_read() {
    let on = Json::PosInt(1);
    assert!(matches!(read_device("light-+3", &on, 5), Device::Light(l) if l.light == 2 && l.frame == 5 && l.state == 1));
    assert!(matches!(read_device("light-x", &on, 5), Device::Other));
    assert!(matches!(read_device("laser-256", &on, 5), Device::Other));
    assert!(matches!(read_device("light-2", &Json::Float("0.5".to_string()), 0), Device::Light(l) if l.state == 1));
    assert!(matches!(read_device("light-2", &Json::Float("-0.5".to_string()), 0), Device::Light(l) if l.state == 0));
    assert!(matches!(read_device("light-2", &Json::Bool(true), 0), Device::Light(l) if l.state == 0));
}

#[test]
fn exported_shows_read_back() {
    let mut lights = Keyframes::new();
    lights.insert(2, 10, true);
    lights.insert(2, 12, false);
    let points = vec![LaserPoint { x: -5, y: 320, r: 7, g: 1, b: 0 }];
    let laser = LaserKeyframe {
        id: 1,
        project_id: 1,
        frame: 11,
        channel: 4,
        enable: true,
        pattern: 37,
        cr: 0,
        cg: 0,
        cb: 0,
        points: points.clone(),
    };
    let turret = TurretKeyframe { id: 1, project_id: 1, frame: 12, channel: 0, state: 1, pan: 200, tilt: 100 };
    let value = laser_value(&laser);
    assert!(parse_laser(0, 4, &value).unwrap().points == points);
    let instructions = build_instructions(&lights, &vec![laser], &vec![], &vec![turret], |f| f as i64 * 200);
    let meta = build_metadata("x", "x", 5000, Json::Float("150.0".to_string()), vec![]);
    let frames: Vec<Option<u32>> = match &instructions {
        Json::Object(entries) => entries.iter().map(|(k, _)| k.parse::<u32>().ok().map(|ms| ms / 200)).collect(),
        other => panic!("not an object: {other:?}"),
    };
    let c = convert_show(Some("x"), &meta, BPM, 5000, 25, &instructions, &frames, &vec![]).unwrap();
    let mut got = c.lights.clone();
    got.sort_by_key(|l| l.frame);
    assert_eq!(
        got,
        vec![LightEditInput { light: 2, frame: 10, state: 1 }, LightEditInput { light: 2, frame: 12, state: 0 }]
    );
    assert_eq!((c.lasers[0].frame, c.lasers[0].channel, c.lasers[0].pattern), (11, 4, 37));
    assert_eq!(c.lasers[0].points, points);
    assert_eq!((c.turrets[0].frame, c.turrets[0].pan), (12, 200));
}

#[test]
fn packed_shows_read_back() {
    let mut lights = Keyframes::new();
    for f in [0, 5, 50, 7] {
        lights.insert(6, f, f != 5);
    }
    lights.insert(7, 3, true);
    let point = LaserPoint { x: -300, y: 12, r: 0, g: 7, b: 1 };
    let laser = LaserKeyframe {
        id: 9,
        project_id: 1,
        frame: 5,
        channel: 0,
        enable: true,
        pattern: 3,
        cr: 1,
        cg: 2,
        cb: 3,
        points: vec![point],
    };
    let data = ExportData {
        show_name: "A".to_string(),
        audio_ext: "mp3".to_string(),
        audio_bytes: vec![1],
        instructions: build_instructions(&lights, &vec![laser], &vec![], &vec![], |f| f as i64 * 200),
        metadata: build_metadata("A", "A", 5000, Json::Float("150.0".to_string()), vec![]),
    };
    assert!(can_pack(&data));
    let (_, bytes) = export_open_project(&data).unwrap();
    let mut zip = zip::ZipArchive::new(Cursor::new(bytes)).unwrap();
    let mut text = String::new();
    zip.by_name("A/instructions-exported.json").unwrap().read_to_string(&mut text).unwrap();
    let read = doc(&text);
    let keys: Vec<String> = match &read {
        Json::Object(entries) => entries.iter().map(|(k, _)| k.clone()).collect(),
        other => panic!("not an object: {other:?}"),
    };
    // The text lists its keys in order.
    assert_eq!(keys, vec!["0", "1000", "10000", "1400"]);
    let frames: Vec<Option<u32>> = keys.iter().map(|k| k.parse::<u32>().ok().map(|ms| ms / 200)).collect();
    let meta = doc("{\"tempo\": 150}");
    assert!(can_convert(&meta, BPM, 60, &read, &frames, &vec![]));
    let c = convert_show(Some("A"), &meta, BPM, 5000, 60, &read, &frames, &vec![]).unwrap();
    let mut folded = Keyframes::new();
    apply_pending(&mut folded, &c.lights);
    assert_eq!(folded.entries().len(), 4);
    for f in [0, 5, 50, 7] {
        assert_eq!(folded.get(6, f), Some(f != 5));
    }
    assert_eq!(c.lasers.len(), 1);
    assert_eq!((c.lasers[0].frame, c.lasers[0].pattern, c.lasers[0].cr), (5, 3, 0));
    assert_eq!(c.lasers[0].points, vec![point]);
}

fn converted() -> Converted {
    Converted {
        name: "S".to_string(),
        num_lights: 7,
        num_frames: 10,
        bpm_bits: BPM,
        duration_ms: 100,
        beats_frames: vec![0],
        lights: vec![],
        lasers: vec![],
        projectors: vec![],
        turrets: vec![],
    }
}

#[test]
fn calls_come_in_order() {
    let bytes = vec![3u8; 262_144 + 1];
    let calls = seed_show(converted(), 7, None, &bytes);
    let names: Vec<&str> = calls.iter().map(call_name).collect();
    assert_eq!(
        names,
        vec![
            "seed_project",
            "seed_light_edits",
            "seed_laser_keyframes",
            "seed_projector_keyframes",
            "seed_turret_keyframes",
            "seed_song",
            "seed_song_chunk",
            "seed_song_chunk"
        ]
    );
    assert!(matches!(&calls[5], SeedCall::Song { name, mime, byte_len: 262_145, num_chunks: 2, first_beat_ms: 0, .. }
        if name == "audio.mp3" && mime == "audio/mpeg"));
    assert!(matches!(&calls[7], SeedCall::Chunk { idx: 1, data } if data.len() == 1));
    assert_eq!(split_chunks(&bytes, 2)[0].len(), 262_144);
    let empty = seed_show(converted(), 7, Some("x.mp3".to_string()), &vec![]);
    assert_eq!(empty.len(), 6);
}

#[test]
fn shows_go_by_name() {
    let names: Vec<String> = ["b", "a", "ab", "", "b", "é"].iter().map(|s| s.to_string()).collect();
    assert_eq!(show_order(&names), vec![3, 1, 2, 0, 4, 5]);
    assert!(is_mp3("dir/song.mp3"));
    assert!(!is_mp3("song.MP3"));
    assert!(!is_mp3(".mp3"));
    assert_eq!(prettify(None), "show");
    assert_eq!(prettify(Some("_a_b_")), "a b");
}
