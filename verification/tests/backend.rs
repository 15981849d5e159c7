//! The backend's rules: projects, the edit log, songs, samples and copies.
use lightshow::fork::fork_project;
use lightshow::logic::fold_keyframes;
use lightshow::projects::{append_edit, create_project, init};
use lightshow::rows::{
    Identity, LaserKeyframeInput, LaserPoint, LightEditInput, ProjectorKeyframeInput, TurretKeyframeInput,
};
use lightshow::seeding::{
    find_template, seed_laser_keyframes, seed_light_edits, seed_project, seed_projector_keyframes, seed_song, seed_song_chunk,
    seed_turret_keyframes,
};
use lightshow::songs::{append_song_chunk, begin_song_upload, delete_song};
use lightshow::store::{Caller, Store, CHUNK_SIZE, MAX_SONG_BYTES};

fn who(n: u128) -> Caller {
    Caller { sender: Identity { hi: 0, lo: n }, timestamp: 1_000 + n as i64 }
}

fn with_project() -> Store {
    let mut s = Store::new();
    init(&mut s, &who(1));
    create_project(&mut s, &who(1), "  Party  ".to_string(), 4, 16).unwrap();
    s
}

fn upload(s: &mut Store, ctx: &Caller, byte_len: u64, num_chunks: u32) -> Result<(), String> {
    begin_song_upload(s, ctx, 1, "a.mp3".to_string(), "audio/mpeg".to_string(), byte_len, num_chunks, 1000, 0, vec![0, 2], 0, 5)
}

#[test]
fn projects_are_named_and_clamped() {
    let mut s = with_project();
    assert_eq!(s.projects[0].name, "Party");
    assert_eq!(s.projects[0].head_seq, 0);
    assert_eq!(create_project(&mut s, &who(1), "   ".to_string(), 4, 16).unwrap_err(), "Project name cannot be empty");
    create_project(&mut s, &who(2), "Huge".to_string(), 0, 1_000_000).unwrap();
    assert_eq!(s.projects[1].num_lights, 1);
    assert_eq!(s.projects[1].num_frames, 100_000);
    assert_eq!(s.projects[1].id, 2);
}

#[test]
fn edits_are_appended_and_checked() {
    let mut s = with_project();
    append_edit(&mut s, &who(1), 1, 0, 3, 1).unwrap();
    append_edit(&mut s, &who(1), 1, 0, 5, 0).unwrap();
    assert_eq!(s.projects[0].head_seq, 2);
    assert_eq!(s.edits[1].seq, 2);
    assert_eq!(append_edit(&mut s, &who(1), 9, 0, 0, 1).unwrap_err(), "Project not found");
    assert_eq!(append_edit(&mut s, &who(2), 1, 0, 0, 1).unwrap_err(), "You do not own this project");
    assert_eq!(append_edit(&mut s, &who(1), 1, 4, 0, 1).unwrap_err(), "light index out of range");
    assert_eq!(append_edit(&mut s, &who(1), 1, 0, 16, 1).unwrap_err(), "frame index out of range");
    assert_eq!(append_edit(&mut s, &who(1), 1, 0, 0, 3).unwrap_err(), "state must be 0 (off), 1 (on) or 2 (clear)");
    assert_eq!(s.edits.len(), 2);
}

#[test]
fn past_versions_stay() {
    let mut s = with_project();
    append_edit(&mut s, &who(1), 1, 0, 3, 1).unwrap();
    let then: Vec<_> = fold_keyframes(&s.edits, 1).entries().clone();
    append_edit(&mut s, &who(1), 1, 0, 3, 2).unwrap();
    append_edit(&mut s, &who(1), 1, 1, 4, 1).unwrap();
    assert_eq!(fold_keyframes(&s.edits, 1).entries(), &then);
    assert_eq!(fold_keyframes(&s.edits, 3).get(0, 3), None);
}

#[test]
fn songs_arrive_in_any_order() {
    let mut s = with_project();
    let bytes: Vec<u8> = (0..CHUNK_SIZE as usize + 10).map(|i| i as u8).collect();
    upload(&mut s, &who(1), bytes.len() as u64, 2).unwrap();
    let id = s.songs[0].id;
    append_song_chunk(&mut s, &who(1), id, 1, bytes[CHUNK_SIZE as usize..].to_vec()).unwrap();
    assert!(!s.songs[0].complete);
    // A repeated chunk changes nothing.
    append_song_chunk(&mut s, &who(1), id, 1, vec![9]).unwrap();
    assert_eq!(s.chunks.len(), 1);
    append_song_chunk(&mut s, &who(1), id, 0, bytes[..CHUNK_SIZE as usize].to_vec()).unwrap();
    assert!(s.songs[0].complete);
    assert_eq!(lightshow::chunking::assemble(&s.chunks, id), bytes);
}

#[test]
fn bad_uploads_are_refused() {
    let mut s = with_project();
    assert_eq!(upload(&mut s, &who(2), 5, 1).unwrap_err(), "You do not own this project");
    assert_eq!(upload(&mut s, &who(1), 0, 0).unwrap_err(), "Audio file is empty");
    assert!(upload(&mut s, &who(1), MAX_SONG_BYTES + 1, 97).is_err());
    assert_eq!(upload(&mut s, &who(1), 5, 2).unwrap_err(), "num_chunks 2 != expected 1");
    upload(&mut s, &who(1), 5, 1).unwrap();
    let id = s.songs[0].id;
    assert_eq!(append_song_chunk(&mut s, &who(1), 77, 0, vec![]).unwrap_err(), "Song not found");
    assert_eq!(append_song_chunk(&mut s, &who(2), id, 0, vec![]).unwrap_err(), "You do not own this song");
    assert_eq!(append_song_chunk(&mut s, &who(1), id, 1, vec![]).unwrap_err(), "Chunk index out of range");
    let big = vec![0u8; CHUNK_SIZE as usize + 1];
    assert_eq!(append_song_chunk(&mut s, &who(1), id, 0, big).unwrap_err(), "Chunk exceeds CHUNK_SIZE");
    // A short file never completes.
    append_song_chunk(&mut s, &who(1), id, 0, vec![1, 2]).unwrap();
    assert!(!s.songs[0].complete);
}

#[test]
fn deleting_a_song_leaves_the_show() {
    let mut s = with_project();
    append_edit(&mut s, &who(1), 1, 0, 3, 1).unwrap();
    upload(&mut s, &who(1), 5, 1).unwrap();
    let id = s.songs[0].id;
    append_song_chunk(&mut s, &who(1), id, 0, vec![1, 2, 3, 4, 5]).unwrap();
    assert_eq!(delete_song(&mut s, &who(2), 1).unwrap_err(), "You do not own this project");
    assert_eq!(delete_song(&mut s, &who(1), 8).unwrap_err(), "Project not found");
    delete_song(&mut s, &who(1), 1).unwrap();
    assert!(s.songs.is_empty() && s.chunks.is_empty());
    assert_eq!(s.edits.len(), 1);
}

fn seeded() -> Store {
    let mut s = Store::new();
    let ctx = who(3);
    let key = || "Sample".to_string();
    seed_project(&mut s, &ctx, key(), 7, 50).unwrap();
    seed_light_edits(
        &mut s,
        &ctx,
        key(),
        vec![
            LightEditInput { light: 0, frame: 1, state: 1 },
            LightEditInput { light: 99, frame: 1, state: 1 },
        ],
    )
    .unwrap();
    let laser = LaserKeyframeInput {
        frame: 2,
        channel: 0,
        enable: true,
        pattern: 4,
        cr: 1,
        cg: 2,
        cb: 3,
        points: vec![LaserPoint { x: 1, y: 2, r: 7, g: 0, b: 0 }],
    };
    seed_laser_keyframes(&mut s, &ctx, key(), vec![laser]).unwrap();
    let projector = ProjectorKeyframeInput { frame: 3, channel: 0, state: 1, gallery: 2, pattern: 3, colour: 4 };
    seed_projector_keyframes(&mut s, &ctx, key(), vec![projector]).unwrap();
    let turret = TurretKeyframeInput { frame: 4, channel: 1, state: 1, pan: 2, tilt: 3 };
    seed_turret_keyframes(&mut s, &ctx, key(), vec![turret]).unwrap();
    seed_song(&mut s, &ctx, key(), "s.mp3".to_string(), "audio/mpeg".to_string(), 3, 1, 100, 0, vec![0], 0, 0).unwrap();
    seed_song_chunk(&mut s, &ctx, key(), 0, vec![7, 8, 9]).unwrap();
    s
}

#[test]
fn samples_are_stored_once() {
    let mut s = seeded();
    assert_eq!(find_template(&s, "Sample"), Some(0));
    assert!(s.projects[0].is_template);
    assert_eq!(s.edits.len(), 1); // the edit out of range is skipped
    assert!(s.songs[0].complete);
    // Seeding again starts over.
    seed_project(&mut s, &who(3), "Sample".to_string(), 7, 50).unwrap();
    assert_eq!(s.projects.len(), 1);
    assert!(s.edits.is_empty() && s.lasers.is_empty() && s.songs.is_empty() && s.chunks.is_empty());
}

#[test]
fn seeding_names_its_errors() {
    let mut s = Store::new();
    let ctx = who(3);
    assert_eq!(seed_project(&mut s, &ctx, " ".to_string(), 7, 50).unwrap_err(), "name is required");
    let gone = || "Gone".to_string();
    assert_eq!(seed_light_edits(&mut s, &ctx, gone(), vec![]).unwrap_err(), "template not found");
    assert_eq!(seed_song_chunk(&mut s, &ctx, gone(), 0, vec![]).unwrap_err(), "template not found");
    seed_project(&mut s, &ctx, gone(), 7, 50).unwrap();
    assert_eq!(seed_song_chunk(&mut s, &ctx, gone(), 0, vec![]).unwrap_err(), "song upload not begun");
}

#[test]
fn copies_are_the_same_show() {
    let mut s = seeded();
    fork_project(&mut s, &who(5), 1).unwrap();
    assert_eq!(s.projects.len(), 2);
    let copy = &s.projects[1];
    assert_eq!(copy.owner, who(5).sender);
    assert!(!copy.is_template);
    assert_eq!(copy.head_seq, s.projects[0].head_seq);
    let own: Vec<_> = s.edits.iter().filter(|e| e.project_id == copy.id).collect();
    assert_eq!(own.len(), 1);
    assert_eq!((own[0].seq, own[0].light, own[0].frame), (1, 0, 1));
    assert_eq!(s.lasers.len(), 2);
    assert_eq!(s.lasers[1].points, s.lasers[0].points);
    assert_eq!(s.turrets[1].pan, 2);
    let song = s.songs.iter().find(|x| x.project_id == copy.id).unwrap();
    assert!(song.complete);
    assert_eq!(lightshow::chunking::assemble(&s.chunks, song.id), vec![7, 8, 9]);
    assert_eq!(fork_project(&mut s, &who(5), 44).unwrap_err(), "Project not found");
}

#[test]
fn logs_are_numbered_without_gaps() {
    let mut s = with_project();
    for f in 0..4 {
        append_edit(&mut s, &who(1), 1, 0, f, 1).unwrap();
        assert!(append_edit(&mut s, &who(2), 1, 0, f, 1).is_err());
    }
    let seqs: Vec<u64> = s.edits.iter().filter(|e| e.project_id == 1).map(|e| e.seq).collect();
    assert_eq!(seqs, vec![1, 2, 3, 4]);
    assert_eq!(s.projects[0].head_seq, 4);
}

#[test]
fn seeded_songs_are_uploads() {
    let key = || "Sample".to_string();
    let make = || {
        let mut s = Store::new();
        seed_project(&mut s, &who(3), key(), 7, 50).unwrap();
        s
    };
    let (mut a, mut b) = (make(), make());
    let id = a.projects[0].id;
    seed_song(&mut a, &who(3), key(), "s.mp3".to_string(), "audio/mpeg".to_string(), 3, 1, 100, 5, vec![0, 60], 6, 7).unwrap();
    begin_song_upload(&mut b, &who(3), id, "s.mp3".to_string(), "audio/mpeg".to_string(), 3, 1, 100, 5, vec![0, 60], 6, 7).unwrap();
    assert_eq!(format!("{a:?}"), format!("{b:?}"));
    let song = b.songs[0].id;
    // Whoever calls, the chunk is stored as by the song's owner.
    seed_song_chunk(&mut a, &who(8), key(), 0, vec![7, 8, 9]).unwrap();
    append_song_chunk(&mut b, &who(3), song, 0, vec![7, 8, 9]).unwrap();
    assert_eq!(format!("{a:?}"), format!("{b:?}"));
    assert_eq!(
        seed_song(&mut a, &who(3), key(), String::new(), String::new(), 5, 2, 0, 0, vec![], 0, 0).unwrap_err(),
        begin_song_upload(&mut b, &who(3), id, String::new(), String::new(), 5, 2, 0, 0, vec![], 0, 0).unwrap_err()
    );
}
