//! Uploads, chunks and playback.
use lightshow::audio::{
    analyze, audio_head, build_analysis, ensure_audio_buffer, guess_mime, has_playable_audio, phase_label, song_to_play, source_step,
    sync_tempo, AudioHead, SourceStep, UploadPhase, UploadState, UploadStep,
};
use lightshow::chunking::{assemble, count_chunks, split_chunks};
use lightshow::rows::{Identity, Project, Song, SongChunk};

fn me() -> Identity {
    Identity { hi: 5, lo: 6 }
}

fn song(id: u64, project_id: u64, byte_len: u64, num_chunks: u32, complete: bool) -> Song {
    Song {
        id,
        project_id,
        owner: me(),
        name: "a".to_string(),
        mime: "b".to_string(),
        byte_len,
        num_chunks,
        chunks_received: 0,
        duration_ms: 0,
        fps_bits: 4.0f32.to_bits(),
        beats_frames: vec![],
        bpm_bits: 120.0f32.to_bits(),
        first_beat_ms: 250,
        complete,
        created_at: 0,
    }
}

fn project(id: u64, name: &str, num_frames: u32, head_seq: u64) -> Project {
    Project {
        id,
        owner: me(),
        name: name.to_string(),
        num_lights: 7,
        num_frames,
        created_at: 0,
        head_seq,
        is_template: false,
        is_blueprint: false,
    }
}

#[test]
fn an_upload_runs_through() {
    let bytes: Vec<u8> = (0..300_000usize).map(|i| (i % 251) as u8).collect();
    let mut up = UploadState::default();
    assert!(!up.is_busy());
    assert!(up.trigger_upload("Party".to_string(), 7));
    assert!(!up.trigger_upload("Other".to_string(), 3));
    assert_eq!(phase_label(up.phase()), Some("Choosing file…"));
    up.picked(true);
    assert!(matches!(up.drive_upload(Some(me()), &vec![], &vec![]), UploadStep::Wait));
    let found = analyze(9_000, 10, 250, 120.0f32.to_bits(), 4.0f32.to_bits());
    up.analyzed(found, bytes.clone(), "song.OGG".to_string());
    match up.drive_upload(Some(me()), &vec![], &vec![]) {
        UploadStep::CreateProject { name, num_lights, num_frames } => {
            assert_eq!((name.as_str(), num_lights, num_frames), ("Party", 7, 20));
        }
        other => panic!("not a project: {other:?}"),
    }
    up.answered(Ok(()));
    assert!(matches!(up.phase(), UploadPhase::CreatingProject));
    // An older project of the name, one with edits, and the new one.
    let ps = vec![project(3, "Party", 20, 0), project(9, "Party", 20, 4), project(7, "Party", 20, 0), project(8, "Party", 21, 0)];
    assert!(matches!(up.drive_upload(None, &ps, &vec![]), UploadStep::Wait));
    match up.drive_upload(Some(me()), &ps, &vec![]) {
        UploadStep::BeginUpload { project_id, name, mime, byte_len, num_chunks, beats_frames, first_beat_ms, .. } => {
            assert_eq!((project_id, byte_len, num_chunks, first_beat_ms), (7, 300_000, 2, 250));
            assert_eq!((name.as_str(), mime.as_str()), ("song.OGG", "audio/ogg"));
            assert_eq!(beats_frames.len(), 10);
        }
        other => panic!("not an upload: {other:?}"),
    }
    up.answered(Ok(()));
    let songs = vec![song(1, 6, 300_000, 2, false), song(2, 7, 300_000, 2, false)];
    assert!(up.can_drive(&songs));
    let chunks = match up.drive_upload(Some(me()), &ps, &songs) {
        UploadStep::SendChunks { song_id, chunks } => {
            assert_eq!(song_id, 2);
            chunks
        }
        other => panic!("no chunks: {other:?}"),
    };
    assert_eq!(chunks.concat(), bytes);
    assert!(up.is_busy());
    assert!(matches!(up.drive_upload(Some(me()), &ps, &songs), UploadStep::Wait));
    up.drive_upload(Some(me()), &ps, &vec![song(2, 7, 300_000, 2, true)]);
    assert!(matches!(up.phase(), UploadPhase::Done));
    assert!(up.pending.is_none());
}

#[test]
fn uploads_fail_with_a_reason() {
    let mut up = UploadState::default();
    up.trigger_upload("x".to_string(), 7);
    up.picked(false);
    assert!(matches!(up.phase(), UploadPhase::Idle));
    up.trigger_upload("x".to_string(), 7);
    up.picked(true);
    let nothing = analyze(9_000, 0, 0, 120.0f32.to_bits(), 0);
    up.analyzed(nothing, vec![], "x".to_string());
    assert!(matches!(up.phase(), UploadPhase::Error(e) if e == "No beats detected in this audio"));
    assert!(analyze(9_000, 4, 0, (-1.0f32).to_bits(), 0).is_err());
    up.trigger_upload("x".to_string(), 7);
    up.picked(true);
    up.analyzed(Ok(build_analysis(1, 1, 0, 1, 1)), vec![1], "x".to_string());
    up.answered(Err("no connection".to_string()));
    assert!(matches!(up.phase(), UploadPhase::Error(e) if e == "no connection"));
    assert!(up.incoming.is_none());
    up.phase = UploadPhase::Sending { song_id: 4, total: 1 };
    up.drive_upload(None, &vec![], &vec![]);
    assert!(matches!(up.phase(), UploadPhase::Error(e) if e == "song removed during upload"));
    // A song that asks for more chunks than the file has is not sent.
    up.phase = UploadPhase::Beginning;
    up.pending = Some(build_analysis(1, 1, 0, 1, 1));
    up.project_id = 7;
    assert!(!up.can_drive(&vec![song(2, 7, 0, 2, false)]));
    assert!(up.can_drive(&vec![song(2, 7, 0, 1, false)]));
}

fn chunk(song_id: u64, idx: u32, data: &[u8]) -> SongChunk {
    SongChunk { id: idx as u64, song_id, project_id: 7, idx, data: data.to_vec() }
}

#[test]
fn chunks_are_put_in_order() {
    let cs = vec![chunk(1, 2, &[5]), chunk(2, 0, &[9]), chunk(1, 0, &[1, 2]), chunk(1, 1, &[3, 4])];
    assert_eq!(assemble(&cs, 1), vec![1, 2, 3, 4, 5]);
    assert_eq!(count_chunks(&cs, 1), 3);
    let bytes: Vec<u8> = (0..600_000usize).map(|i| (i / 7) as u8).collect();
    let mut rows: Vec<SongChunk> =
        split_chunks(&bytes, 3).iter().enumerate().map(|(i, d)| chunk(1, i as u32, d)).collect();
    rows.rotate_left(1);
    assert_eq!(assemble(&rows, 1), bytes);
    assert_eq!(split_chunks(&vec![], 1), vec![Vec::<u8>::new()]);
}

#[test]
fn buffers_are_decoded_once() {
    let songs = vec![song(1, 7, 3, 2, true)];
    let cs = vec![chunk(1, 1, &[3]), chunk(1, 0, &[1, 2])];
    assert_eq!(ensure_audio_buffer(&songs, &cs, Some(7), None, None), Some((1, vec![1, 2, 3])));
    assert_eq!(ensure_audio_buffer(&songs, &cs, Some(7), Some(1), None), None);
    assert_eq!(ensure_audio_buffer(&songs, &cs, Some(7), None, Some(1)), None);
    assert_eq!(ensure_audio_buffer(&songs, &vec![chunk(1, 0, &[1])], Some(7), None, None), None);
    assert_eq!(ensure_audio_buffer(&vec![song(1, 7, 3, 2, false)], &cs, Some(7), None, None), None);
    assert_eq!(ensure_audio_buffer(&songs, &cs, None, None, None), None);
    assert!(has_playable_audio(true, Some(1), Some(1)));
    assert!(!has_playable_audio(true, None, None));
    assert!(!has_playable_audio(false, Some(1), Some(1)));
}

#[test]
fn the_sound_drives_the_playhead() {
    assert_eq!(source_step(true, true, false), SourceStep::Start);
    assert_eq!(source_step(true, false, true), SourceStep::Stop);
    assert_eq!(source_step(false, true, true), SourceStep::Stop);
    assert_eq!(source_step(true, true, true), SourceStep::Keep);
    assert_eq!(audio_head(5, 6, true), AudioHead::At(5));
    assert_eq!(audio_head(-2, 6, true), AudioHead::At(0));
    assert_eq!(audio_head(6, 6, true), AudioHead::Restart);
    assert_eq!(audio_head(6, 6, false), AudioHead::Ended(5));
    assert_eq!(audio_head(0, 0, false), AudioHead::Ended(0));
    let songs = vec![song(1, 7, 3, 2, true)];
    assert_eq!(song_to_play(&songs, Some(7)), Some((1, 250)));
    assert_eq!(song_to_play(&songs, Some(8)), None);
    assert_eq!(sync_tempo(&songs, Some(7)), Some(4.0f32.to_bits()));
    let mut still = song(1, 7, 3, 2, true);
    still.fps_bits = f32::NAN.to_bits();
    assert_eq!(sync_tempo(&vec![still], Some(7)), None);
    assert_eq!(sync_tempo(&songs, None), None);
}

#[test]
fn mime_types_go_by_ending() {
    assert_eq!(guess_mime("x.MP3"), "audio/mpeg");
    assert_eq!(guess_mime("a.b.wav"), "audio/wav");
    assert_eq!(guess_mime("flac"), "audio/flac");
    assert_eq!(guess_mime("x.m4a"), "audio/aac");
    assert_eq!(guess_mime("x."), "application/octet-stream");
}
