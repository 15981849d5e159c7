//! What an upload makes of a song, and which audio is played.
use crate::audio::{
    above_zero, announced_chunks, at_most_zero, beat_frames, first_song, is_awaiting, is_complete_song_of, is_song, is_song_of, mime_of, newest_project,
    next_step, playable_song, song_tempo, timeline_frames, wanted_audio, PhaseView, StepView, UploadView,
};
use crate::chunking::{audio_of, piece};
use crate::rows::{Identity, ProjectView, SongChunk, SongChunkView, SongView};
use crate::store::{rows_of, CHUNK_SIZE};
use crate::text::{lowered, parts};
use vstd::prelude::*;

verus! {

broadcast use vstd::seq::group_seq_axioms;

// ---- the timeline of a song -------------------------------------------------

/// A timeline has two frames a beat: the beats stand on its even frames, each once and in
/// order, and on no others; it ends with its last beat, or at 100,000 frames.
pub proof fn law_timeline(num_beats: u32, k: int, f: u32)
    requires
        num_beats >= 1,
    ensures
        ({
            let n = timeline_frames(num_beats);
            let beats = beat_frames(num_beats);
            &&& 1 <= n <= 100_000
            &&& num_beats <= 50_000 ==> n == 2 * num_beats && beats.len() == num_beats
            &&& num_beats > 50_000 ==> n == 100_000 && beats.len() == 50_000
            &&& 0 <= k < beats.len() ==> beats[k] == 2 * k && beats[k] + 1 < n
            &&& beats.contains(f) <==> f % 2 == 0 && f < n
        }),
{
    let n = timeline_frames(num_beats);
    let beats = beat_frames(num_beats);
    if f % 2 == 0 && f < n {
        assert(beats[f as int / 2] == f);
    }
    if beats.contains(f) {
        let i = choose|i: int| 0 <= i < beats.len() && beats[i] == f;
        assert(beats[i] == 2 * i);
    }
}

/// Of the bits of a number that is one, either the number is above zero or at most zero;
/// the sign bit turns what is above zero into what is not.
pub proof fn law_signs(bits: u32)
    ensures
        !(0x7f80_0000 < bits < 0x8000_0000) && !(0xff80_0000 < bits) ==> (above_zero(bits) <==> !at_most_zero(bits)),
        (0x7f80_0000 < bits < 0x8000_0000) || 0xff80_0000 < bits ==> !above_zero(bits) && !at_most_zero(bits),
        above_zero(bits) ==> at_most_zero((bits + 0x8000_0000) as u32),
        at_most_zero(0),
        at_most_zero(0x8000_0000),
{
}

// ---- finding rows -----------------------------------------------------------

/// The first song that satisfies a condition satisfies it, and none before it does; there
/// is none exactly where no song does.
pub proof fn law_first_song(songs: Seq<SongView>, p: spec_fn(SongView) -> bool)
    ensures
        match first_song(songs, p) {
            Some(i) => {
                &&& 0 <= i < songs.len()
                &&& p(songs[i])
                &&& forall|j: int| 0 <= j < i ==> !p(#[trigger] songs[j])
            },
            None => forall|j: int| 0 <= j < songs.len() ==> !p(#[trigger] songs[j]),
        },
    decreases songs.len(),
{
    if songs.len() > 0 {
        let q = songs.drop_last();
        law_first_song(q, p);
        assert forall|j: int| 0 <= j < q.len() implies #[trigger] q[j] == songs[j] by {}
        match first_song(songs, p) {
            Some(i) => {
                assert forall|j: int| 0 <= j < i implies !p(#[trigger] songs[j]) by {
                    assert(q[j] == songs[j]);
                }
                if i < q.len() {
                    assert(q[i] == songs[i]);
                }
            },
            None => {
                assert forall|j: int| 0 <= j < songs.len() implies !p(#[trigger] songs[j]) by {
                    if j < q.len() {
                        assert(q[j] == songs[j]);
                    }
                }
            },
        }
    }
}

/// The project has no edits yet and is the one that the upload asked for.
pub open spec fn fresh(p: ProjectView, me: Option<Identity>, name: Seq<char>, frames: u32) -> bool {
    me == Some(p.owner) && p.name == name && p.num_frames == frames && p.head_seq == 0
}

/// An upload goes to the newest project that fits: one of the caller's with the name and
/// length asked for and without edits, and of those the one with the highest id.
pub proof fn law_newest_project(ps: Seq<ProjectView>, me: Option<Identity>, name: Seq<char>, frames: u32)
    ensures
        match newest_project(ps, me, name, frames) {
            Some(id) => {
                &&& exists|i: int| 0 <= i < ps.len() && fresh(#[trigger] ps[i], me, name, frames) && ps[i].id == id
                &&& forall|j: int| 0 <= j < ps.len() && fresh(#[trigger] ps[j], me, name, frames) ==> ps[j].id <= id
            },
            None => forall|j: int| 0 <= j < ps.len() ==> !fresh(#[trigger] ps[j], me, name, frames),
        },
    decreases ps.len(),
{
    if ps.len() > 0 {
        let q = ps.drop_last();
        let z = ps.len() - 1;
        law_newest_project(q, me, name, frames);
        assert forall|j: int| 0 <= j < z implies #[trigger] q[j] == ps[j] by {}
        let best = newest_project(q, me, name, frames);
        if best is Some {
            let i = choose|i: int| 0 <= i < q.len() && fresh(#[trigger] q[i], me, name, frames) && q[i].id == best->0;
            assert(ps[i] == q[i]);
            assert(fresh(ps[i], me, name, frames) && ps[i].id == best->0);
        }
        if fresh(ps[z], me, name, frames) {
            assert(newest_project(ps, me, name, frames) is Some);
        }
        match newest_project(ps, me, name, frames) {
            Some(id) => {
                assert forall|j: int| 0 <= j < ps.len() && fresh(#[trigger] ps[j], me, name, frames) implies ps[j].id <= id by {
                    if j < z {
                        assert(q[j] == ps[j]);
                    }
                }
            },
            None => {
                assert forall|j: int| 0 <= j < ps.len() implies !fresh(#[trigger] ps[j], me, name, frames) by {
                    if j < z {
                        assert(q[j] == ps[j]);
                    }
                }
            },
        }
    }
}

// ---- the steps of an upload -------------------------------------------------

/// A file is announced with the least number of chunks that hold it, at least one.
pub proof fn law_announced(len: int)
    requires
        0 <= len <= 0x3_ffff_ffff,
    ensures
        announced_chunks(len) >= 1,
        len <= announced_chunks(len) * CHUNK_SIZE,
        len > 0 ==> (announced_chunks(len) - 1) * CHUNK_SIZE < len,
{
}

/// Every chunk but the last is full, none is longer than a chunk may be, and each holds the
/// bytes at its place.
pub proof fn law_piece(bytes: Seq<u8>, k: int, b: int)
    requires
        0 <= k,
        k * CHUNK_SIZE <= bytes.len(),
    ensures
        piece(bytes, k).len() <= CHUNK_SIZE,
        (k + 1) * CHUNK_SIZE <= bytes.len() ==> piece(bytes, k).len() == CHUNK_SIZE,
        (k + 1) * CHUNK_SIZE > bytes.len() ==> k * CHUNK_SIZE + piece(bytes, k).len() == bytes.len(),
        0 <= b < piece(bytes, k).len() ==> piece(bytes, k)[b] == bytes[k * CHUNK_SIZE + b],
{
    assert((k + 1) * CHUNK_SIZE == k * CHUNK_SIZE + CHUNK_SIZE) by (nonlinear_arith);
}

/// An upload takes its steps in order. It asks for a project once the file is analysed, with
/// the length that the file's beats need; begins the upload once that project is there, with
/// the analysed song and its size; and sends chunks once the song's row is there, to that
/// song. While it sends it is done exactly when the song is complete, and fails when the
/// song is gone. Nothing else makes it ask for anything.
pub proof fn law_upload_steps(up: UploadView, me: Option<Identity>, ps: Seq<ProjectView>, songs: Seq<SongView>)
    ensures
        match next_step(up, me, ps, songs).1 {
            StepView::CreateProject { name, num_lights, num_frames } => up.phase is Analyzing && up.incoming is Some && name
                == up.pending_name && num_lights == up.pending_lights && num_frames == up.incoming->0.num_frames,
            StepView::BeginUpload { project_id, song, byte_len, num_chunks } => {
                &&& up.phase is CreatingProject && up.pending == Some(song)
                &&& next_step(up, me, ps, songs).0.project_id == project_id
                &&& exists|i: int|
                    0 <= i < ps.len() && fresh(#[trigger] ps[i], me, up.pending_name, song.num_frames) && ps[i].id == project_id
                &&& song.bytes.len() <= 0x3_ffff_ffff ==> byte_len == song.bytes.len() && num_chunks >= 1 && byte_len <= num_chunks
                    * CHUNK_SIZE && (byte_len > 0 ==> (num_chunks - 1) * CHUNK_SIZE < byte_len)
            },
            StepView::SendChunks { song_id, chunks } => {
                &&& up.phase is Beginning && up.pending is Some
                &&& next_step(up, me, ps, songs).0.phase == (PhaseView::Sending { song_id, total: chunks.len() as u32 })
                &&& exists|i: int|
                    0 <= i < songs.len() && (#[trigger] songs[i]).id == song_id && songs[i].project_id == up.project_id && !songs[i].complete
                        && songs[i].byte_len == up.pending->0.bytes.len() && chunks.len() == songs[i].num_chunks
                &&& forall|k: int| 0 <= k < chunks.len() ==> #[trigger] chunks[k] == piece(up.pending->0.bytes, k)
            },
            StepView::Wait => true,
        },
        up.phase matches PhaseView::Sending { song_id, total: _ } ==> {
            let phase = next_step(up, me, ps, songs).0.phase;
            &&& phase is Done ==> exists|i: int| 0 <= i < songs.len() && (#[trigger] songs[i]).id == song_id && songs[i].complete
            &&& phase is Error <==> forall|i: int| 0 <= i < songs.len() ==> (#[trigger] songs[i]).id != song_id
            &&& phase is Done || phase is Error || phase == up.phase
        },
        up.phase is Idle || up.phase is Picking || up.phase is Done || up.phase is Error ==> next_step(up, me, ps, songs) == (
            up,
            StepView::Wait,
        ),
{
    match up.phase {
        PhaseView::CreatingProject => {
            if up.pending is Some {
                law_newest_project(ps, me, up.pending_name, up.pending->0.num_frames);
                let len = up.pending->0.bytes.len() as int;
                if len <= 0x3_ffff_ffff {
                    law_announced(len);
                }
            }
        },
        PhaseView::Beginning => {
            if up.pending is Some {
                let p = is_awaiting(up.project_id, up.pending->0.bytes.len() as int);
                law_first_song(songs, p);
                if let Some(i) = first_song(songs, p) {
                    assert(songs[i].project_id == up.project_id);
                }
            }
        },
        PhaseView::Sending { song_id, .. } => {
            let p = is_song(song_id);
            law_first_song(songs, p);
            match first_song(songs, p) {
                Some(i) => {
                    assert(songs[i].id == song_id);
                },
                None => {
                    assert forall|i: int| 0 <= i < songs.len() implies (#[trigger] songs[i]).id != song_id by {
                        assert(!p(songs[i]));
                    }
                },
            }
        },
        _ => {},
    }
}

// ---- what is played ---------------------------------------------------------

/// The song that sets the tempo of the open project is its first; without one, or without a
/// rate above zero, the tempo stays.
pub proof fn law_song_tempo(songs: Seq<SongView>, project: u64, i: int)
    requires
        0 <= i < songs.len(),
        songs[i].project_id == project,
        forall|j: int| 0 <= j < i ==> (#[trigger] songs[j]).project_id != project,
    ensures
        above_zero(songs[i].fps_bits) ==> song_tempo(songs, Some(project)) == Some(songs[i].fps_bits),
        !above_zero(songs[i].fps_bits) ==> song_tempo(songs, Some(project)) is None,
        song_tempo(songs, None) is None,
{
    let p = is_song_of(project);
    law_first_song(songs, p);
    assert(p(songs[i]));
    let k = first_song(songs, p)->0;
    if k < i {
        assert(songs[k].project_id != project);
    }
}

/// The audio to decode is that of a complete song of the open project whose chunks are all
/// here; it is not asked for again while it is decoded or once it was.
pub proof fn law_wanted_audio(
    songs: Seq<SongView>,
    chunks: Seq<SongChunkView>,
    open: Option<u64>,
    decoded: Option<u64>,
    decoding: Option<u64>,
)
    ensures
        match wanted_audio(songs, chunks, open, decoded, decoding) {
            Some((id, bytes)) => {
                &&& decoded != Some(id) && decoding != Some(id)
                &&& bytes == audio_of(chunks, id)
                &&& exists|i: int|
                    0 <= i < songs.len() && (#[trigger] songs[i]).id == id && songs[i].complete && open == Some(songs[i].project_id)
                        && songs[i].num_chunks == rows_of::<SongChunk>(chunks, id).len() as u32
            },
            None => playable_song(songs, open) matches Some(i) ==> decoded == Some(songs[i].id) || decoding == Some(songs[i].id)
                || songs[i].num_chunks != rows_of::<SongChunk>(chunks, songs[i].id).len() as u32,
        },
        match playable_song(songs, open) {
            Some(i) => 0 <= i < songs.len() && songs[i].complete && open == Some(songs[i].project_id),
            None => forall|j: int| 0 <= j < songs.len() && (#[trigger] songs[j]).complete ==> open != Some(songs[j].project_id),
        },
{
    if let Some(project) = open {
        let p = is_complete_song_of(project);
        law_first_song(songs, p);
        match first_song(songs, p) {
            Some(i) => {
                assert(p(songs[i]));
            },
            None => {
                assert forall|j: int| 0 <= j < songs.len() && (#[trigger] songs[j]).complete implies songs[j].project_id != project by {
                    assert(!p(songs[j]));
                }
            },
        }
    }
}

// ---- the kind of a file -----------------------------------------------------

/// The last part of a text is what follows its last separator.
pub proof fn lemma_last_part(stem: Seq<char>, ext: Seq<char>, c: char)
    requires
        forall|i: int| 0 <= i < ext.len() ==> #[trigger] ext[i] != c,
    ensures
        parts(stem.push(c) + ext, c).last() == ext,
        parts(stem.push(c) + ext, c).len() > 0,
    decreases ext.len(),
{
    let s = stem.push(c) + ext;
    if ext.len() == 0 {
        assert(s =~= stem.push(c));
        assert(s.drop_last() =~= stem);
        assert(parts(s, c).last() =~= ext);
    } else {
        let less = ext.drop_last();
        assert forall|i: int| 0 <= i < less.len() implies #[trigger] less[i] != c by {
            assert(less[i] == ext[i]);
        }
        lemma_last_part(stem, less, c);
        assert(s.drop_last() =~= stem.push(c) + less);
        assert(s.last() == ext.last());
        assert(ext[ext.len() - 1] != c);
        assert(parts(s, c).last() == less.push(ext.last()));
        assert(less.push(ext.last()) =~= ext);
    }
}

/// The kind of a file is told by what follows its last dot, in either case, whatever comes
/// before.
pub proof fn law_mime(stem: Seq<char>, ext: Seq<char>)
    requires
        forall|i: int| 0 <= i < ext.len() ==> #[trigger] ext[i] != '.',
    ensures
        ({
            let mime = mime_of(stem.push('.') + ext);
            &&& lowered(ext) == "mp3"@ ==> mime == "audio/mpeg"@
            &&& lowered(ext) == "wav"@ ==> mime == "audio/wav"@
            &&& lowered(ext) == "ogg"@ ==> mime == "audio/ogg"@
            &&& lowered(ext) == "m4a"@ ==> mime == "audio/aac"@
            &&& lowered(ext) == "aac"@ ==> mime == "audio/aac"@
            &&& lowered(ext) == "flac"@ ==> mime == "audio/flac"@
            &&& mime == "application/octet-stream"@ || lowered(ext) == "mp3"@ || lowered(ext) == "wav"@ || lowered(ext) == "ogg"@ || lowered(ext)
                == "m4a"@ || lowered(ext) == "aac"@ || lowered(ext) == "flac"@
        }),
        forall|i: int| 0 <= i < ext.len() && 'a' <= #[trigger] ext[i] <= 'z' ==> lowered(ext)[i] == ext[i],
        forall|i: int| 0 <= i < ext.len() && 'A' <= #[trigger] ext[i] <= 'Z' ==> 'a' <= lowered(ext)[i] <= 'z',
{
    lemma_last_part(stem, ext, '.');
    reveal_strlit("mp3");
    reveal_strlit("wav");
    reveal_strlit("ogg");
    reveal_strlit("m4a");
    reveal_strlit("aac");
    reveal_strlit("flac");
    assert("mp3"@[0] == 'm' && "wav"@[0] == 'w' && "ogg"@[0] == 'o' && "m4a"@[0] == 'm' && "aac"@[0] == 'a' && "flac"@[0] == 'f');
    assert("mp3"@[1] == 'p' && "m4a"@[1] == '4');
}

} // verus!
