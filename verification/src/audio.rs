//! Uploading a song as a project of its own, and playing it in step with the
//! timeline.
use crate::chunking::{assemble, audio_of, buffers, count_chunks, pieces, split_chunks, splits};
use crate::rows::{copy_vec, Identity, Project, ProjectView, Song, SongChunk, SongChunkView, SongView};
use crate::store::{chunks_for, row_views, rows_of, song_ok, CHUNK_SIZE};
use crate::text::{chars_of, lower, lowered, parts, same_str, split, text_of, views};
use vstd::prelude::*;

verus! {

broadcast use {vstd::seq::group_seq_axioms, vstd::string::group_string_axioms};

/// The most frames a timeline has.
pub const MAX_FRAMES: u32 = 100_000;

// ---- numbers given by their bits --------------------------------------------

/// The 32-bit floating-point number with these bits is at most zero.
pub open spec fn at_most_zero(bits: u32) -> bool {
    bits == 0 || 0x8000_0000 <= bits <= 0xff80_0000
}

/// The 32-bit floating-point number with these bits is above zero.
pub open spec fn above_zero(bits: u32) -> bool {
    0 < bits <= 0x7f80_0000
}

// ---- analysis ---------------------------------------------------------------

/// A picked file, analysed: its beats make the timeline, two frames to a beat.
#[derive(Debug)]
pub struct AudioAnalysis {
    pub bytes: Vec<u8>,
    pub mime: String,
    pub name: String,
    pub duration_ms: u32,
    /// The frames on a beat: 0, 2, 4 and so on.
    pub beats_frames: Vec<u32>,
    /// Tempo, as bits.
    pub bpm_bits: u32,
    /// Half-beat frame rate, as bits.
    pub fps_bits: u32,
    pub num_frames: u32,
    pub first_beat_ms: u32,
}

/// What an [`AudioAnalysis`] holds.
pub struct AnalysisView {
    pub bytes: Seq<u8>,
    pub mime: Seq<char>,
    pub name: Seq<char>,
    pub duration_ms: u32,
    pub beats_frames: Seq<u32>,
    pub bpm_bits: u32,
    pub fps_bits: u32,
    pub num_frames: u32,
    pub first_beat_ms: u32,
}

impl View for AudioAnalysis {
    type V = AnalysisView;

    open spec fn view(&self) -> AnalysisView {
        AnalysisView {
            bytes: self.bytes@,
            mime: self.mime@,
            name: self.name@,
            duration_ms: self.duration_ms,
            beats_frames: self.beats_frames@,
            bpm_bits: self.bpm_bits,
            fps_bits: self.fps_bits,
            num_frames: self.num_frames,
            first_beat_ms: self.first_beat_ms,
        }
    }
}

/// The length of a timeline of so many beats.
pub open spec fn timeline_frames(num_beats: u32) -> u32 {
    if num_beats == 0 {
        1
    } else if 2 * num_beats > MAX_FRAMES {
        MAX_FRAMES
    } else {
        (2 * num_beats) as u32
    }
}

/// The frames on a beat in a timeline of so many beats.
pub open spec fn beat_frames(num_beats: u32) -> Seq<u32> {
    Seq::new((timeline_frames(num_beats) / 2) as nat, |k: int| (2 * k) as u32)
}

/// Turns detected beats into the definition of a timeline. The times are the
/// caller's: when the first beat falls, and the two rates as bits.
pub fn build_analysis(duration_ms: u32, num_beats: u32, first_beat_ms: u32, bpm_bits: u32, fps_bits: u32) -> (r: AudioAnalysis)
    requires
        num_beats <= 0x7fff_ffff,
    ensures
        r@ == (AnalysisView {
            bytes: Seq::empty(),
            mime: ""@,
            name: ""@,
            duration_ms,
            beats_frames: beat_frames(num_beats),
            bpm_bits,
            fps_bits,
            num_frames: timeline_frames(num_beats),
            first_beat_ms,
        }),
{
    let twice: u32 = 2 * num_beats;
    let num_frames: u32 = if twice < 1 {
        1
    } else if twice > MAX_FRAMES {
        MAX_FRAMES
    } else {
        twice
    };
    let half: u32 = num_frames / 2;
    let n: u32 = if half < num_beats {
        half
    } else {
        num_beats
    };
    assert(n == half);
    let mut beats_frames: Vec<u32> = Vec::new();
    let mut k: u32 = 0;
    while k < n
        invariant
            k <= n == num_frames / 2,
            num_frames <= MAX_FRAMES,
            beats_frames@ == Seq::new(k as nat, |k: int| (2 * k) as u32),
        decreases n - k,
    {
        beats_frames.push(2 * k);
        k = k + 1;
        assert(beats_frames@ =~= Seq::new(k as nat, |k: int| (2 * k) as u32));
    }
    AudioAnalysis {
        bytes: Vec::new(),
        mime: "".to_owned(),
        name: "".to_owned(),
        duration_ms,
        beats_frames,
        bpm_bits,
        fps_bits,
        num_frames,
        first_beat_ms,
    }
}

/// The analysis of a decoded song; without beats or tempo there is none.
pub fn analyze(duration_ms: u32, num_beats: u32, first_beat_ms: u32, bpm_bits: u32, fps_bits: u32) -> (r: Result<
    AudioAnalysis,
    String,
>)
    requires
        num_beats <= 0x7fff_ffff,
    ensures
        r is Err <==> num_beats == 0 || at_most_zero(bpm_bits),
        r matches Err(e) ==> e@ == "No beats detected in this audio"@,
        r matches Ok(a) ==> a@ == (AnalysisView {
            bytes: Seq::empty(),
            mime: ""@,
            name: ""@,
            duration_ms,
            beats_frames: beat_frames(num_beats),
            bpm_bits,
            fps_bits,
            num_frames: timeline_frames(num_beats),
            first_beat_ms,
        }),
{
    if num_beats == 0 || bpm_bits == 0 || (bpm_bits >= 0x8000_0000 && bpm_bits <= 0xff80_0000) {
        return Err("No beats detected in this audio".to_owned());
    }
    Ok(build_analysis(duration_ms, num_beats, first_beat_ms, bpm_bits, fps_bits))
}

/// The MIME type of a file by its name's ending.
pub open spec fn mime_of(name: Seq<char>) -> Seq<char> {
    let ext = lowered(parts(name, '.').last());
    if ext == "mp3"@ {
        "audio/mpeg"@
    } else if ext == "wav"@ {
        "audio/wav"@
    } else if ext == "ogg"@ {
        "audio/ogg"@
    } else if ext == "m4a"@ || ext == "aac"@ {
        "audio/aac"@
    } else if ext == "flac"@ {
        "audio/flac"@
    } else {
        "application/octet-stream"@
    }
}

/// The MIME type of a file by its name's ending.
pub fn guess_mime(name: &str) -> (r: String)
    ensures
        r@ == mime_of(name@),
{
    let all: Vec<Vec<char>> = split(&chars_of(name), '.');
    let last: usize = all.len() - 1;
    assert(views(all@)[last as int] == all@[last as int]@);
    let ext: String = text_of(&lower(&all[last]));
    let e: &str = ext.as_str();
    if same_str(e, "mp3") {
        "audio/mpeg".to_owned()
    } else if same_str(e, "wav") {
        "audio/wav".to_owned()
    } else if same_str(e, "ogg") {
        "audio/ogg".to_owned()
    } else if same_str(e, "m4a") || same_str(e, "aac") {
        "audio/aac".to_owned()
    } else if same_str(e, "flac") {
        "audio/flac".to_owned()
    } else {
        "application/octet-stream".to_owned()
    }
}

// ---- finding rows -----------------------------------------------------------

/// The first song that satisfies `p`.
pub open spec fn first_song(songs: Seq<SongView>, p: spec_fn(SongView) -> bool) -> Option<int>
    decreases songs.len(),
{
    if songs.len() == 0 {
        None
    } else {
        match first_song(songs.drop_last(), p) {
            Some(i) => Some(i),
            None => if p(songs.last()) {
                Some(songs.len() - 1)
            } else {
                None
            },
        }
    }
}

/// Once found, the first song stays the first.
proof fn lemma_first_song(songs: Seq<SongView>, p: spec_fn(SongView) -> bool, i: int)
    requires
        0 <= i < songs.len(),
        first_song(songs.take(i), p) is None,
        p(songs[i]),
    ensures
        first_song(songs, p) == Some(i),
    decreases songs.len(),
{
    if i == songs.len() - 1 {
        assert(songs.drop_last() =~= songs.take(i));
    } else {
        assert(songs.drop_last().take(i) =~= songs.take(i));
        lemma_first_song(songs.drop_last(), p, i);
    }
}

proof fn lemma_not_first(songs: Seq<SongView>, p: spec_fn(SongView) -> bool, i: int)
    requires
        0 <= i < songs.len(),
        first_song(songs.take(i), p) is None,
        !p(songs[i]),
    ensures
        first_song(songs.take(i + 1), p) is None,
{
    assert(songs.take(i + 1).drop_last() =~= songs.take(i));
}

/// The song of a project.
pub open spec fn is_song_of(project: u64) -> spec_fn(SongView) -> bool {
    |s: SongView| s.project_id == project
}

/// The complete song of a project.
pub open spec fn is_complete_song_of(project: u64) -> spec_fn(SongView) -> bool {
    |s: SongView| s.project_id == project && s.complete
}

/// The song of a project that awaits a file of this length.
pub open spec fn is_awaiting(project: u64, byte_len: int) -> spec_fn(SongView) -> bool {
    |s: SongView| s.project_id == project && s.byte_len == byte_len && !s.complete
}

/// The song with this id.
pub open spec fn is_song(id: u64) -> spec_fn(SongView) -> bool {
    |s: SongView| s.id == id
}

/// The song of a project.
pub fn song_of(songs: &Vec<Song>, project: u64) -> (r: Option<usize>)
    ensures
        match r {
            Some(i) => i < songs@.len() && first_song(row_views(songs@), is_song_of(project)) == Some(i as int),
            None => first_song(row_views(songs@), is_song_of(project)) is None,
        },
{
    let ghost all = row_views(songs@);
    let ghost p = is_song_of(project);
    let mut i: usize = 0;
    assert(first_song(all.take(0), p) is None);
    while i < songs.len()
        invariant
            i <= songs@.len(),
            all == row_views(songs@),
            p == is_song_of(project),
            first_song(all.take(i as int), p) is None,
        decreases songs@.len() - i,
    {
        if songs[i].project_id == project {
            proof {
                lemma_first_song(all, p, i as int);
            }
            return Some(i);
        }
        proof {
            lemma_not_first(all, p, i as int);
        }
        i = i + 1;
    }
    assert(all.take(all.len() as int) =~= all);
    None
}

/// The complete song of a project.
pub fn complete_song_of(songs: &Vec<Song>, project: u64) -> (r: Option<usize>)
    ensures
        match r {
            Some(i) => i < songs@.len() && first_song(row_views(songs@), is_complete_song_of(project)) == Some(i as int),
            None => first_song(row_views(songs@), is_complete_song_of(project)) is None,
        },
{
    let ghost all = row_views(songs@);
    let ghost p = is_complete_song_of(project);
    let mut i: usize = 0;
    assert(first_song(all.take(0), p) is None);
    while i < songs.len()
        invariant
            i <= songs@.len(),
            all == row_views(songs@),
            p == is_complete_song_of(project),
            first_song(all.take(i as int), p) is None,
        decreases songs@.len() - i,
    {
        if songs[i].project_id == project && songs[i].complete {
            proof {
                lemma_first_song(all, p, i as int);
            }
            return Some(i);
        }
        proof {
            lemma_not_first(all, p, i as int);
        }
        i = i + 1;
    }
    assert(all.take(all.len() as int) =~= all);
    None
}

fn awaiting_song(songs: &Vec<Song>, project: u64, byte_len: u64) -> (r: Option<usize>)
    ensures
        match r {
            Some(i) => i < songs@.len() && first_song(row_views(songs@), is_awaiting(project, byte_len as int)) == Some(i as int),
            None => first_song(row_views(songs@), is_awaiting(project, byte_len as int)) is None,
        },
{
    let ghost all = row_views(songs@);
    let ghost p = is_awaiting(project, byte_len as int);
    let mut i: usize = 0;
    assert(first_song(all.take(0), p) is None);
    while i < songs.len()
        invariant
            i <= songs@.len(),
            all == row_views(songs@),
            p == is_awaiting(project, byte_len as int),
            first_song(all.take(i as int), p) is None,
        decreases songs@.len() - i,
    {
        if songs[i].project_id == project && songs[i].byte_len == byte_len && !songs[i].complete {
            proof {
                lemma_first_song(all, p, i as int);
            }
            return Some(i);
        }
        proof {
            lemma_not_first(all, p, i as int);
        }
        i = i + 1;
    }
    assert(all.take(all.len() as int) =~= all);
    None
}

fn song_by_id(songs: &Vec<Song>, id: u64) -> (r: Option<usize>)
    ensures
        match r {
            Some(i) => i < songs@.len() && first_song(row_views(songs@), is_song(id)) == Some(i as int),
            None => first_song(row_views(songs@), is_song(id)) is None,
        },
{
    let ghost all = row_views(songs@);
    let ghost p = is_song(id);
    let mut i: usize = 0;
    assert(first_song(all.take(0), p) is None);
    while i < songs.len()
        invariant
            i <= songs@.len(),
            all == row_views(songs@),
            p == is_song(id),
            first_song(all.take(i as int), p) is None,
        decreases songs@.len() - i,
    {
        if songs[i].id == id {
            proof {
                lemma_first_song(all, p, i as int);
            }
            return Some(i);
        }
        proof {
            lemma_not_first(all, p, i as int);
        }
        i = i + 1;
    }
    assert(all.take(all.len() as int) =~= all);
    None
}

/// The newest project of this owner, name and length that has no edits yet.
pub open spec fn newest_project(ps: Seq<ProjectView>, me: Option<Identity>, name: Seq<char>, frames: u32) -> Option<u64>
    decreases ps.len(),
{
    if ps.len() == 0 {
        None
    } else {
        let best = newest_project(ps.drop_last(), me, name, frames);
        let p = ps.last();
        if Some(p.owner) == me && p.name == name && p.num_frames == frames && p.head_seq == 0 && (best is None || best->0
            <= p.id) {
            Some(p.id)
        } else {
            best
        }
    }
}

fn find_newest(ps: &Vec<Project>, me: Option<Identity>, name: &str, frames: u32) -> (r: Option<u64>)
    ensures
        r == newest_project(row_views(ps@), me, name@, frames),
{
    let ghost all = row_views(ps@);
    let mut best: Option<u64> = None;
    let mut i: usize = 0;
    while i < ps.len()
        invariant
            i <= ps@.len(),
            all == row_views(ps@),
            best == newest_project(all.take(i as int), me, name@, frames),
        decreases ps@.len() - i,
    {
        let p: &Project = &ps[i];
        assert(all.take(i + 1).drop_last() =~= all.take(i as int));
        assert(all[i as int] == p@);
        let mine: bool = match me {
            Some(m) => p.owner == m,
            None => false,
        };
        let newer: bool = match best {
            Some(b) => b <= p.id,
            None => true,
        };
        if mine && same_str(p.name.as_str(), name) && p.num_frames == frames && p.head_seq == 0 && newer {
            best = Some(p.id);
        }
        i = i + 1;
    }
    assert(all.take(all.len() as int) =~= all);
    best
}

// ---- the upload -------------------------------------------------------------

/// How far an upload is.
#[derive(Debug)]
pub enum UploadPhase {
    Idle,
    Picking,
    Analyzing,
    CreatingProject,
    Beginning,
    Sending { song_id: u64, total: u32 },
    Done,
    Error(String),
}

/// What an [`UploadPhase`] holds.
pub enum PhaseView {
    Idle,
    Picking,
    Analyzing,
    CreatingProject,
    Beginning,
    Sending { song_id: u64, total: u32 },
    Done,
    Error(Seq<char>),
}

impl View for UploadPhase {
    type V = PhaseView;

    open spec fn view(&self) -> PhaseView {
        match self {
            UploadPhase::Idle => PhaseView::Idle,
            UploadPhase::Picking => PhaseView::Picking,
            UploadPhase::Analyzing => PhaseView::Analyzing,
            UploadPhase::CreatingProject => PhaseView::CreatingProject,
            UploadPhase::Beginning => PhaseView::Beginning,
            UploadPhase::Sending { song_id, total } => PhaseView::Sending { song_id: *song_id, total: *total },
            UploadPhase::Done => PhaseView::Done,
            UploadPhase::Error(e) => PhaseView::Error(e@),
        }
    }
}

/// An upload in progress, from picking a file to the last chunk.
#[derive(Debug)]
pub struct UploadState {
    pub phase: UploadPhase,
    /// A finished analysis that waits to be taken up.
    pub incoming: Option<AudioAnalysis>,
    /// The analysis that is being uploaded.
    pub pending: Option<AudioAnalysis>,
    /// The project made for the song; zero until it is known.
    pub project_id: u64,
    /// The name of the project to make.
    pub pending_name: String,
    /// The number of lights of the project to make.
    pub pending_lights: u32,
}

/// What an [`UploadState`] holds.
pub struct UploadView {
    pub phase: PhaseView,
    pub incoming: Option<AnalysisView>,
    pub pending: Option<AnalysisView>,
    pub project_id: u64,
    pub pending_name: Seq<char>,
    pub pending_lights: u32,
}

/// What an optional analysis holds.
pub open spec fn analysis_view(a: Option<AudioAnalysis>) -> Option<AnalysisView> {
    match a {
        Some(a) => Some(a@),
        None => None,
    }
}

impl View for UploadState {
    type V = UploadView;

    open spec fn view(&self) -> UploadView {
        UploadView {
            phase: self.phase@,
            incoming: analysis_view(self.incoming),
            pending: analysis_view(self.pending),
            project_id: self.project_id,
            pending_name: self.pending_name@,
            pending_lights: self.pending_lights,
        }
    }
}

impl Default for UploadState {
    fn default() -> (r: Self)
        ensures
            r@ == (UploadView {
                phase: PhaseView::Idle,
                incoming: None,
                pending: None,
                project_id: 0,
                pending_name: ""@,
                pending_lights: 8,
            }),
    {
        UploadState {
            phase: UploadPhase::Idle,
            incoming: None,
            pending: None,
            project_id: 0,
            pending_name: "".to_owned(),
            pending_lights: 8,
        }
    }
}

/// What an upload asks for next.
#[derive(Debug)]
pub enum UploadStep {
    /// Nothing yet.
    Wait,
    /// Make the project, then report with [`UploadState::answered`].
    CreateProject { name: String, num_lights: u32, num_frames: u32 },
    /// Open the project and begin the upload of its song, then report with
    /// [`UploadState::answered`].
    BeginUpload {
        project_id: u64,
        name: String,
        mime: String,
        byte_len: u64,
        num_chunks: u32,
        duration_ms: u32,
        fps_bits: u32,
        beats_frames: Vec<u32>,
        bpm_bits: u32,
        first_beat_ms: u32,
    },
    /// Send the chunks, numbered from zero.
    SendChunks { song_id: u64, chunks: Vec<Vec<u8>> },
}

/// What an [`UploadStep`] holds.
pub enum StepView {
    Wait,
    CreateProject { name: Seq<char>, num_lights: u32, num_frames: u32 },
    BeginUpload { project_id: u64, song: AnalysisView, byte_len: u64, num_chunks: u32 },
    SendChunks { song_id: u64, chunks: Seq<Seq<u8>> },
}

/// The step holds what the upload asks for.
pub open spec fn is_step(step: UploadStep, v: StepView) -> bool {
    match step {
        UploadStep::Wait => v is Wait,
        UploadStep::CreateProject { name, num_lights, num_frames } => v == (StepView::CreateProject {
            name: name@,
            num_lights,
            num_frames,
        }),
        UploadStep::BeginUpload {
            project_id,
            name,
            mime,
            byte_len,
            num_chunks,
            duration_ms,
            fps_bits,
            beats_frames,
            bpm_bits,
            first_beat_ms,
        } => match v {
            StepView::BeginUpload { project_id: p, song, byte_len: b, num_chunks: n } => {
                &&& p == project_id
                &&& b == byte_len
                &&& n == num_chunks
                &&& song.name == name@
                &&& song.mime == mime@
                &&& song.duration_ms == duration_ms
                &&& song.fps_bits == fps_bits
                &&& song.beats_frames == beats_frames@
                &&& song.bpm_bits == bpm_bits
                &&& song.first_beat_ms == first_beat_ms
            },
            _ => false,
        },
        UploadStep::SendChunks { song_id, chunks } => v == (StepView::SendChunks { song_id, chunks: buffers(chunks@) }),
    }
}

/// The number of chunks a file of this length is announced with.
pub open spec fn announced_chunks(byte_len: int) -> u32 {
    (if chunks_for(byte_len) < 1 {
        1
    } else {
        chunks_for(byte_len)
    }) as u32
}

/// The upload's next step, and its state when that was decided.
pub open spec fn next_step(up: UploadView, me: Option<Identity>, ps: Seq<ProjectView>, songs: Seq<SongView>) -> (
    UploadView,
    StepView,
) {
    match up.phase {
        PhaseView::Analyzing => match up.incoming {
            None => (up, StepView::Wait),
            Some(a) => (
                up,
                StepView::CreateProject {
                    name: up.pending_name,
                    num_lights: up.pending_lights,
                    num_frames: a.num_frames,
                },
            ),
        },
        PhaseView::CreatingProject => match up.pending {
            None => (UploadView { phase: PhaseView::Idle, ..up }, StepView::Wait),
            Some(a) => match newest_project(ps, me, up.pending_name, a.num_frames) {
                None => (up, StepView::Wait),
                Some(id) => (
                    UploadView { project_id: id, ..up },
                    StepView::BeginUpload {
                        project_id: id,
                        song: a,
                        byte_len: a.bytes.len() as u64,
                        num_chunks: announced_chunks(a.bytes.len() as int),
                    },
                ),
            },
        },
        PhaseView::Beginning => match up.pending {
            None => (UploadView { phase: PhaseView::Idle, ..up }, StepView::Wait),
            Some(a) => match first_song(songs, is_awaiting(up.project_id, a.bytes.len() as int)) {
                None => (up, StepView::Wait),
                Some(i) => (
                    UploadView {
                        phase: PhaseView::Sending { song_id: songs[i].id, total: songs[i].num_chunks },
                        ..up
                    },
                    StepView::SendChunks {
                        song_id: songs[i].id,
                        chunks: pieces(a.bytes, songs[i].num_chunks as nat),
                    },
                ),
            },
        },
        PhaseView::Sending { song_id, .. } => match first_song(songs, is_song(song_id)) {
            None => (
                UploadView { phase: PhaseView::Error("song removed during upload"@), pending: None, ..up },
                StepView::Wait,
            ),
            Some(i) => if songs[i].complete {
                (UploadView { phase: PhaseView::Done, pending: None, ..up }, StepView::Wait)
            } else {
                (up, StepView::Wait)
            },
        },
        _ => (up, StepView::Wait),
    }
}

/// The song that is about to be sent does not ask for chunks past the file's end.
pub open spec fn sendable(up: UploadView, songs: Seq<SongView>) -> bool {
    up.phase is Beginning && up.pending is Some ==> match first_song(
        songs,
        is_awaiting(up.project_id, up.pending->0.bytes.len() as int),
    ) {
        None => true,
        Some(i) => splits(up.pending->0.bytes, songs[i].num_chunks as int),
    }
}

fn chunk_count(len: usize) -> (r: u32)
    ensures
        r == announced_chunks(len as int),
{
    let size: usize = CHUNK_SIZE as usize;
    let whole: usize = len / size;
    if len % size == 0 {
        assert(chunks_for(len as int) == whole);
        if whole < 1 {
            1
        } else {
            whole as u32
        }
    } else {
        assert(chunks_for(len as int) == whole + 1);
        (whole + 1) as u32
    }
}

/// What is said of an upload under way.
pub fn phase_label(phase: &UploadPhase) -> (r: Option<&'static str>)
    ensures
        match phase@ {
            PhaseView::Picking => r is Some && r->0@ == "Choosing file…"@,
            PhaseView::Analyzing => r is Some && r->0@ == "Decoding & detecting beats…"@,
            PhaseView::CreatingProject => r is Some && r->0@ == "Creating project…"@,
            PhaseView::Beginning => r is Some && r->0@ == "Creating project…"@,
            PhaseView::Sending { .. } => r is Some && r->0@ == "Uploading song…"@,
            _ => r is None,
        },
{
    match phase {
        UploadPhase::Picking => Some("Choosing file…"),
        UploadPhase::Analyzing => Some("Decoding & detecting beats…"),
        UploadPhase::CreatingProject => Some("Creating project…"),
        UploadPhase::Beginning => Some("Creating project…"),
        UploadPhase::Sending { .. } => Some("Uploading song…"),
        _ => None,
    }
}

impl UploadState {
    /// How far the upload is.
    pub fn phase(&self) -> (r: &UploadPhase)
        ensures
            *r == self.phase,
    {
        &self.phase
    }

    /// Whether an upload is under way.
    pub fn is_busy(&self) -> (r: bool)
        ensures
            r == !(self@.phase is Idle || self@.phase is Done || self@.phase is Error),
    {
        match self.phase {
            UploadPhase::Idle => false,
            UploadPhase::Done => false,
            UploadPhase::Error(_) => false,
            _ => true,
        }
    }

    /// Starts an upload for a new project of this name and number of lights,
    /// unless one is under way. Answers whether the file is to be picked now.
    pub fn trigger_upload(&mut self, name: String, num_lights: u32) -> (r: bool)
        ensures
            r == (old(self)@.phase is Idle || old(self)@.phase is Done || old(self)@.phase is Error),
            final(self)@ == (if r {
                UploadView {
                    phase: PhaseView::Picking,
                    pending_name: name@,
                    pending_lights: num_lights,
                    project_id: 0,
                    ..old(self)@
                }
            } else {
                old(self)@
            }),
    {
        if self.is_busy() {
            return false;
        }
        self.pending_name = name;
        self.pending_lights = num_lights;
        self.project_id = 0;
        self.phase = UploadPhase::Picking;
        true
    }

    /// Takes note of whether a file was picked.
    pub fn picked(&mut self, chosen: bool)
        ensures
            final(self)@ == (UploadView {
                phase: if chosen {
                    PhaseView::Analyzing
                } else {
                    PhaseView::Idle
                },
                ..old(self)@
            }),
    {
        self.phase = if chosen {
            UploadPhase::Analyzing
        } else {
            UploadPhase::Idle
        };
    }

    /// Takes the analysis of the picked file, or the reason that there is none.
    pub fn analyzed(&mut self, result: Result<AudioAnalysis, String>, bytes: Vec<u8>, name: String)
        ensures
            final(self)@ == (match result {
                Ok(a) => UploadView {
                    incoming: Some(AnalysisView { bytes: bytes@, mime: mime_of(name@), name: name@, ..a@ }),
                    ..old(self)@
                },
                Err(e) => UploadView { phase: PhaseView::Error(e@), ..old(self)@ },
            }),
    {
        match result {
            Ok(a) => {
                let mime: String = guess_mime(name.as_str());
                self.incoming = Some(
                    AudioAnalysis {
                        bytes,
                        mime,
                        name,
                        duration_ms: a.duration_ms,
                        beats_frames: a.beats_frames,
                        bpm_bits: a.bpm_bits,
                        fps_bits: a.fps_bits,
                        num_frames: a.num_frames,
                        first_beat_ms: a.first_beat_ms,
                    },
                );
            },
            Err(e) => {
                self.phase = UploadPhase::Error(e);
            },
        }
    }

    /// Whether the next step can be taken: see [`sendable`].
    pub fn can_drive(&self, songs: &Vec<Song>) -> (r: bool)
        ensures
            r == sendable(self@, row_views(songs@)),
    {
        match (&self.phase, &self.pending) {
            (UploadPhase::Beginning, Some(a)) => {
                let len: usize = a.bytes.len();
                match awaiting_song(songs, self.project_id, len as u64) {
                    None => true,
                    Some(i) => {
                        let n: u32 = songs[i].num_chunks;
                        assert(row_views(songs@)[i as int] == songs@[i as int]@);
                        n == 0 || (n - 1) as u64 * CHUNK_SIZE as u64 <= len as u64
                    },
                }
            },
            _ => true,
        }
    }

    /// Decides the upload's next step from the rows that have arrived.
    pub fn drive_upload(&mut self, me: Option<Identity>, projects: &Vec<Project>, songs: &Vec<Song>) -> (r: UploadStep)
        requires
            sendable(old(self)@, row_views(songs@)),
        ensures
            final(self)@ == next_step(old(self)@, me, row_views(projects@), row_views(songs@)).0,
            is_step(r, next_step(old(self)@, me, row_views(projects@), row_views(songs@)).1),
    {
        match &self.phase {
            UploadPhase::Analyzing => match &self.incoming {
                None => UploadStep::Wait,
                Some(a) => UploadStep::CreateProject {
                    name: self.pending_name.clone(),
                    num_lights: self.pending_lights,
                    num_frames: a.num_frames,
                },
            },
            UploadPhase::CreatingProject => match &self.pending {
                None => {
                    self.phase = UploadPhase::Idle;
                    UploadStep::Wait
                },
                Some(a) => {
                    let found: Option<u64> = find_newest(projects, me, self.pending_name.as_str(), a.num_frames);
                    match found {
                        None => UploadStep::Wait,
                        Some(id) => {
                            let step: UploadStep = UploadStep::BeginUpload {
                                project_id: id,
                                name: a.name.clone(),
                                mime: a.mime.clone(),
                                byte_len: a.bytes.len() as u64,
                                num_chunks: chunk_count(a.bytes.len()),
                                duration_ms: a.duration_ms,
                                fps_bits: a.fps_bits,
                                beats_frames: copy_vec(&a.beats_frames),
                                bpm_bits: a.bpm_bits,
                                first_beat_ms: a.first_beat_ms,
                            };
                            self.project_id = id;
                            step
                        },
                    }
                },
            },
            UploadPhase::Beginning => match &self.pending {
                None => {
                    self.phase = UploadPhase::Idle;
                    UploadStep::Wait
                },
                Some(a) => {
                    let found: Option<usize> = awaiting_song(songs, self.project_id, a.bytes.len() as u64);
                    match found {
                        None => UploadStep::Wait,
                        Some(i) => {
                            assert(row_views(songs@)[i as int] == songs@[i as int]@);
                            let song_id: u64 = songs[i].id;
                            let total: u32 = songs[i].num_chunks;
                            let chunks: Vec<Vec<u8>> = split_chunks(&a.bytes, total);
                            self.phase = UploadPhase::Sending { song_id, total };
                            UploadStep::SendChunks { song_id, chunks }
                        },
                    }
                },
            },
            UploadPhase::Sending { song_id, total: _ } => {
                let found: Option<usize> = song_by_id(songs, *song_id);
                match found {
                    None => {
                        self.pending = None;
                        self.phase = UploadPhase::Error("song removed during upload".to_owned());
                    },
                    Some(i) => {
                        assert(row_views(songs@)[i as int] == songs@[i as int]@);
                        if songs[i].complete {
                            self.pending = None;
                            self.phase = UploadPhase::Done;
                        }
                    },
                }
                UploadStep::Wait
            },
            _ => UploadStep::Wait,
        }
    }

    /// Takes note of how a call went that [`UploadState::drive_upload`] asked for.
    pub fn answered(&mut self, result: Result<(), String>)
        ensures
            final(self)@ == (match (old(self)@.phase, result) {
                (PhaseView::Analyzing, Ok(_)) => UploadView {
                    phase: PhaseView::CreatingProject,
                    project_id: 0,
                    pending: old(self)@.incoming,
                    incoming: None,
                    ..old(self)@
                },
                (PhaseView::Analyzing, Err(e)) => UploadView {
                    phase: PhaseView::Error(e@),
                    incoming: None,
                    ..old(self)@
                },
                (PhaseView::CreatingProject, Ok(_)) => UploadView { phase: PhaseView::Beginning, ..old(self)@ },
                (PhaseView::CreatingProject, Err(e)) => UploadView { phase: PhaseView::Error(e@), ..old(self)@ },
                _ => old(self)@,
            }),
    {
        let analyzing: bool = match self.phase {
            UploadPhase::Analyzing => true,
            _ => false,
        };
        let creating: bool = match self.phase {
            UploadPhase::CreatingProject => true,
            _ => false,
        };
        if analyzing {
            let taken: Option<AudioAnalysis> = self.incoming.take();
            match result {
                Ok(_) => {
                    self.project_id = 0;
                    self.pending = taken;
                    self.phase = UploadPhase::CreatingProject;
                },
                Err(e) => {
                    self.phase = UploadPhase::Error(e);
                },
            }
        } else if creating {
            match result {
                Ok(_) => {
                    self.phase = UploadPhase::Beginning;
                },
                Err(e) => {
                    self.phase = UploadPhase::Error(e);
                },
            }
        }
    }
}

/// An upload to a backend whose songs fit their files can always be driven, and
/// the chunks it sends are all the chunks of the file.
pub proof fn law_upload_sends_all(up: UploadView, me: Option<Identity>, ps: Seq<ProjectView>, songs: Seq<SongView>, tables: Seq<ProjectView>)
    requires
        forall|i: int| 0 <= i < songs.len() ==> song_ok(#[trigger] songs[i], tables),
    ensures
        sendable(up, songs),
        next_step(up, me, ps, songs).1 matches StepView::SendChunks { song_id: _, chunks } ==> up.pending is Some && chunks == pieces(
            up.pending->0.bytes,
            chunks_for(up.pending->0.bytes.len() as int) as nat,
        ),
{
    if up.phase is Beginning && up.pending is Some {
        let len = up.pending->0.bytes.len() as int;
        let p = is_awaiting(up.project_id, len);
        lemma_first_is(songs, p);
        if first_song(songs, p) is Some {
            let song = songs[first_song(songs, p)->0];
            assert(song_ok(song, tables));
            assert((song.num_chunks - 1) * CHUNK_SIZE <= len);
        }
    }
}

/// The first song that satisfies `p` does so.
proof fn lemma_first_is(songs: Seq<SongView>, p: spec_fn(SongView) -> bool)
    ensures
        first_song(songs, p) matches Some(i) ==> 0 <= i < songs.len() && p(songs[i]),
    decreases songs.len(),
{
    if songs.len() > 0 {
        lemma_first_is(songs.drop_last(), p);
    }
}

// ---- playback ---------------------------------------------------------------

/// The frame rate that the open project's song sets, as bits: that of its first
/// song, if it is above zero.
pub open spec fn song_tempo(songs: Seq<SongView>, open: Option<u64>) -> Option<u32> {
    match open {
        None => None,
        Some(project) => match first_song(songs, is_song_of(project)) {
            Some(i) => if above_zero(songs[i].fps_bits) {
                Some(songs[i].fps_bits)
            } else {
                None
            },
            None => None,
        },
    }
}

/// The frame rate to play the open project at, where its song sets one.
pub fn sync_tempo(songs: &Vec<Song>, open: Option<u64>) -> (r: Option<u32>)
    ensures
        r == song_tempo(row_views(songs@), open),
{
    match open {
        None => None,
        Some(project) => match song_of(songs, project) {
            Some(i) => {
                assert(row_views(songs@)[i as int] == songs@[i as int]@);
                let bits: u32 = songs[i].fps_bits;
                if bits > 0 && bits <= 0x7f80_0000 {
                    Some(bits)
                } else {
                    None
                }
            },
            None => None,
        },
    }
}

/// The complete song of the open project.
pub open spec fn playable_song(songs: Seq<SongView>, open: Option<u64>) -> Option<int> {
    match open {
        None => None,
        Some(project) => first_song(songs, is_complete_song_of(project)),
    }
}

/// The complete song of the open project: its id and the time of its first beat.
pub fn song_to_play(songs: &Vec<Song>, open: Option<u64>) -> (r: Option<(u64, u32)>)
    ensures
        r == (match playable_song(row_views(songs@), open) {
            Some(i) => Some((row_views(songs@)[i].id, row_views(songs@)[i].first_beat_ms)),
            None => None,
        }),
{
    match open {
        None => None,
        Some(project) => match complete_song_of(songs, project) {
            Some(i) => {
                assert(row_views(songs@)[i as int] == songs@[i as int]@);
                Some((songs[i].id, songs[i].first_beat_ms))
            },
            None => None,
        },
    }
}

/// Whether the decoded audio at hand is that of the song to play.
pub fn has_playable_audio(has_buffer: bool, buffer_song: Option<u64>, song: Option<u64>) -> (r: bool)
    ensures
        r == (has_buffer && song is Some && buffer_song == song),
{
    match (buffer_song, song) {
        (Some(a), Some(b)) => has_buffer && a == b,
        _ => false,
    }
}

/// The audio that is to be decoded next: that of the open project's complete song,
/// once all its chunks are here, unless it was decoded or is being decoded.
pub open spec fn wanted_audio(
    songs: Seq<SongView>,
    chunks: Seq<SongChunkView>,
    open: Option<u64>,
    decoded: Option<u64>,
    decoding: Option<u64>,
) -> Option<(u64, Seq<u8>)> {
    match playable_song(songs, open) {
        None => None,
        Some(i) => {
            let song = songs[i];
            if decoded == Some(song.id) || decoding == Some(song.id) || rows_of::<SongChunk>(chunks, song.id).len() as u32
                != song.num_chunks {
                None
            } else {
                Some((song.id, audio_of(chunks, song.id)))
            }
        },
    }
}

/// The audio that is to be decoded next, with its song's id: see [`wanted_audio`].
pub fn ensure_audio_buffer(
    songs: &Vec<Song>,
    chunks: &Vec<SongChunk>,
    open: Option<u64>,
    decoded: Option<u64>,
    decoding: Option<u64>,
) -> (r: Option<(u64, Vec<u8>)>)
    ensures
        match r {
            Some(a) => wanted_audio(row_views(songs@), row_views(chunks@), open, decoded, decoding) == Some((a.0, a.1@)),
            None => wanted_audio(row_views(songs@), row_views(chunks@), open, decoded, decoding) is None,
        },
{
    let project: u64 = match open {
        None => {
            return None;
        },
        Some(p) => p,
    };
    let i: usize = match complete_song_of(songs, project) {
        None => {
            return None;
        },
        Some(i) => i,
    };
    assert(row_views(songs@)[i as int] == songs@[i as int]@);
    let id: u64 = songs[i].id;
    let have: bool = match decoded {
        Some(d) => d == id,
        None => false,
    };
    let coming: bool = match decoding {
        Some(d) => d == id,
        None => false,
    };
    if have || coming {
        return None;
    }
    let n: usize = count_chunks(chunks, id);
    if n as u32 != songs[i].num_chunks {
        return None;
    }
    Some((id, assemble(chunks, id)))
}

/// What to do with the sound.
#[derive(Clone, Copy, PartialEq, Eq, Structural, Debug)]
pub enum SourceStep {
    Keep,
    /// Start it at the current frame.
    Start,
    Stop,
}

/// Decides whether the sound starts or stops: it plays when its audio is at hand
/// and the timeline plays.
pub fn source_step(available: bool, want: bool, playing: bool) -> (r: SourceStep)
    ensures
        r is Start <==> available && want && !playing,
        r is Stop <==> playing && !(available && want),
{
    if !available {
        if playing {
            return SourceStep::Stop;
        }
        return SourceStep::Keep;
    }
    if want && !playing {
        SourceStep::Start
    } else if !want && playing {
        SourceStep::Stop
    } else {
        SourceStep::Keep
    }
}

/// Where the sound puts the playhead.
#[derive(Clone, Copy, PartialEq, Eq, Structural, Debug)]
pub enum AudioHead {
    /// On this frame.
    At(u32),
    /// Past the end of a looping show: to the start, and the sound with it.
    Restart,
    /// Past the end: on the last frame, and playback stops.
    Ended(u32),
}

/// Where the sound puts the playhead, from the whole frames since the show's start.
pub fn audio_head(frame: i64, num_frames: u32, looping: bool) -> (r: AudioHead)
    ensures
        r == (if frame < num_frames {
            AudioHead::At(
                if frame < 0 {
                    0
                } else {
                    frame as u32
                },
            )
        } else if looping {
            AudioHead::Restart
        } else {
            AudioHead::Ended(
                if num_frames == 0 {
                    0
                } else {
                    (num_frames - 1) as u32
                },
            )
        }),
        0 <= frame < num_frames ==> r == AudioHead::At(frame as u32),
        frame < 0 ==> r == AudioHead::At(0),
        frame >= num_frames && looping ==> r is Restart,
        frame >= num_frames && !looping ==> (r matches AudioHead::Ended(f) && (num_frames > 0 ==> f + 1 == num_frames)),
{
    if frame < num_frames as i64 {
        AudioHead::At(if frame < 0 { 0 } else { frame as u32 })
    } else if looping {
        AudioHead::Restart
    } else {
        AudioHead::Ended(if num_frames == 0 { 0 } else { num_frames - 1 })
    }
}

} // verus!
