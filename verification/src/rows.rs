//! The rows of the backend's tables and the inputs of its bulk operations.
use vstd::prelude::*;

verus! {

/// A user's 256-bit identity, most significant half first.
#[derive(Clone, Copy, PartialEq, Eq, Structural, Debug)]
pub struct Identity {
    pub hi: u128,
    pub lo: u128,
}

/// One light show. Owned by the identity that created it.
#[derive(Debug)]
pub struct Project {
    pub id: u64,
    pub owner: Identity,
    pub name: String,
    pub num_lights: u32,
    pub num_frames: u32,
    /// Microseconds since the Unix epoch.
    pub created_at: i64,
    /// Highest `seq` issued for this project, which is the number of its edits.
    pub head_seq: u64,
    /// A seeded sample show: visible to everyone, read-only unless copied.
    pub is_template: bool,
    /// A saved timeline snippet: listed apart from the shows.
    pub is_blueprint: bool,
}

/// What a [`Project`] holds.
pub struct ProjectView {
    pub id: u64,
    pub owner: Identity,
    pub name: Seq<char>,
    pub num_lights: u32,
    pub num_frames: u32,
    pub created_at: i64,
    pub head_seq: u64,
    pub is_template: bool,
    pub is_blueprint: bool,
}

impl View for Project {
    type V = ProjectView;

    open spec fn view(&self) -> ProjectView {
        ProjectView {
            id: self.id,
            owner: self.owner,
            name: self.name@,
            num_lights: self.num_lights,
            num_frames: self.num_frames,
            created_at: self.created_at,
            head_seq: self.head_seq,
            is_template: self.is_template,
            is_blueprint: self.is_blueprint,
        }
    }
}

/// An immutable, append-only edit. Together they are the history of a project.
#[derive(Clone, Copy, PartialEq, Eq, Structural, Debug)]
pub struct Edit {
    pub id: u64,
    pub project_id: u64,
    /// Position in the project's history, from one.
    pub seq: u64,
    pub author: Identity,
    pub created_at: i64,
    pub light: u32,
    pub frame: u32,
    /// 0 = off keyframe, 1 = on keyframe, 2 = clear (remove the keyframe).
    pub state: u8,
}

/// One vertex of a laser's path: galvo coordinates and a 3-bit colour.
#[derive(Clone, Copy, PartialEq, Eq, Structural, Debug)]
pub struct LaserPoint {
    pub x: i16,
    pub y: i16,
    pub r: u8,
    pub g: u8,
    pub b: u8,
}

/// A laser's state at a frame. `channel` 0..=4 is the laser.
#[derive(Debug)]
pub struct LaserKeyframe {
    pub id: u64,
    pub project_id: u64,
    pub frame: u32,
    pub channel: u8,
    /// False: the laser is blanked from this keyframe on.
    pub enable: bool,
    /// Index into the pattern library.
    pub pattern: u8,
    /// The 3-bit tint.
    pub cr: u8,
    pub cg: u8,
    pub cb: u8,
    pub points: Vec<LaserPoint>,
}

/// What a [`LaserKeyframe`] holds.
pub struct LaserKeyframeView {
    pub id: u64,
    pub project_id: u64,
    pub frame: u32,
    pub channel: u8,
    pub enable: bool,
    pub pattern: u8,
    pub cr: u8,
    pub cg: u8,
    pub cb: u8,
    pub points: Seq<LaserPoint>,
}

impl View for LaserKeyframe {
    type V = LaserKeyframeView;

    open spec fn view(&self) -> LaserKeyframeView {
        LaserKeyframeView {
            id: self.id,
            project_id: self.project_id,
            frame: self.frame,
            channel: self.channel,
            enable: self.enable,
            pattern: self.pattern,
            cr: self.cr,
            cg: self.cg,
            cb: self.cb,
            points: self.points@,
        }
    }
}

/// A gobo projector's state at a frame. Values are raw DMX bytes.
#[derive(Clone, Copy, PartialEq, Eq, Structural, Debug)]
pub struct ProjectorKeyframe {
    pub id: u64,
    pub project_id: u64,
    pub frame: u32,
    pub channel: u8,
    pub state: u8,
    pub gallery: u8,
    pub pattern: u8,
    pub colour: u8,
}

/// A moving head's state at a frame. `channel` 0..=3; values are raw DMX bytes.
#[derive(Clone, Copy, PartialEq, Eq, Structural, Debug)]
pub struct TurretKeyframe {
    pub id: u64,
    pub project_id: u64,
    pub frame: u32,
    pub channel: u8,
    pub state: u8,
    pub pan: u8,
    pub tilt: u8,
}

/// One song per project: metadata and beat grid. The two tempo numbers are kept
/// as the bit patterns of single-precision floats.
#[derive(Debug)]
pub struct Song {
    pub id: u64,
    pub project_id: u64,
    pub owner: Identity,
    /// Original file name.
    pub name: String,
    pub mime: String,
    /// Total length of the assembled audio.
    pub byte_len: u64,
    pub num_chunks: u32,
    /// Upload progress.
    pub chunks_received: u32,
    pub duration_ms: u32,
    /// Half-beat frame rate, as bits.
    pub fps_bits: u32,
    /// Beat positions as timeline frames.
    pub beats_frames: Vec<u32>,
    /// Tempo, as bits.
    pub bpm_bits: u32,
    pub first_beat_ms: u32,
    /// Every chunk is present and the total length matches `byte_len`.
    pub complete: bool,
    pub created_at: i64,
}

/// What a [`Song`] holds.
pub struct SongView {
    pub id: u64,
    pub project_id: u64,
    pub owner: Identity,
    pub name: Seq<char>,
    pub mime: Seq<char>,
    pub byte_len: u64,
    pub num_chunks: u32,
    pub chunks_received: u32,
    pub duration_ms: u32,
    pub fps_bits: u32,
    pub beats_frames: Seq<u32>,
    pub bpm_bits: u32,
    pub first_beat_ms: u32,
    pub complete: bool,
    pub created_at: i64,
}

impl View for Song {
    type V = SongView;

    open spec fn view(&self) -> SongView {
        SongView {
            id: self.id,
            project_id: self.project_id,
            owner: self.owner,
            name: self.name@,
            mime: self.mime@,
            byte_len: self.byte_len,
            num_chunks: self.num_chunks,
            chunks_received: self.chunks_received,
            duration_ms: self.duration_ms,
            fps_bits: self.fps_bits,
            beats_frames: self.beats_frames@,
            bpm_bits: self.bpm_bits,
            first_beat_ms: self.first_beat_ms,
            complete: self.complete,
            created_at: self.created_at,
        }
    }
}

/// Raw audio bytes, one row per ordered chunk.
#[derive(Debug)]
pub struct SongChunk {
    pub id: u64,
    pub song_id: u64,
    /// The song's project, repeated so that clients can ask for one project's chunks.
    pub project_id: u64,
    pub idx: u32,
    pub data: Vec<u8>,
}

/// What a [`SongChunk`] holds.
pub struct SongChunkView {
    pub id: u64,
    pub song_id: u64,
    pub project_id: u64,
    pub idx: u32,
    pub data: Seq<u8>,
}

impl View for SongChunk {
    type V = SongChunkView;

    open spec fn view(&self) -> SongChunkView {
        SongChunkView {
            id: self.id,
            song_id: self.song_id,
            project_id: self.project_id,
            idx: self.idx,
            data: self.data@,
        }
    }
}

/// One light keyframe of a bulk edit; `state` as in [`Edit`].
#[derive(Clone, Copy, PartialEq, Eq, Structural, Debug)]
pub struct LightEditInput {
    pub light: u32,
    pub frame: u32,
    pub state: u8,
}

/// One laser keyframe of a bulk insert.
#[derive(Debug)]
pub struct LaserKeyframeInput {
    pub frame: u32,
    pub channel: u8,
    pub enable: bool,
    pub pattern: u8,
    pub cr: u8,
    pub cg: u8,
    pub cb: u8,
    pub points: Vec<LaserPoint>,
}

/// What a [`LaserKeyframeInput`] holds.
pub struct LaserInputView {
    pub frame: u32,
    pub channel: u8,
    pub enable: bool,
    pub pattern: u8,
    pub cr: u8,
    pub cg: u8,
    pub cb: u8,
    pub points: Seq<LaserPoint>,
}

impl View for LaserKeyframeInput {
    type V = LaserInputView;

    open spec fn view(&self) -> LaserInputView {
        LaserInputView {
            frame: self.frame,
            channel: self.channel,
            enable: self.enable,
            pattern: self.pattern,
            cr: self.cr,
            cg: self.cg,
            cb: self.cb,
            points: self.points@,
        }
    }
}

/// One projector keyframe of a bulk insert.
#[derive(Clone, Copy, PartialEq, Eq, Structural, Debug)]
pub struct ProjectorKeyframeInput {
    pub frame: u32,
    pub channel: u8,
    pub state: u8,
    pub gallery: u8,
    pub pattern: u8,
    pub colour: u8,
}

/// One turret keyframe of a bulk insert.
#[derive(Clone, Copy, PartialEq, Eq, Structural, Debug)]
pub struct TurretKeyframeInput {
    pub frame: u32,
    pub channel: u8,
    pub state: u8,
    pub pan: u8,
    pub tilt: u8,
}

// ---- copies -----------------------------------------------------------------

/// A copy of a vector of plain values.
pub fn copy_vec<T: Copy>(v: &Vec<T>) -> (r: Vec<T>)
    ensures
        r@ == v@,
{
    let mut out: Vec<T> = Vec::new();
    let mut i: usize = 0;
    while i < v.len()
        invariant
            i <= v.len(),
            out@ == v@.take(i as int),
        decreases v.len() - i,
    {
        out.push(v[i]);
        i = i + 1;
        assert(v@.take(i as int) =~= v@.take(i - 1).push(v@[i - 1]));
    }
    assert(v@.take(v@.len() as int) =~= v@);
    out
}

impl Clone for Project {
    fn clone(&self) -> (r: Self)
        ensures
            r@ == self@,
    {
        Project {
            id: self.id,
            owner: self.owner,
            name: self.name.clone(),
            num_lights: self.num_lights,
            num_frames: self.num_frames,
            created_at: self.created_at,
            head_seq: self.head_seq,
            is_template: self.is_template,
            is_blueprint: self.is_blueprint,
        }
    }
}

impl Clone for LaserKeyframe {
    fn clone(&self) -> (r: Self)
        ensures
            r@ == self@,
    {
        LaserKeyframe {
            id: self.id,
            project_id: self.project_id,
            frame: self.frame,
            channel: self.channel,
            enable: self.enable,
            pattern: self.pattern,
            cr: self.cr,
            cg: self.cg,
            cb: self.cb,
            points: copy_vec(&self.points),
        }
    }
}

impl Clone for LaserKeyframeInput {
    fn clone(&self) -> (r: Self)
        ensures
            r@ == self@,
    {
        LaserKeyframeInput {
            frame: self.frame,
            channel: self.channel,
            enable: self.enable,
            pattern: self.pattern,
            cr: self.cr,
            cg: self.cg,
            cb: self.cb,
            points: copy_vec(&self.points),
        }
    }
}

impl Clone for Song {
    fn clone(&self) -> (r: Self)
        ensures
            r@ == self@,
    {
        Song {
            id: self.id,
            project_id: self.project_id,
            owner: self.owner,
            name: self.name.clone(),
            mime: self.mime.clone(),
            byte_len: self.byte_len,
            num_chunks: self.num_chunks,
            chunks_received: self.chunks_received,
            duration_ms: self.duration_ms,
            fps_bits: self.fps_bits,
            beats_frames: copy_vec(&self.beats_frames),
            bpm_bits: self.bpm_bits,
            first_beat_ms: self.first_beat_ms,
            complete: self.complete,
            created_at: self.created_at,
        }
    }
}

impl Clone for SongChunk {
    fn clone(&self) -> (r: Self)
        ensures
            r@ == self@,
    {
        SongChunk {
            id: self.id,
            song_id: self.song_id,
            project_id: self.project_id,
            idx: self.idx,
            data: copy_vec(&self.data),
        }
    }
}

} // verus!
