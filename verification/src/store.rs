//! The backend's tables as one value, what always holds of them, and the
//! operations on projects and their edit logs.
use crate::rows::{
    Edit, Identity, LaserKeyframe, LaserKeyframeView, Project, ProjectView, ProjectorKeyframe, Song, SongChunk, SongChunkView,
    SongView, TurretKeyframe,
};
use vstd::prelude::*;

verus! {

broadcast use {vstd::seq::group_seq_axioms, vstd::string::group_string_axioms};

// ---- rows of a table --------------------------------------------------------

/// Where copied rows go: the new project and song, and who copies them when.
#[derive(Clone, Copy, PartialEq, Eq, Structural, Debug)]
pub struct Target {
    pub project: u64,
    pub song: u64,
    pub author: Identity,
    pub at: i64,
}

/// A row that belongs to a parent row: a project, or for a chunk its song. A
/// project belongs to itself.
pub trait Row: Sized + View {
    /// The row's own id.
    spec fn row_id(v: Self::V) -> u64;

    /// The id of the row it belongs to.
    spec fn row_parent(v: Self::V) -> u64;

    fn parent(&self) -> (r: u64)
        ensures
            r == Self::row_parent(self@),
    ;
}

/// A row that is copied along with its project.
pub trait CopiedRow: Row {
    /// The copy of the row under `id` that belongs to `to`.
    spec fn row_copied(v: Self::V, id: u64, to: Target) -> Self::V;

    /// The id of the row that copies belong to.
    spec fn target_parent(to: Target) -> u64;

    proof fn copied_keys(v: Self::V, id: u64, to: Target)
        ensures
            Self::row_id(Self::row_copied(v, id, to)) == id,
            Self::row_parent(Self::row_copied(v, id, to)) == Self::target_parent(to),
    ;

    fn copied(&self, id: u64, to: Target) -> (r: Self)
        ensures
            r@ == Self::row_copied(self@, id, to),
    ;
}

/// What the rows of a table hold.
pub open spec fn row_views<T: View>(s: Seq<T>) -> Seq<T::V> {
    s.map_values(|t: T| t@)
}

pub proof fn lemma_views_push<T: View>(s: Seq<T>, t: T)
    ensures
        row_views(s.push(t)) == row_views(s).push(t@),
{
    assert(row_views(s.push(t)) =~= row_views(s).push(t@));
}

/// The rows that belong to `parent`, in table order.
pub open spec fn rows_of<T: Row>(s: Seq<T::V>, parent: u64) -> Seq<T::V> {
    s.filter(|v: T::V| T::row_parent(v) == parent)
}

/// The rows that do not belong to `parent`, in table order.
pub open spec fn rows_without<T: Row>(s: Seq<T::V>, parent: u64) -> Seq<T::V> {
    s.filter(|v: T::V| T::row_parent(v) != parent)
}

/// The copies of the rows of `from`, with ids counted up from `next`.
pub open spec fn rows_copied<T: CopiedRow>(s: Seq<T::V>, from: u64, next: u64, to: Target) -> Seq<T::V> {
    rows_of::<T>(s, from).map(|i: int, v: T::V| T::row_copied(v, (next + i) as u64, to))
}

/// Ids ascend in table order, start at one or above, and stay below `next`.
pub open spec fn ids_ok<T: Row>(s: Seq<T::V>, next: u64) -> bool {
    &&& next >= 1
    &&& forall|i: int| 0 <= i < s.len() ==> 1 <= T::row_id(#[trigger] s[i]) < next
    &&& forall|i: int, j: int| 0 <= i < j < s.len() ==> T::row_id(#[trigger] s[i]) < T::row_id(#[trigger] s[j])
}

pub proof fn lemma_ids_len<T: Row>(s: Seq<T::V>, next: u64)
    requires
        ids_ok::<T>(s, next),
    ensures
        s.len() < next,
    decreases s.len(),
{
    if s.len() > 0 {
        lemma_ids_len::<T>(s.drop_last(), T::row_id(s.last()));
    }
}

pub proof fn lemma_rows_of_push<T: Row>(s: Seq<T::V>, v: T::V, parent: u64)
    ensures
        rows_of::<T>(s.push(v), parent) == (if T::row_parent(v) == parent {
            rows_of::<T>(s, parent).push(v)
        } else {
            rows_of::<T>(s, parent)
        }),
        rows_without::<T>(s.push(v), parent) == (if T::row_parent(v) != parent {
            rows_without::<T>(s, parent).push(v)
        } else {
            rows_without::<T>(s, parent)
        }),
{
    reveal(Seq::filter);
    assert(s.push(v).drop_last() =~= s);
}

/// Each row of `parent` stands in the table, and in its order.
pub proof fn lemma_rows_of<T: Row>(s: Seq<T::V>, parent: u64)
    ensures
        rows_of::<T>(s, parent).len() <= s.len(),
        forall|i: int|
            0 <= i < rows_of::<T>(s, parent).len() ==> T::row_parent(#[trigger] rows_of::<T>(s, parent)[i]) == parent && s.contains(
                rows_of::<T>(s, parent)[i],
            ),
        forall|i: int|
            0 <= i < s.len() && T::row_parent(#[trigger] s[i]) == parent ==> rows_of::<T>(s, parent).contains(s[i]),
    decreases s.len(),
{
    reveal(Seq::filter);
    let r = rows_of::<T>(s, parent);
    if s.len() > 0 {
        let p = s.drop_last();
        lemma_rows_of::<T>(p, parent);
        lemma_rows_of_push::<T>(p, s.last(), parent);
        assert(p.push(s.last()) =~= s);
        let rp = rows_of::<T>(p, parent);
        assert forall|i: int| 0 <= i < r.len() implies T::row_parent(#[trigger] r[i]) == parent && s.contains(r[i]) by {
            if i < rp.len() {
                assert(r[i] == rp[i]);
                let k = choose|k: int| 0 <= k < p.len() && p[k] == rp[i];
                assert(s[k] == rp[i]);
            } else {
                assert(s[s.len() - 1] == r[i]);
            }
        }
        assert forall|i: int| 0 <= i < s.len() && T::row_parent(#[trigger] s[i]) == parent implies r.contains(s[i]) by {
            if i < p.len() {
                assert(p[i] == s[i]);
                assert(rp.contains(p[i]));
                let k = choose|k: int| 0 <= k < rp.len() && rp[k] == p[i];
                assert(r[k] == s[i]);
            } else {
                assert(r[r.len() - 1] == s[i]);
            }
        }
    }
}

/// Removing one parent's rows keeps the others' rows and the order of ids.
pub proof fn lemma_rows_without<T: Row>(s: Seq<T::V>, parent: u64, next: u64)
    ensures
        rows_without::<T>(s, parent).len() <= s.len(),
        forall|i: int|
            0 <= i < rows_without::<T>(s, parent).len() ==> T::row_parent(#[trigger] rows_without::<T>(s, parent)[i]) != parent && s.contains(
                rows_without::<T>(s, parent)[i],
            ),
        forall|q: u64| q != parent ==> #[trigger] rows_of::<T>(rows_without::<T>(s, parent), q) == rows_of::<T>(s, q),
        rows_of::<T>(rows_without::<T>(s, parent), parent) == Seq::<T::V>::empty(),
        forall|i: int|
            0 <= i < s.len() && T::row_parent(#[trigger] s[i]) != parent ==> rows_without::<T>(s, parent).contains(s[i]),
        ids_ok::<T>(s, next) ==> ids_ok::<T>(rows_without::<T>(s, parent), next),
    decreases s.len(),
{
    reveal(Seq::filter);
    let r = rows_without::<T>(s, parent);
    if s.len() > 0 {
        let p = s.drop_last();
        let rp = rows_without::<T>(p, parent);
        let v = s.last();
        assert(p.push(v) =~= s);
        lemma_rows_without::<T>(p, parent, next);
        lemma_rows_of_push::<T>(p, v, parent);
        assert forall|i: int| 0 <= i < r.len() implies T::row_parent(#[trigger] r[i]) != parent && s.contains(r[i]) by {
            if i < rp.len() {
                assert(r[i] == rp[i]);
                let k = choose|k: int| 0 <= k < p.len() && p[k] == rp[i];
                assert(s[k] == rp[i]);
            } else {
                assert(s[s.len() - 1] == r[i]);
            }
        }
        assert forall|q: u64| q != parent implies #[trigger] rows_of::<T>(r, q) == rows_of::<T>(s, q) by {
            lemma_rows_of_push::<T>(p, v, q);
            lemma_rows_of_push::<T>(rp, v, q);
        }
        lemma_rows_of_push::<T>(rp, v, parent);
        assert forall|i: int| 0 <= i < s.len() && T::row_parent(#[trigger] s[i]) != parent implies r.contains(s[i]) by {
            if i < p.len() {
                assert(p[i] == s[i]);
                assert(rp.contains(p[i]));
                let k = choose|k: int| 0 <= k < rp.len() && rp[k] == p[i];
                assert(r[k] == s[i]);
            } else {
                assert(r[r.len() - 1] == s[i]);
            }
        }
        if ids_ok::<T>(s, next) {
            assert(ids_ok::<T>(p, next)) by {
                assert forall|i: int| 0 <= i < p.len() implies 1 <= T::row_id(#[trigger] p[i]) < next by {
                    assert(p[i] == s[i]);
                }
                assert forall|i: int, j: int| 0 <= i < j < p.len() implies T::row_id(#[trigger] p[i]) < T::row_id(#[trigger] p[j]) by {
                    assert(p[i] == s[i] && p[j] == s[j]);
                }
            }
            assert forall|i: int, j: int| 0 <= i < j < r.len() implies T::row_id(#[trigger] r[i]) < T::row_id(#[trigger] r[j]) by {
                if j < rp.len() {
                    assert(r[i] == rp[i] && r[j] == rp[j]);
                } else {
                    assert(r[i] == rp[i]);
                    let k = choose|k: int| 0 <= k < p.len() && p[k] == rp[i];
                    assert(s[k] == rp[i]);
                    assert(T::row_id(s[k]) < T::row_id(s[s.len() - 1]));
                }
            }
        }
    }
}

/// Appended rows whose ids count up from `next` keep the order of ids.
pub proof fn lemma_append_ids<T: Row>(s: Seq<T::V>, more: Seq<T::V>, next: u64, end: u64)
    requires
        ids_ok::<T>(s, next),
        end == next + more.len(),
        forall|i: int| 0 <= i < more.len() ==> T::row_id(#[trigger] more[i]) == next + i,
    ensures
        ids_ok::<T>(s + more, end),
{
    let t = s + more;
    assert forall|i: int| 0 <= i < t.len() implies 1 <= T::row_id(#[trigger] t[i]) < end by {
        if i < s.len() {
            assert(t[i] == s[i]);
        } else {
            assert(t[i] == more[i - s.len()]);
        }
    }
    assert forall|i: int, j: int| 0 <= i < j < t.len() implies T::row_id(#[trigger] t[i]) < T::row_id(#[trigger] t[j]) by {
        if j < s.len() {
            assert(t[i] == s[i] && t[j] == s[j]);
        } else {
            assert(t[j] == more[j - s.len()]);
            if i < s.len() {
                assert(t[i] == s[i]);
            } else {
                assert(t[i] == more[i - s.len()]);
            }
        }
    }
}

/// Appended rows of one parent change only that parent's rows.
pub proof fn lemma_append_rows<T: Row>(s: Seq<T::V>, more: Seq<T::V>, parent: u64)
    requires
        forall|i: int| 0 <= i < more.len() ==> T::row_parent(#[trigger] more[i]) == parent,
    ensures
        rows_of::<T>(s + more, parent) == rows_of::<T>(s, parent) + more,
        forall|q: u64| q != parent ==> #[trigger] rows_of::<T>(s + more, q) == rows_of::<T>(s, q),
    decreases more.len(),
{
    if more.len() == 0 {
        assert(s + more =~= s);
        assert(rows_of::<T>(s, parent) + more =~= rows_of::<T>(s, parent));
    } else {
        let less = more.drop_last();
        lemma_append_rows::<T>(s, less, parent);
        assert(s + more =~= (s + less).push(more.last()));
        lemma_rows_of_push::<T>(s + less, more.last(), parent);
        assert(rows_of::<T>(s, parent) + more =~= (rows_of::<T>(s, parent) + less).push(more.last()));
        assert forall|q: u64| q != parent implies #[trigger] rows_of::<T>(s + more, q) == rows_of::<T>(s, q) by {
            lemma_rows_of_push::<T>(s + less, more.last(), q);
        }
    }
}

proof fn lemma_rows_without_add<T: Row>(a: Seq<T::V>, b: Seq<T::V>, parent: u64)
    ensures
        rows_without::<T>(a + b, parent) == rows_without::<T>(a, parent) + rows_without::<T>(b, parent),
        rows_without::<T>(Seq::empty(), parent) == Seq::<T::V>::empty(),
{
    broadcast use Seq::filter_distributes_over_add;

    reveal(Seq::filter);
}

/// Removes the rows that belong to `parent`.
pub fn remove_rows<T: Row>(rows: &mut Vec<T>, parent: u64)
    ensures
        row_views(final(rows)@) == rows_without::<T>(row_views(old(rows)@), parent),
{
    let ghost all = row_views(rows@);
    let mut kept: Vec<T> = Vec::new();
    // Rows are moved off the end, so `kept` holds them last to first.
    proof {
        reveal(Seq::filter);
        assert(all.skip(rows@.len() as int) =~= Seq::<T::V>::empty());
    }
    while rows.len() > 0
        invariant
            rows@.len() <= all.len(),
            row_views(rows@) == all.take(rows@.len() as int),
            row_views(kept@.reverse()) == rows_without::<T>(all.skip(rows@.len() as int), parent),
        decreases rows@.len(),
    {
        let ghost n = rows@.len() as int;
        let ghost before = kept@;
        assert(row_views(rows@)[n - 1] == all[n - 1]);
        let t: Option<T> = rows.pop();
        match t {
            Some(t) => {
                assert(t@ == all[n - 1]);
                proof {
                    assert(all.skip(n - 1) =~= seq![all[n - 1]] + all.skip(n));
                    lemma_rows_without_add::<T>(seq![all[n - 1]], all.skip(n), parent);
                    lemma_rows_of_push::<T>(Seq::empty(), all[n - 1], parent);
                    assert(Seq::<T::V>::empty().push(all[n - 1]) =~= seq![all[n - 1]]);
                }
                if t.parent() != parent {
                    kept.push(t);
                    proof {
                        assert(kept@.reverse() =~= seq![t] + before.reverse());
                        assert(row_views(kept@.reverse()) =~= seq![t@] + row_views(before.reverse()));
                    }
                }
                assert(row_views(kept@.reverse()) =~= rows_without::<T>(all.skip(n - 1), parent));
            },
            None => {},
        }
        assert(row_views(rows@) =~= all.take(n - 1));
    }
    assert(all.skip(0) =~= all);
    let ghost result = rows_without::<T>(all, parent);
    while kept.len() > 0
        invariant
            kept@.len() <= result.len(),
            row_views(rows@) + row_views(kept@.reverse()) == result,
        decreases kept@.len(),
    {
        let ghost n = kept@.len() as int;
        let ghost before = kept@;
        let ghost done = rows@;
        let t: Option<T> = kept.pop();
        match t {
            Some(t) => {
                rows.push(t);
                proof {
                    assert(before.reverse() =~= seq![t] + kept@.reverse());
                    assert(row_views(rows@) =~= row_views(done).push(t@));
                    assert(row_views(rows@) + row_views(kept@.reverse()) =~= row_views(done) + row_views(before.reverse()));
                }
            },
            None => {},
        }
    }
    assert(row_views(rows@) =~= result);
}

// ---- the tables -------------------------------------------------------------

impl View for Edit {
    type V = Edit;

    open spec fn view(&self) -> Edit {
        *self
    }
}

impl View for ProjectorKeyframe {
    type V = ProjectorKeyframe;

    open spec fn view(&self) -> ProjectorKeyframe {
        *self
    }
}

impl View for TurretKeyframe {
    type V = TurretKeyframe;

    open spec fn view(&self) -> TurretKeyframe {
        *self
    }
}

impl Row for Project {
    open spec fn row_id(v: ProjectView) -> u64 {
        v.id
    }

    open spec fn row_parent(v: ProjectView) -> u64 {
        v.id
    }

    fn parent(&self) -> (r: u64) {
        self.id
    }
}

impl Row for Edit {
    open spec fn row_id(v: Edit) -> u64 {
        v.id
    }

    open spec fn row_parent(v: Edit) -> u64 {
        v.project_id
    }

    fn parent(&self) -> (r: u64) {
        self.project_id
    }
}

impl Row for LaserKeyframe {
    open spec fn row_id(v: LaserKeyframeView) -> u64 {
        v.id
    }

    open spec fn row_parent(v: LaserKeyframeView) -> u64 {
        v.project_id
    }

    fn parent(&self) -> (r: u64) {
        self.project_id
    }
}

impl Row for ProjectorKeyframe {
    open spec fn row_id(v: ProjectorKeyframe) -> u64 {
        v.id
    }

    open spec fn row_parent(v: ProjectorKeyframe) -> u64 {
        v.project_id
    }

    fn parent(&self) -> (r: u64) {
        self.project_id
    }
}

impl Row for TurretKeyframe {
    open spec fn row_id(v: TurretKeyframe) -> u64 {
        v.id
    }

    open spec fn row_parent(v: TurretKeyframe) -> u64 {
        v.project_id
    }

    fn parent(&self) -> (r: u64) {
        self.project_id
    }
}

impl Row for Song {
    open spec fn row_id(v: SongView) -> u64 {
        v.id
    }

    open spec fn row_parent(v: SongView) -> u64 {
        v.project_id
    }

    fn parent(&self) -> (r: u64) {
        self.project_id
    }
}

impl Row for SongChunk {
    open spec fn row_id(v: SongChunkView) -> u64 {
        v.id
    }

    open spec fn row_parent(v: SongChunkView) -> u64 {
        v.song_id
    }

    fn parent(&self) -> (r: u64) {
        self.song_id
    }
}

/// The next id of each table.
#[derive(Clone, Copy, PartialEq, Eq, Structural, Debug)]
pub struct Ids {
    pub project: u64,
    pub edit: u64,
    pub laser: u64,
    pub projector: u64,
    pub turret: u64,
    pub song: u64,
    pub chunk: u64,
}

/// Who calls an operation, and when.
#[derive(Clone, Copy, PartialEq, Eq, Structural, Debug)]
pub struct Caller {
    pub sender: Identity,
    pub timestamp: i64,
}

/// The backend's tables.
#[derive(Debug)]
pub struct Store {
    pub projects: Vec<Project>,
    pub edits: Vec<Edit>,
    pub lasers: Vec<LaserKeyframe>,
    pub projectors: Vec<ProjectorKeyframe>,
    pub turrets: Vec<TurretKeyframe>,
    pub songs: Vec<Song>,
    pub chunks: Vec<SongChunk>,
    pub ids: Ids,
}

/// What a [`Store`] holds.
#[verifier::ext_equal]
pub struct StoreView {
    pub projects: Seq<ProjectView>,
    pub edits: Seq<Edit>,
    pub lasers: Seq<LaserKeyframeView>,
    pub projectors: Seq<ProjectorKeyframe>,
    pub turrets: Seq<TurretKeyframe>,
    pub songs: Seq<SongView>,
    pub chunks: Seq<SongChunkView>,
    pub ids: Ids,
}

impl View for Store {
    type V = StoreView;

    open spec fn view(&self) -> StoreView {
        StoreView {
            projects: row_views(self.projects@),
            edits: row_views(self.edits@),
            lasers: row_views(self.lasers@),
            projectors: row_views(self.projectors@),
            turrets: row_views(self.turrets@),
            songs: row_views(self.songs@),
            chunks: row_views(self.chunks@),
            ids: self.ids,
        }
    }
}

// ---- what always holds ------------------------------------------------------

/// The most bytes one audio chunk may hold.
pub const CHUNK_SIZE: usize = 262144;

/// Songs larger than this are refused.
pub const MAX_SONG_BYTES: u64 = 25165824;

/// There is a project with this id.
pub open spec fn has_project(ps: Seq<ProjectView>, id: u64) -> bool {
    exists|i: int| 0 <= i < ps.len() && (#[trigger] ps[i]).id == id
}

/// Where that project stands.
pub open spec fn project_index(ps: Seq<ProjectView>, id: u64) -> int {
    choose|i: int| 0 <= i < ps.len() && (#[trigger] ps[i]).id == id
}

/// There is a song with this id.
pub open spec fn has_song(songs: Seq<SongView>, id: u64) -> bool {
    exists|i: int| 0 <= i < songs.len() && (#[trigger] songs[i]).id == id
}

/// Where that song stands.
pub open spec fn song_index(songs: Seq<SongView>, id: u64) -> int {
    choose|i: int| 0 <= i < songs.len() && (#[trigger] songs[i]).id == id
}

/// Every row belongs to a project that exists.
pub open spec fn belong<T: Row>(rows: Seq<T::V>, ps: Seq<ProjectView>) -> bool {
    forall|i: int| 0 <= i < rows.len() ==> has_project(ps, T::row_parent(#[trigger] rows[i]))
}

/// There is at most one template of each name.
pub open spec fn templates_ok(ps: Seq<ProjectView>) -> bool {
    forall|i: int, j: int|
        0 <= i < j < ps.len() && (#[trigger] ps[i]).is_template && (#[trigger] ps[j]).is_template ==> ps[i].name != ps[j].name
}

/// Every project has one to 512 lights and one to 100 000 frames.
pub open spec fn sizes_ok(ps: Seq<ProjectView>) -> bool {
    forall|i: int|
        0 <= i < ps.len() ==> 1 <= (#[trigger] ps[i]).num_lights <= 512 && 1 <= ps[i].num_frames <= 100_000
}

/// An edit that names a light and a frame of the project and a known state.
pub open spec fn in_range(p: ProjectView, light: u32, frame: u32, state: u8) -> bool {
    light < p.num_lights && frame < p.num_frames && state <= 2
}

/// A project's log is its whole history: as many edits as `head_seq` says,
/// numbered from one without a gap, each within the project.
pub open spec fn log_ok(log: Seq<Edit>, p: ProjectView) -> bool {
    &&& log.len() == p.head_seq
    &&& forall|k: int|
        0 <= k < log.len() ==> (#[trigger] log[k]).seq == k + 1 && in_range(p, log[k].light, log[k].frame, log[k].state)
}

/// Every project's log is its whole history.
pub open spec fn logs_ok(ps: Seq<ProjectView>, edits: Seq<Edit>) -> bool {
    forall|i: int| 0 <= i < ps.len() ==> log_ok(rows_of::<Edit>(edits, (#[trigger] ps[i]).id), ps[i])
}

/// How many chunks `byte_len` bytes take.
pub open spec fn chunks_for(byte_len: int) -> int {
    (byte_len + CHUNK_SIZE - 1) / CHUNK_SIZE as int
}

/// Each number is greater than the one before.
pub open spec fn strictly_ascending(s: Seq<u32>) -> bool {
    forall|i: int, j: int| 0 <= i < j < s.len() ==> #[trigger] s[i] < #[trigger] s[j]
}

/// The song's size, chunk count and beat grid fit it and its project.
pub open spec fn song_ok(song: SongView, ps: Seq<ProjectView>) -> bool {
    &&& 0 < song.byte_len <= MAX_SONG_BYTES
    &&& song.num_chunks == chunks_for(song.byte_len as int)
    &&& strictly_ascending(song.beats_frames)
    &&& forall|j: int, k: int|
        0 <= j < ps.len() && (#[trigger] ps[j]).id == song.project_id && 0 <= k < song.beats_frames.len()
            ==> #[trigger] song.beats_frames[k] < ps[j].num_frames
}

/// The bytes in all chunks together.
pub open spec fn total_bytes(cs: Seq<SongChunkView>) -> nat
    decreases cs.len(),
{
    if cs.len() == 0 {
        0
    } else {
        total_bytes(cs.drop_last()) + cs.last().data.len()
    }
}

/// A song's chunks: as many as it says it received, of distinct indices, and the
/// song is complete exactly when all are there and hold `byte_len` bytes.
pub open spec fn song_chunks_ok(song: SongView, cs: Seq<SongChunkView>) -> bool {
    &&& cs.len() == song.chunks_received
    &&& forall|k: int|
        0 <= k < cs.len() ==> (#[trigger] cs[k]).project_id == song.project_id && cs[k].idx < song.num_chunks && cs[k].data.len()
            <= CHUNK_SIZE
    &&& forall|j: int, k: int| 0 <= j < k < cs.len() ==> (#[trigger] cs[j]).idx != (#[trigger] cs[k]).idx
    &&& song.complete <==> song.chunks_received >= song.num_chunks && total_bytes(cs) == song.byte_len
}

/// At most one song per project, each fitting its project.
pub open spec fn songs_ok(songs: Seq<SongView>, ps: Seq<ProjectView>) -> bool {
    &&& forall|i: int| 0 <= i < songs.len() ==> song_ok(#[trigger] songs[i], ps)
    &&& forall|i: int, j: int| 0 <= i < j < songs.len() ==> (#[trigger] songs[i]).project_id != (#[trigger] songs[j]).project_id
}

/// Every chunk belongs to a song, and every song's chunks fit it.
pub open spec fn chunks_ok(songs: Seq<SongView>, chunks: Seq<SongChunkView>) -> bool {
    &&& forall|i: int| 0 <= i < chunks.len() ==> has_song(songs, (#[trigger] chunks[i]).song_id)
    &&& forall|i: int| 0 <= i < songs.len() ==> song_chunks_ok(#[trigger] songs[i], rows_of::<SongChunk>(chunks, songs[i].id))
}

impl StoreView {
    /// The order of ids in every table.
    pub open spec fn tables_ok(self) -> bool {
        &&& ids_ok::<Project>(self.projects, self.ids.project)
        &&& ids_ok::<Edit>(self.edits, self.ids.edit)
        &&& ids_ok::<LaserKeyframe>(self.lasers, self.ids.laser)
        &&& ids_ok::<ProjectorKeyframe>(self.projectors, self.ids.projector)
        &&& ids_ok::<TurretKeyframe>(self.turrets, self.ids.turret)
        &&& ids_ok::<Song>(self.songs, self.ids.song)
        &&& ids_ok::<SongChunk>(self.chunks, self.ids.chunk)
    }

    /// No row belongs to a project that does not exist.
    pub open spec fn no_orphans(self) -> bool {
        &&& belong::<Edit>(self.edits, self.projects)
        &&& belong::<LaserKeyframe>(self.lasers, self.projects)
        &&& belong::<ProjectorKeyframe>(self.projectors, self.projects)
        &&& belong::<TurretKeyframe>(self.turrets, self.projects)
        &&& belong::<Song>(self.songs, self.projects)
    }

    /// What every operation keeps.
    pub open spec fn wf(self) -> bool {
        &&& self.tables_ok()
        &&& self.no_orphans()
        &&& templates_ok(self.projects)
        &&& sizes_ok(self.projects)
        &&& logs_ok(self.projects, self.edits)
        &&& songs_ok(self.songs, self.projects)
        &&& chunks_ok(self.songs, self.chunks)
    }

    /// The log of a project.
    pub open spec fn log(self, project: u64) -> Seq<Edit> {
        rows_of::<Edit>(self.edits, project)
    }

    /// The project with this id, where there is one.
    pub open spec fn project(self, id: u64) -> ProjectView {
        self.projects[project_index(self.projects, id)]
    }

    /// The song with this id, where there is one.
    pub open spec fn song(self, id: u64) -> SongView {
        self.songs[song_index(self.songs, id)]
    }
}

impl Store {
    /// Empty tables.
    pub fn new() -> (r: Store)
        ensures
            r@.wf(),
            r@ == (StoreView {
                projects: Seq::empty(),
                edits: Seq::empty(),
                lasers: Seq::empty(),
                projectors: Seq::empty(),
                turrets: Seq::empty(),
                songs: Seq::empty(),
                chunks: Seq::empty(),
                ids: Ids { project: 1, edit: 1, laser: 1, projector: 1, turret: 1, song: 1, chunk: 1 },
            }),
    {
        let r: Store = Store {
            projects: Vec::new(),
            edits: Vec::new(),
            lasers: Vec::new(),
            projectors: Vec::new(),
            turrets: Vec::new(),
            songs: Vec::new(),
            chunks: Vec::new(),
            ids: Ids { project: 1, edit: 1, laser: 1, projector: 1, turret: 1, song: 1, chunk: 1 },
        };
        assert(r@ =~= (StoreView {
            projects: Seq::empty(),
            edits: Seq::empty(),
            lasers: Seq::empty(),
            projectors: Seq::empty(),
            turrets: Seq::empty(),
            songs: Seq::empty(),
            chunks: Seq::empty(),
            ids: r.ids,
        }));
        r
    }

    /// Where the project with this id stands.
    pub fn find_project(&self, id: u64) -> (r: Option<usize>)
        requires
            self@.wf(),
        ensures
            match r {
                Some(i) => has_project(self@.projects, id) && i < self.projects@.len() && i == project_index(self@.projects, id)
                    && self.projects@[i as int].id == id,
                None => !has_project(self@.projects, id),
            },
    {
        let mut i: usize = 0;
        while i < self.projects.len()
            invariant
                i <= self.projects@.len(),
                self@.wf(),
                forall|j: int| 0 <= j < i ==> (#[trigger] self@.projects[j]).id != id,
            decreases self.projects.len() - i,
        {
            if self.projects[i].id == id {
                proof {
                    assert(self@.projects[i as int].id == id);
                    lemma_project_index(self@.projects, self@.ids.project, i as int);
                }
                return Some(i);
            }
            assert(self@.projects[i as int].id != id);
            i = i + 1;
        }
        None
    }

    /// Where the song with this id stands.
    pub fn find_song(&self, id: u64) -> (r: Option<usize>)
        requires
            self@.wf(),
        ensures
            match r {
                Some(i) => has_song(self@.songs, id) && i < self.songs@.len() && i == song_index(self@.songs, id) && self.songs@[i as int].id
                    == id,
                None => !has_song(self@.songs, id),
            },
    {
        let mut i: usize = 0;
        while i < self.songs.len()
            invariant
                i <= self.songs@.len(),
                self@.wf(),
                forall|j: int| 0 <= j < i ==> (#[trigger] self@.songs[j]).id != id,
            decreases self.songs.len() - i,
        {
            if self.songs[i].id == id {
                proof {
                    assert(self@.songs[i as int].id == id);
                    lemma_song_index(self@.songs, self@.ids.song, i as int);
                }
                return Some(i);
            }
            assert(self@.songs[i as int].id != id);
            i = i + 1;
        }
        None
    }
}

/// A project's id tells where it stands.
pub proof fn lemma_project_index(ps: Seq<ProjectView>, next: u64, i: int)
    requires
        ids_ok::<Project>(ps, next),
        0 <= i < ps.len(),
    ensures
        has_project(ps, ps[i].id),
        project_index(ps, ps[i].id) == i,
{
    let id = ps[i].id;
    assert(has_project(ps, id));
    let k = project_index(ps, id);
    assert(Project::row_id(ps[k]) == Project::row_id(ps[i]));
    assert(k < i ==> Project::row_id(ps[k]) < Project::row_id(ps[i]));
    assert(i < k ==> Project::row_id(ps[i]) < Project::row_id(ps[k]));
}

/// A song's id tells where it stands.
pub proof fn lemma_song_index(songs: Seq<SongView>, next: u64, i: int)
    requires
        ids_ok::<Song>(songs, next),
        0 <= i < songs.len(),
    ensures
        has_song(songs, songs[i].id),
        song_index(songs, songs[i].id) == i,
{
    let id = songs[i].id;
    assert(has_song(songs, id));
    let k = song_index(songs, id);
    assert(Song::row_id(songs[k]) == Song::row_id(songs[i]));
    assert(k < i ==> Song::row_id(songs[k]) < Song::row_id(songs[i]));
    assert(i < k ==> Song::row_id(songs[i]) < Song::row_id(songs[k]));
}

} // verus!
