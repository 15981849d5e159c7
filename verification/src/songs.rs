//! Each project's song: its metadata, its beat grid and its audio bytes, which
//! arrive in chunks.
use crate::rows::{Song, SongChunk, SongChunkView, SongView};
use crate::store::{
    chunks_for, chunks_ok, has_project, has_song, ids_ok, lemma_append_ids, lemma_append_rows, lemma_project_index,
    lemma_rows_of, lemma_rows_of_push, lemma_rows_without, lemma_song_index, project_index, remove_rows, rows_of, rows_without,
    song_chunks_ok, song_index, song_ok, songs_ok, strictly_ascending, total_bytes, CHUNK_SIZE, Caller, Ids, MAX_SONG_BYTES,
    Row, Store, StoreView,
};
use crate::text::{decimal, push_decimal, push_str, text_of};
use vstd::prelude::*;

verus! {

broadcast use {vstd::seq::group_seq_axioms, vstd::string::group_string_axioms};

// ---- removing a song --------------------------------------------------------

/// The project has a song.
pub open spec fn has_song_of(songs: Seq<SongView>, project: u64) -> bool {
    exists|i: int| 0 <= i < songs.len() && (#[trigger] songs[i]).project_id == project
}

/// Where the project's song stands.
pub open spec fn song_index_of(songs: Seq<SongView>, project: u64) -> int {
    choose|i: int| 0 <= i < songs.len() && (#[trigger] songs[i]).project_id == project
}

/// The tables without the project's song and its chunks.
pub open spec fn without_song(s: StoreView, project: u64) -> StoreView {
    if has_song_of(s.songs, project) {
        StoreView {
            songs: rows_without::<Song>(s.songs, project),
            chunks: rows_without::<SongChunk>(s.chunks, s.songs[song_index_of(s.songs, project)].id),
            ..s
        }
    } else {
        s
    }
}

/// Removing a project's song keeps what always holds and leaves it without one.
pub proof fn lemma_song_removed(s: StoreView, project: u64)
    requires
        s.wf(),
    ensures
        without_song(s, project).wf(),
        !has_song_of(without_song(s, project).songs, project),
{
    let t = without_song(s, project);
    if has_song_of(s.songs, project) {
        let g = song_index_of(s.songs, project);
        let gone = s.songs[g].id;
        lemma_rows_without::<Song>(s.songs, project, s.ids.song);
        lemma_rows_without::<SongChunk>(s.chunks, gone, s.ids.chunk);
        assert(songs_ok(t.songs, t.projects)) by {
            assert forall|i: int| 0 <= i < t.songs.len() implies song_ok(#[trigger] t.songs[i], t.projects) by {
                let k = choose|k: int| 0 <= k < s.songs.len() && s.songs[k] == t.songs[i];
                assert(song_ok(s.songs[k], s.projects));
            }
            assert forall|i: int, j: int| 0 <= i < j < t.songs.len() implies (#[trigger] t.songs[i]).project_id != (#[trigger] t.songs[j]).project_id by {
                assert(Song::row_id(t.songs[i]) < Song::row_id(t.songs[j]));
                assert(s.songs.contains(t.songs[i]) && s.songs.contains(t.songs[j]));
                let a = choose|a: int| 0 <= a < s.songs.len() && s.songs[a] == t.songs[i];
                let b = choose|b: int| 0 <= b < s.songs.len() && s.songs[b] == t.songs[j];
                assert(a != b);
                if a < b {
                    assert(s.songs[a].project_id != s.songs[b].project_id);
                } else {
                    assert(s.songs[b].project_id != s.songs[a].project_id);
                }
            }
        }
        assert(crate::store::belong::<Song>(t.songs, t.projects)) by {
            assert forall|i: int| 0 <= i < t.songs.len() implies has_project(t.projects, Song::row_parent(#[trigger] t.songs[i])) by {
                let k = choose|k: int| 0 <= k < s.songs.len() && s.songs[k] == t.songs[i];
                assert(has_project(s.projects, Song::row_parent(s.songs[k])));
            }
        }
        assert(chunks_ok(t.songs, t.chunks)) by {
            assert forall|i: int| 0 <= i < t.chunks.len() implies has_song(t.songs, (#[trigger] t.chunks[i]).song_id) by {
                let c = t.chunks[i];
                assert(SongChunk::row_parent(t.chunks[i]) != gone);
                let k = choose|k: int| 0 <= k < s.chunks.len() && s.chunks[k] == c;
                assert(has_song(s.songs, s.chunks[k].song_id));
                let m = song_index(s.songs, c.song_id);
                assert(s.songs[m].id == c.song_id);
                if s.songs[m].project_id == project {
                    if m < g {
                        assert(s.songs[m].project_id != s.songs[g].project_id);
                    } else if g < m {
                        assert(s.songs[g].project_id != s.songs[m].project_id);
                    }
                }
                assert(Song::row_parent(s.songs[m]) != project);
                assert(t.songs.contains(s.songs[m]));
                let n = choose|n: int| 0 <= n < t.songs.len() && t.songs[n] == s.songs[m];
                assert(t.songs[n].id == c.song_id);
            }
            assert forall|i: int| 0 <= i < t.songs.len() implies song_chunks_ok(#[trigger] t.songs[i], rows_of::<SongChunk>(t.chunks, t.songs[i].id)) by {
                assert(Song::row_parent(t.songs[i]) != project);
                let k = choose|k: int| 0 <= k < s.songs.len() && s.songs[k] == t.songs[i];
                assert(song_chunks_ok(s.songs[k], rows_of::<SongChunk>(s.chunks, s.songs[k].id)));
                lemma_song_index(s.songs, s.ids.song, k);
                lemma_song_index(s.songs, s.ids.song, g);
                assert(t.songs[i].id != gone);
            }
        }
        if has_song_of(t.songs, project) {
            let k = song_index_of(t.songs, project);
            assert(Song::row_parent(t.songs[k]) != project);
        }
    }
}

impl Store {
    /// Where the project's song stands.
    pub fn find_song_of(&self, project: u64) -> (r: Option<usize>)
        requires
            self@.wf(),
        ensures
            match r {
                Some(i) => has_song_of(self@.songs, project) && i < self.songs@.len() && i == song_index_of(self@.songs, project)
                    && self.songs@[i as int].project_id == project,
                None => !has_song_of(self@.songs, project),
            },
    {
        let mut i: usize = 0;
        while i < self.songs.len()
            invariant
                i <= self.songs@.len(),
                self@.wf(),
                forall|j: int| 0 <= j < i ==> (#[trigger] self@.songs[j]).project_id != project,
            decreases self.songs.len() - i,
        {
            if self.songs[i].project_id == project {
                proof {
                    assert(self@.songs[i as int].project_id == project);
                    let k = song_index_of(self@.songs, project);
                    assert(has_song_of(self@.songs, project));
                    if k < i {
                        assert(self@.songs[k].project_id != self@.songs[i as int].project_id);
                    } else if i < k {
                        assert(self@.songs[i as int].project_id != self@.songs[k].project_id);
                    }
                }
                return Some(i);
            }
            assert(self@.songs[i as int].project_id != project);
            i = i + 1;
        }
        None
    }
}

/// Deletes the project's song and its chunks, if it has one.
pub fn delete_project_songs(store: &mut Store, project_id: u64)
    requires
        old(store)@.wf(),
    ensures
        final(store)@.wf(),
        final(store)@ == without_song(old(store)@, project_id),
        !has_song_of(final(store)@.songs, project_id),
{
    let ghost s = store@;
    proof {
        lemma_song_removed(s, project_id);
    }
    let found: Option<usize> = store.find_song_of(project_id);
    match found {
        Some(i) => {
            let sid: u64 = store.songs[i].id;
            remove_rows(&mut store.chunks, sid);
            remove_rows(&mut store.songs, project_id);
            assert(store@ =~= without_song(s, project_id));
        },
        None => {},
    }
}

/// Why an operation on a project that the caller must own is refused.
pub open spec fn owner_error(s: StoreView, ctx: Caller, project_id: u64) -> Option<Seq<char>> {
    if !has_project(s.projects, project_id) {
        Some("Project not found"@)
    } else if s.project(project_id).owner != ctx.sender {
        Some("You do not own this project"@)
    } else {
        None
    }
}

/// Finds a project that the caller must own.
fn owned_project(store: &Store, ctx: &Caller, project_id: u64) -> (r: Result<usize, String>)
    requires
        store@.wf(),
    ensures
        r is Err <==> owner_error(store@, *ctx, project_id) is Some,
        r matches Err(e) ==> Some(e@) == owner_error(store@, *ctx, project_id),
        r matches Ok(i) ==> i < store.projects@.len() && i == project_index(store@.projects, project_id) && store@.projects[i as int].id
            == project_id,
{
    let found: Option<usize> = store.find_project(project_id);
    match found {
        None => Err("Project not found".to_owned()),
        Some(i) => {
            if store.projects[i].owner != ctx.sender {
                return Err("You do not own this project".to_owned());
            }
            assert(store@.projects[i as int] == store.projects@[i as int]@);
            Ok(i)
        },
    }
}

/// Removes the project's song and all its chunks.
pub fn delete_song(store: &mut Store, ctx: &Caller, project_id: u64) -> (r: Result<(), String>)
    requires
        old(store)@.wf(),
    ensures
        final(store)@.wf(),
        r is Err <==> owner_error(old(store)@, *ctx, project_id) is Some,
        r matches Err(e) ==> Some(e@) == owner_error(old(store)@, *ctx, project_id) && final(store)@ == old(store)@,
        r is Ok ==> final(store)@ == without_song(old(store)@, project_id),
{
    let owned: Result<usize, String> = owned_project(store, ctx, project_id);
    match owned {
        Err(e) => Err(e),
        Ok(_) => {
            delete_project_songs(store, project_id);
            Ok(())
        },
    }
}

// ---- beginning a song -------------------------------------------------------

/// The numbers below `n` that occur in `s`, each once, ascending.
pub open spec fn grid_below(s: Seq<u32>, n: nat) -> Seq<u32>
    decreases n,
{
    if n == 0 {
        Seq::empty()
    } else {
        let g = grid_below(s, (n - 1) as nat);
        if s.contains((n - 1) as u32) {
            g.push((n - 1) as u32)
        } else {
            g
        }
    }
}

/// `grid_below` is the one ascending sequence of those numbers.
proof fn lemma_grid(s: Seq<u32>, g: Seq<u32>, n: nat)
    requires
        n <= u32::MAX,
        strictly_ascending(g),
        forall|x: u32| #[trigger] g.contains(x) <==> s.contains(x) && x < n,
    ensures
        g == grid_below(s, n),
    decreases n,
{
    if n == 0 {
        if g.len() > 0 {
            assert(g.contains(g[0]));
        }
        assert(g =~= Seq::<u32>::empty());
    } else {
        let top = (n - 1) as u32;
        if s.contains(top) {
            assert(g.contains(top));
            let k = choose|k: int| 0 <= k < g.len() && g[k] == top;
            if k < g.len() - 1 {
                assert(g[k] < g[g.len() - 1]);
                assert(g.contains(g[g.len() - 1]));
            }
            let h = g.drop_last();
            assert forall|x: u32| #[trigger] h.contains(x) <==> s.contains(x) && x < n - 1 by {
                if h.contains(x) {
                    let i = choose|i: int| 0 <= i < h.len() && h[i] == x;
                    assert(g[i] == x);
                    assert(g.contains(x));
                    assert(g[i] < g[g.len() - 1]);
                }
                if s.contains(x) && x < n - 1 {
                    assert(g.contains(x));
                    let i = choose|i: int| 0 <= i < g.len() && g[i] == x;
                    assert(h[i] == x);
                }
            }
            lemma_grid(s, h, (n - 1) as nat);
            assert(g =~= h.push(top));
        } else {
            assert forall|x: u32| #[trigger] g.contains(x) <==> s.contains(x) && x < n - 1 by {}
            lemma_grid(s, g, (n - 1) as nat);
        }
    }
}

/// Every number of the grid occurs in `s` and is below `n`.
proof fn lemma_grid_bound(s: Seq<u32>, n: nat)
    requires
        n <= u32::MAX,
    ensures
        strictly_ascending(grid_below(s, n)),
        forall|i: int| 0 <= i < grid_below(s, n).len() ==> #[trigger] grid_below(s, n)[i] < n,
    decreases n,
{
    if n > 0 {
        lemma_grid_bound(s, (n - 1) as nat);
    }
}

/// Puts a number into an ascending list, unless it is there.
fn insert_beat(v: &mut Vec<u32>, x: u32)
    requires
        strictly_ascending(old(v)@),
    ensures
        strictly_ascending(final(v)@),
        forall|y: u32| #[trigger] final(v)@.contains(y) <==> old(v)@.contains(y) || y == x,
{
    let ghost s = v@;
    let mut i: usize = v.len();
    while i > 0 && v[i - 1] > x
        invariant
            i <= v@.len(),
            v@ == s,
            forall|j: int| i <= j < v@.len() ==> #[trigger] v@[j] > x,
        decreases i,
    {
        i = i - 1;
    }
    if i > 0 && v[i - 1] == x {
        assert(s.contains(s[i - 1]));
        return;
    }
    proof {
        assert forall|j: int| 0 <= j < i implies #[trigger] s[j] < x by {
            if j < i - 1 {
                assert(s[j] < s[i - 1]);
            }
        }
    }
    v.insert(i, x);
    proof {
        s.insert_ensures(i as int, x);
        let t = v@;
        assert forall|y: u32| #[trigger] t.contains(y) <==> s.contains(y) || y == x by {
            if t.contains(y) {
                let k = choose|k: int| 0 <= k < t.len() && t[k] == y;
                if k < i {
                    assert(s[k] == y);
                } else if k > i {
                    assert(s[k - 1] == y);
                }
            }
            if s.contains(y) {
                let k = choose|k: int| 0 <= k < s.len() && s[k] == y;
                if k < i {
                    assert(t[k] == y);
                } else {
                    assert(t[k + 1] == y);
                }
            }
            assert(t[i as int] == x);
        }
        assert forall|a: int, b: int| 0 <= a < b < t.len() implies #[trigger] t[a] < #[trigger] t[b] by {
            let p = if a < i { a } else { a - 1 };
            let q = if b < i { b } else { b - 1 };
            if a != i && b != i {
                assert(t[a] == s[p] && t[b] == s[q]);
                assert(s[p] < s[q]);
            } else if a == i {
                assert(t[b] == s[q]);
            } else {
                assert(t[a] == s[p]);
            }
        }
    }
}

/// Keeps the beats that fall inside the timeline, each once, ascending.
fn beat_grid(beats: &Vec<u32>, num_frames: u32) -> (r: Vec<u32>)
    ensures
        r@ == grid_below(beats@, num_frames as nat),
{
    let mut out: Vec<u32> = Vec::new();
    let mut i: usize = 0;
    while i < beats.len()
        invariant
            i <= beats@.len(),
            strictly_ascending(out@),
            forall|x: u32| #[trigger] out@.contains(x) <==> beats@.take(i as int).contains(x) && x < num_frames,
        decreases beats.len() - i,
    {
        let b: u32 = beats[i];
        let ghost before = out@;
        if b < num_frames {
            insert_beat(&mut out, b);
        }
        i = i + 1;
        proof {
            let p = beats@.take(i - 1);
            let q = beats@.take(i as int);
            assert(q =~= p.push(b));
            assert forall|x: u32| #[trigger] out@.contains(x) <==> q.contains(x) && x < num_frames by {
                assert(before.contains(x) <==> p.contains(x) && x < num_frames);
                if p.contains(x) {
                    let k = choose|k: int| 0 <= k < p.len() && p[k] == x;
                    assert(q[k] == x);
                }
                if q.contains(x) {
                    let k = choose|k: int| 0 <= k < q.len() && q[k] == x;
                    if k < p.len() {
                        assert(p[k] == x);
                    }
                }
                assert(q[i - 1] == b);
            }
        }
    }
    proof {
        assert(beats@.take(beats@.len() as int) =~= beats@);
        lemma_grid(beats@, out@, num_frames as nat);
    }
    out
}

/// What a client says of a song before it sends the bytes.
pub struct SongInfo {
    pub name: String,
    pub mime: String,
    pub byte_len: u64,
    pub num_chunks: u32,
    pub duration_ms: u32,
    pub fps_bits: u32,
    pub beats_frames: Vec<u32>,
    pub bpm_bits: u32,
    pub first_beat_ms: u32,
}

/// What a [`SongInfo`] holds.
pub struct SongInfoView {
    pub name: Seq<char>,
    pub mime: Seq<char>,
    pub byte_len: u64,
    pub num_chunks: u32,
    pub duration_ms: u32,
    pub fps_bits: u32,
    pub beats_frames: Seq<u32>,
    pub bpm_bits: u32,
    pub first_beat_ms: u32,
}

impl View for SongInfo {
    type V = SongInfoView;

    open spec fn view(&self) -> SongInfoView {
        SongInfoView {
            name: self.name@,
            mime: self.mime@,
            byte_len: self.byte_len,
            num_chunks: self.num_chunks,
            duration_ms: self.duration_ms,
            fps_bits: self.fps_bits,
            beats_frames: self.beats_frames@,
            bpm_bits: self.bpm_bits,
            first_beat_ms: self.first_beat_ms,
        }
    }
}

/// Why a song is refused: it is empty, too large, or its chunks are miscounted.
pub open spec fn song_error(byte_len: u64, num_chunks: u32) -> Option<Seq<char>> {
    if byte_len == 0 {
        Some("Audio file is empty"@)
    } else if byte_len > MAX_SONG_BYTES {
        Some("Song too large: "@ + decimal(byte_len as nat) + " bytes (max "@ + decimal(MAX_SONG_BYTES as nat) + ")"@)
    } else if num_chunks != chunks_for(byte_len as int) {
        Some("num_chunks "@ + decimal(num_chunks as nat) + " != expected "@ + decimal(chunks_for(byte_len as int) as nat))
    } else {
        None
    }
}

/// The song row of a fresh upload: nothing received yet, and of the beats those
/// inside the timeline, ascending.
pub open spec fn new_song(s: StoreView, ctx: Caller, project_id: u64, num_frames: u32, info: SongInfoView) -> SongView {
    SongView {
        id: s.ids.song,
        project_id,
        owner: ctx.sender,
        name: info.name,
        mime: info.mime,
        byte_len: info.byte_len,
        num_chunks: info.num_chunks,
        chunks_received: 0,
        duration_ms: info.duration_ms,
        fps_bits: info.fps_bits,
        beats_frames: grid_below(info.beats_frames, num_frames as nat),
        bpm_bits: info.bpm_bits,
        first_beat_ms: info.first_beat_ms,
        complete: false,
        created_at: ctx.timestamp,
    }
}

/// The tables with one more song.
pub open spec fn with_song(s: StoreView, song: SongView) -> StoreView {
    StoreView { songs: s.songs.push(song), ids: Ids { song: (s.ids.song + 1) as u64, ..s.ids }, ..s }
}

/// The tables after the project's song is replaced by a fresh upload.
pub open spec fn song_replaced(s: StoreView, ctx: Caller, project_id: u64, info: SongInfoView) -> StoreView {
    with_song(without_song(s, project_id), new_song(s, ctx, project_id, s.project(project_id).num_frames, info))
}

/// No chunk belongs to a song id that is not given out yet.
pub proof fn lemma_fresh_chunks(s: StoreView)
    requires
        s.wf(),
    ensures
        rows_of::<SongChunk>(s.chunks, s.ids.song) == Seq::<SongChunkView>::empty(),
{
    let r = rows_of::<SongChunk>(s.chunks, s.ids.song);
    lemma_rows_of::<SongChunk>(s.chunks, s.ids.song);
    if r.len() > 0 {
        assert(SongChunk::row_parent(r[0]) == s.ids.song);
        let k = choose|k: int| 0 <= k < s.chunks.len() && s.chunks[k] == r[0];
        assert(has_song(s.songs, s.chunks[k].song_id));
        let m = song_index(s.songs, s.chunks[k].song_id);
        assert(Song::row_id(s.songs[m]) < s.ids.song);
    }
    assert(r =~= Seq::<SongChunkView>::empty());
}

/// A fresh song keeps what always holds.
pub proof fn lemma_song_added(s: StoreView, song: SongView)
    requires
        s.wf(),
        s.ids.song < u64::MAX,
        song.id == s.ids.song,
        has_project(s.projects, song.project_id),
        !has_song_of(s.songs, song.project_id),
        song_ok(song, s.projects),
        song.chunks_received == 0,
        !song.complete,
    ensures
        with_song(s, song).wf(),
{
    let t = with_song(s, song);
    lemma_append_ids::<Song>(s.songs, seq![song], s.ids.song, t.ids.song);
    assert(s.songs + seq![song] =~= t.songs);
    lemma_fresh_chunks(s);
    assert(crate::store::belong::<Song>(t.songs, t.projects)) by {
        assert forall|i: int| 0 <= i < t.songs.len() implies has_project(t.projects, Song::row_parent(#[trigger] t.songs[i])) by {
            if i < s.songs.len() {
                assert(t.songs[i] == s.songs[i]);
                assert(has_project(s.projects, Song::row_parent(s.songs[i])));
            }
        }
    }
    assert(songs_ok(t.songs, t.projects)) by {
        assert forall|i: int| 0 <= i < t.songs.len() implies song_ok(#[trigger] t.songs[i], t.projects) by {
            if i < s.songs.len() {
                assert(t.songs[i] == s.songs[i]);
            }
        }
        assert forall|i: int, j: int| 0 <= i < j < t.songs.len() implies (#[trigger] t.songs[i]).project_id != (#[trigger] t.songs[j]).project_id by {
            assert(t.songs[i] == s.songs[i]);
            if j < s.songs.len() {
                assert(t.songs[j] == s.songs[j]);
            }
        }
    }
    assert(chunks_ok(t.songs, t.chunks)) by {
        assert forall|i: int| 0 <= i < t.chunks.len() implies has_song(t.songs, (#[trigger] t.chunks[i]).song_id) by {
            assert(has_song(s.songs, s.chunks[i].song_id));
            let m = song_index(s.songs, s.chunks[i].song_id);
            assert(t.songs[m] == s.songs[m]);
        }
        assert forall|i: int| 0 <= i < t.songs.len() implies song_chunks_ok(#[trigger] t.songs[i], rows_of::<SongChunk>(t.chunks, t.songs[i].id)) by {
            if i < s.songs.len() {
                assert(t.songs[i] == s.songs[i]);
            }
        }
    }
}

/// Replaces the song of the project at `i` with a fresh, empty one.
pub fn replace_song(store: &mut Store, ctx: &Caller, i: usize, info: SongInfo) -> (r: Result<(), String>)
    requires
        old(store)@.wf(),
        i < old(store)@.projects.len(),
        old(store)@.ids.song < u64::MAX,
    ensures
        final(store)@.wf(),
        r is Err <==> song_error(info.byte_len, info.num_chunks) is Some,
        r matches Err(e) ==> Some(e@) == song_error(info.byte_len, info.num_chunks) && final(store)@ == old(store)@,
        r is Ok ==> final(store)@ == song_replaced(old(store)@, *ctx, old(store)@.projects[i as int].id, info@),
{
    let byte_len: u64 = info.byte_len;
    let num_chunks: u32 = info.num_chunks;
    if byte_len == 0 {
        return Err("Audio file is empty".to_owned());
    }
    if byte_len > MAX_SONG_BYTES {
        let mut m: Vec<char> = Vec::new();
        push_str(&mut m, "Song too large: ");
        push_decimal(&mut m, byte_len);
        push_str(&mut m, " bytes (max ");
        push_decimal(&mut m, MAX_SONG_BYTES);
        push_str(&mut m, ")");
        assert(m@ =~= "Song too large: "@ + decimal(byte_len as nat) + " bytes (max "@ + decimal(MAX_SONG_BYTES as nat) + ")"@);
        return Err(text_of(&m));
    }
    let expected: u32 = ((byte_len + (CHUNK_SIZE as u64 - 1)) / CHUNK_SIZE as u64) as u32;
    if num_chunks != expected {
        let mut m: Vec<char> = Vec::new();
        push_str(&mut m, "num_chunks ");
        push_decimal(&mut m, num_chunks as u64);
        push_str(&mut m, " != expected ");
        push_decimal(&mut m, expected as u64);
        assert(m@ =~= "num_chunks "@ + decimal(num_chunks as nat) + " != expected "@ + decimal(chunks_for(byte_len as int) as nat));
        return Err(text_of(&m));
    }
    let ghost s = store@;
    let ghost v = info@;
    let project_id: u64 = store.projects[i].id;
    let num_frames: u32 = store.projects[i].num_frames;
    proof {
        assert(s.projects[i as int] == store.projects@[i as int]@);
        lemma_project_index(s.projects, s.ids.project, i as int);
        lemma_grid_bound(v.beats_frames, num_frames as nat);
    }
    let beats: Vec<u32> = beat_grid(&info.beats_frames, num_frames);
    delete_project_songs(store, project_id);
    let ghost mid = store@;
    let song: Song = Song {
        id: store.ids.song,
        project_id,
        owner: ctx.sender,
        name: info.name,
        mime: info.mime,
        byte_len,
        num_chunks,
        chunks_received: 0,
        duration_ms: info.duration_ms,
        fps_bits: info.fps_bits,
        beats_frames: beats,
        bpm_bits: info.bpm_bits,
        first_beat_ms: info.first_beat_ms,
        complete: false,
        created_at: ctx.timestamp,
    };
    let ghost row = song@;
    store.songs.push(song);
    store.ids.song = store.ids.song + 1;
    proof {
        assert(song_ok(row, s.projects)) by {
            assert forall|j: int, k: int|
                0 <= j < s.projects.len() && (#[trigger] s.projects[j]).id == row.project_id && 0 <= k < row.beats_frames.len() implies #[trigger] row.beats_frames[k]
                < s.projects[j].num_frames by {
                lemma_project_index(s.projects, s.ids.project, j);
            }
        }
        lemma_song_added(mid, row);
        assert(store@ =~= with_song(mid, row));
    }
    Ok(())
}

/// What the arguments of an upload say of the song.
pub open spec fn song_info(
    name: Seq<char>,
    mime: Seq<char>,
    byte_len: u64,
    num_chunks: u32,
    duration_ms: u32,
    fps_bits: u32,
    beats_frames: Seq<u32>,
    bpm_bits: u32,
    first_beat_ms: u32,
) -> SongInfoView {
    SongInfoView { name, mime, byte_len, num_chunks, duration_ms, fps_bits, beats_frames, bpm_bits, first_beat_ms }
}

/// Why `begin_song_upload` refuses: the first of these that applies.
pub open spec fn begin_error(s: StoreView, ctx: Caller, project_id: u64, byte_len: u64, num_chunks: u32) -> Option<Seq<char>> {
    if owner_error(s, ctx, project_id) is Some {
        owner_error(s, ctx, project_id)
    } else {
        song_error(byte_len, num_chunks)
    }
}

/// Replaces the project's song with a fresh, empty one; the client then sends the
/// bytes with [`append_song_chunk`]. The two tempo numbers are the bits of
/// single-precision floats.
pub fn begin_song_upload(
    store: &mut Store,
    ctx: &Caller,
    project_id: u64,
    name: String,
    mime: String,
    byte_len: u64,
    num_chunks: u32,
    duration_ms: u32,
    fps_bits: u32,
    beats_frames: Vec<u32>,
    bpm_bits: u32,
    first_beat_ms: u32,
) -> (r: Result<(), String>)
    requires
        old(store)@.wf(),
        old(store)@.ids.song < u64::MAX,
    ensures
        final(store)@.wf(),
        r is Err <==> begin_error(old(store)@, *ctx, project_id, byte_len, num_chunks) is Some,
        r matches Err(e) ==> Some(e@) == begin_error(old(store)@, *ctx, project_id, byte_len, num_chunks) && final(store)@
            == old(store)@,
        r is Ok ==> final(store)@ == song_replaced(
            old(store)@,
            *ctx,
            project_id,
            song_info(name@, mime@, byte_len, num_chunks, duration_ms, fps_bits, beats_frames@, bpm_bits, first_beat_ms),
        ),
{
    let owned: Result<usize, String> = owned_project(store, ctx, project_id);
    match owned {
        Err(e) => Err(e),
        Ok(i) => {
            let info: SongInfo = SongInfo {
                name,
                mime,
                byte_len,
                num_chunks,
                duration_ms,
                fps_bits,
                beats_frames,
                bpm_bits,
                first_beat_ms,
            };
            replace_song(store, ctx, i, info)
        },
    }
}

// ---- the audio bytes --------------------------------------------------------

/// The song already has the chunk of this index.
pub open spec fn has_chunk(cs: Seq<SongChunkView>, idx: u32) -> bool {
    exists|k: int| 0 <= k < cs.len() && (#[trigger] cs[k]).idx == idx
}

/// The tables after the song at `i` received a new chunk.
pub open spec fn with_chunk(s: StoreView, i: int, idx: u32, data: Seq<u8>) -> StoreView {
    let song = s.songs[i];
    let chunks = s.chunks.push(SongChunkView { id: s.ids.chunk, song_id: song.id, project_id: song.project_id, idx, data });
    let received = (song.chunks_received + 1) as u32;
    let complete = if received >= song.num_chunks {
        total_bytes(rows_of::<SongChunk>(chunks, song.id)) == song.byte_len
    } else {
        song.complete
    };
    StoreView {
        songs: s.songs.update(i, SongView { chunks_received: received, complete, ..song }),
        chunks,
        ids: Ids { chunk: (s.ids.chunk + 1) as u64, ..s.ids },
        ..s
    }
}

/// The tables after a chunk arrived for the song at `i`: unchanged where the song
/// has that chunk already.
pub open spec fn chunk_arrived(s: StoreView, i: int, idx: u32, data: Seq<u8>) -> StoreView {
    if has_chunk(rows_of::<SongChunk>(s.chunks, s.songs[i].id), idx) {
        s
    } else {
        with_chunk(s, i, idx, data)
    }
}

/// Why a chunk is refused: it is too long, or past the song's end.
pub open spec fn chunk_error(song: SongView, idx: u32, data: Seq<u8>) -> Option<Seq<char>> {
    if data.len() > CHUNK_SIZE {
        Some("Chunk exceeds CHUNK_SIZE"@)
    } else if idx >= song.num_chunks {
        Some("Chunk index out of range"@)
    } else {
        None
    }
}

/// Distinct numbers below `n` are at most `n`.
pub proof fn lemma_distinct_below(s: Seq<int>, n: int)
    requires
        0 <= n,
        forall|i: int| 0 <= i < s.len() ==> 0 <= #[trigger] s[i] < n,
        forall|i: int, j: int| 0 <= i < j < s.len() ==> #[trigger] s[i] != #[trigger] s[j],
    ensures
        s.len() <= n,
{
    vstd::set_lib::lemma_int_range(0, n);
    s.unique_seq_to_set();
    assert(s.to_set().subset_of(vstd::set_lib::set_int_range(0, n)));
    vstd::set_lib::lemma_len_subset(s.to_set(), vstd::set_lib::set_int_range(0, n));
}

/// While an index is missing, fewer chunks than the song needs have arrived.
pub proof fn lemma_received_bound(song: SongView, cs: Seq<SongChunkView>)
    requires
        song_chunks_ok(song, cs),
    ensures
        song.chunks_received <= song.num_chunks,
        forall|idx: u32| idx < song.num_chunks && !#[trigger] has_chunk(cs, idx) ==> song.chunks_received < song.num_chunks,
{
    let s = Seq::new(cs.len(), |k: int| cs[k].idx as int);
    lemma_distinct_below(s, song.num_chunks as int);
    assert forall|idx: u32| idx < song.num_chunks && !#[trigger] has_chunk(cs, idx) implies song.chunks_received < song.num_chunks by {
        let t = s.push(idx as int);
        assert forall|i: int, j: int| 0 <= i < j < t.len() implies #[trigger] t[i] != #[trigger] t[j] by {
            if j < s.len() {
                assert(cs[i].idx != cs[j].idx);
            } else {
                assert(cs[i].idx != idx);
            }
        }
        lemma_distinct_below(t, song.num_chunks as int);
    }
}

proof fn lemma_total_bound(cs: Seq<SongChunkView>)
    requires
        forall|k: int| 0 <= k < cs.len() ==> (#[trigger] cs[k]).data.len() <= CHUNK_SIZE,
    ensures
        total_bytes(cs) <= cs.len() * CHUNK_SIZE,
    decreases cs.len(),
{
    if cs.len() > 0 {
        lemma_total_bound(cs.drop_last());
    }
}

/// A new chunk keeps what always holds.
pub proof fn lemma_chunk_added(s: StoreView, i: int, idx: u32, data: Seq<u8>)
    requires
        s.wf(),
        0 <= i < s.songs.len(),
        s.ids.chunk < u64::MAX,
        idx < s.songs[i].num_chunks,
        data.len() <= CHUNK_SIZE,
        !has_chunk(rows_of::<SongChunk>(s.chunks, s.songs[i].id), idx),
    ensures
        with_chunk(s, i, idx, data).wf(),
        s.songs[i].chunks_received < s.songs[i].num_chunks <= 96,
{
    let t = with_chunk(s, i, idx, data);
    let song = s.songs[i];
    let now = t.songs[i];
    let c = t.chunks.last();
    let cs = rows_of::<SongChunk>(s.chunks, song.id);
    assert(song_chunks_ok(song, cs));
    lemma_received_bound(song, cs);
    assert(song_ok(song, s.projects));
    lemma_append_ids::<SongChunk>(s.chunks, seq![c], s.ids.chunk, t.ids.chunk);
    assert(s.chunks + seq![c] =~= t.chunks);
    lemma_append_rows::<SongChunk>(s.chunks, seq![c], song.id);
    let ds = rows_of::<SongChunk>(t.chunks, song.id);
    assert(ds =~= cs.push(c));
    assert(ids_ok::<Song>(t.songs, t.ids.song)) by {
        assert forall|a: int| 0 <= a < t.songs.len() implies 1 <= Song::row_id(#[trigger] t.songs[a]) < t.ids.song by {
            assert(Song::row_id(s.songs[a]) == Song::row_id(t.songs[a]));
        }
        assert forall|a: int, b: int| 0 <= a < b < t.songs.len() implies Song::row_id(#[trigger] t.songs[a]) < Song::row_id(
            #[trigger] t.songs[b],
        ) by {
            assert(Song::row_id(s.songs[a]) < Song::row_id(s.songs[b]));
        }
    }
    assert(crate::store::belong::<Song>(t.songs, t.projects)) by {
        assert forall|a: int| 0 <= a < t.songs.len() implies has_project(t.projects, Song::row_parent(#[trigger] t.songs[a])) by {
            assert(has_project(s.projects, Song::row_parent(s.songs[a])));
        }
    }
    assert(songs_ok(t.songs, t.projects)) by {
        assert forall|a: int| 0 <= a < t.songs.len() implies song_ok(#[trigger] t.songs[a], t.projects) by {
            assert(song_ok(s.songs[a], s.projects));
        }
        assert forall|a: int, b: int| 0 <= a < b < t.songs.len() implies (#[trigger] t.songs[a]).project_id != (#[trigger] t.songs[b]).project_id by {
            assert(s.songs[a].project_id != s.songs[b].project_id);
        }
    }
    assert(chunks_ok(t.songs, t.chunks)) by {
        assert forall|a: int| 0 <= a < t.chunks.len() implies has_song(t.songs, (#[trigger] t.chunks[a]).song_id) by {
            if a < s.chunks.len() {
                assert(t.chunks[a] == s.chunks[a]);
                assert(has_song(s.songs, s.chunks[a].song_id));
                let m = song_index(s.songs, s.chunks[a].song_id);
                assert(t.songs[m].id == s.songs[m].id);
            } else {
                assert(t.songs[i].id == song.id);
            }
        }
        assert forall|a: int| 0 <= a < t.songs.len() implies song_chunks_ok(#[trigger] t.songs[a], rows_of::<SongChunk>(t.chunks, t.songs[a].id)) by {
            if a != i {
                assert(t.songs[a] == s.songs[a]);
                lemma_song_index(s.songs, s.ids.song, a);
                lemma_song_index(s.songs, s.ids.song, i);
                assert(song_chunks_ok(s.songs[a], rows_of::<SongChunk>(s.chunks, s.songs[a].id)));
            } else {
                assert forall|j: int, k: int| 0 <= j < k < ds.len() implies (#[trigger] ds[j]).idx != (#[trigger] ds[k]).idx by {
                    assert(ds[j] == cs[j]);
                    if k < cs.len() {
                        assert(ds[k] == cs[k]);
                    }
                }
                assert forall|k: int|
                    0 <= k < ds.len() implies (#[trigger] ds[k]).project_id == now.project_id && ds[k].idx < now.num_chunks && ds[k].data.len()
                    <= CHUNK_SIZE by {
                    if k < cs.len() {
                        assert(ds[k] == cs[k]);
                    }
                }
            }
        }
    }
}

/// The bytes of a song's chunks in the first `n` rows are at most all its bytes.
proof fn lemma_total_prefix(chunks: Seq<SongChunkView>, id: u64, n: int)
    requires
        0 <= n <= chunks.len(),
    ensures
        total_bytes(rows_of::<SongChunk>(chunks.take(n), id)) <= total_bytes(rows_of::<SongChunk>(chunks, id)),
    decreases chunks.len() - n,
{
    if n == chunks.len() {
        assert(chunks.take(n) =~= chunks);
    } else {
        lemma_total_prefix(chunks, id, n + 1);
        assert(chunks.take(n + 1) =~= chunks.take(n).push(chunks[n]));
        lemma_rows_of_push::<SongChunk>(chunks.take(n), chunks[n], id);
        let r = rows_of::<SongChunk>(chunks.take(n), id);
        assert(r.push(chunks[n]).drop_last() =~= r);
    }
}

impl Store {
    /// Whether a song has the chunk of this index.
    fn chunk_present(&self, song_id: u64, idx: u32) -> (r: bool)
        ensures
            r == has_chunk(rows_of::<SongChunk>(self@.chunks, song_id), idx),
    {
        let ghost cs = rows_of::<SongChunk>(self@.chunks, song_id);
        proof {
            lemma_rows_of::<SongChunk>(self@.chunks, song_id);
        }
        let mut i: usize = 0;
        while i < self.chunks.len()
            invariant
                i <= self.chunks@.len(),
                cs == rows_of::<SongChunk>(self@.chunks, song_id),
                forall|j: int|
                    0 <= j < self@.chunks.len() && SongChunk::row_parent(#[trigger] self@.chunks[j]) == song_id ==> cs.contains(
                        self@.chunks[j],
                    ),
                forall|j: int| 0 <= j < i ==> (#[trigger] self@.chunks[j]).song_id != song_id || self@.chunks[j].idx != idx,
            decreases self.chunks.len() - i,
        {
            if self.chunks[i].song_id == song_id && self.chunks[i].idx == idx {
                proof {
                    assert(SongChunk::row_parent(self@.chunks[i as int]) == song_id);
                    assert(cs.contains(self@.chunks[i as int]));
                    let k = choose|k: int| 0 <= k < cs.len() && cs[k] == self@.chunks[i as int];
                    assert(cs[k].idx == idx);
                }
                return true;
            }
            assert(self@.chunks[i as int].song_id != song_id || self@.chunks[i as int].idx != idx);
            i = i + 1;
        }
        proof {
            if has_chunk(cs, idx) {
                let k = choose|k: int| 0 <= k < cs.len() && (#[trigger] cs[k]).idx == idx;
                assert(SongChunk::row_parent(cs[k]) == song_id);
                assert(self@.chunks.contains(cs[k]));
                let j = choose|j: int| 0 <= j < self@.chunks.len() && self@.chunks[j] == cs[k];
                assert(self@.chunks[j].song_id != song_id || self@.chunks[j].idx != idx);
            }
        }
        false
    }

    /// The bytes of a song's chunks together.
    fn chunk_bytes(&self, song_id: u64) -> (r: u64)
        requires
            total_bytes(rows_of::<SongChunk>(self@.chunks, song_id)) <= u64::MAX,
        ensures
            r == total_bytes(rows_of::<SongChunk>(self@.chunks, song_id)),
    {
        let ghost all = self@.chunks;
        let mut total: u64 = 0;
        let mut i: usize = 0;
        proof {
            reveal(Seq::filter);
            assert(all.take(0) =~= Seq::<SongChunkView>::empty());
        }
        while i < self.chunks.len()
            invariant
                i <= self.chunks@.len(),
                all == self@.chunks,
                total_bytes(rows_of::<SongChunk>(all, song_id)) <= u64::MAX,
                total == total_bytes(rows_of::<SongChunk>(all.take(i as int), song_id)),
            decreases self.chunks.len() - i,
        {
            let c: &SongChunk = &self.chunks[i];
            proof {
                let p = all.take(i as int);
                assert(all[i as int] == c@);
                assert(all.take(i + 1) =~= p.push(c@));
                lemma_rows_of_push::<SongChunk>(p, c@, song_id);
                let r = rows_of::<SongChunk>(p, song_id);
                assert(r.push(c@).drop_last() =~= r);
                lemma_total_prefix(all, song_id, i + 1);
            }
            if c.song_id == song_id {
                total = total + c.data.len() as u64;
            }
            i = i + 1;
        }
        assert(all.take(all.len() as int) =~= all);
        total
    }
}

/// Takes one chunk for the song at `i`.
pub fn store_chunk(store: &mut Store, i: usize, idx: u32, data: Vec<u8>) -> (r: Result<(), String>)
    requires
        old(store)@.wf(),
        i < old(store)@.songs.len(),
        old(store)@.ids.chunk < u64::MAX,
    ensures
        final(store)@.wf(),
        r is Err <==> chunk_error(old(store)@.songs[i as int], idx, data@) is Some,
        r matches Err(e) ==> Some(e@) == chunk_error(old(store)@.songs[i as int], idx, data@) && final(store)@ == old(store)@,
        r is Ok ==> final(store)@ == chunk_arrived(old(store)@, i as int, idx, data@),
{
    let mut song: Song = store.songs[i].clone();
    let ghost s = store@;
    assert(s.songs[i as int] == song@);
    if data.len() > CHUNK_SIZE {
        return Err("Chunk exceeds CHUNK_SIZE".to_owned());
    }
    if idx >= song.num_chunks {
        return Err("Chunk index out of range".to_owned());
    }
    // A chunk that is already there is ignored, so that a retry is harmless.
    if store.chunk_present(song.id, idx) {
        return Ok(());
    }
    proof {
        lemma_chunk_added(s, i as int, idx, data@);
    }
    let ghost t = with_chunk(s, i as int, idx, data@);
    store.chunks.push(SongChunk { id: store.ids.chunk, song_id: song.id, project_id: song.project_id, idx, data });
    store.ids.chunk = store.ids.chunk + 1;
    assert(store@.chunks =~= t.chunks);
    song.chunks_received = song.chunks_received + 1;
    if song.chunks_received >= song.num_chunks {
        proof {
            let cs = rows_of::<SongChunk>(t.chunks, song.id);
            assert(song_chunks_ok(t.songs[i as int], rows_of::<SongChunk>(t.chunks, t.songs[i as int].id)));
            lemma_total_bound(cs);
            assert(cs.len() * CHUNK_SIZE <= 97 * CHUNK_SIZE) by (nonlinear_arith)
                requires
                    cs.len() <= 97,
            ;
        }
        let total: u64 = store.chunk_bytes(song.id);
        song.complete = total == song.byte_len;
    }
    let ghost row = song@;
    store.songs.set(i, song);
    proof {
        assert(store@.songs =~= t.songs);
        assert(store@ =~= t);
    }
    Ok(())
}

/// Why `append_song_chunk` refuses: the first of these that applies.
pub open spec fn append_chunk_error(s: StoreView, ctx: Caller, song_id: u64, idx: u32, data: Seq<u8>) -> Option<Seq<char>> {
    if !has_song(s.songs, song_id) {
        Some("Song not found"@)
    } else if s.song(song_id).owner != ctx.sender {
        Some("You do not own this song"@)
    } else {
        chunk_error(s.song(song_id), idx, data)
    }
}

/// Appends one audio chunk to a song upload in progress.
pub fn append_song_chunk(store: &mut Store, ctx: &Caller, song_id: u64, idx: u32, data: Vec<u8>) -> (r: Result<(), String>)
    requires
        old(store)@.wf(),
        old(store)@.ids.chunk < u64::MAX,
    ensures
        final(store)@.wf(),
        r is Err <==> append_chunk_error(old(store)@, *ctx, song_id, idx, data@) is Some,
        r matches Err(e) ==> Some(e@) == append_chunk_error(old(store)@, *ctx, song_id, idx, data@) && final(store)@ == old(store)@,
        r is Ok ==> final(store)@ == chunk_arrived(old(store)@, song_index(old(store)@.songs, song_id), idx, data@),
{
    let found: Option<usize> = store.find_song(song_id);
    match found {
        None => Err("Song not found".to_owned()),
        Some(i) => {
            assert(store@.songs[i as int] == store.songs@[i as int]@);
            if store.songs[i].owner != ctx.sender {
                return Err("You do not own this song".to_owned());
            }
            store_chunk(store, i, idx, data)
        },
    }
}

} // verus!
