//! Copying a project, template or not, into a fresh one that the caller owns.
use crate::projects::{lemma_belong_push, lemma_fresh_rows};
use crate::rows::{
    Edit, LaserKeyframe, LaserKeyframeView, Project, ProjectView, ProjectorKeyframe, Song, SongChunk, SongChunkView, SongView,
    TurretKeyframe,
};
use crate::songs::{has_song_of, lemma_fresh_chunks, song_index_of};
use crate::store::{
    belong, chunks_ok, has_project, has_song, ids_ok, lemma_append_ids, lemma_append_rows, lemma_project_index, lemma_rows_of,
    lemma_rows_of_push, lemma_views_push, log_ok, logs_ok, project_index, row_views, rows_copied, rows_of, song_chunks_ok,
    song_index, song_ok, songs_ok, total_bytes, Caller, CopiedRow, Ids, Row, Store, StoreView, Target,
};
use crate::text::{chars_of, push_str, text_of};
use vstd::prelude::*;

verus! {

broadcast use {vstd::seq::group_seq_axioms, vstd::string::group_string_axioms};

impl CopiedRow for Edit {
    open spec fn row_copied(v: Edit, id: u64, to: Target) -> Edit {
        Edit { id, project_id: to.project, author: to.author, created_at: to.at, ..v }
    }

    open spec fn target_parent(to: Target) -> u64 {
        to.project
    }

    proof fn copied_keys(v: Edit, id: u64, to: Target) {
    }

    fn copied(&self, id: u64, to: Target) -> (r: Edit) {
        Edit { id, project_id: to.project, author: to.author, created_at: to.at, ..*self }
    }
}

impl CopiedRow for LaserKeyframe {
    open spec fn row_copied(v: LaserKeyframeView, id: u64, to: Target) -> LaserKeyframeView {
        LaserKeyframeView { id, project_id: to.project, ..v }
    }

    open spec fn target_parent(to: Target) -> u64 {
        to.project
    }

    proof fn copied_keys(v: LaserKeyframeView, id: u64, to: Target) {
    }

    fn copied(&self, id: u64, to: Target) -> (r: LaserKeyframe) {
        let mut r: LaserKeyframe = self.clone();
        r.id = id;
        r.project_id = to.project;
        r
    }
}

impl CopiedRow for ProjectorKeyframe {
    open spec fn row_copied(v: ProjectorKeyframe, id: u64, to: Target) -> ProjectorKeyframe {
        ProjectorKeyframe { id, project_id: to.project, ..v }
    }

    open spec fn target_parent(to: Target) -> u64 {
        to.project
    }

    proof fn copied_keys(v: ProjectorKeyframe, id: u64, to: Target) {
    }

    fn copied(&self, id: u64, to: Target) -> (r: ProjectorKeyframe) {
        ProjectorKeyframe { id, project_id: to.project, ..*self }
    }
}

impl CopiedRow for TurretKeyframe {
    open spec fn row_copied(v: TurretKeyframe, id: u64, to: Target) -> TurretKeyframe {
        TurretKeyframe { id, project_id: to.project, ..v }
    }

    open spec fn target_parent(to: Target) -> u64 {
        to.project
    }

    proof fn copied_keys(v: TurretKeyframe, id: u64, to: Target) {
    }

    fn copied(&self, id: u64, to: Target) -> (r: TurretKeyframe) {
        TurretKeyframe { id, project_id: to.project, ..*self }
    }
}

impl CopiedRow for SongChunk {
    open spec fn row_copied(v: SongChunkView, id: u64, to: Target) -> SongChunkView {
        SongChunkView { id, song_id: to.song, project_id: to.project, ..v }
    }

    open spec fn target_parent(to: Target) -> u64 {
        to.song
    }

    proof fn copied_keys(v: SongChunkView, id: u64, to: Target) {
    }

    fn copied(&self, id: u64, to: Target) -> (r: SongChunk) {
        let mut r: SongChunk = self.clone();
        r.id = id;
        r.song_id = to.song;
        r.project_id = to.project;
        r
    }
}

/// Appends copies of the rows of `from`, with ids counted up from `next`, and
/// returns the id after the last.
fn copy_rows<T: CopiedRow>(rows: &mut Vec<T>, from: u64, next: u64, to: Target) -> (r: u64)
    requires
        next + rows_of::<T>(row_views(old(rows)@), from).len() <= u64::MAX,
    ensures
        row_views(final(rows)@) == row_views(old(rows)@) + rows_copied::<T>(row_views(old(rows)@), from, next, to),
        r == next + rows_of::<T>(row_views(old(rows)@), from).len(),
{
    let ghost all = row_views(rows@);
    let ghost total = rows_of::<T>(all, from).len();
    let n: usize = rows.len();
    let mut id: u64 = next;
    let mut i: usize = 0;
    proof {
        reveal(Seq::filter);
        assert(all.take(0) =~= Seq::<T::V>::empty());
        assert(row_views(rows@) =~= all + rows_copied::<T>(all.take(0), from, next, to));
    }
    while i < n
        invariant
            i <= n,
            n == all.len(),
            rows@.len() >= n,
            total == rows_of::<T>(all, from).len(),
            next + total <= u64::MAX,
            id == next + rows_of::<T>(all.take(i as int), from).len(),
            row_views(rows@) == all + rows_copied::<T>(all.take(i as int), from, next, to),
        decreases n - i,
    {
        let ghost p = all.take(i as int);
        assert(row_views(rows@)[i as int] == rows@[i as int]@);
        assert(rows@[i as int]@ == all[i as int]);
        proof {
            assert(all.take(i + 1) =~= p.push(all[i as int]));
            lemma_rows_of_push::<T>(p, all[i as int], from);
            lemma_prefix_count::<T>(all, from, i + 1);
        }
        if rows[i].parent() == from {
            let copy: T = rows[i].copied(id, to);
            let ghost before = rows@;
            let ghost c = copy@;
            rows.push(copy);
            proof {
                lemma_views_push(before, rows@.last());
                let done = rows_of::<T>(p, from);
                assert(rows_copied::<T>(p.push(all[i as int]), from, next, to) =~= rows_copied::<T>(p, from, next, to).push(c));
                assert(row_views(rows@) =~= all + rows_copied::<T>(all.take(i + 1), from, next, to));
            }
            id = id + 1;
        }
        i = i + 1;
    }
    assert(all.take(n as int) =~= all);
    id
}

proof fn lemma_prefix_count<T: Row>(s: Seq<T::V>, parent: u64, n: int)
    requires
        0 <= n <= s.len(),
    ensures
        rows_of::<T>(s.take(n), parent).len() <= rows_of::<T>(s, parent).len(),
    decreases s.len() - n,
{
    if n == s.len() {
        assert(s.take(n) =~= s);
    } else {
        lemma_prefix_count::<T>(s, parent, n + 1);
        assert(s.take(n + 1) =~= s.take(n).push(s[n]));
        lemma_rows_of_push::<T>(s.take(n), s[n], parent);
    }
}

/// The copy of a project's row.
pub open spec fn project_copied(s: StoreView, ctx: Caller, src: ProjectView) -> ProjectView {
    ProjectView {
        id: s.ids.project,
        owner: ctx.sender,
        name: src.name + " (copy)"@,
        created_at: ctx.timestamp,
        is_template: false,
        is_blueprint: false,
        ..src
    }
}

/// Where the copies of this call go.
pub open spec fn fork_target(s: StoreView, ctx: Caller) -> Target {
    Target { project: s.ids.project, song: s.ids.song, author: ctx.sender, at: ctx.timestamp }
}

/// The tables after a project's row, log and fixture keyframes are copied.
pub open spec fn show_copied(s: StoreView, ctx: Caller, id: u64) -> StoreView {
    let to = fork_target(s, ctx);
    StoreView {
        projects: s.projects.push(project_copied(s, ctx, s.project(id))),
        edits: s.edits + rows_copied::<Edit>(s.edits, id, s.ids.edit, to),
        lasers: s.lasers + rows_copied::<LaserKeyframe>(s.lasers, id, s.ids.laser, to),
        projectors: s.projectors + rows_copied::<ProjectorKeyframe>(s.projectors, id, s.ids.projector, to),
        turrets: s.turrets + rows_copied::<TurretKeyframe>(s.turrets, id, s.ids.turret, to),
        ids: Ids {
            project: (s.ids.project + 1) as u64,
            edit: (s.ids.edit + rows_of::<Edit>(s.edits, id).len()) as u64,
            laser: (s.ids.laser + rows_of::<LaserKeyframe>(s.lasers, id).len()) as u64,
            projector: (s.ids.projector + rows_of::<ProjectorKeyframe>(s.projectors, id).len()) as u64,
            turret: (s.ids.turret + rows_of::<TurretKeyframe>(s.turrets, id).len()) as u64,
            ..s.ids
        },
        ..s
    }
}

/// The copy of a song's row.
pub open spec fn song_copied(s: StoreView, ctx: Caller, song: SongView) -> SongView {
    SongView { id: s.ids.song, project_id: s.ids.project, owner: ctx.sender, created_at: ctx.timestamp, ..song }
}

/// The tables after a project is copied whole: its row, its log, its fixture
/// keyframes, its song and the song's chunks.
pub open spec fn forked(s: StoreView, ctx: Caller, id: u64) -> StoreView {
    let t = show_copied(s, ctx, id);
    if has_song_of(s.songs, id) {
        let song = s.songs[song_index_of(s.songs, id)];
        StoreView {
            songs: t.songs.push(song_copied(s, ctx, song)),
            chunks: t.chunks + rows_copied::<SongChunk>(s.chunks, song.id, s.ids.chunk, fork_target(s, ctx)),
            ids: Ids {
                song: (s.ids.song + 1) as u64,
                chunk: (s.ids.chunk + rows_of::<SongChunk>(s.chunks, song.id).len()) as u64,
                ..t.ids
            },
            ..t
        }
    } else {
        t
    }
}

/// There are ids left for copies of all that belongs to the project.
pub open spec fn room_for_copy(s: StoreView, id: u64) -> bool {
    &&& s.ids.project < u64::MAX
    &&& s.ids.edit + rows_of::<Edit>(s.edits, id).len() <= u64::MAX
    &&& s.ids.laser + rows_of::<LaserKeyframe>(s.lasers, id).len() <= u64::MAX
    &&& s.ids.projector + rows_of::<ProjectorKeyframe>(s.projectors, id).len() <= u64::MAX
    &&& s.ids.turret + rows_of::<TurretKeyframe>(s.turrets, id).len() <= u64::MAX
    &&& has_song_of(s.songs, id) ==> {
        &&& s.ids.song < u64::MAX
        &&& s.ids.chunk + rows_of::<SongChunk>(s.chunks, s.songs[song_index_of(s.songs, id)].id).len() <= u64::MAX
    }
}

/// Copied rows keep the order of ids, belong to the target, and leave every
/// other parent's rows alone.
proof fn lemma_copied<T: CopiedRow>(s: Seq<T::V>, from: u64, next: u64, to: Target, end: u64)
    requires
        ids_ok::<T>(s, next),
        end == next + rows_of::<T>(s, from).len(),
    ensures
        ids_ok::<T>(s + rows_copied::<T>(s, from, next, to), end),
        forall|i: int|
            0 <= i < rows_copied::<T>(s, from, next, to).len() ==> T::row_parent(#[trigger] rows_copied::<T>(s, from, next, to)[i])
                == T::target_parent(to),
        rows_of::<T>(s + rows_copied::<T>(s, from, next, to), T::target_parent(to)) == rows_of::<T>(s, T::target_parent(to))
            + rows_copied::<T>(s, from, next, to),
        forall|q: u64|
            q != T::target_parent(to) ==> #[trigger] rows_of::<T>(s + rows_copied::<T>(s, from, next, to), q) == rows_of::<T>(s, q),
{
    let more = rows_copied::<T>(s, from, next, to);
    let src = rows_of::<T>(s, from);
    assert forall|i: int| 0 <= i < more.len() implies T::row_id(#[trigger] more[i]) == next + i && T::row_parent(more[i])
        == T::target_parent(to) by {
        T::copied_keys(src[i], (next + i) as u64, to);
    }
    lemma_append_ids::<T>(s, more, next, end);
    lemma_append_rows::<T>(s, more, T::target_parent(to));
}

proof fn lemma_belong_copied<T: CopiedRow>(rows: Seq<T::V>, more: Seq<T::V>, ps: Seq<ProjectView>, p: ProjectView)
    requires
        belong::<T>(rows, ps),
        forall|i: int| 0 <= i < more.len() ==> T::row_parent(#[trigger] more[i]) == p.id,
    ensures
        belong::<T>(rows + more, ps.push(p)),
{
    lemma_belong_push::<T>(rows, ps, p);
    let t = rows + more;
    let qs = ps.push(p);
    assert(qs[ps.len() as int].id == p.id);
    assert forall|i: int| 0 <= i < t.len() implies has_project(qs, T::row_parent(#[trigger] t[i])) by {
        if i < rows.len() {
            assert(t[i] == rows[i]);
        } else {
            assert(t[i] == more[i - rows.len()]);
        }
    }
}

/// Copying the row, the log and the keyframes keeps what always holds.
proof fn lemma_show_copied(s: StoreView, ctx: Caller, id: u64)
    requires
        s.wf(),
        has_project(s.projects, id),
        room_for_copy(s, id),
    ensures
        show_copied(s, ctx, id).wf(),
{
    let t = show_copied(s, ctx, id);
    let to = fork_target(s, ctx);
    let g = project_index(s.projects, id);
    let src = s.projects[g];
    let p = project_copied(s, ctx, src);
    lemma_append_ids::<Project>(s.projects, seq![p], s.ids.project, t.ids.project);
    assert(s.projects + seq![p] =~= t.projects);
    lemma_copied::<Edit>(s.edits, id, s.ids.edit, to, t.ids.edit);
    lemma_copied::<LaserKeyframe>(s.lasers, id, s.ids.laser, to, t.ids.laser);
    lemma_copied::<ProjectorKeyframe>(s.projectors, id, s.ids.projector, to, t.ids.projector);
    lemma_copied::<TurretKeyframe>(s.turrets, id, s.ids.turret, to, t.ids.turret);
    lemma_belong_copied::<Edit>(s.edits, rows_copied::<Edit>(s.edits, id, s.ids.edit, to), s.projects, p);
    lemma_belong_copied::<LaserKeyframe>(s.lasers, rows_copied::<LaserKeyframe>(s.lasers, id, s.ids.laser, to), s.projects, p);
    lemma_belong_copied::<ProjectorKeyframe>(
        s.projectors,
        rows_copied::<ProjectorKeyframe>(s.projectors, id, s.ids.projector, to),
        s.projects,
        p,
    );
    lemma_belong_copied::<TurretKeyframe>(s.turrets, rows_copied::<TurretKeyframe>(s.turrets, id, s.ids.turret, to), s.projects, p);
    lemma_belong_push::<Song>(s.songs, s.projects, p);
    lemma_fresh_rows::<Edit>(s.edits, s.projects, s.ids.project);
    lemma_fresh_rows::<Song>(s.songs, s.projects, s.ids.project);
    let log = rows_of::<Edit>(s.edits, id);
    let copies = rows_copied::<Edit>(s.edits, id, s.ids.edit, to);
    assert(log_ok(log, src)) by {
        assert(log_ok(rows_of::<Edit>(s.edits, s.projects[g].id), s.projects[g]));
    }
    assert(rows_of::<Edit>(t.edits, p.id) =~= copies);
    assert(logs_ok(t.projects, t.edits)) by {
        assert forall|i: int| 0 <= i < t.projects.len() implies log_ok(rows_of::<Edit>(t.edits, (#[trigger] t.projects[i]).id), t.projects[i]) by {
            if i < s.projects.len() {
                assert(t.projects[i] == s.projects[i]);
                assert(Project::row_id(s.projects[i]) < s.ids.project);
                assert(log_ok(rows_of::<Edit>(s.edits, s.projects[i].id), s.projects[i]));
            } else {
                assert(log_ok(copies, p)) by {
                    assert forall|k: int|
                        0 <= k < copies.len() implies (#[trigger] copies[k]).seq == k + 1 && crate::store::in_range(
                        p,
                        copies[k].light,
                        copies[k].frame,
                        copies[k].state,
                    ) by {
                        assert(log[k].seq == k + 1);
                    }
                }
            }
        }
    }
    assert(songs_ok(t.songs, t.projects)) by {
        assert forall|i: int| 0 <= i < t.songs.len() implies song_ok(#[trigger] t.songs[i], t.projects) by {
            let song = s.songs[i];
            assert(song_ok(song, s.projects));
            assert(Song::row_parent(s.songs[i]) < s.ids.project);
            assert forall|j: int, k: int|
                0 <= j < t.projects.len() && (#[trigger] t.projects[j]).id == song.project_id && 0 <= k < song.beats_frames.len() implies #[trigger] song.beats_frames[k]
                < t.projects[j].num_frames by {
                assert(j < s.projects.len());
                assert(s.projects[j] == t.projects[j]);
            }
        }
    }
    assert forall|i: int, j: int|
        0 <= i < j < t.projects.len() && (#[trigger] t.projects[i]).is_template && (#[trigger] t.projects[j]).is_template implies t.projects[i].name
        != t.projects[j].name by {
        assert(t.projects[i] == s.projects[i]);
        if j < s.projects.len() {
            assert(t.projects[j] == s.projects[j]);
        }
    }
    assert forall|i: int|
        0 <= i < t.projects.len() implies 1 <= (#[trigger] t.projects[i]).num_lights <= 512 && 1 <= t.projects[i].num_frames <= 100_000 by {
        if i < s.projects.len() {
            assert(t.projects[i] == s.projects[i]);
        } else {
            assert(1 <= s.projects[g].num_lights <= 512);
        }
    }
}

/// Copied chunks hold as many bytes.
proof fn lemma_total_copied(cs: Seq<SongChunkView>, ds: Seq<SongChunkView>)
    requires
        cs.len() == ds.len(),
        forall|k: int| 0 <= k < cs.len() ==> (#[trigger] cs[k]).data == ds[k].data,
    ensures
        total_bytes(cs) == total_bytes(ds),
    decreases cs.len(),
{
    if cs.len() > 0 {
        lemma_total_copied(cs.drop_last(), ds.drop_last());
        assert(cs[cs.len() - 1].data == ds[cs.len() - 1].data);
    }
}

/// A song's copy fits the copied project, which has no other.
proof fn lemma_copied_song(s: StoreView, ctx: Caller, id: u64)
    requires
        s.wf(),
        has_project(s.projects, id),
        room_for_copy(s, id),
        show_copied(s, ctx, id).wf(),
        has_song_of(s.songs, id),
    ensures
        ids_ok::<Song>(forked(s, ctx, id).songs, forked(s, ctx, id).ids.song),
        belong::<Song>(forked(s, ctx, id).songs, forked(s, ctx, id).projects),
        songs_ok(forked(s, ctx, id).songs, forked(s, ctx, id).projects),
{
    let a = show_copied(s, ctx, id);
    let t = forked(s, ctx, id);
    let song = s.songs[song_index_of(s.songs, id)];
    let c = song_copied(s, ctx, song);
    let pi = project_index(s.projects, id);
    let np = s.projects.len() as int;
    lemma_append_ids::<Song>(s.songs, seq![c], s.ids.song, t.ids.song);
    assert(s.songs + seq![c] =~= t.songs);
    lemma_fresh_rows::<Song>(s.songs, s.projects, s.ids.project);
    assert(song_ok(song, s.projects));
    assert(a.projects[np].id == s.ids.project);
    assert forall|i: int| 0 <= i < t.songs.len() implies has_project(t.projects, Song::row_parent(#[trigger] t.songs[i])) by {
        if i < s.songs.len() {
            assert(t.songs[i] == a.songs[i]);
            assert(has_project(a.projects, Song::row_parent(a.songs[i])));
        } else {
            assert(t.projects[np].id == c.project_id);
        }
    }
    assert forall|i: int| 0 <= i < t.songs.len() implies song_ok(#[trigger] t.songs[i], t.projects) by {
        if i < s.songs.len() {
            assert(t.songs[i] == a.songs[i]);
            assert(song_ok(a.songs[i], a.projects));
        } else {
            assert forall|j: int, k: int|
                0 <= j < t.projects.len() && (#[trigger] t.projects[j]).id == c.project_id && 0 <= k < c.beats_frames.len() implies #[trigger] c.beats_frames[k]
                < t.projects[j].num_frames by {
                lemma_project_index(t.projects, t.ids.project, j);
                lemma_project_index(t.projects, t.ids.project, np);
                assert(s.projects[pi].id == song.project_id);
                assert(song.beats_frames[k] < s.projects[pi].num_frames);
            }
        }
    }
    assert forall|i: int, j: int| 0 <= i < j < t.songs.len() implies (#[trigger] t.songs[i]).project_id != (#[trigger] t.songs[j]).project_id by {
        assert(t.songs[i] == s.songs[i]);
        if j < s.songs.len() {
            assert(t.songs[j] == s.songs[j]);
        } else {
            assert(Song::row_parent(s.songs[i]) < s.ids.project);
        }
    }
}

/// A song's copied chunks fit its copy.
proof fn lemma_copied_chunks(s: StoreView, ctx: Caller, id: u64)
    requires
        s.wf(),
        room_for_copy(s, id),
        has_song_of(s.songs, id),
    ensures
        ids_ok::<SongChunk>(forked(s, ctx, id).chunks, forked(s, ctx, id).ids.chunk),
        chunks_ok(forked(s, ctx, id).songs, forked(s, ctx, id).chunks),
        rows_of::<SongChunk>(forked(s, ctx, id).chunks, s.ids.song) == rows_copied::<SongChunk>(
            s.chunks,
            s.songs[song_index_of(s.songs, id)].id,
            s.ids.chunk,
            fork_target(s, ctx),
        ),
{
    let t = forked(s, ctx, id);
    let to = fork_target(s, ctx);
    let song = s.songs[song_index_of(s.songs, id)];
    let c = song_copied(s, ctx, song);
    lemma_rows_of::<SongChunk>(s.chunks, song.id);
    lemma_copied::<SongChunk>(s.chunks, song.id, s.ids.chunk, to, t.ids.chunk);
    lemma_fresh_chunks(s);
    let cs = rows_of::<SongChunk>(s.chunks, song.id);
    let ds = rows_copied::<SongChunk>(s.chunks, song.id, s.ids.chunk, to);
    assert(rows_of::<SongChunk>(t.chunks, c.id) =~= ds);
    assert(song_chunks_ok(song, cs));
    assert(t.songs =~= s.songs.push(c));
    assert forall|i: int| 0 <= i < t.chunks.len() implies has_song(t.songs, (#[trigger] t.chunks[i]).song_id) by {
        if i < s.chunks.len() {
            assert(t.chunks[i] == s.chunks[i]);
            assert(has_song(s.songs, s.chunks[i].song_id));
            let m = song_index(s.songs, s.chunks[i].song_id);
            assert(t.songs[m] == s.songs[m]);
        } else {
            assert(t.chunks[i] == ds[i - s.chunks.len()]);
            assert(t.songs[s.songs.len() as int].id == c.id);
        }
    }
    assert forall|i: int| 0 <= i < t.songs.len() implies song_chunks_ok(#[trigger] t.songs[i], rows_of::<SongChunk>(t.chunks, t.songs[i].id)) by {
        if i < s.songs.len() {
            assert(t.songs[i] == s.songs[i]);
            assert(Song::row_id(s.songs[i]) < s.ids.song);
            assert(song_chunks_ok(s.songs[i], rows_of::<SongChunk>(s.chunks, s.songs[i].id)));
        } else {
            assert forall|k: int|
                0 <= k < ds.len() implies (#[trigger] ds[k]).project_id == c.project_id && ds[k].idx < c.num_chunks && ds[k].data.len()
                <= crate::store::CHUNK_SIZE by {
                assert(cs[k].idx == ds[k].idx);
            }
            assert forall|j: int, k: int| 0 <= j < k < ds.len() implies (#[trigger] ds[j]).idx != (#[trigger] ds[k]).idx by {
                assert(cs[j].idx != cs[k].idx);
            }
            lemma_total_copied(cs, ds);
        }
    }
}

/// Copying a project keeps what always holds.
pub proof fn lemma_forked(s: StoreView, ctx: Caller, id: u64)
    requires
        s.wf(),
        has_project(s.projects, id),
        room_for_copy(s, id),
    ensures
        forked(s, ctx, id).wf(),
{
    lemma_show_copied(s, ctx, id);
    if has_song_of(s.songs, id) {
        lemma_copied_song(s, ctx, id);
        lemma_copied_chunks(s, ctx, id);
    }
}

/// Copies a project, template or not, into a fresh, editable project owned by
/// the caller: its edit log, all fixture keyframes, and its song with the chunks.
pub fn fork_project(store: &mut Store, ctx: &Caller, project_id: u64) -> (r: Result<(), String>)
    requires
        old(store)@.wf(),
        room_for_copy(old(store)@, project_id),
    ensures
        final(store)@.wf(),
        r is Err <==> !has_project(old(store)@.projects, project_id),
        r matches Err(e) ==> e@ == "Project not found"@ && final(store)@ == old(store)@,
        r is Ok ==> final(store)@ == forked(old(store)@, *ctx, project_id),
{
    let found: Option<usize> = store.find_project(project_id);
    match found {
        None => Err("Project not found".to_owned()),
        Some(i) => {
            let ghost s = store@;
            let ghost t = forked(s, *ctx, project_id);
            proof {
                lemma_forked(s, *ctx, project_id);
                assert(s.projects[i as int] == store.projects@[i as int]@);
            }
            let to: Target = Target {
                project: store.ids.project,
                song: store.ids.song,
                author: ctx.sender,
                at: ctx.timestamp,
            };
            let mut name: Vec<char> = chars_of(store.projects[i].name.as_str());
            push_str(&mut name, " (copy)");
            let src: Project = store.projects[i].clone();
            let new: Project = Project {
                id: to.project,
                owner: ctx.sender,
                name: text_of(&name),
                num_lights: src.num_lights,
                num_frames: src.num_frames,
                created_at: ctx.timestamp,
                head_seq: src.head_seq,
                is_template: false,
                is_blueprint: false,
            };
            let song: Option<usize> = store.find_song_of(project_id);
            let ghost rows = store.projects@;
            store.projects.push(new);
            store.ids.project = store.ids.project + 1;
            proof {
                lemma_views_push(rows, store.projects@.last());
            }
            store.ids.edit = copy_rows(&mut store.edits, project_id, store.ids.edit, to);
            store.ids.laser = copy_rows(&mut store.lasers, project_id, store.ids.laser, to);
            store.ids.projector = copy_rows(&mut store.projectors, project_id, store.ids.projector, to);
            store.ids.turret = copy_rows(&mut store.turrets, project_id, store.ids.turret, to);
            assert(store@ =~= show_copied(s, *ctx, project_id));
            match song {
                Some(k) => {
                    let mut copy: Song = store.songs[k].clone();
                    assert(s.songs[k as int] == store.songs@[k as int]@);
                    let old_id: u64 = copy.id;
                    copy.id = to.song;
                    copy.project_id = to.project;
                    copy.owner = ctx.sender;
                    copy.created_at = ctx.timestamp;
                    let ghost songs = store.songs@;
                    store.songs.push(copy);
                    store.ids.song = store.ids.song + 1;
                    proof {
                        lemma_views_push(songs, store.songs@.last());
                        lemma_rows_of::<SongChunk>(s.chunks, old_id);
                    }
                    store.ids.chunk = copy_rows(&mut store.chunks, old_id, store.ids.chunk, to);
                    assert(store@ =~= t);
                },
                None => {},
            }
            Ok(())
        },
    }
}

} // verus!
