//! What holds across the backend's operations.
use crate::fork::{fork_target, forked, room_for_copy};
use crate::logic::{edited, folded, law_prediction, law_time_travel, overlaid};
use crate::projects::{
    append_edit_error, lemma_edits_added, lemma_fresh_rows, lemma_head_bound, lemma_project_added, logged, new_project, with_edits,
    with_project,
};
use crate::rows::{Edit, LaserKeyframe, LightEditInput, Project, ProjectorKeyframe, Song, SongChunk, TurretKeyframe};
use crate::seeding::{has_template, lemma_template_gone, seed_chunk_error, seed_song_error, template_index, without_template};
use crate::songs::{
    append_chunk_error, begin_error, chunk_arrived, has_chunk, has_song_of, song_index_of, song_replaced, with_chunk, without_song,
    SongInfoView,
};
use crate::store::{
    has_project, has_song, lemma_append_rows, lemma_project_index, lemma_rows_of_push, lemma_rows_without, lemma_song_index, log_ok,
    project_index, rows_copied, rows_of, song_index, Caller, Row, StoreView, CHUNK_SIZE,
};
use vstd::prelude::*;

verus! {

broadcast use vstd::seq::group_seq_axioms;

/// The log is append-only: appending edits to a project leaves its log as it was
/// and adds to its end, and leaves every other project's log alone.
pub proof fn law_append_only(s: StoreView, i: int, ctx: Caller, edits: Seq<LightEditInput>, other: u64)
    requires
        s.wf(),
        0 <= i < s.projects.len(),
        s.ids.edit + edits.len() <= u64::MAX,
    ensures
        with_edits(s, i, ctx, edits).log(s.projects[i].id) == s.log(s.projects[i].id) + logged(s.projects[i], ctx, edits, s.ids.edit),
        other != s.projects[i].id ==> with_edits(s, i, ctx, edits).log(other) == s.log(other),
{
    lemma_append_rows::<Edit>(s.edits, logged(s.projects[i], ctx, edits, s.ids.edit), s.projects[i].id);
}

/// A log is numbered without gaps: its edits carry the numbers from 1 to `head_seq`,
/// each once and in order. So `head_seq` is the highest number given out and the number
/// of edits.
pub open spec fn numbered(s: StoreView) -> bool {
    forall|i: int| 0 <= i < s.projects.len() ==> numbered_log(s.log((#[trigger] s.projects[i]).id), s.projects[i].head_seq)
}

/// The edits carry the numbers from 1 to `head`, each once and in order.
pub open spec fn numbered_log(log: Seq<Edit>, head: u64) -> bool {
    &&& log.len() == head
    &&& forall|k: int| 0 <= k < log.len() ==> (#[trigger] log[k]).seq == k + 1
    &&& forall|n: u64| 1 <= n <= head ==> #[trigger] carried(log, n)
}

/// An edit of the log carries this number.
pub open spec fn carried(log: Seq<Edit>, n: u64) -> bool {
    exists|k: int| 0 <= k < log.len() && (#[trigger] log[k]).seq == n
}

/// In tables that operations left behind every log is numbered without gaps.
pub proof fn law_logs_are_numbered(s: StoreView)
    requires
        s.wf(),
    ensures
        numbered(s),
{
    assert forall|i: int| 0 <= i < s.projects.len() implies numbered_log(
        s.log((#[trigger] s.projects[i]).id),
        s.projects[i].head_seq,
    ) by {
        let log = s.log(s.projects[i].id);
        assert(log_ok(rows_of::<Edit>(s.edits, s.projects[i].id), s.projects[i]));
        assert forall|n: u64| 1 <= n <= s.projects[i].head_seq implies #[trigger] carried(log, n) by {
            assert(log[n - 1].seq == n);
        }
    }
}

/// Appending an edit keeps every log numbered without gaps, whether it is accepted or
/// refused.
pub proof fn law_append_keeps_numbers(s: StoreView, ctx: Caller, project_id: u64, light: u32, frame: u32, state: u8)
    requires
        s.wf(),
        s.ids.edit < u64::MAX,
    ensures
        numbered(s),
        append_edit_error(s, ctx, project_id, light, frame, state) is None ==> numbered(
            with_edits(s, project_index(s.projects, project_id), ctx, seq![LightEditInput { light, frame, state }]),
        ),
{
    law_logs_are_numbered(s);
    if append_edit_error(s, ctx, project_id, light, frame, state) is None {
        let i = project_index(s.projects, project_id);
        let edits = seq![LightEditInput { light, frame, state }];
        lemma_edits_added(s, i, ctx, edits);
        law_logs_are_numbered(with_edits(s, i, ctx, edits));
    }
}

/// Any past version can be reconstructed: appending edits never changes the show
/// as of an earlier edit.
pub proof fn law_past_versions_stay(s: StoreView, i: int, ctx: Caller, edits: Seq<LightEditInput>, n: u64)
    requires
        s.wf(),
        0 <= i < s.projects.len(),
        s.ids.edit + edits.len() <= u64::MAX,
        n <= s.projects[i].head_seq,
    ensures
        folded(with_edits(s, i, ctx, edits).log(s.projects[i].id), n) == folded(s.log(s.projects[i].id), n),
{
    let p = s.projects[i];
    let more = logged(p, ctx, edits, s.ids.edit);
    law_append_only(s, i, ctx, edits, p.id);
    lemma_head_bound(s, i);
    assert forall|k: int| 0 <= k < more.len() implies (#[trigger] more[k]).seq > n by {}
    law_time_travel(s.log(p.id), more, n);
}

/// One appended edit changes the newest show exactly as that edit says.
pub proof fn law_edit_takes_effect(s: StoreView, i: int, ctx: Caller, e: LightEditInput)
    requires
        s.wf(),
        0 <= i < s.projects.len(),
        s.ids.edit < u64::MAX,
    ensures
        ({
            let t = with_edits(s, i, ctx, seq![e]);
            let p = s.projects[i];
            &&& t.projects[i].head_seq == p.head_seq + 1
            &&& folded(t.log(p.id), t.projects[i].head_seq) == edited(folded(s.log(p.id), p.head_seq), e.light, e.frame, e.state)
        }),
{
    let p = s.projects[i];
    let t = with_edits(s, i, ctx, seq![e]);
    let log = s.log(p.id);
    lemma_head_bound(s, i);
    law_append_only(s, i, ctx, seq![e], p.id);
    assert(log_ok(rows_of::<Edit>(s.edits, s.projects[i].id), s.projects[i]));
    let more = logged(p, ctx, seq![e], s.ids.edit);
    assert((log + more).drop_last() =~= log);
    assert((log + more).last() == more[0]);
    lemma_fold_whole(log, p.head_seq, t.projects[i].head_seq);
}

/// Beyond the head of a log the cutoff makes no difference.
proof fn lemma_fold_whole(log: Seq<Edit>, a: u64, b: u64)
    requires
        a <= b,
        forall|k: int| 0 <= k < log.len() ==> (#[trigger] log[k]).seq <= a,
    ensures
        folded(log, a) == folded(log, b),
    decreases log.len(),
{
    if log.len() > 0 {
        lemma_fold_whole(log.drop_last(), a, b);
        assert(log[log.len() - 1].seq <= a);
    }
}

/// A copy is the same show: at every point of its history, and so now.
pub proof fn law_copy_is_same_show(s: StoreView, ctx: Caller, id: u64, n: u64)
    requires
        s.wf(),
        has_project(s.projects, id),
        room_for_copy(s, id),
    ensures
        folded(forked(s, ctx, id).log(s.ids.project), n) == folded(s.log(id), n),
        forked(s, ctx, id).log(s.ids.project).len() == s.log(id).len(),
{
    let copies = rows_copied::<Edit>(s.edits, id, s.ids.edit, fork_target(s, ctx));
    lemma_append_rows::<Edit>(s.edits, copies, s.ids.project);
    lemma_fresh_rows::<Edit>(s.edits, s.projects, s.ids.project);
    assert(forked(s, ctx, id).log(s.ids.project) =~= copies);
    lemma_fold_same(s.log(id), copies, n);
}

/// The fold looks only at positions and states.
proof fn lemma_fold_same(a: Seq<Edit>, b: Seq<Edit>, n: u64)
    requires
        a.len() == b.len(),
        forall|k: int|
            0 <= k < a.len() ==> (#[trigger] a[k]).seq == b[k].seq && a[k].light == b[k].light && a[k].frame == b[k].frame && a[k].state
                == b[k].state,
    ensures
        folded(a, n) == folded(b, n),
    decreases a.len(),
{
    if a.len() > 0 {
        lemma_fold_same(a.drop_last(), b.drop_last(), n);
        assert(a[a.len() - 1].seq == b[a.len() - 1].seq);
    }
}

/// Copying leaves the source alone: its log, its keyframes and every song.
pub proof fn law_copy_leaves_source(s: StoreView, ctx: Caller, id: u64)
    requires
        s.wf(),
        has_project(s.projects, id),
        room_for_copy(s, id),
    ensures
        ({
            let t = forked(s, ctx, id);
            &&& t.log(id) == s.log(id)
            &&& rows_of::<LaserKeyframe>(t.lasers, id) == rows_of::<LaserKeyframe>(s.lasers, id)
            &&& rows_of::<ProjectorKeyframe>(t.projectors, id) == rows_of::<ProjectorKeyframe>(s.projectors, id)
            &&& rows_of::<TurretKeyframe>(t.turrets, id) == rows_of::<TurretKeyframe>(s.turrets, id)
            &&& s.projects.is_prefix_of(t.projects)
            &&& s.songs.is_prefix_of(t.songs)
            &&& s.chunks.is_prefix_of(t.chunks)
        }),
{
    let to = fork_target(s, ctx);
    let k = project_index(s.projects, id);
    assert(Project::row_id(s.projects[k]) < s.ids.project);
    lemma_append_rows::<Edit>(s.edits, rows_copied::<Edit>(s.edits, id, s.ids.edit, to), s.ids.project);
    lemma_append_rows::<LaserKeyframe>(s.lasers, rows_copied::<LaserKeyframe>(s.lasers, id, s.ids.laser, to), s.ids.project);
    lemma_append_rows::<ProjectorKeyframe>(
        s.projectors,
        rows_copied::<ProjectorKeyframe>(s.projectors, id, s.ids.projector, to),
        s.ids.project,
    );
    lemma_append_rows::<TurretKeyframe>(s.turrets, rows_copied::<TurretKeyframe>(s.turrets, id, s.ids.turret, to), s.ids.project);
}

/// A retried chunk is harmless: what arrives again changes nothing.
pub proof fn law_chunk_retry(s: StoreView, i: int, idx: u32, data: Seq<u8>, again: Seq<u8>)
    requires
        s.wf(),
        0 <= i < s.songs.len(),
    ensures
        chunk_arrived(chunk_arrived(s, i, idx, data), i, idx, again) == chunk_arrived(s, i, idx, data),
{
    let song = s.songs[i];
    if !has_chunk(rows_of::<SongChunk>(s.chunks, song.id), idx) {
        let t = with_chunk(s, i, idx, data);
        let cs = rows_of::<SongChunk>(s.chunks, song.id);
        lemma_rows_of_push::<SongChunk>(s.chunks, t.chunks.last(), song.id);
        let ds = rows_of::<SongChunk>(t.chunks, song.id);
        assert(ds == cs.push(t.chunks.last()));
        assert(ds[cs.len() as int].idx == idx);
        assert(has_chunk(ds, idx));
        assert(t.songs[i].id == song.id);
    }
}

/// What a call that stores a chunk comes to: why it is refused, and the tables after it.
pub open spec fn chunk_appended(s: StoreView, ctx: Caller, song_id: u64, idx: u32, data: Seq<u8>) -> (Option<Seq<char>>, StoreView) {
    match append_chunk_error(s, ctx, song_id, idx, data) {
        Some(e) => (Some(e), s),
        None => (None, chunk_arrived(s, song_index(s.songs, song_id), idx, data)),
    }
}

/// A chunk is refused exactly where its song is missing or another's, it is too long, or
/// it is past the song's end; then nothing changes. One that is there already is taken
/// and changes nothing, whatever it holds this time, so that to make the call twice is
/// to make it once.
pub proof fn law_chunk_calls(s: StoreView, ctx: Caller, song_id: u64, idx: u32, data: Seq<u8>, again: Seq<u8>)
    requires
        s.wf(),
    ensures
        chunk_appended(s, ctx, song_id, idx, data).0 is Some <==> !has_song(s.songs, song_id) || s.song(song_id).owner != ctx.sender
            || data.len() > CHUNK_SIZE || idx >= s.song(song_id).num_chunks,
        chunk_appended(s, ctx, song_id, idx, data).0 is Some ==> chunk_appended(s, ctx, song_id, idx, data).1 == s,
        chunk_appended(s, ctx, song_id, idx, data).0 is None && has_chunk(rows_of::<SongChunk>(s.chunks, song_id), idx)
            ==> chunk_appended(s, ctx, song_id, idx, data).1 == s,
        chunk_appended(s, ctx, song_id, idx, data).0 is None && again.len() <= CHUNK_SIZE ==> chunk_appended(
            chunk_appended(s, ctx, song_id, idx, data).1,
            ctx,
            song_id,
            idx,
            again,
        ) == (None::<Seq<char>>, chunk_appended(s, ctx, song_id, idx, data).1),
        chunk_appended(chunk_appended(s, ctx, song_id, idx, data).1, ctx, song_id, idx, data) == chunk_appended(
            s,
            ctx,
            song_id,
            idx,
            data,
        ),
{
    if append_chunk_error(s, ctx, song_id, idx, data) is None {
        let i = song_index(s.songs, song_id);
        assert(s.songs[i].id == song_id);
        let t = chunk_arrived(s, i, idx, data);
        assert(t.songs.len() == s.songs.len());
        assert forall|k: int| 0 <= k < s.songs.len() implies (#[trigger] t.songs[k]).id == s.songs[k].id && t.songs[k].owner == s.songs[k].owner
            && t.songs[k].num_chunks == s.songs[k].num_chunks by {}
        assert(t.songs[i].id == song_id);
        let j = song_index(t.songs, song_id);
        assert(s.songs[j].id == song_id);
        lemma_song_index(s.songs, s.ids.song, i);
        lemma_song_index(s.songs, s.ids.song, j);
        law_chunk_retry(s, i, idx, data, again);
        law_chunk_retry(s, i, idx, data, data);
    }
}

/// What a call that begins an upload comes to: why it is refused, and the tables after
/// it.
pub open spec fn upload_begun(s: StoreView, ctx: Caller, project_id: u64, info: SongInfoView) -> (Option<Seq<char>>, StoreView) {
    match begin_error(s, ctx, project_id, info.byte_len, info.num_chunks) {
        Some(e) => (Some(e), s),
        None => (None, song_replaced(s, ctx, project_id, info)),
    }
}

/// What a call that begins the upload of a template's song comes to.
pub open spec fn song_seeded(s: StoreView, ctx: Caller, name: Seq<char>, info: SongInfoView) -> (Option<Seq<char>>, StoreView) {
    match seed_song_error(s, name, info.byte_len, info.num_chunks) {
        Some(e) => (Some(e), s),
        None => (None, song_replaced(s, ctx, s.projects[template_index(s.projects, name)].id, info)),
    }
}

/// To seed the song of a template that the caller owns is to upload it there.
pub proof fn law_seeded_song_is_uploaded(s: StoreView, ctx: Caller, name: Seq<char>, info: SongInfoView)
    requires
        s.wf(),
        has_template(s.projects, name),
        s.projects[template_index(s.projects, name)].owner == ctx.sender,
    ensures
        song_seeded(s, ctx, name, info) == upload_begun(s, ctx, s.projects[template_index(s.projects, name)].id, info),
{
    lemma_project_index(s.projects, s.ids.project, template_index(s.projects, name));
}

/// What a call that stores a chunk of a template's song comes to.
pub open spec fn chunk_seeded(s: StoreView, name: Seq<char>, idx: u32, data: Seq<u8>) -> (Option<Seq<char>>, StoreView) {
    match seed_chunk_error(s, name, idx, data) {
        Some(e) => (Some(e), s),
        None => (
            None,
            chunk_arrived(s, song_index_of(s.songs, s.projects[template_index(s.projects, name)].id), idx, data),
        ),
    }
}

/// A chunk for a template without a song, or for no template, is refused; to seed any
/// other, whoever calls, is to append it as the song's owner.
pub proof fn law_seeded_chunk_is_appended(s: StoreView, name: Seq<char>, idx: u32, data: Seq<u8>, owner: Caller)
    requires
        s.wf(),
    ensures
        ({
            let project = s.projects[template_index(s.projects, name)].id;
            let song = s.songs[song_index_of(s.songs, project)];
            if has_template(s.projects, name) && has_song_of(s.songs, project) {
                owner.sender == song.owner ==> chunk_seeded(s, name, idx, data) == chunk_appended(s, owner, song.id, idx, data)
            } else {
                chunk_seeded(s, name, idx, data).0 is Some && chunk_seeded(s, name, idx, data).1 == s
            }
        }),
{
    let project = s.projects[template_index(s.projects, name)].id;
    if has_template(s.projects, name) && has_song_of(s.songs, project) {
        lemma_song_index(s.songs, s.ids.song, song_index_of(s.songs, project));
    }
}

/// Seeding a template replaces the one of that name: afterwards there is exactly
/// one, it is empty, and every other project keeps its log.
pub proof fn law_seeding_replaces(s: StoreView, ctx: Caller, name: Seq<char>, num_lights: u32, num_frames: u32, other: u64)
    requires
        s.wf(),
        s.ids.project < u64::MAX,
    ensures
        ({
            let t = with_project(without_template(s, name), new_project(s, ctx, name, num_lights, num_frames, true));
            let id = s.ids.project;
            &&& has_template(t.projects, name)
            &&& t.projects[template_index(t.projects, name)].id == id
            &&& t.log(id) == Seq::<Edit>::empty()
            &&& !has_song_of(t.songs, id)
            &&& (has_template(s.projects, name) ==> other != s.projects[template_index(s.projects, name)].id) ==> t.log(other) == s.log(
                other,
            )
        }),
{
    let p = new_project(s, ctx, name, num_lights, num_frames, true);
    let a = without_template(s, name);
    let t = with_project(a, p);
    let n = a.projects.len() as int;
    lemma_template_gone(s, name);
    assert forall|i: int| 0 <= i < a.projects.len() && (#[trigger] a.projects[i]).is_template implies a.projects[i].name != p.name by {
        if a.projects[i].name == p.name {
            assert(has_template(a.projects, name));
        }
    }
    lemma_project_added(a, p);
    assert(t.projects[n] == p);
    assert(has_template(t.projects, name));
    let k = template_index(t.projects, name);
    if k < n {
        assert(t.projects[k].name != t.projects[n].name);
    }
    assert(log_ok(rows_of::<Edit>(t.edits, t.projects[n].id), t.projects[n]));
    assert(t.log(s.ids.project) =~= Seq::<Edit>::empty());
    lemma_fresh_rows::<Song>(s.songs, s.projects, s.ids.project);
    if has_template(s.projects, name) {
        let id = s.projects[template_index(s.projects, name)].id;
        lemma_rows_without::<Edit>(s.edits, id, s.ids.edit);
        lemma_rows_without::<Song>(s.songs, id, s.ids.song);
        if has_song_of(t.songs, s.ids.project) {
            let m = song_index_of(t.songs, s.ids.project);
            if has_song_of(s.songs, id) {
                assert(s.songs.contains(t.songs[m]));
                let q = choose|q: int| 0 <= q < s.songs.len() && s.songs[q] == t.songs[m];
                assert(Song::row_parent(s.songs[q]) < s.ids.project);
            } else {
                assert(Song::row_parent(s.songs[m]) < s.ids.project);
            }
        }
    } else if has_song_of(t.songs, s.ids.project) {
        let m = song_index_of(t.songs, s.ids.project);
        assert(Song::row_parent(s.songs[m]) < s.ids.project);
    }
}

/// Deleting a song touches no other project's song and no log.
pub proof fn law_delete_song_is_local(s: StoreView, project: u64, other: u64)
    requires
        s.wf(),
        other != project,
    ensures
        rows_of::<Song>(without_song(s, project).songs, other) == rows_of::<Song>(s.songs, other),
        without_song(s, project).edits == s.edits,
        without_song(s, project).projects == s.projects,
{
    lemma_rows_without::<Song>(s.songs, project, s.ids.song);
}

/// Restoring a version brings the live show back to it: once the restoring edits
/// are appended, the newest show is the show as of edit `cutoff`.
pub proof fn law_restore(s: StoreView, i: int, ctx: Caller, edits: Seq<LightEditInput>, cutoff: u64)
    requires
        s.wf(),
        0 <= i < s.projects.len(),
        s.ids.edit + edits.len() <= u64::MAX,
        overlaid(folded(s.log(s.projects[i].id), s.projects[i].head_seq), edits) == folded(s.log(s.projects[i].id), cutoff),
    ensures
        ({
            let t = with_edits(s, i, ctx, edits);
            let id = s.projects[i].id;
            folded(t.log(id), t.projects[i].head_seq) == folded(s.log(id), cutoff)
        }),
{
    let p = s.projects[i];
    let t = with_edits(s, i, ctx, edits);
    let log = s.log(p.id);
    let more = logged(p, ctx, edits, s.ids.edit);
    lemma_head_bound(s, i);
    law_append_only(s, i, ctx, edits, p.id);
    assert(log_ok(rows_of::<Edit>(s.edits, s.projects[i].id), s.projects[i]));
    lemma_fold_whole(log, p.head_seq, t.projects[i].head_seq);
    law_prediction(log, more, edits, t.projects[i].head_seq);
}

} // verus!
