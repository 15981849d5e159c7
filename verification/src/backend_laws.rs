//! What the backend's operations do to the rows, field by field.
use crate::chunking::{arranged, audio_of, joined, placed};
use crate::fork::{fork_target, forked, room_for_copy};
use crate::lists::{lemma_filtered, lemma_pushed};
use crate::projects::{append_edit_error, lemma_fresh_rows, new_project, with_edits};
use crate::rows::{
    Edit, LaserKeyframe, LaserKeyframeInput, LightEditInput, Project, ProjectView, ProjectorKeyframe,
    ProjectorKeyframeInput, Song, SongChunk, SongChunkView, TurretKeyframe, TurretKeyframeInput,
};
use crate::seeding::{accepted, with_lasers, with_projectors, with_turrets, without_project};
use crate::songs::{
    begin_error, chunk_arrived, grid_below, has_chunk, has_song_of, new_song, owner_error, song_error, song_index_of, song_info, song_replaced,
    with_chunk, without_song, SongInfoView,
};
use crate::store::{
    has_project, has_song, in_range, lemma_append_rows, lemma_project_index, lemma_rows_of, lemma_rows_of_push, lemma_rows_without,
    lemma_song_index, rows_copied, rows_of, rows_without, song_chunks_ok, song_index, total_bytes, Caller, CopiedRow, Row, StoreView, Target,
    CHUNK_SIZE, MAX_SONG_BYTES,
};
use vstd::prelude::*;

verus! {

broadcast use vstd::seq::group_seq_axioms;

// ---- projects and edits -----------------------------------------------------

/// A new project is the caller's, has the sizes asked for, brought to the nearest that a
/// project takes, and starts with an empty history under an id that no project has.
pub proof fn law_new_project(s: StoreView, ctx: Caller, name: Seq<char>, num_lights: u32, num_frames: u32, template: bool)
    requires
        s.wf(),
    ensures
        ({
            let p = new_project(s, ctx, name, num_lights, num_frames, template);
            &&& p.owner == ctx.sender && p.created_at == ctx.timestamp
            &&& p.name == name && p.is_template == template && !p.is_blueprint
            &&& 1 <= p.num_lights <= 512 && 1 <= p.num_frames <= 100_000
            &&& 1 <= num_lights <= 512 ==> p.num_lights == num_lights
            &&& num_lights < 1 ==> p.num_lights == 1
            &&& num_lights > 512 ==> p.num_lights == 512
            &&& 1 <= num_frames <= 100_000 ==> p.num_frames == num_frames
            &&& num_frames < 1 ==> p.num_frames == 1
            &&& num_frames > 100_000 ==> p.num_frames == 100_000
            &&& p.head_seq == 0
            &&& forall|i: int| 0 <= i < s.projects.len() ==> (#[trigger] s.projects[i]).id != p.id
        }),
{
    assert forall|i: int| 0 <= i < s.projects.len() implies (#[trigger] s.projects[i]).id != s.ids.project by {
        assert(Project::row_id(s.projects[i]) < s.ids.project);
    }
}

/// An edit is refused exactly where its project is missing or another's, or where it names
/// a light, a frame or a state that the project does not have.
pub proof fn law_edit_refused(s: StoreView, ctx: Caller, i: int, id: u64, light: u32, frame: u32, state: u8)
    requires
        s.wf(),
        0 <= i < s.projects.len(),
    ensures
        ({
            let p = s.projects[i];
            append_edit_error(s, ctx, p.id, light, frame, state) is None <==> p.owner == ctx.sender && light < p.num_lights && frame
                < p.num_frames && state < 3
        }),
        (forall|k: int| 0 <= k < s.projects.len() ==> (#[trigger] s.projects[k]).id != id) ==> append_edit_error(
            s,
            ctx,
            id,
            light,
            frame,
            state,
        ) is Some,
{
    lemma_project_index(s.projects, s.ids.project, i);
}

/// Appended edits are logged as they were sent, one row each and in order, in the caller's
/// name, under the next numbers of their project. Nothing else changes but how many edits
/// that project has.
pub proof fn law_appended_rows(s: StoreView, i: int, ctx: Caller, edits: Seq<LightEditInput>, k: int)
    requires
        s.wf(),
        0 <= i < s.projects.len(),
        s.ids.edit + edits.len() <= u64::MAX,
        s.projects[i].head_seq + edits.len() <= u64::MAX,
    ensures
        ({
            let t = with_edits(s, i, ctx, edits);
            let p = s.projects[i];
            &&& t.edits.len() == s.edits.len() + edits.len()
            &&& 0 <= k < s.edits.len() ==> t.edits[k] == s.edits[k]
            &&& 0 <= k < edits.len() ==> {
                let e = t.edits[s.edits.len() + k];
                &&& e.project_id == p.id && e.seq == p.head_seq + 1 + k
                &&& e.author == ctx.sender && e.created_at == ctx.timestamp
                &&& e.light == edits[k].light && e.frame == edits[k].frame && e.state == edits[k].state
            }
            &&& t.projects.len() == s.projects.len()
            &&& t.projects[i].head_seq == p.head_seq + edits.len()
            &&& t.projects[i].owner == p.owner && t.projects[i].name == p.name && t.projects[i].num_lights == p.num_lights
                && t.projects[i].num_frames == p.num_frames && t.projects[i].is_template == p.is_template
            &&& 0 <= k < s.projects.len() && k != i ==> t.projects[k] == s.projects[k]
            &&& t.lasers == s.lasers && t.projectors == s.projectors && t.turrets == s.turrets && t.songs == s.songs && t.chunks == s.chunks
        }),
{
}

/// Of seeded edits those within the project are kept, and no others.
pub proof fn law_accepted(p: ProjectView, edits: Seq<LightEditInput>, e: LightEditInput)
    ensures
        accepted(p, edits).contains(e) <==> edits.contains(e) && e.light < p.num_lights && e.frame < p.num_frames && e.state < 3,
        (forall|i: int|
            0 <= i < edits.len() ==> (#[trigger] edits[i]).light < p.num_lights && edits[i].frame < p.num_frames && edits[i].state < 3)
            ==> accepted(p, edits) == edits,
{
    let keep = |e: LightEditInput| in_range(p, e.light, e.frame, e.state);
    lemma_filtered(edits, keep, e);
    if forall|i: int|
        0 <= i < edits.len() ==> (#[trigger] edits[i]).light < p.num_lights && edits[i].frame < p.num_frames && edits[i].state < 3 {
        lemma_all_kept(edits, keep);
    }
}

proof fn lemma_all_kept<A>(s: Seq<A>, p: spec_fn(A) -> bool)
    requires
        forall|i: int| 0 <= i < s.len() ==> p(#[trigger] s[i]),
    ensures
        s.filter(p) == s,
    decreases s.len(),
{
    reveal(Seq::filter);
    if s.len() > 0 {
        let rest = s.drop_last();
        assert forall|i: int| 0 <= i < rest.len() implies p(#[trigger] rest[i]) by {
            assert(rest[i] == s[i]);
        }
        lemma_all_kept(rest, p);
        assert(p(s[s.len() - 1]));
        assert(rest.push(s.last()) =~= s);
    }
}

/// Seeded keyframes become rows of the template with their values, one each and in order,
/// behind the rows that were there.
pub proof fn law_seeded_rows(
    s: StoreView,
    i: int,
    lasers: Seq<LaserKeyframeInput>,
    projectors: Seq<ProjectorKeyframeInput>,
    turrets: Seq<TurretKeyframeInput>,
    k: int,
)
    requires
        s.wf(),
        0 <= i < s.projects.len(),
    ensures
        ({
            let t = with_lasers(s, i, lasers).lasers;
            &&& t.len() == s.lasers.len() + lasers.len()
            &&& 0 <= k < s.lasers.len() ==> t[k] == s.lasers[k]
            &&& 0 <= k < lasers.len() ==> {
                let r = t[s.lasers.len() + k];
                let x = lasers[k];
                r.project_id == s.projects[i].id && r.frame == x.frame && r.channel == x.channel && r.enable == x.enable && r.pattern
                    == x.pattern && r.cr == x.cr && r.cg == x.cg && r.cb == x.cb && r.points == x.points@
            }
        }),
        ({
            let t = with_projectors(s, i, projectors).projectors;
            &&& t.len() == s.projectors.len() + projectors.len()
            &&& 0 <= k < s.projectors.len() ==> t[k] == s.projectors[k]
            &&& 0 <= k < projectors.len() ==> {
                let r = t[s.projectors.len() + k];
                let x = projectors[k];
                r.project_id == s.projects[i].id && r.frame == x.frame && r.channel == x.channel && r.state == x.state && r.gallery
                    == x.gallery && r.pattern == x.pattern && r.colour == x.colour
            }
        }),
        ({
            let t = with_turrets(s, i, turrets).turrets;
            &&& t.len() == s.turrets.len() + turrets.len()
            &&& 0 <= k < s.turrets.len() ==> t[k] == s.turrets[k]
            &&& 0 <= k < turrets.len() ==> {
                let r = t[s.turrets.len() + k];
                let x = turrets[k];
                r.project_id == s.projects[i].id && r.frame == x.frame && r.channel == x.channel && r.state == x.state && r.pan == x.pan
                    && r.tilt == x.tilt
            }
        }),
{
}

/// A deleted project takes its edits, keyframes and song along, and nothing that belongs to
/// another.
pub proof fn law_project_gone(s: StoreView, id: u64, other: u64, p: ProjectView)
    requires
        s.wf(),
        other != id,
    ensures
        ({
            let t = without_project(s, id);
            &&& t.projects.contains(p) <==> s.projects.contains(p) && p.id != id
            &&& rows_of::<Edit>(t.edits, id).len() == 0 && rows_of::<Edit>(t.edits, other) == rows_of::<Edit>(s.edits, other)
            &&& rows_of::<LaserKeyframe>(t.lasers, id).len() == 0 && rows_of::<LaserKeyframe>(t.lasers, other) == rows_of::<LaserKeyframe>(
                s.lasers,
                other,
            )
            &&& rows_of::<ProjectorKeyframe>(t.projectors, id).len() == 0 && rows_of::<ProjectorKeyframe>(t.projectors, other)
                == rows_of::<ProjectorKeyframe>(s.projectors, other)
            &&& rows_of::<TurretKeyframe>(t.turrets, id).len() == 0 && rows_of::<TurretKeyframe>(t.turrets, other)
                == rows_of::<TurretKeyframe>(s.turrets, other)
            &&& rows_of::<Song>(t.songs, id).len() == 0 && rows_of::<Song>(t.songs, other) == rows_of::<Song>(s.songs, other)
        }),
{
    lemma_rows_without::<Edit>(s.edits, id, s.ids.edit);
    lemma_rows_without::<LaserKeyframe>(s.lasers, id, s.ids.laser);
    lemma_rows_without::<ProjectorKeyframe>(s.projectors, id, s.ids.projector);
    lemma_rows_without::<TurretKeyframe>(s.turrets, id, s.ids.turret);
    lemma_rows_without::<Song>(s.songs, id, s.ids.song);
    lemma_rows_without::<Project>(s.projects, id, s.ids.project);
    let left = rows_without::<Project>(s.projects, id);
    if left.contains(p) {
        let k = choose|k: int| 0 <= k < left.len() && left[k] == p;
        assert(Project::row_parent(left[k]) != id);
    }
    if s.projects.contains(p) && p.id != id {
        let k = choose|k: int| 0 <= k < s.projects.len() && s.projects[k] == p;
        assert(Project::row_parent(s.projects[k]) != id);
    }
    if !has_song_of(s.songs, id) {
        lemma_rows_of::<Song>(s.songs, id);
        let r = rows_of::<Song>(s.songs, id);
        if r.len() > 0 {
            assert(s.songs.contains(r[0]));
            let k = choose|k: int| 0 <= k < s.songs.len() && s.songs[k] == r[0];
            assert(s.songs[k].project_id == id);
        }
    }
}

// ---- songs ------------------------------------------------------------------

/// A song is taken exactly where it is not empty, not too large, and announced with the
/// least number of chunks that hold it.
pub proof fn law_song_taken(byte_len: u64, num_chunks: u32)
    ensures
        song_error(byte_len, num_chunks) is None <==> 0 < byte_len <= MAX_SONG_BYTES && (num_chunks - 1) * CHUNK_SIZE < byte_len
            && byte_len <= num_chunks * CHUNK_SIZE,
{
}

/// An upload begins exactly where the project exists, is the caller's, and the song is
/// taken.
pub proof fn law_upload_refused(s: StoreView, ctx: Caller, i: int, byte_len: u64, num_chunks: u32, id: u64)
    requires
        s.wf(),
        0 <= i < s.projects.len(),
    ensures
        begin_error(s, ctx, s.projects[i].id, byte_len, num_chunks) is None <==> s.projects[i].owner == ctx.sender && song_error(
            byte_len,
            num_chunks,
        ) is None,
        owner_error(s, ctx, s.projects[i].id) is None <==> s.projects[i].owner == ctx.sender,
        (forall|k: int| 0 <= k < s.projects.len() ==> (#[trigger] s.projects[k]).id != id) ==> begin_error(s, ctx, id, byte_len, num_chunks)
            is Some && owner_error(s, ctx, id) is Some,
{
    lemma_project_index(s.projects, s.ids.project, i);
}

proof fn lemma_grid_below(s: Seq<u32>, n: nat, b: u32)
    requires
        n <= u32::MAX,
    ensures
        grid_below(s, n).contains(b) <==> s.contains(b) && b < n,
        forall|i: int| 0 <= i < grid_below(s, n).len() ==> #[trigger] grid_below(s, n)[i] < n,
        forall|i: int, j: int| 0 <= i < j < grid_below(s, n).len() ==> #[trigger] grid_below(s, n)[i] < #[trigger] grid_below(s, n)[j],
    decreases n,
{
    if n > 0 {
        let g = grid_below(s, (n - 1) as nat);
        lemma_grid_below(s, (n - 1) as nat, b);
        lemma_pushed(g, (n - 1) as u32, b);
    }
}

/// A fresh upload is the caller's and the project's only song; nothing of it has arrived.
/// Its beats are those announced that fall into the show, each once and ascending. The
/// songs of other projects stay, and no chunk of the song it replaces is left.
pub proof fn law_fresh_song(s: StoreView, ctx: Caller, i: int, info: SongInfoView, b: u32, other: u64)
    requires
        s.wf(),
        0 <= i < s.projects.len(),
        other != s.projects[i].id,
    ensures
        ({
            let id = s.projects[i].id;
            let t = song_replaced(s, ctx, id, info);
            let songs = rows_of::<Song>(t.songs, id);
            let song = songs[0];
            &&& songs.len() == 1
            &&& song.owner == ctx.sender && song.created_at == ctx.timestamp
            &&& song.name == info.name && song.mime == info.mime && song.byte_len == info.byte_len && song.num_chunks == info.num_chunks
            &&& song.duration_ms == info.duration_ms && song.fps_bits == info.fps_bits && song.bpm_bits == info.bpm_bits
                && song.first_beat_ms == info.first_beat_ms
            &&& song.chunks_received == 0 && !song.complete
            &&& song.beats_frames.contains(b) <==> info.beats_frames.contains(b) && b < s.projects[i].num_frames
            &&& forall|j: int, k: int|
                0 <= j < k < song.beats_frames.len() ==> #[trigger] song.beats_frames[j] < #[trigger] song.beats_frames[k]
            &&& rows_of::<Song>(t.songs, other) == rows_of::<Song>(s.songs, other)
            &&& rows_of::<SongChunk>(t.chunks, song.id).len() == 0
            &&& has_song_of(s.songs, id) ==> rows_of::<SongChunk>(t.chunks, s.songs[song_index_of(s.songs, id)].id).len() == 0
            &&& t.projects == s.projects && t.edits == s.edits && t.lasers == s.lasers && t.projectors == s.projectors && t.turrets
                == s.turrets
        }),
{
    let id = s.projects[i].id;
    let t = song_replaced(s, ctx, id, info);
    let u = without_song(s, id);
    lemma_project_index(s.projects, s.ids.project, i);
    let song = new_song(s, ctx, id, s.projects[i].num_frames, info);
    lemma_rows_without::<Song>(s.songs, id, s.ids.song);
    lemma_rows_of::<Song>(s.songs, id);
    if !has_song_of(s.songs, id) {
        let r = rows_of::<Song>(s.songs, id);
        if r.len() > 0 {
            let k = choose|k: int| 0 <= k < s.songs.len() && s.songs[k] == r[0];
            assert(s.songs[k].project_id == id);
        }
    }
    assert(rows_of::<Song>(u.songs, id).len() == 0);
    lemma_rows_of_push::<Song>(u.songs, song, id);
    lemma_rows_of_push::<Song>(u.songs, song, other);
    assert(rows_of::<Song>(t.songs, id)[0] == song);
    lemma_grid_below(info.beats_frames, s.projects[i].num_frames as nat, b);
    if has_song_of(s.songs, id) {
        let gone = s.songs[song_index_of(s.songs, id)].id;
        lemma_rows_without::<SongChunk>(s.chunks, gone, s.ids.chunk);
    }
    lemma_fresh_chunks(s);
    if rows_of::<SongChunk>(t.chunks, s.ids.song).len() > 0 {
        lemma_rows_of::<SongChunk>(t.chunks, s.ids.song);
        let c = rows_of::<SongChunk>(t.chunks, s.ids.song)[0];
        assert(t.chunks.contains(c));
        if has_song_of(s.songs, id) {
            let k = choose|k: int| 0 <= k < t.chunks.len() && t.chunks[k] == c;
            assert(s.chunks.contains(t.chunks[k]));
        }
        let k = choose|k: int| 0 <= k < s.chunks.len() && s.chunks[k] == c;
        assert(s.chunks[k].song_id < s.ids.song);
    }
}

/// No chunk belongs to a song that is yet to come.
proof fn lemma_fresh_chunks(s: StoreView)
    requires
        s.wf(),
    ensures
        forall|k: int| 0 <= k < s.chunks.len() ==> (#[trigger] s.chunks[k]).song_id < s.ids.song,
        rows_of::<SongChunk>(s.chunks, s.ids.song) == Seq::<SongChunkView>::empty(),
{
    assert forall|k: int| 0 <= k < s.chunks.len() implies (#[trigger] s.chunks[k]).song_id < s.ids.song by {
        assert(has_song(s.songs, s.chunks[k].song_id));
        let j = song_index(s.songs, s.chunks[k].song_id);
        assert(Song::row_id(s.songs[j]) < s.ids.song);
    }
    lemma_rows_of::<SongChunk>(s.chunks, s.ids.song);
    let r = rows_of::<SongChunk>(s.chunks, s.ids.song);
    if r.len() > 0 {
        assert(s.chunks.contains(r[0]));
        let k = choose|k: int| 0 <= k < s.chunks.len() && s.chunks[k] == r[0];
        assert(s.chunks[k].song_id < s.ids.song);
    }
    assert(r =~= Seq::<SongChunkView>::empty());
}

/// A chunk that arrives for the first time is kept with its place and bytes, behind the
/// others, and counted once; the song is complete as soon as all chunks are there and hold
/// as many bytes as announced, and not before. Other songs and their chunks stay.
pub proof fn law_chunk_kept(s: StoreView, i: int, idx: u32, data: Seq<u8>, j: int)
    requires
        s.wf(),
        0 <= i < s.songs.len(),
        s.songs[i].chunks_received < u32::MAX,
        !has_chunk(rows_of::<SongChunk>(s.chunks, s.songs[i].id), idx),
        0 <= j < s.songs.len(),
        j != i,
    ensures
        ({
            let t = chunk_arrived(s, i, idx, data);
            let song = s.songs[i];
            let before = rows_of::<SongChunk>(s.chunks, song.id);
            let after = rows_of::<SongChunk>(t.chunks, song.id);
            &&& after.len() == before.len() + 1
            &&& after.drop_last() == before
            &&& after.last().idx == idx && after.last().data == data && after.last().song_id == song.id && after.last().project_id
                == song.project_id
            &&& t.songs[i].chunks_received == song.chunks_received + 1
            &&& t.songs[i].complete <==> after.len() >= song.num_chunks && total_bytes(before) + data.len() == song.byte_len
            &&& t.songs[i].id == song.id && t.songs[i].owner == song.owner && t.songs[i].num_chunks == song.num_chunks
                && t.songs[i].beats_frames == song.beats_frames
            &&& t.songs[j] == s.songs[j]
            &&& rows_of::<SongChunk>(t.chunks, s.songs[j].id) == rows_of::<SongChunk>(s.chunks, s.songs[j].id)
            &&& t.projects == s.projects && t.edits == s.edits
        }),
{
    let t = with_chunk(s, i, idx, data);
    let song = s.songs[i];
    let c = t.chunks.last();
    let before = rows_of::<SongChunk>(s.chunks, song.id);
    lemma_rows_of_push::<SongChunk>(s.chunks, c, song.id);
    lemma_rows_of_push::<SongChunk>(s.chunks, c, s.songs[j].id);
    lemma_song_index(s.songs, s.ids.song, i);
    lemma_song_index(s.songs, s.ids.song, j);
    assert(before.push(c).drop_last() =~= before);
    assert(total_bytes(before.push(c)) == total_bytes(before) + data.len());
    assert(song_chunks_ok(song, before));
}

// ---- copies -----------------------------------------------------------------

/// The copies of a project's rows are as many as the rows, belong to the copy, and are the
/// copies of the rows in order.
proof fn lemma_copies<T: CopiedRow>(s: Seq<T::V>, from: u64, next: u64, to: Target)
    requires
        rows_of::<T>(s, T::target_parent(to)).len() == 0,
        next + rows_of::<T>(s, from).len() <= u64::MAX,
    ensures
        ({
            let made = rows_of::<T>(s + rows_copied::<T>(s, from, next, to), T::target_parent(to));
            &&& made.len() == rows_of::<T>(s, from).len()
            &&& forall|k: int| 0 <= k < made.len() ==> #[trigger] made[k] == T::row_copied(rows_of::<T>(s, from)[k], (next + k) as u64, to)
        }),
{
    let made = rows_copied::<T>(s, from, next, to);
    assert forall|k: int| 0 <= k < made.len() implies T::row_parent(#[trigger] made[k]) == T::target_parent(to) by {
        T::copied_keys(rows_of::<T>(s, from)[k], (next + k) as u64, to);
    }
    lemma_append_rows::<T>(s, made, T::target_parent(to));
    assert(rows_of::<T>(s, T::target_parent(to)) + made =~= made);
}

/// A copy is the caller's own show: it has the source's size and history and a name that
/// says it is a copy, and it is no template.
pub proof fn law_copied_project(s: StoreView, ctx: Caller, i: int)
    requires
        s.wf(),
        0 <= i < s.projects.len(),
        room_for_copy(s, s.projects[i].id),
    ensures
        ({
            let src = s.projects[i];
            let t = forked(s, ctx, src.id);
            let p = t.projects.last();
            &&& t.projects.len() == s.projects.len() + 1
            &&& p.id == s.ids.project && p.owner == ctx.sender && p.created_at == ctx.timestamp
            &&& p.name == src.name + " (copy)"@
            &&& p.num_lights == src.num_lights && p.num_frames == src.num_frames && p.head_seq == src.head_seq
            &&& !p.is_template && !p.is_blueprint
        }),
{
    lemma_project_index(s.projects, s.ids.project, i);
}

/// A copy has the source's edits in order, in the caller's name, with their numbers.
pub proof fn law_copied_edits(s: StoreView, ctx: Caller, id: u64, k: int)
    requires
        s.wf(),
        has_project(s.projects, id),
        room_for_copy(s, id),
    ensures
        ({
            let made = rows_of::<Edit>(forked(s, ctx, id).edits, s.ids.project);
            let rows = rows_of::<Edit>(s.edits, id);
            &&& made.len() == rows.len()
            &&& 0 <= k < rows.len() ==> made[k].project_id == s.ids.project && made[k].seq == rows[k].seq && made[k].light == rows[k].light
                && made[k].frame == rows[k].frame && made[k].state == rows[k].state && made[k].author == ctx.sender && made[k].created_at
                == ctx.timestamp
        }),
{
    lemma_fresh_rows::<Edit>(s.edits, s.projects, s.ids.project);
    lemma_copies::<Edit>(s.edits, id, s.ids.edit, fork_target(s, ctx));
}

/// A copy has the source's fixture keyframes in order, with their places and values.
pub proof fn law_copied_fixtures(s: StoreView, ctx: Caller, id: u64, k: int)
    requires
        s.wf(),
        has_project(s.projects, id),
        room_for_copy(s, id),
    ensures
        ({
            let made = rows_of::<LaserKeyframe>(forked(s, ctx, id).lasers, s.ids.project);
            let rows = rows_of::<LaserKeyframe>(s.lasers, id);
            &&& made.len() == rows.len()
            &&& 0 <= k < rows.len() ==> made[k].frame == rows[k].frame && made[k].channel == rows[k].channel && made[k].enable
                == rows[k].enable && made[k].pattern == rows[k].pattern && made[k].cr == rows[k].cr && made[k].cg == rows[k].cg
                && made[k].cb == rows[k].cb && made[k].points == rows[k].points
        }),
        ({
            let made = rows_of::<ProjectorKeyframe>(forked(s, ctx, id).projectors, s.ids.project);
            let rows = rows_of::<ProjectorKeyframe>(s.projectors, id);
            &&& made.len() == rows.len()
            &&& 0 <= k < rows.len() ==> made[k].frame == rows[k].frame && made[k].channel == rows[k].channel && made[k].state
                == rows[k].state && made[k].gallery == rows[k].gallery && made[k].pattern == rows[k].pattern && made[k].colour
                == rows[k].colour
        }),
        ({
            let made = rows_of::<TurretKeyframe>(forked(s, ctx, id).turrets, s.ids.project);
            let rows = rows_of::<TurretKeyframe>(s.turrets, id);
            &&& made.len() == rows.len()
            &&& 0 <= k < rows.len() ==> made[k].frame == rows[k].frame && made[k].channel == rows[k].channel && made[k].state
                == rows[k].state && made[k].pan == rows[k].pan && made[k].tilt == rows[k].tilt
        }),
{
    let to = fork_target(s, ctx);
    lemma_fresh_rows::<LaserKeyframe>(s.lasers, s.projects, s.ids.project);
    lemma_fresh_rows::<ProjectorKeyframe>(s.projectors, s.projects, s.ids.project);
    lemma_fresh_rows::<TurretKeyframe>(s.turrets, s.projects, s.ids.project);
    lemma_copies::<LaserKeyframe>(s.lasers, id, s.ids.laser, to);
    lemma_copies::<ProjectorKeyframe>(s.projectors, id, s.ids.projector, to);
    lemma_copies::<TurretKeyframe>(s.turrets, id, s.ids.turret, to);
}

spec fn same_data(a: Seq<SongChunkView>, b: Seq<SongChunkView>) -> bool {
    a.len() == b.len() && forall|k: int| 0 <= k < a.len() ==> (#[trigger] a[k]).idx == b[k].idx && a[k].data == b[k].data
}

proof fn lemma_same_placed(a: Seq<SongChunkView>, b: Seq<SongChunkView>, c: SongChunkView, d: SongChunkView)
    requires
        same_data(a, b),
        c.idx == d.idx,
        c.data == d.data,
    ensures
        same_data(placed(a, c), placed(b, d)),
    decreases a.len(),
{
    if a.len() > 0 {
        assert(a[a.len() - 1].idx == b[a.len() - 1].idx);
        if a.last().idx > c.idx {
            let p = a.drop_last();
            let q = b.drop_last();
            assert forall|k: int| 0 <= k < p.len() implies (#[trigger] p[k]).idx == q[k].idx && p[k].data == q[k].data by {
                assert(a[k].idx == b[k].idx);
            }
            lemma_same_placed(p, q, c, d);
        }
    }
}

proof fn lemma_same_audio(a: Seq<SongChunkView>, b: Seq<SongChunkView>)
    requires
        same_data(a, b),
    ensures
        same_data(arranged(a), arranged(b)),
        joined(arranged(a)) == joined(arranged(b)),
    decreases a.len(),
{
    if a.len() > 0 {
        let p = a.drop_last();
        let q = b.drop_last();
        assert forall|k: int| 0 <= k < p.len() implies (#[trigger] p[k]).idx == q[k].idx && p[k].data == q[k].data by {
            assert(a[k].idx == b[k].idx);
        }
        lemma_same_audio(p, q);
        assert(a[a.len() - 1].idx == b[a.len() - 1].idx);
        lemma_same_placed(arranged(p), arranged(q), a.last(), b.last());
    }
    lemma_same_joined(arranged(a), arranged(b));
}

proof fn lemma_same_joined(a: Seq<SongChunkView>, b: Seq<SongChunkView>)
    requires
        same_data(a, b),
    ensures
        joined(a) == joined(b),
    decreases a.len(),
{
    if a.len() > 0 {
        let p = a.drop_last();
        let q = b.drop_last();
        assert forall|k: int| 0 <= k < p.len() implies (#[trigger] p[k]).idx == q[k].idx && p[k].data == q[k].data by {
            assert(a[k].idx == b[k].idx);
        }
        lemma_same_joined(p, q);
        assert(a[a.len() - 1].data == b[a.len() - 1].data);
    }
}

/// A copy plays the source's song: the copied song is the caller's, belongs to the copy,
/// and has the source's tempo, beats and audio.
pub proof fn law_copied_song(s: StoreView, ctx: Caller, id: u64, j: int)
    requires
        s.wf(),
        has_project(s.projects, id),
        room_for_copy(s, id),
        0 <= j < s.songs.len(),
        s.songs[j].project_id == id,
    ensures
        ({
            let t = forked(s, ctx, id);
            let song = t.songs.last();
            let src = s.songs[j];
            &&& t.songs.len() == s.songs.len() + 1
            &&& song.project_id == s.ids.project && song.owner == ctx.sender && song.id == s.ids.song
            &&& song.name == src.name && song.mime == src.mime && song.byte_len == src.byte_len && song.num_chunks == src.num_chunks
                && song.chunks_received == src.chunks_received && song.complete == src.complete
            &&& song.duration_ms == src.duration_ms && song.fps_bits == src.fps_bits && song.bpm_bits == src.bpm_bits
                && song.first_beat_ms == src.first_beat_ms && song.beats_frames == src.beats_frames
            &&& audio_of(t.chunks, song.id) == audio_of(s.chunks, src.id)
        }),
{
    assert(has_song_of(s.songs, id));
    let i = song_index_of(s.songs, id);
    if i != j {
        assert(s.songs[i].project_id != s.songs[j].project_id);
    }
    let src = s.songs[j];
    let to = fork_target(s, ctx);
    lemma_fresh_chunks(s);
    lemma_copies::<SongChunk>(s.chunks, src.id, s.ids.chunk, to);
    let made = rows_of::<SongChunk>(forked(s, ctx, id).chunks, s.ids.song);
    let rows = rows_of::<SongChunk>(s.chunks, src.id);
    assert(same_data(made, rows));
    lemma_same_audio(made, rows);
}

/// A project without a song has a copy without one.
pub proof fn law_copy_without_song(s: StoreView, ctx: Caller, id: u64)
    requires
        s.wf(),
        forall|i: int| 0 <= i < s.songs.len() ==> (#[trigger] s.songs[i]).project_id != id,
    ensures
        forked(s, ctx, id).songs == s.songs,
        forked(s, ctx, id).chunks == s.chunks,
{
}

// ---- why a call is refused --------------------------------------------------

/// What is wrong with an edit is told in order: first of the project, then of its owner, then
/// of the light, the frame and the state.
pub proof fn law_edit_messages(s: StoreView, ctx: Caller, i: int, id: u64, light: u32, frame: u32, state: u8)
    requires
        s.wf(),
        0 <= i < s.projects.len(),
    ensures
        ({
            let p = s.projects[i];
            let e = append_edit_error(s, ctx, p.id, light, frame, state);
            let own = p.owner == ctx.sender;
            &&& !own ==> e == Some("You do not own this project"@)
            &&& own && light >= p.num_lights ==> e == Some("light index out of range"@)
            &&& own && light < p.num_lights && frame >= p.num_frames ==> e == Some("frame index out of range"@)
            &&& own && light < p.num_lights && frame < p.num_frames && state >= 3 ==> e == Some("state must be 0 (off), 1 (on) or 2 (clear)"@)
        }),
        (forall|k: int| 0 <= k < s.projects.len() ==> (#[trigger] s.projects[k]).id != id) ==> append_edit_error(
            s,
            ctx,
            id,
            light,
            frame,
            state,
        ) == Some("Project not found"@),
{
    lemma_project_index(s.projects, s.ids.project, i);
}

/// What is said of a song when its upload begins is kept as it was said.
pub proof fn law_song_info(
    name: Seq<char>,
    mime: Seq<char>,
    byte_len: u64,
    num_chunks: u32,
    duration_ms: u32,
    fps_bits: u32,
    beats_frames: Seq<u32>,
    bpm_bits: u32,
    first_beat_ms: u32,
)
    ensures
        ({
            let i = song_info(name, mime, byte_len, num_chunks, duration_ms, fps_bits, beats_frames, bpm_bits, first_beat_ms);
            &&& i.name == name && i.mime == mime && i.byte_len == byte_len && i.num_chunks == num_chunks
            &&& i.duration_ms == duration_ms && i.fps_bits == fps_bits && i.beats_frames == beats_frames && i.bpm_bits == bpm_bits
                && i.first_beat_ms == first_beat_ms
        }),
{
}

} // verus!
