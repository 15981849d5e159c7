//! Creating projects and appending to their edit logs.
use crate::rows::{Edit, LaserKeyframe, LightEditInput, Project, ProjectView, ProjectorKeyframe, Song, TurretKeyframe};
use crate::store::{
    belong, has_project, ids_ok, in_range, lemma_append_ids, lemma_append_rows, lemma_ids_len, lemma_project_index,
    lemma_rows_of, log_ok, logs_ok, project_index, rows_of, sizes_ok, songs_ok, templates_ok, Caller, Ids, Row, Store,
    StoreView,
};
use crate::text::{chars_of, text_of, trim, trimmed};
use vstd::prelude::*;

verus! {

broadcast use {vstd::seq::group_seq_axioms, vstd::string::group_string_axioms};

/// `n` brought between `lo` and `hi`.
pub open spec fn clamped(n: u32, lo: u32, hi: u32) -> u32 {
    if n < lo {
        lo
    } else if n > hi {
        hi
    } else {
        n
    }
}

/// `n` brought between `lo` and `hi`.
pub fn clamp(n: u32, lo: u32, hi: u32) -> (r: u32)
    requires
        lo <= hi,
    ensures
        r == clamped(n, lo, hi),
{
    if n < lo {
        lo
    } else if n > hi {
        hi
    } else {
        n
    }
}

/// No row of a table whose rows all belong to projects belongs to an id that no
/// project has yet.
pub proof fn lemma_fresh_rows<T: Row>(rows: Seq<T::V>, ps: Seq<ProjectView>, next: u64)
    requires
        belong::<T>(rows, ps),
        ids_ok::<Project>(ps, next),
    ensures
        rows_of::<T>(rows, next) == Seq::<T::V>::empty(),
        forall|i: int| 0 <= i < rows.len() ==> T::row_parent(#[trigger] rows[i]) < next,
{
    assert forall|i: int| 0 <= i < rows.len() implies T::row_parent(#[trigger] rows[i]) < next by {
        let k = project_index(ps, T::row_parent(rows[i]));
        assert(has_project(ps, T::row_parent(rows[i])));
        assert(Project::row_id(ps[k]) < next);
    }
    lemma_rows_of::<T>(rows, next);
    let r = rows_of::<T>(rows, next);
    if r.len() > 0 {
        assert(T::row_parent(r[0]) == next);
        let k = choose|k: int| 0 <= k < rows.len() && rows[k] == r[0];
        assert(T::row_parent(rows[k]) < next);
    }
    assert(r =~= Seq::<T::V>::empty());
}

/// Rows that belong to projects still do when projects are added.
pub proof fn lemma_belong_push<T: Row>(rows: Seq<T::V>, ps: Seq<ProjectView>, p: ProjectView)
    requires
        belong::<T>(rows, ps),
    ensures
        belong::<T>(rows, ps.push(p)),
{
    assert forall|i: int| 0 <= i < rows.len() implies has_project(ps.push(p), T::row_parent(#[trigger] rows[i])) by {
        let k = project_index(ps, T::row_parent(rows[i]));
        assert(ps.push(p)[k] == ps[k]);
    }
}

/// Projects taken out of `ps`, in the order of ids, keep unique template names
/// and sizes.
pub proof fn in_order_project_subset(ps: Seq<ProjectView>, qs: Seq<ProjectView>, next: u64)
    requires
        templates_ok(ps),
        sizes_ok(ps),
        ids_ok::<Project>(qs, next),
        forall|i: int| 0 <= i < qs.len() ==> ps.contains(#[trigger] qs[i]),
    ensures
        templates_ok(qs),
        sizes_ok(qs),
{
    assert forall|i: int, j: int|
        0 <= i < j < qs.len() && (#[trigger] qs[i]).is_template && (#[trigger] qs[j]).is_template implies qs[i].name != qs[j].name by {
        assert(Project::row_id(qs[i]) < Project::row_id(qs[j]));
        assert(ps.contains(qs[i]) && ps.contains(qs[j]));
        let a = choose|a: int| 0 <= a < ps.len() && ps[a] == qs[i];
        let b = choose|b: int| 0 <= b < ps.len() && ps[b] == qs[j];
        if a < b {
            assert(ps[a].name != ps[b].name);
        } else {
            assert(ps[b].name != ps[a].name);
        }
    }
    assert forall|i: int|
        0 <= i < qs.len() implies 1 <= (#[trigger] qs[i]).num_lights <= 512 && 1 <= qs[i].num_frames <= 100_000 by {
        assert(ps.contains(qs[i]));
        let a = choose|a: int| 0 <= a < ps.len() && ps[a] == qs[i];
        assert(ps[a].num_lights == qs[i].num_lights);
    }
}

/// The tables with one more project.
pub open spec fn with_project(s: StoreView, p: ProjectView) -> StoreView {
    StoreView { projects: s.projects.push(p), ids: Ids { project: (s.ids.project + 1) as u64, ..s.ids }, ..s }
}

/// A new empty project keeps what always holds.
pub proof fn lemma_project_added(s: StoreView, p: ProjectView)
    requires
        s.wf(),
        s.ids.project < u64::MAX,
        p.id == s.ids.project,
        p.head_seq == 0,
        1 <= p.num_lights <= 512,
        1 <= p.num_frames <= 100_000,
        p.is_template ==> forall|i: int| 0 <= i < s.projects.len() && (#[trigger] s.projects[i]).is_template ==> s.projects[i].name != p.name,
    ensures
        with_project(s, p).wf(),
{
    let t = with_project(s, p);
    lemma_append_ids::<Project>(s.projects, seq![p], s.ids.project, t.ids.project);
    assert(s.projects + seq![p] =~= t.projects);
    lemma_belong_push::<Edit>(s.edits, s.projects, p);
    lemma_belong_push::<LaserKeyframe>(s.lasers, s.projects, p);
    lemma_belong_push::<ProjectorKeyframe>(s.projectors, s.projects, p);
    lemma_belong_push::<TurretKeyframe>(s.turrets, s.projects, p);
    lemma_belong_push::<Song>(s.songs, s.projects, p);
    lemma_fresh_rows::<Edit>(s.edits, s.projects, s.ids.project);
    lemma_fresh_rows::<Song>(s.songs, s.projects, s.ids.project);
    assert forall|i: int| 0 <= i < t.projects.len() implies log_ok(rows_of::<Edit>(t.edits, (#[trigger] t.projects[i]).id), t.projects[i]) by {
        if i < s.projects.len() {
            assert(t.projects[i] == s.projects[i]);
        }
    }
    assert(songs_ok(t.songs, t.projects)) by {
        assert forall|i: int| 0 <= i < t.songs.len() implies crate::store::song_ok(#[trigger] t.songs[i], t.projects) by {
            let song = s.songs[i];
            assert(crate::store::song_ok(song, s.projects));
            assert(Song::row_parent(s.songs[i]) < s.ids.project);
            assert forall|j: int, k: int|
                0 <= j < t.projects.len() && (#[trigger] t.projects[j]).id == song.project_id && 0 <= k < song.beats_frames.len() implies #[trigger] song.beats_frames[k]
                < t.projects[j].num_frames by {
                assert(j < s.projects.len());
                assert(s.projects[j] == t.projects[j]);
            }
        }
    }
    assert forall|i: int, j: int|
        0 <= i < j < t.projects.len() && (#[trigger] t.projects[i]).is_template && (#[trigger] t.projects[j]).is_template implies t.projects[i].name
        != t.projects[j].name by {
        assert(t.projects[i] == s.projects[i]);
        if j < s.projects.len() {
            assert(t.projects[j] == s.projects[j]);
        }
    }
    assert forall|i: int|
        0 <= i < t.projects.len() implies 1 <= (#[trigger] t.projects[i]).num_lights <= 512 && 1 <= t.projects[i].num_frames <= 100_000 by {
        if i < s.projects.len() {
            assert(t.projects[i] == s.projects[i]);
        }
    }
}

/// Prepares the tables of a new database: nothing.
pub fn init(store: &mut Store, ctx: &Caller)
    ensures
        *final(store) == *old(store),
{
}

/// The project that `create_project` makes.
pub open spec fn new_project(s: StoreView, ctx: Caller, name: Seq<char>, num_lights: u32, num_frames: u32, is_template: bool) -> ProjectView {
    ProjectView {
        id: s.ids.project,
        owner: ctx.sender,
        name,
        num_lights: clamped(num_lights, 1, 512),
        num_frames: clamped(num_frames, 1, 100_000),
        created_at: ctx.timestamp,
        head_seq: 0,
        is_template,
        is_blueprint: false,
    }
}

/// Creates a new, empty project owned by the caller. The name is trimmed and may
/// not be empty; the sizes are brought into range.
pub fn create_project(store: &mut Store, ctx: &Caller, name: String, num_lights: u32, num_frames: u32) -> (r: Result<(), String>)
    requires
        old(store)@.wf(),
        old(store)@.ids.project < u64::MAX,
    ensures
        final(store)@.wf(),
        r is Err <==> trimmed(name@).len() == 0,
        r matches Err(e) ==> e@ == "Project name cannot be empty"@ && final(store)@ == old(store)@,
        r is Ok ==> final(store)@ == with_project(
            old(store)@,
            new_project(old(store)@, *ctx, trimmed(name@), num_lights, num_frames, false),
        ),
{
    let name: Vec<char> = trim(&chars_of(name.as_str()));
    if name.len() == 0 {
        return Err("Project name cannot be empty".to_owned());
    }
    let p: Project = Project {
        id: store.ids.project,
        owner: ctx.sender,
        name: text_of(&name),
        num_lights: clamp(num_lights, 1, 512),
        num_frames: clamp(num_frames, 1, 100_000),
        created_at: ctx.timestamp,
        head_seq: 0,
        is_template: false,
        is_blueprint: false,
    };
    let ghost s = store@;
    let ghost v = p@;
    store.projects.push(p);
    store.ids.project = store.ids.project + 1;
    proof {
        lemma_project_added(s, v);
        assert(store@ =~= with_project(s, v));
    }
    Ok(())
}

// ---- the edit log -----------------------------------------------------------

/// The rows that log `edits` in project `p`: numbered on from its head, signed
/// by the caller.
pub open spec fn logged(p: ProjectView, ctx: Caller, edits: Seq<LightEditInput>, next: u64) -> Seq<Edit> {
    edits.map(
        |k: int, e: LightEditInput|
            Edit {
                id: (next + k) as u64,
                project_id: p.id,
                seq: (p.head_seq + 1 + k) as u64,
                author: ctx.sender,
                created_at: ctx.timestamp,
                light: e.light,
                frame: e.frame,
                state: e.state,
            },
    )
}

/// The tables after `edits` are appended to the log of the project at `i`.
pub open spec fn with_edits(s: StoreView, i: int, ctx: Caller, edits: Seq<LightEditInput>) -> StoreView {
    let p = s.projects[i];
    StoreView {
        projects: s.projects.update(i, ProjectView { head_seq: (p.head_seq + edits.len()) as u64, ..p }),
        edits: s.edits + logged(p, ctx, edits, s.ids.edit),
        ids: Ids { edit: (s.ids.edit + edits.len()) as u64, ..s.ids },
        ..s
    }
}

proof fn lemma_belong_update<T: Row>(rows: Seq<T::V>, ps: Seq<ProjectView>, i: int, p: ProjectView)
    requires
        belong::<T>(rows, ps),
        0 <= i < ps.len(),
        ps[i].id == p.id,
    ensures
        belong::<T>(rows, ps.update(i, p)),
{
    assert forall|k: int| 0 <= k < rows.len() implies has_project(ps.update(i, p), T::row_parent(#[trigger] rows[k])) by {
        let j = project_index(ps, T::row_parent(rows[k]));
        assert(has_project(ps, T::row_parent(rows[k])));
        assert(ps.update(i, p)[j].id == ps[j].id);
    }
}

/// A project's history stays shorter than the next edit id.
pub proof fn lemma_head_bound(s: StoreView, i: int)
    requires
        s.wf(),
        0 <= i < s.projects.len(),
    ensures
        s.projects[i].head_seq < s.ids.edit,
{
    assert(log_ok(rows_of::<Edit>(s.edits, s.projects[i].id), s.projects[i]));
    lemma_rows_of::<Edit>(s.edits, s.projects[i].id);
    lemma_ids_len::<Edit>(s.edits, s.ids.edit);
}

/// Appending edits within the project keeps what always holds.
pub proof fn lemma_edits_added(s: StoreView, i: int, ctx: Caller, edits: Seq<LightEditInput>)
    requires
        s.wf(),
        0 <= i < s.projects.len(),
        s.ids.edit + edits.len() <= u64::MAX,
        forall|k: int| 0 <= k < edits.len() ==> in_range(s.projects[i], (#[trigger] edits[k]).light, edits[k].frame, edits[k].state),
    ensures
        with_edits(s, i, ctx, edits).wf(),
{
    let t = with_edits(s, i, ctx, edits);
    let p = s.projects[i];
    let q = t.projects[i];
    let more = logged(p, ctx, edits, s.ids.edit);
    lemma_head_bound(s, i);
    lemma_append_ids::<Edit>(s.edits, more, s.ids.edit, t.ids.edit);
    lemma_append_rows::<Edit>(s.edits, more, p.id);
    lemma_belong_update::<LaserKeyframe>(s.lasers, s.projects, i, q);
    lemma_belong_update::<ProjectorKeyframe>(s.projectors, s.projects, i, q);
    lemma_belong_update::<TurretKeyframe>(s.turrets, s.projects, i, q);
    lemma_belong_update::<Song>(s.songs, s.projects, i, q);
    lemma_belong_update::<Edit>(s.edits, s.projects, i, q);
    assert(belong::<Edit>(t.edits, t.projects)) by {
        assert forall|k: int| 0 <= k < t.edits.len() implies has_project(t.projects, Edit::row_parent(#[trigger] t.edits[k])) by {
            if k < s.edits.len() {
                assert(t.edits[k] == s.edits[k]);
            } else {
                assert(t.edits[k] == more[k - s.edits.len()]);
                assert(t.projects[i].id == p.id);
            }
        }
    }
    assert(ids_ok::<Project>(t.projects, t.ids.project)) by {
        assert forall|a: int| 0 <= a < t.projects.len() implies 1 <= Project::row_id(#[trigger] t.projects[a]) < t.ids.project by {
            assert(Project::row_id(s.projects[a]) == Project::row_id(t.projects[a]));
        }
        assert forall|a: int, b: int| 0 <= a < b < t.projects.len() implies Project::row_id(#[trigger] t.projects[a]) < Project::row_id(
            #[trigger] t.projects[b],
        ) by {
            assert(Project::row_id(s.projects[a]) < Project::row_id(s.projects[b]));
        }
    }
    assert(templates_ok(t.projects)) by {
        assert forall|a: int, b: int|
            0 <= a < b < t.projects.len() && (#[trigger] t.projects[a]).is_template && (#[trigger] t.projects[b]).is_template implies t.projects[a].name
            != t.projects[b].name by {
            assert(s.projects[a].name == t.projects[a].name && s.projects[a].is_template);
            assert(s.projects[b].name == t.projects[b].name && s.projects[b].is_template);
        }
    }
    assert(sizes_ok(t.projects)) by {
        assert forall|a: int|
            0 <= a < t.projects.len() implies 1 <= (#[trigger] t.projects[a]).num_lights <= 512 && 1 <= t.projects[a].num_frames
            <= 100_000 by {
            assert(s.projects[a].num_lights == t.projects[a].num_lights);
        }
    }
    assert(logs_ok(t.projects, t.edits)) by {
        assert forall|a: int| 0 <= a < t.projects.len() implies log_ok(rows_of::<Edit>(t.edits, (#[trigger] t.projects[a]).id), t.projects[a]) by {
            assert(log_ok(rows_of::<Edit>(s.edits, s.projects[a].id), s.projects[a]));
            if a != i {
                lemma_project_index(s.projects, s.ids.project, a);
                lemma_project_index(s.projects, s.ids.project, i);
                assert(t.projects[a].id != p.id);
            }
        }
    }
    assert(songs_ok(t.songs, t.projects)) by {
        assert forall|a: int| 0 <= a < t.songs.len() implies crate::store::song_ok(#[trigger] t.songs[a], t.projects) by {
            let song = s.songs[a];
            assert(crate::store::song_ok(song, s.projects));
            assert forall|j: int, k: int|
                0 <= j < t.projects.len() && (#[trigger] t.projects[j]).id == song.project_id && 0 <= k < song.beats_frames.len() implies #[trigger] song.beats_frames[k]
                < t.projects[j].num_frames by {
                assert(s.projects[j].id == song.project_id);
            }
        }
    }
}

/// Why `append_edit` refuses: the first of these that applies.
pub open spec fn append_edit_error(s: StoreView, ctx: Caller, project_id: u64, light: u32, frame: u32, state: u8) -> Option<Seq<char>> {
    let p = s.project(project_id);
    if !has_project(s.projects, project_id) {
        Some("Project not found"@)
    } else if p.owner != ctx.sender {
        Some("You do not own this project"@)
    } else if light >= p.num_lights {
        Some("light index out of range"@)
    } else if frame >= p.num_frames {
        Some("frame index out of range"@)
    } else if state > 2 {
        Some("state must be 0 (off), 1 (on) or 2 (clear)"@)
    } else {
        None
    }
}

/// Appends a keyframe edit. This is the only way a project's lights ever change,
/// which makes the edit log a complete, replayable history.
pub fn append_edit(store: &mut Store, ctx: &Caller, project_id: u64, light: u32, frame: u32, state: u8) -> (r: Result<(), String>)
    requires
        old(store)@.wf(),
        old(store)@.ids.edit < u64::MAX,
    ensures
        final(store)@.wf(),
        r is Err <==> append_edit_error(old(store)@, *ctx, project_id, light, frame, state) is Some,
        r matches Err(e) ==> Some(e@) == append_edit_error(old(store)@, *ctx, project_id, light, frame, state) && final(store)@
            == old(store)@,
        r is Ok ==> final(store)@ == with_edits(
            old(store)@,
            project_index(old(store)@.projects, project_id),
            *ctx,
            seq![LightEditInput { light, frame, state }],
        ),
{
    let found: Option<usize> = store.find_project(project_id);
    match found {
        None => Err("Project not found".to_owned()),
        Some(i) => {
            let mut project: Project = store.projects[i].clone();
            if project.owner != ctx.sender {
                return Err("You do not own this project".to_owned());
            }
            if light >= project.num_lights {
                return Err("light index out of range".to_owned());
            }
            if frame >= project.num_frames {
                return Err("frame index out of range".to_owned());
            }
            if state > 2 {
                return Err("state must be 0 (off), 1 (on) or 2 (clear)".to_owned());
            }
            let ghost s = store@;
            let ghost one = seq![LightEditInput { light, frame, state }];
            proof {
                lemma_head_bound(s, i as int);
                lemma_edits_added(s, i as int, *ctx, one);
            }
            let seq: u64 = project.head_seq + 1;
            project.head_seq = seq;
            let e: Edit = Edit {
                id: store.ids.edit,
                project_id,
                seq,
                author: ctx.sender,
                created_at: ctx.timestamp,
                light,
                frame,
                state,
            };
            store.edits.push(e);
            store.projects.set(i, project);
            store.ids.edit = store.ids.edit + 1;
            proof {
                let t = with_edits(s, i as int, *ctx, one);
                assert(store@.edits =~= t.edits);
                assert(store@.projects =~= t.projects);
                assert(store@ =~= t);
            }
            Ok(())
        },
    }
}

} // verus!
