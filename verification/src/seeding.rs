//! Seeded sample shows ("templates"), addressed by their unique name, and copying
//! a show into one that the caller owns.
use crate::projects::{
    clamp, in_order_project_subset, lemma_edits_added, lemma_head_bound, lemma_project_added, logged, new_project, with_edits,
    with_project,
};
use crate::rows::{
    Edit, LaserKeyframe, LaserKeyframeInput, LaserKeyframeView, LightEditInput, Project, ProjectView, ProjectorKeyframe,
    ProjectorKeyframeInput, Song, TurretKeyframe, TurretKeyframeInput,
};
use crate::songs::{
    chunk_arrived, chunk_error, delete_project_songs, has_song_of, lemma_song_removed, replace_song, song_error, song_index_of,
    song_info, song_replaced, store_chunk, without_song, SongInfo,
};
use crate::store::{
    belong, has_project, in_range, lemma_append_ids, lemma_project_index, lemma_rows_without, lemma_views_push, log_ok, logs_ok,
    project_index, remove_rows, row_views, rows_of, rows_without, song_ok, songs_ok, Caller, Ids, Row, Store, StoreView,
};
use crate::text::{chars_of, same_str, trim, trimmed};
use vstd::prelude::*;

verus! {

broadcast use {vstd::seq::group_seq_axioms, vstd::string::group_string_axioms};

// ---- templates --------------------------------------------------------------

/// There is a template of this name.
pub open spec fn has_template(ps: Seq<ProjectView>, name: Seq<char>) -> bool {
    exists|i: int| 0 <= i < ps.len() && (#[trigger] ps[i]).is_template && ps[i].name == name
}

/// Where that template stands.
pub open spec fn template_index(ps: Seq<ProjectView>, name: Seq<char>) -> int {
    choose|i: int| 0 <= i < ps.len() && (#[trigger] ps[i]).is_template && ps[i].name == name
}

/// Finds the template of a name. There is at most one.
pub fn find_template(store: &Store, name: &str) -> (r: Option<usize>)
    requires
        store@.wf(),
    ensures
        match r {
            Some(i) => has_template(store@.projects, name@) && i < store.projects@.len() && i == template_index(
                store@.projects,
                name@,
            ),
            None => !has_template(store@.projects, name@),
        },
{
    let ghost ps = store@.projects;
    let mut i: usize = 0;
    while i < store.projects.len()
        invariant
            i <= store.projects@.len(),
            store@.wf(),
            ps == store@.projects,
            forall|j: int| 0 <= j < i ==> !((#[trigger] ps[j]).is_template && ps[j].name == name@),
        decreases store.projects.len() - i,
    {
        assert(ps[i as int] == store.projects@[i as int]@);
        if store.projects[i].is_template && same_str(store.projects[i].name.as_str(), name) {
            proof {
                assert(has_template(ps, name@));
                let k = template_index(ps, name@);
                if k < i {
                    assert(ps[k].name != ps[i as int].name);
                } else if i < k {
                    assert(ps[i as int].name != ps[k].name);
                }
            }
            return Some(i);
        }
        i = i + 1;
    }
    None
}

/// The tables without a project's edits and fixture keyframes.
pub open spec fn without_children(s: StoreView, project: u64) -> StoreView {
    StoreView {
        edits: rows_without::<Edit>(s.edits, project),
        lasers: rows_without::<LaserKeyframe>(s.lasers, project),
        projectors: rows_without::<ProjectorKeyframe>(s.projectors, project),
        turrets: rows_without::<TurretKeyframe>(s.turrets, project),
        ..s
    }
}

/// Deletes a project's edit log and fixture keyframes, not the project row nor
/// its song. What always holds does not hold again until the row is gone too.
pub(crate) fn delete_project_children(store: &mut Store, project_id: u64)
    ensures
        final(store)@ == without_children(old(store)@, project_id),
{
    let ghost s = store@;
    remove_rows(&mut store.edits, project_id);
    remove_rows(&mut store.lasers, project_id);
    remove_rows(&mut store.projectors, project_id);
    remove_rows(&mut store.turrets, project_id);
    assert(store@ =~= without_children(s, project_id));
}

/// The tables without a project and all that belongs to it.
pub open spec fn without_project(s: StoreView, project: u64) -> StoreView {
    let t = without_children(without_song(s, project), project);
    StoreView { projects: rows_without::<Project>(t.projects, project), ..t }
}

proof fn lemma_belong_without<T: Row>(rows: Seq<T::V>, ps: Seq<ProjectView>, project: u64, next: u64)
    requires
        belong::<T>(rows, ps),
    ensures
        belong::<T>(rows_without::<T>(rows, project), rows_without::<Project>(ps, project)),
{
    let r = rows_without::<T>(rows, project);
    let q = rows_without::<Project>(ps, project);
    lemma_rows_without::<T>(rows, project, next);
    lemma_rows_without::<Project>(ps, project, next);
    assert forall|i: int| 0 <= i < r.len() implies has_project(q, T::row_parent(#[trigger] r[i])) by {
        assert(rows.contains(r[i]));
        let k = choose|k: int| 0 <= k < rows.len() && rows[k] == r[i];
        assert(has_project(ps, T::row_parent(rows[k])));
        let m = project_index(ps, T::row_parent(rows[k]));
        assert(Project::row_parent(ps[m]) != project);
        assert(q.contains(ps[m]));
        let n = choose|n: int| 0 <= n < q.len() && q[n] == ps[m];
        assert(q[n].id == T::row_parent(r[i]));
    }
}

/// Removing a project with all that belongs to it keeps what always holds.
pub proof fn lemma_project_removed(s: StoreView, project: u64)
    requires
        s.wf(),
    ensures
        without_project(s, project).wf(),
        !has_project(without_project(s, project).projects, project),
{
    let a = without_song(s, project);
    let t = without_project(s, project);
    lemma_song_removed(s, project);
    lemma_rows_without::<Project>(a.projects, project, a.ids.project);
    lemma_rows_without::<Edit>(a.edits, project, a.ids.edit);
    lemma_rows_without::<LaserKeyframe>(a.lasers, project, a.ids.laser);
    lemma_rows_without::<ProjectorKeyframe>(a.projectors, project, a.ids.projector);
    lemma_rows_without::<TurretKeyframe>(a.turrets, project, a.ids.turret);
    lemma_belong_without::<Edit>(a.edits, a.projects, project, 1);
    lemma_belong_without::<LaserKeyframe>(a.lasers, a.projects, project, 1);
    lemma_belong_without::<ProjectorKeyframe>(a.projectors, a.projects, project, 1);
    lemma_belong_without::<TurretKeyframe>(a.turrets, a.projects, project, 1);
    lemma_belong_without::<Song>(a.songs, a.projects, project, 1);
    lemma_rows_without::<Song>(a.songs, project, a.ids.song);
    assert(belong::<Song>(t.songs, t.projects)) by {
        assert forall|i: int| 0 <= i < t.songs.len() implies has_project(t.projects, Song::row_parent(#[trigger] t.songs[i])) by {
            assert(Song::row_parent(a.songs[i]) != project);
            let w = rows_without::<Song>(a.songs, project);
            assert(w.contains(a.songs[i]));
            let k = choose|k: int| 0 <= k < w.len() && w[k] == a.songs[i];
            assert(has_project(t.projects, Song::row_parent(w[k])));
        }
    }
    in_order_project_subset(a.projects, t.projects, a.ids.project);
    assert(logs_ok(t.projects, t.edits)) by {
        assert forall|i: int| 0 <= i < t.projects.len() implies log_ok(rows_of::<Edit>(t.edits, (#[trigger] t.projects[i]).id), t.projects[i]) by {
            assert(Project::row_parent(t.projects[i]) != project);
            assert(a.projects.contains(t.projects[i]));
            let k = choose|k: int| 0 <= k < a.projects.len() && a.projects[k] == t.projects[i];
            assert(log_ok(rows_of::<Edit>(a.edits, a.projects[k].id), a.projects[k]));
        }
    }
    assert(songs_ok(t.songs, t.projects)) by {
        assert forall|i: int| 0 <= i < t.songs.len() implies song_ok(#[trigger] t.songs[i], t.projects) by {
            let song = a.songs[i];
            assert(song_ok(song, a.projects));
            assert forall|j: int, k: int|
                0 <= j < t.projects.len() && (#[trigger] t.projects[j]).id == song.project_id && 0 <= k < song.beats_frames.len() implies #[trigger] song.beats_frames[k]
                < t.projects[j].num_frames by {
                assert(a.projects.contains(t.projects[j]));
                let m = choose|m: int| 0 <= m < a.projects.len() && a.projects[m] == t.projects[j];
                assert(a.projects[m].id == song.project_id);
            }
        }
    }
    if has_project(t.projects, project) {
        let k = project_index(t.projects, project);
        assert(Project::row_parent(t.projects[k]) != project);
    }
}

/// The tables without the template of this name.
pub open spec fn without_template(s: StoreView, name: Seq<char>) -> StoreView {
    if has_template(s.projects, name) {
        without_project(s, s.projects[template_index(s.projects, name)].id)
    } else {
        s
    }
}

/// After its removal there is no template of that name.
pub proof fn lemma_template_gone(s: StoreView, name: Seq<char>)
    requires
        s.wf(),
    ensures
        without_template(s, name).wf(),
        !has_template(without_template(s, name).projects, name),
{
    let t = without_template(s, name);
    if has_template(s.projects, name) {
        let g = template_index(s.projects, name);
        let id = s.projects[g].id;
        lemma_project_removed(s, id);
        lemma_rows_without::<Project>(s.projects, id, s.ids.project);
        if has_template(t.projects, name) {
            let k = template_index(t.projects, name);
            assert(Project::row_parent(t.projects[k]) != id);
            assert(s.projects.contains(t.projects[k]));
            let m = choose|m: int| 0 <= m < s.projects.len() && s.projects[m] == t.projects[k];
            if m < g {
                assert(s.projects[m].name != s.projects[g].name);
            } else if g < m {
                assert(s.projects[g].name != s.projects[m].name);
            }
        }
    }
}

/// Creates (or replaces) the template of a name.
pub fn seed_project(store: &mut Store, ctx: &Caller, name: String, num_lights: u32, num_frames: u32) -> (r: Result<(), String>)
    requires
        old(store)@.wf(),
        old(store)@.ids.project < u64::MAX,
    ensures
        final(store)@.wf(),
        r is Err <==> trimmed(name@).len() == 0,
        r matches Err(e) ==> e@ == "name is required"@ && final(store)@ == old(store)@,
        r is Ok ==> final(store)@ == with_project(
            without_template(old(store)@, name@),
            new_project(old(store)@, *ctx, name@, num_lights, num_frames, true),
        ),
{
    let bare: Vec<char> = trim(&chars_of(name.as_str()));
    if bare.len() == 0 {
        return Err("name is required".to_owned());
    }
    let ghost s = store@;
    proof {
        lemma_template_gone(s, name@);
    }
    let existing: Option<usize> = find_template(store, name.as_str());
    match existing {
        Some(i) => {
            let id: u64 = store.projects[i].id;
            assert(s.projects[i as int] == store.projects@[i as int]@);
            delete_project_songs(store, id);
            delete_project_children(store, id);
            remove_rows(&mut store.projects, id);
        },
        None => {},
    }
    let ghost t = without_template(s, name@);
    assert(store@ =~= t);
    let p: Project = Project {
        id: store.ids.project,
        owner: ctx.sender,
        name,
        num_lights: clamp(num_lights, 1, 512),
        num_frames: clamp(num_frames, 1, 100_000),
        created_at: ctx.timestamp,
        head_seq: 0,
        is_template: true,
        is_blueprint: false,
    };
    let ghost v = p@;
    store.projects.push(p);
    store.ids.project = store.ids.project + 1;
    proof {
        assert forall|i: int| 0 <= i < t.projects.len() && (#[trigger] t.projects[i]).is_template implies t.projects[i].name != v.name by {
            if t.projects[i].name == v.name {
                assert(has_template(t.projects, v.name));
            }
        }
        lemma_project_added(t, v);
        assert(store@ =~= with_project(t, v));
    }
    Ok(())
}

// ---- a template's content ---------------------------------------------------

/// Why an operation on a template is refused.
pub open spec fn template_error(s: StoreView, name: Seq<char>) -> Option<Seq<char>> {
    if has_template(s.projects, name) {
        None
    } else {
        Some("template not found"@)
    }
}

/// The edits that lie within the project.
pub open spec fn accepted(p: ProjectView, edits: Seq<LightEditInput>) -> Seq<LightEditInput> {
    edits.filter(|e: LightEditInput| in_range(p, e.light, e.frame, e.state))
}

proof fn lemma_accepted_push(p: ProjectView, edits: Seq<LightEditInput>, e: LightEditInput)
    ensures
        accepted(p, edits.push(e)) == (if in_range(p, e.light, e.frame, e.state) {
            accepted(p, edits).push(e)
        } else {
            accepted(p, edits)
        }),
{
    reveal(Seq::filter);
    assert(edits.push(e).drop_last() =~= edits);
}

proof fn lemma_accepted(p: ProjectView, edits: Seq<LightEditInput>)
    ensures
        accepted(p, edits).len() <= edits.len(),
        forall|k: int|
            0 <= k < accepted(p, edits).len() ==> in_range(
                p,
                (#[trigger] accepted(p, edits)[k]).light,
                accepted(p, edits)[k].frame,
                accepted(p, edits)[k].state,
            ),
    decreases edits.len(),
{
    reveal(Seq::filter);
    if edits.len() > 0 {
        lemma_accepted(p, edits.drop_last());
        lemma_accepted_push(p, edits.drop_last(), edits.last());
        assert(edits.drop_last().push(edits.last()) =~= edits);
    }
}

/// Appends light keyframes to a template's log in bulk. Edits outside the
/// project are left out.
pub fn seed_light_edits(store: &mut Store, ctx: &Caller, name: String, edits: Vec<LightEditInput>) -> (r: Result<(), String>)
    requires
        old(store)@.wf(),
        old(store)@.ids.edit + edits@.len() <= u64::MAX,
    ensures
        final(store)@.wf(),
        r is Err <==> template_error(old(store)@, name@) is Some,
        r matches Err(e) ==> Some(e@) == template_error(old(store)@, name@) && final(store)@ == old(store)@,
        r is Ok ==> final(store)@ == with_edits(
            old(store)@,
            template_index(old(store)@.projects, name@),
            *ctx,
            accepted(old(store)@.projects[template_index(old(store)@.projects, name@)], edits@),
        ),
{
    let found: Option<usize> = find_template(store, name.as_str());
    match found {
        None => Err("template not found".to_owned()),
        Some(i) => {
            let ghost s = store@;
            let mut project: Project = store.projects[i].clone();
            let ghost p = project@;
            assert(s.projects[i as int] == p);
            proof {
                lemma_head_bound(s, i as int);
                lemma_accepted(p, edits@);
                lemma_edits_added(s, i as int, *ctx, accepted(p, edits@));
                reveal(Seq::filter);
                assert(edits@.take(0) =~= Seq::<LightEditInput>::empty());
                assert(with_edits(s, i as int, *ctx, Seq::empty()).edits =~= s.edits);
                assert(row_views(store.edits@) =~= s.edits);
            }
            let mut seq: u64 = project.head_seq;
            let mut k: usize = 0;
            while k < edits.len()
                invariant
                    k <= edits@.len(),
                    s.ids.edit + edits@.len() <= u64::MAX,
                    p.head_seq < s.ids.edit,
                    p == s.projects[i as int],
                    p == project@,
                    i < s.projects.len(),
                    accepted(p, edits@.take(k as int)).len() <= k,
                    seq == p.head_seq + accepted(p, edits@.take(k as int)).len(),
                    store@ == (StoreView {
                        edits: with_edits(s, i as int, *ctx, accepted(p, edits@.take(k as int))).edits,
                        ids: with_edits(s, i as int, *ctx, accepted(p, edits@.take(k as int))).ids,
                        ..s
                    }),
                decreases edits.len() - k,
            {
                let e: LightEditInput = edits[k];
                let ghost done = accepted(p, edits@.take(k as int));
                let ghost t = with_edits(s, i as int, *ctx, done);
                proof {
                    assert(edits@.take(k + 1) =~= edits@.take(k as int).push(e));
                    lemma_accepted_push(p, edits@.take(k as int), e);
                }
                if !(e.light >= project.num_lights || e.frame >= project.num_frames || e.state > 2) {
                    seq = seq + 1;
                    let ghost before = store.edits@;
                    store.edits.push(
                        Edit {
                            id: store.ids.edit,
                            project_id: project.id,
                            seq,
                            author: ctx.sender,
                            created_at: ctx.timestamp,
                            light: e.light,
                            frame: e.frame,
                            state: e.state,
                        },
                    );
                    store.ids.edit = store.ids.edit + 1;
                    proof {
                        lemma_views_push(before, store.edits@.last());
                        assert(logged(p, *ctx, done.push(e), s.ids.edit) =~= logged(p, *ctx, done, s.ids.edit).push(
                            store@.edits.last(),
                        ));
                        assert(store@.edits =~= with_edits(s, i as int, *ctx, done.push(e)).edits);
                    }
                }
                k = k + 1;
                assert(store@ =~= (StoreView {
                    edits: with_edits(s, i as int, *ctx, accepted(p, edits@.take(k as int))).edits,
                    ids: with_edits(s, i as int, *ctx, accepted(p, edits@.take(k as int))).ids,
                    ..s
                }));
            }
            assert(edits@.take(edits@.len() as int) =~= edits@);
            project.head_seq = seq;
            store.projects.set(i, project);
            proof {
                let t = with_edits(s, i as int, *ctx, accepted(p, edits@));
                assert(store@.projects =~= t.projects);
                assert(store@ =~= t);
            }
            Ok(())
        },
    }
}

/// The laser rows that a bulk insert adds.
pub open spec fn laser_rows(project: u64, rows: Seq<LaserKeyframeInput>, next: u64) -> Seq<LaserKeyframeView> {
    rows.map(
        |k: int, r: LaserKeyframeInput|
            LaserKeyframeView {
                id: (next + k) as u64,
                project_id: project,
                frame: r.frame,
                channel: r.channel,
                enable: r.enable,
                pattern: r.pattern,
                cr: r.cr,
                cg: r.cg,
                cb: r.cb,
                points: r.points@,
            },
    )
}

/// The projector rows that a bulk insert adds.
pub open spec fn projector_rows(project: u64, rows: Seq<ProjectorKeyframeInput>, next: u64) -> Seq<ProjectorKeyframe> {
    rows.map(
        |k: int, r: ProjectorKeyframeInput|
            ProjectorKeyframe {
                id: (next + k) as u64,
                project_id: project,
                frame: r.frame,
                channel: r.channel,
                state: r.state,
                gallery: r.gallery,
                pattern: r.pattern,
                colour: r.colour,
            },
    )
}

/// The turret rows that a bulk insert adds.
pub open spec fn turret_rows(project: u64, rows: Seq<TurretKeyframeInput>, next: u64) -> Seq<TurretKeyframe> {
    rows.map(
        |k: int, r: TurretKeyframeInput|
            TurretKeyframe {
                id: (next + k) as u64,
                project_id: project,
                frame: r.frame,
                channel: r.channel,
                state: r.state,
                pan: r.pan,
                tilt: r.tilt,
            },
    )
}

/// The tables with laser keyframes added to the project at `i`.
pub open spec fn with_lasers(s: StoreView, i: int, rows: Seq<LaserKeyframeInput>) -> StoreView {
    StoreView {
        lasers: s.lasers + laser_rows(s.projects[i].id, rows, s.ids.laser),
        ids: Ids { laser: (s.ids.laser + rows.len()) as u64, ..s.ids },
        ..s
    }
}

/// The tables with projector keyframes added to the project at `i`.
pub open spec fn with_projectors(s: StoreView, i: int, rows: Seq<ProjectorKeyframeInput>) -> StoreView {
    StoreView {
        projectors: s.projectors + projector_rows(s.projects[i].id, rows, s.ids.projector),
        ids: Ids { projector: (s.ids.projector + rows.len()) as u64, ..s.ids },
        ..s
    }
}

/// The tables with turret keyframes added to the project at `i`.
pub open spec fn with_turrets(s: StoreView, i: int, rows: Seq<TurretKeyframeInput>) -> StoreView {
    StoreView {
        turrets: s.turrets + turret_rows(s.projects[i].id, rows, s.ids.turret),
        ids: Ids { turret: (s.ids.turret + rows.len()) as u64, ..s.ids },
        ..s
    }
}

proof fn lemma_belong_add<T: Row>(rows: Seq<T::V>, more: Seq<T::V>, ps: Seq<ProjectView>)
    requires
        belong::<T>(rows, ps),
        belong::<T>(more, ps),
    ensures
        belong::<T>(rows + more, ps),
{
    let t = rows + more;
    assert forall|i: int| 0 <= i < t.len() implies has_project(ps, T::row_parent(#[trigger] t[i])) by {
        if i < rows.len() {
            assert(t[i] == rows[i]);
        } else {
            assert(t[i] == more[i - rows.len()]);
        }
    }
}

/// Adds laser keyframes to a template in bulk.
pub fn seed_laser_keyframes(store: &mut Store, ctx: &Caller, name: String, rows: Vec<LaserKeyframeInput>) -> (r: Result<(), String>)
    requires
        old(store)@.wf(),
        old(store)@.ids.laser + rows@.len() <= u64::MAX,
    ensures
        final(store)@.wf(),
        r is Err <==> template_error(old(store)@, name@) is Some,
        r matches Err(e) ==> Some(e@) == template_error(old(store)@, name@) && final(store)@ == old(store)@,
        r is Ok ==> final(store)@ == with_lasers(old(store)@, template_index(old(store)@.projects, name@), rows@),
{
    let found: Option<usize> = find_template(store, name.as_str());
    match found {
        None => Err("template not found".to_owned()),
        Some(i) => {
            let ghost s = store@;
            let project_id: u64 = store.projects[i].id;
            assert(s.projects[i as int] == store.projects@[i as int]@);
            let mut k: usize = 0;
            assert(with_lasers(s, i as int, rows@.take(0)) =~= s);
            while k < rows.len()
                invariant
                    k <= rows@.len(),
                    s.ids.laser + rows@.len() <= u64::MAX,
                    project_id == s.projects[i as int].id,
                    store@ == with_lasers(s, i as int, rows@.take(k as int)),
                decreases rows.len() - k,
            {
                let r: &LaserKeyframeInput = &rows[k];
                let ghost before = store.lasers@;
                store.lasers.push(
                    LaserKeyframe {
                        id: store.ids.laser,
                        project_id,
                        frame: r.frame,
                        channel: r.channel,
                        enable: r.enable,
                        pattern: r.pattern,
                        cr: r.cr,
                        cg: r.cg,
                        cb: r.cb,
                        points: crate::rows::copy_vec(&r.points),
                    },
                );
                store.ids.laser = store.ids.laser + 1;
                k = k + 1;
                proof {
                    let t = with_lasers(s, i as int, rows@.take(k as int));
                    let less = laser_rows(project_id, rows@.take(k - 1), s.ids.laser);
                    lemma_views_push(before, store.lasers@.last());
                    assert(laser_rows(project_id, rows@.take(k as int), s.ids.laser) =~= less.push(store@.lasers.last()));
                    assert(store@.lasers =~= t.lasers);
                    assert(store@ =~= t);
                }
            }
            assert(rows@.take(rows@.len() as int) =~= rows@);
            proof {
                let more = laser_rows(project_id, rows@, s.ids.laser);
                lemma_append_ids::<LaserKeyframe>(s.lasers, more, s.ids.laser, store@.ids.laser);
                lemma_project_index(s.projects, s.ids.project, i as int);
                lemma_belong_add::<LaserKeyframe>(s.lasers, more, s.projects);
            }
            Ok(())
        },
    }
}

/// Adds projector keyframes to a template in bulk.
pub fn seed_projector_keyframes(store: &mut Store, ctx: &Caller, name: String, rows: Vec<ProjectorKeyframeInput>) -> (r: Result<
    (),
    String,
>)
    requires
        old(store)@.wf(),
        old(store)@.ids.projector + rows@.len() <= u64::MAX,
    ensures
        final(store)@.wf(),
        r is Err <==> template_error(old(store)@, name@) is Some,
        r matches Err(e) ==> Some(e@) == template_error(old(store)@, name@) && final(store)@ == old(store)@,
        r is Ok ==> final(store)@ == with_projectors(old(store)@, template_index(old(store)@.projects, name@), rows@),
{
    let found: Option<usize> = find_template(store, name.as_str());
    match found {
        None => Err("template not found".to_owned()),
        Some(i) => {
            let ghost s = store@;
            let project_id: u64 = store.projects[i].id;
            assert(s.projects[i as int] == store.projects@[i as int]@);
            let mut k: usize = 0;
            assert(with_projectors(s, i as int, rows@.take(0)) =~= s);
            while k < rows.len()
                invariant
                    k <= rows@.len(),
                    s.ids.projector + rows@.len() <= u64::MAX,
                    project_id == s.projects[i as int].id,
                    store@ == with_projectors(s, i as int, rows@.take(k as int)),
                decreases rows.len() - k,
            {
                let r: ProjectorKeyframeInput = rows[k];
                let ghost before = store.projectors@;
                store.projectors.push(
                    ProjectorKeyframe {
                        id: store.ids.projector,
                        project_id,
                        frame: r.frame,
                        channel: r.channel,
                        state: r.state,
                        gallery: r.gallery,
                        pattern: r.pattern,
                        colour: r.colour,
                    },
                );
                store.ids.projector = store.ids.projector + 1;
                k = k + 1;
                proof {
                    let t = with_projectors(s, i as int, rows@.take(k as int));
                    let less = projector_rows(project_id, rows@.take(k - 1), s.ids.projector);
                    lemma_views_push(before, store.projectors@.last());
                    assert(projector_rows(project_id, rows@.take(k as int), s.ids.projector) =~= less.push(store@.projectors.last()));
                    assert(store@.projectors =~= t.projectors);
                    assert(store@ =~= t);
                }
            }
            assert(rows@.take(rows@.len() as int) =~= rows@);
            proof {
                let more = projector_rows(project_id, rows@, s.ids.projector);
                lemma_append_ids::<ProjectorKeyframe>(s.projectors, more, s.ids.projector, store@.ids.projector);
                lemma_project_index(s.projects, s.ids.project, i as int);
                lemma_belong_add::<ProjectorKeyframe>(s.projectors, more, s.projects);
            }
            Ok(())
        },
    }
}

/// Adds turret keyframes to a template in bulk.
pub fn seed_turret_keyframes(store: &mut Store, ctx: &Caller, name: String, rows: Vec<TurretKeyframeInput>) -> (r: Result<(), String>)
    requires
        old(store)@.wf(),
        old(store)@.ids.turret + rows@.len() <= u64::MAX,
    ensures
        final(store)@.wf(),
        r is Err <==> template_error(old(store)@, name@) is Some,
        r matches Err(e) ==> Some(e@) == template_error(old(store)@, name@) && final(store)@ == old(store)@,
        r is Ok ==> final(store)@ == with_turrets(old(store)@, template_index(old(store)@.projects, name@), rows@),
{
    let found: Option<usize> = find_template(store, name.as_str());
    match found {
        None => Err("template not found".to_owned()),
        Some(i) => {
            let ghost s = store@;
            let project_id: u64 = store.projects[i].id;
            assert(s.projects[i as int] == store.projects@[i as int]@);
            let mut k: usize = 0;
            assert(with_turrets(s, i as int, rows@.take(0)) =~= s);
            while k < rows.len()
                invariant
                    k <= rows@.len(),
                    s.ids.turret + rows@.len() <= u64::MAX,
                    project_id == s.projects[i as int].id,
                    store@ == with_turrets(s, i as int, rows@.take(k as int)),
                decreases rows.len() - k,
            {
                let r: TurretKeyframeInput = rows[k];
                let ghost before = store.turrets@;
                store.turrets.push(
                    TurretKeyframe {
                        id: store.ids.turret,
                        project_id,
                        frame: r.frame,
                        channel: r.channel,
                        state: r.state,
                        pan: r.pan,
                        tilt: r.tilt,
                    },
                );
                store.ids.turret = store.ids.turret + 1;
                k = k + 1;
                proof {
                    let t = with_turrets(s, i as int, rows@.take(k as int));
                    let less = turret_rows(project_id, rows@.take(k - 1), s.ids.turret);
                    lemma_views_push(before, store.turrets@.last());
                    assert(turret_rows(project_id, rows@.take(k as int), s.ids.turret) =~= less.push(store@.turrets.last()));
                    assert(store@.turrets =~= t.turrets);
                    assert(store@ =~= t);
                }
            }
            assert(rows@.take(rows@.len() as int) =~= rows@);
            proof {
                let more = turret_rows(project_id, rows@, s.ids.turret);
                lemma_append_ids::<TurretKeyframe>(s.turrets, more, s.ids.turret, store@.ids.turret);
                lemma_project_index(s.projects, s.ids.project, i as int);
                lemma_belong_add::<TurretKeyframe>(s.turrets, more, s.projects);
            }
            Ok(())
        },
    }
}

/// Why `seed_song` refuses: the first of these that applies.
pub open spec fn seed_song_error(s: StoreView, name: Seq<char>, byte_len: u64, num_chunks: u32) -> Option<Seq<char>> {
    if template_error(s, name) is Some {
        template_error(s, name)
    } else {
        song_error(byte_len, num_chunks)
    }
}

/// Begins the upload of a template's song.
pub fn seed_song(
    store: &mut Store,
    ctx: &Caller,
    name: String,
    song_name: String,
    mime: String,
    byte_len: u64,
    num_chunks: u32,
    duration_ms: u32,
    fps_bits: u32,
    beats_frames: Vec<u32>,
    bpm_bits: u32,
    first_beat_ms: u32,
) -> (r: Result<(), String>)
    requires
        old(store)@.wf(),
        old(store)@.ids.song < u64::MAX,
    ensures
        final(store)@.wf(),
        r is Err <==> seed_song_error(old(store)@, name@, byte_len, num_chunks) is Some,
        r matches Err(e) ==> Some(e@) == seed_song_error(old(store)@, name@, byte_len, num_chunks) && final(store)@ == old(store)@,
        r is Ok ==> final(store)@ == song_replaced(
            old(store)@,
            *ctx,
            old(store)@.projects[template_index(old(store)@.projects, name@)].id,
            song_info(song_name@, mime@, byte_len, num_chunks, duration_ms, fps_bits, beats_frames@, bpm_bits, first_beat_ms),
        ),
{
    let found: Option<usize> = find_template(store, name.as_str());
    match found {
        None => Err("template not found".to_owned()),
        Some(i) => {
            let info: SongInfo = SongInfo {
                name: song_name,
                mime,
                byte_len,
                num_chunks,
                duration_ms,
                fps_bits,
                beats_frames,
                bpm_bits,
                first_beat_ms,
            };
            replace_song(store, ctx, i, info)
        },
    }
}

/// Why `seed_song_chunk` refuses: the first of these that applies.
pub open spec fn seed_chunk_error(s: StoreView, name: Seq<char>, idx: u32, data: Seq<u8>) -> Option<Seq<char>> {
    let project = s.projects[template_index(s.projects, name)].id;
    if template_error(s, name) is Some {
        template_error(s, name)
    } else if !has_song_of(s.songs, project) {
        Some("song upload not begun"@)
    } else {
        chunk_error(s.songs[song_index_of(s.songs, project)], idx, data)
    }
}

/// Appends one audio chunk to a template's song upload.
pub fn seed_song_chunk(store: &mut Store, ctx: &Caller, name: String, idx: u32, data: Vec<u8>) -> (r: Result<(), String>)
    requires
        old(store)@.wf(),
        old(store)@.ids.chunk < u64::MAX,
    ensures
        final(store)@.wf(),
        r is Err <==> seed_chunk_error(old(store)@, name@, idx, data@) is Some,
        r matches Err(e) ==> Some(e@) == seed_chunk_error(old(store)@, name@, idx, data@) && final(store)@ == old(store)@,
        r is Ok ==> final(store)@ == chunk_arrived(
            old(store)@,
            song_index_of(old(store)@.songs, old(store)@.projects[template_index(old(store)@.projects, name@)].id),
            idx,
            data@,
        ),
{
    let found: Option<usize> = find_template(store, name.as_str());
    match found {
        None => Err("template not found".to_owned()),
        Some(p) => {
            assert(store@.projects[p as int] == store.projects@[p as int]@);
            let song: Option<usize> = store.find_song_of(store.projects[p].id);
            match song {
                None => Err("song upload not begun".to_owned()),
                Some(i) => store_chunk(store, i, idx, data),
            }
        },
    }
}

} // verus!
