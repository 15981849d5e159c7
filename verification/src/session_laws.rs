//! What a session shows: the lists of projects, the history, and edits on their way.
use crate::lists::lemma_pushed;
use crate::logic::{folded, law_prediction, overlaid};
use crate::rows::{Edit, Identity, LightEditInput, Project, ProjectView};
use crate::scene::{is_open, shows, shows_open, HeldGrid};
use crate::session::{by_id, cutoff_of, edits_of, in_history, landed, listed, listed_projects, ProjectList};
use vstd::prelude::*;

verus! {

broadcast use vstd::seq::group_seq_axioms;

/// A user sees the templates and what is the user's own, and nothing else. Each of these
/// is in the list of samples, in the user's own shows or among the user's blueprints, and
/// no show that is listed as one's own is a sample or a blueprint.
pub proof fn law_lists(me: Option<Identity>, p: ProjectView)
    ensures
        listed(ProjectList::Visible, me, p) <==> p.is_template || me == Some(p.owner),
        listed(ProjectList::Visible, me, p) <==> listed(ProjectList::Mine, me, p) || listed(ProjectList::Samples, me, p) || listed(
            ProjectList::Blueprints,
            me,
            p,
        ),
        listed(ProjectList::Mine, me, p) ==> !listed(ProjectList::Samples, me, p) && !listed(ProjectList::Blueprints, me, p),
        listed(ProjectList::Samples, me, p) <==> p.is_template,
        listed(ProjectList::Blueprints, me, p) ==> p.is_blueprint && me == Some(p.owner),
        me is None ==> !listed(ProjectList::Mine, me, p) && !listed(ProjectList::Blueprints, me, p),
{
}

/// A list holds exactly the projects of the table that belong into it.
pub proof fn law_listed_projects(list: ProjectList, me: Option<Identity>, ps: Seq<ProjectView>, p: ProjectView)
    ensures
        listed_projects(list, me, ps).contains(p) <==> ps.contains(p) && listed(list, me, p),
    decreases ps.len(),
{
    if ps.len() > 0 {
        let rest = ps.drop_last();
        let z = ps.last();
        law_listed_projects(list, me, rest, p);
        assert(ps =~= rest.push(z));
        lemma_pushed(rest, z, p);
        lemma_pushed(listed_projects(list, me, rest), z, p);
    }
}

/// The log of a project holds exactly its own edits of the table.
pub proof fn law_edits_of(all: Seq<Edit>, project: u64, e: Edit)
    ensures
        edits_of(all, project).contains(e) <==> all.contains(e) && e.project_id == project,
        edits_of(all, project).len() <= all.len(),
    decreases all.len(),
{
    if all.len() > 0 {
        let rest = all.drop_last();
        law_edits_of(rest, project, e);
        assert(all =~= rest.push(all.last()));
        lemma_pushed(rest, all.last(), e);
        lemma_pushed(edits_of(rest, project), all.last(), e);
    }
}

/// The history cursor picks a version: at or past the newest edit, or without a cursor,
/// the live show is shown; before it, the show as of that edit.
pub proof fn law_cursor(pos: u64, head: u64)
    ensures
        cutoff_of(None, head) == head && !in_history(None, head),
        cutoff_of(Some(pos), head) <= head,
        pos <= head ==> cutoff_of(Some(pos), head) == pos,
        in_history(Some(pos), head) <==> cutoff_of(Some(pos), head) != head,
{
}

/// The places in the log of the user's own edits after `base`.
pub open spec fn own_after(log: Seq<Edit>, me: Identity, base: u64) -> Set<int> {
    Set::<int>::range(0, log.len() as int).filter(|i: int| log[i].author == me && log[i].seq > base)
}

proof fn lemma_landed(log: Seq<Edit>, me: Identity, base: u64)
    ensures
        own_after(log, me, base).finite(),
        landed(log, Some(me), base) == own_after(log, me, base).len(),
    decreases log.len(),
{
    if log.len() == 0 {
        assert(own_after(log, me, base) =~= Set::empty());
    } else {
        let rest = log.drop_last();
        let z = log.len() - 1;
        lemma_landed(rest, me, base);
        let a = own_after(rest, me, base);
        let b = own_after(log, me, base);
        assert forall|i: int| 0 <= i < z implies #[trigger] rest[i] == log[i] by {}
        if log[z].author == me && log[z].seq > base {
            assert(b =~= a.insert(z));
        } else {
            assert(b =~= a);
        }
    }
}

/// Edits that come back are counted once each, whoever else edits: the count is the
/// number of the user's own edits after the point where the first was sent. Nobody's
/// edits are counted for a visitor.
pub proof fn law_landed(log: Seq<Edit>, me: Identity, base: u64)
    ensures
        landed(log, Some(me), base) == own_after(log, me, base).len(),
        landed(log, None, base) == 0,
    decreases log.len(),
{
    lemma_landed(log, me, base);
    if log.len() > 0 {
        law_landed(log.drop_last(), me, base);
    }
}

/// Edits show as soon as they are sent and nothing flickers when they come back: once
/// the log ends with the pending edits, as many came back as were pending, and the log
/// alone shows what the pending edits showed.
pub proof fn law_pending_lands(log: Seq<Edit>, acked: Seq<Edit>, pending: Seq<LightEditInput>, me: Identity, base: u64, head: u64)
    requires
        acked.len() == pending.len(),
        forall|i: int|
            0 <= i < acked.len() ==> (#[trigger] acked[i]).author == me && base < acked[i].seq <= head && acked[i].light == pending[i].light
                && acked[i].frame == pending[i].frame && acked[i].state == pending[i].state,
        forall|i: int| 0 <= i < log.len() ==> (#[trigger] log[i]).seq <= base,
    ensures
        landed(log, Some(me), base) == 0,
        landed(log + acked, Some(me), base) == pending.len(),
        folded(log + acked, head) == overlaid(folded(log, head), pending),
{
    lemma_none_landed(log, me, base);
    lemma_all_landed(log, acked, me, base);
    law_prediction(log, acked, pending, head);
}

proof fn lemma_none_landed(log: Seq<Edit>, me: Identity, base: u64)
    requires
        forall|i: int| 0 <= i < log.len() ==> (#[trigger] log[i]).seq <= base,
    ensures
        landed(log, Some(me), base) == 0,
    decreases log.len(),
{
    if log.len() > 0 {
        assert(log[log.len() - 1].seq <= base);
        lemma_none_landed(log.drop_last(), me, base);
    }
}

proof fn lemma_all_landed(log: Seq<Edit>, acked: Seq<Edit>, me: Identity, base: u64)
    requires
        forall|i: int| 0 <= i < log.len() ==> (#[trigger] log[i]).seq <= base,
        forall|i: int| 0 <= i < acked.len() ==> (#[trigger] acked[i]).author == me && base < acked[i].seq,
    ensures
        landed(log + acked, Some(me), base) == acked.len(),
    decreases acked.len(),
{
    if acked.len() == 0 {
        assert(log + acked =~= log);
        lemma_none_landed(log, me, base);
    } else {
        assert((log + acked).drop_last() =~= log + acked.drop_last());
        assert((log + acked).last() == acked[acked.len() - 1]);
        lemma_all_landed(log, acked.drop_last(), me, base);
    }
}

/// Projects are listed by their ids: none stands before one with a smaller id.
pub proof fn law_listed_by_id(ps: Seq<ProjectView>, i: int, j: int)
    requires
        by_id(ps),
        0 <= i < j < ps.len(),
    ensures
        ps[i].id <= ps[j].id,
{
}

/// What is shown of the open project is the show of a project with that id.
pub proof fn law_shows_open(
    g: HeldGrid,
    projects: Seq<Project>,
    open: Option<u64>,
    edits: Seq<Edit>,
    history_pos: Option<u64>,
    pending: Seq<LightEditInput>,
)
    requires
        shows_open(g, projects, open, edits, history_pos, pending),
    ensures
        exists|i: int|
            0 <= i < projects.len() && open == Some((#[trigger] projects[i]).id) && g.nl == projects[i].num_lights && g.nf
                == projects[i].num_frames && g.head == projects[i].head_seq,
{
    let (i, log) = choose|i: int, log: Seq<Edit>|
        is_open(projects, open, i) && #[trigger] shows(g, projects[i], edits, history_pos, pending, log);
    assert(open == Some(projects[i].id));
}

} // verus!
