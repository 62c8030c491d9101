//! What a listing shows: every slot that was asked for, once and as it is.
use crate::api::{ListFilter, SlotInfoView, SlotStatusSummary};
use crate::handler::clone_path;
use crate::requests::{listing, project_listing, selected, slot_info};
use crate::state::{ProjectsView, SlotView, StatusView};
use vstd::prelude::*;

verus! {

/// How many slots the projects have together.
pub open spec fn slot_count(projects: ProjectsView) -> nat
    decreases projects.len(),
{
    if projects.len() == 0 {
        0
    } else {
        slot_count(projects.drop_last()) + projects.last().1.len()
    }
}

/// The place of slot `j` of project `k` where all slots stand one behind the other.
pub open spec fn place(projects: ProjectsView, k: int, j: int) -> int {
    slot_count(projects.take(k)) + j
}

/// Whether an entry tells of a slot what there is to tell.
pub open spec fn tells_of(
    info: SlotInfoView,
    repos_dir: Seq<char>,
    project: Seq<char>,
    slot: SlotView,
) -> bool {
    &&& info.project == project
    &&& info.path == Some(clone_path(repos_dir, project, slot.id))
    &&& slot.status matches StatusView::CheckedOut(name) ==> info.checkout_name == Some(name)
    &&& info.checkout_name is Some ==> slot.status is CheckedOut
    &&& info.error_message == slot.error_message
    &&& slot.last_refreshed is None ==> info.last_refreshed is None
    &&& slot.last_refreshed matches Some(t) ==> info.last_refreshed == Some(t.spec_to_rfc3339())
    &&& info.status is Ready <==> slot.status is Ready
    &&& info.status is CheckedOut <==> slot.status is CheckedOut
    &&& info.status is Error <==> slot.status is Error
    &&& info.status is Uninitialized <==> slot.status is Uninitialized
    &&& info.status is Building <==> (slot.status is WaitingToBuild || slot.status is Building
        || slot.status is Built)
    &&& info.status is Cloning <==> (slot.status is Cloning || slot.status is Cloned
        || slot.status is CloningSubmodules || slot.status is SubmodulesCloned
        || slot.status is Updating || slot.status is UpdatingSubmodules
        || slot.status is PartiallyUpdated)
}

proof fn lemma_tells_of(repos_dir: Seq<char>, project: Seq<char>, slot: SlotView)
    ensures
        tells_of(slot_info(repos_dir, project, slot), repos_dir, project, slot),
{
}

proof fn lemma_all_selected(slots: Seq<SlotView>)
    ensures
        slots.filter(selected(ListFilter::All)) == slots,
    decreases slots.len(),
{
    reveal(Seq::filter);
    if slots.len() > 0 {
        lemma_all_selected(slots.drop_last());
        assert(slots.drop_last().push(slots.last()) =~= slots);
    }
}

/// The listing of all slots has as many entries as there are slots, and tells of
/// each slot at its place.
pub proof fn all_slots_are_listed(repos_dir: Seq<char>, projects: ProjectsView)
    ensures
        listing(repos_dir, projects, ListFilter::All).len() == slot_count(projects),
        forall|k: int, j: int|
            0 <= k < projects.len() && 0 <= j < projects[k].1.len() ==> {
                &&& 0 <= #[trigger] place(projects, k, j) < slot_count(projects)
                &&& tells_of(
                    listing(repos_dir, projects, ListFilter::All)[place(projects, k, j)],
                    repos_dir,
                    projects[k].0,
                    projects[k].1[j],
                )
            },
    decreases projects.len(),
{
    if projects.len() > 0 {
        let rest = projects.drop_last();
        let all = listing(repos_dir, projects, ListFilter::All);
        let front = listing(repos_dir, rest, ListFilter::All);
        let own = project_listing(repos_dir, projects.last(), ListFilter::All);
        all_slots_are_listed(repos_dir, rest);
        lemma_all_selected(projects.last().1);
        assert(all == front + own);
        assert forall|k: int, j: int|
            0 <= k < projects.len() && 0 <= j < projects[k].1.len() implies {
            &&& 0 <= #[trigger] place(projects, k, j) < slot_count(projects)
            &&& tells_of(
                all[place(projects, k, j)],
                repos_dir,
                projects[k].0,
                projects[k].1[j],
            )
        } by {
            lemma_tells_of(repos_dir, projects[k].0, projects[k].1[j]);
            if k < rest.len() {
                assert(rest[k] == projects[k]);
                assert(rest.take(k) =~= projects.take(k));
                assert(0 <= place(rest, k, j) < slot_count(rest));
                assert(all[place(projects, k, j)] == front[place(rest, k, j)]);
            } else {
                assert(projects.take(k) =~= rest);
                assert(all[front.len() + j] == own[j]);
            }
        }
    }
}

proof fn lemma_filter_map(
    repos_dir: Seq<char>,
    project: Seq<char>,
    slots: Seq<SlotView>,
    filter: ListFilter,
    p: spec_fn(SlotInfoView) -> bool,
)
    requires
        forall|s: SlotView| #[trigger]
            selected(filter)(s) == p(slot_info(repos_dir, project, s)),
    ensures
        project_listing(repos_dir, (project, slots), filter) == project_listing(
            repos_dir,
            (project, slots),
            ListFilter::All,
        ).filter(p),
    decreases slots.len(),
{
    reveal(Seq::filter);
    let info = |s: SlotView| slot_info(repos_dir, project, s);
    lemma_all_selected(slots);
    let all = project_listing(repos_dir, (project, slots), ListFilter::All);
    let some = project_listing(repos_dir, (project, slots), filter);
    assert(all =~= slots.map_values(info));
    assert(some =~= slots.filter(selected(filter)).map_values(info));
    if slots.len() > 0 {
        let rest = slots.drop_last();
        lemma_filter_map(repos_dir, project, rest, filter, p);
        lemma_all_selected(rest);
        let rest_all = project_listing(repos_dir, (project, rest), ListFilter::All);
        let rest_some = project_listing(repos_dir, (project, rest), filter);
        assert(rest_all =~= rest.map_values(info));
        assert(rest_some =~= rest.filter(selected(filter)).map_values(info));
        assert(all.drop_last() =~= rest_all);
        assert(all.last() == slot_info(repos_dir, project, slots.last()));
        if selected(filter)(slots.last()) {
            assert(some =~= rest_some.push(all.last()));
        } else {
            assert(some =~= rest_some);
        }
    }
}

proof fn lemma_selects(
    repos_dir: Seq<char>,
    projects: ProjectsView,
    filter: ListFilter,
    p: spec_fn(SlotInfoView) -> bool,
)
    requires
        forall|project: Seq<char>, s: SlotView|
            #![trigger slot_info(repos_dir, project, s)]
            selected(filter)(s) == p(slot_info(repos_dir, project, s)),
    ensures
        listing(repos_dir, projects, filter) == listing(
            repos_dir,
            projects,
            ListFilter::All,
        ).filter(p),
    decreases projects.len(),
{
    if projects.len() == 0 {
        reveal(Seq::filter);
        assert(listing(repos_dir, projects, filter) =~= listing(
            repos_dir,
            projects,
            ListFilter::All,
        ).filter(p));
    } else {
        let rest = projects.drop_last();
        let entry = projects.last();
        lemma_selects(repos_dir, rest, filter, p);
        assert forall|s: SlotView| #[trigger]
            selected(filter)(s) == p(slot_info(repos_dir, entry.0, s)) by {}
        lemma_filter_map(repos_dir, entry.0, entry.1, filter, p);
        assert((entry.0, entry.1) == entry);
        Seq::filter_distributes_over_add(
            listing(repos_dir, rest, ListFilter::All),
            project_listing(repos_dir, entry, ListFilter::All),
            p,
        );
    }
}

/// A filter selects from the listing of all slots, and leaves the order: active are
/// the entries that bear the name of a checkout, free those that are ready, and
/// background all that are not checked out.
pub proof fn filters_select_from_all(repos_dir: Seq<char>, projects: ProjectsView)
    ensures
        ({
            let all = listing(repos_dir, projects, ListFilter::All);
            &&& listing(repos_dir, projects, ListFilter::Active) == all.filter(
                |info: SlotInfoView| info.checkout_name is Some,
            )
            &&& listing(repos_dir, projects, ListFilter::Free) == all.filter(
                |info: SlotInfoView| info.status == SlotStatusSummary::Ready,
            )
            &&& listing(repos_dir, projects, ListFilter::Background) == all.filter(
                |info: SlotInfoView| info.status != SlotStatusSummary::CheckedOut,
            )
        }),
{
    lemma_selects(
        repos_dir,
        projects,
        ListFilter::Active,
        |info: SlotInfoView| info.checkout_name is Some,
    );
    lemma_selects(
        repos_dir,
        projects,
        ListFilter::Free,
        |info: SlotInfoView| info.status == SlotStatusSummary::Ready,
    );
    lemma_selects(
        repos_dir,
        projects,
        ListFilter::Background,
        |info: SlotInfoView| info.status != SlotStatusSummary::CheckedOut,
    );
}

/// Whether a listing holds an entry that tells of the slot.
pub open spec fn shows(
    list: Seq<SlotInfoView>,
    repos_dir: Seq<char>,
    project: Seq<char>,
    slot: SlotView,
) -> bool {
    exists|n: int|
        0 <= n < list.len() && tells_of(#[trigger] list[n], repos_dir, project, slot)
}

/// Every slot is listed where it belongs: in the listing of all; among the active
/// where it is checked out; among the free where it is ready; and in the background
/// where it is not checked out.
pub proof fn slots_are_listed_where_they_belong(
    repos_dir: Seq<char>,
    projects: ProjectsView,
    k: int,
    j: int,
)
    requires
        0 <= k < projects.len(),
        0 <= j < projects[k].1.len(),
    ensures
        ({
            let name = projects[k].0;
            let slot = projects[k].1[j];
            &&& shows(listing(repos_dir, projects, ListFilter::All), repos_dir, name, slot)
            &&& slot.status is CheckedOut ==> shows(
                listing(repos_dir, projects, ListFilter::Active),
                repos_dir,
                name,
                slot,
            )
            &&& slot.status is Ready ==> shows(
                listing(repos_dir, projects, ListFilter::Free),
                repos_dir,
                name,
                slot,
            )
            &&& !(slot.status is CheckedOut) ==> shows(
                listing(repos_dir, projects, ListFilter::Background),
                repos_dir,
                name,
                slot,
            )
        }),
{
    let name = projects[k].0;
    let slot = projects[k].1[j];
    lemma_shown(repos_dir, projects, ListFilter::All, k, j);
    if slot.status is CheckedOut {
        lemma_shown(repos_dir, projects, ListFilter::Active, k, j);
    }
    if slot.status is Ready {
        lemma_shown(repos_dir, projects, ListFilter::Free, k, j);
    }
    if !(slot.status is CheckedOut) {
        lemma_shown(repos_dir, projects, ListFilter::Background, k, j);
    }
}

proof fn lemma_shown(
    repos_dir: Seq<char>,
    projects: ProjectsView,
    filter: ListFilter,
    k: int,
    j: int,
)
    requires
        0 <= k < projects.len(),
        0 <= j < projects[k].1.len(),
        selected(filter)(projects[k].1[j]),
    ensures
        shows(listing(repos_dir, projects, filter), repos_dir, projects[k].0, projects[k].1[j]),
{
    let list = listing(repos_dir, projects, filter);
    crate::request_laws::lemma_listed(repos_dir, projects, filter, k, j);
    lemma_tells_of(repos_dir, projects[k].0, projects[k].1[j]);
    let n = choose|n: int|
        0 <= n < list.len() && #[trigger] list[n] == slot_info(
            repos_dir,
            projects[k].0,
            projects[k].1[j],
        );
    assert(tells_of(list[n], repos_dir, projects[k].0, projects[k].1[j]));
}

/// Every entry of a listing tells of a slot that there is, and one that was asked
/// for.
pub proof fn listings_show_nothing_else(
    repos_dir: Seq<char>,
    projects: ProjectsView,
    filter: ListFilter,
    n: int,
) -> (r: (int, int))
    requires
        0 <= n < listing(repos_dir, projects, filter).len(),
    ensures
        0 <= r.0 < projects.len(),
        0 <= r.1 < projects[r.0].1.len(),
        tells_of(
            listing(repos_dir, projects, filter)[n],
            repos_dir,
            projects[r.0].0,
            projects[r.0].1[r.1],
        ),
        filter is Active ==> projects[r.0].1[r.1].status is CheckedOut,
        filter is Free ==> projects[r.0].1[r.1].status is Ready,
        filter is Background ==> !(projects[r.0].1[r.1].status is CheckedOut),
{
    let (k, j) = crate::request_laws::lemma_entries_are_slots(repos_dir, projects, filter, n);
    lemma_tells_of(repos_dir, projects[k].0, projects[k].1[j]);
    (k, j)
}

} // verus!
