//! What holds of requests, whoever sends them.
use crate::api::{ListFilter, RequestView, ResponseView, SlotStatusSummary};
use crate::cleanup::{busy_slot, cleaned, kept_count, Removal};
use crate::cleanup_laws::{source, staying_slots_keep_their_order};
use crate::cli::{bears, cd_report, project_report, CliErrorView};
use crate::config::Config;
use crate::handler::{
    clone_path, completed, due, failed_slot, is_cloned, is_short, picked, provisioning,
    provisionings, stepped, succeeded_slot, upkeep, upkeeps, with_names, with_names_keeps_slots,
};
use crate::path::{joined, joined_is_injective};
use crate::requests::{
    added, answered, checkout_position, held_as, listing, name_in_use, project_listing, removed,
    selected, slot_info, TreeView,
};
use crate::seqs::{
    first_where, lemma_filter_comes_from, lemma_filter_contains, lemma_filter_satisfies,
    lemma_filter_update, lemma_first_where, lemma_first_where_is,
};
use crate::state::{
    available, has_number, named, project_index, ready, slot_position, slots_of, with_slots,
    with_slots_changes_only_that_project, ProjectsView, SlotId, SlotView, StateView, StatusView,
};
use crate::text::{decimal, decimals_differ, decimals_read_back, is_digit};
use crate::time::Timestamp;
use vstd::prelude::*;

verus! {

/// A request that is refused changes nothing, and a listing never does.
pub proof fn refused_requests_change_nothing(
    config: Config,
    repos_dir: Seq<char>,
    state: StateView,
    request: RequestView,
    tree: TreeView,
)
    ensures
        answered(config, repos_dir, state, request, tree).1 is Error ==> answered(
            config,
            repos_dir,
            state,
            request,
            tree,
        ).0 == state,
        request is List ==> answered(config, repos_dir, state, request, tree).0 == state,
        answered(config, repos_dir, state, request, tree).0.pending_action == state.pending_action,
        answered(config, repos_dir, state, request, tree).0.last_updated == state.last_updated,
{
}

/// Taking back what was handed out restores the state, where the working tree is
/// clean or the request says to force it.
pub proof fn returning_undoes_handing_out(
    repos_dir: Seq<char>,
    projects: ProjectsView,
    project: Seq<char>,
    name: Seq<char>,
    force: bool,
    tree: TreeView,
)
    requires
        added(repos_dir, projects, project, name).1 is Added,
        force || tree is Clean,
    ensures
        removed(added(repos_dir, projects, project, name).0, project, name, force, tree) == (
            projects,
            ResponseView::Okay,
        ),
{
    let k = project_index(projects, project)->0;
    let slots = projects[k].1;
    let j = first_where(slots, ready())->0;
    lemma_first_where(projects, named(project));
    lemma_first_where(slots, ready());
    let handed = slots.update(j, SlotView { status: StatusView::CheckedOut(name), ..slots[j] });
    let after = added(repos_dir, projects, project, name).0;
    with_slots_changes_only_that_project(projects, project, handed, project);
    lemma_held_after_add(repos_dir, projects, project, name);
    let back = handed.update(j, SlotView { status: StatusView::Ready, ..handed[j] });
    assert(back =~= slots);
    assert(after.update(k, (project, slots)) =~= projects);
}

/// A slot that was handed out is found under its name.
pub proof fn lemma_held_after_add(
    repos_dir: Seq<char>,
    projects: ProjectsView,
    project: Seq<char>,
    name: Seq<char>,
)
    requires
        added(repos_dir, projects, project, name).1 is Added,
    ensures
        ({
            let k = project_index(projects, project)->0;
            let j = first_where(projects[k].1, ready())->0;
            checkout_position(added(repos_dir, projects, project, name).0, project, name) == Some(
                (k, j),
            )
        }),
{
    let k = project_index(projects, project)->0;
    let slots = projects[k].1;
    let j = first_where(slots, ready())->0;
    lemma_first_where(projects, named(project));
    lemma_first_where(slots, ready());
    let handed = slots.update(j, SlotView { status: StatusView::CheckedOut(name), ..slots[j] });
    with_slots_changes_only_that_project(projects, project, handed, project);
    assert forall|m: int| 0 <= m < j implies !held_as(name)(#[trigger] handed[m]) by {
        assert(projects[k].1[m] == handed[m]);
        if held_as(name)(handed[m]) {
            assert(name_in_use(projects, name));
        }
    }
    lemma_first_where_is(handed, held_as(name), j);
}

/// The same checkout cannot be returned twice: where no other slot of the
/// project has the name, it is unknown from then on.
pub proof fn returned_checkouts_are_gone(
    projects: ProjectsView,
    project: Seq<char>,
    name: Seq<char>,
    force: bool,
    tree: TreeView,
)
    requires
        names_of_checkouts_differ(projects),
        removed(projects, project, name, force, tree).1 is Okay,
    ensures
        checkout_position(removed(projects, project, name, force, tree).0, project, name) is None,
{
    let (k, j) = checkout_position(projects, project, name)->0;
    let slots = projects[k].1;
    lemma_first_where(projects, named(project));
    lemma_first_where(slots, held_as(name));
    let back = slots.update(j, SlotView { status: StatusView::Ready, ..slots[j] });
    with_slots_changes_only_that_project(projects, project, back, project);
    lemma_first_where(back, held_as(name));
    if let Some(m) = first_where(back, held_as(name)) {
        assert(back[m] == slots[m]);
        assert(is_checked_out_at(projects, k, m) && is_checked_out_at(projects, k, j));
    }
}

pub open spec fn is_checked_out_at(projects: ProjectsView, k: int, j: int) -> bool {
    0 <= k < projects.len() && 0 <= j < projects[k].1.len() && projects[k].1[j].status is CheckedOut
}

/// Whether no two slots are handed out under one name.
pub open spec fn names_of_checkouts_differ(projects: ProjectsView) -> bool {
    forall|k: int, j: int, m: int, n: int|
        #![trigger is_checked_out_at(projects, k, j), is_checked_out_at(projects, m, n)]
        is_checked_out_at(projects, k, j) && is_checked_out_at(projects, m, n) && (k, j) != (m, n)
            ==> projects[k].1[j].status != projects[m].1[n].status
}

/// Requests keep the names of checkouts apart.
pub proof fn requests_keep_names_apart(
    config: Config,
    repos_dir: Seq<char>,
    state: StateView,
    request: RequestView,
    tree: TreeView,
)
    requires
        names_of_checkouts_differ(state.projects),
    ensures
        names_of_checkouts_differ(answered(config, repos_dir, state, request, tree).0.projects),
{
    let before = state.projects;
    let after = answered(config, repos_dir, state, request, tree).0.projects;
    match request {
        RequestView::Add { project_name, checkout_name } => {
            if let Some(k) = project_index(before, project_name) {
                let slots = before[k].1;
                lemma_first_where(before, named(project_name));
                lemma_first_where(slots, ready());
                if first_where(slots, ready()) is Some && !name_in_use(before, checkout_name) {
                    let j = first_where(slots, ready())->0;
                    assert forall|a: int, b: int| #[trigger]
                        is_checked_out_at(after, a, b) && (a, b) != (k, j) implies is_checked_out_at(
                        before,
                        a,
                        b,
                    ) && after[a].1[b] == before[a].1[b] && before[a].1[b].status
                        != StatusView::CheckedOut(checkout_name) by {
                        assert(!held_as(checkout_name)(before[a].1[b]));
                    }
                }
            }
        },
        RequestView::List { filter } => {},
        RequestView::Remove { project_name, checkout_name, force } => {
            lemma_first_where(before, named(project_name));
            if let Some((k, j)) = checkout_position(before, project_name, checkout_name) {
                lemma_first_where(before[k].1, held_as(checkout_name));
                assert forall|a: int, b: int| #[trigger]
                    is_checked_out_at(after, a, b) implies is_checked_out_at(before, a, b)
                    && after[a].1[b] == before[a].1[b] by {}
            }
        },
        RequestView::Cleanup => {
            lemma_cleaning_keeps_names_apart(config, state, Removal::Extra);
        },
        RequestView::Purge => {
            lemma_cleaning_keeps_names_apart(config, state, Removal::All);
        },
    }
}

proof fn lemma_cleaning_keeps_names_apart(config: Config, state: StateView, removal: Removal)
    requires
        names_of_checkouts_differ(state.projects),
    ensures
        names_of_checkouts_differ(
            cleaned(config, state.pending_action, removal, state.projects),
        ),
{
    let pending = state.pending_action;
    let before = state.projects;
    let after = cleaned(config, pending, removal, before);
    assert forall|k: int, j: int, m: int, n: int|
        #![trigger is_checked_out_at(after, k, j), is_checked_out_at(after, m, n)]
        is_checked_out_at(after, k, j) && is_checked_out_at(after, m, n) && (k, j) != (m,
            n) implies after[k].1[j].status
        != after[m].1[n].status by {
        let busy = busy_slot(config, pending, before[k].0);
        let keep = kept_count(config, removal, before[k].0, before[k].1, busy);
        let other_busy = busy_slot(config, pending, before[m].0);
        let other_keep = kept_count(config, removal, before[m].0, before[m].1, other_busy);
        staying_slots_keep_their_order(before[k].1, busy, keep);
        staying_slots_keep_their_order(before[m].1, other_busy, other_keep);
        let a = source(before[k].1, busy, keep, j);
        let b = source(before[m].1, other_busy, other_keep, n);
        if k == m {
            if j < n {
                assert(a < b);
            } else {
                assert(b < a);
            }
        }
        assert(is_checked_out_at(before, k, a) && is_checked_out_at(before, m, b));
    }
}

/// Handing out a slot of a pool that is just large enough makes the pool short,
/// so that the server provisions another slot.
pub proof fn handing_out_makes_pools_short(
    repos_dir: Seq<char>,
    config: Config,
    projects: ProjectsView,
    i: int,
    name: Seq<char>,
)
    requires
        0 <= i < config.projects@.len(),
        added(repos_dir, projects, config.projects[i].name@, name).1 is Added,
        slots_of(projects, config.projects[i].name@).filter(available()).len()
            <= config.spec_nslots(config.projects[i]),
    ensures
        is_short(config, added(repos_dir, projects, config.projects[i].name@, name).0, i),
{
    let project = config.projects[i].name@;
    let k = project_index(projects, project)->0;
    let slots = projects[k].1;
    let j = first_where(slots, ready())->0;
    lemma_first_where(projects, named(project));
    lemma_first_where(slots, ready());
    let slot = SlotView { status: StatusView::CheckedOut(name), ..slots[j] };
    with_slots_changes_only_that_project(projects, project, slots.update(j, slot), project);
    lemma_filter_update(slots, available(), j, slot);
}

/// What was handed out is in the listing of active checkouts, with its name and
/// the directory that the answer gave.
pub proof fn checkouts_are_listed(
    repos_dir: Seq<char>,
    projects: ProjectsView,
    project: Seq<char>,
    name: Seq<char>,
)
    requires
        added(repos_dir, projects, project, name).1 is Added,
    ensures
        exists|n: int|
            #![trigger listing(
                repos_dir,
                added(repos_dir, projects, project, name).0,
                ListFilter::Active,
            )[n]]
            {
                let all = listing(
                    repos_dir,
                    added(repos_dir, projects, project, name).0,
                    ListFilter::Active,
                );
                &&& 0 <= n < all.len()
                &&& all[n].project == project
                &&& all[n].checkout_name == Some(name)
                &&& all[n].status == SlotStatusSummary::CheckedOut
                &&& all[n].path == Some(added(repos_dir, projects, project, name).1->path)
            },
{
    let k = project_index(projects, project)->0;
    let slots = projects[k].1;
    let j = first_where(slots, ready())->0;
    lemma_first_where(projects, named(project));
    lemma_first_where(slots, ready());
    let after = added(repos_dir, projects, project, name).0;
    lemma_listed(repos_dir, after, ListFilter::Active, k, j);
}

/// A slot that a filter lets through is in the listing.
pub proof fn lemma_listed(
    repos_dir: Seq<char>,
    projects: ProjectsView,
    filter: ListFilter,
    k: int,
    j: int,
)
    requires
        0 <= k < projects.len(),
        0 <= j < projects[k].1.len(),
        selected(filter)(projects[k].1[j]),
    ensures
        exists|n: int|
            0 <= n < listing(repos_dir, projects, filter).len() && #[trigger] listing(
                repos_dir,
                projects,
                filter,
            )[n] == slot_info(repos_dir, projects[k].0, projects[k].1[j]),
    decreases projects.len(),
{
    let rest = listing(repos_dir, projects.drop_last(), filter);
    let own = project_listing(repos_dir, projects.last(), filter);
    let all = listing(repos_dir, projects, filter);
    let want = slot_info(repos_dir, projects[k].0, projects[k].1[j]);
    if k < projects.len() - 1 {
        lemma_listed(repos_dir, projects.drop_last(), filter, k, j);
        let n = choose|n: int| 0 <= n < rest.len() && #[trigger] rest[n] == want;
        assert(all[n] == want);
    } else {
        let slots = projects[k].1;
        lemma_filter_contains(slots, selected(filter), j);
        let kept = slots.filter(selected(filter));
        let n = choose|n: int| 0 <= n < kept.len() && #[trigger] kept[n] == slots[j];
        assert(own[n] == want);
        assert(all[rest.len() + n] == want);
    }
}

/// A listing holds what was asked for: active entries bear the name of a
/// checkout, free ones are ready and bear none, background ones bear none.
pub proof fn listings_hold_what_was_asked_for(
    repos_dir: Seq<char>,
    projects: ProjectsView,
    filter: ListFilter,
)
    ensures
        forall|n: int|
            #![trigger listing(repos_dir, projects, filter)[n]]
            0 <= n < listing(repos_dir, projects, filter).len() ==> {
                let info = listing(repos_dir, projects, filter)[n];
                &&& (info.status is CheckedOut) == (info.checkout_name is Some)
                &&& filter is Active ==> info.status is CheckedOut
                &&& filter is Free ==> info.status is Ready
                &&& filter is Background ==> !(info.status is CheckedOut)
                &&& info.path is Some
            },
    decreases projects.len(),
{
    if projects.len() > 0 {
        listings_hold_what_was_asked_for(repos_dir, projects.drop_last(), filter);
        lemma_filter_satisfies(projects.last().1, selected(filter));
    }
}

/// Two slots of one project never share a directory.
pub proof fn slots_have_directories_of_their_own(
    repos_dir: Seq<char>,
    project: Seq<char>,
    a: SlotId,
    b: SlotId,
)
    requires
        clone_path(repos_dir, project, a) == clone_path(repos_dir, project, b),
    ensures
        a == b,
{
    decimals_read_back(a.0 as nat);
    decimals_read_back(b.0 as nat);
    assert(is_digit(decimal(a.0 as nat)[0]));
    assert(is_digit(decimal(b.0 as nat)[0]));
    joined_is_injective(joined(repos_dir, project), decimal(a.0 as nat), decimal(b.0 as nat));
    decimals_differ(a.0 as nat, b.0 as nat);
}

/// What the server does by itself keeps the names of checkouts apart too: it
/// hands nothing out.
pub proof fn steps_keep_names_apart(now: Timestamp, config: Config, state: StateView)
    requires
        names_of_checkouts_differ(state.projects),
    ensures
        names_of_checkouts_differ(stepped(now, config, state).0.projects),
{
    if state.pending_action is None {
        let projects = state.projects;
        let n = config.projects@.len() as int;
        let complete = provisionings(config, projects);
        let current = upkeeps(now, config, projects);
        lemma_first_where(complete, picked());
        lemma_first_where(current, picked());
        match first_where(complete, picked()) {
            Some(i) => {
                assert(complete[i] == provisioning(config, projects, i));
                let choice = complete[i]->0;
                let slots = slots_of(projects, config.projects[i].name@);
                lemma_first_where(slots, is_cloned());
                lemma_listed_names(projects, config, i + 1);
                with_names_keeps_slots(projects, config, i + 1, config.projects[i].name@);
                lemma_same_checkouts(
                    with_names(projects, config, i + 1),
                    config.projects[i].name@,
                    choice.slots,
                );
            },
            None => match first_where(current, picked()) {
                Some(i) => {
                    assert(current[i] == upkeep(now, config, projects, i));
                    let choice = current[i]->0;
                    let project = config.projects[i];
                    let slots = slots_of(projects, project.name@);
                    lemma_first_where(slots, due(now, config, project));
                    lemma_listed_names(projects, config, n);
                    with_names_keeps_slots(projects, config, n, project.name@);
                    lemma_same_checkouts(
                        with_names(projects, config, n),
                        project.name@,
                        choice.slots,
                    );
                },
                None => {
                    lemma_listed_names(projects, config, n);
                },
            },
        }
    }
}

/// The end of an action keeps the names of checkouts apart.
pub proof fn completions_keep_names_apart(
    now: Timestamp,
    config: Config,
    state: StateView,
    success: bool,
    message: Seq<char>,
)
    requires
        names_of_checkouts_differ(state.projects),
    ensures
        names_of_checkouts_differ(
            completed(now, config, state, success, message).0.projects,
        ),
{
    if let Some(action) = state.pending_action {
        let p = action.spec_project().0 as int;
        if p < config.projects@.len() {
            let project = config.projects[p];
            let slots = slots_of(state.projects, project.name@);
            lemma_first_where(state.projects, named(project.name@));
            lemma_first_where(slots, has_number(action.spec_slot().0));
            if let Some(j) = slot_position(slots, action.spec_slot()) {
                let slot = if success {
                    succeeded_slot(now, project, slots[j], action)
                } else {
                    Some(failed_slot(slots[j], message))
                };
                if let Some(slot) = slot {
                    lemma_same_checkouts(state.projects, project.name@, slots.update(j, slot));
                }
            }
        }
    }
}

/// Pools that are added are empty.
proof fn lemma_listed_names(projects: ProjectsView, config: Config, n: int)
    requires
        names_of_checkouts_differ(projects),
    ensures
        names_of_checkouts_differ(with_names(projects, config, n)),
    decreases n,
{
    if n > 0 {
        lemma_listed_names(projects, config, n - 1);
        let before = with_names(projects, config, n - 1);
        let after = with_names(projects, config, n);
        assert forall|a: int, b: int| #[trigger]
            is_checked_out_at(after, a, b) implies is_checked_out_at(before, a, b) && after[a].1[b]
            == before[a].1[b] by {}
    }
}

/// Slots of one project that hold no new checkout keep the names apart.
proof fn lemma_same_checkouts(projects: ProjectsView, name: Seq<char>, slots: Seq<SlotView>)
    requires
        names_of_checkouts_differ(projects),
        forall|b: int|
            0 <= b < slots.len() && (#[trigger] slots[b]).status is CheckedOut ==> b < slots_of(
                projects,
                name,
            ).len() && slots[b] == slots_of(projects, name)[b],
    ensures
        names_of_checkouts_differ(with_slots(projects, name, slots)),
{
    lemma_first_where(projects, named(name));
    let after = with_slots(projects, name, slots);
    assert forall|a: int, b: int| #[trigger] is_checked_out_at(after, a, b) implies is_checked_out_at(
        projects,
        a,
        b,
    ) && after[a].1[b] == projects[a].1[b] by {
        if project_index(projects, name) == Some(a) {
            assert(slots[b].status is CheckedOut);
        }
    }
}

/// Every entry of a listing tells of a slot that the filter lets through.
pub proof fn lemma_entries_are_slots(
    repos_dir: Seq<char>,
    projects: ProjectsView,
    filter: ListFilter,
    n: int,
) -> (r: (int, int))
    requires
        0 <= n < listing(repos_dir, projects, filter).len(),
    ensures
        0 <= r.0 < projects.len(),
        0 <= r.1 < projects[r.0].1.len(),
        selected(filter)(projects[r.0].1[r.1]),
        listing(repos_dir, projects, filter)[n] == slot_info(
            repos_dir,
            projects[r.0].0,
            projects[r.0].1[r.1],
        ),
    decreases projects.len(),
{
    let rest = listing(repos_dir, projects.drop_last(), filter);
    if n < rest.len() {
        let (k, j) = lemma_entries_are_slots(repos_dir, projects.drop_last(), filter, n);
        assert(projects[k] == projects.drop_last()[k]);
        (k, j)
    } else {
        let slots = projects.last().1;
        let kept = slots.filter(selected(filter));
        lemma_filter_satisfies(slots, selected(filter));
        lemma_filter_comes_from(slots, selected(filter), n - rest.len());
        let j = choose|j: int| 0 <= j < slots.len() && #[trigger] slots[j] == kept[n - rest.len()];
        (projects.len() - 1, j)
    }
}

/// After a slot was handed out, `aid cd` prints the directory that was handed
/// out, and `aid rm` finds its project.
pub proof fn checkouts_are_found_by_name(
    repos_dir: Seq<char>,
    projects: ProjectsView,
    project: Seq<char>,
    name: Seq<char>,
)
    requires
        added(repos_dir, projects, project, name).1 is Added,
    ensures
        ({
            let after = added(repos_dir, projects, project, name).0;
            let path = added(repos_dir, projects, project, name).1->path;
            let response = ResponseView::List(listing(repos_dir, after, ListFilter::Active));
            &&& cd_report(response, name) == Ok::<Seq<char>, CliErrorView>(path + "\n"@)
            &&& project_report(response, name) == Ok::<Seq<char>, CliErrorView>(project)
        }),
{
    let after = added(repos_dir, projects, project, name).0;
    let all = listing(repos_dir, after, ListFilter::Active);
    let k = project_index(projects, project)->0;
    let slots = projects[k].1;
    let j = first_where(slots, ready())->0;
    lemma_first_where(projects, named(project));
    lemma_first_where(slots, ready());
    lemma_listed(repos_dir, after, ListFilter::Active, k, j);
    let m = choose|m: int|
        0 <= m < all.len() && #[trigger] all[m] == slot_info(
            repos_dir,
            after[k].0,
            after[k].1[j],
        );
    lemma_first_where(all, bears(name));
    assert(bears(name)(all[m]));
    let n = first_where(all, bears(name))->0;
    let (a, b) = lemma_entries_are_slots(repos_dir, after, ListFilter::Active, n);
    assert(after[a].1[b].status == StatusView::CheckedOut(name));
    if (a, b) != (k, j) {
        assert(projects[a].1[b] == after[a].1[b]);
        assert(held_as(name)(projects[a].1[b]));
        assert(name_in_use(projects, name));
    }
}

} // verus!
