//! What `aid cleanup` and `aid purge` remove, and what they leave.
use crate::api::{RequestView, ResponseView};
use crate::cleanup::{
    busy_slot, cleaned, goes, going, going_of, going_paths, kept_count, paths_of, removable,
    staying, Removal,
};
use crate::cleanup_laws::{
    cleaning_up_leaves_the_configured_size, cleaning_up_leaves_unknown_projects_alone, lemma_going,
    source, staying_slots_keep_their_order,
};
use crate::config::{Config, ProjectConfig};
use crate::directory_laws::{is_plain, no_two_slots_share_a_directory};
use crate::handler::clone_path;
use crate::handler_laws::{is_numbered, numbers_differ};
use crate::listing_laws::slot_count;
use crate::requests::{answered, TreeView};
use crate::seqs::{lemma_filter_step, lemma_first_where_is, lemma_first_where_none};
use crate::state::{
    available, names_differ, PendingAction, ProjectsView, SlotId, SlotView, StateView,
};
use vstd::prelude::*;

verus! {

/// Whether a request asks for slots to be removed.
pub open spec fn is_removal(request: RequestView) -> bool {
    request is Cleanup || request is Purge
}

/// Whether the action under way is on that slot of that project.
pub open spec fn is_busy(
    config: Config,
    state: StateView,
    project: Seq<char>,
    slot: SlotView,
) -> bool {
    state.pending_action matches Some(action) && action.spec_slot() == slot.id
        && action.spec_project().0 < config.projects@.len()
        && config.projects@[action.spec_project().0 as int].name@ == project
}

spec fn asked(request: RequestView) -> Removal {
    if request is Purge {
        Removal::All
    } else {
        Removal::Extra
    }
}

proof fn lemma_answered(
    config: Config,
    repos_dir: Seq<char>,
    state: StateView,
    request: RequestView,
    tree: TreeView,
)
    requires
        is_removal(request),
    ensures
        answered(config, repos_dir, state, request, tree) == (
            StateView {
                projects: cleaned(config, state.pending_action, asked(request), state.projects),
                ..state
            },
            ResponseView::Cleaned {
                paths: going_paths(
                    repos_dir,
                    config,
                    state.pending_action,
                    asked(request),
                    state.projects,
                ),
            },
        ),
{
}

/// A slot goes exactly where it does not stay.
proof fn lemma_goes(slots: Seq<SlotView>, busy: Option<SlotId>, keep: int, j: int)
    requires
        numbers_differ(slots),
        0 <= j < slots.len(),
    ensures
        goes(slots, busy, keep, j) <==> !staying(slots, busy, keep).contains(slots[j]),
{
    let kept = staying(slots, busy, keep);
    staying_slots_keep_their_order(slots, busy, keep);
    if kept.contains(slots[j]) {
        let m = choose|m: int| 0 <= m < kept.len() && kept[m] == slots[j];
        let a = source(slots, busy, keep, m);
        assert(!goes(slots, busy, keep, a));
        if a < j {
            assert(slots[a].id != slots[j].id);
        } else if j < a {
            assert(slots[j].id != slots[a].id);
        }
    }
    if !goes(slots, busy, keep, j) {
        let m = choose|m: int| 0 <= m < kept.len() && #[trigger] source(slots, busy, keep, m) == j;
        assert(kept[m] == slots[j]);
    }
}

/// What goes is among those that go.
proof fn lemma_among_going(slots: Seq<SlotView>, busy: Option<SlotId>, keep: int, j: int) -> (n: int)
    requires
        0 <= j < slots.len(),
        goes(slots, busy, keep, j),
    ensures
        0 <= n < going(slots, busy, keep).len(),
        going(slots, busy, keep)[n] == slots[j],
    decreases slots.len(),
{
    let rest = slots.drop_last();
    if j < rest.len() {
        assert(rest.take(j) =~= slots.take(j));
        lemma_among_going(rest, busy, keep, j)
    } else {
        going(rest, busy, keep).len() as int
    }
}

proof fn lemma_going_paths(
    repos_dir: Seq<char>,
    config: Config,
    pending: Option<PendingAction>,
    removal: Removal,
    projects: ProjectsView,
    path: Seq<char>,
)
    ensures
        going_paths(repos_dir, config, pending, removal, projects).contains(path) <==> exists|
            k: int,
            n: int,
        |
            0 <= k < projects.len() && 0 <= n < going_of(
                config,
                pending,
                removal,
                projects[k],
            ).len() && path == clone_path(
                repos_dir,
                projects[k].0,
                (#[trigger] going_of(config, pending, removal, projects[k])[n]).id,
            ),
    decreases projects.len(),
{
    let all = going_paths(repos_dir, config, pending, removal, projects);
    if projects.len() > 0 {
        let rest = projects.drop_last();
        let last = projects.len() - 1;
        let front = going_paths(repos_dir, config, pending, removal, rest);
        let gone = going_of(config, pending, removal, projects[last]);
        let own = paths_of(repos_dir, projects[last].0, gone);
        lemma_going_paths(repos_dir, config, pending, removal, rest, path);
        assert(all == front + own);
        if all.contains(path) {
            let i = choose|i: int| 0 <= i < all.len() && all[i] == path;
            if i < front.len() {
                assert(front[i] == path);
                let (k, n) = choose|k: int, n: int|
                    0 <= k < rest.len() && 0 <= n < going_of(
                        config,
                        pending,
                        removal,
                        rest[k],
                    ).len() && path == clone_path(
                        repos_dir,
                        rest[k].0,
                        (#[trigger] going_of(config, pending, removal, rest[k])[n]).id,
                    );
                assert(rest[k] == projects[k]);
                assert(path == clone_path(
                    repos_dir,
                    projects[k].0,
                    going_of(config, pending, removal, projects[k])[n].id,
                ));
            } else {
                let n = i - front.len();
                assert(own[n] == path);
                assert(path == clone_path(
                    repos_dir,
                    projects[last].0,
                    going_of(config, pending, removal, projects[last])[n].id,
                ));
            }
        }
        if exists|k: int, n: int|
            0 <= k < projects.len() && 0 <= n < going_of(
                config,
                pending,
                removal,
                projects[k],
            ).len() && path == clone_path(
                repos_dir,
                projects[k].0,
                (#[trigger] going_of(config, pending, removal, projects[k])[n]).id,
            ) {
            let (k, n) = choose|k: int, n: int|
                0 <= k < projects.len() && 0 <= n < going_of(
                    config,
                    pending,
                    removal,
                    projects[k],
                ).len() && path == clone_path(
                    repos_dir,
                    projects[k].0,
                    (#[trigger] going_of(config, pending, removal, projects[k])[n]).id,
                );
            if k < last {
                assert(rest[k] == projects[k]);
                assert(path == clone_path(
                    repos_dir,
                    rest[k].0,
                    going_of(config, pending, removal, rest[k])[n].id,
                ));
                assert(front.contains(path));
                let i = choose|i: int| 0 <= i < front.len() && front[i] == path;
                assert(all[i] == path);
            } else {
                assert(own[n] == path);
                assert(all[front.len() + n] == path);
            }
        }
    }
}

/// The directories that are to go are exactly those, under the names of their own
/// projects, of the slots that stood in a project before and do not after.
pub proof fn directories_go_with_their_slots(
    config: Config,
    repos_dir: Seq<char>,
    state: StateView,
    request: RequestView,
    tree: TreeView,
    path: Seq<char>,
)
    requires
        is_removal(request),
        is_numbered(state.projects),
    ensures
        ({
            let before = state.projects;
            let (end, response) = answered(config, repos_dir, state, request, tree);
            let after = end.projects;
            &&& after.len() == before.len()
            &&& response is Cleaned
            &&& response->paths.contains(path) <==> exists|k: int, j: int|
                0 <= k < before.len() && 0 <= j < before[k].1.len() && path == clone_path(
                    repos_dir,
                    before[k].0,
                    (#[trigger] before[k].1[j]).id,
                ) && !after[k].1.contains(before[k].1[j])
        }),
{
    lemma_answered(config, repos_dir, state, request, tree);
    let removal = asked(request);
    let pending = state.pending_action;
    let before = state.projects;
    let after = cleaned(config, pending, removal, before);
    let paths = going_paths(repos_dir, config, pending, removal, before);
    lemma_going_paths(repos_dir, config, pending, removal, before, path);
    if paths.contains(path) {
        let (k, n) = choose|k: int, n: int|
            0 <= k < before.len() && 0 <= n < going_of(config, pending, removal, before[k]).len()
                && path == clone_path(
                repos_dir,
                before[k].0,
                (#[trigger] going_of(config, pending, removal, before[k])[n]).id,
            );
        let busy = busy_slot(config, pending, before[k].0);
        let keep = kept_count(config, removal, before[k].0, before[k].1, busy);
        let j = lemma_going(before[k].1, busy, keep, n);
        lemma_goes(before[k].1, busy, keep, j);
        assert(path == clone_path(repos_dir, before[k].0, before[k].1[j].id));
        assert(after[k].1 == staying(before[k].1, busy, keep));
    }
    if exists|k: int, j: int|
        0 <= k < before.len() && 0 <= j < before[k].1.len() && path == clone_path(
            repos_dir,
            before[k].0,
            (#[trigger] before[k].1[j]).id,
        ) && !after[k].1.contains(before[k].1[j]) {
        let (k, j) = choose|k: int, j: int|
            0 <= k < before.len() && 0 <= j < before[k].1.len() && path == clone_path(
                repos_dir,
                before[k].0,
                (#[trigger] before[k].1[j]).id,
            ) && !after[k].1.contains(before[k].1[j]);
        let busy = busy_slot(config, pending, before[k].0);
        let keep = kept_count(config, removal, before[k].0, before[k].1, busy);
        assert(after[k].1 == staying(before[k].1, busy, keep));
        lemma_goes(before[k].1, busy, keep, j);
        let n = lemma_among_going(before[k].1, busy, keep, j);
        assert(path == clone_path(
            repos_dir,
            before[k].0,
            going_of(config, pending, removal, before[k])[n].id,
        ));
    }
}

/// No directory that is to go is that of a slot which stays, in whatever project,
/// where the names of projects are plain and differ.
pub proof fn directories_in_use_stay(
    config: Config,
    repos_dir: Seq<char>,
    state: StateView,
    request: RequestView,
    tree: TreeView,
    n: int,
    k: int,
    m: int,
)
    requires
        is_removal(request),
        is_numbered(state.projects),
        names_differ(state.projects),
        forall|i: int|
            0 <= i < state.projects.len() ==> is_plain((#[trigger] state.projects[i]).0),
        ({
            let (after, response) = answered(config, repos_dir, state, request, tree);
            &&& response is Cleaned
            &&& 0 <= n < response->paths.len()
            &&& 0 <= k < after.projects.len()
            &&& 0 <= m < after.projects[k].1.len()
        }),
    ensures
        ({
            let (after, response) = answered(config, repos_dir, state, request, tree);
            response->paths[n] != clone_path(
                repos_dir,
                after.projects[k].0,
                after.projects[k].1[m].id,
            )
        }),
{
    let before = state.projects;
    let (end, response) = answered(config, repos_dir, state, request, tree);
    let after = end.projects;
    let path = response->paths[n];
    slots_stay_in_their_places(config, repos_dir, state, request, tree);
    directories_go_with_their_slots(config, repos_dir, state, request, tree, path);
    assert(response->paths.contains(path));
    let (a, j) = choose|a: int, j: int|
        0 <= a < before.len() && 0 <= j < before[a].1.len() && path == clone_path(
            repos_dir,
            before[a].0,
            (#[trigger] before[a].1[j]).id,
        ) && !after[a].1.contains(before[a].1[j]);
    let slot = after[k].1[m];
    if path == clone_path(repos_dir, after[k].0, slot.id) {
        assert(is_plain(before[a].0) && is_plain(before[k].0));
        no_two_slots_share_a_directory(
            repos_dir,
            before[a].0,
            before[a].1[j].id,
            before[k].0,
            slot.id,
        );
        if a < k {
            assert(before[a].0 != before[k].0);
        } else if k < a {
            assert(before[k].0 != before[a].0);
        }
        assert(before[k].1.contains(slot));
        let b = choose|b: int| 0 <= b < before[k].1.len() && before[k].1[b] == slot;
        assert(numbers_differ(before[k].1));
        if b < j {
            assert(before[k].1[b].id != before[k].1[j].id);
        } else if j < b {
            assert(before[k].1[j].id != before[k].1[b].id);
        }
        assert(after[k].1.contains(after[k].1[m]));
    }
}

/// Removing slots leaves every project under its name, and the slots that stay as
/// they were; the action under way and the time of the last update stay.
pub proof fn slots_stay_in_their_places(
    config: Config,
    repos_dir: Seq<char>,
    state: StateView,
    request: RequestView,
    tree: TreeView,
)
    requires
        is_removal(request),
    ensures
        ({
            let before = state.projects;
            let end = answered(config, repos_dir, state, request, tree).0;
            let after = end.projects;
            &&& end.pending_action == state.pending_action
            &&& end.last_updated == state.last_updated
            &&& after.len() == before.len()
            &&& forall|k: int| 0 <= k < before.len() ==> (#[trigger] after[k]).0 == before[k].0
            &&& forall|k: int, m: int|
                0 <= k < after.len() && 0 <= m < after[k].1.len() ==> before[k].1.contains(
                    #[trigger] after[k].1[m],
                )
        }),
{
    lemma_answered(config, repos_dir, state, request, tree);
    let removal = asked(request);
    let before = state.projects;
    let after = cleaned(config, state.pending_action, removal, before);
    assert forall|k: int, m: int|
        0 <= k < after.len() && 0 <= m < after[k].1.len() implies before[k].1.contains(
        #[trigger] after[k].1[m],
    ) by {
        let busy = busy_slot(config, state.pending_action, before[k].0);
        let keep = kept_count(config, removal, before[k].0, before[k].1, busy);
        staying_slots_keep_their_order(before[k].1, busy, keep);
        let j = source(before[k].1, busy, keep, m);
        assert(after[k].1[m] == before[k].1[j]);
    }
}

/// There is a directory to go for each slot that goes, and for no other.
pub proof fn every_gone_slot_has_a_directory(
    config: Config,
    repos_dir: Seq<char>,
    state: StateView,
    request: RequestView,
    tree: TreeView,
)
    requires
        is_removal(request),
    ensures
        ({
            let (after, response) = answered(config, repos_dir, state, request, tree);
            response->paths.len() + slot_count(after.projects) == slot_count(state.projects)
        }),
{
    lemma_answered(config, repos_dir, state, request, tree);
    lemma_counts(repos_dir, config, state.pending_action, asked(request), state.projects);
}

proof fn lemma_counts(
    repos_dir: Seq<char>,
    config: Config,
    pending: Option<PendingAction>,
    removal: Removal,
    projects: ProjectsView,
)
    ensures
        going_paths(repos_dir, config, pending, removal, projects).len() + slot_count(
            cleaned(config, pending, removal, projects),
        ) == slot_count(projects),
    decreases projects.len(),
{
    if projects.len() > 0 {
        let rest = projects.drop_last();
        lemma_counts(repos_dir, config, pending, removal, rest);
        let after = cleaned(config, pending, removal, projects);
        assert(after.drop_last() =~= cleaned(config, pending, removal, rest));
        let entry = projects.last();
        let busy = busy_slot(config, pending, entry.0);
        lemma_parts(entry.1, busy, kept_count(config, removal, entry.0, entry.1, busy));
    }
}

proof fn lemma_parts(slots: Seq<SlotView>, busy: Option<SlotId>, keep: int)
    ensures
        staying(slots, busy, keep).len() + going(slots, busy, keep).len() == slots.len(),
    decreases slots.len(),
{
    if slots.len() > 0 {
        lemma_parts(slots.drop_last(), busy, keep);
    }
}

/// No removal takes the checkout of a user, or the slot that an action is under way
/// on.
pub proof fn slots_in_use_stay(
    config: Config,
    repos_dir: Seq<char>,
    state: StateView,
    request: RequestView,
    tree: TreeView,
    k: int,
    j: int,
)
    requires
        is_removal(request),
        0 <= k < state.projects.len(),
        0 <= j < state.projects[k].1.len(),
        ({
            let slot = state.projects[k].1[j];
            slot.status is CheckedOut || is_busy(config, state, state.projects[k].0, slot)
        }),
    ensures
        answered(config, repos_dir, state, request, tree).0.projects[k].1.contains(
            state.projects[k].1[j],
        ),
{
    lemma_answered(config, repos_dir, state, request, tree);
    let entry = state.projects[k];
    let busy = busy_slot(config, state.pending_action, entry.0);
    let keep = kept_count(config, asked(request), entry.0, entry.1, busy);
    let kept = staying(entry.1, busy, keep);
    staying_slots_keep_their_order(entry.1, busy, keep);
    assert(!goes(entry.1, busy, keep, j));
    let m = choose|m: int| 0 <= m < kept.len() && #[trigger] source(entry.1, busy, keep, m) == j;
    assert(kept[m] == entry.1[j]);
}

/// Purging leaves nothing but the checkouts of users and the slot that an action is
/// under way on.
pub proof fn purges_leave_only_slots_in_use(
    config: Config,
    repos_dir: Seq<char>,
    state: StateView,
    tree: TreeView,
    k: int,
    m: int,
)
    requires
        ({
            let after = answered(config, repos_dir, state, RequestView::Purge, tree).0.projects;
            0 <= k < after.len() && 0 <= m < after[k].1.len()
        }),
    ensures
        ({
            let after = answered(config, repos_dir, state, RequestView::Purge, tree).0.projects;
            let slot = after[k].1[m];
            slot.status is CheckedOut || is_busy(config, state, after[k].0, slot)
        }),
{
    lemma_answered(config, repos_dir, state, RequestView::Purge, tree);
    crate::cleanup_laws::purging_leaves_no_background_slot(
        config,
        state.pending_action,
        state.projects[k],
        m,
    );
}

/// Whether a slot is in the background: no user has it.
pub open spec fn in_background() -> spec_fn(SlotView) -> bool {
    |slot: SlotView| !(slot.status is CheckedOut)
}

/// The slots in the background that the action under way is on.
pub open spec fn busy_in_background(
    config: Config,
    state: StateView,
    project: Seq<char>,
) -> spec_fn(SlotView) -> bool {
    |slot: SlotView| !(slot.status is CheckedOut) && is_busy(config, state, project, slot)
}

proof fn lemma_busy(config: Config, state: StateView, project: Seq<char>, slots: Seq<SlotView>)
    ensures
        slots.filter(available()).len() - slots.filter(
            removable(busy_slot(config, state.pending_action, project)),
        ).len() == slots.filter(busy_in_background(config, state, project)).len(),
    decreases slots.len(),
{
    reveal(Seq::filter);
    if slots.len() > 0 {
        lemma_busy(config, state, project, slots.drop_last());
    }
}

/// Cleaning up leaves a project as many slots in the background as it is configured to
/// have, or all where there are no more. A slot that the action under way is on stays
/// in any case.
pub proof fn cleanups_leave_the_configured_number(
    config: Config,
    repos_dir: Seq<char>,
    state: StateView,
    tree: TreeView,
    k: int,
    i: int,
)
    requires
        0 <= k < state.projects.len(),
        0 <= i < config.projects@.len(),
        config.projects@[i].name@ == state.projects[k].0,
        forall|m: int|
            0 <= m < i ==> (#[trigger] config.projects@[m]).name@ != state.projects[k].0,
    ensures
        ({
            let after = answered(config, repos_dir, state, RequestView::Cleanup, tree).0.projects;
            let had = state.projects[k].1.filter(in_background()).len() as int;
            let size = config.spec_nslots(config.projects@[i]) as int;
            let busy = state.projects[k].1.filter(
                busy_in_background(config, state, state.projects[k].0),
            ).len() as int;
            after[k].1.filter(in_background()).len() == if had <= size {
                had
            } else if busy <= size {
                size
            } else {
                busy
            }
        }),
{
    lemma_answered(config, repos_dir, state, RequestView::Cleanup, tree);
    let entry = state.projects[k];
    let p = |p: ProjectConfig| p.name@ == entry.0;
    assert forall|m: int| 0 <= m < i implies !p(#[trigger] config.projects@[m]) by {}
    lemma_first_where_is(config.projects@, p, i);
    cleaning_up_leaves_the_configured_size(config, state.pending_action, entry);
    lemma_busy(config, state, entry.0, entry.1);
    assert(in_background() =~= available());
}

/// Cleaning up leaves alone what is not configured.
pub proof fn cleanups_leave_other_projects_alone(
    config: Config,
    repos_dir: Seq<char>,
    state: StateView,
    tree: TreeView,
    k: int,
)
    requires
        0 <= k < state.projects.len(),
        forall|i: int|
            0 <= i < config.projects@.len() ==> (#[trigger] config.projects@[i]).name@
                != state.projects[k].0,
    ensures
        answered(config, repos_dir, state, RequestView::Cleanup, tree).0.projects[k]
            == state.projects[k],
{
    lemma_answered(config, repos_dir, state, RequestView::Cleanup, tree);
    let entry = state.projects[k];
    let p = |p: ProjectConfig| p.name@ == entry.0;
    assert forall|i: int| 0 <= i < config.projects@.len() implies !p(
        #[trigger] config.projects@[i],
    ) by {}
    lemma_first_where_none(config.projects@, p);
    cleaning_up_leaves_unknown_projects_alone(config, state.pending_action, entry);
}

/// Of two slots in the background that no action is under way on, the later one goes
/// where the earlier one does.
pub proof fn later_slots_go_first(
    config: Config,
    repos_dir: Seq<char>,
    state: StateView,
    request: RequestView,
    tree: TreeView,
    k: int,
    a: int,
    b: int,
)
    requires
        is_removal(request),
        is_numbered(state.projects),
        0 <= k < state.projects.len(),
        0 <= a < b < state.projects[k].1.len(),
        !(state.projects[k].1[b].status is CheckedOut),
        !is_busy(config, state, state.projects[k].0, state.projects[k].1[b]),
        !answered(config, repos_dir, state, request, tree).0.projects[k].1.contains(
            state.projects[k].1[a],
        ),
    ensures
        !answered(config, repos_dir, state, request, tree).0.projects[k].1.contains(
            state.projects[k].1[b],
        ),
{
    lemma_answered(config, repos_dir, state, request, tree);
    let entry = state.projects[k];
    let busy = busy_slot(config, state.pending_action, entry.0);
    let keep = kept_count(config, asked(request), entry.0, entry.1, busy);
    assert(numbers_differ(entry.1));
    lemma_goes(entry.1, busy, keep, a);
    lemma_goes(entry.1, busy, keep, b);
    lemma_filter_grows(entry.1, removable(busy), a, b);
}

proof fn lemma_filter_grows(s: Seq<SlotView>, p: spec_fn(SlotView) -> bool, a: int, b: int)
    requires
        0 <= a <= b <= s.len(),
    ensures
        s.take(a).filter(p).len() <= s.take(b).filter(p).len(),
    decreases b - a,
{
    if a < b {
        lemma_filter_grows(s, p, a, b - 1);
        lemma_filter_step(s, p, b - 1);
    }
}

} // verus!
