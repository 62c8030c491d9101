//! What one step may change, and that the action which it starts can end.
use crate::config::Config;
use crate::handler::{
    awaits_build, awaits_submodule_update, completed, due, failed_slot, is_cloned, new_slot, picked,
    provisioning, provisionings, slot_numbers_left, stepped, succeeded_slot, upkeep, upkeeps,
    with_choice, with_names, with_names_has_names, with_names_keeps_slots, Choice,
};
use crate::handler_laws::{
    consistent_states_complete, is_consistent, is_numbered, steps_keep_consistency,
};
use crate::seqs::{first_where, lemma_first_where};
use crate::state::{
    has_number, named, next_free, next_free_is_above_all, project_index, slot_position, slots_of,
    with_slots_changes_only_that_project, PendingAction, ProjectsView, SlotView, StateView,
};
use crate::time::Timestamp;
use vstd::prelude::*;

verus! {

/// Whether a configured project has that name.
pub open spec fn is_configured_name(config: Config, name: Seq<char>) -> bool {
    exists|i: int|
        0 <= i < config.projects@.len() && (#[trigger] config.projects@[i]).name@ == name
}

/// The slots that entry `k` had before; an entry that is new had none.
pub open spec fn slots_before(before: ProjectsView, k: int) -> Seq<SlotView> {
    if 0 <= k < before.len() {
        before[k].1
    } else {
        Seq::empty()
    }
}

/// Whether every entry from before stands where it stood, and each one behind them
/// is for a configured name that had none.
pub open spec fn only_adds_entries(
    config: Config,
    before: ProjectsView,
    after: ProjectsView,
) -> bool {
    &&& before.len() <= after.len()
    &&& forall|k: int| 0 <= k < before.len() ==> (#[trigger] after[k]).0 == before[k].0
    &&& forall|k: int|
        before.len() <= k < after.len() ==> {
            let name = (#[trigger] after[k]).0;
            is_configured_name(config, name) && project_index(before, name) is None
        }
}

/// Whether every entry has the slots that it had, but perhaps entry `k`.
pub open spec fn keeps_all_but(before: ProjectsView, after: ProjectsView, k: int) -> bool {
    forall|m: int|
        0 <= m < after.len() && m != k ==> (#[trigger] after[m]).1 == slots_before(before, m)
}

/// Whether every entry has the slots that it had.
pub open spec fn keeps_all(before: ProjectsView, after: ProjectsView) -> bool {
    forall|m: int| 0 <= m < after.len() ==> (#[trigger] after[m]).1 == slots_before(before, m)
}

/// Whether entry `k` has one slot more, behind those that it had, and no other
/// slot differs.
pub open spec fn one_slot_is_added(
    before: ProjectsView,
    after: ProjectsView,
    k: int,
    slot: SlotView,
) -> bool {
    &&& 0 <= k < after.len()
    &&& after[k].1 == slots_before(before, k).push(slot)
    &&& keeps_all_but(before, after, k)
}

/// Whether slot `j` of entry `k` differs in nothing but its status, and no other
/// slot differs or is new.
pub open spec fn one_status_may_change(
    before: ProjectsView,
    after: ProjectsView,
    k: int,
    j: int,
) -> bool {
    let slots = slots_before(before, k);
    &&& 0 <= k < after.len()
    &&& 0 <= j < slots.len()
    &&& after[k].1 == slots.update(j, SlotView { status: after[k].1[j].status, ..slots[j] })
    &&& keeps_all_but(before, after, k)
}

/// One step changes at most one slot. Where it starts to clone, the project of the
/// action gets one slot more, and every slot from before is unchanged. Where it
/// starts anything else, no slot is new, and one slot of that project may change,
/// in its status alone. Where it starts nothing, every slot is unchanged. It
/// removes no project, adds none but empty pools for configured names that had
/// none, and leaves the time of the last update as it was.
pub proof fn steps_change_one_slot(now: Timestamp, config: Config, state: StateView)
    ensures
        ({
            let before = state.projects;
            let (after, started) = stepped(now, config, state);
            &&& after.last_updated == state.last_updated
            &&& only_adds_entries(config, before, after.projects)
            &&& match started {
                Some(action) => {
                    let name = config.projects[action.spec_project().0 as int].name@;
                    &&& action.spec_project().0 < config.projects@.len()
                    &&& project_index(after.projects, name) matches Some(k) && match action {
                        PendingAction::Clone(_, number) => one_slot_is_added(
                            before,
                            after.projects,
                            k,
                            new_slot(number),
                        ),
                        _ => exists|j: int| #[trigger]
                            one_status_may_change(before, after.projects, k, j),
                    }
                },
                None => keeps_all(before, after.projects),
            }
        }),
{
    if state.pending_action is None {
        let projects = state.projects;
        let n = config.projects@.len() as int;
        let complete = provisionings(config, projects);
        let current = upkeeps(now, config, projects);
        lemma_first_where(complete, picked());
        lemma_first_where(current, picked());
        match first_where(complete, picked()) {
            Some(i) => {
                assert(complete[i] == provisioning(config, projects, i));
                lemma_choice_changes_one_slot(now, config, projects, i + 1, i, complete[i]->0);
            },
            None => match first_where(current, picked()) {
                Some(i) => {
                    assert(current[i] == upkeep(now, config, projects, i));
                    lemma_choice_changes_one_slot(now, config, projects, n, i, current[i]->0);
                },
                None => {
                    lemma_names_only_add_entries(projects, config, n);
                },
            },
        }
    }
}

proof fn lemma_names_only_add_entries(projects: ProjectsView, config: Config, n: int)
    requires
        0 <= n <= config.projects@.len(),
    ensures
        only_adds_entries(config, projects, with_names(projects, config, n)),
        keeps_all(projects, with_names(projects, config, n)),
    decreases n,
{
    if n > 0 {
        lemma_names_only_add_entries(projects, config, n - 1);
        let before = with_names(projects, config, n - 1);
        let name = config.projects@[n - 1].name@;
        lemma_first_where(before, named(name));
        lemma_first_where(projects, named(name));
        assert(is_configured_name(config, name));
        if project_index(before, name) is None {
            if let Some(k) = project_index(projects, name) {
                assert(before[k].0 == name);
                assert(named(name)(before[k]));
            }
            assert(with_names(projects, config, n) == before.push((name, Seq::empty())));
        }
    }
}

proof fn lemma_choice_changes_one_slot(
    now: Timestamp,
    config: Config,
    projects: ProjectsView,
    visited: int,
    i: int,
    choice: Choice,
)
    requires
        0 <= i < visited <= config.projects@.len(),
        provisioning(config, projects, i) == Some(choice) || upkeep(now, config, projects, i)
            == Some(choice),
    ensures
        ({
            let after = with_choice(projects, config, visited, i, choice);
            let name = config.projects[i].name@;
            &&& choice.action.spec_project().0 == i
            &&& only_adds_entries(config, projects, after)
            &&& project_index(after, name) matches Some(k) && match choice.action {
                PendingAction::Clone(_, number) => one_slot_is_added(
                    projects,
                    after,
                    k,
                    new_slot(number),
                ),
                _ => exists|j: int| #[trigger] one_status_may_change(projects, after, k, j),
            }
        }),
{
    assert(config.projects.len() == config.projects@.len());
    let project = config.projects[i];
    let slots = slots_of(projects, project.name@);
    let listed = with_names(projects, config, visited);
    let after = with_choice(projects, config, visited, i, choice);
    lemma_names_only_add_entries(projects, config, visited);
    with_names_keeps_slots(projects, config, visited, project.name@);
    with_names_has_names(projects, config, visited, i);
    with_slots_changes_only_that_project(listed, project.name@, choice.slots, project.name@);
    lemma_first_where(listed, named(project.name@));
    let k = project_index(listed, project.name@)->0;
    assert(listed[k].1 == slots_before(projects, k));
    assert(slots == slots_before(projects, k));
    assert(after == listed.update(k, (project.name@, choice.slots)));
    lemma_first_where(slots, is_cloned());
    lemma_first_where(slots, due(now, config, project));
    lemma_first_where(slots, awaits_submodule_update());
    lemma_first_where(slots, awaits_build(project));
    let j = match choice.action {
        PendingAction::Clone(_, _) => slots.len() as int,
        PendingAction::CloneSubmodules(_, _) => first_where(slots, is_cloned())->0,
        PendingAction::Update(_, _) => first_where(slots, due(now, config, project))->0,
        PendingAction::UpdateSubmodules(_, _) => first_where(slots, awaits_submodule_update())->0,
        PendingAction::Build(_, _, _) => first_where(slots, awaits_build(project))->0,
    };
    if !(choice.action is Clone) {
        assert(choice.slots =~= slots.update(
            j,
            SlotView { status: choice.slots[j].status, ..slots[j] },
        ));
        assert(one_status_may_change(projects, after, k, j));
    }
}

/// Every project that a step looks at has a pool from then on: all that are
/// configured, or those up to the first that is not complete.
pub proof fn visited_projects_have_pools(now: Timestamp, config: Config, state: StateView, i: int)
    requires
        state.pending_action is None,
        0 <= i < config.projects@.len(),
    ensures
        ({
            let (after, started) = stepped(now, config, state);
            let provisions = started matches Some(action) && (action is Clone
                || action is CloneSubmodules);
            let name = config.projects@[i].name@;
            &&& !provisions || i <= started->0.spec_project().0 ==> exists|k: int|
                0 <= k < after.projects.len() && (#[trigger] after.projects[k]).0 == name
        }),
{
    let projects = state.projects;
    let n = config.projects@.len() as int;
    assert(config.projects.len() == config.projects@.len());
    let name = config.projects@[i].name@;
    let complete = provisionings(config, projects);
    let current = upkeeps(now, config, projects);
    lemma_first_where(complete, picked());
    lemma_first_where(current, picked());
    let after = stepped(now, config, state).0.projects;
    let (visited, changed) = match first_where(complete, picked()) {
        Some(p) => (p + 1, Some((p, complete[p]->0))),
        None => match first_where(current, picked()) {
            Some(p) => (n, Some((p, current[p]->0))),
            None => (n, None),
        },
    };
    if i < visited {
        with_names_has_names(projects, config, visited, i);
        let listed = with_names(projects, config, visited);
        if let Some((p, choice)) = changed {
            with_slots_changes_only_that_project(
                listed,
                config.projects[p].name@,
                choice.slots,
                name,
            );
        }
        lemma_first_where(after, named(name));
        let k = project_index(after, name)->0;
        assert(after[k].0 == name);
    }
}

/// Whether each slot has its position for its number.
pub open spec fn numbers_are_positions(slots: Seq<SlotView>) -> bool {
    forall|j: int| 0 <= j < slots.len() ==> (#[trigger] slots[j]).id.0 == j
}

/// Whether that holds in every project.
pub open spec fn is_counted(projects: ProjectsView) -> bool {
    forall|k: int| 0 <= k < projects.len() ==> numbers_are_positions((#[trigger] projects[k]).1)
}

/// Slots that are numbered by position are found at the position of their number,
/// and the next free number is how many there are.
pub proof fn counted_slots_stand_at_their_number(slots: Seq<SlotView>)
    requires
        numbers_are_positions(slots),
    ensures
        next_free(slots) == slots.len(),
        forall|j: int|
            0 <= j < slots.len() ==> slot_position(slots, (#[trigger] slots[j]).id) == Some(j),
{
    next_free_is_above_all(slots);
    if next_free(slots) > 0 {
        let i = choose|i: int|
            0 <= i < slots.len() && (#[trigger] slots[i]).id.0 + 1 == next_free(slots);
        assert(slots[i].id.0 == i);
    }
    if slots.len() > 0 {
        assert(slots[slots.len() - 1].id.0 < next_free(slots));
    }
    assert forall|j: int| 0 <= j < slots.len() implies slot_position(
        slots,
        (#[trigger] slots[j]).id,
    ) == Some(j) by {
        lemma_first_where(slots, has_number(slots[j].id.0));
        assert(has_number(slots[j].id.0)(slots[j]));
    }
}

/// Where slots are numbered by position, every action that a step starts can end:
/// whether its command succeeds or fails, its end is no error of the server, the
/// next action can start, and the slots are still numbered by position.
pub proof fn started_actions_can_end(
    started: Timestamp,
    now: Timestamp,
    config: Config,
    state: StateView,
    success: bool,
    message: Seq<char>,
)
    requires
        is_counted(state.projects),
        state.pending_action is None,
        slot_numbers_left(config, state.projects),
        stepped(started, config, state).1 is Some,
    ensures
        ({
            let (after, error) = completed(
                now,
                config,
                stepped(started, config, state).0,
                success,
                message,
            );
            &&& error is None
            &&& after.pending_action is None
            &&& is_counted(after.projects)
        }),
{
    let mid = stepped(started, config, state).0;
    assert(is_numbered(state.projects));
    assert(is_consistent(config, state));
    steps_keep_consistency(started, config, state);
    consistent_states_complete(now, config, mid, success, message);
    lemma_steps_keep_count(started, config, state);
    let action = mid.pending_action->0;
    let project = config.projects[action.spec_project().0 as int];
    lemma_first_where(mid.projects, named(project.name@));
    let k = project_index(mid.projects, project.name@)->0;
    let slots = mid.projects[k].1;
    lemma_first_where(slots, has_number(action.spec_slot().0));
    let j = slot_position(slots, action.spec_slot())->0;
    let slot = if success {
        succeeded_slot(now, project, slots[j], action)->0
    } else {
        failed_slot(slots[j], message)
    };
    assert(slot.id == slots[j].id);
    assert(numbers_are_positions(slots));
    assert(numbers_are_positions(slots.update(j, slot)));
}

/// A step keeps slots numbered by position.
proof fn lemma_steps_keep_count(now: Timestamp, config: Config, state: StateView)
    requires
        is_counted(state.projects),
        state.pending_action is None ==> slot_numbers_left(config, state.projects),
    ensures
        is_counted(stepped(now, config, state).0.projects),
{
    let before = state.projects;
    let (mid, started) = stepped(now, config, state);
    let after = mid.projects;
    steps_change_one_slot(now, config, state);
    assert forall|k: int| 0 <= k < after.len() implies numbers_are_positions(
        (#[trigger] after[k]).1,
    ) by {
        let slots = slots_before(before, k);
        assert(numbers_are_positions(slots));
        if let Some(action) = started {
            let name = config.projects[action.spec_project().0 as int].name@;
            if project_index(after, name) == Some(k) {
                counted_slots_stand_at_their_number(slots);
                if action is Clone {
                    lemma_cloned_number(now, config, state, k);
                } else {
                    let j = choose|j: int| #[trigger] one_status_may_change(before, after, k, j);
                    assert(one_status_may_change(before, after, k, j));
                }
            }
        }
    }
}

/// A slot to clone gets the next free number of its pool.
proof fn lemma_cloned_number(now: Timestamp, config: Config, state: StateView, k: int)
    requires
        state.pending_action is None,
        slot_numbers_left(config, state.projects),
        stepped(now, config, state).1 matches Some(action) && action is Clone && project_index(
            stepped(now, config, state).0.projects,
            config.projects[action.spec_project().0 as int].name@,
        ) == Some(k),
    ensures
        stepped(now, config, state).1->0.spec_slot().0 == next_free(
            slots_before(state.projects, k),
        ),
{
    let projects = state.projects;
    assert(config.projects.len() == config.projects@.len());
    lemma_first_where(provisionings(config, projects), picked());
    lemma_first_where(upkeeps(now, config, projects), picked());
    let i = first_where(provisionings(config, projects), picked())->0;
    let name = config.projects[i].name@;
    let choice = provisioning(config, projects, i)->0;
    let listed = with_names(projects, config, i + 1);
    lemma_names_only_add_entries(projects, config, i + 1);
    with_names_keeps_slots(projects, config, i + 1, name);
    with_slots_changes_only_that_project(listed, name, choice.slots, name);
    lemma_first_where(listed, named(name));
    assert(listed[k].1 == slots_before(projects, k));
}

} // verus!
