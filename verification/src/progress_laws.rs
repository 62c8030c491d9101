//! Why every pool is completed: the work that is left shrinks with every command
//! that ends.
use crate::api::RequestView;
use crate::cleanup::{busy_slot, cleaned, kept_count, Removal};
use crate::cleanup_laws::{lemma_cleaned_slots_of, source, staying_slots_keep_their_order};
use crate::config::{Config, ProjectConfig};
use crate::handler::{
    as_signed, awaits_build, awaits_submodule_update, completed, due, failed_slot, has_number_left,
    is_cloned, is_short, next_build_step, picked, provisioning, provisionings, slot_numbers_left,
    stepped, succeeded_slot, upkeep, upkeeps, with_choice, with_names_keeps_slots, Choice,
};
use crate::handler_laws::{
    choice_position, choices_change_one_project, consistent_states_complete,
    idle_servers_have_nothing_to_do, is_consistent, is_numbered, is_settled, lemma_choice,
    lemma_nothing_picked, lemma_numbered_slots_of, steps_keep_consistency,
};
use crate::requests::{answered, checkout_position, held_as, TreeView};
use crate::seqs::{first_where, lemma_filter_update, lemma_first_where};
use crate::state::{
    available, has_number, lemma_same_numbers, named, next_free, project_index, ready, slots_of,
    with_slots, with_slots_changes_only_that_project, PendingAction, ProjectsView, SlotView,
    StateView, StatusView,
};
use crate::time::{no_time_since_itself, Timestamp};
use vstd::prelude::*;

verus! {

/// How many actions a slot needs at most until it waits for nothing.
pub open spec fn rank(now: Timestamp, config: Config, project: ProjectConfig, slot: SlotView) -> nat {
    let n = project.spec_build_steps().len();
    if due(now, config, project)(slot) {
        n + 2
    } else {
        match slot.status {
            StatusView::Cloned => if project.has_submodules {
                n + 3
            } else {
                0
            },
            StatusView::UpdatingSubmodules => n + 1,
            StatusView::WaitingToBuild => n,
            StatusView::Built(k) => if k.0 + 1 < n {
                (n - 1 - k.0) as nat
            } else {
                0
            },
            _ => 0,
        }
    }
}

/// How many actions the slots need at most.
pub open spec fn ranks(
    now: Timestamp,
    config: Config,
    project: ProjectConfig,
    slots: Seq<SlotView>,
) -> nat
    decreases slots.len(),
{
    if slots.len() == 0 {
        0
    } else {
        ranks(now, config, project, slots.drop_last()) + rank(now, config, project, slots.last())
    }
}

/// How many slots a pool lacks.
pub open spec fn missing(config: Config, project: ProjectConfig, slots: Seq<SlotView>) -> nat {
    let count = slots.filter(available()).len();
    if count < config.spec_nslots(project) {
        (config.spec_nslots(project) - count) as nat
    } else {
        0
    }
}

/// How many actions a pool needs at most until it is complete and up to date.
pub open spec fn work(
    now: Timestamp,
    config: Config,
    project: ProjectConfig,
    slots: Seq<SlotView>,
) -> nat {
    missing(config, project, slots) * (project.spec_build_steps().len() + 4) + ranks(
        now,
        config,
        project,
        slots,
    )
}

/// How many actions the pools of the first `n` projects need at most.
pub open spec fn total_work(now: Timestamp, config: Config, projects: ProjectsView, n: int) -> nat
    decreases n,
{
    if n <= 0 {
        0
    } else {
        total_work(now, config, projects, n - 1) + work(
            now,
            config,
            config.projects[n - 1],
            slots_of(projects, config.projects[n - 1].name@),
        )
    }
}

/// Whether no two projects of a configuration have the same name.
pub open spec fn projects_differ(config: Config) -> bool {
    forall|i: int, j: int|
        0 <= i < j < config.projects@.len() ==> (#[trigger] config.projects@[i]).name@ != (
        #[trigger] config.projects@[j]).name@
}

/// How a command ended, with its message.
pub struct Outcome {
    pub success: bool,
    pub message: Seq<char>,
}

/// The state after the next action has been started and has ended.
pub open spec fn after_round(
    now: Timestamp,
    config: Config,
    state: StateView,
    outcome: Outcome,
) -> StateView {
    completed(
        now,
        config,
        stepped(now, config, state).0,
        outcome.success,
        outcome.message,
    ).0
}

proof fn lemma_ranks_push(
    now: Timestamp,
    config: Config,
    project: ProjectConfig,
    slots: Seq<SlotView>,
    slot: SlotView,
)
    ensures
        ranks(now, config, project, slots.push(slot)) == ranks(now, config, project, slots) + rank(
            now,
            config,
            project,
            slot,
        ),
        slots.push(slot).filter(available()).len() == slots.filter(available()).len() + (
        if available()(slot) {
            1int
        } else {
            0
        }),
{
    reveal(Seq::filter);
    assert(slots.push(slot).drop_last() =~= slots);
}

proof fn lemma_ranks_update(
    now: Timestamp,
    config: Config,
    project: ProjectConfig,
    slots: Seq<SlotView>,
    j: int,
    slot: SlotView,
)
    requires
        0 <= j < slots.len(),
    ensures
        ranks(now, config, project, slots.update(j, slot)) + rank(now, config, project, slots[j])
            == ranks(now, config, project, slots) + rank(now, config, project, slot),
    decreases slots.len(),
{
    let after = slots.update(j, slot);
    if j < slots.len() - 1 {
        lemma_ranks_update(now, config, project, slots.drop_last(), j, slot);
        assert(after.drop_last() =~= slots.drop_last().update(j, slot));
    } else {
        assert(after.drop_last() =~= slots.drop_last());
    }
}

/// The slot of an action after the action has ended.
pub open spec fn ended_slot(
    now: Timestamp,
    project: ProjectConfig,
    choice: Choice,
    outcome: Outcome,
) -> SlotView {
    let slot = choice.slots[choice_position(choice)];
    if outcome.success {
        succeeded_slot(now, project, slot, choice.action)->0
    } else {
        failed_slot(slot, outcome.message)
    }
}

/// The slots of a project after what was picked for it has ended.
pub open spec fn after_choice(
    now: Timestamp,
    project: ProjectConfig,
    choice: Choice,
    outcome: Outcome,
) -> Seq<SlotView> {
    choice.slots.update(
        choice_position(choice),
        ended_slot(now, project, choice, outcome),
    )
}

/// What is picked for a project leaves it less work, once it has ended.
proof fn lemma_choice_reduces_work(
    now: Timestamp,
    config: Config,
    projects: ProjectsView,
    i: int,
    choice: Choice,
    outcome: Outcome,
)
    requires
        0 <= i < config.projects@.len(),
        is_numbered(projects),
        choice.action is Clone ==> has_number_left(config, projects, i),
        as_signed(config.spec_refresh_interval()) > 0,
        provisioning(config, projects, i) == Some(choice) || upkeep(now, config, projects, i)
            == Some(choice),
    ensures
        work(
            now,
            config,
            config.projects[i],
            after_choice(now, config.projects[i], choice, outcome),
        ) < work(
            now,
            config,
            config.projects[i],
            slots_of(projects, config.projects[i].name@),
        ),
{
    let project = config.projects[i];
    let slots = slots_of(projects, project.name@);
    let n = project.spec_build_steps().len();
    lemma_choice(now, config, projects, i, choice);
    lemma_numbered_slots_of(projects, project.name@);
    no_time_since_itself(now);
    let j = choice_position(choice);
    let slot = ended_slot(now, project, choice, outcome);
    let after = after_choice(now, project, choice, outcome);
    if choice.action is Clone {
        assert(after =~= slots.push(slot));
        lemma_ranks_push(now, config, project, slots, slot);
        let m = missing(config, project, slots);
        assert(missing(config, project, after) == m - 1);
        assert((m - 1) * (n + 4) + (n + 4) == m * (n + 4)) by (nonlinear_arith);
    } else {
        lemma_first_where(slots, is_cloned());
        lemma_first_where(slots, due(now, config, project));
        lemma_first_where(slots, awaits_submodule_update());
        lemma_first_where(slots, awaits_build(project));
        assert(after =~= slots.update(j, slot));
        lemma_ranks_update(now, config, project, slots, j, slot);
        assert(available()(slots[j]));
        lemma_filter_update(slots, available(), j, slot);
        assert(missing(config, project, after) == missing(config, project, slots));
        match choice.action {
            PendingAction::Clone(_, _) => {},
            PendingAction::CloneSubmodules(_, _) => {
                assert(is_cloned()(slots[j]));
            },
            PendingAction::Update(_, _) => {
                assert(due(now, config, project)(slots[j]));
            },
            PendingAction::UpdateSubmodules(_, _) => {
                assert(awaits_submodule_update()(slots[j]));
            },
            PendingAction::Build(_, _, k) => {
                assert(awaits_build(project)(slots[j]));
                if let Some(steps) = project.build_command {
                    assert(steps.0.len() == steps.0@.len());
                }
            },
        }
        assert(rank(now, config, project, slot) < rank(now, config, project, slots[j]));
    }
}

/// A round gives one project what was picked for it, and changes no other.
pub proof fn lemma_round(now: Timestamp, config: Config, state: StateView, outcome: Outcome) -> (r: (
    int,
    Choice,
))
    requires
        is_consistent(config, state),
        state.pending_action is None,
        slot_numbers_left(config, state.projects),
        stepped(now, config, state).1 is Some,
    ensures
        0 <= r.0 < config.projects@.len(),
        provisioning(config, state.projects, r.0) == Some(r.1) || upkeep(
            now,
            config,
            state.projects,
            r.0,
        ) == Some(r.1),
        r.1.action is Clone ==> has_number_left(config, state.projects, r.0),
        stepped(now, config, state).1 == Some(r.1.action),
        forall|name: Seq<char>| #[trigger]
            slots_of(after_round(now, config, state, outcome).projects, name) == (if name
                == config.projects[r.0].name@ {
                after_choice(now, config.projects[r.0], r.1, outcome)
            } else {
                slots_of(state.projects, name)
            }),
        is_consistent(config, after_round(now, config, state, outcome)),
        after_round(now, config, state, outcome).pending_action is None,
{
    let projects = state.projects;
    let n = config.projects@.len() as int;
    let complete = provisionings(config, projects);
    let current = upkeeps(now, config, projects);
    lemma_first_where(complete, picked());
    lemma_first_where(current, picked());
    let (visited, i, choice) = match first_where(complete, picked()) {
        Some(i) => (i + 1, i, complete[i]->0),
        None => {
            let i = first_where(current, picked())->0;
            (n, i, current[i]->0)
        },
    };
    steps_keep_consistency(now, config, state);
    let mid = stepped(now, config, state).0;
    consistent_states_complete(now, config, mid, outcome.success, outcome.message);
    lemma_choice(now, config, projects, i, choice);
    let project = config.projects[i];
    let j = choice_position(choice);
    let after = after_round(now, config, state, outcome);
    choices_change_one_project(projects, config, visited, i, choice, project.name@);
    lemma_first_where(mid.projects, named(project.name@));
    assert(after.projects == with_slots(
        mid.projects,
        project.name@,
        after_choice(now, project, choice, outcome),
    ));
    assert forall|name: Seq<char>| #[trigger] slots_of(after.projects, name) == (if name
        == project.name@ {
        after_choice(now, project, choice, outcome)
    } else {
        slots_of(projects, name)
    }) by {
        choices_change_one_project(projects, config, visited, i, choice, name);
        with_slots_changes_only_that_project(
            mid.projects,
            project.name@,
            after_choice(now, project, choice, outcome),
            name,
        );
    }
    (i, choice)
}

proof fn lemma_total_work(
    now: Timestamp,
    config: Config,
    before: ProjectsView,
    after: ProjectsView,
    i: int,
    n: int,
)
    requires
        projects_differ(config),
        0 <= i < config.projects@.len(),
        0 <= n <= config.projects@.len(),
        forall|name: Seq<char>|
            name != config.projects@[i].name@ ==> #[trigger] slots_of(after, name) == slots_of(
                before,
                name,
            ),
        work(
            now,
            config,
            config.projects[i],
            slots_of(after, config.projects[i].name@),
        ) < work(now, config, config.projects[i], slots_of(before, config.projects[i].name@)),
    ensures
        n <= i ==> total_work(now, config, after, n) == total_work(now, config, before, n),
        n > i ==> total_work(now, config, after, n) < total_work(now, config, before, n),
    decreases n,
{
    if n > 0 {
        lemma_total_work(now, config, before, after, i, n - 1);
        if n - 1 != i {
            assert(config.projects@[n - 1].name@ != config.projects@[i].name@);
        }
    }
}

/// Every action that ends leaves less work, whether it succeeded or failed. The
/// refresh interval has to be longer than no time at all, else a slot is due again
/// as soon as it is ready; and projects need names of their own.
pub proof fn rounds_make_progress(
    now: Timestamp,
    config: Config,
    state: StateView,
    outcome: Outcome,
)
    requires
        projects_differ(config),
        as_signed(config.spec_refresh_interval()) > 0,
        is_consistent(config, state),
        state.pending_action is None,
        slot_numbers_left(config, state.projects),
        stepped(now, config, state).1 is Some,
    ensures
        ({
            let n = config.projects@.len() as int;
            total_work(now, config, after_round(now, config, state, outcome).projects, n) < total_work(
                now,
                config,
                state.projects,
                n,
            )
        }),
{
    let (i, choice) = lemma_round(now, config, state, outcome);
    lemma_choice_reduces_work(now, config, state.projects, i, choice, outcome);
    let after = after_round(now, config, state, outcome).projects;
    assert(slots_of(after, config.projects[i].name@) == after_choice(
        now,
        config.projects[i],
        choice,
        outcome,
    ));
    lemma_total_work(
        now,
        config,
        state.projects,
        after,
        i,
        config.projects@.len() as int,
    );
}

/// Whether there are slot numbers for all the slots that the pools lack.
pub open spec fn has_room(config: Config, projects: ProjectsView) -> bool {
    forall|i: int|
        0 <= i < config.projects@.len() ==> {
            let slots = slots_of(projects, (#[trigger] config.projects@[i]).name@);
            next_free(slots) + missing(config, config.projects[i], slots) <= u32::MAX + 1
        }
}

/// Where there is room, the next slot has a number.
pub proof fn room_gives_numbers(config: Config, projects: ProjectsView)
    requires
        has_room(config, projects),
    ensures
        slot_numbers_left(config, projects),
{
    lemma_first_where(provisionings(config, projects), picked());
    if let Some(i) = first_where(provisionings(config, projects), picked()) {
        let slots = slots_of(projects, config.projects@[i].name@);
        assert(is_short(config, projects, i) ==> missing(config, config.projects[i], slots) > 0);
    }
}

/// Whether a slot waits for an action that the server will start by itself.
pub open spec fn is_on_its_way(project: ProjectConfig, slot: SlotView) -> bool {
    match slot.status {
        StatusView::Cloned => slot.last_refreshed is None,
        StatusView::SubmodulesCloned => project.has_submodules && slot.last_refreshed is None,
        StatusView::UpdatingSubmodules => true,
        StatusView::WaitingToBuild | StatusView::Built(_) => next_build_step(project, slot) is Some,
        _ => false,
    }
}

/// Whether the action under way is on that slot of that project.
pub open spec fn is_in_hand(config: Config, state: StateView, i: int, j: int) -> bool {
    let slot = slots_of(state.projects, config.projects[i].name@)[j];
    &&& state.pending_action matches Some(action) && action.spec_project().0 == i
        && action.spec_slot() == slot.id
    &&& (slot.status is Cloning || slot.status is CloningSubmodules) ==> slot.last_refreshed is None
    &&& slot.status is CloningSubmodules ==> config.projects[i].has_submodules
}

/// Whether that slot is settled, on its way, or in hand.
pub open spec fn is_alive(config: Config, state: StateView, i: int, j: int) -> bool {
    let slot = slots_of(state.projects, config.projects[i].name@)[j];
    is_settled(slot) || is_on_its_way(config.projects[i], slot) || is_in_hand(config, state, i, j)
}

/// Whether no slot is stuck.
pub open spec fn nothing_is_stuck(config: Config, state: StateView) -> bool {
    forall|i: int, j: int|
        0 <= i < config.projects@.len() && 0 <= j < slots_of(
            state.projects,
            config.projects[i].name@,
        ).len() ==> #[trigger] is_alive(config, state, i, j)
}

/// A server with nothing under way and nothing to start has complete pools, and
/// every slot in them is ready, in the hands of a user, or in error.
pub proof fn idle_pools_are_settled(
    now: Timestamp,
    config: Config,
    state: StateView,
    i: int,
    j: int,
)
    requires
        nothing_is_stuck(config, state),
        state.pending_action is None,
        stepped(now, config, state).1 is None,
        0 <= i < config.projects@.len(),
        0 <= j < slots_of(state.projects, config.projects[i].name@).len(),
    ensures
        is_settled(slots_of(state.projects, config.projects[i].name@)[j]),
        !is_short(config, state.projects, i),
{
    idle_servers_have_nothing_to_do(now, config, state, i, j);
    assert(is_alive(config, state, i, j));
}

/// Starting an action leaves no slot stuck.
pub proof fn steps_leave_nothing_stuck(now: Timestamp, config: Config, state: StateView)
    requires
        projects_differ(config),
        is_consistent(config, state),
        state.pending_action is None ==> slot_numbers_left(config, state.projects),
        nothing_is_stuck(config, state),
    ensures
        nothing_is_stuck(config, stepped(now, config, state).0),
{
    if state.pending_action is None {
        let projects = state.projects;
        let n = config.projects@.len() as int;
        let complete = provisionings(config, projects);
        let current = upkeeps(now, config, projects);
        lemma_first_where(complete, picked());
        lemma_first_where(current, picked());
        match first_where(complete, picked()) {
            Some(i) => {
                lemma_choice_leaves_nothing_stuck(now, config, state, i + 1, i, complete[i]->0);
            },
            None => match first_where(current, picked()) {
                Some(i) => {
                    lemma_choice_leaves_nothing_stuck(now, config, state, n, i, current[i]->0);
                },
                None => {
                    let after = stepped(now, config, state).0;
                    assert forall|m: int, b: int|
                        0 <= m < n && 0 <= b < slots_of(
                            after.projects,
                            config.projects[m].name@,
                        ).len() implies #[trigger] is_alive(config, after, m, b) by {
                        with_names_keeps_slots(projects, config, n, config.projects[m].name@);
                        assert(is_alive(config, state, m, b));
                    }
                },
            },
        }
    }
}

proof fn lemma_choice_leaves_nothing_stuck(
    now: Timestamp,
    config: Config,
    state: StateView,
    visited: int,
    i: int,
    choice: Choice,
)
    requires
        projects_differ(config),
        is_numbered(state.projects),
        state.pending_action is None,
        choice.action is Clone ==> has_number_left(config, state.projects, i),
        nothing_is_stuck(config, state),
        0 <= i < visited <= config.projects@.len(),
        provisioning(config, state.projects, i) == Some(choice) || upkeep(
            now,
            config,
            state.projects,
            i,
        ) == Some(choice),
    ensures
        nothing_is_stuck(
            config,
            StateView {
                projects: with_choice(state.projects, config, visited, i, choice),
                pending_action: Some(choice.action),
                ..state
            },
        ),
{
    let projects = state.projects;
    let after = StateView {
        projects: with_choice(projects, config, visited, i, choice),
        pending_action: Some(choice.action),
        ..state
    };
    let project = config.projects[i];
    let slots = slots_of(projects, project.name@);
    let j = choice_position(choice);
    lemma_choice(now, config, projects, i, choice);
    lemma_numbered_slots_of(projects, project.name@);
    lemma_first_where(slots, is_cloned());
    lemma_first_where(slots, due(now, config, project));
    lemma_first_where(slots, awaits_submodule_update());
    lemma_first_where(slots, awaits_build(project));
    assert forall|m: int, b: int|
        0 <= m < config.projects@.len() && 0 <= b < slots_of(
            after.projects,
            config.projects[m].name@,
        ).len() implies #[trigger] is_alive(config, after, m, b) by {
        choices_change_one_project(
            projects,
            config,
            visited,
            i,
            choice,
            config.projects[m].name@,
        );
        if m == i {
            if b < slots.len() {
                assert(is_alive(config, state, i, b));
            }
            if b != j {
                assert(choice.slots[b].id != choice.slots[j].id);
                assert(choice.slots[b] == slots[b]);
            }
        } else {
            assert(config.projects@[m].name@ != config.projects@[i].name@);
            assert(is_alive(config, state, m, b));
        }
    }
}

/// The end of an action leaves no slot stuck, whether the command succeeded or
/// failed.
pub proof fn completions_leave_nothing_stuck(
    now: Timestamp,
    config: Config,
    state: StateView,
    success: bool,
    message: Seq<char>,
)
    requires
        projects_differ(config),
        is_consistent(config, state),
        state.pending_action is Some,
        nothing_is_stuck(config, state),
    ensures
        nothing_is_stuck(config, completed(now, config, state, success, message).0),
{
    let action = state.pending_action->0;
    let p = action.spec_project().0 as int;
    let project = config.projects[p];
    let slots = slots_of(state.projects, project.name@);
    let j = first_where(slots, has_number(action.spec_slot().0))->0;
    lemma_first_where(slots, has_number(action.spec_slot().0));
    lemma_numbered_slots_of(state.projects, project.name@);
    let after = completed(now, config, state, success, message).0;
    lemma_first_where(state.projects, named(project.name@));
    consistent_states_complete(now, config, state, success, message);
    assert(is_alive(config, state, p, j));
    let slot = if success {
        succeeded_slot(now, project, slots[j], action)->0
    } else {
        failed_slot(slots[j], message)
    };
    assert forall|m: int, b: int|
        0 <= m < config.projects@.len() && 0 <= b < slots_of(
            after.projects,
            config.projects[m].name@,
        ).len() implies #[trigger] is_alive(config, after, m, b) by {
        with_slots_changes_only_that_project(
            state.projects,
            project.name@,
            slots.update(j, slot),
            config.projects[m].name@,
        );
        if m != p {
            if m < p {
                assert(config.projects@[m].name@ != config.projects@[p].name@);
            } else {
                assert(config.projects@[p].name@ != config.projects@[m].name@);
            }
            assert(is_alive(config, state, m, b));
        } else if b != j {
            assert(slots[b].id != slots[j].id);
            assert(is_alive(config, state, m, b));
        } else {
            if let Some(steps) = project.build_command {
                assert(steps.0.len() == steps.0@.len());
            }
            assert(is_settled(slot) || is_on_its_way(project, slot));
        }
    }
}

/// Requests leave no slot stuck.
pub proof fn requests_leave_nothing_stuck(
    config: Config,
    repos_dir: Seq<char>,
    state: StateView,
    request: RequestView,
    tree: TreeView,
)
    requires
        nothing_is_stuck(config, state),
    ensures
        nothing_is_stuck(config, answered(config, repos_dir, state, request, tree).0),
{
    match request {
        RequestView::Add { project_name, checkout_name } => {
            if let Some(k) = project_index(state.projects, project_name) {
                let slots = state.projects[k].1;
                lemma_first_where(slots, ready());
                if let Some(j) = first_where(slots, ready()) {
                    lemma_new_status_leaves_nothing_stuck(
                        config,
                        state,
                        project_name,
                        j,
                        StatusView::CheckedOut(checkout_name),
                    );
                }
            }
        },
        RequestView::List { filter } => {},
        RequestView::Remove { project_name, checkout_name, force } => {
            if let Some((k, j)) = checkout_position(state.projects, project_name, checkout_name) {
                lemma_first_where(state.projects[k].1, held_as(checkout_name));
                lemma_new_status_leaves_nothing_stuck(
                    config,
                    state,
                    project_name,
                    j,
                    StatusView::Ready,
                );
            }
        },
        RequestView::Cleanup => {
            lemma_cleaning_leaves_nothing_stuck(config, state, Removal::Extra);
        },
        RequestView::Purge => {
            lemma_cleaning_leaves_nothing_stuck(config, state, Removal::All);
        },
    }
}

proof fn lemma_cleaning_leaves_nothing_stuck(config: Config, state: StateView, removal: Removal)
    requires
        nothing_is_stuck(config, state),
    ensures
        nothing_is_stuck(
            config,
            StateView {
                projects: cleaned(config, state.pending_action, removal, state.projects),
                ..state
            },
        ),
{
    let pending = state.pending_action;
    let after = StateView {
        projects: cleaned(config, pending, removal, state.projects),
        ..state
    };
    assert forall|i: int, m: int|
        0 <= i < config.projects@.len() && 0 <= m < slots_of(
            after.projects,
            config.projects[i].name@,
        ).len() implies #[trigger] is_alive(config, after, i, m) by {
        let name = config.projects[i].name@;
        let slots = slots_of(state.projects, name);
        let busy = busy_slot(config, pending, name);
        let keep = kept_count(config, removal, name, slots, busy);
        lemma_cleaned_slots_of(config, pending, removal, state.projects, name);
        staying_slots_keep_their_order(slots, busy, keep);
        let j = source(slots, busy, keep, m);
        assert(is_alive(config, state, i, j));
    }
}

proof fn lemma_new_status_leaves_nothing_stuck(
    config: Config,
    state: StateView,
    name: Seq<char>,
    j: int,
    status: StatusView,
)
    requires
        nothing_is_stuck(config, state),
        project_index(state.projects, name) is Some,
        0 <= j < slots_of(state.projects, name).len(),
        status is Ready || status is CheckedOut,
    ensures
        ({
            let slots = slots_of(state.projects, name);
            nothing_is_stuck(
                config,
                StateView {
                    projects: with_slots(
                        state.projects,
                        name,
                        slots.update(j, SlotView { status, ..slots[j] }),
                    ),
                    ..state
                },
            )
        }),
{
    let slots = slots_of(state.projects, name);
    let new_slots = slots.update(j, SlotView { status, ..slots[j] });
    let after = StateView { projects: with_slots(state.projects, name, new_slots), ..state };
    assert forall|m: int, b: int|
        0 <= m < config.projects@.len() && 0 <= b < slots_of(
            after.projects,
            config.projects[m].name@,
        ).len() implies #[trigger] is_alive(config, after, m, b) by {
        with_slots_changes_only_that_project(
            state.projects,
            name,
            new_slots,
            config.projects[m].name@,
        );
        assert(is_alive(config, state, m, b));
    }
}

/// The state after rounds with those outcomes, or after as many of them as there
/// was something to do.
pub open spec fn after_rounds(
    now: Timestamp,
    config: Config,
    state: StateView,
    outcomes: Seq<Outcome>,
) -> StateView
    decreases outcomes.len(),
{
    if outcomes.len() == 0 || stepped(now, config, state).1 is None {
        state
    } else {
        after_rounds(
            now,
            config,
            after_round(now, config, state, outcomes[0]),
            outcomes.drop_first(),
        )
    }
}

/// Whether nothing is under way or left to start, every pool is as large as
/// configured, and every slot is ready, in the hands of a user, or in error.
pub open spec fn is_complete(now: Timestamp, config: Config, state: StateView) -> bool {
    &&& state.pending_action is None
    &&& stepped(now, config, state).1 is None
    &&& forall|i: int|
        0 <= i < config.projects@.len() ==> !(#[trigger] is_short(config, state.projects, i))
    &&& forall|i: int, j: int|
        0 <= i < config.projects@.len() && 0 <= j < slots_of(
            state.projects,
            config.projects[i].name@,
        ).len() ==> is_settled(#[trigger] slots_of(state.projects, config.projects[i].name@)[j])
}

/// Every pool is completed: whatever becomes of the commands, after no more rounds
/// than there is work nothing is left to start, every pool is as large as
/// configured, and every slot is ready, in the hands of a user, or in error.
pub proof fn pools_are_completed(
    now: Timestamp,
    config: Config,
    state: StateView,
    outcomes: Seq<Outcome>,
)
    requires
        projects_differ(config),
        as_signed(config.spec_refresh_interval()) > 0,
        is_consistent(config, state),
        nothing_is_stuck(config, state),
        has_room(config, state.projects),
        state.pending_action is None,
        outcomes.len() >= total_work(
            now,
            config,
            state.projects,
            config.projects@.len() as int,
        ),
    ensures
        is_complete(now, config, after_rounds(now, config, state, outcomes)),
    decreases outcomes.len(),
{
    room_gives_numbers(config, state.projects);
    if stepped(now, config, state).1 is None {
        assert forall|i: int| 0 <= i < config.projects@.len() implies !(#[trigger] is_short(
            config,
            state.projects,
            i,
        )) by {
            lemma_nothing_picked(now, config, state, i);
        }
        assert forall|i: int, j: int|
            0 <= i < config.projects@.len() && 0 <= j < slots_of(
                state.projects,
                config.projects[i].name@,
            ).len() implies is_settled(
            #[trigger] slots_of(state.projects, config.projects[i].name@)[j],
        ) by {
            idle_pools_are_settled(now, config, state, i, j);
        }
    } else {
        let outcome = if outcomes.len() > 0 {
            outcomes[0]
        } else {
            Outcome { success: true, message: Seq::empty() }
        };
        rounds_make_progress(now, config, state, outcome);
        lemma_round_keeps_all(now, config, state, outcome);
        pools_are_completed(
            now,
            config,
            after_round(now, config, state, outcome),
            outcomes.drop_first(),
        );
    }
}

/// A round keeps what later rounds need.
pub proof fn lemma_round_keeps_all(
    now: Timestamp,
    config: Config,
    state: StateView,
    outcome: Outcome,
)
    requires
        projects_differ(config),
        is_consistent(config, state),
        nothing_is_stuck(config, state),
        has_room(config, state.projects),
        state.pending_action is None,
        stepped(now, config, state).1 is Some,
    ensures
        is_consistent(config, after_round(now, config, state, outcome)),
        nothing_is_stuck(config, after_round(now, config, state, outcome)),
        has_room(config, after_round(now, config, state, outcome).projects),
        after_round(now, config, state, outcome).pending_action is None,
{
    room_gives_numbers(config, state.projects);
    steps_keep_consistency(now, config, state);
    steps_leave_nothing_stuck(now, config, state);
    let mid = stepped(now, config, state).0;
    consistent_states_complete(now, config, mid, outcome.success, outcome.message);
    completions_leave_nothing_stuck(now, config, mid, outcome.success, outcome.message);
    lemma_room_stays(now, config, state, outcome);
}

/// Whether no slot of a configured project was handed out or failed, those that
/// are ready were refreshed, and no pool is larger than configured.
pub open spec fn is_pristine(config: Config, projects: ProjectsView) -> bool {
    forall|i: int|
        0 <= i < config.projects@.len() ==> pool_is_pristine(
            config,
            config.projects[i],
            slots_of(projects, (#[trigger] config.projects@[i]).name@),
        )
}

pub open spec fn pool_is_pristine(
    config: Config,
    project: ProjectConfig,
    slots: Seq<SlotView>,
) -> bool {
    &&& slots.len() <= config.spec_nslots(project)
    &&& forall|j: int|
        0 <= j < slots.len() ==> {
            let slot = #[trigger] slots[j];
            &&& !(slot.status is CheckedOut)
            &&& !(slot.status is Error)
            &&& slot.status is Ready ==> slot.last_refreshed is Some
        }
}

/// A new server fills every pool: if every command succeeds, then after no more
/// rounds than there is work, every pool has exactly the configured number of
/// slots, and all of them are ready and were refreshed.
pub proof fn new_servers_become_ready(
    now: Timestamp,
    config: Config,
    state: StateView,
    outcomes: Seq<Outcome>,
)
    requires
        projects_differ(config),
        as_signed(config.spec_refresh_interval()) > 0,
        state.projects.len() == 0,
        state.pending_action is None,
        forall|n: int| 0 <= n < outcomes.len() ==> (#[trigger] outcomes[n]).success,
        outcomes.len() >= total_work(
            now,
            config,
            state.projects,
            config.projects@.len() as int,
        ),
    ensures
        ({
            let end = after_rounds(now, config, state, outcomes).projects;
            forall|i: int|
                0 <= i < config.projects@.len() ==> {
                    let slots = slots_of(end, (#[trigger] config.projects@[i]).name@);
                    &&& slots.len() == config.spec_nslots(config.projects[i])
                    &&& forall|j: int|
                        0 <= j < slots.len() ==> (#[trigger] slots[j]).status is Ready
                            && slots[j].last_refreshed is Some
                }
        }),
{
    new_servers_are_sound(config, state);
    pools_are_completed(now, config, state, outcomes);
    lemma_pristine_rounds(now, config, state, outcomes);
    let end = after_rounds(now, config, state, outcomes);
    assert forall|i: int| 0 <= i < config.projects@.len() implies {
        let slots = slots_of(end.projects, (#[trigger] config.projects@[i]).name@);
        &&& slots.len() == config.spec_nslots(config.projects[i])
        &&& forall|j: int|
            0 <= j < slots.len() ==> (#[trigger] slots[j]).status is Ready
                && slots[j].last_refreshed is Some
    } by {
        let slots = slots_of(end.projects, config.projects@[i].name@);
        assert(!is_short(config, end.projects, i));
        assert(pool_is_pristine(config, config.projects[i], slots));
        lemma_all_available(slots);
        assert forall|j: int| 0 <= j < slots.len() implies (#[trigger] slots[j]).status is Ready
            && slots[j].last_refreshed is Some by {
            assert(is_settled(slots_of(end.projects, config.projects[i].name@)[j]));
        }
    }
}

/// A server that knows no project yet is in order: its state is consistent, no slot
/// is stuck, and there are numbers for all the slots to come.
pub proof fn new_servers_are_sound(config: Config, state: StateView)
    requires
        state.projects.len() == 0,
        state.pending_action is None,
    ensures
        is_consistent(config, state),
        nothing_is_stuck(config, state),
        has_room(config, state.projects),
        is_pristine(config, state.projects),
{
    reveal(Seq::filter);
    assert forall|name: Seq<char>| #[trigger] slots_of(state.projects, name) == Seq::<
        SlotView,
    >::empty() by {
        lemma_first_where(state.projects, named(name));
    }
}

proof fn lemma_all_available(slots: Seq<SlotView>)
    requires
        forall|j: int| 0 <= j < slots.len() ==> !((#[trigger] slots[j]).status is CheckedOut),
    ensures
        slots.filter(available()).len() == slots.len(),
    decreases slots.len(),
{
    reveal(Seq::filter);
    if slots.len() > 0 {
        let rest = slots.drop_last();
        assert forall|j: int| 0 <= j < rest.len() implies !((
        #[trigger] rest[j]).status is CheckedOut) by {
            assert(rest[j] == slots[j]);
        }
        lemma_all_available(rest);
        assert(!(slots[slots.len() - 1].status is CheckedOut));
    }
}

proof fn lemma_pristine_rounds(
    now: Timestamp,
    config: Config,
    state: StateView,
    outcomes: Seq<Outcome>,
)
    requires
        projects_differ(config),
        is_consistent(config, state),
        nothing_is_stuck(config, state),
        has_room(config, state.projects),
        is_pristine(config, state.projects),
        state.pending_action is None,
        forall|n: int| 0 <= n < outcomes.len() ==> (#[trigger] outcomes[n]).success,
    ensures
        is_pristine(config, after_rounds(now, config, state, outcomes).projects),
    decreases outcomes.len(),
{
    if outcomes.len() > 0 && stepped(now, config, state).1 is Some {
        let outcome = outcomes[0];
        let rest = outcomes.drop_first();
        assert forall|n: int| 0 <= n < rest.len() implies (#[trigger] rest[n]).success by {
            assert(rest[n] == outcomes[n + 1]);
        }
        lemma_round_keeps_all(now, config, state, outcome);
        lemma_pristine_round(now, config, state, outcome);
        lemma_pristine_rounds(now, config, after_round(now, config, state, outcome), rest);
    }
}

proof fn lemma_pristine_round(
    now: Timestamp,
    config: Config,
    state: StateView,
    outcome: Outcome,
)
    requires
        projects_differ(config),
        is_consistent(config, state),
        has_room(config, state.projects),
        is_pristine(config, state.projects),
        state.pending_action is None,
        stepped(now, config, state).1 is Some,
        outcome.success,
    ensures
        is_pristine(config, after_round(now, config, state, outcome).projects),
{
    room_gives_numbers(config, state.projects);
    let (i, choice) = lemma_round(now, config, state, outcome);
    let after = after_round(now, config, state, outcome).projects;
    let project = config.projects[i];
    let slots = slots_of(state.projects, project.name@);
    let j = choice_position(choice);
    lemma_choice(now, config, state.projects, i, choice);
    lemma_numbered_slots_of(state.projects, project.name@);
    let slot = ended_slot(now, project, choice, outcome);
    let new_slots = after_choice(now, project, choice, outcome);
    assert(pool_is_pristine(config, config.projects[i], slots_of(
        state.projects,
        config.projects@[i].name@,
    )));
    lemma_all_available(slots);
    if choice.action is Clone {
        assert(is_short(config, state.projects, i));
        assert(new_slots =~= slots.push(slot));
    } else {
        lemma_first_where(slots, is_cloned());
        lemma_first_where(slots, due(now, config, project));
        assert(new_slots =~= slots.update(j, slot));
    }
    assert forall|m: int| 0 <= m < config.projects@.len() implies pool_is_pristine(
        config,
        config.projects[m],
        slots_of(after, (#[trigger] config.projects@[m]).name@),
    ) by {
        assert(slots_of(after, config.projects@[m].name@) == (if config.projects@[m].name@
            == project.name@ {
            new_slots
        } else {
            slots_of(state.projects, config.projects@[m].name@)
        }));
        if m != i {
            assert(config.projects@[m].name@ != config.projects@[i].name@);
        }
    }
}

proof fn lemma_room_stays(now: Timestamp, config: Config, state: StateView, outcome: Outcome)
    requires
        projects_differ(config),
        is_consistent(config, state),
        has_room(config, state.projects),
        state.pending_action is None,
        slot_numbers_left(config, state.projects),
        stepped(now, config, state).1 is Some,
    ensures
        has_room(config, after_round(now, config, state, outcome).projects),
{
    let (i, choice) = lemma_round(now, config, state, outcome);
    let after = after_round(now, config, state, outcome).projects;
    let project = config.projects[i];
    let slots = slots_of(state.projects, project.name@);
    let j = choice_position(choice);
    lemma_choice(now, config, state.projects, i, choice);
    lemma_numbered_slots_of(state.projects, project.name@);
    let slot = ended_slot(now, project, choice, outcome);
    let new_slots = after_choice(now, project, choice, outcome);
    if choice.action is Clone {
        assert(new_slots =~= slots.push(slot));
        assert(new_slots.drop_last() =~= slots);
        lemma_ranks_push(now, config, project, slots, slot);
    } else {
        lemma_first_where(slots, is_cloned());
        lemma_first_where(slots, due(now, config, project));
        lemma_first_where(slots, awaits_submodule_update());
        lemma_first_where(slots, awaits_build(project));
        assert(new_slots =~= slots.update(j, slot));
        lemma_filter_update(slots, available(), j, slot);
        lemma_same_numbers(slots, new_slots, 0);
    }
    assert forall|m: int| 0 <= m < config.projects@.len() implies {
        let pool = slots_of(after, (#[trigger] config.projects@[m]).name@);
        next_free(pool) + missing(config, config.projects[m], pool) <= u32::MAX + 1
    } by {
        assert(slots_of(after, config.projects@[m].name@) == (if config.projects@[m].name@
            == project.name@ {
            new_slots
        } else {
            slots_of(state.projects, config.projects@[m].name@)
        }));
        if m != i {
            assert(config.projects@[m].name@ != config.projects@[i].name@);
        }
    }
}

} // verus!
