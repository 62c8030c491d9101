//! What holds of the server whatever it is asked and whatever becomes of its commands.
use crate::api::RequestView;
use crate::cleanup::Removal;
use crate::cleanup_laws::cleaning_keeps_consistency;
use crate::config::{Config, ProjectConfig};
use crate::handler::{
    action_is_configured, awaits_build, awaits_submodule_update, completed, due, has_number_left,
    is_cloned, is_short, new_slot, next_build_step, picked, provisioning, provisionings, slot_numbers_left,
    started_actions_are_configured, stepped, succeeded_slot, upkeep, upkeeps, with_choice,
    with_names, with_names_has_names, with_names_keeps_slots, Choice,
};
use crate::requests::{answered, checkout_position, held_as, TreeView};
use crate::seqs::{first_where, lemma_first_where, lemma_first_where_is};
use crate::state::{
    has_number, lemma_same_numbers, named, names_differ, next_free, next_free_is_above_all,
    project_index, ready, slot_position, slots_of, with_project_adds_only_that_project, with_slots,
    with_slots_changes_only_that_project, PendingAction, ProjectsView, SlotView, StateView,
    StatusView,
};
use crate::time::Timestamp;
use vstd::prelude::*;

verus! {

/// Whether no two slots have the same number.
pub open spec fn numbers_differ(slots: Seq<SlotView>) -> bool {
    forall|i: int, j: int|
        #![trigger slots[i], slots[j]]
        0 <= i < j < slots.len() ==> slots[i].id != slots[j].id
}

/// Whether that holds in every project.
pub open spec fn is_numbered(projects: ProjectsView) -> bool {
    forall|k: int| 0 <= k < projects.len() ==> numbers_differ((#[trigger] projects[k]).1)
}

/// Whether a slot is in the state that the action was started from.
pub open spec fn fits(project: ProjectConfig, slot: SlotView, action: PendingAction) -> bool {
    match action {
        PendingAction::Clone(_, _) => slot.status is Cloning,
        PendingAction::CloneSubmodules(_, _) => slot.status is CloningSubmodules,
        PendingAction::Update(_, _) => slot.status is Updating,
        PendingAction::UpdateSubmodules(_, _) => slot.status is UpdatingSubmodules,
        PendingAction::Build(_, _, k) => next_build_step(project, slot) == Some(k),
    }
}

/// Whether the slot of an action exists and is in the state that the action was
/// started from.
pub open spec fn is_under_way(
    config: Config,
    projects: ProjectsView,
    action: PendingAction,
) -> bool {
    let project = config.projects[action.spec_project().0 as int];
    let slots = slots_of(projects, project.name@);
    &&& action_is_configured(config, action)
    &&& project_index(projects, project.name@) is Some
    &&& first_where(slots, has_number(action.spec_slot().0)) matches Some(j) && fits(
        project,
        slots[j],
        action,
    )
}

/// Whether the server's state makes sense: no two slots of a project have the same
/// number, and the action under way is one that its slot waits for.
pub open spec fn is_consistent(config: Config, state: StateView) -> bool {
    &&& is_numbered(state.projects)
    &&& state.pending_action matches Some(action) ==> is_under_way(config, state.projects, action)
}

/// Where numbers differ, a slot is found by its number.
pub proof fn slots_are_found_by_number(slots: Seq<SlotView>, j: int)
    requires
        numbers_differ(slots),
        0 <= j < slots.len(),
    ensures
        first_where(slots, has_number(slots[j].id.0)) == Some(j),
        slot_position(slots, slots[j].id) == Some(j),
{
    assert forall|m: int| 0 <= m < j implies !has_number(slots[j].id.0)(#[trigger] slots[m]) by {
        assert(slots[m].id != slots[j].id);
    }
    lemma_first_where_is(slots, has_number(slots[j].id.0), j);
}

/// A slot with the next free number has a number of its own.
pub proof fn next_numbers_are_new(slots: Seq<SlotView>, slot: SlotView)
    requires
        numbers_differ(slots),
        slot.id.0 >= next_free(slots),
    ensures
        numbers_differ(slots.push(slot)),
{
    next_free_is_above_all(slots);
}

pub proof fn lemma_numbered_slots_of(projects: ProjectsView, name: Seq<char>)
    requires
        is_numbered(projects),
    ensures
        numbers_differ(slots_of(projects, name)),
{
    lemma_first_where(projects, named(name));
}

proof fn lemma_numbered_with_slots(projects: ProjectsView, name: Seq<char>, slots: Seq<SlotView>)
    requires
        is_numbered(projects),
        numbers_differ(slots),
    ensures
        is_numbered(with_slots(projects, name, slots)),
{
    lemma_first_where(projects, named(name));
}

proof fn lemma_numbered_with_names(projects: ProjectsView, config: Config, n: int)
    requires
        is_numbered(projects),
    ensures
        is_numbered(with_names(projects, config, n)),
    decreases n,
{
    if n > 0 {
        lemma_numbered_with_names(projects, config, n - 1);
    }
}

/// Where the slot of a choice stands.
pub open spec fn choice_position(choice: Choice) -> int {
    first_where(choice.slots, has_number(choice.action.spec_slot().0))->0
}

/// What the scheduler picks keeps the numbers apart, and its action fits.
pub proof fn lemma_choice(
    now: Timestamp,
    config: Config,
    projects: ProjectsView,
    i: int,
    choice: Choice,
)
    requires
        0 <= i < config.projects@.len(),
        is_numbered(projects),
        choice.action is Clone ==> has_number_left(config, projects, i),
        provisioning(config, projects, i) == Some(choice) || upkeep(now, config, projects, i)
            == Some(choice),
    ensures
        numbers_differ(choice.slots),
        choice.action.spec_project().0 == i,
        first_where(choice.slots, has_number(choice.action.spec_slot().0)) == Some(
            choice_position(choice),
        ),
        0 <= choice_position(choice) < choice.slots.len(),
        choice.slots[choice_position(choice)].id == choice.action.spec_slot(),
        fits(config.projects[i], choice.slots[choice_position(choice)], choice.action),
        ({
            let project = config.projects[i];
            let slots = slots_of(projects, project.name@);
            let j = choice_position(choice);
            match choice.action {
                PendingAction::Clone(_, number) => is_short(config, projects, i) && j
                    == slots.len() && choice.slots == slots.push(new_slot(number)) && number.0
                    == next_free(slots),
                PendingAction::CloneSubmodules(_, _) => project.has_submodules && first_where(
                    slots,
                    is_cloned(),
                ) == Some(j),
                PendingAction::Update(_, _) => first_where(slots, due(now, config, project))
                    == Some(j),
                PendingAction::UpdateSubmodules(_, _) => first_where(
                    slots,
                    awaits_submodule_update(),
                ) == Some(j),
                PendingAction::Build(_, _, _) => first_where(slots, awaits_build(project)) == Some(
                    j,
                ),
            }
        }),
        !(choice.action is Clone) ==> ({
            let slots = slots_of(projects, config.projects[i].name@);
            let j = choice_position(choice);
            choice.slots.len() == slots.len() && choice.slots == slots.update(
                j,
                SlotView { status: choice.slots[j].status, ..slots[j] },
            )
        }),
{
    assert(config.projects.len() == config.projects@.len());
    let project = config.projects[i];
    let slots = slots_of(projects, project.name@);
    lemma_numbered_slots_of(projects, project.name@);
    lemma_first_where(slots, is_cloned());
    lemma_first_where(slots, due(now, config, project));
    lemma_first_where(slots, awaits_submodule_update());
    lemma_first_where(slots, awaits_build(project));
    next_free_is_above_all(slots);
    let m = match choice.action {
        PendingAction::Clone(_, _) => slots.len() as int,
        PendingAction::CloneSubmodules(_, _) => first_where(slots, is_cloned())->0,
        PendingAction::Update(_, _) => first_where(slots, due(now, config, project))->0,
        PendingAction::UpdateSubmodules(_, _) => first_where(slots, awaits_submodule_update())->0,
        PendingAction::Build(_, _, _) => first_where(slots, awaits_build(project))->0,
    };
    if choice.action is Clone {
        assert(next_free(slots) <= u32::MAX);
        next_numbers_are_new(slots, new_slot(choice.action.spec_slot()));
    } else {
        assert(choice.slots =~= slots.update(
            m,
            SlotView { status: choice.slots[m].status, ..slots[m] },
        ));
        assert forall|a: int, b: int|
            #![trigger choice.slots[a], choice.slots[b]]
            0 <= a < b < choice.slots.len() implies choice.slots[a].id != choice.slots[b].id by {
            assert(slots[a].id != slots[b].id);
        }
    }
    slots_are_found_by_number(choice.slots, m);
}

/// Starting an action keeps the state consistent.
pub proof fn steps_keep_consistency(now: Timestamp, config: Config, state: StateView)
    requires
        is_consistent(config, state),
        state.pending_action is None ==> slot_numbers_left(config, state.projects),
    ensures
        is_consistent(config, stepped(now, config, state).0),
{
    if state.pending_action is None {
        let projects = state.projects;
        let n = config.projects@.len() as int;
        started_actions_are_configured(now, config, state);
        let complete = provisionings(config, projects);
        let current = upkeeps(now, config, projects);
        lemma_first_where(complete, picked());
        lemma_first_where(current, picked());
        match first_where(complete, picked()) {
            Some(i) => {
                assert(complete[i] == provisioning(config, projects, i));
                lemma_chosen(now, config, projects, i + 1, i, complete[i]->0);
            },
            None => match first_where(current, picked()) {
                Some(i) => {
                    assert(current[i] == upkeep(now, config, projects, i));
                    lemma_chosen(now, config, projects, n, i, current[i]->0);
                },
                None => {
                    lemma_numbered_with_names(projects, config, n);
                },
            },
        }
    }
}

/// The projects after a choice are numbered, and the choice is under way.
proof fn lemma_chosen(
    now: Timestamp,
    config: Config,
    projects: ProjectsView,
    visited: int,
    i: int,
    choice: Choice,
)
    requires
        0 <= i < visited <= config.projects@.len(),
        is_numbered(projects),
        choice.action is Clone ==> has_number_left(config, projects, i),
        provisioning(config, projects, i) == Some(choice) || upkeep(now, config, projects, i)
            == Some(choice),
        action_is_configured(config, choice.action),
    ensures
        is_numbered(with_choice(projects, config, visited, i, choice)),
        is_under_way(config, with_choice(projects, config, visited, i, choice), choice.action),
{
    let name = config.projects[i].name@;
    let listed = with_names(projects, config, visited);
    lemma_choice(now, config, projects, i, choice);
    lemma_numbered_with_names(projects, config, visited);
    lemma_numbered_with_slots(listed, name, choice.slots);
    with_names_has_names(projects, config, visited, i);
    with_slots_changes_only_that_project(listed, name, choice.slots, name);
}

/// In a consistent state no action ends in an error of the server, whether the
/// command succeeds or fails; the state stays consistent, and the next action
/// can start.
pub proof fn consistent_states_complete(
    now: Timestamp,
    config: Config,
    state: StateView,
    success: bool,
    message: Seq<char>,
)
    requires
        is_consistent(config, state),
        state.pending_action is Some,
    ensures
        completed(now, config, state, success, message).1 is None,
        completed(now, config, state, success, message).0.pending_action is None,
        is_consistent(config, completed(now, config, state, success, message).0),
{
    let action = state.pending_action->0;
    let project = config.projects[action.spec_project().0 as int];
    let slots = slots_of(state.projects, project.name@);
    let j = first_where(slots, has_number(action.spec_slot().0))->0;
    lemma_first_where(state.projects, named(project.name@));
    lemma_numbered_slots_of(state.projects, project.name@);
    lemma_first_where(slots, has_number(action.spec_slot().0));
    let after = if success {
        succeeded_slot(now, project, slots[j], action)
    } else {
        Some(crate::handler::failed_slot(slots[j], message))
    };
    assert(after is Some);
    lemma_numbered_with_slots(state.projects, project.name@, slots.update(j, after->0));
}

/// Requests keep the state consistent: they touch neither the numbers of slots
/// nor the slot that an action is under way on.
pub proof fn requests_keep_consistency(
    config: Config,
    repos_dir: Seq<char>,
    state: StateView,
    request: RequestView,
    tree: TreeView,
)
    requires
        is_consistent(config, state),
    ensures
        is_consistent(config, answered(config, repos_dir, state, request, tree).0),
{
    match request {
        RequestView::Add { project_name, checkout_name } => {
            if let Some(k) = project_index(state.projects, project_name) {
                let slots = state.projects[k].1;
                lemma_first_where(state.projects, named(project_name));
                lemma_first_where(slots, ready());
                if let Some(j) = first_where(slots, ready()) {
                    lemma_new_status(
                        config,
                        state,
                        project_name,
                        j,
                        StatusView::CheckedOut(checkout_name),
                    );
                }
            }
        },
        RequestView::List { filter } => {},
        RequestView::Remove { project_name, checkout_name, force } => {
            if let Some((k, j)) = checkout_position(state.projects, project_name, checkout_name) {
                let slots = state.projects[k].1;
                lemma_first_where(state.projects, named(project_name));
                lemma_first_where(slots, held_as(checkout_name));
                lemma_new_status(config, state, project_name, j, StatusView::Ready);
            }
        },
        RequestView::Cleanup => {
            cleaning_keeps_consistency(config, state, Removal::Extra);
        },
        RequestView::Purge => {
            cleaning_keeps_consistency(config, state, Removal::All);
        },
    }
}

/// Another status for a slot that is ready or handed out keeps the state consistent.
proof fn lemma_new_status(
    config: Config,
    state: StateView,
    name: Seq<char>,
    j: int,
    status: StatusView,
)
    requires
        is_consistent(config, state),
        project_index(state.projects, name) is Some,
        0 <= j < slots_of(state.projects, name).len(),
        slots_of(state.projects, name)[j].status is Ready || slots_of(
            state.projects,
            name,
        )[j].status is CheckedOut,
    ensures
        ({
            let slots = slots_of(state.projects, name);
            is_consistent(
                config,
                StateView {
                    projects: with_slots(
                        state.projects,
                        name,
                        slots.update(j, SlotView { status, ..slots[j] }),
                    ),
                    ..state
                },
            )
        }),
{
    let slots = slots_of(state.projects, name);
    let after = slots.update(j, SlotView { status, ..slots[j] });
    lemma_numbered_slots_of(state.projects, name);
    lemma_numbered_with_slots(state.projects, name, after);
    if let Some(action) = state.pending_action {
        let busy = config.projects[action.spec_project().0 as int].name@;
        lemma_same_numbers(slots, after, action.spec_slot().0);
        lemma_first_where(slots, has_number(action.spec_slot().0));
        with_slots_changes_only_that_project(state.projects, name, after, busy);
    }
}

/// While an action is under way no other is started and nothing changes; else
/// the action that is returned is the one that is recorded.
pub proof fn one_action_at_a_time(now: Timestamp, config: Config, state: StateView)
    ensures
        state.pending_action is Some ==> stepped(now, config, state) == (
            state,
            None::<PendingAction>,
        ),
        state.pending_action is None ==> stepped(now, config, state).0.pending_action == stepped(
            now,
            config,
            state,
        ).1,
        stepped(now, config, state).0.last_updated == state.last_updated,
{
}

/// A choice for one project changes the slots of no other.
pub proof fn choices_change_one_project(
    projects: ProjectsView,
    config: Config,
    visited: int,
    i: int,
    choice: Choice,
    name: Seq<char>,
)
    requires
        0 <= i < visited <= config.projects@.len(),
    ensures
        slots_of(with_choice(projects, config, visited, i, choice), name) == (if name
            == config.projects[i].name@ {
            choice.slots
        } else {
            slots_of(projects, name)
        }),
{
    let listed = with_names(projects, config, visited);
    with_names_keeps_slots(projects, config, visited, name);
    with_names_has_names(projects, config, visited, i);
    with_slots_changes_only_that_project(listed, config.projects[i].name@, choice.slots, name);
}

/// Whether a slot waits for nothing that the server does: it is ready, in the
/// hands of a user, or in error.
pub open spec fn is_settled(slot: SlotView) -> bool {
    slot.status is Ready || slot.status is CheckedOut || slot.status is Error
}

/// Whether the slots are those from before, perhaps with more behind them: no
/// slot loses its number, its time of refresh or its message, and those in the
/// hands of users or in error keep their status.
pub open spec fn keeps_slots(before: Seq<SlotView>, after: Seq<SlotView>) -> bool {
    &&& after.len() >= before.len()
    &&& forall|j: int|
        0 <= j < before.len() ==> {
            let was = #[trigger] before[j];
            &&& after[j] == (SlotView { status: after[j].status, ..was })
            &&& (was.status is CheckedOut || was.status is Error) ==> after[j] == was
        }
}

/// Starting an action leaves the checkouts of users and the slots in error alone.
pub proof fn steps_leave_users_alone(
    now: Timestamp,
    config: Config,
    state: StateView,
    name: Seq<char>,
)
    ensures
        keeps_slots(
            slots_of(state.projects, name),
            slots_of(stepped(now, config, state).0.projects, name),
        ),
{
    if state.pending_action is None {
        let projects = state.projects;
        let n = config.projects@.len() as int;
        let complete = provisionings(config, projects);
        let current = upkeeps(now, config, projects);
        lemma_first_where(complete, picked());
        lemma_first_where(current, picked());
        match first_where(complete, picked()) {
            Some(i) => {
                assert(complete[i] == provisioning(config, projects, i));
                let choice = complete[i]->0;
                choices_change_one_project(projects, config, i + 1, i, choice, name);
                let slots = slots_of(projects, config.projects[i].name@);
                lemma_first_where(slots, is_cloned());
            },
            None => match first_where(current, picked()) {
                Some(i) => {
                    assert(current[i] == upkeep(now, config, projects, i));
                    let choice = current[i]->0;
                    choices_change_one_project(projects, config, n, i, choice, name);
                    let project = config.projects[i];
                    let slots = slots_of(projects, project.name@);
                    lemma_first_where(slots, due(now, config, project));
                },
                None => {
                    with_names_keeps_slots(projects, config, n, name);
                },
            },
        }
    }
}

/// The end of an action changes the slot of the action and no other; a slot that
/// is ready, in the hands of a user or in error is not touched.
pub proof fn completions_touch_one_slot(
    now: Timestamp,
    config: Config,
    state: StateView,
    success: bool,
    message: Seq<char>,
    name: Seq<char>,
    j: int,
)
    requires
        is_consistent(config, state),
        state.pending_action is Some,
        0 <= j < slots_of(state.projects, name).len(),
    ensures
        ({
            let action = state.pending_action->0;
            let before = slots_of(state.projects, name);
            let after = slots_of(
                completed(now, config, state, success, message).0.projects,
                name,
            );
            let own = name == config.projects[action.spec_project().0 as int].name@ && j
                == first_where(before, has_number(action.spec_slot().0))->0;
            &&& after.len() == before.len()
            &&& !own ==> after[j] == before[j]
            &&& own ==> !is_settled(before[j])
            &&& own && !success ==> after[j] == (SlotView {
                status: StatusView::Error,
                error_message: Some(message),
                ..before[j]
            })
        }),
{
    let action = state.pending_action->0;
    let project = config.projects[action.spec_project().0 as int];
    let slots = slots_of(state.projects, project.name@);
    let m = first_where(slots, has_number(action.spec_slot().0))->0;
    lemma_first_where(slots, has_number(action.spec_slot().0));
    lemma_first_where(state.projects, named(project.name@));
    let slot = if success {
        succeeded_slot(now, project, slots[m], action)->0
    } else {
        crate::handler::failed_slot(slots[m], message)
    };
    consistent_states_complete(now, config, state, success, message);
    with_slots_changes_only_that_project(
        state.projects,
        project.name@,
        slots.update(m, slot),
        name,
    );
}

/// Where no action is under way and none is started, every pool is as large as
/// configured and no slot waits for anything that the server could start.
pub proof fn idle_servers_have_nothing_to_do(
    now: Timestamp,
    config: Config,
    state: StateView,
    i: int,
    j: int,
)
    requires
        state.pending_action is None,
        stepped(now, config, state).1 is None,
        0 <= i < config.projects@.len(),
        0 <= j < slots_of(state.projects, config.projects[i].name@).len(),
    ensures
        ({
            let project = config.projects[i];
            let slot = slots_of(state.projects, project.name@)[j];
            &&& !is_short(config, state.projects, i)
            &&& !(project.has_submodules && slot.status is Cloned)
            &&& !due(now, config, project)(slot)
            &&& !(slot.status is UpdatingSubmodules)
            &&& next_build_step(project, slot) is None
        }),
{
    lemma_nothing_picked(now, config, state, i);
    let project = config.projects[i];
    let slots = slots_of(state.projects, project.name@);
    lemma_first_where(slots, is_cloned());
    lemma_first_where(slots, due(now, config, project));
    lemma_first_where(slots, awaits_submodule_update());
    lemma_first_where(slots, awaits_build(project));
    assert(!is_cloned()(slots[j]) || !project.has_submodules);
    assert(!due(now, config, project)(slots[j]));
    assert(!awaits_submodule_update()(slots[j]));
    assert(!awaits_build(project)(slots[j]));
}

pub proof fn lemma_nothing_picked(now: Timestamp, config: Config, state: StateView, i: int)
    requires
        state.pending_action is None,
        stepped(now, config, state).1 is None,
        0 <= i < config.projects@.len(),
    ensures
        provisioning(config, state.projects, i) is None,
        upkeep(now, config, state.projects, i) is None,
{
    let complete = provisionings(config, state.projects);
    let current = upkeeps(now, config, state.projects);
    lemma_first_where(complete, picked());
    lemma_first_where(current, picked());
    assert(!picked()(complete[i]));
    assert(!picked()(current[i]));
}

/// Whether an action starts, an action ends or a request is answered, no project
/// stands twice in the state.
pub proof fn projects_stand_once(
    now: Timestamp,
    config: Config,
    state: StateView,
    success: bool,
    message: Seq<char>,
    repos_dir: Seq<char>,
    request: RequestView,
    tree: TreeView,
)
    requires
        names_differ(state.projects),
    ensures
        names_differ(stepped(now, config, state).0.projects),
        names_differ(completed(now, config, state, success, message).0.projects),
        names_differ(answered(config, repos_dir, state, request, tree).0.projects),
{
    let n = config.projects@.len() as int;
    let complete = provisionings(config, state.projects);
    let current = upkeeps(now, config, state.projects);
    lemma_first_where(complete, picked());
    lemma_first_where(current, picked());
    lemma_names_differ(state.projects, config, n);
    if let Some(i) = first_where(complete, picked()) {
        lemma_names_differ(state.projects, config, i + 1);
    }
    assert forall|projects: ProjectsView, name: Seq<char>, slots: Seq<SlotView>|
        names_differ(projects) implies names_differ(
        #[trigger] with_slots(projects, name, slots),
    ) by {
        with_slots_changes_only_that_project(projects, name, slots, name);
    }
}

proof fn lemma_names_differ(projects: ProjectsView, config: Config, n: int)
    requires
        names_differ(projects),
    ensures
        names_differ(with_names(projects, config, n)),
    decreases n,
{
    if n > 0 {
        lemma_names_differ(projects, config, n - 1);
        let name = config.projects[n - 1].name@;
        with_project_adds_only_that_project(with_names(projects, config, n - 1), name, name);
    }
}

} // verus!
