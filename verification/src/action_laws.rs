//! What the server may start, in which order, and what comes of it.
use crate::command::CommandView;
use crate::config::{Config, ProjectConfig};
use crate::error::ErrorView;
use crate::handler::{
    awaits_build, awaits_submodule_update, clone_path, command_for, completed, due, idled,
    illegal_transition_error, is_cloned, is_short, new_slot, next_build_step, picked, provisioning,
    provisionings, slot_numbers_left, stepped, upkeep, upkeeps,
};
use crate::handler_laws::{choices_change_one_project, numbers_differ, slots_are_found_by_number};
use crate::removal_laws::in_background;
use crate::seqs::{first_where, lemma_first_where};
use crate::state::{
    available, has_number, named, names_differ, next_free, next_free_is_above_all, project_index,
    slots_of, PendingAction, ProjectId, SlotId, SlotView, StateView, StatusView, StepId,
};
use crate::text::{decimal, quoted, words};
use crate::time::Timestamp;
use vstd::prelude::*;

verus! {

/// A pool has the size of the project's own setting, else the common one, else two.
pub proof fn pools_have_the_size_that_is_set(config: Config, project: ProjectConfig)
    ensures
        project.nslots matches Some(n) ==> config.spec_nslots(project) == n,
        project.nslots is None && config.nslots is Some ==> Some(config.spec_nslots(project))
            == config.nslots,
        project.nslots is None && config.nslots is None ==> config.spec_nslots(project) == 2,
{
}

/// Slots are refreshed after the time that is set, else after half an hour; the
/// branch is the one that is set, else `main`.
pub proof fn settings_have_defaults(config: Config, project: ProjectConfig)
    ensures
        config.refresh_interval_secs matches Some(n) ==> config.spec_refresh_interval() == n,
        config.refresh_interval_secs is None ==> config.spec_refresh_interval() == 30 * 60,
        project.branch matches Some(branch) ==> project.spec_effective_branch() == branch@,
        project.branch is None ==> project.spec_effective_branch() == "main"@,
        project.build_command matches Some(steps) ==> {
            &&& project.spec_build_steps().len() == steps.0@.len()
            &&& forall|k: int|
                0 <= k < steps.0@.len() ==> #[trigger] project.spec_build_steps()[k]
                    == steps.0@[k]@
        },
        project.build_command is None ==> project.spec_build_steps().len() == 0,
{
}

/// Whether fewer slots of project `i` are in the background than are to be.
pub open spec fn needs_slot(config: Config, state: StateView, i: int) -> bool {
    slots_of(state.projects, config.projects@[i].name@).filter(in_background()).len()
        < config.spec_nslots(config.projects@[i])
}

/// Whether a slot was cloned and still lacks its submodules.
pub open spec fn needs_submodules(project: ProjectConfig, slot: SlotView) -> bool {
    project.has_submodules && slot.status is Cloned
}

/// Whether a slot is to be updated: it is ready, or has just been cloned in full, and
/// the last refresh is too long ago or never was.
pub open spec fn needs_update(
    now: Timestamp,
    config: Config,
    project: ProjectConfig,
    slot: SlotView,
) -> bool {
    let interval = config.spec_refresh_interval();
    &&& (slot.status is Ready || (project.has_submodules && slot.status is SubmodulesCloned) || (
    !project.has_submodules && slot.status is Cloned))
    &&& slot.last_refreshed matches Some(t) ==> now.spec_seconds_since(t) >= (if interval
        <= i64::MAX {
        interval as int
    } else {
        interval - 0x1_0000_0000_0000_0000
    })
}

/// Whether build step `k` is the one that a slot waits for: the first where none
/// has run, else the one behind the one that ran last.
pub open spec fn needs_step(project: ProjectConfig, slot: SlotView, k: StepId) -> bool {
    &&& k.0 < project.spec_build_steps().len()
    &&& ((k.0 == 0 && slot.status is WaitingToBuild) || (slot.status matches StatusView::Built(
        last,
    ) && k.0 == last.0 + 1))
}

/// Whether a slot waits for some build step.
pub open spec fn needs_build(project: ProjectConfig, slot: SlotView) -> bool {
    let n = project.spec_build_steps().len();
    (slot.status is WaitingToBuild && 0 < n) || (slot.status matches StatusView::Built(last)
        && last.0 + 1 < n)
}

proof fn lemma_needs(
    now: Timestamp,
    config: Config,
    state: StateView,
    i: int,
    project: ProjectConfig,
    slot: SlotView,
)
    requires
        0 <= i < config.projects@.len(),
    ensures
        is_short(config, state.projects, i) == needs_slot(config, state, i),
        due(now, config, project)(slot) == needs_update(now, config, project, slot),
        awaits_build(project)(slot) == needs_build(project, slot),
        next_build_step(project, slot) matches Some(k) ==> needs_step(project, slot, k),
        (project.has_submodules && is_cloned()(slot)) == needs_submodules(project, slot),
{
    assert(in_background() =~= available());
    if let Some(steps) = project.build_command {
        assert(steps.0.len() == steps.0@.len());
    }
}

/// Whether some slot has that number and property, and none before it has the
/// property.
pub open spec fn first_with(
    slots: Seq<SlotView>,
    id: SlotId,
    p: spec_fn(SlotView) -> bool,
) -> bool {
    exists|j: int|
        0 <= j < slots.len() && (#[trigger] slots[j]).id == id && p(slots[j]) && forall|m: int|
            0 <= m < j ==> !p(#[trigger] slots[m])
}

/// Whether project `i` has a slot with that property.
pub open spec fn some_slot(
    config: Config,
    state: StateView,
    i: int,
    p: spec_fn(SlotView) -> bool,
) -> bool {
    let slots = slots_of(state.projects, config.projects@[i].name@);
    exists|j: int| 0 <= j < slots.len() && p(#[trigger] slots[j])
}

/// Whether a pool is not complete: it lacks a slot, or a slot lacks its submodules.
pub open spec fn is_incomplete(config: Config, state: StateView, i: int) -> bool {
    needs_slot(config, state, i) || some_slot(
        config,
        state,
        i,
        |s: SlotView| needs_submodules(config.projects@[i], s),
    )
}

/// Whether a pool is not up to date: a slot is to be updated or built.
pub open spec fn is_outdated(now: Timestamp, config: Config, state: StateView, i: int) -> bool {
    let project = config.projects@[i];
    ||| some_slot(config, state, i, |s: SlotView| needs_update(now, config, project, s))
    ||| some_slot(config, state, i, |s: SlotView| s.status is UpdatingSubmodules)
    ||| some_slot(config, state, i, |s: SlotView| needs_build(project, s))
}

proof fn lemma_some_slot(
    config: Config,
    state: StateView,
    i: int,
    p: spec_fn(SlotView) -> bool,
    q: spec_fn(SlotView) -> bool,
)
    requires
        forall|s: SlotView| #[trigger] p(s) == q(s),
    ensures
        ({
            let slots = slots_of(state.projects, config.projects@[i].name@);
            &&& first_where(slots, p) is Some <==> some_slot(config, state, i, q)
            &&& first_where(slots, p) matches Some(j) ==> 0 <= j < slots.len() && first_with(
                slots,
                slots[j].id,
                q,
            )
        }),
{
    let slots = slots_of(state.projects, config.projects@[i].name@);
    lemma_first_where(slots, p);
    match first_where(slots, p) {
        Some(j) => {
            assert(q(slots[j]));
            assert forall|m: int| 0 <= m < j implies !q(#[trigger] slots[m]) by {
                assert(!p(slots[m]));
            }
        },
        None => {
            assert forall|j: int| 0 <= j < slots.len() implies !q(#[trigger] slots[j]) by {
                assert(!p(slots[j]));
            }
        },
    }
}

/// What is picked for a project, in terms of what its slots need.
proof fn lemma_picks(now: Timestamp, config: Config, state: StateView, i: int)
    requires
        0 <= i < config.projects@.len(),
    ensures
        provisioning(config, state.projects, i) is Some <==> is_incomplete(config, state, i),
        upkeep(now, config, state.projects, i) is Some <==> is_outdated(now, config, state, i),
        ({
            let project = config.projects@[i];
            let slots = slots_of(state.projects, project.name@);
            &&& provisioning(config, state.projects, i) matches Some(choice) ==> {
                &&& choice.action.spec_project().0 == i
                &&& match choice.action {
                    PendingAction::Clone(_, _) => needs_slot(config, state, i),
                    PendingAction::CloneSubmodules(_, s) => !needs_slot(config, state, i)
                        && first_with(slots, s, |s: SlotView| needs_submodules(project, s)),
                    _ => false,
                }
            }
            &&& upkeep(now, config, state.projects, i) matches Some(choice) ==> {
                &&& choice.action.spec_project().0 == i
                &&& match choice.action {
                    PendingAction::Update(_, s) => first_with(
                        slots,
                        s,
                        |s: SlotView| needs_update(now, config, project, s),
                    ),
                    PendingAction::UpdateSubmodules(_, s) => !some_slot(
                        config,
                        state,
                        i,
                        |s: SlotView| needs_update(now, config, project, s),
                    ) && first_with(slots, s, |s: SlotView| s.status is UpdatingSubmodules),
                    PendingAction::Build(_, s, k) => !some_slot(
                        config,
                        state,
                        i,
                        |s: SlotView| needs_update(now, config, project, s),
                    ) && !some_slot(
                        config,
                        state,
                        i,
                        |s: SlotView| s.status is UpdatingSubmodules,
                    ) && first_with(slots, s, |s: SlotView| needs_build(project, s)) && exists|
                        j: int,
                    |
                        0 <= j < slots.len() && (#[trigger] slots[j]).id == s && needs_step(
                            project,
                            slots[j],
                            k,
                        ),
                    _ => false,
                }
            }
        }),
{
    let project = config.projects@[i];
    let slots = slots_of(state.projects, project.name@);
    assert(config.projects.len() == config.projects@.len());
    assert forall|s: SlotView| #[trigger]
        due(now, config, project)(s) == needs_update(now, config, project, s) by {
        lemma_needs(now, config, state, i, project, s);
    }
    assert forall|s: SlotView| #[trigger]
        awaits_build(project)(s) == needs_build(project, s) by {
        lemma_needs(now, config, state, i, project, s);
    }
    lemma_needs(now, config, state, i, project, slots[0]);
    lemma_some_slot(
        config,
        state,
        i,
        due(now, config, project),
        |s: SlotView| needs_update(now, config, project, s),
    );
    lemma_some_slot(
        config,
        state,
        i,
        awaits_submodule_update(),
        |s: SlotView| s.status is UpdatingSubmodules,
    );
    lemma_some_slot(
        config,
        state,
        i,
        awaits_build(project),
        |s: SlotView| needs_build(project, s),
    );
    if project.has_submodules {
        lemma_some_slot(
            config,
            state,
            i,
            is_cloned(),
            |s: SlotView| needs_submodules(project, s),
        );
    }
    lemma_first_where(slots, awaits_build(project));
    if let Some(j) = first_where(slots, awaits_build(project)) {
        lemma_needs(now, config, state, i, project, slots[j]);
        assert(needs_step(project, slots[j], next_build_step(project, slots[j])->0));
    }
}

/// What is started fits what a slot needs. A new slot is cloned where a pool lacks
/// one, and gets a number of its own, the one behind the highest in use. Any other
/// action is on the first slot of the project that needs it; a build is of the very
/// step that the slot waits for, the one behind the step that ran last.
pub proof fn started_actions_are_needed(now: Timestamp, config: Config, state: StateView)
    requires
        slot_numbers_left(config, state.projects),
        stepped(now, config, state).1 is Some,
    ensures
        ({
            let action = stepped(now, config, state).1->0;
            let i = action.spec_project().0 as int;
            let project = config.projects@[i];
            let slots = slots_of(state.projects, project.name@);
            &&& state.pending_action is None
            &&& 0 <= i < config.projects@.len()
            &&& match action {
                PendingAction::Clone(_, number) => needs_slot(config, state, i) && (forall|j: int|
                    0 <= j < slots.len() ==> (#[trigger] slots[j]).id.0 < number.0) && (number.0
                    > 0 ==> exists|j: int|
                    0 <= j < slots.len() && (#[trigger] slots[j]).id.0 + 1 == number.0),
                PendingAction::CloneSubmodules(_, s) => first_with(
                    slots,
                    s,
                    |s: SlotView| needs_submodules(project, s),
                ),
                PendingAction::Update(_, s) => first_with(
                    slots,
                    s,
                    |s: SlotView| needs_update(now, config, project, s),
                ),
                PendingAction::UpdateSubmodules(_, s) => first_with(
                    slots,
                    s,
                    |s: SlotView| s.status is UpdatingSubmodules,
                ),
                PendingAction::Build(_, s, k) => first_with(
                    slots,
                    s,
                    |s: SlotView| needs_build(project, s),
                ) && exists|j: int|
                    0 <= j < slots.len() && (#[trigger] slots[j]).id == s && needs_step(
                        project,
                        slots[j],
                        k,
                    ),
            }
        }),
{
    let complete = provisionings(config, state.projects);
    let current = upkeeps(now, config, state.projects);
    lemma_first_where(complete, picked());
    lemma_first_where(current, picked());
    match first_where(complete, picked()) {
        Some(i) => {
            lemma_picks(now, config, state, i);
            next_free_is_above_all(slots_of(state.projects, config.projects@[i].name@));
        },
        None => {
            let i = first_where(current, picked())->0;
            lemma_picks(now, config, state, i);
        },
    }
}

/// The order of what is started. Slots are cloned, with their submodules, before any
/// slot is updated or built, in whatever project; among projects the first in the
/// configuration that needs something comes first; within a project new slots come
/// before submodules, and updates before the updates of submodules before builds.
pub proof fn first_things_come_first(now: Timestamp, config: Config, state: StateView)
    requires
        stepped(now, config, state).1 is Some,
    ensures
        ({
            let action = stepped(now, config, state).1->0;
            let i = action.spec_project().0 as int;
            let project = config.projects@[i];
            let provisions = action is Clone || action is CloneSubmodules;
            &&& provisions ==> forall|m: int|
                0 <= m < i ==> !(#[trigger] is_incomplete(config, state, m))
            &&& !provisions ==> forall|m: int|
                0 <= m < config.projects@.len() ==> !(#[trigger] is_incomplete(config, state, m))
            &&& !provisions ==> forall|m: int|
                0 <= m < i ==> !(#[trigger] is_outdated(now, config, state, m))
            &&& action is CloneSubmodules ==> !needs_slot(config, state, i)
            &&& (action is UpdateSubmodules || action is Build) ==> !some_slot(
                config,
                state,
                i,
                |s: SlotView| needs_update(now, config, project, s),
            )
            &&& action is Build ==> !some_slot(
                config,
                state,
                i,
                |s: SlotView| s.status is UpdatingSubmodules,
            )
        }),
{
    let complete = provisionings(config, state.projects);
    let current = upkeeps(now, config, state.projects);
    lemma_first_where(complete, picked());
    lemma_first_where(current, picked());
    match first_where(complete, picked()) {
        Some(i) => {
            lemma_picks(now, config, state, i);
            assert forall|m: int| 0 <= m < i implies !(#[trigger] is_incomplete(
                config,
                state,
                m,
            )) by {
                assert(!picked()(complete[m]));
                lemma_picks(now, config, state, m);
            }
        },
        None => {
            let i = first_where(current, picked())->0;
            lemma_picks(now, config, state, i);
            assert forall|m: int| 0 <= m < config.projects@.len() implies !(
            #[trigger] is_incomplete(config, state, m)) by {
                assert(!picked()(complete[m]));
                lemma_picks(now, config, state, m);
            }
            assert forall|m: int| 0 <= m < i implies !(#[trigger] is_outdated(
                now,
                config,
                state,
                m,
            )) by {
                assert(!picked()(current[m]));
                lemma_picks(now, config, state, m);
            }
        },
    }
}

/// While no action is under way, one is started exactly where some pool is
/// incomplete or out of date; while one is, none is.
pub proof fn the_server_rests_only_when_all_is_done(
    now: Timestamp,
    config: Config,
    state: StateView,
)
    ensures
        state.pending_action is Some ==> stepped(now, config, state).1 is None,
        state.pending_action is None ==> (stepped(now, config, state).1 is Some <==> exists|i: int|
            0 <= i < config.projects@.len() && (#[trigger] is_incomplete(config, state, i)
                || is_outdated(now, config, state, i))),
{
    let complete = provisionings(config, state.projects);
    let current = upkeeps(now, config, state.projects);
    lemma_first_where(complete, picked());
    lemma_first_where(current, picked());
    if state.pending_action is None {
        match first_where(complete, picked()) {
            Some(i) => {
                lemma_picks(now, config, state, i);
                assert(is_incomplete(config, state, i));
            },
            None => match first_where(current, picked()) {
                Some(i) => {
                    lemma_picks(now, config, state, i);
                    assert(is_incomplete(config, state, i) || is_outdated(now, config, state, i));
                },
                None => {
                    assert forall|i: int| 0 <= i < config.projects@.len() implies !(
                    #[trigger] is_incomplete(config, state, i)) && !is_outdated(
                        now,
                        config,
                        state,
                        i,
                    ) by {
                        assert(!picked()(complete[i]));
                        assert(!picked()(current[i]));
                        lemma_picks(now, config, state, i);
                    }
                },
            },
        }
    }
}

/// A new slot is being cloned, was never refreshed and has no error.
pub proof fn new_slots_start_from_nothing(id: SlotId)
    ensures
        new_slot(id).id == id,
        new_slot(id).status is Cloning,
        new_slot(id).last_refreshed is None,
        new_slot(id).error_message is None,
{
}

/// Whether a slot is in the state that an action is started in.
pub open spec fn is_started(project: ProjectConfig, slot: SlotView, action: PendingAction) -> bool {
    match action {
        PendingAction::Clone(_, _) => slot.status is Cloning,
        PendingAction::CloneSubmodules(_, _) => slot.status is CloningSubmodules,
        PendingAction::Update(_, _) => slot.status is Updating,
        PendingAction::UpdateSubmodules(_, _) => slot.status is UpdatingSubmodules,
        PendingAction::Build(_, _, k) => needs_step(project, slot, k),
    }
}

/// The status that follows the success of an action: submodules come after what was
/// cloned or updated, then the build steps one by one, and after the last thing that
/// the project asks for the slot is ready.
pub open spec fn follows(project: ProjectConfig, action: PendingAction) -> StatusView {
    let n = project.spec_build_steps().len();
    let updated = if n > 0 {
        StatusView::WaitingToBuild
    } else {
        StatusView::Ready
    };
    match action {
        PendingAction::Clone(_, _) => StatusView::Cloned,
        PendingAction::CloneSubmodules(_, _) => StatusView::SubmodulesCloned,
        PendingAction::Update(_, _) => if project.has_submodules {
            StatusView::UpdatingSubmodules
        } else {
            updated
        },
        PendingAction::UpdateSubmodules(_, _) => updated,
        PendingAction::Build(_, _, k) => if k.0 + 1 == n {
            StatusView::Ready
        } else {
            StatusView::Built(k)
        },
    }
}

/// What is started is recorded: it is the action under way, its project has a slot of
/// its number, and that slot is in the state that the action is started in. A slot
/// whose submodules are updated, or that is built, stays as it was.
pub proof fn started_actions_are_recorded(now: Timestamp, config: Config, state: StateView)
    requires
        stepped(now, config, state).1 is Some,
    ensures
        ({
            let (after, started) = stepped(now, config, state);
            let action = started->0;
            let project = config.projects@[action.spec_project().0 as int];
            let before = slots_of(state.projects, project.name@);
            let slots = slots_of(after.projects, project.name@);
            &&& after.pending_action == started
            &&& exists|j: int|
                0 <= j < slots.len() && (#[trigger] slots[j]).id == action.spec_slot()
                    && is_started(project, slots[j], action)
            &&& (action is UpdateSubmodules || action is Build) ==> slots == before
        }),
{
    let projects = state.projects;
    let n = config.projects@.len() as int;
    assert(config.projects.len() == config.projects@.len());
    let complete = provisionings(config, projects);
    let current = upkeeps(now, config, projects);
    lemma_first_where(complete, picked());
    lemma_first_where(current, picked());
    let (visited, i, choice) = match first_where(complete, picked()) {
        Some(i) => (i + 1, i, complete[i]->0),
        None => {
            let i = first_where(current, picked())->0;
            (n, i, current[i]->0)
        },
    };
    let project = config.projects@[i];
    let slots = slots_of(projects, project.name@);
    choices_change_one_project(projects, config, visited, i, choice, project.name@);
    lemma_first_where(slots, is_cloned());
    lemma_first_where(slots, due(now, config, project));
    lemma_first_where(slots, awaits_submodule_update());
    lemma_first_where(slots, awaits_build(project));
    let j = match choice.action {
        PendingAction::Clone(_, _) => slots.len() as int,
        PendingAction::CloneSubmodules(_, _) => first_where(slots, is_cloned())->0,
        PendingAction::Update(_, _) => first_where(slots, due(now, config, project))->0,
        PendingAction::UpdateSubmodules(_, _) => first_where(slots, awaits_submodule_update())->0,
        PendingAction::Build(_, _, _) => first_where(slots, awaits_build(project))->0,
    };
    if choice.action is Build {
        lemma_needs(now, config, state, i, project, slots[j]);
    }
    let (after, started) = stepped(now, config, state);
    assert(started == Some(choice.action));
    assert(choice.action.spec_project().0 == i);
    assert(slots_of(after.projects, project.name@) == choice.slots);
    assert(choice.slots[j].id == choice.action.spec_slot());
    assert(is_started(project, choice.slots[j], choice.action));
}

/// A step runs out of numbers exactly where a new slot is next, for the first project
/// that is not complete, and a slot of that project has the highest number there is.
pub proof fn numbers_run_out_at_the_highest(config: Config, state: StateView)
    ensures
        !slot_numbers_left(config, state.projects) <==> exists|i: int|
            0 <= i < config.projects@.len() && #[trigger] needs_slot(config, state, i) && (forall|
                m: int,
            |
                0 <= m < i ==> !(#[trigger] is_incomplete(config, state, m))) && some_slot(
                config,
                state,
                i,
                |s: SlotView| s.id.0 == u32::MAX,
            ),
{
    let complete = provisionings(config, state.projects);
    lemma_first_where(complete, picked());
    assert forall|i: int| 0 <= i < config.projects@.len() implies (#[trigger] complete[i] is Some
        <==> is_incomplete(config, state, i)) by {
        lemma_incomplete(config, state, i);
    }
    assert forall|i: int| 0 <= i < config.projects@.len() implies (#[trigger] is_short(
        config,
        state.projects,
        i,
    )) == needs_slot(config, state, i) by {
        assert(in_background() =~= available());
    }
    assert forall|i: int| 0 <= i < config.projects@.len() implies (next_free(
        slots_of(state.projects, (#[trigger] config.projects@[i]).name@),
    ) > u32::MAX <==> some_slot(config, state, i, |s: SlotView| s.id.0 == u32::MAX)) by {
        let slots = slots_of(state.projects, config.projects@[i].name@);
        next_free_is_above_all(slots);
        if next_free(slots) > u32::MAX {
            let j = choose|j: int|
                0 <= j < slots.len() && (#[trigger] slots[j]).id.0 + 1 == next_free(slots);
            assert(slots[j].id.0 == u32::MAX);
        }
    }
    match first_where(complete, picked()) {
        Some(i) => {
            assert forall|m: int| 0 <= m < i implies !(#[trigger] is_incomplete(
                config,
                state,
                m,
            )) by {
                assert(!picked()(complete[m]));
            }
            assert(complete[i] is Some);
            assert(is_short(config, state.projects, i) == needs_slot(config, state, i));
            let p = config.projects@[i];
            assert forall|a: int|
                0 <= a < config.projects@.len() && #[trigger] needs_slot(config, state, a) && (
                forall|m: int|
                    0 <= m < a ==> !(#[trigger] is_incomplete(config, state, m))) implies a
                == i by {
                assert(is_incomplete(config, state, a));
                assert(is_incomplete(config, state, i));
                assert(complete[a] is Some);
                if a < i {
                    assert(!is_incomplete(config, state, a));
                }
            }
        },
        None => {
            assert forall|i: int| 0 <= i < config.projects@.len() implies !(
            #[trigger] needs_slot(config, state, i)) by {
                assert(!picked()(complete[i]));
                assert(!is_incomplete(config, state, i));
            }
        },
    }
}

proof fn lemma_incomplete(config: Config, state: StateView, i: int)
    requires
        0 <= i < config.projects@.len(),
    ensures
        provisioning(config, state.projects, i) is Some <==> is_incomplete(config, state, i),
{
    let project = config.projects@[i];
    assert(in_background() =~= available());
    if project.has_submodules {
        lemma_some_slot(
            config,
            state,
            i,
            is_cloned(),
            |s: SlotView| needs_submodules(project, s),
        );
    }
}

/// What the end of an action makes of the state. Success takes the slot of the
/// action to the status that follows, and notes the time of refresh exactly where the
/// slot is ready then. Failure puts it in error, with what the command wrote. No other
/// slot changes, and the next action can start. A success that does not fit the
/// status of the slot is an error, and no slot changes.
pub proof fn actions_end_as_they_should(
    now: Timestamp,
    config: Config,
    state: StateView,
    success: bool,
    message: Seq<char>,
    k: int,
    j: int,
)
    requires
        names_differ(state.projects),
        0 <= k < state.projects.len(),
        numbers_differ(state.projects[k].1),
        0 <= j < state.projects[k].1.len(),
        state.pending_action matches Some(action) && action.spec_project().0
            < config.projects@.len() && config.projects@[action.spec_project().0 as int].name@
            == state.projects[k].0 && action.spec_slot() == state.projects[k].1[j].id,
    ensures
        ({
            let action = state.pending_action->0;
            let project = config.projects@[action.spec_project().0 as int];
            let slot = state.projects[k].1[j];
            let (after, error) = completed(now, config, state, success, message);
            let fits = is_started(project, slot, action);
            &&& after.pending_action is None
            &&& after.last_updated == state.last_updated
            &&& after.projects.len() == state.projects.len()
            &&& forall|m: int|
                0 <= m < state.projects.len() && m != k ==> #[trigger] after.projects[m]
                    == state.projects[m]
            &&& after.projects[k].0 == state.projects[k].0
            &&& after.projects[k].1.len() == state.projects[k].1.len()
            &&& forall|m: int|
                0 <= m < state.projects[k].1.len() && m != j ==> #[trigger] after.projects[k].1[m]
                    == state.projects[k].1[m]
            &&& error is None <==> !success || fits
            &&& !success ==> after.projects[k].1[j] == (SlotView {
                id: slot.id,
                status: StatusView::Error,
                last_refreshed: slot.last_refreshed,
                error_message: Some(message),
            })
            &&& success && fits ==> after.projects[k].1[j] == (SlotView {
                id: slot.id,
                status: follows(project, action),
                last_refreshed: if follows(project, action) is Ready {
                    Some(now)
                } else {
                    slot.last_refreshed
                },
                error_message: slot.error_message,
            })
            &&& success && !fits ==> after.projects[k].1[j] == slot
        }),
{
    let action = state.pending_action->0;
    let i = action.spec_project().0 as int;
    let project = config.projects@[i];
    let slots = state.projects[k].1;
    crate::checkout_laws::projects_are_found_by_name(state.projects, k);
    slots_are_found_by_number(slots, j);
    if let Some(steps) = project.build_command {
        assert(steps.0.len() == steps.0@.len());
    }
    if let PendingAction::Build(_, _, step) = action {
        lemma_needs(now, config, state, i, project, slots[j]);
        assert(next_build_step(project, slots[j]) == Some(step) <==> needs_step(
            project,
            slots[j],
            step,
        ));
    }
}

/// The end of an action that names nothing there is, or of none, changes no slot.
pub proof fn stray_ends_change_no_slot(
    now: Timestamp,
    config: Config,
    state: StateView,
    success: bool,
    message: Seq<char>,
)
    ensures
        ({
            let (after, error) = completed(now, config, state, success, message);
            &&& error is Some ==> after.projects == state.projects
            &&& state.pending_action is None ==> error is Some
            &&& (state.pending_action matches Some(action) && action.spec_project().0
                >= config.projects@.len()) ==> error is Some
            &&& after.pending_action is None
            &&& after.last_updated == state.last_updated
        }),
{
}

/// An end that cannot be applied says what is missing: the action, the project in the
/// configuration, its pool, or the slot in it.
pub proof fn stray_ends_say_what_is_missing(
    now: Timestamp,
    config: Config,
    state: StateView,
    success: bool,
    message: Seq<char>,
)
    ensures
        ({
            let error = completed(now, config, state, success, message).1;
            match state.pending_action {
                None => error == Some(
                    ErrorView::Pool("child exited but no pending action was recorded"@),
                ),
                Some(action) => {
                    let p = action.spec_project().0;
                    let number = action.spec_slot().0;
                    let name = config.projects@[p as int].name@;
                    let slots = slots_of(state.projects, name);
                    let pool = exists|k: int|
                        0 <= k < state.projects.len() && (#[trigger] state.projects[k]).0 == name;
                    &&& p >= config.projects@.len() ==> error == Some(
                        ErrorView::Pool("no project at index "@ + decimal(p as nat)),
                    )
                    &&& p < config.projects@.len() && !pool ==> error == Some(
                        ErrorView::Pool("no state for project '"@ + name + "'"@),
                    )
                    &&& p < config.projects@.len() && pool && slots.len() <= number && (forall|
                        j: int,
                    |
                        0 <= j < slots.len() ==> (#[trigger] slots[j]).id.0 != number) ==> error
                        == Some(
                        ErrorView::Pool(
                            "no slot "@ + decimal(number as nat) + " in project '"@ + name + "'"@,
                        ),
                    )
                },
            }
        }),
{
    if let Some(action) = state.pending_action {
        let name = config.projects@[action.spec_project().0 as int].name@;
        let slots = slots_of(state.projects, name);
        let number = action.spec_slot().0;
        lemma_first_where(state.projects, named(name));
        lemma_first_where(slots, has_number(number));
        if let Some(k) = project_index(state.projects, name) {
            assert(state.projects[k].0 == name);
        } else {
            assert forall|k: int| 0 <= k < state.projects.len() implies (
            #[trigger] state.projects[k]).0 != name by {
                assert(!named(name)(state.projects[k]));
            }
        }
        if let Some(j) = first_where(slots, has_number(number)) {
            assert(slots[j].id.0 == number);
        }
    }
}

/// Every action runs in the directory of its slot, or makes it: what is cloned goes
/// there, from the repository and the branch of the project, and everything else
/// runs there. A build runs the words of the very step that the action names.
pub proof fn actions_run_in_the_directory_of_their_slot(
    config: Config,
    repos_dir: Seq<char>,
    action: PendingAction,
)
    requires
        action.spec_project().0 < config.projects@.len(),
    ensures
        ({
            let project = config.projects@[action.spec_project().0 as int];
            let dir = clone_path(repos_dir, project.name@, action.spec_slot());
            let command = command_for(config, repos_dir, action);
            match action {
                PendingAction::Clone(_, _) => command matches Ok(c) && {
                    &&& c.program == "git"@
                    &&& c.current_dir is None
                    &&& c.args.len() == 5
                    &&& c.args[0] == "clone"@
                    &&& c.args[1] == "--branch"@
                    &&& c.args[2] == project.spec_effective_branch()
                    &&& c.args[3] == project.repo_url@
                    &&& c.args[4] == dir
                },
                PendingAction::CloneSubmodules(_, _) => command == Ok::<CommandView, ErrorView>(
                    CommandView {
                        program: "git"@,
                        args: seq!["submodule"@, "update"@, "--init"@, "--recursive"@],
                        current_dir: Some(dir),
                    },
                ),
                PendingAction::Update(_, _) => command == Ok::<CommandView, ErrorView>(
                    CommandView {
                        program: "git"@,
                        args: seq!["pull"@, "--ff-only"@],
                        current_dir: Some(dir),
                    },
                ),
                PendingAction::UpdateSubmodules(_, _) => command == Ok::<CommandView, ErrorView>(
                    CommandView {
                        program: "git"@,
                        args: seq!["submodule"@, "update"@, "--recursive"@],
                        current_dir: Some(dir),
                    },
                ),
                PendingAction::Build(_, _, k) => {
                    let step = words(project.spec_build_steps()[k.0 as int]);
                    &&& command is Err <==> step.len() == 0
                    &&& command matches Ok(c) ==> c.current_dir == Some(dir) && seq![c.program]
                        + c.args == step
                },
            }
        }),
{
    if let PendingAction::Build(p, _, k) = action {
        let project = config.projects@[p.0 as int];
        let step = words(project.spec_build_steps()[k.0 as int]);
        if step.len() > 0 {
            assert(seq![step[0]] + step.skip(1) =~= step);
        }
    }
}

/// An idle moment runs the command of the action that is started, and of no other.
/// Where a build step names no program its slot is in error, and the next action can
/// start.
pub proof fn idle_moments_run_what_is_started(
    now: Timestamp,
    config: Config,
    repos_dir: Seq<char>,
    state: StateView,
)
    ensures
        ({
            let (mid, started) = stepped(now, config, state);
            let (after, command) = idled(now, config, repos_dir, state);
            &&& started is None ==> command is None && after == mid
            &&& started matches Some(action) ==> {
                &&& command is Some <==> command_for(config, repos_dir, action) is Ok
                &&& command matches Some(c) ==> command_for(config, repos_dir, action) == Ok::<
                    CommandView,
                    ErrorView,
                >(c) && after == mid
                &&& command is None ==> action is Build && after.pending_action is None && after
                    == completed(
                    now,
                    config,
                    mid,
                    false,
                    "build error: "@ + ("empty step in build_command for "@
                        + config.projects@[action.spec_project().0 as int].name@),
                ).0
            }
        }),
{
    let (mid, started) = stepped(now, config, state);
    if let Some(action) = started {
        if let Err(e) = command_for(config, repos_dir, action) {
            assert(idled(now, config, repos_dir, state).0 == completed(
                now,
                config,
                mid,
                false,
                e.text(),
            ).0);
        }
    }
}

/// A status in a message is shown by its name, with the step or the checkout that it
/// bears.
pub proof fn statuses_are_shown_by_name(k: StepId, name: Seq<char>)
    ensures
        StatusView::Uninitialized.text() == "Uninitialized"@,
        StatusView::Cloning.text() == "Cloning"@,
        StatusView::Cloned.text() == "Cloned"@,
        StatusView::CloningSubmodules.text() == "CloningSubmodules"@,
        StatusView::SubmodulesCloned.text() == "SubmodulesCloned"@,
        StatusView::Updating.text() == "Updating"@,
        StatusView::UpdatingSubmodules.text() == "UpdatingSubmodules"@,
        StatusView::PartiallyUpdated.text() == "PartiallyUpdated"@,
        StatusView::WaitingToBuild.text() == "WaitingToBuild"@,
        StatusView::Building.text() == "Building"@,
        StatusView::Built(k).text() == "Built(StepId("@ + decimal(k.0 as nat) + "))"@,
        StatusView::Ready.text() == "Ready"@,
        StatusView::CheckedOut(name).text() == "CheckedOut("@ + quoted(name) + ")"@,
        StatusView::Error.text() == "Error"@,
{
}

/// An action in a message is shown by its name, with its project and its slot, and a
/// build with its step.
pub proof fn actions_are_shown_by_name(p: ProjectId, s: SlotId, k: StepId)
    ensures
        ({
            let target = "(ProjectId("@ + decimal(p.0 as nat) + "), SlotId("@ + decimal(s.0 as nat)
                + ")"@;
            &&& PendingAction::Clone(p, s).text() == "Clone"@ + target + ")"@
            &&& PendingAction::CloneSubmodules(p, s).text() == "CloneSubmodules"@ + target + ")"@
            &&& PendingAction::Update(p, s).text() == "Update"@ + target + ")"@
            &&& PendingAction::UpdateSubmodules(p, s).text() == "UpdateSubmodules"@ + target + ")"@
            &&& PendingAction::Build(p, s, k).text() == "Build"@ + target + ", StepId("@ + decimal(
                k.0 as nat,
            ) + "))"@
        }),
        ({
            let action = PendingAction::Build(p, s, k);
            &&& PendingAction::Clone(p, s).spec_project() == p
            &&& PendingAction::CloneSubmodules(p, s).spec_project() == p
            &&& PendingAction::Update(p, s).spec_project() == p
            &&& PendingAction::UpdateSubmodules(p, s).spec_project() == p
            &&& action.spec_project() == p
            &&& PendingAction::Clone(p, s).spec_slot() == s
            &&& PendingAction::CloneSubmodules(p, s).spec_slot() == s
            &&& PendingAction::Update(p, s).spec_slot() == s
            &&& PendingAction::UpdateSubmodules(p, s).spec_slot() == s
            &&& action.spec_slot() == s
        }),
{
}

/// The error of a success that does not fit names the status and the action.
pub proof fn misfits_are_named(status: StatusView, action: PendingAction)
    ensures
        illegal_transition_error(status, action) == ErrorView::Pool(
            "illegal transition: state="@ + status.text() + ", action="@ + action.text(),
        ),
{
}

} // verus!
