//! How slots are built: every step, once, in order, up to the first failure.
use crate::config::{Config, ProjectConfig};
use crate::handler::{
    as_signed, awaits_build, awaits_submodule_update, due, is_cloned, next_build_step, stepped,
};
use crate::handler_laws::{choice_position, is_consistent, lemma_choice, lemma_numbered_slots_of};
use crate::progress_laws::{
    after_choice, after_round, after_rounds, has_room, is_alive, lemma_round, lemma_round_keeps_all,
    nothing_is_stuck, projects_differ, room_gives_numbers, Outcome,
};
use crate::seqs::lemma_first_where;
use crate::state::{slots_of, PendingAction, SlotView, StateView, StatusView, StepId};
use crate::time::{no_time_since_itself, Timestamp};
use vstd::prelude::*;

verus! {

/// The build steps that are started on a slot in rounds with those outcomes, in
/// order.
pub open spec fn builds_on(
    now: Timestamp,
    config: Config,
    state: StateView,
    outcomes: Seq<Outcome>,
    i: int,
    number: u32,
) -> Seq<StepId>
    decreases outcomes.len(),
{
    if outcomes.len() == 0 || stepped(now, config, state).1 is None {
        Seq::empty()
    } else {
        let rest = builds_on(
            now,
            config,
            after_round(now, config, state, outcomes[0]),
            outcomes.drop_first(),
            i,
            number,
        );
        match stepped(now, config, state).1->0 {
            PendingAction::Build(p, s, k) => if p.0 == i && s.0 == number {
                seq![k] + rest
            } else {
                rest
            },
            _ => rest,
        }
    }
}

/// How many build steps a slot has behind it.
pub open spec fn steps_done(project: ProjectConfig, slot: SlotView) -> Option<int> {
    match slot.status {
        StatusView::WaitingToBuild => Some(0),
        StatusView::Built(k) => Some(k.0 + 1),
        StatusView::Ready => Some(project.spec_build_steps().len() as int),
        _ => None,
    }
}

proof fn lemma_builds_on(
    now: Timestamp,
    config: Config,
    state: StateView,
    outcomes: Seq<Outcome>,
    i: int,
    j: int,
)
    requires
        projects_differ(config),
        as_signed(config.spec_refresh_interval()) > 0,
        is_consistent(config, state),
        nothing_is_stuck(config, state),
        has_room(config, state.projects),
        state.pending_action is None,
        forall|n: int| 0 <= n < outcomes.len() ==> (#[trigger] outcomes[n]).success,
        0 <= i < config.projects@.len(),
        0 <= j < slots_of(state.projects, config.projects[i].name@).len(),
        ({
            let project = config.projects[i];
            let slot = slots_of(state.projects, project.name@)[j];
            &&& steps_done(project, slot) is Some
            &&& steps_done(project, slot)->0 <= project.spec_build_steps().len()
            &&& slot.status is Ready ==> slot.last_refreshed == Some(now)
            &&& !(slot.status is Ready) ==> steps_done(project, slot)->0
                < project.spec_build_steps().len()
        }),
    ensures
        ({
            let project = config.projects[i];
            let slot = slots_of(state.projects, project.name@)[j];
            let end = slots_of(
                after_rounds(now, config, state, outcomes).projects,
                project.name@,
            );
            let built = builds_on(now, config, state, outcomes, i, slot.id.0);
            let d = steps_done(project, slot)->0;
            &&& j < end.len()
            &&& end[j].id == slot.id
            &&& steps_done(project, end[j]) == Some(d + built.len())
            &&& forall|m: int| 0 <= m < built.len() ==> (#[trigger] built[m]).0 == d + m
        }),
    decreases outcomes.len(),
{
    let project = config.projects[i];
    let slots = slots_of(state.projects, project.name@);
    let slot = slots[j];
    let d = steps_done(project, slot)->0;
    if outcomes.len() > 0 && stepped(now, config, state).1 is Some {
        let outcome = outcomes[0];
        let rest = outcomes.drop_first();
        assert forall|n: int| 0 <= n < rest.len() implies (#[trigger] rest[n]).success by {
            assert(rest[n] == outcomes[n + 1]);
        }
        room_gives_numbers(config, state.projects);
        let (p, choice) = lemma_round(now, config, state, outcome);
        lemma_round_keeps_all(now, config, state, outcome);
        lemma_choice(now, config, state.projects, p, choice);
        lemma_numbered_slots_of(state.projects, project.name@);
        no_time_since_itself(now);
        let next = after_round(now, config, state, outcome);
        let after = slots_of(next.projects, project.name@);
        let action = choice.action;
        assert(stepped(now, config, state).1 == Some(action));
        assert(after == (if project.name@ == config.projects[p].name@ {
            after_choice(now, config.projects[p], choice, outcome)
        } else {
            slots
        }));
        if p != i {
            assert(config.projects@[p].name@ != config.projects@[i].name@);
        } else {
            lemma_first_where(slots, is_cloned());
            lemma_first_where(slots, due(now, config, project));
            lemma_first_where(slots, awaits_submodule_update());
            lemma_first_where(slots, awaits_build(project));
            let c = choice_position(choice);
            if c == j {
                assert(action is Build);
                assert(next_build_step(project, slot) is Some);
                if let Some(steps) = project.build_command {
                    assert(steps.0.len() == steps.0@.len());
                }
            } else if c < slots.len() {
                assert(slots[c].id != slots[j].id);
            } else {
                assert(action is Clone);
            }
        }
        lemma_builds_on(now, config, next, rest, i, j);
        let built = builds_on(now, config, state, outcomes, i, slot.id.0);
        let later = builds_on(now, config, next, rest, i, slot.id.0);
        if p == i && choice_position(choice) == j {
            assert(built == seq![StepId(d as usize)] + later);
            assert forall|m: int| 0 <= m < built.len() implies (#[trigger] built[m]).0 == d + m by {
                if m > 0 {
                    assert(built[m] == later[m - 1]);
                }
            }
        } else {
            assert(built == later);
        }
    }
}

/// A slot that waits to be built and is ready in the end, where every command
/// succeeds, had every build step of its project run on it, each once, in the order
/// of the configuration: the first, the second, and so on up to the last.
pub proof fn builds_run_every_step_in_order(
    now: Timestamp,
    config: Config,
    state: StateView,
    outcomes: Seq<Outcome>,
    i: int,
    j: int,
)
    requires
        projects_differ(config),
        as_signed(config.spec_refresh_interval()) > 0,
        is_consistent(config, state),
        nothing_is_stuck(config, state),
        has_room(config, state.projects),
        state.pending_action is None,
        forall|n: int| 0 <= n < outcomes.len() ==> (#[trigger] outcomes[n]).success,
        0 <= i < config.projects@.len(),
        0 <= j < slots_of(state.projects, config.projects[i].name@).len(),
        slots_of(state.projects, config.projects[i].name@)[j].status is WaitingToBuild,
        ({
            let end = after_rounds(now, config, state, outcomes).projects;
            slots_of(end, config.projects[i].name@)[j].status is Ready
        }),
    ensures
        ({
            let project = config.projects[i];
            let slot = slots_of(state.projects, project.name@)[j];
            let built = builds_on(now, config, state, outcomes, i, slot.id.0);
            &&& built.len() == project.spec_build_steps().len()
            &&& forall|m: int| 0 <= m < built.len() ==> (#[trigger] built[m]).0 == m
        }),
{
    let project = config.projects[i];
    let slots = slots_of(state.projects, project.name@);
    let n = project.spec_build_steps().len();
    if n > 0 {
        lemma_builds_on(now, config, state, outcomes, i, j);
    } else {
        assert(is_alive(config, state, i, j));
    }
}

} // verus!
