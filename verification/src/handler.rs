//! What the server does next: which action to start, and what its outcome means.
use crate::api::{RequestEnvelope, ResponseEnvelope, PROTOCOL_VERSION};
use crate::command::{opt_command_view, owned, CommandSpec, CommandView};
use crate::config::{reports, Config, ProjectConfig};
use crate::error::{ErrorView, Result, ServerError};
use crate::path::{join, joined};
use crate::poll_loop::ChildExit;
use crate::requests::{
    answer_envelope, deciding_tree, envelope_answered, tree_to_inspect, TreeCheck,
};
use crate::seqs::{
    first_where, lemma_first_where, lemma_first_where_is, lemma_first_where_none,
};
use crate::state::{
    available, named, next_free, project_index, slot_position, slots_of, with_project,
    with_project_adds_only_that_project, with_slots, Paths, PendingAction, ProjectId, ProjectState,
    ProjectsView, ServerState, Slot, SlotId, SlotStatus, SlotView, StateView, StatusView, StepId,
};
use crate::text::{
    decimal, from_utf8_lossy, lossy_text, opt_view, split_words, to_decimal, views, words,
};
use crate::time::Timestamp;
use vstd::prelude::*;
use vstd::string::*;

verus! {

/// What the scheduler picks for one project: the action, and the slots of the
/// project from then on.
pub struct Choice {
    pub action: PendingAction,
    pub slots: Seq<SlotView>,
}

pub open spec fn picked() -> spec_fn(Option<Choice>) -> bool {
    |c: Option<Choice>| c is Some
}

/// Whether the pool of project `i` is smaller than configured.
pub open spec fn is_short(config: Config, projects: ProjectsView, i: int) -> bool {
    slots_of(projects, config.projects[i].name@).filter(available()).len() < config.spec_nslots(
        config.projects[i],
    )
}

/// Where project `i` is short of a slot, there is a number left for it.
pub open spec fn has_number_left(config: Config, projects: ProjectsView, i: int) -> bool {
    is_short(config, projects, i) ==> next_free(slots_of(projects, config.projects[i].name@))
        <= u32::MAX
}

/// Where the next action is to clone a new slot, there is a number left for it.
pub open spec fn slot_numbers_left(config: Config, projects: ProjectsView) -> bool {
    first_where(provisionings(config, projects), picked()) matches Some(i) ==> has_number_left(
        config,
        projects,
        i,
    )
}

/// A slot as it enters the pool.
pub open spec fn new_slot(id: SlotId) -> SlotView {
    SlotView { id, status: StatusView::Cloning, last_refreshed: None, error_message: None }
}

pub open spec fn is_cloned() -> spec_fn(SlotView) -> bool {
    |s: SlotView| s.status is Cloned
}

pub open spec fn awaits_submodule_update() -> spec_fn(SlotView) -> bool {
    |s: SlotView| s.status is UpdatingSubmodules
}

/// An unsigned number read as a signed one of the same width.
pub open spec fn as_signed(n: u64) -> int {
    if n <= i64::MAX {
        n as int
    } else {
        n - 0x1_0000_0000_0000_0000
    }
}

/// Whether the last refresh of a slot lies too far back, or never was.
pub open spec fn is_stale(now: Timestamp, config: Config, slot: SlotView) -> bool {
    match slot.last_refreshed {
        None => true,
        Some(t) => now.spec_seconds_since(t) >= as_signed(config.spec_refresh_interval()),
    }
}

/// Whether an update may run on a slot: its checkout is complete and nobody uses it.
pub open spec fn is_updatable(project: ProjectConfig, slot: SlotView) -> bool {
    slot.status is Ready || if project.has_submodules {
        slot.status is SubmodulesCloned
    } else {
        slot.status is Cloned
    }
}

/// The predicate of the slots to update.
pub open spec fn due(now: Timestamp, config: Config, project: ProjectConfig) -> spec_fn(
    SlotView,
) -> bool {
    |s: SlotView| is_updatable(project, s) && is_stale(now, config, s)
}

/// The build step that a slot waits for.
pub open spec fn next_build_step(project: ProjectConfig, slot: SlotView) -> Option<StepId> {
    let n = project.spec_build_steps().len();
    match slot.status {
        StatusView::WaitingToBuild => if 0 < n {
            Some(StepId(0))
        } else {
            None
        },
        StatusView::Built(k) => if k.0 + 1 < n {
            Some(StepId((k.0 + 1) as usize))
        } else {
            None
        },
        _ => None,
    }
}

/// The predicate of the slots to build.
pub open spec fn awaits_build(project: ProjectConfig) -> spec_fn(SlotView) -> bool {
    |s: SlotView| next_build_step(project, s) is Some
}

/// What project `i` needs so that its pool is complete and fully cloned: a new
/// slot where it is short of one, else the submodules of its first slot that
/// lacks them.
pub open spec fn provisioning(config: Config, projects: ProjectsView, i: int) -> Option<Choice> {
    let project = config.projects[i];
    let slots = slots_of(projects, project.name@);
    let id = ProjectId(i as usize);
    if is_short(config, projects, i) {
        let slot = SlotId(next_free(slots) as u32);
        Some(Choice { action: PendingAction::Clone(id, slot), slots: slots.push(new_slot(slot)) })
    } else if project.has_submodules {
        match first_where(slots, is_cloned()) {
            Some(j) => Some(
                Choice {
                    action: PendingAction::CloneSubmodules(id, slots[j].id),
                    slots: slots.update(
                        j,
                        SlotView { status: StatusView::CloningSubmodules, ..slots[j] },
                    ),
                },
            ),
            None => None,
        }
    } else {
        None
    }
}

/// What project `i` needs so that its slots are up to date and built: the first
/// slot that is due is updated, else the first updated one gets its submodules
/// updated, else the first one that waits for a build step gets it.
pub open spec fn upkeep(
    now: Timestamp,
    config: Config,
    projects: ProjectsView,
    i: int,
) -> Option<Choice> {
    let project = config.projects[i];
    let slots = slots_of(projects, project.name@);
    let id = ProjectId(i as usize);
    match first_where(slots, due(now, config, project)) {
        Some(j) => Some(
            Choice {
                action: PendingAction::Update(id, slots[j].id),
                slots: slots.update(j, SlotView { status: StatusView::Updating, ..slots[j] }),
            },
        ),
        None => match first_where(slots, awaits_submodule_update()) {
            Some(j) => Some(
                Choice { action: PendingAction::UpdateSubmodules(id, slots[j].id), slots },
            ),
            None => match first_where(slots, awaits_build(project)) {
                Some(j) => Some(
                    Choice {
                        action: PendingAction::Build(
                            id,
                            slots[j].id,
                            next_build_step(project, slots[j])->0,
                        ),
                        slots,
                    },
                ),
                None => None,
            },
        },
    }
}

/// What each project needs to be complete.
pub open spec fn provisionings(config: Config, projects: ProjectsView) -> Seq<Option<Choice>> {
    Seq::new(config.projects@.len(), |i: int| provisioning(config, projects, i))
}

/// What each project needs to be up to date.
pub open spec fn upkeeps(now: Timestamp, config: Config, projects: ProjectsView) -> Seq<
    Option<Choice>,
> {
    Seq::new(config.projects@.len(), |i: int| upkeep(now, config, projects, i))
}

/// `projects`, with a pool for each of the first `n` configured projects.
pub open spec fn with_names(projects: ProjectsView, config: Config, n: int) -> ProjectsView
    decreases n,
{
    if n <= 0 {
        projects
    } else {
        with_project(with_names(projects, config, n - 1), config.projects[n - 1].name@)
    }
}

/// `projects` after project `i` was given what was picked for it.
pub open spec fn with_choice(
    projects: ProjectsView,
    config: Config,
    visited: int,
    i: int,
    choice: Choice,
) -> ProjectsView {
    with_slots(with_names(projects, config, visited), config.projects[i].name@, choice.slots)
}

/// The next action and the state that records it. While an action is under way
/// there is none. Else the first project that is not complete gets what it
/// needs for that; where all are, the first project that is not up to date gets
/// what it needs for that; where all are, there is none. The projects that were
/// looked at for completeness have a pool from then on.
pub open spec fn stepped(now: Timestamp, config: Config, state: StateView) -> (
    StateView,
    Option<PendingAction>,
) {
    let n = config.projects@.len() as int;
    if state.pending_action is Some {
        (state, None)
    } else {
        match first_where(provisionings(config, state.projects), picked()) {
            Some(i) => {
                let choice = provisioning(config, state.projects, i)->0;
                (
                    StateView {
                        projects: with_choice(state.projects, config, i + 1, i, choice),
                        pending_action: Some(choice.action),
                        ..state
                    },
                    Some(choice.action),
                )
            },
            None => match first_where(upkeeps(now, config, state.projects), picked()) {
                Some(i) => {
                    let choice = upkeep(now, config, state.projects, i)->0;
                    (
                        StateView {
                            projects: with_choice(state.projects, config, n, i, choice),
                            pending_action: Some(choice.action),
                            ..state
                        },
                        Some(choice.action),
                    )
                },
                None => (
                    StateView { projects: with_names(state.projects, config, n), ..state },
                    None,
                ),
            },
        }
    }
}

/// Giving projects a pool changes the slots of none.
pub proof fn with_names_keeps_slots(
    projects: ProjectsView,
    config: Config,
    n: int,
    name: Seq<char>,
)
    requires
        n <= config.projects@.len(),
    ensures
        slots_of(with_names(projects, config, n), name) == slots_of(projects, name),
        project_index(projects, name) is Some ==> project_index(
            with_names(projects, config, n),
            name,
        ) == project_index(projects, name),
    decreases n,
{
    if n > 0 {
        with_names_keeps_slots(projects, config, n - 1, name);
        with_project_adds_only_that_project(
            with_names(projects, config, n - 1),
            config.projects[n - 1].name@,
            name,
        );
    }
}

/// Every project that was visited has a pool.
pub proof fn with_names_has_names(projects: ProjectsView, config: Config, n: int, i: int)
    requires
        0 <= i < n <= config.projects@.len(),
    ensures
        project_index(with_names(projects, config, n), config.projects[i].name@) is Some,
    decreases n,
{
    let before = with_names(projects, config, n - 1);
    if i < n - 1 {
        with_names_has_names(projects, config, n - 1, i);
    }
    with_project_adds_only_that_project(
        before,
        config.projects[n - 1].name@,
        config.projects[i].name@,
    );
}

fn signed(n: u64) -> (r: i64)
    ensures
        r == as_signed(n),
{
    if n <= 0x7fff_ffff_ffff_ffff {
        n as i64
    } else {
        -((0xffff_ffff_ffff_ffff - n) as i64) - 1
    }
}

fn slot_is_due(now: &Timestamp, config: &Config, project: &ProjectConfig, slot: &Slot) -> (r: bool)
    ensures
        r == due(*now, *config, *project)(slot@),
{
    let updatable = matches!(slot.status, SlotStatus::Ready) || if project.has_submodules {
        matches!(slot.status, SlotStatus::SubmodulesCloned)
    } else {
        matches!(slot.status, SlotStatus::Cloned)
    };
    let stale = match &slot.last_refreshed {
        None => true,
        Some(t) => now.seconds_since(t) >= signed(config.effective_refresh_interval()),
    };
    updatable && stale
}

fn build_step_for(project: &ProjectConfig, slot: &Slot) -> (r: Option<StepId>)
    ensures
        r == next_build_step(*project, slot@),
{
    let n: usize = project.build_step_count();
    match &slot.status {
        SlotStatus::WaitingToBuild => if 0 < n {
            Some(StepId(0))
        } else {
            None
        },
        SlotStatus::Built(k) => if k.0 < n && k.0 + 1 < n {
            Some(StepId(k.0 + 1))
        } else {
            None
        },
        _ => None,
    }
}

fn find_cloned(pool: &ProjectState) -> (r: Option<usize>)
    ensures
        match r {
            Some(j) => first_where(pool@, is_cloned()) == Some(j as int) && j < pool.slots@.len(),
            None => first_where(pool@, is_cloned()) is None,
        },
{
    let mut j: usize = 0;
    while j < pool.slots.len()
        invariant
            j <= pool.slots.len(),
            forall|m: int| 0 <= m < j ==> !is_cloned()(#[trigger] pool@[m]),
        decreases pool.slots.len() - j,
    {
        assert(pool@[j as int] == pool.slots@[j as int]@);
        if matches!(pool.slots[j].status, SlotStatus::Cloned) {
            proof {
                lemma_first_where_is(pool@, is_cloned(), j as int);
            }
            return Some(j);
        }
        j = j + 1;
    }
    proof {
        lemma_first_where_none(pool@, is_cloned());
    }
    None
}

fn find_due(
    now: &Timestamp,
    config: &Config,
    project: &ProjectConfig,
    pool: &ProjectState,
) -> (r: Option<usize>)
    ensures
        match r {
            Some(j) => first_where(pool@, due(*now, *config, *project)) == Some(j as int) && j
                < pool.slots@.len(),
            None => first_where(pool@, due(*now, *config, *project)) is None,
        },
{
    let mut j: usize = 0;
    while j < pool.slots.len()
        invariant
            j <= pool.slots.len(),
            forall|m: int| 0 <= m < j ==> !due(*now, *config, *project)(#[trigger] pool@[m]),
        decreases pool.slots.len() - j,
    {
        assert(pool@[j as int] == pool.slots@[j as int]@);
        if slot_is_due(now, config, project, &pool.slots[j]) {
            proof {
                lemma_first_where_is(pool@, due(*now, *config, *project), j as int);
            }
            return Some(j);
        }
        j = j + 1;
    }
    proof {
        lemma_first_where_none(pool@, due(*now, *config, *project));
    }
    None
}

fn find_submodule_update(pool: &ProjectState) -> (r: Option<usize>)
    ensures
        match r {
            Some(j) => first_where(pool@, awaits_submodule_update()) == Some(j as int) && j
                < pool.slots@.len(),
            None => first_where(pool@, awaits_submodule_update()) is None,
        },
{
    let mut j: usize = 0;
    while j < pool.slots.len()
        invariant
            j <= pool.slots.len(),
            forall|m: int| 0 <= m < j ==> !awaits_submodule_update()(#[trigger] pool@[m]),
        decreases pool.slots.len() - j,
    {
        assert(pool@[j as int] == pool.slots@[j as int]@);
        if matches!(pool.slots[j].status, SlotStatus::UpdatingSubmodules) {
            proof {
                lemma_first_where_is(pool@, awaits_submodule_update(), j as int);
            }
            return Some(j);
        }
        j = j + 1;
    }
    proof {
        lemma_first_where_none(pool@, awaits_submodule_update());
    }
    None
}

fn find_build(project: &ProjectConfig, pool: &ProjectState) -> (r: Option<(usize, StepId)>)
    ensures
        match r {
            Some((j, k)) => first_where(pool@, awaits_build(*project)) == Some(j as int) && j
                < pool.slots@.len() && next_build_step(*project, pool@[j as int]) == Some(k),
            None => first_where(pool@, awaits_build(*project)) is None,
        },
{
    let mut j: usize = 0;
    while j < pool.slots.len()
        invariant
            j <= pool.slots.len(),
            forall|m: int| 0 <= m < j ==> !awaits_build(*project)(#[trigger] pool@[m]),
        decreases pool.slots.len() - j,
    {
        assert(pool@[j as int] == pool.slots@[j as int]@);
        if let Some(k) = build_step_for(project, &pool.slots[j]) {
            proof {
                lemma_first_where_is(pool@, awaits_build(*project), j as int);
            }
            return Some((j, k));
        }
        j = j + 1;
    }
    proof {
        lemma_first_where_none(pool@, awaits_build(*project));
    }
    None
}

/// Looks at one project for what it needs to be complete, and records it.
fn provision_project(state: &mut ServerState, config: &Config, i: usize) -> (r: Option<
    PendingAction,
>)
    requires
        i < config.projects@.len(),
        has_number_left(*config, old(state)@.projects, i as int),
    ensures
        ({
            let name = config.projects[i as int].name@;
            let added = with_project(old(state)@.projects, name);
            match provisioning(*config, old(state)@.projects, i as int) {
                Some(choice) => r == Some(choice.action) && final(state)@ == (StateView {
                    projects: with_slots(added, name, choice.slots),
                    pending_action: Some(choice.action),
                    ..old(state)@
                }),
                None => r is None && final(state)@ == (StateView { projects: added, ..old(state)@ }),
            }
        }),
{
    let project = &config.projects[i];
    let nslots: usize = config.nslots(project) as usize;
    let k: usize = state.project_entry(&project.name);
    let ghost added = state@.projects;
    let ghost slots = slots_of(old(state)@.projects, project.name@);
    assert(added[k as int] == (project.name@, slots));
    let pool_count: usize = state.projects[k].1.available_slots().len();
    if pool_count < nslots {
        let id = SlotId(state.projects[k].1.next_free_slot_number());
        state.push_slot(
            k,
            Slot { id, status: SlotStatus::Cloning, last_refreshed: None, error_message: None },
        );
        let action = PendingAction::Clone(ProjectId(i), id);
        state.pending_action = Some(action);
        return Some(action);
    }
    if project.has_submodules {
        if let Some(j) = find_cloned(&state.projects[k].1) {
            let id = state.projects[k].1.slots[j].id;
            assert(slots[j as int] == state.projects@[k as int].1.slots@[j as int]@);
            state.set_status(k, j, SlotStatus::CloningSubmodules);
            let action = PendingAction::CloneSubmodules(ProjectId(i), id);
            state.pending_action = Some(action);
            return Some(action);
        }
    }
    None
}

/// Looks at one project for what it needs to be up to date, and records it.
fn maintain_project(
    now: &Timestamp,
    state: &mut ServerState,
    config: &Config,
    i: usize,
) -> (r: Option<PendingAction>)
    requires
        i < config.projects@.len(),
        project_index(old(state)@.projects, config.projects[i as int].name@) is Some,
    ensures
        match upkeep(*now, *config, old(state)@.projects, i as int) {
            Some(choice) => r == Some(choice.action) && final(state)@ == (StateView {
                projects: with_slots(
                    old(state)@.projects,
                    config.projects[i as int].name@,
                    choice.slots,
                ),
                pending_action: Some(choice.action),
                ..old(state)@
            }),
            None => r is None && final(state)@ == old(state)@,
        },
{
    let project = &config.projects[i];
    let k: usize = state.project_entry(&project.name);
    let ghost slots = slots_of(old(state)@.projects, project.name@);
    let ghost before = state@.projects;
    proof {
        lemma_first_where(before, named(project.name@));
        assert(before[k as int] == (project.name@, slots));
        assert(before =~= with_slots(before, project.name@, slots));
    }
    if let Some(j) = find_due(now, config, project, &state.projects[k].1) {
        let id = state.projects[k].1.slots[j].id;
        assert(slots[j as int] == state.projects@[k as int].1.slots@[j as int]@);
        state.set_status(k, j, SlotStatus::Updating);
        let action = PendingAction::Update(ProjectId(i), id);
        state.pending_action = Some(action);
        return Some(action);
    }
    if let Some(j) = find_submodule_update(&state.projects[k].1) {
        let id = state.projects[k].1.slots[j].id;
        assert(slots[j as int] == state.projects@[k as int].1.slots@[j as int]@);
        let action = PendingAction::UpdateSubmodules(ProjectId(i), id);
        state.pending_action = Some(action);
        return Some(action);
    }
    if let Some((j, step)) = find_build(project, &state.projects[k].1) {
        let id = state.projects[k].1.slots[j].id;
        assert(slots[j as int] == state.projects@[k as int].1.slots@[j as int]@);
        let action = PendingAction::Build(ProjectId(i), id, step);
        state.pending_action = Some(action);
        return Some(action);
    }
    None
}

/// Inspect state and config and return the single most important action to take next.
pub fn step(now: Timestamp, state: &mut ServerState, config: &Config) -> (r: Option<PendingAction>)
    requires
        old(state)@.pending_action is None ==> slot_numbers_left(*config, old(state)@.projects),
    ensures
        (final(state)@, r) == stepped(now, *config, old(state)@),
{
    // Don't start a new action while one is already running.
    if state.pending_action.is_some() {
        return None;
    }
    let ghost projects = state@.projects;
    let ghost start = state@;
    let n: usize = config.projects.len();
    let mut i: usize = 0;
    while i < n
        invariant
            i <= n,
            n == config.projects@.len(),
            start == old(state)@,
            projects == start.projects,
            start.pending_action is None,
            slot_numbers_left(*config, projects),
            state@ == (StateView { projects: with_names(projects, *config, i as int), ..start }),
            forall|j: int|
                0 <= j < i ==> !picked()(#[trigger] provisionings(*config, projects)[j]),
        decreases n - i,
    {
        proof {
            with_names_keeps_slots(
                projects,
                *config,
                i as int,
                config.projects[i as int].name@,
            );
            assert(is_short(*config, projects, i as int) == is_short(
                *config,
                state@.projects,
                i as int,
            ));
            assert(provisionings(*config, projects)[i as int] == provisioning(
                *config,
                projects,
                i as int,
            ));
            assert(provisioning(*config, projects, i as int) == provisioning(
                *config,
                state@.projects,
                i as int,
            ));
            if is_short(*config, projects, i as int) {
                lemma_first_where_is(provisionings(*config, projects), picked(), i as int);
            }
        }
        if let Some(action) = provision_project(state, config, i) {
            proof {
                lemma_first_where_is(provisionings(*config, projects), picked(), i as int);
            }
            return Some(action);
        }
        i = i + 1;
    }
    proof {
        lemma_first_where_none(provisionings(*config, projects), picked());
    }
    // Update loop — only reached when all slots across all projects are fully cloned.
    let ghost visited = state@.projects;
    i = 0;
    while i < n
        invariant
            i <= n,
            n == config.projects@.len(),
            start == old(state)@,
            projects == start.projects,
            start.pending_action is None,
            first_where(provisionings(*config, projects), picked()) is None,
            visited == with_names(projects, *config, n as int),
            state@ == (StateView { projects: visited, ..start }),
            forall|j: int|
                0 <= j < i ==> !picked()(#[trigger] upkeeps(now, *config, projects)[j]),
        decreases n - i,
    {
        proof {
            with_names_keeps_slots(
                projects,
                *config,
                n as int,
                config.projects[i as int].name@,
            );
            with_names_has_names(projects, *config, n as int, i as int);
            assert(upkeeps(now, *config, projects)[i as int] == upkeep(
                now,
                *config,
                projects,
                i as int,
            ));
            assert(upkeep(now, *config, projects, i as int) == upkeep(
                now,
                *config,
                visited,
                i as int,
            ));
        }
        if let Some(action) = maintain_project(&now, state, config, i) {
            proof {
                lemma_first_where_is(upkeeps(now, *config, projects), picked(), i as int);
            }
            return Some(action);
        }
        i = i + 1;
    }
    proof {
        lemma_first_where_none(upkeeps(now, *config, projects), picked());
    }
    None
}

/// The error for a slot whose status does not fit the action that ended.
pub open spec fn illegal_transition_error(status: StatusView, action: PendingAction) -> ErrorView {
    ErrorView::Pool(
        "illegal transition: state="@ + status.text() + ", action="@ + action.text(),
    )
}

fn illegal_transition(status: &SlotStatus, action: &PendingAction) -> (r: ServerError)
    ensures
        r@ == illegal_transition_error(status@, *action),
{
    let mut m = "illegal transition: state=".to_owned();
    m.append(status.describe().as_str());
    m.append(", action=");
    m.append(action.describe().as_str());
    ServerError::Pool(m)
}

/// A slot whose files are up to date: it waits for its build where the project
/// has one, and is ready else.
pub open spec fn updated_slot(now: Timestamp, project: ProjectConfig, slot: SlotView) -> SlotView {
    if project.spec_build_steps().len() > 0 {
        SlotView { status: StatusView::WaitingToBuild, ..slot }
    } else {
        SlotView { status: StatusView::Ready, last_refreshed: Some(now), ..slot }
    }
}

/// A slot after the success of an action; none where its status does not fit.
pub open spec fn succeeded_slot(
    now: Timestamp,
    project: ProjectConfig,
    slot: SlotView,
    action: PendingAction,
) -> Option<SlotView> {
    match action {
        PendingAction::Clone(_, _) => if slot.status is Cloning {
            Some(SlotView { status: StatusView::Cloned, ..slot })
        } else {
            None
        },
        PendingAction::CloneSubmodules(_, _) => if slot.status is CloningSubmodules {
            Some(SlotView { status: StatusView::SubmodulesCloned, ..slot })
        } else {
            None
        },
        PendingAction::Update(_, _) => if slot.status is Updating {
            if project.has_submodules {
                Some(SlotView { status: StatusView::UpdatingSubmodules, ..slot })
            } else {
                Some(updated_slot(now, project, slot))
            }
        } else {
            None
        },
        PendingAction::UpdateSubmodules(_, _) => if slot.status is UpdatingSubmodules {
            Some(updated_slot(now, project, slot))
        } else {
            None
        },
        PendingAction::Build(_, _, k) => if next_build_step(project, slot) == Some(k) {
            if k.0 + 1 < project.spec_build_steps().len() {
                Some(SlotView { status: StatusView::Built(k), ..slot })
            } else {
                Some(SlotView { status: StatusView::Ready, last_refreshed: Some(now), ..slot })
            }
        } else {
            None
        },
    }
}

/// A slot after the failure of an action.
pub open spec fn failed_slot(slot: SlotView, message: Seq<char>) -> SlotView {
    SlotView { status: StatusView::Error, error_message: Some(message), ..slot }
}

/// What the end of a child process makes of the state, and the error where the
/// state does not fit. A failure comes with the message of the child.
pub open spec fn completed(
    now: Timestamp,
    config: Config,
    state: StateView,
    success: bool,
    message: Seq<char>,
) -> (StateView, Option<ErrorView>) {
    match state.pending_action {
        None => (
            state,
            Some(ErrorView::Pool("child exited but no pending action was recorded"@)),
        ),
        Some(action) => {
            let idle = StateView { pending_action: None, ..state };
            let p = action.spec_project().0 as int;
            let number = action.spec_slot().0 as nat;
            if p >= config.projects@.len() {
                (idle, Some(ErrorView::Pool("no project at index "@ + decimal(p as nat))))
            } else {
                let project = config.projects[p];
                match project_index(state.projects, project.name@) {
                    None => (
                        idle,
                        Some(
                            ErrorView::Pool("no state for project '"@ + project.name@ + "'"@),
                        ),
                    ),
                    Some(k) => {
                        let slots = state.projects[k].1;
                        match slot_position(slots, action.spec_slot()) {
                            None => (
                                idle,
                                Some(
                                    ErrorView::Pool(
                                        "no slot "@ + decimal(number) + " in project '"@
                                            + project.name@ + "'"@,
                                    ),
                                ),
                            ),
                            Some(j) => {
                                let after = if success {
                                    succeeded_slot(now, project, slots[j], action)
                                } else {
                                    Some(failed_slot(slots[j], message))
                                };
                                match after {
                                    None => (
                                        idle,
                                        Some(illegal_transition_error(slots[j].status, action)),
                                    ),
                                    Some(slot) => (
                                        StateView {
                                            projects: with_slots(
                                                state.projects,
                                                project.name@,
                                                slots.update(j, slot),
                                            ),
                                            ..idle
                                        },
                                        None,
                                    ),
                                }
                            },
                        }
                    },
                }
            }
        },
    }
}

/// The status and the time of refresh that a slot has after the success of an
/// action; none where its status does not fit.
fn after_success(now: Timestamp, project: &ProjectConfig, slot: &Slot, action: &PendingAction) -> (r:
    Option<(SlotStatus, Option<Timestamp>)>)
    ensures
        match r {
            Some((status, refreshed)) => succeeded_slot(now, *project, slot@, *action) == Some(
                SlotView { status: status@, last_refreshed: refreshed, ..slot@ },
            ),
            None => succeeded_slot(now, *project, slot@, *action) is None,
        },
{
    let builds = project.build_step_count() > 0;
    match (&slot.status, action) {
        (SlotStatus::Cloning, PendingAction::Clone(_, _)) => {
            Some((SlotStatus::Cloned, slot.last_refreshed))
        },
        (SlotStatus::CloningSubmodules, PendingAction::CloneSubmodules(_, _)) => {
            Some((SlotStatus::SubmodulesCloned, slot.last_refreshed))
        },
        (SlotStatus::Updating, PendingAction::Update(_, _)) => {
            if project.has_submodules {
                Some((SlotStatus::UpdatingSubmodules, slot.last_refreshed))
            } else if builds {
                Some((SlotStatus::WaitingToBuild, slot.last_refreshed))
            } else {
                Some((SlotStatus::Ready, Some(now)))
            }
        },
        (SlotStatus::UpdatingSubmodules, PendingAction::UpdateSubmodules(_, _)) => {
            if builds {
                Some((SlotStatus::WaitingToBuild, slot.last_refreshed))
            } else {
                Some((SlotStatus::Ready, Some(now)))
            }
        },
        (_, PendingAction::Build(_, _, k)) => {
            let n: usize = project.build_step_count();
            match build_step_for(project, slot) {
                Some(expected) => if expected.0 == k.0 {
                    if k.0 + 1 < n {
                        Some((SlotStatus::Built(*k), slot.last_refreshed))
                    } else {
                        Some((SlotStatus::Ready, Some(now)))
                    }
                } else {
                    None
                },
                None => None,
            }
        },
        _ => None,
    }
}

/// Applies the end of the pending action, with the message of a failure.
pub fn finish(
    now: Timestamp,
    state: &mut ServerState,
    config: &Config,
    success: bool,
    message: &String,
) -> (r: Result<()>)
    ensures
        final(state)@ == completed(now, *config, old(state)@, success, message@).0,
        reports(r, completed(now, *config, old(state)@, success, message@).1),
{
    let action = match state.pending_action {
        Some(action) => action,
        None => {
            return Err(
                ServerError::Pool("child exited but no pending action was recorded".to_owned()),
            );
        },
    };
    state.pending_action = None;
    let p: usize = action.project().0;
    if p >= config.projects.len() {
        return Err(
            ServerError::Pool(
                "no project at index ".to_owned().concat(to_decimal(p as u64).as_str()),
            ),
        );
    }
    let project = &config.projects[p];
    let k: usize = match state.find_project(&project.name) {
        Some(k) => k,
        None => {
            return Err(
                ServerError::Pool(
                    "no state for project '".to_owned().concat(project.name.as_str()).concat("'"),
                ),
            );
        },
    };
    let ghost before = state@.projects;
    proof {
        lemma_first_where(before, named(project.name@));
        assert(before[k as int] == (project.name@, state.projects@[k as int].1@));
    }
    let j: usize = match state.projects[k].1.find_slot(action.slot()) {
        Some(j) => j,
        None => {
            let mut m = "no slot ".to_owned();
            m.append(to_decimal(action.slot().0 as u64).as_str());
            m.append(" in project '");
            m.append(project.name.as_str());
            m.append("'");
            return Err(ServerError::Pool(m));
        },
    };
    assert(before[k as int].1[j as int] == state.projects@[k as int].1.slots@[j as int]@);
    let slot = &state.projects[k].1.slots[j];
    let id = slot.id;
    if success {
        match after_success(now, project, slot, &action) {
            Some((status, last_refreshed)) => {
                let error_message = crate::text::opt_clone(&slot.error_message);
                state.put_slot(k, j, Slot { id, status, last_refreshed, error_message });
            },
            None => {
                return Err(illegal_transition(&slot.status, &action));
            },
        }
    } else {
        let last_refreshed = slot.last_refreshed;
        state.put_slot(
            k,
            j,
            Slot {
                id,
                status: SlotStatus::Error,
                last_refreshed,
                error_message: Some(message.clone()),
            },
        );
    }
    Ok(())
}

/// Apply the result of a completed child process to the state. Returns `Err` if the state is
/// internally inconsistent
pub fn complete(
    now: Timestamp,
    state: &mut ServerState,
    config: &Config,
    result: &ChildExit,
) -> (r: Result<()>)
    ensures
        final(state)@ == completed(
            now,
            *config,
            old(state)@,
            result.success,
            lossy_text(result.stderr@),
        ).0,
        reports(
            r,
            completed(now, *config, old(state)@, result.success, lossy_text(result.stderr@)).1,
        ),
{
    let message = from_utf8_lossy(result.stderr.as_slice());
    finish(now, state, config, result.success, &message)
}

/// Where a slot is cloned to.
pub open spec fn clone_path(repos_dir: Seq<char>, project_name: Seq<char>, slot: SlotId) -> Seq<
    char,
> {
    joined(joined(repos_dir, project_name), decimal(slot.0 as nat))
}

/// Build the destination path for a clone: `<repos_dir>/<project_name>/<slot_id>`.
pub fn clone_dest(repos_dir: &str, project_name: &str, slot_id: SlotId) -> (r: String)
    ensures
        r@ == clone_path(repos_dir@, project_name@, slot_id),
{
    join(join(repos_dir, project_name).as_str(), to_decimal(slot_id.0 as u64).as_str())
}

/// The error for a build step that names no program.
pub open spec fn empty_step_error(project_name: Seq<char>) -> ErrorView {
    ErrorView::Build("empty step in build_command for "@ + project_name)
}

/// The command of a build step, run in `dir`: its first word is the program, the
/// others are the arguments.
pub open spec fn build_step_command(
    project_name: Seq<char>,
    step: Seq<char>,
    dir: Seq<char>,
) -> std::result::Result<CommandView, ErrorView> {
    let w = words(step);
    if w.len() == 0 {
        Err(empty_step_error(project_name))
    } else {
        Ok(CommandView { program: w[0], args: w.skip(1), current_dir: Some(dir) })
    }
}

/// Whether a result is what a model of it says.
pub open spec fn commands(
    r: Result<CommandSpec>,
    model: std::result::Result<CommandView, ErrorView>,
) -> bool {
    match model {
        Ok(c) => r matches Ok(got) && got@ == c,
        Err(e) => r matches Err(got) && got@ == e,
    }
}

/// Splits a build step into its program and arguments.
pub fn parse_build_step(project_name: &str, step: &str, dir: &str) -> (r: Result<CommandSpec>)
    ensures
        commands(r, build_step_command(project_name@, step@, dir@)),
{
    let mut args = split_words(step);
    if args.len() == 0 {
        return Err(
            ServerError::Build(
                "empty step in build_command for ".to_owned().concat(project_name),
            ),
        );
    }
    let ghost all = args@;
    let program = args.remove(0);
    proof {
        assert(views(args@) =~= views(all).skip(1));
        assert(views(all)[0] == program@);
    }
    Ok(CommandSpec { program, args, current_dir: Some(dir.to_owned()) })
}

/// The command that achieves an action.
pub open spec fn command_for(config: Config, repos_dir: Seq<char>, action: PendingAction) -> std::result::Result<
    CommandView,
    ErrorView,
> {
    let project = config.projects[action.spec_project().0 as int];
    let dest = clone_path(repos_dir, project.name@, action.spec_slot());
    match action {
        PendingAction::Clone(_, _) => Ok(
            CommandView {
                program: "git"@,
                args: seq![
                    "clone"@,
                    "--branch"@,
                    project.spec_effective_branch(),
                    project.repo_url@,
                    dest,
                ],
                current_dir: None,
            },
        ),
        PendingAction::CloneSubmodules(_, _) => Ok(
            CommandView {
                program: "git"@,
                args: seq!["submodule"@, "update"@, "--init"@, "--recursive"@],
                current_dir: Some(dest),
            },
        ),
        PendingAction::Update(_, _) => Ok(
            CommandView {
                program: "git"@,
                args: seq!["pull"@, "--ff-only"@],
                current_dir: Some(dest),
            },
        ),
        PendingAction::UpdateSubmodules(_, _) => Ok(
            CommandView {
                program: "git"@,
                args: seq!["submodule"@, "update"@, "--recursive"@],
                current_dir: Some(dest),
            },
        ),
        PendingAction::Build(_, _, k) => build_step_command(
            project.name@,
            project.spec_build_steps()[k.0 as int],
            dest,
        ),
    }
}

/// Whether an action names a project, and a build step, of the configuration.
pub open spec fn action_is_configured(config: Config, action: PendingAction) -> bool {
    &&& action.spec_project().0 < config.projects@.len()
    &&& action matches PendingAction::Build(p, _, k) ==> k.0
        < config.projects[p.0 as int].spec_build_steps().len()
}

fn git(args: Vec<String>, dir: Option<String>) -> (r: CommandSpec)
    ensures
        r@ == (CommandView {
            program: "git"@,
            args: views(args@),
            current_dir: opt_view(dir),
        }),
{
    CommandSpec { program: "git".to_owned(), args, current_dir: dir }
}

/// Translate a `PendingAction` into the command that achieves it. A build step
/// without a program has none.
pub fn to_command(config: &Config, repos_dir: &str, action: &PendingAction) -> (r: Result<
    CommandSpec,
>)
    requires
        action_is_configured(*config, *action),
    ensures
        commands(r, command_for(*config, repos_dir@, *action)),
{
    let project = &config.projects[action.project().0];
    let dest = clone_dest(repos_dir, project.name.as_str(), action.slot());
    match action {
        PendingAction::Clone(_, _) => {
            let args = owned(
                &[
                    "clone",
                    "--branch",
                    project.effective_branch(),
                    project.repo_url.as_str(),
                    dest.as_str(),
                ],
            );
            assert(views(args@) =~= seq![
                "clone"@,
                "--branch"@,
                project.spec_effective_branch(),
                project.repo_url@,
                dest@,
            ]);
            Ok(git(args, None))
        },
        PendingAction::CloneSubmodules(_, _) => {
            let args = owned(&["submodule", "update", "--init", "--recursive"]);
            assert(views(args@) =~= seq!["submodule"@, "update"@, "--init"@, "--recursive"@]);
            Ok(git(args, Some(dest)))
        },
        PendingAction::Update(_, _) => {
            let args = owned(&["pull", "--ff-only"]);
            assert(views(args@) =~= seq!["pull"@, "--ff-only"@]);
            Ok(git(args, Some(dest)))
        },
        PendingAction::UpdateSubmodules(_, _) => {
            let args = owned(&["submodule", "update", "--recursive"]);
            assert(views(args@) =~= seq!["submodule"@, "update"@, "--recursive"@]);
            Ok(git(args, Some(dest)))
        },
        PendingAction::Build(_, _, k) => parse_build_step(
            project.name.as_str(),
            project.build_step(k.0).as_str(),
            dest.as_str(),
        ),
    }
}

/// An action that is started names a project of the configuration, and a build
/// step that the project has.
pub proof fn started_actions_are_configured(now: Timestamp, config: Config, state: StateView)
    ensures
        stepped(now, config, state).1 matches Some(action) ==> action_is_configured(config, action),
{
    let n = config.projects.len();
    assert(n == config.projects@.len());
    let complete = provisionings(config, state.projects);
    let current = upkeeps(now, config, state.projects);
    lemma_first_where(complete, picked());
    lemma_first_where(current, picked());
    if state.pending_action is None {
        match first_where(complete, picked()) {
            Some(i) => {
                assert(complete[i] == provisioning(config, state.projects, i));
            },
            None => match first_where(current, picked()) {
                Some(i) => {
                    assert(current[i] == upkeep(now, config, state.projects, i));
                    let project = config.projects[i];
                    let slots = slots_of(state.projects, project.name@);
                    lemma_first_where(slots, awaits_build(project));
                    match project.build_command {
                        Some(steps) => {
                            assert(steps.0.len() == steps.0@.len());
                        },
                        None => {},
                    }
                },
                None => {},
            },
        }
    }
}

/// Whether there is a number left for the next slot, where the next action is to
/// clone one.
pub fn has_slot_numbers_left(state: &ServerState, config: &Config) -> (r: bool)
    ensures
        r == slot_numbers_left(*config, state@.projects),
{
    let ghost needs = provisionings(*config, state@.projects);
    let mut i: usize = 0;
    while i < config.projects.len()
        invariant
            i <= config.projects.len(),
            needs == provisionings(*config, state@.projects),
            forall|m: int| 0 <= m < i ==> !picked()(#[trigger] needs[m]),
        decreases config.projects.len() - i,
    {
        let project = &config.projects[i];
        let wanted: usize = config.nslots(project) as usize;
        proof {
            assert(needs[i as int] == provisioning(*config, state@.projects, i as int));
            if needs[i as int] is Some {
                lemma_first_where_is(needs, picked(), i as int);
            }
            lemma_first_where(state@.projects, named(project.name@));
        }
        match state.find_project(&project.name) {
            Some(k) => {
                let pool = &state.projects[k].1;
                assert(pool@ == slots_of(state@.projects, project.name@));
                let available_slots = pool.available_slots();
                assert(crate::state::slot_views(available_slots@).len() == available_slots@.len());
                if available_slots.len() < wanted {
                    return pool.has_free_number();
                }
                if project.has_submodules && find_cloned(pool).is_some() {
                    return true;
                }
            },
            None => {
                if 0 < wanted {
                    return true;
                }
            },
        }
        i = i + 1;
    }
    proof {
        lemma_first_where_none(needs, picked());
    }
    true
}

/// What an idle moment makes of the state, and the command to run: that of the
/// next action. A build step without a program fails on the spot.
pub open spec fn idled(now: Timestamp, config: Config, repos_dir: Seq<char>, state: StateView) -> (
    StateView,
    Option<CommandView>,
) {
    let (after, action) = stepped(now, config, state);
    match action {
        None => (after, None),
        Some(action) => match command_for(config, repos_dir, action) {
            Ok(command) => (after, Some(command)),
            Err(e) => (completed(now, config, after, false, e.text()).0, None),
        },
    }
}

/// The state of a running server, with its configuration and its directories.
pub struct AidHandler<'a> {
    pub config: Config,
    pub state: ServerState,
    pub paths: &'a Paths,
}

impl<'a> AidHandler<'a> {
    #[must_use]
    pub fn new(config: Config, state: ServerState, paths: &'a Paths) -> (r: Self)
        ensures
            r.config == config,
            r.state == state,
            r.paths == paths,
    {
        Self { config, state, paths }
    }

    /// Whether an idle moment can be used: where the next action is to clone a new
    /// slot, there is a number left for it.
    pub fn can_idle(&self) -> (r: bool)
        ensures
            r == (self.state@.pending_action is None ==> slot_numbers_left(
                self.config,
                self.state@.projects,
            )),
    {
        self.state.pending_action.is_some() || has_slot_numbers_left(&self.state, &self.config)
    }

    /// Picks the next action, and returns the command that achieves it.
    pub fn on_idle(&mut self, now: Timestamp) -> (r: Option<CommandSpec>)
        requires
            old(self).state@.pending_action is None ==> slot_numbers_left(
                old(self).config,
                old(self).state@.projects,
            ),
        ensures
            (final(self).state@, opt_command_view(r)) == idled(
                now,
                old(self).config,
                old(self).paths.repos_dir@,
                old(self).state@,
            ),
            final(self).config == old(self).config,
            final(self).paths == old(self).paths,
    {
        proof {
            started_actions_are_configured(now, self.config, self.state@);
        }
        match step(now, &mut self.state, &self.config) {
            None => None,
            Some(action) => {
                match to_command(&self.config, self.paths.repos_dir.as_str(), &action) {
                    Ok(command) => Some(command),
                    Err(e) => {
                        let message = e.message();
                        let _ = finish(now, &mut self.state, &self.config, false, &message);
                        None
                    },
                }
            },
        }
    }

    /// Applies the end of the child process to the state. Returns `Err` if the
    /// state is internally inconsistent.
    pub fn handle_child_exit(&mut self, now: Timestamp, result: &ChildExit) -> (r: Result<()>)
        ensures
            ({
                let model = completed(
                    now,
                    old(self).config,
                    old(self).state@,
                    result.success,
                    lossy_text(result.stderr@),
                );
                final(self).state@ == model.0 && reports(r, model.1)
            }),
            final(self).config == old(self).config,
            final(self).paths == old(self).paths,
    {
        complete(now, &mut self.state, &self.config, result)
    }

    /// The directory whose working tree must be inspected before the message is
    /// answered.
    pub fn tree_to_inspect(&self, message: &RequestEnvelope) -> (r: Option<String>)
        ensures
            opt_view(r) == deciding_tree(
                self.paths.repos_dir@,
                self.state@.projects,
                message.version,
                message.content@,
            ),
    {
        tree_to_inspect(&self.state, self.paths.repos_dir.as_str(), message)
    }

    /// Answers the message of a client.
    pub fn handle_message(&mut self, message: &RequestEnvelope, tree: &TreeCheck) -> (r:
        ResponseEnvelope)
        ensures
            (final(self).state@, r.content@) == envelope_answered(
                old(self).config,
                old(self).paths.repos_dir@,
                old(self).state@,
                message.version,
                message.content@,
                tree@,
            ),
            r.version == PROTOCOL_VERSION,
            r.request_id@ == message.request_id@,
            final(self).config == old(self).config,
            final(self).paths == old(self).paths,
    {
        answer_envelope(
            &mut self.state,
            &self.config,
            self.paths.repos_dir.as_str(),
            message,
            tree,
        )
    }
}

} // verus!
