//! Filling and refreshing the pool of one project, command by command.
use crate::command::{owned, CommandSpec, CommandView};
use crate::config::{reports, ProjectConfig};
use crate::error::{ErrorView, Result, ServerError};
use crate::handler::{build_step_command, new_slot, parse_build_step};
use crate::path::{join, joined};
use crate::poll_loop::ChildExit;
use crate::seqs::{
    first_where, lemma_filter_step, lemma_filter_update, lemma_first_where, lemma_first_where_is,
};
use crate::state::{
    has_number, lemma_same_numbers, named, names_differ, next_free, next_free_is_above_all,
    project_index, slots_of, with_project, with_project_adds_only_that_project, with_slots,
    with_slots_changes_only_that_project, ProjectState, ProjectsView, ServerState, Slot, SlotId,
    SlotStatus, SlotView, StateView, StatusView,
};
use crate::text::{decimal, from_utf8_lossy, lossy_text, opt_view, padded_left, views, zero_padded};
use crate::time::Timestamp;
use vstd::prelude::*;
use vstd::string::*;

verus! {

/// The directory that holds the slots of a project.
#[must_use]
pub fn project_dir(repos_dir: &str, project_name: &str) -> (r: String)
    ensures
        r@ == joined(repos_dir@, project_name@),
{
    join(repos_dir, project_name)
}

/// The directory of a slot: its number has at least four digits.
pub open spec fn slot_path(repos_dir: Seq<char>, project_name: Seq<char>, slot: u32) -> Seq<char> {
    joined(joined(repos_dir, project_name), padded_left(decimal(slot as nat), '0', 4))
}

/// The directory of a slot.
#[must_use]
pub fn slot_dir(repos_dir: &str, project_name: &str, slot: u32) -> (r: String)
    ensures
        r@ == slot_path(repos_dir@, project_name@, slot),
{
    join(project_dir(repos_dir, project_name).as_str(), zero_padded(slot as u64, 4).as_str())
}

/// How a command went.
#[derive(Debug, Clone, PartialEq, Eq)]
pub enum CommandOutcome {
    /// It ran and ended.
    Ended(ChildExit),
    /// It could not be run, for the given reason.
    NotRun(String),
}

/// The error of a git command: what failed, and what the command wrote.
pub open spec fn git_fault(what: Seq<char>, outcome: CommandOutcome) -> Option<ErrorView> {
    match outcome {
        CommandOutcome::NotRun(m) => Some(ErrorView::Io(m@)),
        CommandOutcome::Ended(exit) => if exit.success {
            None
        } else {
            Some(ErrorView::Git(what + ": "@ + lossy_text(exit.stderr@)))
        },
    }
}

/// The error of a build step.
pub open spec fn build_fault(
    project_name: Seq<char>,
    step: Seq<char>,
    outcome: CommandOutcome,
) -> Option<ErrorView> {
    match outcome {
        CommandOutcome::NotRun(m) => Some(ErrorView::Io(m@)),
        CommandOutcome::Ended(exit) => if exit.success {
            None
        } else {
            Some(
                ErrorView::Build(
                    "build step `"@ + step + "` failed for "@ + project_name + ": "@ + lossy_text(
                        exit.stderr@,
                    ),
                ),
            )
        },
    }
}

/// Judges a git command by its outcome.
pub fn judge_git(what: &str, outcome: &CommandOutcome) -> (r: Result<()>)
    ensures
        reports(r, git_fault(what@, *outcome)),
{
    match outcome {
        CommandOutcome::NotRun(m) => Err(ServerError::Io(m.clone())),
        CommandOutcome::Ended(exit) => {
            if exit.success {
                Ok(())
            } else {
                let mut m = what.to_owned();
                m.append(": ");
                m.append(from_utf8_lossy(exit.stderr.as_slice()).as_str());
                Err(ServerError::Git(m))
            }
        },
    }
}

/// Judges a build step by its outcome.
pub fn judge_build_step(project_name: &str, step: &str, outcome: &CommandOutcome) -> (r: Result<()>)
    ensures
        reports(r, build_fault(project_name@, step@, *outcome)),
{
    match outcome {
        CommandOutcome::NotRun(m) => Err(ServerError::Io(m.clone())),
        CommandOutcome::Ended(exit) => {
            if exit.success {
                Ok(())
            } else {
                let mut m = "build step `".to_owned();
                m.append(step);
                m.append("` failed for ");
                m.append(project_name);
                m.append(": ");
                m.append(from_utf8_lossy(exit.stderr.as_slice()).as_str());
                Err(ServerError::Build(m))
            }
        },
    }
}

/// The command that clones a project.
pub open spec fn clone_command(project: ProjectConfig, dest: Seq<char>) -> CommandView {
    CommandView {
        program: "git"@,
        args: seq![
            "clone"@,
            "--branch"@,
            project.spec_effective_branch(),
            project.repo_url@,
            dest,
        ],
        current_dir: None,
    }
}

/// Builds the command that clones a project to a directory.
pub fn clone_repo_command(project: &ProjectConfig, dest: &str) -> (r: CommandSpec)
    ensures
        r@ == clone_command(*project, dest@),
{
    let args = owned(
        &["clone", "--branch", project.effective_branch(), project.repo_url.as_str(), dest],
    );
    assert(views(args@) =~= seq![
        "clone"@,
        "--branch"@,
        project.spec_effective_branch(),
        project.repo_url@,
        dest@,
    ]);
    CommandSpec { program: "git".to_owned(), args, current_dir: None }
}

/// The slots, with another status and message for the first of that number.
pub open spec fn with_status(
    slots: Seq<SlotView>,
    number: u32,
    status: StatusView,
    message: Option<Seq<char>>,
) -> Seq<SlotView> {
    match first_where(slots, has_number(number)) {
        Some(j) => slots.update(j, SlotView { status, error_message: message, ..slots[j] }),
        None => slots,
    }
}

/// The slots, with another time of refresh for the first of that number.
pub open spec fn with_refreshed(slots: Seq<SlotView>, number: u32, now: Timestamp) -> Seq<SlotView> {
    match first_where(slots, has_number(number)) {
        Some(j) => slots.update(j, SlotView { last_refreshed: Some(now), ..slots[j] }),
        None => slots,
    }
}

/// Gives the slot of that number another status and message.
pub fn update_slot_status(
    project_state: &mut ProjectState,
    slot_num: u32,
    status: SlotStatus,
    error_message: Option<String>,
)
    ensures
        final(project_state)@ == with_status(
            old(project_state)@,
            slot_num,
            status@,
            opt_view(error_message),
        ),
{
    let ghost before = project_state@;
    if let Some(j) = project_state.find_number(slot_num) {
        let ghost new_status = status@;
        project_state.slots[j].status = status;
        project_state.slots[j].error_message = error_message;
        proof {
            assert(project_state@ =~= before.update(
                j as int,
                SlotView {
                    status: new_status,
                    error_message: opt_view(error_message),
                    ..before[j as int]
                },
            ));
        }
    }
}

/// Notes that the slot of that number was refreshed.
pub fn mark_refreshed(project_state: &mut ProjectState, slot_num: u32, now: Timestamp)
    ensures
        final(project_state)@ == with_refreshed(old(project_state)@, slot_num, now),
{
    let ghost before = project_state@;
    if let Some(j) = project_state.find_number(slot_num) {
        project_state.slots[j].last_refreshed = Some(now);
        proof {
            assert(project_state@ =~= before.update(
                j as int,
                SlotView { last_refreshed: Some(now), ..before[j as int] },
            ));
        }
    }
}

/// The predicate of the slots that count towards the size of a pool. One in
/// error counts: it must not cause another to be cloned.
pub open spec fn counted() -> spec_fn(SlotView) -> bool {
    |s: SlotView|
        s.status is Ready || s.status is Cloning || s.status is Building || s.status is Error
}

/// How many slots are to be added to a pool.
pub open spec fn needed(pool_size: u32, slots: Seq<SlotView>) -> int {
    let count = slots.filter(counted()).len();
    if count < pool_size {
        pool_size - count
    } else {
        0
    }
}

fn count_slots(pool: &ProjectState) -> (r: usize)
    ensures
        r == pool@.filter(counted()).len(),
{
    let mut n: usize = 0;
    let mut i: usize = 0;
    proof {
        reveal(Seq::filter);
        assert(pool@.take(0) =~= Seq::<SlotView>::empty());
    }
    while i < pool.slots.len()
        invariant
            i <= pool.slots.len(),
            n <= i,
            n == pool@.take(i as int).filter(counted()).len(),
        decreases pool.slots.len() - i,
    {
        proof {
            lemma_filter_step(pool@, counted(), i as int);
        }
        assert(pool@[i as int] == pool.slots@[i as int]@);
        if matches!(
            pool.slots[i].status,
            SlotStatus::Ready | SlotStatus::Cloning | SlotStatus::Building | SlotStatus::Error
        ) {
            n = n + 1;
        }
        i = i + 1;
    }
    assert(pool@.take(i as int) =~= pool@);
    n
}

/// How far the slot that is being added has come.
#[derive(Debug, Clone, Copy, PartialEq, Eq, Structural)]
pub enum PoolPhase {
    /// No slot is being added.
    Idle,
    /// The slot of that number is to be cloned.
    ToClone(u32),
    /// It is being cloned.
    Cloning(u32),
    /// That build step of it is next.
    ToBuild(u32, usize),
    /// That build step of it is running.
    Building(u32, usize),
}

/// What is left to do until a pool is full.
#[derive(Debug, Clone, Copy, PartialEq, Eq, Structural)]
pub struct PoolWork {
    /// The number of the next slot to add.
    pub next: u64,
    /// The number at which to stop.
    pub end: u64,
    pub phase: PoolPhase,
}

/// What to do next for a pool.
#[derive(Debug, Clone, PartialEq, Eq)]
pub enum PoolAction {
    /// Save the state, then go on.
    Save,
    /// Run the command, then say how it went.
    Run(CommandSpec),
    /// Stop: the pool is full.
    Done,
}

pub enum PoolActionView {
    Save,
    Run(CommandView),
    Done,
}

impl View for PoolAction {
    type V = PoolActionView;

    open spec fn view(&self) -> PoolActionView {
        match self {
            PoolAction::Save => PoolActionView::Save,
            PoolAction::Run(c) => PoolActionView::Run(c@),
            PoolAction::Done => PoolActionView::Done,
        }
    }
}

/// The work, the slots and the action that follow a save, or the start.
pub open spec fn resumed(
    work: PoolWork,
    project: ProjectConfig,
    repos_dir: Seq<char>,
    now: Timestamp,
    slots: Seq<SlotView>,
) -> (PoolWork, Seq<SlotView>, PoolActionView) {
    let name = project.name@;
    let steps = project.spec_build_steps();
    match work.phase {
        PoolPhase::Idle => if work.next < work.end {
            let number = work.next as u32;
            (
                PoolWork {
                    next: (work.next + 1) as u64,
                    phase: PoolPhase::ToClone(number),
                    ..work
                },
                slots.push(new_slot(SlotId(number))),
                PoolActionView::Save,
            )
        } else {
            (work, slots, PoolActionView::Done)
        },
        PoolPhase::ToClone(s) => (
            PoolWork { phase: PoolPhase::Cloning(s), ..work },
            slots,
            PoolActionView::Run(clone_command(project, slot_path(repos_dir, name, s))),
        ),
        PoolPhase::ToBuild(s, k) => if k < steps.len() {
            match build_step_command(name, steps[k as int], slot_path(repos_dir, name, s)) {
                Ok(command) => (
                    PoolWork { phase: PoolPhase::Building(s, k), ..work },
                    slots,
                    PoolActionView::Run(command),
                ),
                Err(e) => failed(work, slots, s, e),
            }
        } else {
            (
                PoolWork { phase: PoolPhase::Idle, ..work },
                with_refreshed(with_status(slots, s, StatusView::Ready, None), s, now),
                PoolActionView::Save,
            )
        },
        PoolPhase::Cloning(_) | PoolPhase::Building(_, _) => (work, slots, PoolActionView::Done),
    }
}

/// The slot is in error, and the work goes on with the next.
pub open spec fn failed(work: PoolWork, slots: Seq<SlotView>, number: u32, e: ErrorView) -> (
    PoolWork,
    Seq<SlotView>,
    PoolActionView,
) {
    (
        PoolWork { phase: PoolPhase::Idle, ..work },
        with_status(slots, number, StatusView::Error, Some(e.text())),
        PoolActionView::Save,
    )
}

/// What is said to have failed where a project could not be cloned.
pub open spec fn clone_failed(name: Seq<char>) -> Seq<char> {
    "git clone failed for "@ + name
}

/// The work, the slots and the action that follow the end of a command.
pub open spec fn advanced(
    work: PoolWork,
    project: ProjectConfig,
    repos_dir: Seq<char>,
    now: Timestamp,
    slots: Seq<SlotView>,
    outcome: CommandOutcome,
) -> (PoolWork, Seq<SlotView>, PoolActionView) {
    let name = project.name@;
    match work.phase {
        PoolPhase::Cloning(s) => match git_fault(clone_failed(name), outcome) {
            Some(e) => failed(work, slots, s, e),
            None => (
                PoolWork { phase: PoolPhase::ToBuild(s, 0), ..work },
                with_status(slots, s, StatusView::Building, None),
                PoolActionView::Save,
            ),
        },
        PoolPhase::Building(s, k) => match build_fault(
            name,
            project.spec_build_steps()[k as int],
            outcome,
        ) {
            Some(e) => failed(work, slots, s, e),
            None => resumed(
                PoolWork { phase: PoolPhase::ToBuild(s, (k + 1) as usize), ..work },
                project,
                repos_dir,
                now,
                slots,
            ),
        },
        PoolPhase::Idle | PoolPhase::ToClone(_) | PoolPhase::ToBuild(_, _) => (
            work,
            slots,
            PoolActionView::Done,
        ),
    }
}

/// Whether there are numbers for all the slots that filling the pool would add.
pub open spec fn numbers_suffice(pool_size: u32, slots: Seq<SlotView>) -> bool {
    next_free(slots) <= u32::MAX && next_free(slots) + needed(pool_size, slots) <= u32::MAX + 1
}

/// Whether the pool of a project can be filled up to a size.
pub fn can_ensure_pool(project: &ProjectConfig, pool_size: u32, state: &ServerState) -> (r: bool)
    ensures
        r == numbers_suffice(pool_size, slots_of(state@.projects, project.name@)),
        r == ({
            let slots = slots_of(state@.projects, project.name@);
            &&& next_free(slots) <= u32::MAX
            &&& next_free(slots) + needed(pool_size, slots) <= u32::MAX + 1
        }),
{
    match state.find_project(&project.name) {
        None => {
            proof {
                reveal(Seq::filter);
            }
            true
        },
        Some(k) => {
            let pool = &state.projects[k].1;
            proof {
                lemma_first_where(state@.projects, named(project.name@));
                assert(pool@ == slots_of(state@.projects, project.name@));
            }
            if !pool.has_free_number() {
                return false;
            }
            let count: usize = count_slots(pool);
            let wanted: usize = pool_size as usize;
            let missing: u64 = if count < wanted {
                (wanted - count) as u64
            } else {
                0
            };
            pool.next_free_slot_number() as u64 + missing <= 0x1_0000_0000
        },
    }
}

/// Starts to fill the pool of a project up to a size.
pub fn ensure_pool(project: &ProjectConfig, pool_size: u32, state: &mut ServerState) -> (r: PoolWork)
    requires
        numbers_suffice(pool_size, slots_of(old(state)@.projects, project.name@)),
    ensures
        final(state)@ == (StateView {
            projects: with_project(old(state)@.projects, project.name@),
            ..old(state)@
        }),
        project_index(final(state)@.projects, project.name@) is Some,
        ({
            let slots = slots_of(old(state)@.projects, project.name@);
            r == PoolWork {
                next: next_free(slots) as u64,
                end: (next_free(slots) + needed(pool_size, slots)) as u64,
                phase: PoolPhase::Idle,
            }
        }),
        r.wf(*project),
{
    let k: usize = state.project_entry(&project.name);
    let available_count: usize = count_slots(&state.projects[k].1);
    let wanted: usize = pool_size as usize;
    let missing: u64 = if available_count < wanted {
        (wanted - available_count) as u64
    } else {
        0
    };
    let start_slot: u64 = state.projects[k].1.next_free_slot_number() as u64;
    PoolWork { next: start_slot, end: start_slot + missing, phase: PoolPhase::Idle }
}

impl PoolWork {
    /// Whether the numbers of the slots are in range, and so is the build step.
    pub open spec fn wf(self, project: ProjectConfig) -> bool {
        &&& self.next <= self.end
        &&& self.end <= u32::MAX + 1
        &&& self.phase matches PoolPhase::ToBuild(_, k) ==> k <= project.spec_build_steps().len()
        &&& self.phase matches PoolPhase::Building(_, k) ==> k < project.spec_build_steps().len()
    }

    /// Whether a command is running, whose outcome is awaited.
    pub open spec fn is_awaiting(self) -> bool {
        self.phase is Cloning || self.phase is Building
    }

    /// Goes on after a save, or from the start.
    pub fn resume(
        &mut self,
        project: &ProjectConfig,
        repos_dir: &str,
        now: Timestamp,
        state: &mut ServerState,
    ) -> (r: PoolAction)
        requires
            old(self).wf(*project),
            !old(self).is_awaiting(),
            project_index(old(state)@.projects, project.name@) is Some,
        ensures
            ({
                let slots = slots_of(old(state)@.projects, project.name@);
                let model = resumed(*old(self), *project, repos_dir@, now, slots);
                &&& *final(self) == model.0
                &&& final(state)@ == (StateView {
                    projects: with_slots(old(state)@.projects, project.name@, model.1),
                    ..old(state)@
                })
                &&& r@ == model.2
            }),
            final(self).wf(*project),
    {
        let k: usize = match state.find_project(&project.name) {
            Some(k) => k,
            None => {
                return PoolAction::Done;
            },
        };
        let ghost before = state@.projects;
        proof {
            lemma_first_where(before, named(project.name@));
            assert(before[k as int] == (project.name@, state.projects@[k as int].1@));
            assert(before =~= before.update(k as int, before[k as int]));
        }
        match self.phase {
            PoolPhase::Idle => {
                if self.next < self.end {
                    let number: u32 = self.next as u32;
                    state.push_slot(
                        k,
                        Slot {
                            id: SlotId(number),
                            status: SlotStatus::Cloning,
                            last_refreshed: None,
                            error_message: None,
                        },
                    );
                    self.next = self.next + 1;
                    self.phase = PoolPhase::ToClone(number);
                    PoolAction::Save
                } else {
                    PoolAction::Done
                }
            },
            PoolPhase::ToClone(s) => {
                let dir = slot_dir(repos_dir, project.name.as_str(), s);
                self.phase = PoolPhase::Cloning(s);
                PoolAction::Run(clone_repo_command(project, dir.as_str()))
            },
            PoolPhase::ToBuild(s, step) => {
                if step < project.build_step_count() {
                    let dir = slot_dir(repos_dir, project.name.as_str(), s);
                    match parse_build_step(
                        project.name.as_str(),
                        project.build_step(step).as_str(),
                        dir.as_str(),
                    ) {
                        Ok(command) => {
                            self.phase = PoolPhase::Building(s, step);
                            PoolAction::Run(command)
                        },
                        Err(e) => self.fail(project, state, s, &e),
                    }
                } else {
                    set_slot_status(state, project, s, SlotStatus::Ready, None);
                    let ghost mid = state@.projects;
                    proof {
                        with_slots_changes_only_that_project(
                            before,
                            project.name@,
                            with_status(before[k as int].1, s, StatusView::Ready, None),
                            project.name@,
                        );
                        assert(mid[k as int] == (project.name@, state.projects@[k as int].1@));
                    }
                    mark_refreshed(&mut state.projects[k].1, s, now);
                    proof {
                        assert(state@.projects =~= mid.update(
                            k as int,
                            (project.name@, state.projects@[k as int].1@),
                        ));
                        assert(state@.projects =~= before.update(
                            k as int,
                            (project.name@, state.projects@[k as int].1@),
                        ));
                    }
                    self.phase = PoolPhase::Idle;
                    PoolAction::Save
                }
            },
            PoolPhase::Cloning(_) | PoolPhase::Building(_, _) => PoolAction::Done,
        }
    }

    /// Notes the error of a slot, and goes on with the next.
    fn fail(
        &mut self,
        project: &ProjectConfig,
        state: &mut ServerState,
        number: u32,
        e: &ServerError,
    ) -> (r: PoolAction)
        requires
            project_index(old(state)@.projects, project.name@) is Some,
        ensures
            ({
                let slots = slots_of(old(state)@.projects, project.name@);
                let model = failed(*old(self), slots, number, e@);
                &&& *final(self) == model.0
                &&& final(state)@ == (StateView {
                    projects: with_slots(old(state)@.projects, project.name@, model.1),
                    ..old(state)@
                })
                &&& r@ == model.2
            }),
    {
        set_slot_status(state, project, number, SlotStatus::Error, Some(e.message()));
        self.phase = PoolPhase::Idle;
        PoolAction::Save
    }

    /// Goes on after a command has ended, or could not be run.
    pub fn command_ended(
        &mut self,
        project: &ProjectConfig,
        repos_dir: &str,
        now: Timestamp,
        state: &mut ServerState,
        outcome: &CommandOutcome,
    ) -> (r: PoolAction)
        requires
            old(self).wf(*project),
            old(self).is_awaiting(),
            project_index(old(state)@.projects, project.name@) is Some,
        ensures
            ({
                let slots = slots_of(old(state)@.projects, project.name@);
                let model = advanced(*old(self), *project, repos_dir@, now, slots, *outcome);
                &&& *final(self) == model.0
                &&& final(state)@ == (StateView {
                    projects: with_slots(old(state)@.projects, project.name@, model.1),
                    ..old(state)@
                })
                &&& r@ == model.2
            }),
            final(self).wf(*project),
    {
        match self.phase {
            PoolPhase::Cloning(s) => {
                let what = "git clone failed for ".to_owned().concat(project.name.as_str());
                match judge_git(what.as_str(), outcome) {
                    Err(e) => self.fail(project, state, s, &e),
                    Ok(()) => {
                        set_slot_status(state, project, s, SlotStatus::Building, None);
                        self.phase = PoolPhase::ToBuild(s, 0);
                        PoolAction::Save
                    },
                }
            },
            PoolPhase::Building(s, k) => {
                match judge_build_step(
                    project.name.as_str(),
                    project.build_step(k).as_str(),
                    outcome,
                ) {
                    Err(e) => self.fail(project, state, s, &e),
                    Ok(()) => {
                        let n: usize = project.build_step_count();
                        assert(k < n);
                        self.phase = PoolPhase::ToBuild(s, k + 1);
                        self.resume(project, repos_dir, now, state)
                    },
                }
            },
            PoolPhase::Idle | PoolPhase::ToClone(_) | PoolPhase::ToBuild(_, _) => PoolAction::Done,
        }
    }
}

/// Gives a slot of a project another status and message.
fn set_slot_status(
    state: &mut ServerState,
    project: &ProjectConfig,
    number: u32,
    status: SlotStatus,
    message: Option<String>,
)
    requires
        project_index(old(state)@.projects, project.name@) is Some,
    ensures
        final(state)@ == (StateView {
            projects: with_slots(
                old(state)@.projects,
                project.name@,
                with_status(
                    slots_of(old(state)@.projects, project.name@),
                    number,
                    status@,
                    opt_view(message),
                ),
            ),
            ..old(state)@
        }),
        final(state).projects@.len() == old(state).projects@.len(),
{
    if let Some(k) = state.find_project(&project.name) {
        let ghost before = state@.projects;
        proof {
            lemma_first_where(before, named(project.name@));
            assert(before[k as int] == (project.name@, state.projects@[k as int].1@));
        }
        update_slot_status(&mut state.projects[k].1, number, status, message);
        assert(state@.projects =~= before.update(
            k as int,
            (project.name@, state.projects@[k as int].1@),
        ));
    }
}

/// How far the refresh of a slot has come: the command that is running.
#[derive(Debug, Clone, Copy, PartialEq, Eq, Structural)]
pub enum RefreshPhase {
    Fetching,
    Resetting,
    Building(usize),
    Finished,
}

/// What to do next for a slot that is being refreshed.
#[derive(Debug, PartialEq, Eq)]
pub enum RefreshAction {
    /// Run the command, then say how it went.
    Run(CommandSpec),
    /// Stop, with that result.
    Stop(Result<()>),
}

pub enum RefreshActionView {
    Run(CommandView),
    Stop(Option<ErrorView>),
}

impl View for RefreshAction {
    type V = RefreshActionView;

    open spec fn view(&self) -> RefreshActionView {
        match self {
            RefreshAction::Run(c) => RefreshActionView::Run(c@),
            RefreshAction::Stop(Ok(_)) => RefreshActionView::Stop(None),
            RefreshAction::Stop(Err(e)) => RefreshActionView::Stop(Some(e@)),
        }
    }
}

/// The command that fetches what is new.
pub open spec fn fetch_command(dir: Seq<char>) -> CommandView {
    CommandView { program: "git"@, args: seq!["fetch"@, "origin"@], current_dir: Some(dir) }
}

/// The command that moves the working tree to what was fetched.
pub open spec fn reset_command(project: ProjectConfig, dir: Seq<char>) -> CommandView {
    CommandView {
        program: "git"@,
        args: seq!["reset"@, "--hard"@, "origin/"@ + project.spec_effective_branch()],
        current_dir: Some(dir),
    }
}

/// What follows in a refresh when the build steps before `k` have succeeded: the
/// next step, or the slot is ready.
pub open spec fn built_up_to(
    project: ProjectConfig,
    repos_dir: Seq<char>,
    number: u32,
    now: Timestamp,
    slots: Seq<SlotView>,
    k: int,
) -> (RefreshPhase, Seq<SlotView>, RefreshActionView) {
    let steps = project.spec_build_steps();
    let dir = slot_path(repos_dir, project.name@, number);
    if k < steps.len() {
        match build_step_command(project.name@, steps[k], dir) {
            Ok(command) => (
                RefreshPhase::Building(k as usize),
                slots,
                RefreshActionView::Run(command),
            ),
            Err(e) => build_failed(slots, number, e),
        }
    } else {
        (
            RefreshPhase::Finished,
            with_refreshed(with_status(slots, number, StatusView::Ready, None), number, now),
            RefreshActionView::Stop(None),
        )
    }
}

/// A build that fails during a refresh puts the slot in error; the refresh itself
/// ends without one.
pub open spec fn build_failed(slots: Seq<SlotView>, number: u32, e: ErrorView) -> (
    RefreshPhase,
    Seq<SlotView>,
    RefreshActionView,
) {
    (
        RefreshPhase::Finished,
        with_status(slots, number, StatusView::Error, Some(e.text())),
        RefreshActionView::Stop(None),
    )
}

/// What follows in a refresh after a command has ended. Where git fails the
/// refresh ends in an error and the slot stays as it was.
pub open spec fn refresh_advanced(
    phase: RefreshPhase,
    project: ProjectConfig,
    repos_dir: Seq<char>,
    number: u32,
    now: Timestamp,
    slots: Seq<SlotView>,
    outcome: CommandOutcome,
) -> (RefreshPhase, Seq<SlotView>, RefreshActionView) {
    let dir = slot_path(repos_dir, project.name@, number);
    match phase {
        RefreshPhase::Fetching => match git_fault("git fetch failed"@, outcome) {
            Some(e) => (RefreshPhase::Finished, slots, RefreshActionView::Stop(Some(e))),
            None => (
                RefreshPhase::Resetting,
                slots,
                RefreshActionView::Run(reset_command(project, dir)),
            ),
        },
        RefreshPhase::Resetting => match git_fault("git reset failed"@, outcome) {
            Some(e) => (RefreshPhase::Finished, slots, RefreshActionView::Stop(Some(e))),
            None => built_up_to(project, repos_dir, number, now, slots, 0),
        },
        RefreshPhase::Building(k) => match build_fault(
            project.name@,
            project.spec_build_steps()[k as int],
            outcome,
        ) {
            Some(e) => build_failed(slots, number, e),
            None => built_up_to(project, repos_dir, number, now, slots, k + 1),
        },
        RefreshPhase::Finished => (phase, slots, RefreshActionView::Stop(None)),
    }
}

/// Starts to refresh a slot.
pub fn refresh_slot(repos_dir: &str, project: &ProjectConfig, slot_num: u32) -> (r: (
    RefreshPhase,
    RefreshAction,
))
    ensures
        r.0 is Fetching,
        r.1@ == RefreshActionView::Run(
            fetch_command(slot_path(repos_dir@, project.name@, slot_num)),
        ),
{
    let dir = slot_dir(repos_dir, project.name.as_str(), slot_num);
    let args = owned(&["fetch", "origin"]);
    assert(views(args@) =~= seq!["fetch"@, "origin"@]);
    let command = CommandSpec { program: "git".to_owned(), args, current_dir: Some(dir) };
    (RefreshPhase::Fetching, RefreshAction::Run(command))
}

fn fail_build(project_state: &mut ProjectState, slot_num: u32, e: &ServerError) -> (r: (
    RefreshPhase,
    RefreshAction,
))
    ensures
        (r.0, final(project_state)@, r.1@) == build_failed(old(project_state)@, slot_num, e@),
{
    update_slot_status(project_state, slot_num, SlotStatus::Error, Some(e.message()));
    (RefreshPhase::Finished, RefreshAction::Stop(Ok(())))
}

/// Runs the next build step of a refresh, or ends it.
fn build_next(
    repos_dir: &str,
    project: &ProjectConfig,
    project_state: &mut ProjectState,
    slot_num: u32,
    now: Timestamp,
    k: usize,
) -> (r: (RefreshPhase, RefreshAction))
    ensures
        (r.0, final(project_state)@, r.1@) == built_up_to(
            *project,
            repos_dir@,
            slot_num,
            now,
            old(project_state)@,
            k as int,
        ),
{
    if k < project.build_step_count() {
        let dir = slot_dir(repos_dir, project.name.as_str(), slot_num);
        match parse_build_step(
            project.name.as_str(),
            project.build_step(k).as_str(),
            dir.as_str(),
        ) {
            Ok(command) => (RefreshPhase::Building(k), RefreshAction::Run(command)),
            Err(e) => fail_build(project_state, slot_num, &e),
        }
    } else {
        update_slot_status(project_state, slot_num, SlotStatus::Ready, None);
        mark_refreshed(project_state, slot_num, now);
        (RefreshPhase::Finished, RefreshAction::Stop(Ok(())))
    }
}

/// Goes on with the refresh of a slot after a command has ended, or could not be
/// run.
pub fn advance_refresh(
    phase: RefreshPhase,
    repos_dir: &str,
    project: &ProjectConfig,
    project_state: &mut ProjectState,
    slot_num: u32,
    now: Timestamp,
    outcome: &CommandOutcome,
) -> (r: (RefreshPhase, RefreshAction))
    requires
        !(phase is Finished),
        phase matches RefreshPhase::Building(k) ==> k < project.spec_build_steps().len(),
    ensures
        (r.0, final(project_state)@, r.1@) == refresh_advanced(
            phase,
            *project,
            repos_dir@,
            slot_num,
            now,
            old(project_state)@,
            *outcome,
        ),
        r.0 matches RefreshPhase::Building(k) ==> k < project.spec_build_steps().len(),
{
    match phase {
        RefreshPhase::Fetching => match judge_git("git fetch failed", outcome) {
            Err(e) => (RefreshPhase::Finished, RefreshAction::Stop(Err(e))),
            Ok(()) => {
                let dir = slot_dir(repos_dir, project.name.as_str(), slot_num);
                let target = "origin/".to_owned().concat(project.effective_branch());
                let args = owned(&["reset", "--hard", target.as_str()]);
                assert(views(args@) =~= seq!["reset"@, "--hard"@, target@]);
                let command = CommandSpec {
                    program: "git".to_owned(),
                    args,
                    current_dir: Some(dir),
                };
                (RefreshPhase::Resetting, RefreshAction::Run(command))
            },
        },
        RefreshPhase::Resetting => match judge_git("git reset failed", outcome) {
            Err(e) => (RefreshPhase::Finished, RefreshAction::Stop(Err(e))),
            Ok(()) => build_next(repos_dir, project, project_state, slot_num, now, 0),
        },
        RefreshPhase::Building(k) => match judge_build_step(
            project.name.as_str(),
            project.build_step(k).as_str(),
            outcome,
        ) {
            Err(e) => fail_build(project_state, slot_num, &e),
            Ok(()) => {
                let n: usize = project.build_step_count();
                assert(k < n);
                build_next(repos_dir, project, project_state, slot_num, now, k + 1)
            },
        },
        RefreshPhase::Finished => (phase, RefreshAction::Stop(Ok(()))),
    }
}

/// Filling a pool leaves no project standing twice in the state.
pub proof fn filling_keeps_projects_apart(
    work: PoolWork,
    project: ProjectConfig,
    repos_dir: Seq<char>,
    now: Timestamp,
    projects: ProjectsView,
    outcome: CommandOutcome,
)
    requires
        names_differ(projects),
    ensures
        names_differ(with_project(projects, project.name@)),
        ({
            let slots = slots_of(projects, project.name@);
            let resumed_slots = resumed(work, project, repos_dir, now, slots).1;
            let advanced_slots = advanced(work, project, repos_dir, now, slots, outcome).1;
            &&& names_differ(with_slots(projects, project.name@, resumed_slots))
            &&& names_differ(with_slots(projects, project.name@, advanced_slots))
        }),
{
    let name = project.name@;
    let slots = slots_of(projects, name);
    with_project_adds_only_that_project(projects, name, name);
    with_slots_changes_only_that_project(
        projects,
        name,
        resumed(work, project, repos_dir, now, slots).1,
        name,
    );
    with_slots_changes_only_that_project(
        projects,
        name,
        advanced(work, project, repos_dir, now, slots, outcome).1,
        name,
    );
}

/// How many moves the work of a pool takes at most.
pub open spec fn moves_left(work: PoolWork, steps: int) -> int {
    (work.end - work.next) * (steps + 4) + (match work.phase {
        PoolPhase::Idle => 0,
        PoolPhase::ToClone(_) => steps + 3,
        PoolPhase::Cloning(_) => steps + 2,
        PoolPhase::ToBuild(_, k) => steps - k + 1,
        PoolPhase::Building(_, k) => steps - k,
    })
}

/// Filling a pool comes to an end: every move but the last leaves fewer.
pub proof fn pools_are_filled_in_time(
    work: PoolWork,
    project: ProjectConfig,
    repos_dir: Seq<char>,
    now: Timestamp,
    slots: Seq<SlotView>,
    outcome: CommandOutcome,
)
    requires
        work.wf(project),
    ensures
        ({
            let steps = project.spec_build_steps().len() as int;
            let next = if work.is_awaiting() {
                advanced(work, project, repos_dir, now, slots, outcome)
            } else {
                resumed(work, project, repos_dir, now, slots)
            };
            &&& next.0.wf(project)
            &&& moves_left(work, steps) >= 0
            &&& next.2 is Done <==> work.phase is Idle && work.next == work.end
            &&& !(next.2 is Done) ==> moves_left(next.0, steps) < moves_left(work, steps)
            &&& next.2 is Run <==> next.0.is_awaiting()
        }),
{
    let steps = project.spec_build_steps().len() as int;
    if let Some(list) = project.build_command {
        assert(list.0.len() == list.0@.len());
    }
    let d = work.end - work.next;
    assert(d * (steps + 4) >= 0) by (nonlinear_arith)
        requires
            d >= 0,
            steps >= 0,
    ;
    assert((d - 1) * (steps + 4) + (steps + 4) == d * (steps + 4)) by (nonlinear_arith);
}

/// The number of the slot that is being added.
pub open spec fn current(phase: PoolPhase) -> Option<u32> {
    match phase {
        PoolPhase::Idle => None,
        PoolPhase::ToClone(s) => Some(s),
        PoolPhase::Cloning(s) => Some(s),
        PoolPhase::ToBuild(s, _) => Some(s),
        PoolPhase::Building(s, _) => Some(s),
    }
}

/// Whether the slots that count and those still to be added make up the pool.
pub open spec fn is_accounted(work: PoolWork, slots: Seq<SlotView>, pool_size: u32) -> bool {
    &&& slots.filter(counted()).len() + (work.end - work.next) >= pool_size
    &&& next_free(slots) <= work.next
    &&& current(work.phase) matches Some(s) ==> (first_where(slots, has_number(s)) matches Some(
        j,
    ) && counted()(slots[j]))
}

/// Filling a pool starts with every slot accounted for.
pub proof fn filling_starts_accounted(pool_size: u32, slots: Seq<SlotView>)
    requires
        next_free(slots) + needed(pool_size, slots) <= u64::MAX,
    ensures
        is_accounted(
            PoolWork {
                next: next_free(slots) as u64,
                end: (next_free(slots) + needed(pool_size, slots)) as u64,
                phase: PoolPhase::Idle,
            },
            slots,
            pool_size,
        ),
{
    next_free_is_above_all(slots);
}

/// Every move keeps the slots accounted for, whatever becomes of the commands;
/// so when the work is done, the pool has its size. Slots in error count.
pub proof fn filled_pools_have_their_size(
    work: PoolWork,
    project: ProjectConfig,
    repos_dir: Seq<char>,
    now: Timestamp,
    slots: Seq<SlotView>,
    outcome: CommandOutcome,
    pool_size: u32,
)
    requires
        work.wf(project),
        is_accounted(work, slots, pool_size),
    ensures
        ({
            let next = if work.is_awaiting() {
                advanced(work, project, repos_dir, now, slots, outcome)
            } else {
                resumed(work, project, repos_dir, now, slots)
            };
            &&& is_accounted(next.0, next.1, pool_size)
            &&& next.2 is Done ==> next.1.filter(counted()).len() >= pool_size
        }),
{
    pools_are_filled_in_time(work, project, repos_dir, now, slots, outcome);
    match current(work.phase) {
        None => {
            if work.next < work.end {
                let number = work.next as u32;
                let slot = new_slot(SlotId(number));
                let after = slots.push(slot);
                next_free_is_above_all(slots);
                reveal(Seq::filter);
                assert(after.drop_last() =~= slots);
                assert forall|j: int| 0 <= j < slots.len() implies !has_number(number)(
                    #[trigger] after[j],
                ) by {
                    assert(after[j] == slots[j]);
                }
                lemma_first_where_is(after, has_number(number), slots.len() as int);
            }
        },
        Some(s) => {
            lemma_first_where(slots, has_number(s));
            lemma_with_status(slots, s, StatusView::Error, None);
            lemma_with_status(slots, s, StatusView::Ready, None);
            lemma_with_status(slots, s, StatusView::Building, None);
            lemma_with_refreshed(with_status(slots, s, StatusView::Ready, None), s, now);
            let next = if work.is_awaiting() {
                advanced(work, project, repos_dir, now, slots, outcome)
            } else {
                resumed(work, project, repos_dir, now, slots)
            };
            if next.2 is Save && next.1[first_where(slots, has_number(s))->0].status is Error {
                let message = next.1[first_where(slots, has_number(s))->0].error_message;
                lemma_with_status(slots, s, StatusView::Error, message);
            }
        },
    }
}

/// Another status that counts keeps the count, the numbers and the place.
proof fn lemma_with_status(
    slots: Seq<SlotView>,
    s: u32,
    status: StatusView,
    message: Option<Seq<char>>,
)
    requires
        first_where(slots, has_number(s)) matches Some(j) && counted()(slots[j]),
        status is Error || status is Ready || status is Building,
    ensures
        with_status(slots, s, status, message).filter(counted()).len() == slots.filter(
            counted(),
        ).len(),
        next_free(with_status(slots, s, status, message)) == next_free(slots),
        first_where(with_status(slots, s, status, message), has_number(s)) == first_where(
            slots,
            has_number(s),
        ),
        counted()(
            with_status(slots, s, status, message)[first_where(slots, has_number(s))->0],
        ),
{
    let j = first_where(slots, has_number(s))->0;
    let slot = SlotView { status, error_message: message, ..slots[j] };
    lemma_first_where(slots, has_number(s));
    lemma_same_numbers(slots, slots.update(j, slot), s);
    lemma_filter_update(slots, counted(), j, slot);
}

/// Another time of refresh keeps the count, the numbers and the place.
proof fn lemma_with_refreshed(slots: Seq<SlotView>, s: u32, now: Timestamp)
    requires
        first_where(slots, has_number(s)) matches Some(j) && counted()(slots[j]),
    ensures
        with_refreshed(slots, s, now).filter(counted()).len() == slots.filter(counted()).len(),
        next_free(with_refreshed(slots, s, now)) == next_free(slots),
{
    let j = first_where(slots, has_number(s))->0;
    let slot = SlotView { last_refreshed: Some(now), ..slots[j] };
    lemma_first_where(slots, has_number(s));
    lemma_same_numbers(slots, slots.update(j, slot), s);
    lemma_filter_update(slots, counted(), j, slot);
}

} // verus!
