//! How one pool is filled and one slot refreshed: which commands run, and in which
//! order.
use crate::command::CommandView;
use crate::config::ProjectConfig;
use crate::error::ErrorView;
use crate::pool::{
    advanced, build_fault, clone_failed, counted, fetch_command, git_fault, needed,
    refresh_advanced, resumed, slot_path, with_refreshed, with_status, CommandOutcome,
    PoolActionView, PoolPhase, PoolWork, RefreshActionView, RefreshPhase,
};
use crate::seqs::{first_where, lemma_first_where_is};
use crate::state::{has_number, SlotId, SlotView, StatusView};
use crate::text::{lossy_text, words};
use crate::time::Timestamp;
use vstd::prelude::*;

verus! {

/// Whether a command ran and succeeded.
pub open spec fn went_well(outcome: CommandOutcome) -> bool {
    outcome matches CommandOutcome::Ended(exit) && exit.success
}

/// A command is at fault exactly where it did not run or did not succeed; the fault
/// tells why.
pub proof fn only_failures_are_faults(
    what: Seq<char>,
    project: Seq<char>,
    step: Seq<char>,
    outcome: CommandOutcome,
)
    ensures
        git_fault(what, outcome) is None <==> went_well(outcome),
        build_fault(project, step, outcome) is None <==> went_well(outcome),
        outcome matches CommandOutcome::NotRun(reason) ==> git_fault(what, outcome) == Some(
            ErrorView::Io(reason@),
        ) && build_fault(project, step, outcome) == Some(ErrorView::Io(reason@)),
        (outcome matches CommandOutcome::Ended(exit) && !exit.success) ==> {
            let wrote = lossy_text(outcome->Ended_0.stderr@);
            &&& git_fault(what, outcome) == Some(ErrorView::Git(what + ": "@ + wrote))
            &&& build_fault(project, step, outcome) == Some(
                ErrorView::Build(
                    "build step `"@ + step + "` failed for "@ + project + ": "@ + wrote,
                ),
            )
        },
{
}

/// Whether slot `j` is the first with that number.
pub open spec fn is_first_numbered(slots: Seq<SlotView>, number: u32, j: int) -> bool {
    &&& 0 <= j < slots.len()
    &&& slots[j].id.0 == number
    &&& forall|i: int| 0 <= i < j ==> (#[trigger] slots[i]).id.0 != number
}

/// The slots, with another status and message for slot `j`.
pub open spec fn marked(
    slots: Seq<SlotView>,
    j: int,
    status: StatusView,
    message: Option<Seq<char>>,
) -> Seq<SlotView> {
    slots.update(
        j,
        SlotView {
            id: slots[j].id,
            status,
            last_refreshed: slots[j].last_refreshed,
            error_message: message,
        },
    )
}

/// The slots, with slot `j` ready and refreshed at that time.
pub open spec fn finished(slots: Seq<SlotView>, j: int, now: Timestamp) -> Seq<SlotView> {
    slots.update(
        j,
        SlotView {
            id: slots[j].id,
            status: StatusView::Ready,
            last_refreshed: Some(now),
            error_message: None,
        },
    )
}

proof fn lemma_marks(
    slots: Seq<SlotView>,
    number: u32,
    j: int,
    status: StatusView,
    message: Option<Seq<char>>,
    now: Timestamp,
)
    requires
        is_first_numbered(slots, number, j),
    ensures
        with_status(slots, number, status, message) == marked(slots, j, status, message),
        with_refreshed(with_status(slots, number, StatusView::Ready, None), number, now)
            == finished(slots, j, now),
{
    assert forall|i: int| 0 <= i < j implies !has_number(number)(#[trigger] slots[i]) by {}
    lemma_first_where_is(slots, has_number(number), j);
    let ready = with_status(slots, number, StatusView::Ready, None);
    assert forall|i: int| 0 <= i < j implies !has_number(number)(#[trigger] ready[i]) by {
        assert(ready[i] == slots[i]);
    }
    lemma_first_where_is(ready, has_number(number), j);
    assert(with_refreshed(ready, number, now) =~= finished(slots, j, now));
}

/// Another status or time of refresh goes to the first slot of that number, and to no
/// other; where there is none nothing changes.
pub proof fn marks_go_to_one_slot(
    slots: Seq<SlotView>,
    number: u32,
    status: StatusView,
    message: Option<Seq<char>>,
    now: Timestamp,
)
    ensures
        forall|j: int| #[trigger]
            is_first_numbered(slots, number, j) ==> with_status(slots, number, status, message)
                == marked(slots, j, status, message) && with_refreshed(slots, number, now)
                == slots.update(j, SlotView { last_refreshed: Some(now), ..slots[j] }),
        (forall|i: int| 0 <= i < slots.len() ==> (#[trigger] slots[i]).id.0 != number)
            ==> with_status(slots, number, status, message) == slots && with_refreshed(
            slots,
            number,
            now,
        ) == slots,
{
    assert forall|j: int| #[trigger] is_first_numbered(slots, number, j) implies with_status(
        slots,
        number,
        status,
        message,
    ) == marked(slots, j, status, message) && with_refreshed(slots, number, now) == slots.update(
        j,
        SlotView { last_refreshed: Some(now), ..slots[j] },
    ) by {
        lemma_marks(slots, number, j, status, message, now);
        assert forall|i: int| 0 <= i < j implies !has_number(number)(#[trigger] slots[i]) by {}
        lemma_first_where_is(slots, has_number(number), j);
    }
    if forall|i: int| 0 <= i < slots.len() ==> (#[trigger] slots[i]).id.0 != number {
        crate::seqs::lemma_first_where(slots, has_number(number));
        if let Some(j) = first_where(slots, has_number(number)) {
            assert(slots[j].id.0 == number);
        }
    }
}

/// A slot counts towards its pool exactly where it is ready, being cloned, being
/// built, or in error.
pub proof fn slots_that_count(slot: SlotView)
    ensures
        counted()(slot) <==> slot.status is Ready || slot.status is Cloning
            || slot.status is Building || slot.status is Error,
{
}

/// As many slots are to be added as the pool has too few of those that count.
pub proof fn pools_need_what_they_lack(pool_size: u32, slots: Seq<SlotView>)
    ensures
        ({
            let count = slots.filter(
                |s: SlotView|
                    s.status is Ready || s.status is Cloning || s.status is Building
                        || s.status is Error,
            ).len();
            &&& count >= pool_size ==> needed(pool_size, slots) == 0
            &&& count < pool_size ==> needed(pool_size, slots) + count == pool_size
        }),
{
    assert(counted() =~= (|s: SlotView|
        s.status is Ready || s.status is Cloning || s.status is Building || s.status is Error));
}

/// The message for a build step that names no program.
pub open spec fn blank_step(project: Seq<char>) -> Seq<char> {
    "build error: "@ + ("empty step in build_command for "@ + project)
}

/// Whether build step `k` of the slot is what happens: its words are run in the
/// directory of the slot; where it names no program the slot is in error; behind the
/// last step the slot is ready.
pub open spec fn builds_step(
    project: ProjectConfig,
    repos_dir: Seq<char>,
    now: Timestamp,
    work: PoolWork,
    slots: Seq<SlotView>,
    number: u32,
    j: int,
    k: int,
    next: (PoolWork, Seq<SlotView>, PoolActionView),
) -> bool {
    let steps = project.spec_build_steps();
    &&& next.0.next == work.next
    &&& next.0.end == work.end
    &&& k < steps.len() && words(steps[k]).len() > 0 ==> {
        &&& next.0.phase == PoolPhase::Building(number, k as usize)
        &&& next.1 == slots
        &&& next.2 matches PoolActionView::Run(c) && seq![c.program] + c.args == words(steps[k])
            && c.current_dir == Some(slot_path(repos_dir, project.name@, number))
    }
    &&& k < steps.len() && words(steps[k]).len() == 0 ==> {
        &&& next.0.phase is Idle
        &&& next.2 is Save
        &&& next.1 == marked(slots, j, StatusView::Error, Some(blank_step(project.name@)))
    }
    &&& k >= steps.len() ==> {
        &&& next.0.phase is Idle
        &&& next.2 is Save
        &&& next.1 == finished(slots, j, now)
    }
}

/// Whether the slot is in error, with that message, and the work goes on with the
/// next.
pub open spec fn gives_up(
    work: PoolWork,
    slots: Seq<SlotView>,
    j: int,
    message: Seq<char>,
    next: (PoolWork, Seq<SlotView>, PoolActionView),
) -> bool {
    &&& next.0.next == work.next
    &&& next.0.end == work.end
    &&& next.0.phase is Idle
    &&& next.2 is Save
    &&& next.1 == marked(slots, j, StatusView::Error, Some(message))
}

/// How a pool is filled. A slot that is missing gets the next number and is cloned,
/// from the repository and the branch of the project, to its directory. Once it is
/// cloned every build step runs, from the first on, each behind the one before it;
/// behind the last the slot is ready. A command that fails puts the slot in error, and
/// none of its steps run any more.
pub proof fn pools_are_filled_slot_by_slot(
    work: PoolWork,
    project: ProjectConfig,
    repos_dir: Seq<char>,
    now: Timestamp,
    slots: Seq<SlotView>,
    outcome: CommandOutcome,
    j: int,
)
    requires
        work.wf(project),
        match work.phase {
            PoolPhase::Idle => true,
            PoolPhase::ToClone(s) => is_first_numbered(slots, s, j),
            PoolPhase::Cloning(s) => is_first_numbered(slots, s, j),
            PoolPhase::ToBuild(s, _) => is_first_numbered(slots, s, j),
            PoolPhase::Building(s, _) => is_first_numbered(slots, s, j),
        },
    ensures
        match work.phase {
            PoolPhase::Idle => {
                let next = resumed(work, project, repos_dir, now, slots);
                &&& work.next == work.end ==> next == (work, slots, PoolActionView::Done)
                &&& work.next < work.end ==> {
                    &&& next.0.next == work.next + 1
                    &&& next.0.end == work.end
                    &&& next.0.phase == PoolPhase::ToClone(work.next as u32)
                    &&& next.2 is Save
                    &&& next.1 == slots.push(
                        SlotView {
                            id: SlotId(work.next as u32),
                            status: StatusView::Cloning,
                            last_refreshed: None,
                            error_message: None,
                        },
                    )
                }
            },
            PoolPhase::ToClone(s) => {
                let next = resumed(work, project, repos_dir, now, slots);
                &&& next.0 == (PoolWork { phase: PoolPhase::Cloning(s), ..work })
                &&& next.1 == slots
                &&& next.2 == PoolActionView::Run(
                    CommandView {
                        program: "git"@,
                        args: seq![
                            "clone"@,
                            "--branch"@,
                            project.spec_effective_branch(),
                            project.repo_url@,
                            slot_path(repos_dir, project.name@, s),
                        ],
                        current_dir: None,
                    },
                )
            },
            PoolPhase::Cloning(s) => {
                let next = advanced(work, project, repos_dir, now, slots, outcome);
                &&& went_well(outcome) ==> {
                    &&& next.0 == (PoolWork { phase: PoolPhase::ToBuild(s, 0), ..work })
                    &&& next.1 == marked(slots, j, StatusView::Building, None)
                    &&& next.2 is Save
                }
                &&& !went_well(outcome) ==> gives_up(
                    work,
                    slots,
                    j,
                    git_fault("git clone failed for "@ + project.name@, outcome)->0.text(),
                    next,
                )
            },
            PoolPhase::ToBuild(s, k) => builds_step(
                project,
                repos_dir,
                now,
                work,
                slots,
                s,
                j,
                k as int,
                resumed(work, project, repos_dir, now, slots),
            ),
            PoolPhase::Building(s, k) => {
                let next = advanced(work, project, repos_dir, now, slots, outcome);
                &&& went_well(outcome) ==> builds_step(
                    project,
                    repos_dir,
                    now,
                    work,
                    slots,
                    s,
                    j,
                    k + 1,
                    next,
                )
                &&& !went_well(outcome) ==> gives_up(
                    work,
                    slots,
                    j,
                    build_fault(
                        project.name@,
                        project.spec_build_steps()[k as int],
                        outcome,
                    )->0.text(),
                    next,
                )
            },
        },
{
    if let Some(steps) = project.build_command {
        assert(steps.0.len() == steps.0@.len());
    }
    let steps = project.spec_build_steps();
    assert forall|k: int| 0 <= k < steps.len() && words(#[trigger] steps[k]).len() > 0 implies seq![
        words(steps[k])[0],
    ] + words(steps[k]).skip(1) == words(steps[k]) by {
        assert(seq![words(steps[k])[0]] + words(steps[k]).skip(1) =~= words(steps[k]));
    }
    if let Some(s) = crate::pool::current(work.phase) {
        assert forall|message: Seq<char>| #[trigger]
            marked(slots, j, StatusView::Error, Some(message)) == with_status(
                slots,
                s,
                StatusView::Error,
                Some(message),
            ) by {
            lemma_marks(slots, s, j, StatusView::Error, Some(message), now);
        }
        lemma_marks(slots, s, j, StatusView::Building, None, now);
        let next = if work.is_awaiting() {
            advanced(work, project, repos_dir, now, slots, outcome)
        } else {
            resumed(work, project, repos_dir, now, slots)
        };
        match work.phase {
            PoolPhase::Cloning(_) => {
                if let Some(e) = git_fault(clone_failed(project.name@), outcome) {
                    assert(next.1 == marked(slots, j, StatusView::Error, Some(e.text())));
                }
            },
            PoolPhase::ToBuild(_, k) => {
                if k < steps.len() && words(steps[k as int]).len() == 0 {
                    let e = crate::handler::empty_step_error(project.name@);
                    assert(next.1 == marked(slots, j, StatusView::Error, Some(e.text())));
                }
            },
            PoolPhase::Building(_, k) => {
                match build_fault(project.name@, steps[k as int], outcome) {
                    Some(e) => {
                        assert(next.1 == marked(slots, j, StatusView::Error, Some(e.text())));
                    },
                    None => {
                        if k + 1 < steps.len() && words(steps[k + 1]).len() == 0 {
                            let e = crate::handler::empty_step_error(project.name@);
                            assert(next.1 == marked(slots, j, StatusView::Error, Some(e.text())));
                        }
                    },
                }
            },
            _ => {},
        }
    }
}

/// Whether build step `k` of the slot is what a refresh goes on with.
pub open spec fn refreshes_step(
    project: ProjectConfig,
    repos_dir: Seq<char>,
    now: Timestamp,
    slots: Seq<SlotView>,
    number: u32,
    j: int,
    k: int,
    next: (RefreshPhase, Seq<SlotView>, RefreshActionView),
) -> bool {
    let steps = project.spec_build_steps();
    &&& k < steps.len() && words(steps[k]).len() > 0 ==> {
        &&& next.0 == RefreshPhase::Building(k as usize)
        &&& next.1 == slots
        &&& next.2 matches RefreshActionView::Run(c) && seq![c.program] + c.args == words(
            steps[k],
        ) && c.current_dir == Some(slot_path(repos_dir, project.name@, number))
    }
    &&& k < steps.len() && words(steps[k]).len() == 0 ==> fails_build(
        slots,
        j,
        blank_step(project.name@),
        next,
    )
    &&& k >= steps.len() ==> {
        &&& next.0 is Finished
        &&& next.1 == finished(slots, j, now)
        &&& next.2 == RefreshActionView::Stop(None)
    }
}

/// Whether the slot is in error, with that message, and the refresh ends.
pub open spec fn fails_build(
    slots: Seq<SlotView>,
    j: int,
    message: Seq<char>,
    next: (RefreshPhase, Seq<SlotView>, RefreshActionView),
) -> bool {
    &&& next.0 is Finished
    &&& next.2 == RefreshActionView::Stop(None)
    &&& next.1 == marked(slots, j, StatusView::Error, Some(message))
}

/// How a slot is refreshed. What is new is fetched, then the working tree is moved to
/// the branch of the project, then every build step runs, from the first on, each
/// behind the one before it; behind the last the slot is ready. Where git fails the
/// refresh ends in an error and the slot stays as it was; where a build step fails the
/// slot is in error, and no step runs any more.
pub proof fn refreshes_go_step_by_step(
    phase: RefreshPhase,
    project: ProjectConfig,
    repos_dir: Seq<char>,
    number: u32,
    now: Timestamp,
    slots: Seq<SlotView>,
    outcome: CommandOutcome,
    j: int,
)
    requires
        is_first_numbered(slots, number, j),
        phase matches RefreshPhase::Building(k) ==> k < project.spec_build_steps().len(),
    ensures
        ({
            let dir = slot_path(repos_dir, project.name@, number);
            let next = refresh_advanced(phase, project, repos_dir, number, now, slots, outcome);
            match phase {
                RefreshPhase::Fetching => {
                    &&& went_well(outcome) ==> {
                        &&& next.0 is Resetting
                        &&& next.1 == slots
                        &&& next.2 == RefreshActionView::Run(
                            CommandView {
                                program: "git"@,
                                args: seq![
                                    "reset"@,
                                    "--hard"@,
                                    "origin/"@ + project.spec_effective_branch(),
                                ],
                                current_dir: Some(dir),
                            },
                        )
                    }
                    &&& !went_well(outcome) ==> next.0 is Finished && next.1 == slots && next.2
                        == RefreshActionView::Stop(git_fault("git fetch failed"@, outcome))
                },
                RefreshPhase::Resetting => {
                    &&& went_well(outcome) ==> refreshes_step(
                        project,
                        repos_dir,
                        now,
                        slots,
                        number,
                        j,
                        0,
                        next,
                    )
                    &&& !went_well(outcome) ==> next.0 is Finished && next.1 == slots && next.2
                        == RefreshActionView::Stop(git_fault("git reset failed"@, outcome))
                },
                RefreshPhase::Building(k) => {
                    &&& went_well(outcome) ==> refreshes_step(
                        project,
                        repos_dir,
                        now,
                        slots,
                        number,
                        j,
                        k + 1,
                        next,
                    )
                    &&& !went_well(outcome) ==> fails_build(
                        slots,
                        j,
                        build_fault(
                            project.name@,
                            project.spec_build_steps()[k as int],
                            outcome,
                        )->0.text(),
                        next,
                    )
                },
                RefreshPhase::Finished => next.0 is Finished && next.1 == slots && next.2
                    == RefreshActionView::Stop(None),
            }
        }),
        fetch_command(slot_path(repos_dir, project.name@, number)) == (CommandView {
            program: "git"@,
            args: seq!["fetch"@, "origin"@],
            current_dir: Some(slot_path(repos_dir, project.name@, number)),
        }),
{
    if let Some(steps) = project.build_command {
        assert(steps.0.len() == steps.0@.len());
    }
    let steps = project.spec_build_steps();
    assert forall|k: int| 0 <= k < steps.len() && words(#[trigger] steps[k]).len() > 0 implies seq![
        words(steps[k])[0],
    ] + words(steps[k]).skip(1) == words(steps[k]) by {
        assert(seq![words(steps[k])[0]] + words(steps[k]).skip(1) =~= words(steps[k]));
    }
    lemma_marks(slots, number, j, StatusView::Building, None, now);
    let next = refresh_advanced(phase, project, repos_dir, number, now, slots, outcome);
    let blank = crate::handler::empty_step_error(project.name@).text();
    lemma_marks(slots, number, j, StatusView::Error, Some(blank), now);
    assert(marked(slots, j, StatusView::Error, Some(blank)) == with_status(
        slots,
        number,
        StatusView::Error,
        Some(blank),
    ));
    if let RefreshPhase::Building(k) = phase {
        if let Some(e) = build_fault(project.name@, steps[k as int], outcome) {
            lemma_marks(slots, number, j, StatusView::Error, Some(e.text()), now);
            assert(next.1 == marked(slots, j, StatusView::Error, Some(e.text())));
        }
    }
}

} // verus!
