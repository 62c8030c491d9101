//! Filling a pool and refreshing its slots, with commands that succeed or fail.
use aid::config::{ProjectConfig, Steps};
use aid::error::ServerError;
use aid::poll_loop::ChildExit;
use aid::pool::{
    advance_refresh, can_ensure_pool, clone_repo_command, ensure_pool, judge_build_step, judge_git, mark_refreshed,
    project_dir, refresh_slot, slot_dir, update_slot_status, CommandOutcome, PoolAction, PoolPhase,
    RefreshAction, RefreshPhase,
};
use aid::state::{ProjectState, ServerState, Slot, SlotId, SlotStatus};
use aid::time::Timestamp;

fn now() -> Timestamp {
    Timestamp::new(1_700_000_000, 0).expect("in range")
}

fn project(steps: &[&str]) -> ProjectConfig {
    ProjectConfig {
        name: "alpha".to_string(),
        repo_url: "https://example.com/alpha".to_string(),
        build_command: if steps.is_empty() {
            None
        } else {
            Some(Steps(steps.iter().map(|s| s.to_string()).collect()))
        },
        branch: Some("dev".to_string()),
        nslots: None,
        has_submodules: false,
    }
}

fn ended(success: bool, stderr: &str) -> CommandOutcome {
    CommandOutcome::Ended(ChildExit {
        success,
        stdout: vec![],
        stderr: stderr.as_bytes().to_vec(),
    })
}

fn slot(id: u32, status: SlotStatus) -> Slot {
    Slot { id: SlotId(id), status, last_refreshed: None, error_message: None }
}

fn state_with(slots: Vec<Slot>) -> ServerState {
    ServerState {
        projects: vec![("alpha".to_string(), ProjectState { slots })],
        last_updated: now(),
        pending_action: None,
    }
}

/// Fills a pool; `run` gives the outcome of each command. Returns the commands.
fn fill(
    project: &ProjectConfig,
    pool_size: u32,
    state: &mut ServerState,
    run: fn(&str) -> CommandOutcome,
) -> Vec<String> {
    let mut commands = vec![];
    let mut work = ensure_pool(project, pool_size, state);
    let mut action = work.resume(project, "/repos", now(), state);
    loop {
        match action {
            PoolAction::Done => return commands,
            PoolAction::Save => action = work.resume(project, "/repos", now(), state),
            PoolAction::Run(command) => {
                let line = format!("{} {}", command.program, command.args.join(" "));
                let outcome = run(&line);
                commands.push(line);
                action = work.command_ended(project, "/repos", now(), state, &outcome);
            }
        }
    }
}

#[test]
fn directories_of_slots_have_four_digits() {
    assert_eq!(project_dir("/repos", "alpha"), "/repos/alpha");
    assert_eq!(slot_dir("/repos", "alpha", 7), "/repos/alpha/0007");
    assert_eq!(slot_dir("/repos", "alpha", 12345), "/repos/alpha/12345");
    assert_eq!(slot_dir("/repos", "alpha", 0), "/repos/alpha/0000");
}

#[test]
fn an_empty_pool_is_filled() {
    let mut state = ServerState::new(now());
    let commands = fill(&project(&["make all", "make test"]), 2, &mut state, |_| ended(true, ""));
    assert_eq!(
        commands,
        vec![
            "git clone --branch dev https://example.com/alpha /repos/alpha/0000",
            "make all",
            "make test",
            "git clone --branch dev https://example.com/alpha /repos/alpha/0001",
            "make all",
            "make test",
        ]
    );
    let slots = &state.projects[0].1.slots;
    assert_eq!(slots.len(), 2);
    for s in slots {
        assert_eq!(s.status, SlotStatus::Ready);
        assert_eq!(s.last_refreshed, Some(now()));
        assert_eq!(s.error_message, None);
    }
}

#[test]
fn slots_in_error_and_under_way_count() {
    let mut state = state_with(vec![
        slot(4, SlotStatus::Error),
        slot(2, SlotStatus::Building),
        slot(3, SlotStatus::CheckedOut("x".to_string())),
    ]);
    let commands = fill(&project(&[]), 3, &mut state, |_| ended(true, ""));
    assert_eq!(
        commands,
        vec!["git clone --branch dev https://example.com/alpha /repos/alpha/0005"]
    );
    assert_eq!(state.projects[0].1.slots[3].id, SlotId(5));
    assert!(fill(&project(&[]), 3, &mut state, |_| ended(true, "")).is_empty());
}

#[test]
fn a_failed_clone_is_noted_and_the_next_slot_is_tried() {
    let mut state = ServerState::new(now());
    let commands = fill(&project(&["make"]), 2, &mut state, |line| {
        if line.ends_with("0000") {
            ended(false, "no network")
        } else {
            ended(true, "")
        }
    });
    assert_eq!(commands.len(), 3);
    let slots = &state.projects[0].1.slots;
    assert_eq!(slots[0].status, SlotStatus::Error);
    assert_eq!(
        slots[0].error_message.as_deref(),
        Some("git error: git clone failed for alpha: no network")
    );
    assert_eq!(slots[1].status, SlotStatus::Ready);
}

#[test]
fn a_failed_build_step_ends_the_build_of_a_slot() {
    let mut state = ServerState::new(now());
    let commands = fill(&project(&["make all", "make test"]), 1, &mut state, |line| {
        ended(!line.starts_with("make"), "no rule")
    });
    assert_eq!(commands.len(), 2);
    let slots = &state.projects[0].1.slots;
    assert_eq!(slots[0].status, SlotStatus::Error);
    assert_eq!(
        slots[0].error_message.as_deref(),
        Some("build error: build step `make all` failed for alpha: no rule")
    );
    assert_eq!(slots[0].last_refreshed, None);
}

#[test]
fn a_step_without_a_program_fails_the_build() {
    let mut state = ServerState::new(now());
    let commands = fill(&project(&["  "]), 1, &mut state, |_| ended(true, ""));
    assert_eq!(commands.len(), 1);
    assert_eq!(
        state.projects[0].1.slots[0].error_message.as_deref(),
        Some("build error: empty step in build_command for alpha")
    );
}

#[test]
fn a_command_that_cannot_be_run_fails() {
    let mut state = ServerState::new(now());
    fill(&project(&[]), 1, &mut state, |_| CommandOutcome::NotRun("no git".to_string()));
    assert_eq!(state.projects[0].1.slots[0].status, SlotStatus::Error);
    assert_eq!(state.projects[0].1.slots[0].error_message.as_deref(), Some("no git"));
}

#[test]
fn the_phases_of_a_new_slot() {
    let p = project(&["make"]);
    let mut state = ServerState::new(now());
    let mut work = ensure_pool(&p, 1, &mut state);
    assert_eq!((work.next, work.end, work.phase), (0, 1, PoolPhase::Idle));
    assert_eq!(work.resume(&p, "/r", now(), &mut state), PoolAction::Save);
    assert_eq!(work.phase, PoolPhase::ToClone(0));
    assert_eq!(state.projects[0].1.slots[0].status, SlotStatus::Cloning);
    assert!(matches!(work.resume(&p, "/r", now(), &mut state), PoolAction::Run(_)));
    assert_eq!(work.phase, PoolPhase::Cloning(0));
    let next = work.command_ended(&p, "/r", now(), &mut state, &ended(true, ""));
    assert_eq!(next, PoolAction::Save);
    assert_eq!(work.phase, PoolPhase::ToBuild(0, 0));
    assert_eq!(state.projects[0].1.slots[0].status, SlotStatus::Building);
    assert!(matches!(work.resume(&p, "/r", now(), &mut state), PoolAction::Run(_)));
    assert_eq!(work.phase, PoolPhase::Building(0, 0));
    let next = work.command_ended(&p, "/r", now(), &mut state, &ended(true, ""));
    assert_eq!(next, PoolAction::Save);
    assert_eq!(work.phase, PoolPhase::Idle);
    assert_eq!(work.resume(&p, "/r", now(), &mut state), PoolAction::Done);
}

/// Refreshes slot 3; `run` gives the outcome of each command.
fn refresh(
    project: &ProjectConfig,
    pool: &mut ProjectState,
    run: fn(&str) -> CommandOutcome,
) -> (Vec<String>, Result<(), ServerError>) {
    let mut commands = vec![];
    let (mut phase, mut action) = refresh_slot("/repos", project, 3);
    loop {
        match action {
            RefreshAction::Stop(result) => return (commands, result),
            RefreshAction::Run(command) => {
                assert_eq!(command.current_dir.as_deref(), Some("/repos/alpha/0003"));
                let line = format!("{} {}", command.program, command.args.join(" "));
                let outcome = run(&line);
                commands.push(line);
                (phase, action) =
                    advance_refresh(phase, "/repos", project, pool, 3, now(), &outcome);
            }
        }
    }
}

#[test]
fn a_refresh_fetches_resets_and_builds() {
    let mut pool = ProjectState { slots: vec![slot(3, SlotStatus::Error)] };
    let (commands, result) = refresh(&project(&["make"]), &mut pool, |_| ended(true, ""));
    assert_eq!(commands, vec!["git fetch origin", "git reset --hard origin/dev", "make "]);
    assert_eq!(result, Ok(()));
    assert_eq!(pool.slots[0].status, SlotStatus::Ready);
    assert_eq!(pool.slots[0].last_refreshed, Some(now()));
}

#[test]
fn a_refresh_that_git_fails_leaves_the_slot_alone() {
    let mut pool = ProjectState { slots: vec![slot(3, SlotStatus::Ready)] };
    let (_, result) = refresh(&project(&[]), &mut pool, |_| ended(false, "offline"));
    assert_eq!(result, Err(ServerError::Git("git fetch failed: offline".to_string())));
    let (_, result) = refresh(&project(&[]), &mut pool, |line| {
        ended(line == "git fetch origin", "gone")
    });
    assert_eq!(result, Err(ServerError::Git("git reset failed: gone".to_string())));
    let (_, result) =
        refresh(&project(&[]), &mut pool, |_| CommandOutcome::NotRun("no git".to_string()));
    assert_eq!(result, Err(ServerError::Io("no git".to_string())));
    assert_eq!(pool.slots[0].status, SlotStatus::Ready);
    assert_eq!(pool.slots[0].last_refreshed, None);
}

#[test]
fn a_build_that_fails_during_a_refresh_is_noted() {
    let mut pool = ProjectState { slots: vec![slot(3, SlotStatus::Ready)] };
    let (commands, result) = refresh(&project(&["make", " "]), &mut pool, |line| {
        ended(!line.starts_with("make"), "oops")
    });
    assert_eq!(commands.len(), 3);
    assert_eq!(result, Ok(()));
    assert_eq!(pool.slots[0].status, SlotStatus::Error);
    assert_eq!(
        pool.slots[0].error_message.as_deref(),
        Some("build error: build step `make` failed for alpha: oops")
    );
    let (_, result) = refresh(&project(&["make", " "]), &mut pool, |_| ended(true, ""));
    assert_eq!(result, Ok(()));
    assert_eq!(
        pool.slots[0].error_message.as_deref(),
        Some("build error: empty step in build_command for alpha")
    );
}

#[test]
fn a_refresh_starts_with_a_fetch() {
    let (phase, _) = refresh_slot("/repos", &project(&[]), 0);
    assert_eq!(phase, RefreshPhase::Fetching);
}

#[test]
fn the_first_slot_of_a_number_is_updated() {
    let mut pool = ProjectState {
        slots: vec![slot(1, SlotStatus::Cloning), slot(2, SlotStatus::Cloning)],
    };
    update_slot_status(&mut pool, 2, SlotStatus::Error, Some("x".to_string()));
    assert_eq!(pool.slots[0].status, SlotStatus::Cloning);
    assert_eq!(pool.slots[1].status, SlotStatus::Error);
    assert_eq!(pool.slots[1].error_message.as_deref(), Some("x"));
    update_slot_status(&mut pool, 9, SlotStatus::Ready, None);
    assert_eq!(pool.slots[1].status, SlotStatus::Error);
    mark_refreshed(&mut pool, 1, now());
    assert_eq!(pool.slots[0].last_refreshed, Some(now()));
    assert_eq!(pool.slots[1].last_refreshed, None);
}

#[test]
fn commands_are_judged_by_their_outcome() {
    assert_eq!(judge_git("git x failed", &ended(true, "noise")), Ok(()));
    assert_eq!(
        judge_git("git x failed", &ended(false, "why")),
        Err(ServerError::Git("git x failed: why".to_string()))
    );
    assert_eq!(judge_build_step("p", "make", &ended(true, "")), Ok(()));
    assert_eq!(
        judge_build_step("p", "make", &CommandOutcome::NotRun("gone".to_string())),
        Err(ServerError::Io("gone".to_string()))
    );
    assert_eq!(clone_repo_command(&project(&[]), "/d").args[4], "/d");
}

#[test]
fn filling_needs_numbers_for_all_new_slots() {
    let p = project(&[]);
    assert!(can_ensure_pool(&p, u32::MAX, &ServerState::new(now())));
    let near_the_end = state_with(vec![slot(u32::MAX - 2, SlotStatus::Ready)]);
    assert!(can_ensure_pool(&p, 3, &near_the_end));
    assert!(!can_ensure_pool(&p, 4, &near_the_end));
    let at_the_end = state_with(vec![slot(u32::MAX, SlotStatus::Ready)]);
    assert!(!can_ensure_pool(&p, 0, &at_the_end));
}

#[test]
fn a_pool_has_its_size_even_where_every_command_fails() {
    let mut state = ServerState::new(now());
    fill(&project(&["make"]), 3, &mut state, |_| ended(false, "no"));
    assert_eq!(state.projects[0].1.slots.len(), 3);
    assert!(state.projects[0].1.slots.iter().all(|s| s.status == SlotStatus::Error));
}
