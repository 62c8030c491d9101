//! The scheduler, the outcomes of its actions, and their commands.
use aid::api::{Envelope, ListFilter, Request, Response};
use aid::config::{Config, ProjectConfig, Steps};
use aid::error::ServerError;
use aid::handler::{
    clone_dest, complete, finish, has_slot_numbers_left, parse_build_step, step, to_command,
    AidHandler,
};
use aid::poll_loop::ChildExit;
use aid::requests::TreeCheck;
use aid::state::{
    Paths, PendingAction, ProjectId, ProjectState, ServerState, Slot, SlotId, SlotStatus, StepId,
};
use aid::time::Timestamp;

fn project(name: &str, nslots: u32, has_submodules: bool) -> ProjectConfig {
    ProjectConfig {
        name: name.to_string(),
        repo_url: format!("https://example.com/{name}"),
        build_command: None,
        branch: None,
        nslots: Some(nslots),
        has_submodules,
    }
}

/// Two projects: the first has submodules.
fn load_test_config() -> Config {
    Config {
        nslots: None,
        refresh_interval_secs: None,
        projects: vec![project("alpha", 3, true), project("beta", 2, false)],
    }
}

fn building(steps: &[&str]) -> Config {
    let mut p = project("built", 1, false);
    p.build_command = Some(Steps(steps.iter().map(|s| s.to_string()).collect()));
    Config { nslots: None, refresh_interval_secs: None, projects: vec![p] }
}

fn at(secs: i64) -> Timestamp {
    Timestamp::new(secs, 0).expect("in range")
}

fn success() -> ChildExit {
    ChildExit { success: true, stdout: vec![], stderr: vec![] }
}

fn failure(stderr: &[u8]) -> ChildExit {
    ChildExit { success: false, stdout: vec![], stderr: stderr.to_vec() }
}

fn simulate_success(state: &mut ServerState, config: &Config, now: Timestamp) {
    complete(now, state, config, &success())
        .expect("complete should not fail in step sequence test");
}

fn slot(id: u32, status: SlotStatus) -> Slot {
    Slot { id: SlotId(id), status, last_refreshed: None, error_message: None }
}

fn state_with(slots: Vec<Slot>, pending: Option<PendingAction>) -> ServerState {
    ServerState {
        projects: vec![("alpha".to_string(), ProjectState { slots })],
        last_updated: at(0),
        pending_action: pending,
    }
}

#[test]
fn step_sequence_from_empty_state() {
    let config = load_test_config();
    let now = at(1_700_000_000);
    let mut state = ServerState::new(now);

    let expected = [
        // Initial clone wave
        PendingAction::Clone(ProjectId(0), SlotId(0)),
        PendingAction::Clone(ProjectId(0), SlotId(1)),
        PendingAction::Clone(ProjectId(0), SlotId(2)),
        PendingAction::CloneSubmodules(ProjectId(0), SlotId(0)),
        PendingAction::CloneSubmodules(ProjectId(0), SlotId(1)),
        PendingAction::CloneSubmodules(ProjectId(0), SlotId(2)),
        PendingAction::Clone(ProjectId(1), SlotId(0)),
        PendingAction::Clone(ProjectId(1), SlotId(1)),
        // Update wave (last_refreshed=None so all slots are immediately stale)
        // project 0 has_submodules=true: Update -> UpdatingSubmodules -> UpdateSubmodules -> Ready
        PendingAction::Update(ProjectId(0), SlotId(0)),
        PendingAction::Update(ProjectId(0), SlotId(1)),
        PendingAction::Update(ProjectId(0), SlotId(2)),
        PendingAction::UpdateSubmodules(ProjectId(0), SlotId(0)),
        PendingAction::UpdateSubmodules(ProjectId(0), SlotId(1)),
        PendingAction::UpdateSubmodules(ProjectId(0), SlotId(2)),
        // project 1 has no submodules: Update -> Ready directly
        PendingAction::Update(ProjectId(1), SlotId(0)),
        PendingAction::Update(ProjectId(1), SlotId(1)),
    ];

    for (step_num, want) in expected.into_iter().enumerate() {
        let action = step(now, &mut state, &config)
            .unwrap_or_else(|| panic!("step {step_num}: expected action, got None"));
        assert_eq!(action, want, "step {step_num}");
        simulate_success(&mut state, &config, now);
    }

    assert!(step(now, &mut state, &config).is_none(), "all pools full: expected None");

    for (name, p) in &state.projects {
        for s in p.slots.iter() {
            assert_eq!(s.status, SlotStatus::Ready, "project '{name}' slot {:?}", s.id);
            assert!(
                s.last_refreshed.is_some(),
                "project '{name}' slot {:?} should have last_refreshed set",
                s.id
            );
        }
    }
}

#[test]
fn no_action_starts_while_one_is_under_way() {
    let config = load_test_config();
    let mut state = ServerState::new(at(0));
    let first = step(at(0), &mut state, &config);
    assert_eq!(first, Some(PendingAction::Clone(ProjectId(0), SlotId(0))));
    assert_eq!(state.pending_action, first);
    assert_eq!(step(at(0), &mut state, &config), None);
    assert_eq!(state.pending_action, first);
    assert_eq!(state.projects[0].1.slots.len(), 1);
}

#[test]
fn ready_slots_are_updated_once_they_are_stale() {
    let config = Config {
        nslots: Some(1),
        refresh_interval_secs: Some(60),
        projects: vec![project("alpha", 1, false)],
    };
    let mut state = state_with(vec![slot(0, SlotStatus::Ready)], None);
    state.projects[0].1.slots[0].last_refreshed = Some(at(1000));
    assert_eq!(step(at(1059), &mut state, &config), None);
    assert_eq!(
        step(at(1060), &mut state, &config),
        Some(PendingAction::Update(ProjectId(0), SlotId(0)))
    );
    assert_eq!(state.projects[0].1.slots[0].status, SlotStatus::Updating);
    simulate_success(&mut state, &config, at(1061));
    assert_eq!(state.projects[0].1.slots[0].status, SlotStatus::Ready);
    assert_eq!(state.projects[0].1.slots[0].last_refreshed, Some(at(1061)));
    assert_eq!(step(at(1061), &mut state, &config), None);
}

#[test]
fn an_interval_beyond_the_signed_range_makes_every_slot_stale() {
    let config = Config {
        nslots: Some(1),
        refresh_interval_secs: Some(u64::MAX),
        projects: vec![project("alpha", 1, false)],
    };
    let mut state = state_with(vec![slot(0, SlotStatus::Ready)], None);
    state.projects[0].1.slots[0].last_refreshed = Some(at(1000));
    assert_eq!(
        step(at(1000), &mut state, &config),
        Some(PendingAction::Update(ProjectId(0), SlotId(0)))
    );
}

#[test]
fn build_steps_run_in_order() {
    let config = building(&["make build", "make test"]);
    let mut state = ServerState::new(at(0));
    let expected = [
        PendingAction::Clone(ProjectId(0), SlotId(0)),
        PendingAction::Update(ProjectId(0), SlotId(0)),
        PendingAction::Build(ProjectId(0), SlotId(0), StepId(0)),
        PendingAction::Build(ProjectId(0), SlotId(0), StepId(1)),
    ];
    let statuses = [
        SlotStatus::Cloned,
        SlotStatus::WaitingToBuild,
        SlotStatus::Built(StepId(0)),
        SlotStatus::Ready,
    ];
    for (want, status) in expected.into_iter().zip(statuses) {
        assert_eq!(step(at(5), &mut state, &config), Some(want));
        simulate_success(&mut state, &config, at(5));
        assert_eq!(state.projects[0].1.slots[0].status, status);
    }
    assert_eq!(state.projects[0].1.slots[0].last_refreshed, Some(at(5)));
    assert_eq!(step(at(5), &mut state, &config), None);
}

#[test]
fn a_failed_build_step_stops_the_build() {
    let config = building(&["make build", "make test"]);
    let mut state = ServerState::new(at(0));
    for _ in 0..2 {
        assert!(step(at(0), &mut state, &config).is_some());
        simulate_success(&mut state, &config, at(0));
    }
    assert_eq!(
        step(at(0), &mut state, &config),
        Some(PendingAction::Build(ProjectId(0), SlotId(0), StepId(0)))
    );
    complete(at(0), &mut state, &config, &failure(b"no rule\n")).expect("consistent");
    let broken = &state.projects[0].1.slots[0];
    assert_eq!(broken.status, SlotStatus::Error);
    assert_eq!(broken.error_message.as_deref(), Some("no rule\n"));
    // The slot counts, so that no other is cloned, and no work is done on it.
    assert_eq!(step(at(0), &mut state, &config), None);
}

#[test]
fn failures_keep_what_the_command_wrote() {
    let config = load_test_config();
    let mut state = ServerState::new(at(0));
    step(at(0), &mut state, &config);
    complete(at(0), &mut state, &config, &failure(b"fatal: \xff!\n")).expect("consistent");
    let broken = &state.projects[0].1.slots[0];
    assert_eq!(broken.status, SlotStatus::Error);
    assert_eq!(broken.error_message.as_deref(), Some("fatal: \u{fffd}!\n"));
    assert_eq!(state.pending_action, None);
}

#[test]
fn an_exit_without_an_action_is_an_error() {
    let config = load_test_config();
    let mut state = ServerState::new(at(0));
    assert_eq!(
        complete(at(0), &mut state, &config, &success()),
        Err(ServerError::Pool("child exited but no pending action was recorded".to_string()))
    );
}

#[test]
fn an_action_for_no_project_is_an_error() {
    let config = load_test_config();
    let mut state = state_with(vec![], Some(PendingAction::Clone(ProjectId(7), SlotId(0))));
    assert_eq!(
        complete(at(0), &mut state, &config, &success()),
        Err(ServerError::Pool("no project at index 7".to_string()))
    );
    assert_eq!(state.pending_action, None);
}

#[test]
fn an_action_for_an_unknown_pool_is_an_error() {
    let config = load_test_config();
    let mut state = state_with(vec![], Some(PendingAction::Clone(ProjectId(1), SlotId(0))));
    assert_eq!(
        complete(at(0), &mut state, &config, &success()),
        Err(ServerError::Pool("no state for project 'beta'".to_string()))
    );
}

#[test]
fn an_action_for_no_slot_is_an_error() {
    let config = load_test_config();
    let mut state = state_with(vec![], Some(PendingAction::Clone(ProjectId(0), SlotId(12))));
    assert_eq!(
        complete(at(0), &mut state, &config, &success()),
        Err(ServerError::Pool("no slot 12 in project 'alpha'".to_string()))
    );
}

#[test]
fn an_action_that_does_not_fit_the_slot_is_an_error() {
    let config = load_test_config();
    let cases = [
        (
            SlotStatus::Ready,
            PendingAction::Clone(ProjectId(0), SlotId(0)),
            "illegal transition: state=Ready, action=Clone(ProjectId(0), SlotId(0))",
        ),
        (
            SlotStatus::CheckedOut("a\"b".to_string()),
            PendingAction::UpdateSubmodules(ProjectId(0), SlotId(0)),
            "illegal transition: state=CheckedOut(\"a\\\"b\"), \
             action=UpdateSubmodules(ProjectId(0), SlotId(0))",
        ),
        (
            SlotStatus::Built(StepId(3)),
            PendingAction::Build(ProjectId(0), SlotId(0), StepId(4)),
            "illegal transition: state=Built(StepId(3)), \
             action=Build(ProjectId(0), SlotId(0), StepId(4))",
        ),
    ];
    for (status, action, message) in cases {
        let mut state = state_with(vec![slot(0, status.clone())], Some(action));
        assert_eq!(
            complete(at(0), &mut state, &config, &success()),
            Err(ServerError::Pool(message.to_string()))
        );
        assert_eq!(state.projects[0].1.slots[0].status, status);
        assert_eq!(state.pending_action, None);
    }
}

#[test]
fn finishing_takes_the_message_as_it_is() {
    let config = load_test_config();
    let mut state = ServerState::new(at(0));
    step(at(0), &mut state, &config);
    finish(at(0), &mut state, &config, false, &"broken".to_string()).expect("consistent");
    assert_eq!(state.projects[0].1.slots[0].error_message.as_deref(), Some("broken"));
}

#[test]
fn actions_become_git_commands() {
    let mut config = load_test_config();
    config.projects[1].branch = Some("dev".to_string());
    let p = ProjectId(1);
    let s = SlotId(4);
    let run = |action: PendingAction| to_command(&config, "/data/repos", &action).expect("command");

    let clone = run(PendingAction::Clone(p, s));
    assert_eq!(clone.program, "git");
    assert_eq!(
        clone.args,
        vec!["clone", "--branch", "dev", "https://example.com/beta", "/data/repos/beta/4"]
    );
    assert_eq!(clone.current_dir, None);

    let submodules = run(PendingAction::CloneSubmodules(p, s));
    assert_eq!(submodules.args, vec!["submodule", "update", "--init", "--recursive"]);
    assert_eq!(submodules.current_dir.as_deref(), Some("/data/repos/beta/4"));

    let update = run(PendingAction::Update(p, s));
    assert_eq!(update.args, vec!["pull", "--ff-only"]);
    assert_eq!(update.current_dir.as_deref(), Some("/data/repos/beta/4"));

    let update_submodules = run(PendingAction::UpdateSubmodules(p, s));
    assert_eq!(update_submodules.args, vec!["submodule", "update", "--recursive"]);
    assert_eq!(update_submodules.program, "git");
}

#[test]
fn build_steps_are_split_into_words() {
    let config = building(&["  make\t-j 4  all\n", "   "]);
    let run = |k: usize| {
        to_command(
            &config,
            "/data/repos",
            &PendingAction::Build(ProjectId(0), SlotId(0), StepId(k)),
        )
    };
    let command = run(0).expect("command");
    assert_eq!(command.program, "make");
    assert_eq!(command.args, vec!["-j", "4", "all"]);
    assert_eq!(command.current_dir.as_deref(), Some("/data/repos/built/0"));
    assert_eq!(
        run(1),
        Err(ServerError::Build("empty step in build_command for built".to_string()))
    );
    assert_eq!(
        parse_build_step("p", "cargo build", "/d").expect("command").args,
        vec!["build"]
    );
}

#[test]
fn clones_go_to_a_directory_of_the_project() {
    assert_eq!(clone_dest("/data/repos", "alpha", SlotId(12)), "/data/repos/alpha/12");
    assert_eq!(clone_dest("/data/repos/", "alpha", SlotId(0)), "/data/repos/alpha/0");
}

fn paths() -> Paths {
    Paths::new("/config", "/data")
}

#[test]
fn an_idle_handler_proposes_the_next_command() {
    let paths = paths();
    let config = building(&["make"]);
    let mut handler = AidHandler::new(config, ServerState::new(at(0)), &paths);
    assert!(handler.can_idle());
    let command = handler.on_idle(at(0)).expect("command");
    assert_eq!(command.args[4], "/data/repos/built/0");
    assert!(handler.on_idle(at(0)).is_none());
    handler.handle_child_exit(at(0), &success()).expect("consistent");
    assert_eq!(handler.state.projects[0].1.slots[0].status, SlotStatus::Cloned);
    assert_eq!(
        handler.handle_child_exit(at(0), &success()),
        Err(ServerError::Pool("child exited but no pending action was recorded".to_string()))
    );
}

#[test]
fn a_blank_build_step_fails_on_the_spot() {
    let paths = paths();
    let mut handler = AidHandler::new(building(&[" "]), ServerState::new(at(0)), &paths);
    for _ in 0..2 {
        assert!(handler.on_idle(at(0)).is_some());
        handler.handle_child_exit(at(0), &success()).expect("consistent");
    }
    assert!(handler.on_idle(at(0)).is_none());
    let broken = &handler.state.projects[0].1.slots[0];
    assert_eq!(broken.status, SlotStatus::Error);
    assert_eq!(
        broken.error_message.as_deref(),
        Some("build error: empty step in build_command for built")
    );
    assert_eq!(handler.state.pending_action, None);
}

#[test]
fn slot_numbers_can_run_out() {
    let config = load_test_config();
    let full = state_with(vec![slot(u32::MAX, SlotStatus::Ready)], None);
    assert!(!has_slot_numbers_left(&full, &config));
    let last = state_with(vec![slot(u32::MAX - 1, SlotStatus::Ready)], None);
    assert!(has_slot_numbers_left(&last, &config));
    let paths = paths();
    let mut handler = AidHandler::new(load_test_config(), full, &paths);
    assert!(!handler.can_idle());
    handler.state.pending_action = Some(PendingAction::Clone(ProjectId(0), SlotId(0)));
    assert!(handler.can_idle());
}

#[test]
fn only_the_next_slot_needs_a_number() {
    let config = load_test_config();
    let full = ProjectState { slots: vec![slot(u32::MAX, SlotStatus::Ready)] };
    let mut state = state_with(vec![], None);
    state.projects.push(("beta".to_string(), full));
    assert!(has_slot_numbers_left(&state, &config));
    assert_eq!(
        step(at(0), &mut state, &config),
        Some(PendingAction::Clone(ProjectId(0), SlotId(0)))
    );

    // The submodules of the first project come before the slots of the second.
    state.pending_action = None;
    state.projects[0].1.slots =
        vec![slot(0, SlotStatus::Ready), slot(1, SlotStatus::Cloned), slot(2, SlotStatus::Ready)];
    assert!(has_slot_numbers_left(&state, &config));
    assert_eq!(
        step(at(0), &mut state, &config),
        Some(PendingAction::CloneSubmodules(ProjectId(0), SlotId(1)))
    );

    state.pending_action = None;
    assert!(!has_slot_numbers_left(&state, &config));
}

#[test]
fn a_step_changes_one_slot() {
    let config = load_test_config();
    let mut state = ServerState::new(at(7));
    loop {
        let before = state.clone();
        let started = step(at(1_700_000_000), &mut state, &config);
        assert_eq!(state.last_updated, at(7));
        let mut added = 0;
        let mut changed = 0;
        for (k, (name, pool)) in state.projects.iter().enumerate() {
            let had: &[Slot] = match before.projects.get(k) {
                Some((n, p)) => {
                    assert_eq!(n, name);
                    &p.slots
                }
                None => &[],
            };
            added += pool.slots.len() - had.len();
            for (was, is) in had.iter().zip(&pool.slots) {
                assert_eq!(was.id, is.id);
                assert_eq!(was.last_refreshed, is.last_refreshed);
                assert_eq!(was.error_message, is.error_message);
                if was.status != is.status {
                    changed += 1;
                }
            }
        }
        match started {
            Some(PendingAction::Clone(_, _)) => assert_eq!((added, changed), (1, 0)),
            Some(_) => assert!(added == 0 && changed <= 1),
            None => {
                assert_eq!((added, changed), (0, 0));
                return;
            }
        }
        simulate_success(&mut state, &config, at(1_700_000_000));
    }
}

#[test]
fn a_step_that_starts_nothing_adds_empty_pools() {
    let config = Config {
        nslots: None,
        refresh_interval_secs: None,
        projects: vec![project("alpha", 0, false), project("beta", 0, false)],
    };
    let mut state = state_with(vec![slot(0, SlotStatus::Error)], None);
    assert_eq!(step(at(0), &mut state, &config), None);
    assert_eq!(state.projects.len(), 2);
    assert_eq!(state.projects[0].1.slots.len(), 1);
    assert_eq!(state.projects[1].0, "beta");
    assert!(state.projects[1].1.slots.is_empty());
}

#[test]
fn every_action_that_starts_can_end() {
    let config = load_test_config();
    let mut state = ServerState::new(at(0));
    while step(at(1), &mut state, &config).is_some() {
        for exit in [failure(b"no"), success()] {
            let mut ended = state.clone();
            assert!(complete(at(2), &mut ended, &config, &exit).is_ok());
            assert_eq!(ended.pending_action, None);
            for (_, pool) in &ended.projects {
                for (k, s) in pool.slots.iter().enumerate() {
                    assert_eq!(s.id, SlotId(k as u32));
                }
            }
        }
        simulate_success(&mut state, &config, at(2));
    }
}

#[test]
fn a_handler_answers_messages() {
    let paths = paths();
    let mut handler = AidHandler::new(
        load_test_config(),
        state_with(vec![slot(0, SlotStatus::Ready)], None),
        &paths,
    );
    let message = Envelope {
        version: 1,
        request_id: "7".to_string(),
        content: Request::List { filter: ListFilter::All },
    };
    assert_eq!(handler.tree_to_inspect(&message), None);
    let answer = handler.handle_message(&message, &TreeCheck::Clean);
    assert_eq!(answer.request_id, "7");
    match answer.content {
        Response::List(list) => {
            assert_eq!(list.slots.len(), 1);
            assert_eq!(list.slots[0].path.as_deref(), Some("/data/repos/alpha/0"));
        }
        other => panic!("expected List, got {other:?}"),
    }
}

#[test]
fn pools_are_complete_even_where_every_command_fails() {
    let config = load_test_config();
    let mut state = ServerState::new(at(0));
    let mut rounds = 0;
    while step(at(0), &mut state, &config).is_some() {
        complete(at(0), &mut state, &config, &failure(b"no")).expect("consistent");
        rounds += 1;
    }
    assert_eq!(rounds, 5);
    assert_eq!(state.projects[0].1.slots.len(), 3);
    assert_eq!(state.projects[1].1.slots.len(), 2);
    for (_, pool) in &state.projects {
        assert!(pool.slots.iter().all(|s| s.status == SlotStatus::Error));
    }
}

#[test]
fn checkouts_are_left_alone() {
    let config = load_test_config();
    let mut state = state_with(vec![slot(0, SlotStatus::CheckedOut("mine".to_string()))], None);
    while step(at(0), &mut state, &config).is_some() {
        simulate_success(&mut state, &config, at(0));
    }
    let slots = &state.projects[0].1.slots;
    assert_eq!(slots.len(), 4);
    assert_eq!(slots[0].status, SlotStatus::CheckedOut("mine".to_string()));
    assert_eq!(slots[0].last_refreshed, None);
}

#[test]
fn slots_are_found_by_their_number() {
    let config = load_test_config();
    let action = PendingAction::Clone(ProjectId(0), SlotId(7));
    let mut state = state_with(
        vec![slot(3, SlotStatus::Ready), slot(7, SlotStatus::Cloning)],
        Some(action),
    );
    simulate_success(&mut state, &config, at(0));
    assert_eq!(state.projects[0].1.slots[0].status, SlotStatus::Ready);
    assert_eq!(state.projects[0].1.slots[1].status, SlotStatus::Cloned);
    // Without a slot of that number, the position decides.
    let action = PendingAction::Clone(ProjectId(0), SlotId(0));
    let mut state = state_with(vec![slot(5, SlotStatus::Cloning)], Some(action));
    simulate_success(&mut state, &config, at(0));
    assert_eq!(state.projects[0].1.slots[0].status, SlotStatus::Cloned);
}
