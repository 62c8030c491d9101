//! Text, time, paths, configuration, state, errors, the lock and the status protocol.
use aid::api::SlotStatusSummary;
use aid::client::{connect_error, frame_request, unframe_response};
use aid::command::owned;
use aid::config::{validate_config, validate_project, Config, ProjectConfig, Steps};
use aid::error::ServerError;
use aid::path::join;
use aid::server::{judge_lock, lock_contents, lock_holder, probe_command, LockAction};
use aid::socket::{dispatch, handle_list_projects, invalid_request, Reply, Request, Response};
use aid::state::{
    Paths, PendingAction, ProjectId, ProjectState, ServerState, Slot, SlotId, SlotStatus, StepId,
};
use aid::text::{
    pad_right, parse_u32, split_words, strip_prefix_or_self, to_decimal, trim, trim_newlines,
    zero_padded,
};
use aid::time::{Timestamp, MAX_SECS, MIN_SECS};

fn at(secs: i64, nanos: u32) -> Timestamp {
    Timestamp::new(secs, nanos).expect("in range")
}

fn project(name: &str, repo_url: &str) -> ProjectConfig {
    ProjectConfig {
        name: name.to_string(),
        repo_url: repo_url.to_string(),
        build_command: None,
        branch: None,
        nslots: None,
        has_submodules: false,
    }
}

fn slot(id: u32, status: SlotStatus) -> Slot {
    Slot { id: SlotId(id), status, last_refreshed: None, error_message: None }
}

#[test]
fn numbers_are_written_in_decimal() {
    for n in [0u64, 7, 10, 1999, u64::MAX] {
        assert_eq!(to_decimal(n), n.to_string());
    }
    assert_eq!(zero_padded(7, 4), "0007");
    assert_eq!(zero_padded(12345, 4), "12345");
    assert_eq!(pad_right("ab", 4), "ab  ");
    assert_eq!(pad_right("\u{e9}\u{e9}", 3), format!("{:<3}", "\u{e9}\u{e9}"));
    assert_eq!(pad_right("abcde", 4), "abcde");
}

#[test]
fn numbers_are_read_as_the_standard_library_reads_them() {
    for s in [
        "0", "42", "+7", "007", "4294967295", "4294967296", "99999999999999999999", "", "+", "-1",
        "1 2", " 1", "1a", "++1", "\u{0661}",
    ] {
        assert_eq!(parse_u32(s), s.parse::<u32>().ok(), "{s:?}");
    }
}

#[test]
fn white_space_is_trimmed_as_the_standard_library_trims_it() {
    for s in ["", "  ", " a b\t\n", "\u{a0}\u{3000}x\u{2028}", "\u{200b}y\u{200b}", "\u{85}z"] {
        assert_eq!(trim(s), s.trim(), "{s:?}");
    }
    for s in ["", "\n", "a\n\n", "a\nb", "a\r\n"] {
        assert_eq!(trim_newlines(s), s.trim_end_matches('\n'), "{s:?}");
    }
}

#[test]
fn words_are_split_as_the_standard_library_splits_them() {
    for s in ["", "  ", "make", " make  -j4\tall\n", "a\u{b}b\u{c}c", "x\u{a0}y"] {
        let want: Vec<&str> = s.split_ascii_whitespace().collect();
        assert_eq!(split_words(s), want, "{s:?}");
    }
}

#[test]
fn prefixes_are_stripped_where_they_stand() {
    assert_eq!(strip_prefix_or_self("/home/u/x", "/home/u"), "/x");
    assert_eq!(strip_prefix_or_self("/data/x", "/home/u"), "/data/x");
    assert_eq!(strip_prefix_or_self("/h", "/home"), "/h");
    assert_eq!(strip_prefix_or_self("abc", ""), "abc");
}

#[test]
fn paths_are_joined() {
    let by_std = |a: &str, b: &str| {
        std::path::Path::new(a).join(b).to_str().expect("utf-8").to_string()
    };
    for (a, b) in [("/a", "b"), ("/a/", "b"), ("", "b"), ("/a", "/b"), ("a", ""), ("/", "x")] {
        assert_eq!(join(a, b), by_std(a, b), "{a:?} {b:?}");
    }
    let paths = Paths::new("/c", "/d");
    assert_eq!(paths.config_file, "/c/config.toml");
    assert_eq!(paths.state_file, "/d/state.json");
    assert_eq!(paths.lock_file, "/d/server.lock");
    assert_eq!(paths.socket_file, "/d/server.sock");
    assert_eq!(paths.repos_dir, "/d/repos");
    assert_eq!(paths.data_dir, "/d");
}

#[test]
fn time_between_instants_is_rounded_toward_zero() {
    assert_eq!(at(10, 0).seconds_since(&at(4, 0)), 6);
    assert_eq!(at(10, 0).seconds_since(&at(4, 1)), 5);
    assert_eq!(at(4, 1).seconds_since(&at(10, 0)), -5);
    assert_eq!(at(4, 0).seconds_since(&at(10, 0)), -6);
    assert_eq!(at(4, 999_999_999).seconds_since(&at(5, 0)), 0);
    assert_eq!(at(7, 5).seconds_since(&at(7, 5)), 0);
    assert_eq!(
        at(MAX_SECS, 999_999_999).seconds_since(&at(MIN_SECS, 0)),
        MAX_SECS - MIN_SECS
    );
    assert_eq!(
        at(MIN_SECS, 0).seconds_since(&at(MAX_SECS, 999_999_999)),
        MIN_SECS - MAX_SECS
    );
}

#[test]
fn instants_have_a_range() {
    assert!(Timestamp::new(MIN_SECS - 1, 0).is_none());
    assert!(Timestamp::new(MAX_SECS + 1, 0).is_none());
    assert!(Timestamp::new(0, 1_000_000_000).is_none());
    for secs in [-121, -61, -60, -1, 0, 58, 59, 60, 119, MIN_SECS, MIN_SECS + 59, MAX_SECS] {
        for nanos in [0, 999_999_999, 1_000_000_000, 1_999_999_999, 2_000_000_000] {
            assert_eq!(
                Timestamp::new(secs, nanos).is_some(),
                chrono::DateTime::from_timestamp(secs, nanos).is_some(),
                "{secs} {nanos}"
            );
        }
    }
    assert_eq!(at(5, 6).secs(), 5);
    assert_eq!(at(5, 6).nanos(), 6);
    assert!(chrono::DateTime::from_timestamp(MIN_SECS - 1, 0).is_none());
    assert!(chrono::DateTime::from_timestamp(MAX_SECS + 1, 0).is_none());
}

#[test]
fn instants_are_written_in_rfc_3339() {
    assert_eq!(at(0, 0).to_rfc3339(), "1970-01-01T00:00:00+00:00");
    assert_eq!(at(1_700_000_000, 500_000_000).to_rfc3339(), "2023-11-14T22:13:20.500+00:00");
    assert!(at(MIN_SECS, 0).to_rfc3339().starts_with("-262143-01-01T00:00:00"));
    assert!(at(MAX_SECS, 0).to_rfc3339().starts_with("+262142-12-31T23:59:59"));
}

#[test]
fn settings_have_defaults() {
    let config = Config::default();
    let p = project("p", "u");
    assert_eq!(config.nslots(&p), 2);
    assert_eq!(config.effective_refresh_interval(), 1800);
    assert_eq!(p.effective_branch(), "main");
    assert_eq!(p.build_step_count(), 0);
    assert!(config.projects.is_empty());
}

#[test]
fn settings_of_the_project_come_first() {
    let config =
        Config { nslots: Some(5), refresh_interval_secs: Some(60), projects: vec![] };
    let mut p = project("p", "u");
    assert_eq!(config.nslots(&p), 5);
    p.nslots = Some(0);
    assert_eq!(config.nslots(&p), 0);
    assert_eq!(config.effective_refresh_interval(), 60);
    p.branch = Some("dev".to_string());
    assert_eq!(p.effective_branch(), "dev");
    p.build_command = Some(Steps(vec!["a".to_string(), "b".to_string()]));
    assert_eq!(p.build_step_count(), 2);
    assert_eq!(p.build_step(1), "b");
}

#[test]
fn projects_need_a_name_and_a_repository() {
    assert_eq!(validate_project(&project("p", "u")), Ok(()));
    let nameless = ServerError::Config("project name is required".to_string());
    let homeless = ServerError::Config("repo_url is required for project 'p'".to_string());
    assert_eq!(validate_project(&project("", "")), Err(nameless.clone()));
    assert_eq!(validate_project(&project("p", "")), Err(homeless.clone()));
    let mut config = Config {
        nslots: None,
        refresh_interval_secs: None,
        projects: vec![project("p", "u"), project("p", ""), project("", "u")],
    };
    assert_eq!(validate_config(&config), Err(homeless));
    config.projects.remove(1);
    assert_eq!(validate_config(&config), Err(nameless));
    config.projects.remove(1);
    assert_eq!(validate_config(&config), Ok(()));
}

#[test]
fn errors_have_messages() {
    let text = |e: ServerError| e.message();
    assert_eq!(text(ServerError::Config("x".to_string())), "config error: x");
    assert_eq!(text(ServerError::Io("x".to_string())), "x");
    assert_eq!(text(ServerError::Json("x".to_string())), "x");
    assert_eq!(text(ServerError::Toml("x".to_string())), "toml parse error: x");
    assert_eq!(
        text(ServerError::LockfileHeld { pid: 12, path: "/d/server.lock".to_string() }),
        "another server is already running (pid 12, lockfile /d/server.lock)"
    );
    assert_eq!(text(ServerError::Pool("x".to_string())), "pool error: x");
    assert_eq!(text(ServerError::Git("x".to_string())), "git error: x");
    assert_eq!(text(ServerError::Build("x".to_string())), "build error: x");
}

#[test]
fn slots_are_counted_by_their_status() {
    let pool = ProjectState {
        slots: vec![
            slot(3, SlotStatus::Ready),
            slot(5, SlotStatus::CheckedOut("x".to_string())),
            slot(1, SlotStatus::Error),
        ],
    };
    let ids = |slots: Vec<&Slot>| slots.iter().map(|s| s.id.0).collect::<Vec<u32>>();
    assert_eq!(ids(pool.ready_slots()), vec![3]);
    assert_eq!(ids(pool.available_slots()), vec![3, 1]);
    assert_eq!(ids(pool.checked_out_slots()), vec![5]);
    assert_eq!(pool.next_free_slot_number(), 6);
    assert!(pool.has_free_number());
    assert_eq!(ProjectState::default().next_free_slot_number(), 0);
    assert!(!ProjectState { slots: vec![slot(u32::MAX, SlotStatus::Ready)] }.has_free_number());
}

#[test]
fn statuses_are_summarised() {
    for (status, summary) in [
        (SlotStatus::Uninitialized, SlotStatusSummary::Uninitialized),
        (SlotStatus::Cloning, SlotStatusSummary::Cloning),
        (SlotStatus::Cloned, SlotStatusSummary::Cloning),
        (SlotStatus::CloningSubmodules, SlotStatusSummary::Cloning),
        (SlotStatus::SubmodulesCloned, SlotStatusSummary::Cloning),
        (SlotStatus::Updating, SlotStatusSummary::Cloning),
        (SlotStatus::UpdatingSubmodules, SlotStatusSummary::Cloning),
        (SlotStatus::PartiallyUpdated, SlotStatusSummary::Cloning),
        (SlotStatus::WaitingToBuild, SlotStatusSummary::Building),
        (SlotStatus::Building, SlotStatusSummary::Building),
        (SlotStatus::Built(StepId(0)), SlotStatusSummary::Building),
        (SlotStatus::Ready, SlotStatusSummary::Ready),
        (SlotStatus::CheckedOut("x".to_string()), SlotStatusSummary::CheckedOut),
        (SlotStatus::Error, SlotStatusSummary::Error),
    ] {
        assert_eq!(status.to_api(), summary);
        assert_eq!(status.describe(), format!("{status:?}"));
    }
}

#[test]
fn actions_are_described() {
    let (p, s) = (ProjectId(1), SlotId(20));
    for action in [
        PendingAction::Clone(p, s),
        PendingAction::CloneSubmodules(p, s),
        PendingAction::Update(p, s),
        PendingAction::UpdateSubmodules(p, s),
        PendingAction::Build(p, s, StepId(3)),
    ] {
        assert_eq!(action.describe(), format!("{action:?}"));
        assert_eq!(action.project(), p);
        assert_eq!(action.slot(), s);
    }
}

#[test]
fn projects_are_found_by_name() {
    let mut state = ServerState::new(at(0, 0));
    assert_eq!(state.project_entry(&"a".to_string()), 0);
    assert_eq!(state.project_entry(&"b".to_string()), 1);
    assert_eq!(state.project_entry(&"a".to_string()), 0);
    assert_eq!(state.find_project(&"b".to_string()), Some(1));
    assert_eq!(state.find_project(&"c".to_string()), None);
    state.push_slot(1, slot(0, SlotStatus::Cloning));
    state.set_status(1, 0, SlotStatus::Ready);
    assert_eq!(state.projects[1].1.slots[0].status, SlotStatus::Ready);
    state.put_slot(1, 0, slot(4, SlotStatus::Error));
    assert_eq!(state.projects[1].1.slots[0].id, SlotId(4));
}

#[test]
fn a_lock_names_its_holder() {
    assert_eq!(lock_holder("123\n"), Some(123));
    assert_eq!(lock_holder("  +5 "), Some(5));
    assert_eq!(lock_holder("pid 5"), None);
    assert_eq!(lock_holder(""), None);
    for pid in [0u32, 1, 4711, u32::MAX] {
        assert_eq!(lock_holder(&lock_contents(pid)), Some(pid));
    }
    let probe = probe_command(77);
    assert_eq!(probe.program, "kill");
    assert_eq!(probe.args, vec!["-0", "77"]);
}

#[test]
fn a_lock_of_a_running_server_is_held() {
    let paths = Paths::new("/c", "/d");
    assert_eq!(
        judge_lock(&paths, Some(7), true),
        Err(ServerError::LockfileHeld { pid: 7, path: "/d/server.lock".to_string() })
    );
    assert_eq!(judge_lock(&paths, Some(7), false), Ok(LockAction::CleanUpAndWrite));
    assert_eq!(judge_lock(&paths, None, false), Ok(LockAction::Write));
}

#[test]
fn messages_travel_as_lines() {
    assert_eq!(frame_request(b"{}".to_vec()), b"{}\n");
    assert_eq!(unframe_response("{}\n"), Ok("{}"));
    assert_eq!(unframe_response("{}"), Ok("{}"));
    assert_eq!(
        unframe_response(""),
        Err("server closed the connection without sending a response".to_string())
    );
    assert_eq!(connect_error("/d/server.sock"), "failed to connect to socket /d/server.sock");
}

#[test]
fn commands_take_owned_arguments() {
    assert_eq!(owned(&["a", "", "b c"]), vec!["a", "", "b c"]);
    assert!(owned(&[]).is_empty());
}

fn call(method: &str) -> Request {
    Request { method: method.to_string(), params: None }
}

#[test]
fn methods_are_dispatched_by_name() {
    let state = ServerState::new(at(9, 0));
    let config = Config {
        nslots: None,
        refresh_interval_secs: None,
        projects: vec![project("p", "u")],
    };
    match dispatch(&call("status"), &state, &config) {
        Reply::Status(s) => assert_eq!(s.last_updated, at(9, 0)),
        other => panic!("expected Status, got {other:?}"),
    }
    match dispatch(&call("list_projects"), &state, &config) {
        Reply::Projects(list) => assert_eq!(list.len(), 1),
        other => panic!("expected Projects, got {other:?}"),
    }
    match dispatch(&call("Status"), &state, &config) {
        Reply::Refused(response) => {
            assert!(!response.ok);
            assert_eq!(response.error.as_deref(), Some("unknown method: Status"));
            assert!(response.data.is_none());
        }
        other => panic!("expected Refused, got {other:?}"),
    }
}

#[test]
fn configured_projects_are_listed_with_their_slots() {
    let state = ServerState {
        projects: vec![(
            "q".to_string(),
            ProjectState { slots: vec![slot(0, SlotStatus::Ready)] },
        )],
        last_updated: at(0, 0),
        pending_action: None,
    };
    let config = Config {
        nslots: None,
        refresh_interval_secs: None,
        projects: vec![project("p", "u"), project("q", "v")],
    };
    let list = handle_list_projects(&state, &config);
    assert_eq!(list.len(), 2);
    assert_eq!(list[0].name, "p");
    assert_eq!(list[0].repo_url, "u");
    assert_eq!(list[0].branch, "main");
    assert!(list[0].slots.is_none());
    assert_eq!(list[1].name, "q");
    assert_eq!(list[1].slots.map(|s| s.len()), Some(1));
}

#[test]
fn answers_carry_data_or_an_error() {
    let value = serde_json::Value::String("x".to_string());
    let response = Response::success(value.clone());
    assert!(response.ok);
    assert_eq!(response.data, Some(value));
    assert_eq!(response.error, None);
    let response = invalid_request("eof");
    assert!(!response.ok);
    assert_eq!(response.error.as_deref(), Some("invalid request: eof"));
    assert_eq!(Response::error("no".to_string()).error.as_deref(), Some("no"));
}

/// The specified time between two instants, computed by hand.
fn expected_seconds(a: (i64, u32), b: (i64, u32)) -> i64 {
    let billion: i64 = 1_000_000_000;
    let (day_a, day_b) = (a.0.rem_euclid(86_400), b.0.rem_euclid(86_400));
    let leap = if day_a > day_b && i64::from(b.1) >= billion {
        1
    } else if day_a < day_b && i64::from(a.1) >= billion {
        -1
    } else {
        0
    };
    let nanos = i128::from(a.0 - b.0 + leap) * i128::from(billion) + i128::from(a.1)
        - i128::from(b.1);
    i64::try_from(nanos / i128::from(billion)).expect("in range")
}

#[test]
fn leap_seconds_are_counted() {
    let instants = [
        (59, 0),
        (59, 999_999_999),
        (59, 1_000_000_000),
        (59, 1_500_000_000),
        (60, 0),
        (60, 500_000_000),
        (86_399, 1_999_999_999),
        (86_400, 0),
        (-1, 1_200_000_000),
        (MAX_SECS, 1_999_999_999),
        (MIN_SECS, 0),
        (MIN_SECS + 59, 1_000_000_000),
    ];
    for a in instants {
        for b in instants {
            let got = at(a.0, a.1).seconds_since(&at(b.0, b.1));
            assert_eq!(got, expected_seconds(a, b), "{a:?} {b:?}");
        }
    }
    assert_eq!(at(60, 0).seconds_since(&at(59, 1_000_000_000)), 1);
    assert_eq!(at(60, 0).seconds_since(&at(59, 0)), 1);
    assert_eq!(at(59, 1_500_000_000).to_rfc3339(), "1970-01-01T00:00:60.500+00:00");
}
