//! A whole server against a simulated git: requests, background work, returns.
use aid::api::{
    Envelope, ListFilter, Request, RequestEnvelope, Response, ResponseEnvelope, SlotInfo,
    SlotStatusSummary, PROTOCOL_VERSION,
};
use aid::command::CommandSpec;
use aid::config::{Config, ProjectConfig};
use aid::handler::AidHandler;
use aid::poll_loop::ChildExit;
use aid::requests::{answer_invalid, judge_tree, tree_commands, TreeCheck};
use aid::state::{Paths, ServerState};
use aid::time::Timestamp;

fn list_request(id: &str) -> RequestEnvelope {
    Envelope {
        version: PROTOCOL_VERSION,
        request_id: id.to_string(),
        content: Request::List { filter: ListFilter::All },
    }
}

fn add_request(id: &str, project_name: &str, checkout_name: &str) -> RequestEnvelope {
    Envelope {
        version: PROTOCOL_VERSION,
        request_id: id.to_string(),
        content: Request::Add {
            project_name: project_name.to_string(),
            checkout_name: checkout_name.to_string(),
        },
    }
}

fn remove_request(
    id: &str,
    project_name: &str,
    checkout_name: &str,
    force: bool,
) -> RequestEnvelope {
    Envelope {
        version: PROTOCOL_VERSION,
        request_id: id.to_string(),
        content: Request::Remove {
            project_name: project_name.to_string(),
            checkout_name: checkout_name.to_string(),
            force,
        },
    }
}

fn test_paths() -> Paths {
    Paths::new("/tmp/aid", "/tmp/aid")
}

fn end_to_end_config(nslots: u32) -> Config {
    Config {
        nslots: None,
        refresh_interval_secs: None,
        projects: vec![ProjectConfig {
            name: "test-project".to_string(),
            repo_url: "/tmp/aid/repo".to_string(),
            build_command: None,
            branch: Some("main".to_string()),
            nslots: Some(nslots),
            has_submodules: false,
        }],
    }
}

/// A server whose commands all succeed, and the working trees it hands out.
struct TestServer<'a> {
    handler: AidHandler<'a>,
    /// What `git status` and `git log` print in a checkout.
    changes: Vec<u8>,
    unpushed: Vec<u8>,
    commands: Vec<CommandSpec>,
}

impl<'a> TestServer<'a> {
    fn start(paths: &'a Paths, nslots: u32) -> Self {
        let now = Self::now();
        TestServer {
            handler: AidHandler::new(end_to_end_config(nslots), ServerState::new(now), paths),
            changes: vec![],
            unpushed: vec![],
            commands: vec![],
        }
    }

    fn now() -> Timestamp {
        Timestamp::new(1_700_000_000, 0).expect("in range")
    }

    /// Lets the server work until it has nothing to do.
    fn work(&mut self) {
        while let Some(command) = self.handler.on_idle(Self::now()) {
            self.commands.push(command);
            let exit = ChildExit { success: true, stdout: vec![], stderr: vec![] };
            self.handler.handle_child_exit(Self::now(), &exit).expect("consistent");
        }
    }

    fn wait_for_ready(&mut self, project: &str) {
        self.work();
        let slots = self.list_slots();
        assert!(slots
            .iter()
            .any(|s| s.status == SlotStatusSummary::Ready && s.project == project));
    }

    fn send(&mut self, req: &RequestEnvelope) -> ResponseEnvelope {
        let tree = match self.handler.tree_to_inspect(req) {
            None => TreeCheck::Clean,
            Some(dir) => {
                let (status, log) = tree_commands(&dir);
                assert_eq!(status.current_dir, Some(dir.clone()));
                assert_eq!(log.current_dir, Some(dir));
                let ran = |out: &Vec<u8>| ChildExit {
                    success: true,
                    stdout: out.clone(),
                    stderr: vec![],
                };
                judge_tree(&ran(&self.changes), &ran(&self.unpushed))
            }
        };
        self.handler.handle_message(req, &tree)
    }

    fn checkout(&mut self, project_name: &str, checkout_name: &str) -> String {
        let resp = self.send(&add_request("add", project_name, checkout_name));
        match resp.content {
            Response::Added { path, .. } => path,
            other => panic!("expected Added, got {other:?}"),
        }
    }

    fn list_slots(&mut self) -> Vec<SlotInfo> {
        match self.send(&list_request("list")).content {
            Response::List(s) => s.slots,
            other => panic!("expected List, got {other:?}"),
        }
    }

    fn assert_remove_fails(&mut self, project_name: &str, checkout_name: &str, expected: &str) {
        let resp = self.send(&remove_request("rm", project_name, checkout_name, false));
        match resp.content {
            Response::Error { message } => assert!(message.contains(expected), "{message:?}"),
            other => panic!("expected Error, got {other:?}"),
        }
    }
}

#[test]
fn server_clones_repo_to_ready() {
    let paths = test_paths();
    let mut server = TestServer::start(&paths, 1);

    server.wait_for_ready("test-project");

    let req = list_request("1");
    let resp = server.send(&req);
    assert_eq!(resp.request_id, "1");

    let clone = &server.commands[0];
    assert_eq!(clone.program, "git");
    assert_eq!(
        clone.args,
        vec!["clone", "--branch", "main", "/tmp/aid/repo", "/tmp/aid/repos/test-project/0"]
    );
}

#[test]
fn checkout_triggers_background_provisioning_and_return_restores_ready() {
    let paths = test_paths();
    let mut server = TestServer::start(&paths, 1);

    server.wait_for_ready("test-project");
    let checkout_path = server.checkout("test-project", "my-checkout");

    let slots = server.list_slots();
    assert!(slots.iter().any(|s| s.status == SlotStatusSummary::CheckedOut));

    server.wait_for_ready("test-project");
    let slots = server.list_slots();
    assert!(slots.iter().any(|s| s.status == SlotStatusSummary::Ready));

    assert_eq!(checkout_path, "/tmp/aid/repos/test-project/0");

    let remove_resp = server.send(&remove_request("rm1", "test-project", "my-checkout", false));
    assert_eq!(remove_resp.content, Response::Okay);

    server.work();
    let ready = server
        .list_slots()
        .iter()
        .filter(|s| s.status == SlotStatusSummary::Ready)
        .count();
    assert!(ready >= 2);
}

/// Checkout a slot, modify a tracked file, and verify that returning the slot
/// is rejected because the working tree is dirty.
#[test]
fn return_fails_when_readme_is_modified() {
    let paths = test_paths();
    let mut server = TestServer::start(&paths, 1);

    server.wait_for_ready("test-project");
    server.checkout("test-project", "dirty-checkout");
    server.changes = b" M README.md\n".to_vec();

    server.assert_remove_fails("test-project", "dirty-checkout", "dirty");
}

#[test]
fn return_fails_when_untracked_file_present() {
    let paths = test_paths();
    let mut server = TestServer::start(&paths, 1);

    server.wait_for_ready("test-project");
    server.checkout("test-project", "untracked-checkout");
    server.changes = b"?? new_untracked.txt\n".to_vec();

    server.assert_remove_fails("test-project", "untracked-checkout", "dirty");
}

#[test]
fn return_fails_when_unpushed_commit_exists() {
    let paths = test_paths();
    let mut server = TestServer::start(&paths, 1);

    server.wait_for_ready("test-project");
    server.checkout("test-project", "unpushed-checkout");
    server.unpushed = b"1234567 local change\n".to_vec();

    server.assert_remove_fails("test-project", "unpushed-checkout", "unpushed");
}

#[test]
fn a_forced_return_skips_the_inspection() {
    let paths = test_paths();
    let mut server = TestServer::start(&paths, 1);
    server.wait_for_ready("test-project");
    server.checkout("test-project", "dirty-checkout");
    server.changes = b" M README.md\n".to_vec();
    let forced = remove_request("rm", "test-project", "dirty-checkout", true);
    assert_eq!(server.handler.tree_to_inspect(&forced), None);
    assert_eq!(server.send(&forced).content, Response::Okay);
    server.assert_remove_fails("test-project", "dirty-checkout", "no checkout named");
}

#[test]
fn two_checkouts_get_different_directories() {
    let paths = test_paths();
    let mut server = TestServer::start(&paths, 2);
    server.work();
    let a = server.checkout("test-project", "a");
    let b = server.checkout("test-project", "b");
    assert_eq!(a, "/tmp/aid/repos/test-project/0");
    assert_eq!(b, "/tmp/aid/repos/test-project/1");
}

#[test]
fn adding_is_refused_for_a_reason() {
    let paths = test_paths();
    let mut server = TestServer::start(&paths, 1);
    let refuse = |server: &mut TestServer, project: &str, name: &str| {
        match server.send(&add_request("x", project, name)).content {
            Response::Error { message } => message,
            other => panic!("expected Error, got {other:?}"),
        }
    };
    assert_eq!(refuse(&mut server, "nope", "a"), "unknown project 'nope'");
    server.work();
    server.checkout("test-project", "a");
    assert_eq!(refuse(&mut server, "test-project", "a"), "checkout 'a' already exists");
    assert_eq!(
        refuse(&mut server, "test-project", "b"),
        "no ready slot for project 'test-project'"
    );
}

#[test]
fn a_tree_that_cannot_be_inspected_is_not_taken_back() {
    let paths = test_paths();
    let mut server = TestServer::start(&paths, 1);
    server.work();
    server.checkout("test-project", "a");
    let failed = ChildExit { success: false, stdout: vec![], stderr: b"not a repo".to_vec() };
    let fine = ChildExit { success: true, stdout: vec![], stderr: vec![] };
    assert_eq!(judge_tree(&fine, &fine), TreeCheck::Clean);
    assert_eq!(judge_tree(&fine, &failed), TreeCheck::Unknown("not a repo".to_string()));
    let tree = judge_tree(&failed, &fine);
    assert_eq!(tree, TreeCheck::Unknown("not a repo".to_string()));
    let answer = server
        .handler
        .handle_message(&remove_request("rm", "test-project", "a", false), &tree);
    assert_eq!(
        answer.content,
        Response::Error { message: "cannot inspect checkout 'a': not a repo".to_string() }
    );
}

#[test]
fn other_protocol_versions_are_refused() {
    let paths = test_paths();
    let mut server = TestServer::start(&paths, 1);
    server.work();
    let mut request = add_request("v", "test-project", "a");
    request.version = 2;
    let answer = server.send(&request);
    assert_eq!(answer.content, Response::VersionMismatch { expected: 1, got: 2 });
    assert_eq!(answer.version, 1);
    assert_eq!(answer.request_id, "v");
    assert!(server.list_slots().iter().all(|s| s.status == SlotStatusSummary::Ready));
}

#[test]
fn bytes_that_are_no_request_are_answered() {
    let answer = answer_invalid("expected value at line 1 column 1");
    assert_eq!(answer.version, PROTOCOL_VERSION);
    assert_eq!(answer.request_id, "");
    assert_eq!(
        answer.content,
        Response::Error {
            message: "invalid request: expected value at line 1 column 1".to_string()
        }
    );
}

#[test]
fn listings_are_filtered() {
    let paths = test_paths();
    let mut server = TestServer::start(&paths, 2);
    server.work();
    server.checkout("test-project", "mine");
    let list = |server: &mut TestServer, filter: ListFilter| {
        let request = Envelope {
            version: PROTOCOL_VERSION,
            request_id: "l".to_string(),
            content: Request::List { filter },
        };
        match server.send(&request).content {
            Response::List(list) => list.slots,
            other => panic!("expected List, got {other:?}"),
        }
    };
    let active = list(&mut server, ListFilter::Active);
    assert_eq!(active.len(), 1);
    assert_eq!(active[0].checkout_name.as_deref(), Some("mine"));
    assert_eq!(active[0].status, SlotStatusSummary::CheckedOut);
    assert_eq!(active[0].last_refreshed.as_deref(), Some("2023-11-14T22:13:20+00:00"));
    let free = list(&mut server, ListFilter::Free);
    assert_eq!(free.len(), 1);
    assert_eq!(free[0].checkout_name, None);
    assert_eq!(free[0].path.as_deref(), Some("/tmp/aid/repos/test-project/1"));
    assert_eq!(list(&mut server, ListFilter::All).len(), 2);
}

#[test]
fn returning_a_checkout_restores_the_state() {
    let paths = test_paths();
    let mut server = TestServer::start(&paths, 2);
    server.work();
    let before = format!("{:?}", server.handler.state);
    server.checkout("test-project", "mine");
    assert_ne!(format!("{:?}", server.handler.state), before);
    let remove = remove_request("rm", "test-project", "mine", false);
    assert_eq!(server.send(&remove).content, Response::Okay);
    assert_eq!(format!("{:?}", server.handler.state), before);
}

#[test]
fn refused_requests_leave_the_state_alone() {
    let paths = test_paths();
    let mut server = TestServer::start(&paths, 1);
    server.work();
    server.checkout("test-project", "mine");
    server.changes = b" M README.md\n".to_vec();
    let before = format!("{:?}", server.handler.state);
    for request in [
        add_request("1", "test-project", "mine"),
        add_request("2", "nope", "other"),
        remove_request("3", "test-project", "mine", false),
        remove_request("4", "test-project", "other", true),
        list_request("5"),
    ] {
        server.send(&request);
        assert_eq!(format!("{:?}", server.handler.state), before);
    }
}

fn plain_request(content: Request) -> RequestEnvelope {
    Envelope { version: PROTOCOL_VERSION, request_id: "c".to_string(), content }
}

fn clean(server: &mut TestServer, content: Request) -> Vec<String> {
    match server.send(&plain_request(content)).content {
        Response::Cleaned { paths } => paths,
        other => panic!("expected Cleaned, got {other:?}"),
    }
}

#[test]
fn background_slots_are_those_that_nobody_uses() {
    let paths = test_paths();
    let mut server = TestServer::start(&paths, 2);
    server.work();
    server.checkout("test-project", "mine");
    // The slot that replaces the one handed out is still being cloned.
    assert!(server.handler.on_idle(TestServer::now()).is_some());
    let request = plain_request(Request::List { filter: ListFilter::Background });
    match server.send(&request).content {
        Response::List(list) => {
            let statuses: Vec<SlotStatusSummary> = list.slots.iter().map(|s| s.status).collect();
            assert_eq!(statuses, vec![SlotStatusSummary::Ready, SlotStatusSummary::Cloning]);
        }
        other => panic!("expected List, got {other:?}"),
    }
}

#[test]
fn cleaning_up_removes_extra_slots() {
    let paths = test_paths();
    let mut server = TestServer::start(&paths, 1);
    server.work();
    server.checkout("test-project", "mine");
    server.work();
    assert!(clean(&mut server, Request::Cleanup).is_empty());
    let back = remove_request("rm", "test-project", "mine", false);
    assert_eq!(server.send(&back).content, Response::Okay);
    assert_eq!(server.list_slots().len(), 2);
    assert_eq!(clean(&mut server, Request::Cleanup), vec!["/tmp/aid/repos/test-project/1"]);
    let slots = server.list_slots();
    assert_eq!(slots.len(), 1);
    assert_eq!(slots[0].status, SlotStatusSummary::Ready);
    assert!(clean(&mut server, Request::Cleanup).is_empty());
    server.work();
    assert_eq!(server.list_slots().len(), 1);
}

#[test]
fn purging_leaves_checkouts_and_the_pool_is_filled_again() {
    let paths = test_paths();
    let mut server = TestServer::start(&paths, 3);
    server.work();
    server.checkout("test-project", "a");
    let mine = server.checkout("test-project", "b");
    server.work();
    let other = remove_request("rm", "test-project", "a", false);
    assert_eq!(server.send(&other).content, Response::Okay);
    assert_eq!(
        clean(&mut server, Request::Purge),
        vec![
            "/tmp/aid/repos/test-project/0",
            "/tmp/aid/repos/test-project/2",
            "/tmp/aid/repos/test-project/3",
            "/tmp/aid/repos/test-project/4",
        ]
    );
    let slots = server.list_slots();
    assert_eq!(slots.len(), 1);
    assert_eq!(slots[0].path.as_deref(), Some(mine.as_str()));
    // The numbers of the new slots no longer are their positions.
    server.work();
    let slots = server.list_slots();
    assert_eq!(slots.len(), 4);
    assert_eq!(slots[0].checkout_name.as_deref(), Some("b"));
    for (slot, number) in slots[1..].iter().zip([2, 3, 4]) {
        assert_eq!(slot.status, SlotStatusSummary::Ready);
        assert_eq!(slot.path, Some(format!("/tmp/aid/repos/test-project/{number}")));
    }
}

#[test]
fn a_slot_with_an_action_under_way_is_not_removed() {
    let paths = test_paths();
    let mut server = TestServer::start(&paths, 2);
    server.work();
    server.checkout("test-project", "a");
    assert!(server.handler.on_idle(TestServer::now()).is_some());
    assert_eq!(clean(&mut server, Request::Purge), vec!["/tmp/aid/repos/test-project/1"]);
    let exit = ChildExit { success: true, stdout: vec![], stderr: vec![] };
    server.handler.handle_child_exit(TestServer::now(), &exit).expect("consistent");
    server.work();
    assert_eq!(server.list_slots().len(), 3);
}

#[test]
fn projects_that_are_not_configured_are_only_purged() {
    let paths = test_paths();
    let mut server = TestServer::start(&paths, 1);
    server.work();
    server.handler.config.projects[0].name = "renamed".to_string();
    assert!(clean(&mut server, Request::Cleanup).is_empty());
    assert_eq!(clean(&mut server, Request::Purge), vec!["/tmp/aid/repos/test-project/0"]);
}
