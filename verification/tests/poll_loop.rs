//! The event loop with a handler that answers pings.
use aid::command::CommandSpec;
use aid::poll_loop::{
    ChildExit, Client, EventLoop, Handler, LoopAction, Readiness, StreamEnd, StreamFault, Task,
    WaitOutcome,
    WriteOutcome,
};

/// Echoes messages back, replacing "ping" with "pong".
/// When `spawn_child` is true, spawns a subprocess once via `on_idle`.
/// After the child exits, "ping" produces "pong\npong\n" instead of "pong\n".
/// Clients can query "child_done?\n" to synchronize on child completion.
struct PingPong {
    messages_received: usize,
    spawn_child: bool,
    child_spawned: bool,
    child_done: bool,
    exits: Vec<ChildExit>,
}

impl PingPong {
    fn new() -> Self {
        Self {
            messages_received: 0,
            spawn_child: false,
            child_spawned: false,
            child_done: false,
            exits: vec![],
        }
    }
}

impl Handler for PingPong {
    fn handle_message(&mut self, msg: &[u8]) -> Vec<u8> {
        self.messages_received += 1;
        let text = String::from_utf8_lossy(msg);
        let trimmed = text.trim();
        if trimmed == "child_done?" {
            if self.child_done {
                b"yes\n".to_vec()
            } else {
                b"no\n".to_vec()
            }
        } else if trimmed == "ping" {
            if self.child_done {
                b"pong\npong\n".to_vec()
            } else {
                b"pong\n".to_vec()
            }
        } else {
            format!("echo: {trimmed}\n").into_bytes()
        }
    }

    fn handle_child_exit(&mut self, result: ChildExit) {
        self.child_done = true;
        self.exits.push(result);
    }

    fn on_idle(&mut self) -> Option<CommandSpec> {
        if self.spawn_child && !self.child_spawned {
            self.child_spawned = true;
            Some(CommandSpec {
                program: "echo".to_string(),
                args: vec!["hello".to_string()],
                current_dir: None,
            })
        } else {
            None
        }
    }
}

const LISTENER: i32 = 3;
const SIGNAL: i32 = 4;
const SIGCHILD: i32 = 5;
const CLIENT: i32 = 10;

fn readable() -> Readiness {
    Readiness { readable: true, writable: false, failed: false }
}

fn new_loop(handler: PingPong) -> EventLoop<PingPong> {
    EventLoop::new(LISTENER, SIGNAL, SIGCHILD, handler)
}

/// Polls, with the given findings for descriptors, and returns what is to be done.
fn poll(ev: &mut EventLoop<PingPong>, found: &[(i32, Readiness)]) -> Vec<Task> {
    ev.prep_pollfds();
    for i in 0..ev.poll_fds.len() {
        let fd = ev.poll_fds[i].fd;
        for (ready, readiness) in found {
            if *ready == fd {
                ev.note_readiness(i, *readiness);
            }
        }
    }
    ev.dispatch_poll_results()
}

fn connect(ev: &mut EventLoop<PingPong>, fd: i32) {
    let tasks = poll(ev, &[(LISTENER, readable())]);
    assert_eq!(tasks.last(), Some(&Task::AcceptClients));
    ev.accept_client(fd);
}

/// Sends bytes as a client, and returns what the loop writes back.
fn exchange(ev: &mut EventLoop<PingPong>, fd: i32, bytes: &[u8]) -> Vec<u8> {
    let tasks = poll(ev, &[(fd, readable())]);
    assert!(tasks.contains(&Task::ReadClient(fd)));
    ev.client_readable(fd, bytes, StreamEnd::WouldBlock);

    let writable = Readiness { readable: false, writable: true, failed: false };
    let tasks = poll(ev, &[(fd, writable)]);
    assert!(tasks.contains(&Task::WriteClient(fd)));
    let queued = ev.clients[&fd].write_buf.clone();
    if !queued.is_empty() {
        let again = ev.client_writable(fd, WriteOutcome::Wrote(queued.len()));
        assert!(!again);
    }
    queued
}

fn signal_shutdown(ev: &mut EventLoop<PingPong>) {
    assert_eq!(ev.turn(), LoopAction::Poll);
    let tasks = poll(ev, &[(SIGNAL, readable())]);
    assert_eq!(tasks[0], Task::HandleSignal);
    ev.handle_signal();
    assert_eq!(ev.turn(), LoopAction::Stop);
    ev.shutdown();
}

#[test]
fn ping_pong() {
    let mut ev = new_loop(PingPong::new());
    connect(&mut ev, CLIENT);

    assert_eq!(exchange(&mut ev, CLIENT, b"ping\n"), b"pong\n");
    assert_eq!(exchange(&mut ev, CLIENT, b"hello\n"), b"echo: hello\n");
    assert_eq!(exchange(&mut ev, CLIENT, b"ping\n"), b"pong\n");
    signal_shutdown(&mut ev);

    assert_eq!(ev.handler().messages_received, 3);
    assert!(ev.clients.is_empty());
}

#[test]
fn signal_shutdown_no_clients() {
    let mut ev = new_loop(PingPong::new());
    assert_eq!(poll(&mut ev, &[]), vec![Task::RemoveDropped]);
    signal_shutdown(&mut ev);
    assert_eq!(ev.handler().messages_received, 0);
}

#[test]
fn child_exit_changes_behavior() {
    let mut handler = PingPong::new();
    handler.spawn_child = true;
    let mut ev = new_loop(handler);
    connect(&mut ev, CLIENT);

    let command = ev.next_command().expect("a command");
    assert_eq!(command.program, "echo");
    ev.child_started(20, 21);
    assert!(ev.next_command().is_none());

    assert_eq!(exchange(&mut ev, CLIENT, b"ping\n"), b"pong\n");
    assert_eq!(exchange(&mut ev, CLIENT, b"child_done?\n"), b"no\n");

    let tasks = poll(&mut ev, &[(20, readable()), (SIGCHILD, readable())]);
    assert_eq!(
        tasks,
        vec![
            Task::DrainSigchild,
            Task::RemoveDropped,
            Task::ReadStdout,
            Task::ReapChild(true),
        ]
    );
    ev.child_stdout(b"hel");
    ev.child_stdout(b"lo\n");
    ev.try_reap_child(WaitOutcome::Exited(true));
    assert_eq!(
        ev.handler().exits,
        vec![ChildExit { success: true, stdout: b"hello\n".to_vec(), stderr: vec![] }]
    );

    assert_eq!(exchange(&mut ev, CLIENT, b"child_done?\n"), b"yes\n");
    assert_eq!(exchange(&mut ev, CLIENT, b"ping\n"), b"pong\npong\n");
    assert!(ev.next_command().is_none());
    signal_shutdown(&mut ev);
}

#[test]
fn a_line_may_come_in_pieces() {
    let mut ev = new_loop(PingPong::new());
    connect(&mut ev, CLIENT);
    assert_eq!(exchange(&mut ev, CLIENT, b"pi"), b"");
    assert_eq!(ev.handler().messages_received, 0);
    assert_eq!(exchange(&mut ev, CLIENT, b"ng\nhel"), b"pong\n");
    assert_eq!(ev.clients[&CLIENT].read_buf, b"hel");
    assert_eq!(exchange(&mut ev, CLIENT, b"lo\nping\n"), b"echo: hello\npong\n");
    assert_eq!(ev.clients[&CLIENT].read_buf, b"");
    assert_eq!(ev.handler().messages_received, 3);
}

#[test]
fn lines_are_taken_with_their_newlines() {
    let mut client = Client::new();
    client.read_buf.extend_from_slice(b"a\n\nbc\nd");
    let lines = client.take_lines();
    assert_eq!(lines, vec![b"a\n".to_vec(), b"\n".to_vec(), b"bc\n".to_vec()]);
    assert_eq!(client.read_buf, b"d");
    assert!(client.take_lines().is_empty());
    assert_eq!(aid::poll_loop::first_line_length(b"ab\ncd\n"), Some(3));
    assert_eq!(aid::poll_loop::first_line_length(b"abcd"), None);
}

#[test]
fn a_closed_client_is_given_up_and_its_lines_are_not_processed() {
    let mut ev = new_loop(PingPong::new());
    connect(&mut ev, CLIENT);
    ev.client_readable(CLIENT, b"ping\n", StreamEnd::Closed);
    assert_eq!(ev.dropped, vec![CLIENT]);
    assert_eq!(ev.handler().messages_received, 0);
    assert!(ev.clients.contains_key(&CLIENT));
    assert_eq!(ev.remove_dropped(), vec![CLIENT]);
    assert!(ev.clients.is_empty());
    assert!(ev.dropped.is_empty());
}

#[test]
fn reading_faults_are_told_apart() {
    let mut handler = PingPong::new();
    let mut client = Client::new();
    assert_eq!(
        client.handle_client_readable(b"", StreamEnd::Closed, &mut handler),
        Err(StreamFault::ConnectionReset)
    );
    assert_eq!(
        client.handle_client_readable(b"", StreamEnd::Failed, &mut handler),
        Err(StreamFault::Failed)
    );
    assert_eq!(
        client.handle_client_readable(b"ping\n", StreamEnd::WouldBlock, &mut handler),
        Ok(())
    );
    assert_eq!(client.write_buf, b"pong\n");
}

#[test]
fn a_reply_may_go_out_in_pieces() {
    let mut client = Client::new();
    assert!(!client.has_pending_writes());
    client.enqueue_bytes(b"pong\n");
    assert!(client.has_pending_writes());
    assert_eq!(client.handle_client_writable(WriteOutcome::Wrote(2)), Ok(true));
    assert_eq!(client.write_buf, b"ng\n");
    assert_eq!(client.handle_client_writable(WriteOutcome::WouldBlock), Ok(false));
    assert_eq!(client.write_buf, b"ng\n");
    assert_eq!(client.handle_client_writable(WriteOutcome::Wrote(3)), Ok(false));
    assert_eq!(client.write_buf, b"");
    client.enqueue_bytes(b"x");
    assert_eq!(
        client.handle_client_writable(WriteOutcome::Wrote(0)),
        Err(StreamFault::WriteZero)
    );
    assert_eq!(client.handle_client_writable(WriteOutcome::Failed), Err(StreamFault::Failed));
    assert_eq!(client.write_buf, b"x");
}

#[test]
fn clients_with_queued_bytes_are_polled_for_writing() {
    let mut ev = new_loop(PingPong::new());
    connect(&mut ev, 10);
    connect(&mut ev, 11);
    ev.client_readable(11, b"ping\n", StreamEnd::WouldBlock);
    ev.child_started(20, 21);
    ev.prep_pollfds();
    assert_eq!(ev.poll_fds.len(), 7);
    assert_eq!(ev.poll_fds[0].fd, SIGNAL);
    assert_eq!(ev.poll_fds[1].fd, SIGCHILD);
    assert_eq!(ev.poll_fds[2].fd, LISTENER);
    let mut clients: Vec<(i32, bool)> =
        ev.poll_fds[3..5].iter().map(|e| (e.fd, e.write)).collect();
    clients.sort();
    assert_eq!(clients, vec![(10, false), (11, true)]);
    assert_eq!(ev.poll_fds[5].fd, 20);
    assert_eq!(ev.poll_fds[6].fd, 21);
}

#[test]
fn a_failed_client_is_only_given_up() {
    let mut ev = new_loop(PingPong::new());
    connect(&mut ev, CLIENT);
    let all = Readiness { readable: true, writable: true, failed: true };
    let tasks = poll(&mut ev, &[(CLIENT, all)]);
    assert_eq!(tasks, vec![Task::DropClient(CLIENT), Task::RemoveDropped]);
    let both = Readiness { readable: true, writable: true, failed: false };
    let tasks = poll(&mut ev, &[(CLIENT, both), (LISTENER, readable())]);
    assert_eq!(
        tasks,
        vec![
            Task::ReadClient(CLIENT),
            Task::WriteClient(CLIENT),
            Task::RemoveDropped,
            Task::AcceptClients,
        ]
    );
}

#[test]
fn a_client_to_which_nothing_can_be_written_is_given_up() {
    let mut ev = new_loop(PingPong::new());
    connect(&mut ev, CLIENT);
    ev.client_readable(CLIENT, b"ping\n", StreamEnd::WouldBlock);
    assert!(ev.client_writable(CLIENT, WriteOutcome::Wrote(1)));
    assert!(ev.dropped.is_empty());
    assert!(!ev.client_writable(CLIENT, WriteOutcome::Failed));
    ev.drop_client(CLIENT);
    assert_eq!(ev.dropped, vec![CLIENT, CLIENT]);
    assert_eq!(ev.remove_dropped(), vec![CLIENT]);
}

#[test]
fn a_child_that_cannot_be_started_ends_at_once() {
    let mut ev = new_loop(PingPong::new());
    ev.spawn_failed("No such file or directory");
    assert_eq!(
        ev.handler().exits,
        vec![ChildExit {
            success: false,
            stdout: vec![],
            stderr: b"spawn error: No such file or directory".to_vec(),
        }]
    );
    assert!(ev.running_child.is_none());
}

#[test]
fn a_child_is_reaped_once_it_has_ended() {
    let mut ev = new_loop(PingPong::new());
    ev.child_started(20, 21);
    ev.child_stderr(b"warning\n");
    ev.try_reap_child(WaitOutcome::StillRunning);
    ev.try_reap_child(WaitOutcome::Failed);
    assert!(ev.running_child.is_some());
    assert!(ev.handler().exits.is_empty());
    ev.try_reap_child(WaitOutcome::Exited(false));
    assert!(ev.running_child.is_none());
    ev.try_reap_child(WaitOutcome::Exited(false));
    assert_eq!(ev.handler().exits.len(), 1);
    assert_eq!(ev.handler().exits[0].stderr, b"warning\n");
    assert!(!ev.handler().exits[0].success);
}

#[test]
fn shutting_down_kills_the_child() {
    let mut ev = new_loop(PingPong::new());
    connect(&mut ev, CLIENT);
    ev.child_started(20, 21);
    assert!(ev.shutdown());
    assert!(ev.running_child.is_none());
    assert!(ev.clients.is_empty());
    assert!(!ev.shutdown());
}

#[test]
fn removing_a_client_says_whether_there_was_one() {
    let mut ev = new_loop(PingPong::new());
    connect(&mut ev, CLIENT);
    assert!(ev.remove_client(CLIENT));
    assert!(!ev.remove_client(CLIENT));
}
