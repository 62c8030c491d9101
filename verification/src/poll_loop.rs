//! The event loop: clients and their buffers, the child process under way, and
//! what to do when file descriptors become ready.
use crate::command::{opt_command_view, CommandSpec, CommandView};
use crate::seqs::{first_where, lemma_first_where, lemma_first_where_is, lemma_first_where_none};
use std::collections::HashMap;
use vstd::prelude::*;
use vstd::std_specs::iter::IteratorSpec;
use vstd::string::*;

verus! {

broadcast use vstd::std_specs::hash::group_hash_axioms;

/// Result of a completed child process.
#[derive(Debug, Clone, PartialEq, Eq)]
pub struct ChildExit {
    pub success: bool,
    pub stdout: Vec<u8>,
    pub stderr: Vec<u8>,
}

/// What the end of a child process came with.
pub struct ExitView {
    pub success: bool,
    pub stdout: Seq<u8>,
    pub stderr: Seq<u8>,
}

impl View for ChildExit {
    type V = ExitView;

    open spec fn view(&self) -> ExitView {
        ExitView { success: self.success, stdout: self.stdout@, stderr: self.stderr@ }
    }
}

/// Application-level handler that the event loop delegates to.
///
/// Each method comes with a relation between the handler before the call, the
/// arguments, the handler after the call and the result. The event loop says
/// through these relations which calls it makes, and with what. A handler that
/// says nothing of itself may do anything.
pub trait Handler: Sized {
    /// Whether a message can take the handler from `before` to `after` with that reply.
    open spec fn replies(before: Self, msg: Seq<u8>, after: Self, reply: Seq<u8>) -> bool {
        true
    }

    /// Whether the end of a child process can take the handler from `before` to `after`.
    open spec fn notes_exit(before: Self, result: ExitView, after: Self) -> bool {
        true
    }

    /// Whether an idle moment can take the handler from `before` to `after` with that command.
    open spec fn proposes(before: Self, after: Self, command: Option<CommandView>) -> bool {
        true
    }

    /// Called with a complete newline-delimited message from a client.
    /// Return the response bytes to send back (should include trailing newline).
    fn handle_message(&mut self, msg: &[u8]) -> (reply: Vec<u8>)
        ensures
            Self::replies(*old(self), msg@, *final(self), reply@),
    ;

    /// Called when a spawned child process exits.
    fn handle_child_exit(&mut self, result: ChildExit)
        ensures
            Self::notes_exit(*old(self), result@, *final(self)),
    ;

    /// Called when no child is running. Return a command to spawn, or `None`
    /// if there is no work to do.
    fn on_idle(&mut self) -> (command: Option<CommandSpec>)
        ensures
            Self::proposes(
                *old(self),
                *final(self),
                opt_command_view(command),
            ),
    ;
}

pub open spec fn is_newline() -> spec_fn(u8) -> bool {
    |b: u8| b == 10
}

/// The complete lines of a buffer, each with its newline.
pub open spec fn lines(buf: Seq<u8>) -> Seq<Seq<u8>>
    decreases buf.len(),
{
    match first_where(buf, is_newline()) {
        Some(p) => if 0 <= p < buf.len() {
            seq![buf.take(p + 1)] + lines(buf.skip(p + 1))
        } else {
            Seq::empty()
        },
        None => Seq::empty(),
    }
}

/// What follows the last newline of a buffer.
pub open spec fn unfinished(buf: Seq<u8>) -> Seq<u8>
    decreases buf.len(),
{
    match first_where(buf, is_newline()) {
        Some(p) => if 0 <= p < buf.len() {
            unfinished(buf.skip(p + 1))
        } else {
            buf
        },
        None => buf,
    }
}

/// The bytes of all parts, one after the other.
pub open spec fn concatenated(parts: Seq<Seq<u8>>) -> Seq<u8>
    decreases parts.len(),
{
    if parts.len() == 0 {
        Seq::empty()
    } else {
        concatenated(parts.drop_last()) + parts.last()
    }
}

/// Whether the handler can go from `before` to `after` over the messages, in
/// order, with those replies.
pub open spec fn conversation<H: Handler>(
    before: H,
    msgs: Seq<Seq<u8>>,
    after: H,
    replies: Seq<Seq<u8>>,
) -> bool
    decreases msgs.len(),
{
    if msgs.len() == 0 {
        before == after && replies.len() == 0
    } else {
        &&& replies.len() == msgs.len()
        &&& exists|mid: H|
            #![trigger H::replies(mid, msgs.last(), after, replies.last())]
            conversation(before, msgs.drop_last(), mid, replies.drop_last()) && H::replies(
                mid,
                msgs.last(),
                after,
                replies.last(),
            )
    }
}

/// The views of a sequence of byte vectors.
pub open spec fn byte_views(s: Seq<Vec<u8>>) -> Seq<Seq<u8>> {
    s.map_values(|v: Vec<u8>| v@)
}

/// How reading from a stream ended.
#[derive(Debug, Clone, Copy, PartialEq, Eq, Structural)]
pub enum StreamEnd {
    /// There is nothing more to read for now.
    WouldBlock,
    /// The other side closed the stream.
    Closed,
    /// Reading failed.
    Failed,
}

/// How one write to a stream went.
#[derive(Debug, Clone, Copy, PartialEq, Eq, Structural)]
pub enum WriteOutcome {
    /// So many bytes were taken.
    Wrote(usize),
    /// Nothing more can be written for now.
    WouldBlock,
    /// Writing failed.
    Failed,
}

/// Why a client cannot be kept.
#[derive(Debug, Clone, Copy, PartialEq, Eq, Structural)]
pub enum StreamFault {
    ConnectionReset,
    WriteZero,
    Failed,
}

/// The bytes on their way from and to a client.
#[derive(Debug, Clone, PartialEq, Eq)]
pub struct Client {
    pub read_buf: Vec<u8>,
    pub write_buf: Vec<u8>,
}

impl Client {
    pub fn new() -> (r: Self)
        ensures
            r.read_buf@ == Seq::<u8>::empty(),
            r.write_buf@ == Seq::<u8>::empty(),
    {
        Self { read_buf: Vec::with_capacity(4096), write_buf: Vec::new() }
    }

    pub fn has_pending_writes(&self) -> (r: bool)
        ensures
            r == (self.write_buf@.len() > 0),
    {
        self.write_buf.len() > 0
    }

    /// Queues bytes to be sent.
    pub fn enqueue_bytes(&mut self, data: &[u8])
        ensures
            final(self).write_buf@ == old(self).write_buf@ + data@,
            final(self).read_buf == old(self).read_buf,
    {
        self.write_buf.extend_from_slice(data);
    }

    /// Takes the complete lines out of what was received.
    pub fn take_lines(&mut self) -> (r: Vec<Vec<u8>>)
        ensures
            byte_views(r@) == lines(old(self).read_buf@),
            final(self).read_buf@ == unfinished(old(self).read_buf@),
            final(self).write_buf == old(self).write_buf,
    {
        let mut out: Vec<Vec<u8>> = Vec::new();
        assert(byte_views(out@) + lines(self.read_buf@) =~= lines(self.read_buf@));
        loop
            invariant
                byte_views(out@) + lines(self.read_buf@) == lines(old(self).read_buf@),
                unfinished(self.read_buf@) == unfinished(old(self).read_buf@),
                self.write_buf == old(self).write_buf,
            ensures
                byte_views(out@) == lines(old(self).read_buf@),
                self.read_buf@ == unfinished(old(self).read_buf@),
                self.write_buf == old(self).write_buf,
            decreases self.read_buf@.len(),
        {
            let ghost buf = self.read_buf@;
            match first_line_length(self.read_buf.as_slice()) {
                None => {
                    assert(byte_views(out@) + lines(buf) =~= byte_views(out@));
                    break;
                },
                Some(n) => {
                    let mut line = self.read_buf.split_off(n);
                    std::mem::swap(&mut line, &mut self.read_buf);
                    let ghost before = out@;
                    out.push(line);
                    proof {
                        assert(line@ =~= buf.take(n as int));
                        assert(self.read_buf@ =~= buf.skip(n as int));
                        assert(byte_views(out@) =~= byte_views(before).push(line@));
                        assert(byte_views(before) + lines(buf) =~= byte_views(out@) + lines(
                            self.read_buf@,
                        ));
                    }
                },
            }
        }
        out
    }

    /// Hands each complete line to the handler, in order, and queues the replies.
    pub fn process_client_lines<H: Handler>(&mut self, handler: &mut H)
        ensures
            final(self).read_buf@ == unfinished(old(self).read_buf@),
            exists|replies: Seq<Seq<u8>>|
                #![trigger concatenated(replies)]
                conversation(
                    *old(handler),
                    lines(old(self).read_buf@),
                    *final(handler),
                    replies,
                ) && final(self).write_buf@ == old(self).write_buf@ + concatenated(replies),
    {
        let taken = self.take_lines();
        let ghost msgs = byte_views(taken@);
        let ghost mut replies: Seq<Seq<u8>> = Seq::empty();
        let mut i: usize = 0;
        proof {
            assert(msgs.take(0) =~= Seq::<Seq<u8>>::empty());
            assert(self.write_buf@ =~= old(self).write_buf@ + concatenated(replies));
        }
        while i < taken.len()
            invariant
                i <= taken@.len(),
                msgs == byte_views(taken@),
                replies.len() == i,
                conversation(*old(handler), msgs.take(i as int), *handler, replies),
                self.read_buf@ == unfinished(old(self).read_buf@),
                self.write_buf@ == old(self).write_buf@ + concatenated(replies),
            decreases taken@.len() - i,
        {
            let ghost mid = *handler;
            let ghost queued = self.write_buf@;
            let response = handler.handle_message(taken[i].as_slice());
            self.enqueue_bytes(response.as_slice());
            proof {
                let next = replies.push(response@);
                assert(next.drop_last() =~= replies);
                assert(next.last() == response@);
                assert(msgs.take(i + 1).drop_last() =~= msgs.take(i as int));
                assert(msgs.take(i + 1).last() == taken@[i as int]@);
                assert(H::replies(mid, msgs.take(i + 1).last(), *handler, next.last()));
                assert(conversation(*old(handler), msgs.take(i + 1), *handler, next));
                assert(self.write_buf@ =~= old(self).write_buf@ + concatenated(next));
                replies = next;
            }
            i = i + 1;
        }
        assert(msgs.take(i as int) =~= msgs);
    }

    /// Takes in what was read from the client until reading ended. Where there
    /// is nothing more to read for now, the complete lines are processed;
    /// otherwise the client is lost.
    pub fn handle_client_readable<H: Handler>(
        &mut self,
        data: &[u8],
        end: StreamEnd,
        handler: &mut H,
    ) -> (r: std::result::Result<(), StreamFault>)
        ensures
            r == (match end {
                StreamEnd::WouldBlock => Ok(()),
                StreamEnd::Closed => Err(StreamFault::ConnectionReset),
                StreamEnd::Failed => Err(StreamFault::Failed),
            }),
            received(
                *old(self),
                *old(handler),
                data@,
                end,
                *final(self),
                *final(handler),
            ),
    {
        self.read_buf.extend_from_slice(data);
        assert(self.read_buf@ =~= old(self).read_buf@ + data@);
        match end {
            StreamEnd::Closed => Err(StreamFault::ConnectionReset),
            StreamEnd::Failed => Err(StreamFault::Failed),
            StreamEnd::WouldBlock => {
                self.process_client_lines(handler);
                Ok(())
            },
        }
    }

    /// Takes in how one write of the queued bytes went. Says whether to write
    /// again: as long as bytes are queued and the client takes them.
    pub fn handle_client_writable(&mut self, outcome: WriteOutcome) -> (r: std::result::Result<
        bool,
        StreamFault,
    >)
        requires
            outcome matches WriteOutcome::Wrote(n) ==> n <= old(self).write_buf@.len(),
        ensures
            final(self).read_buf == old(self).read_buf,
            match outcome {
                WriteOutcome::Wrote(n) => final(self).write_buf@ == old(self).write_buf@.skip(
                    n as int,
                ) && r == (if n == 0 {
                    Err(StreamFault::WriteZero)
                } else {
                    Ok(n < old(self).write_buf@.len())
                }),
                WriteOutcome::WouldBlock => final(self).write_buf == old(self).write_buf && r == Ok::<
                    bool,
                    StreamFault,
                >(false),
                WriteOutcome::Failed => final(self).write_buf == old(self).write_buf && r == Err::<
                    bool,
                    StreamFault,
                >(StreamFault::Failed),
            },
    {
        match outcome {
            WriteOutcome::Wrote(n) => {
                if n == 0 {
                    assert(self.write_buf@ =~= self.write_buf@.skip(0));
                    return Err(StreamFault::WriteZero);
                }
                let rest = self.write_buf.split_off(n);
                assert(rest@ =~= old(self).write_buf@.skip(n as int));
                self.write_buf = rest;
                Ok(self.write_buf.len() > 0)
            },
            WriteOutcome::WouldBlock => Ok(false),
            WriteOutcome::Failed => Err(StreamFault::Failed),
        }
    }
}

/// How many bytes the first complete line has, its newline counted.
pub fn first_line_length(buf: &[u8]) -> (r: Option<usize>)
    ensures
        match r {
            Some(n) => first_where(buf@, is_newline()) == Some(n - 1) && 0 < n <= buf@.len(),
            None => first_where(buf@, is_newline()) is None,
        },
{
    let mut i: usize = 0;
    while i < buf.len()
        invariant
            i <= buf@.len(),
            forall|j: int| 0 <= j < i ==> !is_newline()(#[trigger] buf@[j]),
        decreases buf@.len() - i,
    {
        if buf[i] == 10u8 {
            proof {
                lemma_first_where_is(buf@, is_newline(), i as int);
            }
            return Some(i + 1);
        }
        i = i + 1;
    }
    proof {
        lemma_first_where_none(buf@, is_newline());
    }
    None
}

/// What polling found of a file descriptor.
#[derive(Debug, Clone, Copy, PartialEq, Eq, Structural)]
pub struct Readiness {
    /// There is something to read.
    pub readable: bool,
    /// Something can be written.
    pub writable: bool,
    /// There was an error, the other side hung up, or the descriptor is not open.
    pub failed: bool,
}

/// A file descriptor to poll. It is always polled for reading.
#[derive(Debug, Clone, Copy, PartialEq, Eq, Structural)]
pub struct PollFd {
    pub fd: i32,
    /// Whether it is polled for writing too.
    pub write: bool,
    pub found: Readiness,
}

/// The entry of a descriptor before polling.
pub open spec fn entry(fd: i32, write: bool) -> PollFd {
    PollFd { fd, write, found: Readiness { readable: false, writable: false, failed: false } }
}

impl PollFd {
    pub fn new(fd: i32, write: bool) -> (r: Self)
        ensures
            r == entry(fd, write),
    {
        PollFd { fd, write, found: Readiness { readable: false, writable: false, failed: false } }
    }
}

/// A child process under way, and what it has written so far.
#[derive(Debug, Clone, PartialEq, Eq)]
pub struct RunningChild {
    pub stdout_fd: i32,
    pub stderr_fd: i32,
    pub stdout_buf: Vec<u8>,
    pub stderr_buf: Vec<u8>,
}

/// How asking for the end of the child process went.
#[derive(Debug, Clone, Copy, PartialEq, Eq, Structural)]
pub enum WaitOutcome {
    /// It ended, with success or without.
    Exited(bool),
    /// It has not ended.
    StillRunning,
    /// Asking failed.
    Failed,
}

/// One thing to do after polling.
#[derive(Debug, Clone, Copy, PartialEq, Eq, Structural)]
pub enum Task {
    /// Empty the shutdown pipe and shut down.
    HandleSignal,
    /// Empty the pipe that tells of ended children.
    DrainSigchild,
    /// Give the client up.
    DropClient(i32),
    /// Read what the client sent.
    ReadClient(i32),
    /// Write what is queued for the client.
    WriteClient(i32),
    /// Remove the clients that were given up.
    RemoveDropped,
    /// Read what the child wrote to its standard output.
    ReadStdout,
    /// Read what the child wrote to its standard error.
    ReadStderr,
    /// Ask whether the child has ended; with the word whether a signal said so.
    ReapChild(bool),
    /// Accept the clients that are waiting.
    AcceptClients,
}

/// What the loop does next.
#[derive(Debug, Clone, Copy, PartialEq, Eq, Structural)]
pub enum LoopAction {
    /// Poll, do what there is to do, and start the next command where none is running.
    Poll,
    /// Shut down and end.
    Stop,
}

/// A list with the item, if it is wanted.
pub open spec fn only_if(wanted: bool, task: Task) -> Seq<Task> {
    if wanted {
        seq![task]
    } else {
        Seq::empty()
    }
}

/// What to do about one client.
pub open spec fn client_tasks(e: PollFd) -> Seq<Task> {
    if e.found.failed {
        seq![Task::DropClient(e.fd)]
    } else {
        only_if(e.found.readable, Task::ReadClient(e.fd)) + only_if(
            e.found.writable,
            Task::WriteClient(e.fd),
        )
    }
}

/// What to do about the clients, in order.
pub open spec fn all_client_tasks(entries: Seq<PollFd>) -> Seq<Task>
    decreases entries.len(),
{
    if entries.len() == 0 {
        Seq::empty()
    } else {
        all_client_tasks(entries.drop_last()) + client_tasks(entries.last())
    }
}

/// The entries that belong to clients: they follow the three of the loop itself
/// and stand before the two of a child.
pub open spec fn client_entries(entries: Seq<PollFd>, child: bool) -> Seq<PollFd> {
    entries.subrange(3, entries.len() - child_entry_count(child))
}

pub open spec fn child_entry_count(child: bool) -> int {
    if child {
        2
    } else {
        0
    }
}

/// What to do about the child process.
pub open spec fn child_tasks(entries: Seq<PollFd>, child: bool) -> Seq<Task> {
    if child {
        only_if(entries[entries.len() - 2].found.readable, Task::ReadStdout) + only_if(
            entries[entries.len() - 1].found.readable,
            Task::ReadStderr,
        ) + seq![Task::ReapChild(entries[1].found.readable)]
    } else {
        Seq::empty()
    }
}

/// All there is to do after polling, in order. New clients come last.
pub open spec fn tasks(entries: Seq<PollFd>, child: bool) -> Seq<Task> {
    only_if(entries[0].found.readable, Task::HandleSignal) + only_if(
        entries[1].found.readable,
        Task::DrainSigchild,
    ) + all_client_tasks(client_entries(entries, child)) + seq![Task::RemoveDropped] + child_tasks(
        entries,
        child,
    ) + only_if(entries[2].found.readable, Task::AcceptClients)
}

/// Whether the entries ask for each of the clients once, for writing where
/// something is queued.
pub open spec fn covers(entries: Seq<PollFd>, clients: Map<i32, Client>) -> bool {
    &&& entries.len() == clients.dom().len()
    &&& forall|i: int|
        #![trigger entries[i]]
        0 <= i < entries.len() ==> clients.contains_key(entries[i].fd) && entries[i] == entry(
            entries[i].fd,
            clients[entries[i].fd].write_buf@.len() > 0,
        )
    &&& forall|i: int, j: int|
        #![trigger entries[i], entries[j]]
        0 <= i < j < entries.len() ==> entries[i].fd != entries[j].fd
    &&& forall|fd: i32| #[trigger]
        clients.contains_key(fd) ==> exists|i: int|
            0 <= i < entries.len() && (#[trigger] entries[i]).fd == fd
}

/// Whether reading those bytes, up to that end, can take the client and the
/// handler to those after it.
pub open spec fn received<H: Handler>(
    client: Client,
    handler: H,
    data: Seq<u8>,
    end: StreamEnd,
    client_after: Client,
    handler_after: H,
) -> bool {
    if end is WouldBlock {
        &&& client_after.read_buf@ == unfinished(client.read_buf@ + data)
        &&& exists|replies: Seq<Seq<u8>>|
            #![trigger concatenated(replies)]
            conversation(handler, lines(client.read_buf@ + data), handler_after, replies)
                && client_after.write_buf@ == client.write_buf@ + concatenated(replies)
    } else {
        &&& handler_after == handler
        &&& client_after.read_buf@ == client.read_buf@ + data
        &&& client_after.write_buf == client.write_buf
    }
}

/// The state of the loop between polls.
pub struct EventLoop<H: Handler> {
    pub clients: HashMap<i32, Client>,
    /// The clients to remove.
    pub dropped: Vec<i32>,
    pub running_child: Option<RunningChild>,
    pub poll_fds: Vec<PollFd>,
    pub handler: H,
    pub shutting_down: bool,
}

impl<H: Handler> EventLoop<H> {
    /// Whether the poll list has an entry for the shutdown pipe, for the pipe of
    /// ended children and for the listener, and two more where a child runs.
    pub open spec fn wf(&self) -> bool {
        self.poll_fds@.len() >= 3 + child_entry_count(self.running_child is Some)
    }

    /// The poll list that asks for everything the loop waits for.
    pub open spec fn is_prepared(&self, fixed: Seq<PollFd>) -> bool {
        let entries = self.poll_fds@;
        &&& self.wf()
        &&& entries.take(3) =~= Seq::new(3, |i: int| entry(fixed[i].fd, fixed[i].write))
        &&& covers(client_entries(entries, self.running_child is Some), self.clients@)
        &&& self.running_child matches Some(child) ==> entries.skip(entries.len() - 2) =~= seq![
            entry(child.stdout_fd, false),
            entry(child.stderr_fd, false),
        ]
    }

    /// Create a new event loop.
    ///
    /// - `listener_fd`: a bound listener.
    /// - `signal_fd`: the read end of a self-pipe for shutdown signaling
    ///   (`SIGINT`/`SIGTERM`).
    /// - `sigchild_fd`: the read end of a self-pipe for `SIGCHLD` notification.
    /// - `handler`: application logic for message dispatch and child completion.
    pub fn new(listener_fd: i32, signal_fd: i32, sigchild_fd: i32, handler: H) -> (r: Self)
        ensures
            r.wf(),
            r.clients@ == Map::<i32, Client>::empty(),
            r.dropped@ == Seq::<i32>::empty(),
            r.running_child is None,
            r.poll_fds@ == seq![
                entry(signal_fd, false),
                entry(sigchild_fd, false),
                entry(listener_fd, false),
            ],
            r.handler == handler,
            !r.shutting_down,
    {
        let mut poll_fds: Vec<PollFd> = Vec::new();
        poll_fds.push(PollFd::new(signal_fd, false));
        poll_fds.push(PollFd::new(sigchild_fd, false));
        poll_fds.push(PollFd::new(listener_fd, false));
        Self {
            clients: HashMap::new(),
            dropped: Vec::new(),
            running_child: None,
            poll_fds,
            handler,
            shutting_down: false,
        }
    }

    /// Access to the handler.
    pub fn handler(&self) -> (r: &H)
        ensures
            *r == self.handler,
    {
        &self.handler
    }

    /// What the loop does next: it polls until it is told to shut down.
    pub fn turn(&self) -> (r: LoopAction)
        ensures
            r is Stop <==> self.shutting_down,
            r is Poll <==> !self.shutting_down,
    {
        if self.shutting_down {
            LoopAction::Stop
        } else {
            LoopAction::Poll
        }
    }

    /// Makes the poll list anew: the three fixed entries, the clients, the child.
    pub fn prep_pollfds(&mut self)
        requires
            old(self).poll_fds@.len() >= 3,
        ensures
            final(self).is_prepared(old(self).poll_fds@),
            final(self).clients == old(self).clients,
            final(self).dropped == old(self).dropped,
            final(self).running_child == old(self).running_child,
            final(self).handler == old(self).handler,
            final(self).shutting_down == old(self).shutting_down,
    {
        let mut entries: Vec<PollFd> = Vec::new();
        entries.push(PollFd::new(self.poll_fds[0].fd, self.poll_fds[0].write));
        entries.push(PollFd::new(self.poll_fds[1].fd, self.poll_fds[1].write));
        entries.push(PollFd::new(self.poll_fds[2].fd, self.poll_fds[2].write));
        let ghost fixed = entries@;
        let ghost clients = self.clients@;

        let listed = self.clients.iter();
        let ghost all = listed.remaining();
        for pair in pairs: listed
            invariant
                clients == self.clients@,
                pairs.seq() == all,
                entries@.len() == 3 + pairs.index(),
                entries@.take(3) == fixed,
                all.no_duplicates(),
                forall|i: int|
                    #![trigger all[i]]
                    0 <= i < all.len() ==> clients.contains_key(*all[i].0) && clients[*all[i].0]
                        == *all[i].1,
                forall|i: int|
                    #![trigger entries@[3 + i]]
                    0 <= i < pairs.index() ==> entries@[3 + i] == entry(
                        *all[i].0,
                        all[i].1.write_buf@.len() > 0,
                    ),
        {
            let (fd, client) = pair;
            entries.push(PollFd::new(*fd, client.has_pending_writes()));
        }
        let ghost part = entries@.subrange(3, entries@.len() as int);
        proof {
            assert forall|i: int| 0 <= i < part.len() implies #[trigger] part[i] == entry(
                *all[i].0,
                all[i].1.write_buf@.len() > 0,
            ) by {
                assert(part[i] == entries@[3 + i]);
            }
            assert forall|fd: i32| #[trigger] clients.contains_key(fd) implies exists|i: int|
                0 <= i < part.len() && (#[trigger] part[i]).fd == fd by {
                let i = choose|i: int| 0 <= i < all.len() && all[i] == (&fd, &clients[fd]);
                assert(part[i].fd == fd);
            }
            assert(covers(part, clients));
        }
        match &self.running_child {
            Some(child) => {
                entries.push(PollFd::new(child.stdout_fd, false));
                entries.push(PollFd::new(child.stderr_fd, false));
            },
            None => {},
        }
        self.poll_fds = entries;
        proof {
            let child = self.running_child is Some;
            assert(client_entries(self.poll_fds@, child) =~= part);
            assert(self.poll_fds@.take(3) =~= fixed);
        }
    }

    /// Takes in what polling found of the descriptor at that place of the poll list.
    pub fn note_readiness(&mut self, index: usize, found: Readiness)
        requires
            index < old(self).poll_fds@.len(),
        ensures
            final(self).poll_fds@ == old(self).poll_fds@.update(
                index as int,
                (PollFd { found, ..old(self).poll_fds@[index as int] }),
            ),
            final(self).clients == old(self).clients,
            final(self).dropped == old(self).dropped,
            final(self).running_child == old(self).running_child,
            final(self).handler == old(self).handler,
            final(self).shutting_down == old(self).shutting_down,
    {
        let old_entry = self.poll_fds[index];
        self.poll_fds.set(index, PollFd { fd: old_entry.fd, write: old_entry.write, found });
    }

    /// What to do after polling, in order.
    pub fn dispatch_poll_results(&self) -> (r: Vec<Task>)
        requires
            self.wf(),
        ensures
            r@ == tasks(self.poll_fds@, self.running_child is Some),
    {
        let child = self.running_child.is_some();
        let child_done = self.poll_fds[1].found.readable;
        let mut r: Vec<Task> = Vec::new();
        push_if(&mut r, self.poll_fds[0].found.readable, Task::HandleSignal);
        assert(r@ =~= only_if(self.poll_fds@[0].found.readable, Task::HandleSignal));
        push_if(&mut r, child_done, Task::DrainSigchild);
        let child_suffix: usize = if child {
            2
        } else {
            0
        };
        let end: usize = self.poll_fds.len() - child_suffix;
        push_client_tasks(&mut r, self.poll_fds.as_slice(), end);
        r.push(Task::RemoveDropped);
        let ghost before = r@;
        if child {
            push_if(&mut r, self.poll_fds[end].found.readable, Task::ReadStdout);
            push_if(&mut r, self.poll_fds[end + 1].found.readable, Task::ReadStderr);
            r.push(Task::ReapChild(child_done));
        }
        assert(r@ =~= before + child_tasks(self.poll_fds@, child));
        push_if(&mut r, self.poll_fds[2].found.readable, Task::AcceptClients);
        r
    }

    /// Begins to shut down: the next turn stops the loop.
    pub fn handle_signal(&mut self)
        ensures
            final(self).shutting_down,
            final(self).poll_fds == old(self).poll_fds,
            final(self).clients == old(self).clients,
            final(self).dropped == old(self).dropped,
            final(self).running_child == old(self).running_child,
            final(self).handler == old(self).handler,
    {
        self.shutting_down = true;
    }

    /// Takes a new client in, under the descriptor of its stream.
    pub fn accept_client(&mut self, fd: i32)
        ensures
            final(self).clients@.dom() == old(self).clients@.dom().insert(fd),
            final(self).clients@[fd].read_buf@ == Seq::<u8>::empty(),
            final(self).clients@[fd].write_buf@ == Seq::<u8>::empty(),
            forall|other: i32|
                other != fd && #[trigger] old(self).clients@.contains_key(other)
                    ==> final(self).clients@[other] == old(self).clients@[other],
            final(self).poll_fds == old(self).poll_fds,
            final(self).dropped == old(self).dropped,
            final(self).running_child == old(self).running_child,
            final(self).handler == old(self).handler,
            final(self).shutting_down == old(self).shutting_down,
    {
        self.clients.insert(fd, Client::new());
    }

    /// Notes that the client is to be removed.
    pub fn drop_client(&mut self, fd: i32)
        ensures
            final(self).dropped@ == old(self).dropped@.push(fd),
            final(self).poll_fds == old(self).poll_fds,
            final(self).clients == old(self).clients,
            final(self).running_child == old(self).running_child,
            final(self).handler == old(self).handler,
            final(self).shutting_down == old(self).shutting_down,
    {
        self.dropped.push(fd);
    }

    /// Removes a client. Says whether there was one.
    pub fn remove_client(&mut self, fd: i32) -> (r: bool)
        ensures
            r == old(self).clients@.contains_key(fd),
            final(self).clients@ == old(self).clients@.remove(fd),
            final(self).poll_fds == old(self).poll_fds,
            final(self).dropped == old(self).dropped,
            final(self).running_child == old(self).running_child,
            final(self).handler == old(self).handler,
            final(self).shutting_down == old(self).shutting_down,
    {
        self.clients.remove(&fd).is_some()
    }

    /// Removes the clients that were given up. Returns those that were there.
    pub fn remove_dropped(&mut self) -> (r: Vec<i32>)
        ensures
            final(self).clients@ == old(self).clients@.remove_keys(old(self).dropped@.to_set()),
            final(self).dropped@ == Seq::<i32>::empty(),
            r@.no_duplicates(),
            r@.to_set() == old(self).dropped@.to_set().intersect(old(self).clients@.dom()),
            final(self).poll_fds == old(self).poll_fds,
            final(self).running_child == old(self).running_child,
            final(self).handler == old(self).handler,
            final(self).shutting_down == old(self).shutting_down,
    {
        let mut given_up: Vec<i32> = Vec::new();
        std::mem::swap(&mut given_up, &mut self.dropped);
        let ghost all = given_up@;
        let ghost before = self.clients@;
        let mut gone: Vec<i32> = Vec::new();
        let mut i: usize = 0;
        assert(self.clients@ =~= before.remove_keys(all.take(0).to_set()));
        assert(gone@.to_set() =~= all.take(0).to_set().intersect(before.dom()));
        while i < given_up.len()
            invariant
                i <= all.len(),
                all == given_up@,
                before == old(self).clients@,
                self.clients@ == before.remove_keys(all.take(i as int).to_set()),
                gone@.no_duplicates(),
                gone@.to_set() == all.take(i as int).to_set().intersect(before.dom()),
                self.dropped@ == Seq::<i32>::empty(),
                self.poll_fds == old(self).poll_fds,
                self.running_child == old(self).running_child,
                self.handler == old(self).handler,
                self.shutting_down == old(self).shutting_down,
            decreases all.len() - i,
        {
            let fd: i32 = given_up[i];
            let ghost kept = self.clients@;
            let ghost gone_before = gone@;
            proof {
                let next = all.take(i + 1);
                assert(next =~= all.take(i as int).push(fd));
                assert(next.to_set() =~= all.take(i as int).to_set().insert(fd)) by {
                    lemma_push_to_set(all.take(i as int), fd);
                }
                assert(kept.remove(fd) =~= before.remove_keys(next.to_set()));
            }
            if self.remove_client(fd) {
                gone.push(fd);
                proof {
                    lemma_push_to_set(gone_before, fd);
                    assert(!gone_before.to_set().contains(fd));
                }
            }
            assert(gone@.to_set() =~= all.take(i + 1).to_set().intersect(before.dom()));
            i = i + 1;
        }
        assert(all.take(i as int) =~= all);
        gone
    }

    /// Takes in what was read from a client until reading ended. A client whose
    /// stream ended or failed is given up.
    pub fn client_readable(&mut self, fd: i32, data: &[u8], end: StreamEnd)
        requires
            old(self).clients@.contains_key(fd),
        ensures
            final(self).clients@ == old(self).clients@.insert(fd, final(self).clients@[fd]),
            received(
                old(self).clients@[fd],
                old(self).handler,
                data@,
                end,
                final(self).clients@[fd],
                final(self).handler,
            ),
            final(self).dropped@ == (if end is WouldBlock {
                old(self).dropped@
            } else {
                old(self).dropped@.push(fd)
            }),
            final(self).poll_fds == old(self).poll_fds,
            final(self).running_child == old(self).running_child,
            final(self).shutting_down == old(self).shutting_down,
    {
        if let Some(mut client) = self.clients.remove(&fd) {
            if client.handle_client_readable(data, end, &mut self.handler).is_err() {
                self.drop_client(fd);
            }
            self.clients.insert(fd, client);
        }
        assert(self.clients@ =~= old(self).clients@.insert(fd, self.clients@[fd]));
    }

    /// Takes in how one write to a client went. Says whether to write again. A
    /// client to which writing failed is given up.
    pub fn client_writable(&mut self, fd: i32, outcome: WriteOutcome) -> (again: bool)
        requires
            old(self).clients@.contains_key(fd),
            outcome matches WriteOutcome::Wrote(n) ==> n <= old(self).clients@[fd].write_buf@.len(),
        ensures
            ({
                let before = old(self).clients@[fd];
                let after = final(self).clients@[fd];
                let taken: int = match outcome {
                    WriteOutcome::Wrote(n) => n as int,
                    _ => 0,
                };
                &&& final(self).clients@ == old(self).clients@.insert(fd, after)
                &&& after.read_buf == before.read_buf
                &&& after.write_buf@ == before.write_buf@.skip(taken)
                &&& again == (taken > 0 && taken < before.write_buf@.len())
                &&& final(self).dropped@ == (if outcome is Failed || outcome
                    == WriteOutcome::Wrote(0) {
                    old(self).dropped@.push(fd)
                } else {
                    old(self).dropped@
                })
            }),
            final(self).poll_fds == old(self).poll_fds,
            final(self).running_child == old(self).running_child,
            final(self).handler == old(self).handler,
            final(self).shutting_down == old(self).shutting_down,
    {
        let mut again = false;
        let ghost before = self.clients@[fd];
        assert(before.write_buf@ =~= before.write_buf@.skip(0));
        if let Some(mut client) = self.clients.remove(&fd) {
            match client.handle_client_writable(outcome) {
                Ok(more) => {
                    again = more;
                },
                Err(_) => {
                    self.drop_client(fd);
                },
            }
            self.clients.insert(fd, client);
        }
        assert(self.clients@ =~= old(self).clients@.insert(fd, self.clients@[fd]));
        again
    }

    /// Asks the handler for work, if no child is running.
    pub fn next_command(&mut self) -> (r: Option<CommandSpec>)
        ensures
            old(self).running_child is Some ==> r is None && final(self).handler == old(
                self,
            ).handler,
            old(self).running_child is None ==> H::proposes(
                old(self).handler,
                final(self).handler,
                opt_command_view(r),
            ),
            final(self).poll_fds == old(self).poll_fds,
            final(self).clients == old(self).clients,
            final(self).dropped == old(self).dropped,
            final(self).running_child == old(self).running_child,
            final(self).shutting_down == old(self).shutting_down,
    {
        if self.running_child.is_some() {
            None
        } else {
            self.handler.on_idle()
        }
    }

    /// Notes that a child was started, with the pipes it writes to.
    pub fn child_started(&mut self, stdout_fd: i32, stderr_fd: i32)
        requires
            old(self).running_child is None,
        ensures
            final(self).running_child matches Some(child) && child.stdout_fd == stdout_fd
                && child.stderr_fd == stderr_fd && child.stdout_buf@ == Seq::<u8>::empty()
                && child.stderr_buf@ == Seq::<u8>::empty(),
            final(self).poll_fds == old(self).poll_fds,
            final(self).clients == old(self).clients,
            final(self).dropped == old(self).dropped,
            final(self).handler == old(self).handler,
            final(self).shutting_down == old(self).shutting_down,
    {
        self.running_child = Some(
            RunningChild { stdout_fd, stderr_fd, stdout_buf: Vec::new(), stderr_buf: Vec::new() },
        );
    }

    /// Tells the handler that a child could not be started.
    pub fn spawn_failed(&mut self, reason: &str)
        ensures
            H::notes_exit(
                old(self).handler,
                ExitView {
                    success: false,
                    stdout: Seq::empty(),
                    stderr: vstd::utf8::encode_utf8("spawn error: "@ + reason@),
                },
                final(self).handler,
            ),
            final(self).poll_fds == old(self).poll_fds,
            final(self).clients == old(self).clients,
            final(self).dropped == old(self).dropped,
            final(self).running_child == old(self).running_child,
            final(self).shutting_down == old(self).shutting_down,
    {
        let text = "spawn error: ".to_owned().concat(reason);
        let bytes = text.as_str().as_bytes();
        let mut stderr: Vec<u8> = Vec::new();
        stderr.extend_from_slice(bytes);
        assert(stderr@ =~= bytes@);
        let exit = ChildExit { success: false, stdout: Vec::new(), stderr };
        self.handler.handle_child_exit(exit);
    }

    /// Takes in what the child wrote to its standard output.
    pub fn child_stdout(&mut self, data: &[u8])
        requires
            old(self).running_child is Some,
        ensures
            final(self).running_child matches Some(child) && {
                &&& child.stdout_buf@ == old(self).running_child->0.stdout_buf@ + data@
                &&& child.stderr_buf == old(self).running_child->0.stderr_buf
                &&& child.stdout_fd == old(self).running_child->0.stdout_fd
                &&& child.stderr_fd == old(self).running_child->0.stderr_fd
            },
            final(self).poll_fds == old(self).poll_fds,
            final(self).clients == old(self).clients,
            final(self).dropped == old(self).dropped,
            final(self).handler == old(self).handler,
            final(self).shutting_down == old(self).shutting_down,
    {
        if let Some(mut child) = self.running_child.take() {
            let ghost before = child.stdout_buf@;
            child.stdout_buf.extend_from_slice(data);
            assert(child.stdout_buf@ =~= before + data@);
            self.running_child = Some(child);
        }
    }

    /// Takes in what the child wrote to its standard error.
    pub fn child_stderr(&mut self, data: &[u8])
        requires
            old(self).running_child is Some,
        ensures
            final(self).running_child matches Some(child) && {
                &&& child.stderr_buf@ == old(self).running_child->0.stderr_buf@ + data@
                &&& child.stdout_buf == old(self).running_child->0.stdout_buf
                &&& child.stdout_fd == old(self).running_child->0.stdout_fd
                &&& child.stderr_fd == old(self).running_child->0.stderr_fd
            },
            final(self).poll_fds == old(self).poll_fds,
            final(self).clients == old(self).clients,
            final(self).dropped == old(self).dropped,
            final(self).handler == old(self).handler,
            final(self).shutting_down == old(self).shutting_down,
    {
        if let Some(mut child) = self.running_child.take() {
            let ghost before = child.stderr_buf@;
            child.stderr_buf.extend_from_slice(data);
            assert(child.stderr_buf@ =~= before + data@);
            self.running_child = Some(child);
        }
    }

    /// Tells the handler of the child's end, with all that the child wrote, if
    /// there is a child and it has ended.
    pub fn try_reap_child(&mut self, outcome: WaitOutcome)
        ensures
            (old(self).running_child is Some && outcome is Exited) ==> {
                &&& final(self).running_child is None
                &&& H::notes_exit(
                    old(self).handler,
                    ExitView {
                        success: outcome->Exited_0,
                        stdout: old(self).running_child->0.stdout_buf@,
                        stderr: old(self).running_child->0.stderr_buf@,
                    },
                    final(self).handler,
                )
            },
            !(old(self).running_child is Some && outcome is Exited) ==> final(self).running_child
                == old(self).running_child && final(self).handler == old(self).handler,
            final(self).poll_fds == old(self).poll_fds,
            final(self).clients == old(self).clients,
            final(self).dropped == old(self).dropped,
            final(self).shutting_down == old(self).shutting_down,
    {
        match outcome {
            WaitOutcome::Exited(success) => {
                if let Some(child) = self.running_child.take() {
                    let exit = ChildExit {
                        success,
                        stdout: child.stdout_buf,
                        stderr: child.stderr_buf,
                    };
                    self.handler.handle_child_exit(exit);
                }
            },
            WaitOutcome::StillRunning | WaitOutcome::Failed => {},
        }
    }

    /// Forgets the child and all clients. Says whether there was a child, which
    /// is then to be killed.
    pub fn shutdown(&mut self) -> (kill: bool)
        ensures
            kill == (old(self).running_child is Some),
            final(self).running_child is None,
            final(self).clients@ == Map::<i32, Client>::empty(),
            final(self).poll_fds == old(self).poll_fds,
            final(self).dropped == old(self).dropped,
            final(self).handler == old(self).handler,
            final(self).shutting_down == old(self).shutting_down,
    {
        let kill = self.running_child.is_some();
        self.running_child = None;
        self.clients.clear();
        kill
    }
}

/// Adds the task, if it is wanted.
fn push_if(r: &mut Vec<Task>, wanted: bool, task: Task)
    ensures
        final(r)@ == old(r)@ + only_if(wanted, task),
{
    if wanted {
        r.push(task);
    }
    assert(r@ =~= old(r)@ + only_if(wanted, task));
}

/// Adds what to do about the clients, whose entries stand before `end`.
fn push_client_tasks(r: &mut Vec<Task>, entries: &[PollFd], end: usize)
    requires
        3 <= end <= entries@.len(),
    ensures
        final(r)@ == old(r)@ + all_client_tasks(entries@.subrange(3, end as int)),
{
    let ghost ours = entries@.subrange(3, end as int);
    let ghost start = r@;
    let mut i: usize = 3;
    assert(ours.take(0) =~= Seq::<PollFd>::empty());
    assert(r@ =~= start + all_client_tasks(ours.take(0)));
    while i < end
        invariant
            3 <= i <= end <= entries@.len(),
            ours == entries@.subrange(3, end as int),
            r@ == start + all_client_tasks(ours.take(i - 3)),
        decreases end - i,
    {
        let e = entries[i];
        let ghost before = r@;
        if e.found.failed {
            r.push(Task::DropClient(e.fd));
        } else {
            push_if(r, e.found.readable, Task::ReadClient(e.fd));
            push_if(r, e.found.writable, Task::WriteClient(e.fd));
        }
        proof {
            let next = ours.take(i - 3 + 1);
            assert(next.drop_last() =~= ours.take(i - 3));
            assert(next.last() == e);
            assert(r@ =~= before + client_tasks(e));
            assert(r@ =~= start + all_client_tasks(next));
        }
        i = i + 1;
    }
    assert(ours.take(i - 3) =~= ours);
}

proof fn lemma_push_to_set(s: Seq<i32>, x: i32)
    ensures
        s.push(x).to_set() == s.to_set().insert(x),
{
    let t = s.push(x);
    assert forall|y: i32| #[trigger] t.to_set().contains(y) == s.to_set().insert(x).contains(y) by {
        if s.contains(y) {
            let i = choose|i: int| 0 <= i < s.len() && s[i] == y;
            assert(t[i] == y);
        }
        assert(t[s.len() as int] == x);
    }
    assert(t.to_set() =~= s.to_set().insert(x));
}

/// The complete lines and what follows them are the buffer: nothing that was
/// received is lost, doubled or moved.
pub proof fn lines_and_rest_are_the_buffer(buf: Seq<u8>)
    ensures
        concatenated(lines(buf)) + unfinished(buf) == buf,
    decreases buf.len(),
{
    lemma_first_where(buf, is_newline());
    match first_where(buf, is_newline()) {
        Some(p) => {
            let rest = buf.skip(p + 1);
            lines_and_rest_are_the_buffer(rest);
            lemma_concatenated_append(seq![buf.take(p + 1)], lines(rest));
            let first = seq![buf.take(p + 1)];
            assert(concatenated(first) =~= buf.take(p + 1)) by {
                assert(first.drop_last() =~= Seq::<Seq<u8>>::empty());
                reveal_with_fuel(concatenated, 2);
            }
            assert(concatenated(lines(buf)) + unfinished(buf) =~= buf.take(p + 1) + rest);
            assert(buf.take(p + 1) + rest =~= buf);
        },
        None => {
            assert(concatenated(lines(buf)) + unfinished(buf) =~= buf);
        },
    }
}

/// A message handed to the handler ends in a newline and holds no other; what
/// waits for more holds none.
pub proof fn lines_end_at_newlines(buf: Seq<u8>)
    ensures
        forall|i: int|
            #![trigger lines(buf)[i]]
            0 <= i < lines(buf).len() ==> lines(buf)[i].len() > 0 && lines(buf)[i].last() == 10
                && !lines(buf)[i].drop_last().contains(10),
        !unfinished(buf).contains(10),
    decreases buf.len(),
{
    lemma_first_where(buf, is_newline());
    match first_where(buf, is_newline()) {
        Some(p) => {
            let rest = buf.skip(p + 1);
            lines_end_at_newlines(rest);
            let first = buf.take(p + 1);
            assert forall|j: int| 0 <= j < p implies first.drop_last()[j] != 10 by {
                assert(!is_newline()(buf[j]));
            }
            assert(is_newline()(buf[p]));
            assert forall|i: int| #![trigger lines(buf)[i]] 0 <= i < lines(buf).len() implies lines(
                buf,
            )[i].len() > 0 && lines(buf)[i].last() == 10 && !lines(buf)[i].drop_last().contains(
                10,
            ) by {
                if i > 0 {
                    assert(lines(buf)[i] == lines(rest)[i - 1]);
                } else {
                    assert(lines(buf)[i] == first);
                }
            }
        },
        None => {
            assert forall|j: int| 0 <= j < buf.len() implies buf[j] != 10 by {
                assert(!is_newline()(buf[j]));
            }
        },
    }
}

/// Where the bytes of a client are cut into reads does not matter: the same
/// lines come out, in the same order.
pub proof fn chunks_do_not_matter(a: Seq<u8>, b: Seq<u8>)
    ensures
        lines(a + b) == lines(a) + lines(unfinished(a) + b),
        unfinished(a + b) == unfinished(unfinished(a) + b),
    decreases a.len(),
{
    lemma_first_where(a, is_newline());
    match first_where(a, is_newline()) {
        Some(p) => {
            let rest = a.skip(p + 1);
            chunks_do_not_matter(rest, b);
            let whole = a + b;
            assert forall|j: int| 0 <= j < p implies !is_newline()(#[trigger] whole[j]) by {
                assert(!is_newline()(a[j]));
            }
            assert(whole[p] == a[p]);
            lemma_first_where_is(whole, is_newline(), p);
            assert(whole.take(p + 1) =~= a.take(p + 1));
            assert(whole.skip(p + 1) =~= rest + b);
            assert(lines(whole) =~= lines(a) + lines(unfinished(a) + b));
        },
        None => {
            assert(lines(a + b) =~= lines(a) + lines(unfinished(a) + b));
        },
    }
}

/// Messages that come in two reads are answered as if they had come in one.
pub proof fn conversations_continue<H: Handler>(
    before: H,
    msgs: Seq<Seq<u8>>,
    mid: H,
    replies: Seq<Seq<u8>>,
    more: Seq<Seq<u8>>,
    after: H,
    more_replies: Seq<Seq<u8>>,
)
    requires
        conversation(before, msgs, mid, replies),
        conversation(mid, more, after, more_replies),
    ensures
        conversation(before, msgs + more, after, replies + more_replies),
        concatenated(replies + more_replies) == concatenated(replies) + concatenated(more_replies),
    decreases more.len(),
{
    lemma_concatenated_append(replies, more_replies);
    if more.len() == 0 {
        assert(msgs + more =~= msgs);
        assert(replies + more_replies =~= replies);
    } else {
        let last = choose|h: H|
            #![trigger H::replies(h, more.last(), after, more_replies.last())]
            conversation(mid, more.drop_last(), h, more_replies.drop_last()) && H::replies(
                h,
                more.last(),
                after,
                more_replies.last(),
            );
        conversations_continue(
            before,
            msgs,
            mid,
            replies,
            more.drop_last(),
            last,
            more_replies.drop_last(),
        );
        let all = msgs + more;
        let all_replies = replies + more_replies;
        assert(all.drop_last() =~= msgs + more.drop_last());
        assert(all_replies.drop_last() =~= replies + more_replies.drop_last());
        assert(all.last() == more.last());
        assert(all_replies.last() == more_replies.last());
        assert(H::replies(last, all.last(), after, all_replies.last()));
    }
}

/// Every client that is read, written or given up after polling is one of the
/// loop's clients.
pub proof fn tasks_name_clients(entries: Seq<PollFd>, polled: Seq<PollFd>, clients: Map<i32, Client>)
    requires
        covers(entries, clients),
        polled.len() == entries.len(),
        forall|i: int|
            #![trigger polled[i]]
            0 <= i < polled.len() ==> polled[i].fd == entries[i].fd,
    ensures
        forall|i: int|
            #![trigger all_client_tasks(polled)[i]]
            0 <= i < all_client_tasks(polled).len() ==> match all_client_tasks(polled)[i] {
                Task::DropClient(fd) => clients.contains_key(fd),
                Task::ReadClient(fd) => clients.contains_key(fd),
                Task::WriteClient(fd) => clients.contains_key(fd),
                _ => false,
            },
{
    assert forall|i: int| 0 <= i < polled.len() implies clients.contains_key(
        #[trigger] polled[i].fd,
    ) by {
        assert(clients.contains_key(entries[i].fd));
    }
    lemma_tasks_name_clients(polled, clients);
}

/// The task that shuts the loop down comes where the shutdown pipe was readable, and
/// only there; it comes first, and once.
pub proof fn only_the_shutdown_pipe_stops_the_loop(entries: Seq<PollFd>, child: bool)
    requires
        entries.len() >= 3 + child_entry_count(child),
    ensures
        entries[0].found.readable ==> tasks(entries, child)[0] is HandleSignal,
        forall|i: int|
            #![trigger tasks(entries, child)[i]]
            0 <= i < tasks(entries, child).len() && tasks(entries, child)[i] is HandleSignal
                ==> entries[0].found.readable && i == 0,
{
    lemma_client_tasks_only(client_entries(entries, child));
}

proof fn lemma_client_tasks_only(entries: Seq<PollFd>)
    ensures
        forall|i: int|
            #![trigger all_client_tasks(entries)[i]]
            0 <= i < all_client_tasks(entries).len() ==> !(all_client_tasks(
                entries,
            )[i] is HandleSignal),
    decreases entries.len(),
{
    if entries.len() > 0 {
        lemma_client_tasks_only(entries.drop_last());
    }
}

proof fn lemma_tasks_name_clients(polled: Seq<PollFd>, clients: Map<i32, Client>)
    requires
        forall|i: int| 0 <= i < polled.len() ==> clients.contains_key(#[trigger] polled[i].fd),
    ensures
        forall|i: int|
            #![trigger all_client_tasks(polled)[i]]
            0 <= i < all_client_tasks(polled).len() ==> match all_client_tasks(polled)[i] {
                Task::DropClient(fd) => clients.contains_key(fd),
                Task::ReadClient(fd) => clients.contains_key(fd),
                Task::WriteClient(fd) => clients.contains_key(fd),
                _ => false,
            },
    decreases polled.len(),
{
    if polled.len() > 0 {
        lemma_tasks_name_clients(polled.drop_last(), clients);
        assert(clients.contains_key(polled[polled.len() - 1].fd));
    }
}

pub proof fn lemma_concatenated_append(a: Seq<Seq<u8>>, b: Seq<Seq<u8>>)
    ensures
        concatenated(a + b) == concatenated(a) + concatenated(b),
    decreases b.len(),
{
    if b.len() == 0 {
        assert(a + b =~= a);
        assert(concatenated(a) + concatenated(b) =~= concatenated(a));
    } else {
        lemma_concatenated_append(a, b.drop_last());
        assert((a + b).drop_last() =~= a + b.drop_last());
        assert(concatenated(a + b) =~= concatenated(a) + concatenated(b));
    }
}

} // verus!
