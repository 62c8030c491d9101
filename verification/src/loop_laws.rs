//! What the event loop owes its clients, its child and itself after polling.
use crate::client::{framed, messages_arrive_whole};
use crate::poll_loop::{
    all_client_tasks, child_tasks, chunks_do_not_matter, client_entries, client_tasks,
    concatenated, conversation, conversations_continue, covers, lemma_concatenated_append, lines,
    only_if, received, tasks, unfinished, Client, EventLoop, Handler, PollFd, StreamEnd, Task,
};
use vstd::prelude::*;

verus! {

/// Where the entries of the clients end: behind them stand the two of a child.
pub open spec fn clients_end(entries: Seq<PollFd>, child: bool) -> int {
    if child {
        entries.len() - 2
    } else {
        entries.len() as int
    }
}

proof fn lemma_contains_add(a: Seq<Task>, b: Seq<Task>, t: Task)
    ensures
        (a + b).contains(t) <==> a.contains(t) || b.contains(t),
{
    let c = a + b;
    if a.contains(t) {
        let i = choose|i: int| 0 <= i < a.len() && a[i] == t;
        assert(c[i] == t);
    }
    if b.contains(t) {
        let i = choose|i: int| 0 <= i < b.len() && b[i] == t;
        assert(c[a.len() + i] == t);
    }
    if c.contains(t) {
        let i = choose|i: int| 0 <= i < c.len() && c[i] == t;
        if i < a.len() {
            assert(a[i] == t);
        } else {
            assert(b[i - a.len()] == t);
        }
    }
}

proof fn lemma_only_if(wanted: bool, task: Task, t: Task)
    ensures
        only_if(wanted, task).contains(t) <==> wanted && task == t,
{
    if wanted {
        assert(only_if(wanted, task)[0] == task);
    }
}

proof fn lemma_client_tasks(e: PollFd, t: Task)
    ensures
        client_tasks(e).contains(t) <==> {
            ||| t == Task::DropClient(e.fd) && e.found.failed
            ||| t == Task::ReadClient(e.fd) && e.found.readable && !e.found.failed
            ||| t == Task::WriteClient(e.fd) && e.found.writable && !e.found.failed
        },
{
    if e.found.failed {
        assert(client_tasks(e)[0] == Task::DropClient(e.fd));
    } else {
        let reads = only_if(e.found.readable, Task::ReadClient(e.fd));
        let writes = only_if(e.found.writable, Task::WriteClient(e.fd));
        lemma_contains_add(reads, writes, t);
        lemma_only_if(e.found.readable, Task::ReadClient(e.fd), t);
        lemma_only_if(e.found.writable, Task::WriteClient(e.fd), t);
    }
}

proof fn lemma_all_client_tasks(entries: Seq<PollFd>, t: Task)
    ensures
        all_client_tasks(entries).contains(t) <==> exists|i: int|
            0 <= i < entries.len() && client_tasks(#[trigger] entries[i]).contains(t),
    decreases entries.len(),
{
    if entries.len() > 0 {
        let rest = entries.drop_last();
        lemma_all_client_tasks(rest, t);
        lemma_contains_add(all_client_tasks(rest), client_tasks(entries.last()), t);
        if all_client_tasks(rest).contains(t) {
            let i = choose|i: int|
                0 <= i < rest.len() && client_tasks(#[trigger] rest[i]).contains(t);
            assert(client_tasks(entries[i]).contains(t));
        }
        if client_tasks(entries.last()).contains(t) {
            assert(client_tasks(entries[entries.len() - 1]).contains(t));
        }
        if exists|i: int|
            0 <= i < entries.len() && client_tasks(#[trigger] entries[i]).contains(t) {
            let i = choose|i: int|
                0 <= i < entries.len() && client_tasks(#[trigger] entries[i]).contains(t);
            if i < rest.len() {
                assert(client_tasks(rest[i]).contains(t));
            }
        }
    }
}

/// What the tasks hold, part by part.
proof fn lemma_tasks_hold(entries: Seq<PollFd>, child: bool, t: Task)
    requires
        entries.len() >= 3,
        child ==> entries.len() >= 5,
    ensures
        tasks(entries, child).contains(t) <==> {
            ||| t == Task::HandleSignal && entries[0].found.readable
            ||| t == Task::DrainSigchild && entries[1].found.readable
            ||| all_client_tasks(client_entries(entries, child)).contains(t)
            ||| t == Task::RemoveDropped
            ||| t == Task::ReadStdout && child && entries[entries.len() - 2].found.readable
            ||| t == Task::ReadStderr && child && entries[entries.len() - 1].found.readable
            ||| t == Task::ReapChild(entries[1].found.readable) && child
            ||| t == Task::AcceptClients && entries[2].found.readable
        },
{
    let n = entries.len() as int;
    let a = only_if(entries[0].found.readable, Task::HandleSignal);
    let b = only_if(entries[1].found.readable, Task::DrainSigchild);
    let c = all_client_tasks(client_entries(entries, child));
    let d = seq![Task::RemoveDropped];
    let e = child_tasks(entries, child);
    let f = only_if(entries[2].found.readable, Task::AcceptClients);
    lemma_contains_add(a + b + c + d + e, f, t);
    lemma_contains_add(a + b + c + d, e, t);
    lemma_contains_add(a + b + c, d, t);
    lemma_contains_add(a + b, c, t);
    lemma_contains_add(a, b, t);
    lemma_only_if(entries[0].found.readable, Task::HandleSignal, t);
    lemma_only_if(entries[1].found.readable, Task::DrainSigchild, t);
    lemma_only_if(entries[2].found.readable, Task::AcceptClients, t);
    assert(d[0] == Task::RemoveDropped);
    if child {
        let x = only_if(entries[n - 2].found.readable, Task::ReadStdout);
        let y = only_if(entries[n - 1].found.readable, Task::ReadStderr);
        let z = seq![Task::ReapChild(entries[1].found.readable)];
        lemma_contains_add(x + y, z, t);
        lemma_contains_add(x, y, t);
        lemma_only_if(entries[n - 2].found.readable, Task::ReadStdout, t);
        lemma_only_if(entries[n - 1].found.readable, Task::ReadStderr, t);
        assert(z[0] == Task::ReapChild(entries[1].found.readable));
    }
}

/// Every client is served as it was found, and no other: a client is given up
/// exactly where an entry of it failed, read exactly where one did not fail and has
/// something to read, and written exactly where one did not fail and can be written.
pub proof fn clients_are_served_as_found(entries: Seq<PollFd>, child: bool, fd: i32)
    requires
        entries.len() >= 3,
        child ==> entries.len() >= 5,
    ensures
        tasks(entries, child).contains(Task::DropClient(fd)) <==> exists|i: int|
            3 <= i < clients_end(entries, child) && (#[trigger] entries[i]).fd == fd
                && entries[i].found.failed,
        tasks(entries, child).contains(Task::ReadClient(fd)) <==> exists|i: int|
            3 <= i < clients_end(entries, child) && (#[trigger] entries[i]).fd == fd
                && !entries[i].found.failed && entries[i].found.readable,
        tasks(entries, child).contains(Task::WriteClient(fd)) <==> exists|i: int|
            3 <= i < clients_end(entries, child) && (#[trigger] entries[i]).fd == fd
                && !entries[i].found.failed && entries[i].found.writable,
{
    let ours = client_entries(entries, child);
    let end = clients_end(entries, child);
    assert(ours.len() == end - 3);
    assert forall|i: int| 0 <= i < ours.len() implies #[trigger] ours[i] == entries[i + 3] by {}
    assert forall|i: int| 3 <= i < end implies #[trigger] entries[i] == ours[i - 3] by {}
    assert forall|t: Task|
        all_client_tasks(ours).contains(t) <==> exists|i: int|
            3 <= i < end && #[trigger] client_tasks(entries[i]).contains(t) by {
        lemma_all_client_tasks(ours, t);
        if all_client_tasks(ours).contains(t) {
            let i = choose|i: int|
                0 <= i < ours.len() && client_tasks(#[trigger] ours[i]).contains(t);
            assert(client_tasks(entries[i + 3]).contains(t));
        }
        if exists|i: int| 3 <= i < end && #[trigger] client_tasks(entries[i]).contains(t) {
            let i = choose|i: int| 3 <= i < end && #[trigger] client_tasks(entries[i]).contains(t);
            assert(client_tasks(ours[i - 3]).contains(t));
        }
    }
    lemma_tasks_hold(entries, child, Task::DropClient(fd));
    lemma_tasks_hold(entries, child, Task::ReadClient(fd));
    lemma_tasks_hold(entries, child, Task::WriteClient(fd));
    assert forall|i: int, t: Task| #[trigger] client_tasks(entries[i]).contains(t) <==> {
        let e = entries[i];
        ||| t == Task::DropClient(e.fd) && e.found.failed
        ||| t == Task::ReadClient(e.fd) && e.found.readable && !e.found.failed
        ||| t == Task::WriteClient(e.fd) && e.found.writable && !e.found.failed
    } by {
        lemma_client_tasks(entries[i], t);
    }
    if exists|i: int|
        3 <= i < end && (#[trigger] entries[i]).fd == fd && entries[i].found.failed {
        let i = choose|i: int|
            3 <= i < end && (#[trigger] entries[i]).fd == fd && entries[i].found.failed;
        assert(client_tasks(entries[i]).contains(Task::DropClient(fd)));
    }
    if exists|i: int|
        3 <= i < end && (#[trigger] entries[i]).fd == fd && !entries[i].found.failed
            && entries[i].found.readable {
        let i = choose|i: int|
            3 <= i < end && (#[trigger] entries[i]).fd == fd && !entries[i].found.failed
                && entries[i].found.readable;
        assert(client_tasks(entries[i]).contains(Task::ReadClient(fd)));
    }
    if exists|i: int|
        3 <= i < end && (#[trigger] entries[i]).fd == fd && !entries[i].found.failed
            && entries[i].found.writable {
        let i = choose|i: int|
            3 <= i < end && (#[trigger] entries[i]).fd == fd && !entries[i].found.failed
                && entries[i].found.writable;
        assert(client_tasks(entries[i]).contains(Task::WriteClient(fd)));
    }
}

/// Where no two clients share a descriptor: a client that failed is given up and
/// neither read nor written; any other is read exactly where there is something to
/// read, written exactly where it can be written, and not given up.
pub proof fn each_client_gets_its_due(entries: Seq<PollFd>, child: bool, i: int)
    requires
        entries.len() >= 3,
        child ==> entries.len() >= 5,
        3 <= i < clients_end(entries, child),
        forall|a: int, b: int|
            #![trigger entries[a], entries[b]]
            3 <= a < b < clients_end(entries, child) ==> entries[a].fd != entries[b].fd,
    ensures
        ({
            let e = entries[i];
            let all = tasks(entries, child);
            &&& all.contains(Task::DropClient(e.fd)) <==> e.found.failed
            &&& all.contains(Task::ReadClient(e.fd)) <==> e.found.readable && !e.found.failed
            &&& all.contains(Task::WriteClient(e.fd)) <==> e.found.writable && !e.found.failed
        }),
{
    let fd = entries[i].fd;
    clients_are_served_as_found(entries, child, fd);
    assert forall|j: int|
        3 <= j < clients_end(entries, child) && (#[trigger] entries[j]).fd == fd implies j == i by {
        if j < i {
            assert(entries[j].fd != entries[i].fd);
        } else if i < j {
            assert(entries[i].fd != entries[j].fd);
        }
    }
}

/// The loop tends to itself and to its child: a signal, the end of a child and new
/// clients are seen to exactly where their descriptors were readable, what a running
/// child wrote is read exactly where there is some, and a running child is always
/// asked for its end. Clients that were given up are always removed.
pub proof fn the_loop_tends_to_itself(entries: Seq<PollFd>, child: bool)
    requires
        entries.len() >= 3,
        child ==> entries.len() >= 5,
    ensures
        ({
            let all = tasks(entries, child);
            let n = entries.len();
            &&& all.contains(Task::HandleSignal) <==> entries[0].found.readable
            &&& all.contains(Task::DrainSigchild) <==> entries[1].found.readable
            &&& all.contains(Task::AcceptClients) <==> entries[2].found.readable
            &&& all.contains(Task::RemoveDropped)
            &&& all.contains(Task::ReadStdout) <==> child && entries[n - 2].found.readable
            &&& all.contains(Task::ReadStderr) <==> child && entries[n - 1].found.readable
            &&& forall|told: bool| #[trigger]
                all.contains(Task::ReapChild(told)) <==> child && told == entries[1].found.readable
        }),
{
    let ours = client_entries(entries, child);
    assert forall|t: Task|
        !(t is DropClient) && !(t is ReadClient) && !(t is WriteClient) implies !(
    #[trigger] all_client_tasks(ours).contains(t)) by {
        lemma_all_client_tasks(ours, t);
        if all_client_tasks(ours).contains(t) {
            let i = choose|i: int|
                0 <= i < ours.len() && client_tasks(#[trigger] ours[i]).contains(t);
            lemma_client_tasks(ours[i], t);
        }
    }
    lemma_tasks_hold(entries, child, Task::HandleSignal);
    lemma_tasks_hold(entries, child, Task::DrainSigchild);
    lemma_tasks_hold(entries, child, Task::AcceptClients);
    lemma_tasks_hold(entries, child, Task::RemoveDropped);
    lemma_tasks_hold(entries, child, Task::ReadStdout);
    lemma_tasks_hold(entries, child, Task::ReadStderr);
    assert forall|told: bool| #[trigger]
        tasks(entries, child).contains(Task::ReapChild(told)) <==> child && told
            == entries[1].found.readable by {
        lemma_tasks_hold(entries, child, Task::ReapChild(told));
    }
}

/// Which tasks come before which: the signals, the clients, the removal of those
/// given up, the output of the child, its end, and new clients last.
pub open spec fn turn_of(task: Task) -> int {
    match task {
        Task::HandleSignal => 0,
        Task::DrainSigchild => 1,
        Task::DropClient(_) => 2,
        Task::ReadClient(_) => 2,
        Task::WriteClient(_) => 2,
        Task::RemoveDropped => 3,
        Task::ReadStdout => 4,
        Task::ReadStderr => 5,
        Task::ReapChild(_) => 6,
        Task::AcceptClients => 7,
    }
}

/// The tasks come in that order, and but for those of clients each comes once.
pub proof fn tasks_come_in_turn(entries: Seq<PollFd>, child: bool)
    requires
        entries.len() >= 3,
        child ==> entries.len() >= 5,
    ensures
        forall|i: int, j: int|
            #![trigger tasks(entries, child)[i], tasks(entries, child)[j]]
            0 <= i < j < tasks(entries, child).len() ==> {
                let a = turn_of(tasks(entries, child)[i]);
                let b = turn_of(tasks(entries, child)[j]);
                a < b || a == b == 2
            },
{
    let n = entries.len() as int;
    let a = only_if(entries[0].found.readable, Task::HandleSignal);
    let b = only_if(entries[1].found.readable, Task::DrainSigchild);
    let c = all_client_tasks(client_entries(entries, child));
    let d = seq![Task::RemoveDropped];
    let e = child_tasks(entries, child);
    let f = only_if(entries[2].found.readable, Task::AcceptClients);
    lemma_clients_turn(client_entries(entries, child));
    let all = tasks(entries, child);
    assert(all == a + b + c + d + e + f);
    let p = a.len() + b.len() as int;
    let q = p + c.len();
    let r = q + 1 + e.len();
    assert forall|i: int| 0 <= i < all.len() implies {
        let t = turn_of(#[trigger] all[i]);
        &&& i < a.len() ==> t == 0
        &&& a.len() <= i < p ==> t == 1
        &&& p <= i < q ==> t == 2
        &&& i == q ==> t == 3
        &&& q < i < r ==> t == turn_of(e[i - q - 1])
        &&& r <= i ==> t == 7
    } by {
        if p <= i < q {
            assert(all[i] == c[i - p]);
        }
        if q < i < r {
            assert(all[i] == e[i - q - 1]);
        }
    }
    assert forall|i: int, j: int|
        #![trigger e[i], e[j]]
        0 <= i < j < e.len() implies 4 <= turn_of(e[i]) < turn_of(e[j]) <= 6 by {}
    assert forall|i: int| 0 <= i < e.len() implies 4 <= turn_of(#[trigger] e[i]) <= 6 by {}
    assert forall|i: int, j: int|
        #![trigger all[i], all[j]]
        0 <= i < j < all.len() implies {
        let x = turn_of(all[i]);
        let y = turn_of(all[j]);
        x < y || x == y == 2
    } by {
        if q < i && j < r {
            assert(turn_of(e[i - q - 1]) < turn_of(e[j - q - 1]));
        }
        if q < i < r {
            assert(4 <= turn_of(e[i - q - 1]) <= 6);
        }
        if q < j < r {
            assert(4 <= turn_of(e[j - q - 1]) <= 6);
        }
    }
}

proof fn lemma_clients_turn(entries: Seq<PollFd>)
    ensures
        forall|i: int|
            0 <= i < all_client_tasks(entries).len() ==> turn_of(
                #[trigger] all_client_tasks(entries)[i],
            ) == 2,
    decreases entries.len(),
{
    if entries.len() > 0 {
        lemma_clients_turn(entries.drop_last());
        let rest = all_client_tasks(entries.drop_last());
        assert forall|i: int| 0 <= i < all_client_tasks(entries).len() implies turn_of(
            #[trigger] all_client_tasks(entries)[i],
        ) == 2 by {
            if i < rest.len() {
                assert(all_client_tasks(entries)[i] == rest[i]);
            } else {
                assert(all_client_tasks(entries)[i] == client_tasks(
                    entries.last(),
                )[i - rest.len()]);
            }
        }
    }
}

/// The client that a task is for.
pub open spec fn client_of(task: Task) -> Option<i32> {
    match task {
        Task::DropClient(fd) => Some(fd),
        Task::ReadClient(fd) => Some(fd),
        Task::WriteClient(fd) => Some(fd),
        _ => None,
    }
}

/// Clients are served in the order of the poll list, and each is read before it is
/// written.
pub proof fn clients_are_served_in_order(
    entries: Seq<PollFd>,
    child: bool,
    i: int,
    j: int,
    p: int,
    q: int,
)
    requires
        entries.len() >= 3,
        child ==> entries.len() >= 5,
        forall|a: int, b: int|
            #![trigger entries[a], entries[b]]
            3 <= a < b < clients_end(entries, child) ==> entries[a].fd != entries[b].fd,
        3 <= i <= j < clients_end(entries, child),
        0 <= p < tasks(entries, child).len(),
        0 <= q < tasks(entries, child).len(),
        client_of(tasks(entries, child)[p]) == Some(entries[i].fd),
        client_of(tasks(entries, child)[q]) == Some(entries[j].fd),
        i == j ==> tasks(entries, child)[p] is ReadClient && tasks(entries, child)[q] is WriteClient,
    ensures
        p < q,
{
    let a = only_if(entries[0].found.readable, Task::HandleSignal);
    let b = only_if(entries[1].found.readable, Task::DrainSigchild);
    let ours = client_entries(entries, child);
    let c = all_client_tasks(ours);
    let d = seq![Task::RemoveDropped];
    let e = child_tasks(entries, child);
    let f = only_if(entries[2].found.readable, Task::AcceptClients);
    let all = tasks(entries, child);
    assert(all == a + b + c + d + e + f);
    let from = a.len() + b.len();
    let to = from + c.len();
    assert forall|x: int| 0 <= x < all.len() && client_of(#[trigger] all[x]) is Some implies from
        <= x < to && all[x] == c[x - from] by {
        if to < x < to + 1 + e.len() {
            assert(all[x] == e[x - to - 1]);
        }
    }
    assert forall|x: int| 0 <= x < ours.len() implies #[trigger] ours[x] == entries[x + 3] by {}
    assert forall|x: int, y: int|
        #![trigger ours[x], ours[y]]
        0 <= x < y < ours.len() implies ours[x].fd != ours[y].fd by {
        assert(entries[x + 3].fd != entries[y + 3].fd);
    }
    assert(ours[i - 3] == entries[i] && ours[j - 3] == entries[j]);
    lemma_served_in_order(ours, i - 3, j - 3, p - from, q - from);
}

proof fn lemma_served_in_order(entries: Seq<PollFd>, i: int, j: int, p: int, q: int)
    requires
        forall|a: int, b: int|
            #![trigger entries[a], entries[b]]
            0 <= a < b < entries.len() ==> entries[a].fd != entries[b].fd,
        0 <= i <= j < entries.len(),
        0 <= p < all_client_tasks(entries).len(),
        0 <= q < all_client_tasks(entries).len(),
        client_of(all_client_tasks(entries)[p]) == Some(entries[i].fd),
        client_of(all_client_tasks(entries)[q]) == Some(entries[j].fd),
        i == j ==> all_client_tasks(entries)[p] is ReadClient && all_client_tasks(
            entries,
        )[q] is WriteClient,
    ensures
        p < q,
    decreases entries.len(),
{
    let all = all_client_tasks(entries);
    let rest = entries.drop_last();
    let front = all_client_tasks(rest);
    let own = client_tasks(entries.last());
    let last = entries.len() - 1;
    assert(all == front + own);
    assert forall|x: int| 0 <= x < own.len() implies client_of(#[trigger] own[x]) == Some(
        entries[last].fd,
    ) by {}
    assert forall|x: int| 0 <= x < front.len() implies client_of(#[trigger] front[x]) != Some(
        entries[last].fd,
    ) by {
        lemma_names(rest, x);
        let y = choose|y: int|
            0 <= y < rest.len() && client_of(front[x]) == Some((#[trigger] rest[y]).fd);
        assert(rest[y] == entries[y]);
        assert(entries[y].fd != entries[last].fd);
    }
    if p < front.len() {
        assert(all[p] == front[p]);
    } else {
        assert(all[p] == own[p - front.len()]);
    }
    if q < front.len() {
        assert(all[q] == front[q]);
    } else {
        assert(all[q] == own[q - front.len()]);
    }
    if j < last {
        assert(entries[j].fd != entries[last].fd);
        assert(i < last ==> entries[i].fd != entries[last].fd);
        assert(rest[i] == entries[i] && rest[j] == entries[j]);
        assert forall|a: int, b: int|
            #![trigger rest[a], rest[b]]
            0 <= a < b < rest.len() implies rest[a].fd != rest[b].fd by {
            assert(entries[a].fd != entries[b].fd);
        }
        lemma_served_in_order(rest, i, j, p, q);
    } else if i < last {
        assert(entries[i].fd != entries[last].fd);
    }
}

proof fn lemma_names(entries: Seq<PollFd>, x: int)
    requires
        0 <= x < all_client_tasks(entries).len(),
    ensures
        exists|y: int|
            0 <= y < entries.len() && client_of(all_client_tasks(entries)[x]) == Some(
                (#[trigger] entries[y]).fd,
            ),
    decreases entries.len(),
{
    let rest = entries.drop_last();
    let front = all_client_tasks(rest);
    if x < front.len() {
        lemma_names(rest, x);
        let y = choose|y: int|
            0 <= y < rest.len() && client_of(front[x]) == Some((#[trigger] rest[y]).fd);
        assert(entries[y] == rest[y]);
        assert(all_client_tasks(entries)[x] == front[x]);
    } else {
        let own = client_tasks(entries.last());
        assert(all_client_tasks(entries)[x] == own[x - front.len()]);
        assert(client_of(own[x - front.len()]) == Some(entries[entries.len() - 1].fd));
    }
}

/// How much there is to do for the clients whose entries stand before `end`: one
/// thing for each that failed, else one for each read and each write that is due.
pub open spec fn findings(entries: Seq<PollFd>, end: int) -> int
    decreases end,
{
    if end <= 3 {
        0
    } else {
        let found = entries[end - 1].found;
        findings(entries, end - 1) + if found.failed {
            1int
        } else {
            (if found.readable {
                1int
            } else {
                0
            }) + (if found.writable {
                1int
            } else {
                0
            })
        }
    }
}

/// There are as many tasks as were found: one for each client that failed, one for
/// each read and each write that is due, and those of the loop itself.
pub proof fn there_is_a_task_for_each_finding(entries: Seq<PollFd>, child: bool)
    requires
        entries.len() >= 3,
        child ==> entries.len() >= 5,
    ensures
        ({
            let n = entries.len();
            let one = |b: bool|
                if b {
                    1int
                } else {
                    0
                };
            tasks(entries, child).len() == one(entries[0].found.readable) + one(
                entries[1].found.readable,
            ) + findings(entries, clients_end(entries, child)) + 1 + (if child {
                one(entries[n - 2].found.readable) + one(entries[n - 1].found.readable) + 1
            } else {
                0
            }) + one(entries[2].found.readable)
        }),
{
    let ours = client_entries(entries, child);
    lemma_findings(entries, ours, clients_end(entries, child));
    assert(ours.take(clients_end(entries, child) - 3) =~= ours);
}

proof fn lemma_findings(entries: Seq<PollFd>, ours: Seq<PollFd>, end: int)
    requires
        3 <= end <= ours.len() + 3,
        ours.len() + 3 <= entries.len(),
        forall|i: int| 0 <= i < ours.len() ==> #[trigger] ours[i] == entries[i + 3],
    ensures
        all_client_tasks(ours.take(end - 3)).len() == findings(entries, end),
    decreases end,
{
    if end > 3 {
        lemma_findings(entries, ours, end - 1);
        assert(ours.take(end - 3).drop_last() =~= ours.take(end - 4));
        assert(ours[end - 4] == entries[end - 1]);
    }
}

/// A poll list that is prepared asks for everything: its first three entries are
/// those of the loop, every client has one entry, polled for writing exactly where
/// something is queued for it, every entry between is that of a client, and a child
/// has the last two. Nothing has been found yet.
pub proof fn prepared_lists_ask_for_everything<H: Handler>(
    prepared: EventLoop<H>,
    fixed: Seq<PollFd>,
)
    requires
        fixed.len() >= 3,
        prepared.is_prepared(fixed),
    ensures
        ({
            let entries = prepared.poll_fds@;
            let clients = prepared.clients@;
            let end = clients_end(entries, prepared.running_child is Some);
            &&& 3 <= end
            &&& end - 3 == clients.dom().len()
            &&& forall|i: int|
                0 <= i < 3 ==> (#[trigger] entries[i]).fd == fixed[i].fd && entries[i].write
                    == fixed[i].write
            &&& forall|fd: i32| #[trigger]
                clients.contains_key(fd) ==> exists|i: int|
                    3 <= i < end && (#[trigger] entries[i]).fd == fd && entries[i].write == (
                    clients[fd].write_buf@.len() > 0)
            &&& forall|i: int| 3 <= i < end ==> clients.contains_key((#[trigger] entries[i]).fd)
            &&& forall|i: int, j: int|
                #![trigger entries[i], entries[j]]
                3 <= i < j < end ==> entries[i].fd != entries[j].fd
            &&& prepared.running_child matches Some(child) ==> entries[end].fd == child.stdout_fd
                && entries[end + 1].fd == child.stderr_fd && end + 2 == entries.len()
            &&& forall|i: int|
                0 <= i < entries.len() ==> !(#[trigger] entries[i]).found.readable
                    && !entries[i].found.writable && !entries[i].found.failed
        }),
{
    let entries = prepared.poll_fds@;
    let child = prepared.running_child is Some;
    let clients = prepared.clients@;
    let end = clients_end(entries, child);
    let ours = client_entries(entries, child);
    assert(covers(ours, clients));
    let first = entries.take(3);
    assert forall|i: int| 0 <= i < 3 implies #[trigger] entries[i] == first[i] by {}
    assert forall|i: int| 3 <= i < end implies #[trigger] entries[i] == ours[i - 3] by {}
    assert forall|fd: i32| #[trigger] clients.contains_key(fd) implies exists|i: int|
        3 <= i < end && (#[trigger] entries[i]).fd == fd && entries[i].write == (
        clients[fd].write_buf@.len() > 0) by {
        let i = choose|i: int| 0 <= i < ours.len() && (#[trigger] ours[i]).fd == fd;
        assert(entries[i + 3] == ours[i]);
    }
    assert forall|i: int| 3 <= i < end implies clients.contains_key((#[trigger] entries[i]).fd) by {
        assert(clients.contains_key(ours[i - 3].fd));
    }
    assert forall|i: int, j: int|
        #![trigger entries[i], entries[j]]
        3 <= i < j < end implies entries[i].fd != entries[j].fd by {
        assert(ours[i - 3].fd != ours[j - 3].fd);
    }
    if child {
        let last = entries.skip(entries.len() - 2);
        assert(last[0] == entries[end] && last[1] == entries[end + 1]);
    }
    assert forall|i: int| 0 <= i < entries.len() implies !(#[trigger] entries[i]).found.readable
        && !entries[i].found.writable && !entries[i].found.failed by {
        if 3 <= i < end {
            assert(entries[i] == ours[i - 3]);
        }
    }
}

/// A conversation has a reply for every message, in order: the first message is
/// handled from the state before, each other one from the state that the one before
/// it left.
pub proof fn conversations_answer_every_message<H: Handler>(
    before: H,
    msgs: Seq<Seq<u8>>,
    after: H,
    replies: Seq<Seq<u8>>,
)
    requires
        conversation(before, msgs, after, replies),
    ensures
        replies.len() == msgs.len(),
        msgs.len() == 0 ==> after == before,
        msgs.len() == 1 ==> H::replies(before, msgs[0], after, replies[0]),
        msgs.len() > 0 ==> exists|mid: H|
            #![trigger H::replies(mid, msgs.last(), after, replies.last())]
            conversation(before, msgs.drop_last(), mid, replies.drop_last()) && H::replies(
                mid,
                msgs.last(),
                after,
                replies.last(),
            ),
{
    if msgs.len() == 1 {
        let mid = choose|mid: H|
            #![trigger H::replies(mid, msgs.last(), after, replies.last())]
            conversation(before, msgs.drop_last(), mid, replies.drop_last()) && H::replies(
                mid,
                msgs.last(),
                after,
                replies.last(),
            );
        assert(mid == before);
    }
}

/// The bytes of one part are the part, and those of more are one behind the other.
pub proof fn parts_are_joined_in_order(parts: Seq<Seq<u8>>, part: Seq<u8>)
    ensures
        concatenated(seq![part]) == part,
        concatenated(parts.push(part)) == concatenated(parts) + part,
{
    assert(parts.push(part).drop_last() =~= parts);
    assert(seq![part].drop_last() =~= Seq::<Seq<u8>>::empty());
    reveal_with_fuel(concatenated, 2);
    assert(concatenated(seq![part]) =~= part);
}

/// A message that comes whole is handed to the handler as it is, and its reply, and
/// nothing else, is queued behind what was queued before.
pub proof fn messages_are_answered<H: Handler>(
    client: Client,
    handler: H,
    message: Seq<u8>,
    client_after: Client,
    handler_after: H,
)
    requires
        client.read_buf@.len() == 0,
        !message.contains(10),
        received(
            client,
            handler,
            framed(message),
            StreamEnd::WouldBlock,
            client_after,
            handler_after,
        ),
    ensures
        client_after.read_buf@.len() == 0,
        exists|reply: Seq<u8>|
            #![trigger H::replies(handler, message.push(10), handler_after, reply)]
            H::replies(handler, message.push(10), handler_after, reply)
                && client_after.write_buf@ == client.write_buf@ + reply,
{
    let sent = framed(message);
    assert(client.read_buf@ + sent =~= sent);
    messages_arrive_whole(message);
    let replies = choose|replies: Seq<Seq<u8>>|
        #![trigger concatenated(replies)]
        conversation(handler, lines(sent), handler_after, replies) && client_after.write_buf@
            == client.write_buf@ + concatenated(replies);
    conversations_answer_every_message(handler, lines(sent), handler_after, replies);
    assert(replies =~= seq![replies[0]]);
    parts_are_joined_in_order(Seq::empty(), replies[0]);
    assert(H::replies(handler, message.push(10), handler_after, replies[0]));
}

/// What comes in two reads is taken in as if it had come in one.
pub proof fn two_reads_are_one<H: Handler>(
    client: Client,
    handler: H,
    first: Seq<u8>,
    client_mid: Client,
    handler_mid: H,
    second: Seq<u8>,
    client_after: Client,
    handler_after: H,
)
    requires
        received(client, handler, first, StreamEnd::WouldBlock, client_mid, handler_mid),
        received(
            client_mid,
            handler_mid,
            second,
            StreamEnd::WouldBlock,
            client_after,
            handler_after,
        ),
    ensures
        received(
            client,
            handler,
            first + second,
            StreamEnd::WouldBlock,
            client_after,
            handler_after,
        ),
{
    let a = client.read_buf@ + first;
    assert(client.read_buf@ + (first + second) =~= a + second);
    chunks_do_not_matter(a, second);
    let x = choose|replies: Seq<Seq<u8>>|
        #![trigger concatenated(replies)]
        conversation(handler, lines(a), handler_mid, replies) && client_mid.write_buf@
            == client.write_buf@ + concatenated(replies);
    let y = choose|replies: Seq<Seq<u8>>|
        #![trigger concatenated(replies)]
        conversation(handler_mid, lines(unfinished(a) + second), handler_after, replies)
            && client_after.write_buf@ == client_mid.write_buf@ + concatenated(replies);
    conversations_continue(
        handler,
        lines(a),
        handler_mid,
        x,
        lines(unfinished(a) + second),
        handler_after,
        y,
    );
    lemma_concatenated_append(x, y);
    assert(client_after.write_buf@ =~= client.write_buf@ + concatenated(x + y));
}

/// Bytes that hold no newline wait: the handler hears nothing of them, and nothing
/// is queued.
pub proof fn unfinished_messages_wait<H: Handler>(
    client: Client,
    handler: H,
    data: Seq<u8>,
    client_after: Client,
    handler_after: H,
)
    requires
        !(client.read_buf@ + data).contains(10),
        received(client, handler, data, StreamEnd::WouldBlock, client_after, handler_after),
    ensures
        handler_after == handler,
        client_after.read_buf@ == client.read_buf@ + data,
        client_after.write_buf@ == client.write_buf@,
{
    let buf = client.read_buf@ + data;
    crate::seqs::lemma_first_where(buf, crate::poll_loop::is_newline());
    if let Some(p) = crate::seqs::first_where(buf, crate::poll_loop::is_newline()) {
        assert(buf.contains(buf[p]));
    }
    let replies = choose|replies: Seq<Seq<u8>>|
        #![trigger concatenated(replies)]
        conversation(handler, lines(buf), handler_after, replies) && client_after.write_buf@
            == client.write_buf@ + concatenated(replies);
    assert(replies =~= Seq::<Seq<u8>>::empty());
    assert(client_after.write_buf@ =~= client.write_buf@);
}

/// A client whose stream ended or failed hands nothing more to the handler, and
/// nothing is queued for it.
pub proof fn lost_clients_are_not_heard<H: Handler>(
    client: Client,
    handler: H,
    data: Seq<u8>,
    end: StreamEnd,
    client_after: Client,
    handler_after: H,
)
    requires
        end is Closed || end is Failed,
        received(client, handler, data, end, client_after, handler_after),
    ensures
        handler_after == handler,
        client_after.write_buf@ == client.write_buf@,
{
}

} // verus!
