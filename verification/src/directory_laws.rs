//! Where slots live: each in a directory of its own, under the name of its project.
use crate::handler::clone_path;
use crate::path::joined;
use crate::pool::slot_path;
use crate::state::SlotId;
use crate::text::{
    all_digits, decimal, decimals_differ, decimals_read_back, digits_value, is_digit, padded_left,
};
use vstd::prelude::*;

verus! {

/// Whether a name can be that of a directory: it is not empty and holds no separator.
pub open spec fn is_plain(name: Seq<char>) -> bool {
    name.len() > 0 && !name.contains('/')
}

/// A path as it stands before a component is put behind it.
pub open spec fn opened(base: Seq<char>) -> Seq<char> {
    if base.len() == 0 || base.last() == '/' {
        base
    } else {
        base.push('/')
    }
}

proof fn lemma_joined(base: Seq<char>, part: Seq<char>)
    requires
        part.len() > 0 ==> part[0] != '/',
    ensures
        joined(base, part) == opened(base) + part,
{
    reveal_strlit("/");
    assert("/"@ =~= seq!['/']);
    assert(base + "/"@ =~= base.push('/'));
    assert(joined(base, part) =~= opened(base) + part);
}

/// A component that is not absolute goes behind the path, with one separator
/// between the two; an absolute one stands for itself.
pub proof fn components_go_behind_paths(base: Seq<char>, part: Seq<char>)
    ensures
        part.len() > 0 && part[0] == '/' ==> joined(base, part) == part,
        !(part.len() > 0 && part[0] == '/') ==> joined(base, part) == opened(base) + part,
{
    if !(part.len() > 0 && part[0] == '/') {
        lemma_joined(base, part);
    }
}

/// The directory of a project: its name behind that of the repositories, or its name
/// alone where that is absolute.
pub open spec fn home_of(repos_dir: Seq<char>, project: Seq<char>) -> Seq<char> {
    if project.len() > 0 && project[0] == '/' {
        project
    } else {
        opened(repos_dir) + project
    }
}

/// The directory of a slot is its number behind the directory of its project, whatever
/// the name of the project.
pub proof fn slots_live_in_their_project(repos_dir: Seq<char>, project: Seq<char>, slot: SlotId)
    ensures
        clone_path(repos_dir, project, slot) == opened(home_of(repos_dir, project)) + decimal(
            slot.0 as nat,
        ),
{
    let number = decimal(slot.0 as nat);
    decimals_read_back(slot.0 as nat);
    assert(is_digit(number[0]));
    components_go_behind_paths(repos_dir, project);
    lemma_joined(home_of(repos_dir, project), number);
}

/// The directory of a slot is `<repos_dir>/<project>/<number>`.
pub proof fn slots_live_under_their_project(
    repos_dir: Seq<char>,
    project: Seq<char>,
    slot: SlotId,
)
    requires
        is_plain(project),
    ensures
        clone_path(repos_dir, project, slot) == opened(repos_dir) + project + seq!['/'] + decimal(
            slot.0 as nat,
        ),
{
    let number = decimal(slot.0 as nat);
    decimals_read_back(slot.0 as nat);
    assert(is_digit(number[0]));
    assert(project.contains(project[0]));
    lemma_joined(repos_dir, project);
    let dir = opened(repos_dir) + project;
    assert(dir.last() == project[project.len() - 1]);
    assert(project.contains(project[project.len() - 1]));
    lemma_joined(dir, number);
    assert(dir.push('/') + number =~= opened(repos_dir) + project + seq!['/'] + number);
}

/// Slots of different projects, or of different numbers, never share a directory.
pub proof fn no_two_slots_share_a_directory(
    repos_dir: Seq<char>,
    project: Seq<char>,
    slot: SlotId,
    other_project: Seq<char>,
    other_slot: SlotId,
)
    requires
        is_plain(project),
        is_plain(other_project),
        clone_path(repos_dir, project, slot) == clone_path(repos_dir, other_project, other_slot),
    ensures
        project == other_project,
        slot == other_slot,
{
    slots_live_under_their_project(repos_dir, project, slot);
    slots_live_under_their_project(repos_dir, other_project, other_slot);
    let front = opened(repos_dir);
    let a = decimal(slot.0 as nat);
    let b = decimal(other_slot.0 as nat);
    lemma_split(front, project, a, other_project, b);
    decimals_differ(slot.0 as nat, other_slot.0 as nat);
}

proof fn lemma_split(front: Seq<char>, p: Seq<char>, a: Seq<char>, q: Seq<char>, b: Seq<char>)
    requires
        !p.contains('/'),
        !q.contains('/'),
        front + p + seq!['/'] + a == front + q + seq!['/'] + b,
    ensures
        p == q,
        a == b,
{
    let x = front + p + seq!['/'] + a;
    let y = front + q + seq!['/'] + b;
    let n = front.len() as int;
    assert(x[n + p.len()] == '/');
    assert(y[n + q.len()] == '/');
    if p.len() < q.len() {
        assert(y[n + p.len()] == q[p.len() as int]);
        assert(q.contains(q[p.len() as int]));
    } else if q.len() < p.len() {
        assert(x[n + q.len()] == p[q.len() as int]);
        assert(p.contains(p[q.len() as int]));
    }
    assert forall|i: int| 0 <= i < p.len() implies p[i] == q[i] by {
        assert(x[n + i] == p[i]);
        assert(y[n + i] == q[i]);
    }
    assert(p =~= q);
    assert(a =~= x.skip(n + p.len() + 1));
    assert(b =~= y.skip(n + q.len() + 1));
}

/// Numbers are written with as few digits as there can be.
pub proof fn numbers_have_no_leading_zeros(n: nat)
    ensures
        decimal(n).len() > 0,
        decimal(n).len() > 1 ==> decimal(n)[0] != '0',
    decreases n,
{
    if n >= 10 {
        numbers_have_no_leading_zeros(n / 10);
        let front = decimal(n / 10);
        assert(decimal(n)[0] == front[0]);
        if n / 10 < 10 {
            assert(front[0] == crate::text::digit_char(n / 10));
        } else {
            decimals_read_back(n / 10);
            if front.len() == 1 {
                decimals_read_back(n / 10 / 10);
            }
        }
    }
}

proof fn lemma_leading_zeros(zeros: nat, s: Seq<char>)
    requires
        all_digits(s),
    ensures
        all_digits(Seq::new(zeros, |i: int| '0') + s),
        digits_value(Seq::new(zeros, |i: int| '0') + s) == digits_value(s),
    decreases s.len() + zeros,
{
    let t = Seq::new(zeros, |i: int| '0') + s;
    assert forall|i: int| 0 <= i < t.len() implies is_digit(#[trigger] t[i]) by {
        if i >= zeros {
            assert(is_digit(s[i - zeros]));
        }
    }
    if s.len() > 0 {
        let rest = s.drop_last();
        assert forall|i: int| 0 <= i < rest.len() implies is_digit(#[trigger] rest[i]) by {
            assert(is_digit(s[i]));
        }
        lemma_leading_zeros(zeros, rest);
        assert(t.drop_last() =~= Seq::new(zeros, |i: int| '0') + rest);
        assert(t.last() == s.last());
    } else if zeros > 0 {
        lemma_leading_zeros((zeros - 1) as nat, s);
        assert(t.drop_last() =~= Seq::new((zeros - 1) as nat, |i: int| '0') + s);
        assert(t.last() == '0');
    } else {
        assert(t =~= s);
    }
}

/// In a pool that is filled command by command, the directory of a slot is
/// `<repos_dir>/<project>/<number>`, the number with four digits or more.
pub proof fn pool_slots_live_under_their_project(
    repos_dir: Seq<char>,
    project: Seq<char>,
    slot: u32,
)
    requires
        is_plain(project),
    ensures
        ({
            let dir = slot_path(repos_dir, project, slot);
            let front = opened(repos_dir) + project + seq!['/'];
            let number = dir.skip(front.len() as int);
            &&& dir == front + number
            &&& number.len() >= 4
            &&& number.len() > 4 ==> number == decimal(slot as nat)
            &&& all_digits(number)
            &&& digits_value(number) == slot
        }),
{
    let digits = decimal(slot as nat);
    let padded = padded_left(digits, '0', 4);
    decimals_read_back(slot as nat);
    if digits.len() < 4 {
        lemma_leading_zeros((4 - digits.len()) as nat, digits);
    }
    assert(is_digit(padded[0]));
    assert(project.contains(project[0]));
    assert(project.contains(project[project.len() - 1]));
    lemma_joined(repos_dir, project);
    let dir = opened(repos_dir) + project;
    assert(dir.last() == project[project.len() - 1]);
    lemma_joined(dir, padded);
    let front = opened(repos_dir) + project + seq!['/'];
    assert(dir.push('/') =~= front);
    assert(slot_path(repos_dir, project, slot) == front + padded);
    assert((front + padded).skip(front.len() as int) =~= padded);
}

/// No two slots of a pool that is filled command by command share a directory.
pub proof fn no_two_pool_slots_share_a_directory(
    repos_dir: Seq<char>,
    project: Seq<char>,
    slot: u32,
    other_project: Seq<char>,
    other_slot: u32,
)
    requires
        is_plain(project),
        is_plain(other_project),
        slot_path(repos_dir, project, slot) == slot_path(repos_dir, other_project, other_slot),
    ensures
        project == other_project,
        slot == other_slot,
{
    pool_slots_live_under_their_project(repos_dir, project, slot);
    pool_slots_live_under_their_project(repos_dir, other_project, other_slot);
    let dir = slot_path(repos_dir, project, slot);
    let front = opened(repos_dir);
    let a = dir.skip((front + project + seq!['/']).len() as int);
    let b = dir.skip((front + other_project + seq!['/']).len() as int);
    lemma_split(front, project, a, other_project, b);
}

} // verus!
