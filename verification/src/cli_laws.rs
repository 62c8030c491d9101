//! What the command line takes, and what it prints.
use crate::api::{ListFilter, ResponseView, SlotInfoView, SlotStatusSummary};
use crate::cli::{
    add_report, background_rows, bears, cd_report, checkout_lines, clean_report, completion,
    completions_report, filter_of, init_snippet, invocation, list_report, opt_text, paths_text,
    project_lines, project_report, project_seen, refused, removed_lines, response_text, rm_report,
    slot_rows, slot_text, slots_text, status_text, status_word, CliErrorView, Completion, InvocationView, ADD_USAGE, BASH_SNIPPET,
    CD_USAGE, COMPLETIONS_USAGE, INIT_USAGE, RM_USAGE, USAGE, ZSH_SNIPPET,
};
use crate::seqs::lemma_first_where;
use crate::text::{decimal, padded_right, prefix_stripped, quoted};
use vstd::prelude::*;

verus! {

/// Whether a word is one of the commands.
pub open spec fn is_command(word: Seq<char>) -> bool {
    ||| word == "server"@
    ||| word == "add"@
    ||| word == "list"@
    ||| word == "cd"@
    ||| word == "init"@
    ||| word == "rm"@
    ||| word == "cleanup"@
    ||| word == "purge"@
    ||| word == "completions"@
}

/// Each command takes its own arguments, in order, and needs all of them; what
/// stands behind them is ignored. Anything else is no command.
pub proof fn commands_take_their_arguments(args: Seq<Seq<char>>)
    ensures
        ({
            let r = invocation(args);
            let n = args.len();
            &&& n == 0 ==> r == Err::<InvocationView, CliErrorView>(
                CliErrorView::Exit(USAGE@ + "\n"@),
            )
            &&& n > 0 ==> {
                let word = args[0];
                &&& word == "server"@ ==> (r matches Ok(InvocationView::Server))
                &&& word == "add"@ ==> if n >= 3 {
                    r == Ok::<InvocationView, CliErrorView>(
                        InvocationView::Add { project_name: args[1], checkout_name: args[2] },
                    )
                } else {
                    r == Err::<InvocationView, CliErrorView>(CliErrorView::Failed(ADD_USAGE@))
                }
                &&& word == "list"@ ==> match filter_of(args.skip(1), ListFilter::All) {
                    Ok(filter) => r == Ok::<InvocationView, CliErrorView>(
                        InvocationView::List { filter },
                    ),
                    Err(e) => r == Err::<InvocationView, CliErrorView>(e),
                }
                &&& word == "cd"@ ==> if n >= 2 {
                    r == Ok::<InvocationView, CliErrorView>(
                        InvocationView::Cd { checkout_name: args[1] },
                    )
                } else {
                    r == Err::<InvocationView, CliErrorView>(CliErrorView::Failed(CD_USAGE@))
                }
                &&& word == "init"@ ==> if n >= 2 {
                    r == Ok::<InvocationView, CliErrorView>(
                        InvocationView::Init { shell: args[1] },
                    )
                } else {
                    r == Err::<InvocationView, CliErrorView>(CliErrorView::Failed(INIT_USAGE@))
                }
                &&& word == "rm"@ && n >= 2 && args[1] != "--force"@ ==> r == Ok::<
                    InvocationView,
                    CliErrorView,
                >(InvocationView::Rm { checkout_name: args[1], force: false })
                &&& word == "rm"@ && n >= 3 && args[1] == "--force"@ ==> r == Ok::<
                    InvocationView,
                    CliErrorView,
                >(InvocationView::Rm { checkout_name: args[2], force: true })
                &&& word == "rm"@ && (n < 2 || (n < 3 && args[1] == "--force"@)) ==> r == Err::<
                    InvocationView,
                    CliErrorView,
                >(CliErrorView::Failed(RM_USAGE@))
                &&& word == "cleanup"@ ==> (r matches Ok(InvocationView::Cleanup))
                &&& word == "purge"@ ==> (r matches Ok(InvocationView::Purge))
                &&& word == "completions"@ ==> if n >= 2 {
                    r == Ok::<InvocationView, CliErrorView>(
                        InvocationView::Completions { subcmd: args[1] },
                    )
                } else {
                    r == Err::<InvocationView, CliErrorView>(CliErrorView::Failed(COMPLETIONS_USAGE@))
                }
                &&& !is_command(word) ==> r == Err::<InvocationView, CliErrorView>(
                    CliErrorView::Exit("unknown command: "@ + word + "\n"@ + USAGE@ + "\n"@),
                )
            }
        }),
{
    reveal_strlit("server");
    reveal_strlit("add");
    reveal_strlit("list");
    reveal_strlit("cd");
    reveal_strlit("init");
    reveal_strlit("rm");
    reveal_strlit("cleanup");
    reveal_strlit("purge");
    reveal_strlit("completions");
    assert("server"@.len() == 6);
    assert("add"@.len() == 3);
    assert("list"@.len() == 4);
    assert("cd"@.len() == 2);
    assert("init"@.len() == 4);
    assert("rm"@.len() == 2);
    assert("cleanup"@.len() == 7);
    assert("purge"@.len() == 5);
    assert("completions"@.len() == 11);
    assert("cd"@[0] != "rm"@[0]);
    assert("list"@[0] != "init"@[0]);
}

/// Whether a flag asks for a filter, and for which.
pub open spec fn asks_for(flag: Seq<char>) -> Option<ListFilter> {
    if flag == "--active"@ {
        Some(ListFilter::Active)
    } else if flag == "--free"@ {
        Some(ListFilter::Free)
    } else if flag == "--background"@ || flag == "--backgorund"@ {
        Some(ListFilter::Background)
    } else {
        None
    }
}

/// The last of the flags behind `list` counts, where every one asks for a filter;
/// without any, all slots are asked for.
pub proof fn the_last_filter_counts(flags: Seq<Seq<char>>, before: ListFilter)
    requires
        forall|i: int| 0 <= i < flags.len() ==> asks_for(#[trigger] flags[i]) is Some,
    ensures
        flags.len() == 0 ==> filter_of(flags, before) == Ok::<ListFilter, CliErrorView>(before),
        flags.len() > 0 ==> filter_of(flags, before) == Ok::<ListFilter, CliErrorView>(
            asks_for(flags.last())->0,
        ),
    decreases flags.len(),
{
    if flags.len() > 0 {
        let rest = flags.drop_first();
        assert(asks_for(flags[0]) is Some);
        assert forall|i: int| 0 <= i < rest.len() implies asks_for(#[trigger] rest[i]) is Some by {
            assert(rest[i] == flags[i + 1]);
        }
        the_last_filter_counts(rest, asks_for(flags[0])->0);
        if rest.len() > 0 {
            assert(rest.last() == flags.last());
        }
    }
}

/// The first flag that asks for no filter is an error that names it.
pub proof fn unknown_flags_are_named(flags: Seq<Seq<char>>, before: ListFilter, i: int)
    requires
        0 <= i < flags.len(),
        asks_for(flags[i]) is None,
        forall|m: int| 0 <= m < i ==> asks_for(#[trigger] flags[m]) is Some,
    ensures
        filter_of(flags, before) == Err::<ListFilter, CliErrorView>(
            CliErrorView::Failed("unknown flag for list: "@ + flags[i]),
        ),
    decreases flags.len(),
{
    if i > 0 {
        let rest = flags.drop_first();
        assert(asks_for(flags[0]) is Some);
        assert(rest[i - 1] == flags[i]);
        assert forall|m: int| 0 <= m < i - 1 implies asks_for(#[trigger] rest[m]) is Some by {
            assert(rest[m] == flags[m + 1]);
        }
        unknown_flags_are_named(rest, asks_for(flags[0])->0, i - 1);
    }
}

/// The lines for items, one behind the other.
pub open spec fn stacked<A>(items: Seq<A>, line: spec_fn(A) -> Seq<char>) -> Seq<char>
    decreases items.len(),
{
    if items.len() == 0 {
        Seq::empty()
    } else {
        stacked(items.drop_last(), line) + line(items.last())
    }
}

/// Lines of two lists are those of the first, then those of the second; the line of
/// one item is its line.
pub proof fn lines_are_stacked_in_order<A>(a: Seq<A>, b: Seq<A>, line: spec_fn(A) -> Seq<char>)
    ensures
        stacked(a + b, line) == stacked(a, line) + stacked(b, line),
        forall|x: A| #[trigger] stacked(seq![x], line) == line(x),
    decreases b.len(),
{
    assert forall|x: A| #[trigger] stacked(seq![x], line) == line(x) by {
        assert(seq![x].drop_last() =~= Seq::<A>::empty());
        reveal_with_fuel(stacked, 2);
        assert(stacked(seq![x], line) =~= line(x));
    }
    if b.len() == 0 {
        assert(a + b =~= a);
        assert(stacked(a, line) + stacked(b, line) =~= stacked(a, line));
    } else {
        lines_are_stacked_in_order(a, b.drop_last(), line);
        assert((a + b).drop_last() =~= a + b.drop_last());
        assert(stacked(a + b, line) =~= stacked(a, line) + stacked(b, line));
    }
}

/// A text, or a dash where there is none.
pub open spec fn text_or_dash(s: Option<Seq<char>>) -> Seq<char> {
    if s is Some {
        s->0
    } else {
        "-"@
    }
}

/// The directory as it is shown: behind the home directory, where it lies in it.
pub open spec fn shown(home: Seq<char>, slot: SlotInfoView) -> Seq<char> {
    if home.len() == 0 {
        text_or_dash(slot.path)
    } else {
        prefix_stripped(text_or_dash(slot.path), home)
    }
}

/// The line of a slot: the checkout, the project, the status and the directory.
pub open spec fn line_of(home: Seq<char>) -> spec_fn(SlotInfoView) -> Seq<char> {
    |slot: SlotInfoView|
        padded_right(text_or_dash(slot.checkout_name), 20) + " "@ + padded_right(slot.project, 20)
            + " "@ + padded_right(status_word(slot.status), 12) + " "@ + shown(home, slot) + "\n"@
}

/// The line of a slot in the background: the project, the status, the last refresh,
/// the directory and the error.
pub open spec fn background_line_of(home: Seq<char>) -> spec_fn(SlotInfoView) -> Seq<char> {
    |slot: SlotInfoView|
        padded_right(slot.project, 20) + " "@ + padded_right(status_word(slot.status), 12) + " "@
            + padded_right(text_or_dash(slot.last_refreshed), 35) + " "@ + padded_right(
            shown(home, slot),
            40,
        ) + " "@ + text_or_dash(slot.error_message) + "\n"@
}

/// A table has a line for every slot, in order, behind a line of headings; where there
/// is no slot that is said. Slots in the background come with their last refresh and
/// their error.
pub proof fn tables_have_a_line_for_every_slot(
    home: Seq<char>,
    filter: ListFilter,
    slots: Seq<SlotInfoView>,
)
    ensures
        ({
            let r = list_report(home, filter, ResponseView::List(slots));
            &&& slots.len() == 0 ==> r == Ok::<Seq<char>, CliErrorView>("No slots found.\n"@)
            &&& slots.len() > 0 && !(filter is Background) ==> r == Ok::<Seq<char>, CliErrorView>(
                padded_right("CHECKOUT"@, 20) + " "@ + padded_right("PROJECT"@, 20) + " "@
                    + padded_right("STATUS"@, 12) + " "@ + "PATH"@ + "\n"@ + stacked(
                    slots,
                    line_of(home),
                ),
            )
            &&& slots.len() > 0 && filter is Background ==> r == Ok::<Seq<char>, CliErrorView>(
                padded_right("PROJECT"@, 20) + " "@ + padded_right("STATUS"@, 12) + " "@
                    + padded_right("REFRESHED"@, 35) + " "@ + padded_right("PATH"@, 40) + " "@
                    + "ERROR"@ + "\n"@ + stacked(slots, background_line_of(home)),
            )
        }),
{
    lemma_rows(home, slots);
}

proof fn lemma_rows(home: Seq<char>, slots: Seq<SlotInfoView>)
    ensures
        slot_rows(home, slots) == stacked(slots, line_of(home)),
        background_rows(home, slots) == stacked(slots, background_line_of(home)),
    decreases slots.len(),
{
    if slots.len() > 0 {
        lemma_rows(home, slots.drop_last());
    }
}

/// The word for each status, and what the table says of one is not said of another.
pub proof fn statuses_have_words_of_their_own(a: SlotStatusSummary, b: SlotStatusSummary)
    ensures
        status_word(SlotStatusSummary::Uninitialized) == "uninitialized"@,
        status_word(SlotStatusSummary::Cloning) == "cloning"@,
        status_word(SlotStatusSummary::Building) == "building"@,
        status_word(SlotStatusSummary::Ready) == "ready"@,
        status_word(SlotStatusSummary::CheckedOut) == "checkedout"@,
        status_word(SlotStatusSummary::Error) == "error"@,
        a != b ==> status_word(a) != status_word(b),
{
    reveal_strlit("uninitialized");
    reveal_strlit("cloning");
    reveal_strlit("building");
    reveal_strlit("ready");
    reveal_strlit("checkedout");
    reveal_strlit("error");
    assert("uninitialized"@.len() == 13);
    assert("cloning"@.len() == 7);
    assert("building"@.len() == 8);
    assert("ready"@.len() == 5);
    assert("checkedout"@.len() == 10);
    assert("error"@.len() == 5);
    assert("ready"@[0] != "error"@[0]);
}

/// What was removed is told line by line, one for each directory; where there is
/// nothing that is said.
pub proof fn every_removal_is_told(paths: Seq<Seq<char>>)
    ensures
        ({
            let r = clean_report(ResponseView::Cleaned { paths });
            &&& paths.len() == 0 ==> r == Ok::<Seq<char>, CliErrorView>("Nothing to remove.\n"@)
            &&& paths.len() > 0 ==> r == Ok::<Seq<char>, CliErrorView>(
                stacked(paths, |path: Seq<char>| "removed "@ + path + "\n"@),
            )
        }),
{
    lemma_removed_lines(paths);
}

proof fn lemma_removed_lines(paths: Seq<Seq<char>>)
    ensures
        removed_lines(paths) == stacked(paths, |path: Seq<char>| "removed "@ + path + "\n"@),
    decreases paths.len(),
{
    if paths.len() > 0 {
        lemma_removed_lines(paths.drop_last());
        assert(removed_lines(paths) =~= stacked(
            paths,
            |path: Seq<char>| "removed "@ + path + "\n"@,
        ));
    }
}

/// What was handed out is told with its name and its directory; what was taken back
/// with its name.
pub proof fn outcomes_are_told(name: Seq<char>, path: Seq<char>)
    ensures
        add_report(ResponseView::Added { checkout_name: name, path }) == Ok::<
            Seq<char>,
            CliErrorView,
        >("checked out '"@ + name + "' at "@ + path + "\n"@),
        rm_report(ResponseView::Okay, name) == Ok::<Seq<char>, CliErrorView>(
            "returned '"@ + name + "'\n"@,
        ),
{
}

/// An error of the server, and another version of the protocol, are told as such
/// whatever was asked for.
pub proof fn refusals_are_told(
    message: Seq<char>,
    expected: u32,
    got: u32,
    home: Seq<char>,
    filter: ListFilter,
    name: Seq<char>,
    target: Completion,
)
    ensures
        ({
            let error = ResponseView::Error { message };
            let told = CliErrorView::Exit("error: "@ + message + "\n"@);
            &&& add_report(error) == Err::<Seq<char>, CliErrorView>(told)
            &&& list_report(home, filter, error) == Err::<Seq<char>, CliErrorView>(told)
            &&& cd_report(error, name) == Err::<Seq<char>, CliErrorView>(told)
            &&& project_report(error, name) == Err::<Seq<char>, CliErrorView>(told)
            &&& rm_report(error, name) == Err::<Seq<char>, CliErrorView>(told)
            &&& clean_report(error) == Err::<Seq<char>, CliErrorView>(told)
            &&& completions_report(error, target) == Err::<Seq<char>, CliErrorView>(told)
        }),
        refused(ResponseView::VersionMismatch { expected, got }) == CliErrorView::Exit(
            "protocol version mismatch: server expects "@ + decimal(expected as nat)
                + ", client sent "@ + decimal(got as nat) + "\n"@,
        ),
{
}

/// Only what was asked for is taken as success.
pub proof fn other_answers_are_errors(
    response: ResponseView,
    home: Seq<char>,
    filter: ListFilter,
    name: Seq<char>,
    target: Completion,
)
    ensures
        add_report(response) is Ok ==> response is Added,
        list_report(home, filter, response) is Ok ==> response is List,
        cd_report(response, name) is Ok ==> response is List,
        project_report(response, name) is Ok ==> response is List,
        rm_report(response, name) is Ok <==> response is Okay,
        clean_report(response) is Ok <==> response is Cleaned,
        completions_report(response, target) is Ok <==> response is List,
{
}

/// `aid cd` prints the directory, and `aid rm` takes the project, of the first slot
/// that bears the name; where none does that is an error that names it.
pub proof fn checkouts_are_looked_up_by_name(slots: Seq<SlotInfoView>, name: Seq<char>)
    ensures
        forall|i: int|
            0 <= i < slots.len() && (#[trigger] slots[i]).checkout_name == Some(name) && (forall|
                m: int,
            |
                0 <= m < i ==> (#[trigger] slots[m]).checkout_name != Some(name)) ==> {
                &&& slots[i].path is Some ==> cd_report(ResponseView::List(slots), name) == Ok::<
                    Seq<char>,
                    CliErrorView,
                >(slots[i].path->0 + "\n"@)
                &&& slots[i].path is None ==> cd_report(ResponseView::List(slots), name) is Err
                &&& project_report(ResponseView::List(slots), name) == Ok::<
                    Seq<char>,
                    CliErrorView,
                >(slots[i].project)
            },
        (forall|i: int| 0 <= i < slots.len() ==> (#[trigger] slots[i]).checkout_name != Some(name))
            ==> {
            let missing = CliErrorView::Exit("no active checkout named '"@ + name + "'\n"@);
            &&& cd_report(ResponseView::List(slots), name) == Err::<Seq<char>, CliErrorView>(
                missing,
            )
            &&& project_report(ResponseView::List(slots), name) == Err::<Seq<char>, CliErrorView>(
                missing,
            )
        },
{
    lemma_first_where(slots, bears(name));
    assert forall|i: int|
        0 <= i < slots.len() && (#[trigger] slots[i]).checkout_name == Some(name) && (forall|
            m: int,
        |
            0 <= m < i ==> (#[trigger] slots[m]).checkout_name
                != Some(name)) implies crate::seqs::first_where(slots, bears(name)) == Some(i) by {
        assert forall|m: int| 0 <= m < i implies !bears(name)(#[trigger] slots[m]) by {}
        crate::seqs::lemma_first_where_is(slots, bears(name), i);
    }
    if forall|i: int| 0 <= i < slots.len() ==> (#[trigger] slots[i]).checkout_name != Some(name) {
        if let Some(i) = crate::seqs::first_where(slots, bears(name)) {
            assert(slots[i].checkout_name == Some(name));
        }
    }
}

proof fn lemma_project_lines(slots: Seq<SlotInfoView>, slot: SlotInfoView, n: int)
    requires
        0 <= n <= slots.len(),
    ensures
        project_lines(slots.push(slot), n) == project_lines(slots, n),
        checkout_lines(slots.push(slot), n) == checkout_lines(slots, n),
    decreases n,
{
    if n > 0 {
        lemma_project_lines(slots, slot, n - 1);
        let more = slots.push(slot);
        assert(more[n - 1] == slots[n - 1]);
        if project_seen(more, n - 1) {
            let j = choose|j: int| 0 <= j < n - 1 && (#[trigger] more[j]).project == more[n
                - 1].project;
            assert(slots[j].project == slots[n - 1].project);
        }
        if project_seen(slots, n - 1) {
            let j = choose|j: int| 0 <= j < n - 1 && (#[trigger] slots[j]).project == slots[n
                - 1].project;
            assert(more[j].project == more[n - 1].project);
        }
    }
}

/// What is completed grows slot by slot: the name of a project is added with its
/// first slot, and that of a checkout with its slot, each on a line of its own.
pub proof fn every_name_is_completed(slots: Seq<SlotInfoView>, slot: SlotInfoView)
    ensures
        completions_report(ResponseView::List(Seq::empty()), Completion::Add) == Ok::<
            Seq<char>,
            CliErrorView,
        >(Seq::empty()),
        completions_report(ResponseView::List(Seq::empty()), Completion::Cd) == Ok::<
            Seq<char>,
            CliErrorView,
        >(Seq::empty()),
        ({
            let before = completions_report(ResponseView::List(slots), Completion::Add)->Ok_0;
            let known = exists|j: int|
                0 <= j < slots.len() && (#[trigger] slots[j]).project == slot.project;
            completions_report(ResponseView::List(slots.push(slot)), Completion::Add) == Ok::<
                Seq<char>,
                CliErrorView,
            >(
                if known {
                    before
                } else {
                    before + slot.project + "\n"@
                },
            )
        }),
        ({
            let before = completions_report(ResponseView::List(slots), Completion::Cd)->Ok_0;
            completions_report(ResponseView::List(slots.push(slot)), Completion::Cd) == Ok::<
                Seq<char>,
                CliErrorView,
            >(
                if slot.checkout_name is Some {
                    before + slot.checkout_name->0 + "\n"@
                } else {
                    before
                },
            )
        }),
{
    let n = slots.len() as int;
    let more = slots.push(slot);
    lemma_project_lines(slots, slot, n);
    assert(more[n] == slot);
    if project_seen(more, n) {
        let j = choose|j: int| 0 <= j < n && (#[trigger] more[j]).project == more[n].project;
        assert(slots[j].project == slot.project);
    }
    if exists|j: int| 0 <= j < slots.len() && (#[trigger] slots[j]).project == slot.project {
        let j = choose|j: int|
            0 <= j < slots.len() && (#[trigger] slots[j]).project == slot.project;
        assert(more[j].project == more[n].project);
    }
}

/// Completions are made for `add`, of projects, and for `cd`, of checkouts; a snippet
/// is there for bash and for zsh.
pub proof fn what_shells_are_offered(word: Seq<char>)
    ensures
        completion("add"@) == Ok::<Completion, CliErrorView>(Completion::Add),
        completion("cd"@) == Ok::<Completion, CliErrorView>(Completion::Cd),
        word != "add"@ && word != "cd"@ ==> completion(word) == Err::<Completion, CliErrorView>(
            CliErrorView::Failed(
                "unknown completions target '"@ + word + "'; supported: add, cd"@,
            ),
        ),
        init_snippet("bash"@) == Ok::<Seq<char>, CliErrorView>(BASH_SNIPPET@ + "\n"@),
        init_snippet("zsh"@) == Ok::<Seq<char>, CliErrorView>(ZSH_SNIPPET@ + "\n"@),
        word != "bash"@ && word != "zsh"@ ==> init_snippet(word) == Err::<Seq<char>, CliErrorView>(
            CliErrorView::Failed("unsupported shell '"@ + word + "'; supported: bash, zsh"@),
        ),
{
    reveal_strlit("add");
    reveal_strlit("cd");
    reveal_strlit("bash");
    reveal_strlit("zsh");
    assert("add"@.len() == 3);
    assert("cd"@.len() == 2);
    assert("bash"@.len() == 4);
    assert("zsh"@.len() == 3);
}

/// Lists in messages hold every item, with commas between them.
pub proof fn lists_hold_every_item(slots: Seq<SlotInfoView>, slot: SlotInfoView)
    ensures
        slots_text(seq![slot]) == slot_text(slot),
        slots.len() > 0 ==> slots_text(slots.push(slot)) == slots_text(slots) + ", "@
            + slot_text(slot),
{
    assert(slots.push(slot).drop_last() =~= slots);
}

/// Paths in messages are all there, with commas between them.
pub proof fn lists_hold_every_path(paths: Seq<Seq<char>>, path: Seq<char>)
    ensures
        paths_text(seq![path]) == quoted(path),
        paths.len() > 0 ==> paths_text(paths.push(path)) == paths_text(paths) + ", "@
            + quoted(path),
{
    assert(paths.push(path).drop_last() =~= paths);
}

/// A response in a message is shown with its kind and everything that it holds.
pub proof fn messages_show_whole_responses(
    slot: SlotInfoView,
    slots: Seq<SlotInfoView>,
    paths: Seq<Seq<char>>,
    name: Seq<char>,
    path: Seq<char>,
    expected: u32,
    got: u32,
)
    ensures
        response_text(ResponseView::Okay) == "Ok"@,
        response_text(ResponseView::Added { checkout_name: name, path })
            == "Added { checkout_name: "@ + quoted(name) + ", path: "@ + quoted(path) + " }"@,
        response_text(ResponseView::List(slots)) == "List(SlotList { slots: ["@ + slots_text(slots)
            + "] })"@,
        response_text(ResponseView::Cleaned { paths }) == "Cleaned { paths: ["@ + paths_text(paths)
            + "] }"@,
        response_text(ResponseView::Error { message: name }) == "Error { message: "@ + quoted(name)
            + " }"@,
        response_text(ResponseView::VersionMismatch { expected, got })
            == "VersionMismatch { expected: "@ + decimal(expected as nat) + ", got: "@ + decimal(
            got as nat,
        ) + " }"@,
        slot_text(slot) == "SlotInfo { project: "@ + quoted(slot.project) + ", checkout_name: "@
            + opt_text(slot.checkout_name) + ", status: "@ + status_text(slot.status)
            + ", last_refreshed: "@ + opt_text(slot.last_refreshed) + ", error_message: "@
            + opt_text(slot.error_message) + ", path: "@ + opt_text(slot.path) + " }"@,
        opt_text(Some(name)) == "Some("@ + quoted(name) + ")"@,
        opt_text(None) == "None"@,
        status_text(SlotStatusSummary::Uninitialized) == "Uninitialized"@,
        status_text(SlotStatusSummary::Cloning) == "Cloning"@,
        status_text(SlotStatusSummary::Building) == "Building"@,
        status_text(SlotStatusSummary::Ready) == "Ready"@,
        status_text(SlotStatusSummary::CheckedOut) == "CheckedOut"@,
        status_text(SlotStatusSummary::Error) == "Error"@,
{
}

} // verus!
