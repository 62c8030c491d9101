//! The command line: what was asked for, what to request, and what to print.
use crate::api::{
    Envelope, ListFilter, Request, RequestEnvelope, RequestView, Response, ResponseView, SlotInfo,
    SlotInfoView, SlotList, SlotStatusSummary, PROTOCOL_VERSION,
};
use crate::cleanup::Removal;
use crate::path::{join, joined};
use crate::seqs::{first_where, lemma_first_where_is, lemma_first_where_none};
use crate::state::Paths;
use crate::text::{
    decimal, opt_view, pad_right, padded_right, prefix_stripped, quote, quoted, same_text,
    strip_prefix_or_self, to_decimal, views,
};
use vstd::prelude::*;
use vstd::string::*;

verus! {

/// What bash evaluates so that `aid cd` changes the directory and names complete.
pub const BASH_SNIPPET: &'static str = r#"aid() {
  if [ "$1" = "cd" ]; then
    local _aid_path
    _aid_path="$(command aid "$@")" || return 1
    builtin cd "$_aid_path"
  else
    command aid "$@"
  fi
}

_aid_completions() {
  local cur prev
  cur="${COMP_WORDS[COMP_CWORD]}"
  prev="${COMP_WORDS[COMP_CWORD-1]}"
  case "$prev" in
    add)
      COMPREPLY=( $(compgen -W "$(command aid completions add 2>/dev/null)" -- "$cur") )
      ;;
    cd|rm)
      COMPREPLY=( $(compgen -W "$(command aid completions cd 2>/dev/null)" -- "$cur") )
      ;;
    aid)
      COMPREPLY=( $(compgen -W "server add list cd rm init" -- "$cur") )
      ;;
  esac
}

complete -F _aid_completions aid"#;

/// The same for zsh.
pub const ZSH_SNIPPET: &'static str = r#"aid() {
  if [ "$1" = "cd" ]; then
    local _aid_path
    _aid_path="$(command aid "$@")" || return 1
    builtin cd "$_aid_path"
  else
    command aid "$@"
  fi
}

_aid_completions() {
  local state
  _arguments \
    '1: :->subcmd' \
    '2: :->arg' && return

  case $state in
    subcmd)
      _values 'subcommand' server add list cd rm init
      ;;
    arg)
      case $words[2] in
        add)
          local projects
          projects=($( command aid completions add 2>/dev/null ))
          _values 'project' $projects
          ;;
        cd|rm)
          local checkouts
          checkouts=($( command aid completions cd 2>/dev/null ))
          _values 'checkout' $checkouts
          ;;
      esac
      ;;
  esac
}

compdef _aid_completions aid"#;

/// Why a command of the user ends without success.
#[derive(Debug, Clone, PartialEq, Eq)]
pub enum CliError {
    /// An error, shown behind `Error: `.
    Failed(String),
    /// Lines for standard error, shown as they stand.
    Exit(String),
}

pub enum CliErrorView {
    Failed(Seq<char>),
    Exit(Seq<char>),
}

impl View for CliError {
    type V = CliErrorView;

    open spec fn view(&self) -> CliErrorView {
        match self {
            CliError::Failed(m) => CliErrorView::Failed(m@),
            CliError::Exit(m) => CliErrorView::Exit(m@),
        }
    }
}

/// The lines to print, or the error.
pub type Printed = std::result::Result<String, CliError>;

/// Whether a result is what a model of it says.
pub open spec fn prints(r: Printed, model: std::result::Result<Seq<char>, CliErrorView>) -> bool {
    match model {
        Ok(text) => r matches Ok(got) && got@ == text,
        Err(e) => r matches Err(got) && got@ == e,
    }
}

/// The snippet for a shell.
pub open spec fn init_snippet(shell: Seq<char>) -> std::result::Result<Seq<char>, CliErrorView> {
    if shell == "bash"@ {
        Ok(BASH_SNIPPET@ + "\n"@)
    } else if shell == "zsh"@ {
        Ok(ZSH_SNIPPET@ + "\n"@)
    } else {
        Err(CliErrorView::Failed("unsupported shell '"@ + shell + "'; supported: bash, zsh"@))
    }
}

/// Print a shell snippet that wraps `aid cd` so the shell actually changes directory,
/// and registers completions for `add` and `cd`.
pub fn run_init(shell: &str) -> (r: Printed)
    ensures
        prints(r, init_snippet(shell@)),
{
    if same_text(shell, "bash") {
        Ok(BASH_SNIPPET.to_owned().concat("\n"))
    } else if same_text(shell, "zsh") {
        Ok(ZSH_SNIPPET.to_owned().concat("\n"))
    } else {
        Err(
            CliError::Failed(
                "unsupported shell '".to_owned().concat(shell).concat("'; supported: bash, zsh"),
            ),
        )
    }
}

pub const USAGE: &'static str = "Usage: aid <server|add <project> <checkout>|list [--active|--free|--background]|cd <checkout>|rm [--force] <checkout>|cleanup|purge|init <bash|zsh>>";

pub const ADD_USAGE: &'static str = "Usage: aid add <project_name> <checkout_name>";

pub const CD_USAGE: &'static str = "Usage: aid cd <checkout_name>";

pub const INIT_USAGE: &'static str = "Usage: aid init <bash|zsh>";

pub const RM_USAGE: &'static str = "Usage: aid rm [--force] <checkout_name>";

pub const COMPLETIONS_USAGE: &'static str = "Usage: aid completions <add|cd>";

/// What the user asked for.
#[derive(Debug, Clone, PartialEq, Eq)]
pub enum Invocation {
    Server,
    Add { project_name: String, checkout_name: String },
    List { filter: ListFilter },
    Cd { checkout_name: String },
    Init { shell: String },
    Rm { checkout_name: String, force: bool },
    Cleanup,
    Purge,
    Completions { subcmd: String },
}

pub enum InvocationView {
    Server,
    Add { project_name: Seq<char>, checkout_name: Seq<char> },
    List { filter: ListFilter },
    Cd { checkout_name: Seq<char> },
    Init { shell: Seq<char> },
    Rm { checkout_name: Seq<char>, force: bool },
    Cleanup,
    Purge,
    Completions { subcmd: Seq<char> },
}

impl View for Invocation {
    type V = InvocationView;

    open spec fn view(&self) -> InvocationView {
        match self {
            Invocation::Server => InvocationView::Server,
            Invocation::Add { project_name, checkout_name } => InvocationView::Add {
                project_name: project_name@,
                checkout_name: checkout_name@,
            },
            Invocation::List { filter } => InvocationView::List { filter: *filter },
            Invocation::Cd { checkout_name } => InvocationView::Cd {
                checkout_name: checkout_name@,
            },
            Invocation::Init { shell } => InvocationView::Init { shell: shell@ },
            Invocation::Rm { checkout_name, force } => InvocationView::Rm {
                checkout_name: checkout_name@,
                force: *force,
            },
            Invocation::Cleanup => InvocationView::Cleanup,
            Invocation::Purge => InvocationView::Purge,
            Invocation::Completions { subcmd } => InvocationView::Completions { subcmd: subcmd@ },
        }
    }
}

/// The filter that flags ask for: the last one counts, and the first one that is
/// unknown is an error. A common misspelling of `--background` is accepted.
pub open spec fn filter_of(flags: Seq<Seq<char>>, before: ListFilter) -> std::result::Result<
    ListFilter,
    CliErrorView,
>
    decreases flags.len(),
{
    if flags.len() == 0 {
        Ok(before)
    } else if flags[0] == "--active"@ {
        filter_of(flags.drop_first(), ListFilter::Active)
    } else if flags[0] == "--free"@ {
        filter_of(flags.drop_first(), ListFilter::Free)
    } else if flags[0] == "--background"@ || flags[0] == "--backgorund"@ {
        filter_of(flags.drop_first(), ListFilter::Background)
    } else {
        Err(CliErrorView::Failed("unknown flag for list: "@ + flags[0]))
    }
}

/// Reads the filter from the flags behind `list`.
pub fn parse_list_filter(args: &[String]) -> (r: std::result::Result<ListFilter, CliError>)
    ensures
        match filter_of(views(args@), ListFilter::All) {
            Ok(filter) => r == Ok::<ListFilter, CliError>(filter),
            Err(e) => r matches Err(got) && got@ == e,
        },
{
    let mut filter = ListFilter::All;
    let mut i: usize = 0;
    assert(views(args@).skip(0) =~= views(args@));
    while i < args.len()
        invariant
            i <= args@.len(),
            filter_of(views(args@), ListFilter::All) == filter_of(
                views(args@).skip(i as int),
                filter,
            ),
        decreases args@.len() - i,
    {
        let ghost rest = views(args@).skip(i as int);
        assert(rest[0] == args@[i as int]@);
        assert(rest.drop_first() =~= views(args@).skip(i + 1));
        let arg = args[i].as_str();
        if same_text(arg, "--active") {
            filter = ListFilter::Active;
        } else if same_text(arg, "--free") {
            filter = ListFilter::Free;
        } else if same_text(arg, "--background") || same_text(arg, "--backgorund") {
            filter = ListFilter::Background;
        } else {
            return Err(CliError::Failed("unknown flag for list: ".to_owned().concat(arg)));
        }
        i = i + 1;
    }
    Ok(filter)
}

pub open spec fn usage(text: Seq<char>) -> std::result::Result<InvocationView, CliErrorView> {
    Err(CliErrorView::Failed(text))
}

/// What the arguments behind the name of the program ask for.
pub open spec fn invocation(args: Seq<Seq<char>>) -> std::result::Result<
    InvocationView,
    CliErrorView,
> {
    if args.len() == 0 {
        Err(CliErrorView::Exit(USAGE@ + "\n"@))
    } else if args[0] == "server"@ {
        Ok(InvocationView::Server)
    } else if args[0] == "add"@ {
        if args.len() < 3 {
            usage(ADD_USAGE@)
        } else {
            Ok(InvocationView::Add { project_name: args[1], checkout_name: args[2] })
        }
    } else if args[0] == "list"@ {
        match filter_of(args.skip(1), ListFilter::All) {
            Ok(filter) => Ok(InvocationView::List { filter }),
            Err(e) => Err(e),
        }
    } else if args[0] == "cd"@ {
        if args.len() < 2 {
            usage(CD_USAGE@)
        } else {
            Ok(InvocationView::Cd { checkout_name: args[1] })
        }
    } else if args[0] == "init"@ {
        if args.len() < 2 {
            usage(INIT_USAGE@)
        } else {
            Ok(InvocationView::Init { shell: args[1] })
        }
    } else if args[0] == "rm"@ {
        if args.len() >= 2 && args[1] == "--force"@ {
            if args.len() < 3 {
                usage(RM_USAGE@)
            } else {
                Ok(InvocationView::Rm { checkout_name: args[2], force: true })
            }
        } else if args.len() < 2 {
            usage(RM_USAGE@)
        } else {
            Ok(InvocationView::Rm { checkout_name: args[1], force: false })
        }
    } else if args[0] == "cleanup"@ {
        Ok(InvocationView::Cleanup)
    } else if args[0] == "purge"@ {
        Ok(InvocationView::Purge)
    } else if args[0] == "completions"@ {
        if args.len() < 2 {
            usage(COMPLETIONS_USAGE@)
        } else {
            Ok(InvocationView::Completions { subcmd: args[1] })
        }
    } else {
        Err(CliErrorView::Exit("unknown command: "@ + args[0] + "\n"@ + USAGE@ + "\n"@))
    }
}

fn misuse(text: &str) -> (r: std::result::Result<Invocation, CliError>)
    ensures
        r matches Err(e) && e@ == CliErrorView::Failed(text@),
{
    Err(CliError::Failed(text.to_owned()))
}

/// Reads the arguments behind the name of the program.
pub fn parse_args(args: &[String]) -> (r: std::result::Result<Invocation, CliError>)
    ensures
        match invocation(views(args@)) {
            Ok(model) => r matches Ok(got) && got@ == model,
            Err(e) => r matches Err(got) && got@ == e,
        },
{
    if args.len() == 0 {
        return Err(CliError::Exit(USAGE.to_owned().concat("\n")));
    }
    let n: usize = args.len();
    let cmd = args[0].as_str();
    assert(views(args@)[0] == cmd@);
    assert(n > 1 ==> views(args@)[1] == args@[1]@);
    assert(n > 2 ==> views(args@)[2] == args@[2]@);
    if same_text(cmd, "server") {
        Ok(Invocation::Server)
    } else if same_text(cmd, "add") {
        if n < 3 {
            misuse(ADD_USAGE)
        } else {
            Ok(Invocation::Add { project_name: args[1].clone(), checkout_name: args[2].clone() })
        }
    } else if same_text(cmd, "list") {
        let flags = vstd::slice::slice_subrange(args, 1, n);
        assert(views(flags@) =~= views(args@).skip(1));
        match parse_list_filter(flags) {
            Ok(filter) => Ok(Invocation::List { filter }),
            Err(e) => Err(e),
        }
    } else if same_text(cmd, "cd") {
        if n < 2 {
            misuse(CD_USAGE)
        } else {
            Ok(Invocation::Cd { checkout_name: args[1].clone() })
        }
    } else if same_text(cmd, "init") {
        if n < 2 {
            misuse(INIT_USAGE)
        } else {
            Ok(Invocation::Init { shell: args[1].clone() })
        }
    } else if same_text(cmd, "rm") {
        if n >= 2 && same_text(args[1].as_str(), "--force") {
            if n < 3 {
                misuse(RM_USAGE)
            } else {
                Ok(Invocation::Rm { checkout_name: args[2].clone(), force: true })
            }
        } else if n < 2 {
            misuse(RM_USAGE)
        } else {
            Ok(Invocation::Rm { checkout_name: args[1].clone(), force: false })
        }
    } else if same_text(cmd, "cleanup") {
        Ok(Invocation::Cleanup)
    } else if same_text(cmd, "purge") {
        Ok(Invocation::Purge)
    } else if same_text(cmd, "completions") {
        if n < 2 {
            misuse(COMPLETIONS_USAGE)
        } else {
            Ok(Invocation::Completions { subcmd: args[1].clone() })
        }
    } else {
        let mut m = "unknown command: ".to_owned();
        m.append(cmd);
        m.append("\n");
        m.append(USAGE);
        m.append("\n");
        Err(CliError::Exit(m))
    }
}

/// Where the server keeps its files, for those values of the variables `HOME`,
/// `XDG_CONFIG_HOME` and `XDG_STATE_HOME`.
pub fn resolve_paths(
    home: Option<&str>,
    config_home: Option<&str>,
    state_home: Option<&str>,
) -> (r: std::result::Result<Paths, CliError>)
    ensures
        home is None ==> (r matches Err(e) && e@ == CliErrorView::Failed(
            "HOME environment variable is not set"@,
        )),
        home matches Some(h) ==> (r matches Ok(paths) && {
            let config_dir = joined(
                match config_home {
                    Some(dir) => dir@,
                    None => joined(h@, ".config"@),
                },
                "aid"@,
            );
            let data_dir = joined(
                match state_home {
                    Some(dir) => dir@,
                    None => joined(h@, ".local/state"@),
                },
                "aid"@,
            );
            &&& paths.data_dir@ == data_dir
            &&& paths.config_file@ == joined(config_dir, "config.toml"@)
            &&& paths.state_file@ == joined(data_dir, "state.json"@)
            &&& paths.lock_file@ == joined(data_dir, "server.lock"@)
            &&& paths.socket_file@ == joined(data_dir, "server.sock"@)
            &&& paths.repos_dir@ == joined(data_dir, "repos"@)
        }),
{
    match home {
        None => Err(CliError::Failed("HOME environment variable is not set".to_owned())),
        Some(home) => {
            let config_base = match config_home {
                Some(dir) => dir.to_owned(),
                None => join(home, ".config"),
            };
            let state_base = match state_home {
                Some(dir) => dir.to_owned(),
                None => join(home, ".local/state"),
            };
            let config_dir = join(config_base.as_str(), "aid");
            let data_dir = join(state_base.as_str(), "aid");
            Ok(Paths::new(config_dir.as_str(), data_dir.as_str()))
        },
    }
}

/// The notation of an optional string in messages.
pub open spec fn opt_text(s: Option<Seq<char>>) -> Seq<char> {
    match s {
        Some(s) => "Some("@ + quoted(s) + ")"@,
        None => "None"@,
    }
}

/// The notation of a status in messages.
pub open spec fn status_text(status: SlotStatusSummary) -> Seq<char> {
    match status {
        SlotStatusSummary::Uninitialized => "Uninitialized"@,
        SlotStatusSummary::Cloning => "Cloning"@,
        SlotStatusSummary::Building => "Building"@,
        SlotStatusSummary::Ready => "Ready"@,
        SlotStatusSummary::CheckedOut => "CheckedOut"@,
        SlotStatusSummary::Error => "Error"@,
    }
}

/// The notation of a slot in messages.
pub open spec fn slot_text(slot: SlotInfoView) -> Seq<char> {
    "SlotInfo { project: "@ + quoted(slot.project) + ", checkout_name: "@ + opt_text(
        slot.checkout_name,
    ) + ", status: "@ + status_text(slot.status) + ", last_refreshed: "@ + opt_text(
        slot.last_refreshed,
    ) + ", error_message: "@ + opt_text(slot.error_message) + ", path: "@ + opt_text(slot.path)
        + " }"@
}

/// The notation of slots in messages, with commas between them.
pub open spec fn slots_text(slots: Seq<SlotInfoView>) -> Seq<char>
    decreases slots.len(),
{
    if slots.len() == 0 {
        Seq::empty()
    } else if slots.len() == 1 {
        slot_text(slots[0])
    } else {
        slots_text(slots.drop_last()) + ", "@ + slot_text(slots.last())
    }
}

/// The notation of paths in messages, with commas between them.
pub open spec fn paths_text(paths: Seq<Seq<char>>) -> Seq<char>
    decreases paths.len(),
{
    if paths.len() == 0 {
        Seq::empty()
    } else if paths.len() == 1 {
        quoted(paths[0])
    } else {
        paths_text(paths.drop_last()) + ", "@ + quoted(paths.last())
    }
}

/// The notation of a response in messages.
pub open spec fn response_text(response: ResponseView) -> Seq<char> {
    match response {
        ResponseView::Okay => "Ok"@,
        ResponseView::Added { checkout_name, path } => "Added { checkout_name: "@ + quoted(
            checkout_name,
        ) + ", path: "@ + quoted(path) + " }"@,
        ResponseView::List(slots) => "List(SlotList { slots: ["@ + slots_text(slots) + "] })"@,
        ResponseView::Cleaned { paths } => "Cleaned { paths: ["@ + paths_text(paths) + "] }"@,
        ResponseView::Error { message } => "Error { message: "@ + quoted(message) + " }"@,
        ResponseView::VersionMismatch { expected, got } => "VersionMismatch { expected: "@
            + decimal(expected as nat) + ", got: "@ + decimal(got as nat) + " }"@,
    }
}

fn push_opt(m: &mut String, s: &Option<String>)
    ensures
        final(m)@ == old(m)@ + opt_text(opt_view(*s)),
{
    match s {
        Some(s) => {
            m.append("Some(");
            m.append(quote(s.as_str()).as_str());
            m.append(")");
            assert(m@ =~= old(m)@ + ("Some("@ + quoted(s@) + ")"@));
        },
        None => {
            m.append("None");
        },
    }
}

fn status_name(status: SlotStatusSummary) -> (r: &'static str)
    ensures
        r@ == status_text(status),
{
    match status {
        SlotStatusSummary::Uninitialized => "Uninitialized",
        SlotStatusSummary::Cloning => "Cloning",
        SlotStatusSummary::Building => "Building",
        SlotStatusSummary::Ready => "Ready",
        SlotStatusSummary::CheckedOut => "CheckedOut",
        SlotStatusSummary::Error => "Error",
    }
}

fn describe_info(slot: &SlotInfo) -> (r: String)
    ensures
        r@ == slot_text(slot@),
{
    let mut m = "SlotInfo { project: ".to_owned();
    m.append(quote(slot.project.as_str()).as_str());
    m.append(", checkout_name: ");
    push_opt(&mut m, &slot.checkout_name);
    m.append(", status: ");
    m.append(status_name(slot.status));
    m.append(", last_refreshed: ");
    push_opt(&mut m, &slot.last_refreshed);
    m.append(", error_message: ");
    push_opt(&mut m, &slot.error_message);
    m.append(", path: ");
    push_opt(&mut m, &slot.path);
    m.append(" }");
    m
}

fn describe_slots(list: &SlotList) -> (r: String)
    ensures
        r@ == slots_text(list@),
{
    let mut m = String::new();
    let mut i: usize = 0;
    assert(list@.take(0) =~= Seq::<SlotInfoView>::empty());
    while i < list.slots.len()
        invariant
            i <= list.slots.len(),
            m@ == slots_text(list@.take(i as int)),
        decreases list.slots.len() - i,
    {
        let ghost so_far = list@.take(i + 1);
        proof {
            assert(so_far.drop_last() =~= list@.take(i as int));
            assert(so_far.last() == list.slots@[i as int]@);
            if i == 0 {
                assert(so_far[0] == list.slots@[0]@);
            }
        }
        let text = describe_info(&list.slots[i]);
        if i == 0 {
            m = text;
        } else {
            m.append(", ");
            m.append(text.as_str());
        }
        i = i + 1;
    }
    assert(list@.take(i as int) =~= list@);
    m
}

fn describe_paths(paths: &Vec<String>) -> (r: String)
    ensures
        r@ == paths_text(views(paths@)),
{
    let mut m = String::new();
    let mut i: usize = 0;
    assert(views(paths@).take(0) =~= Seq::<Seq<char>>::empty());
    while i < paths.len()
        invariant
            i <= paths.len(),
            m@ == paths_text(views(paths@).take(i as int)),
        decreases paths.len() - i,
    {
        let ghost so_far = views(paths@).take(i + 1);
        proof {
            assert(so_far.drop_last() =~= views(paths@).take(i as int));
            assert(so_far.last() == paths@[i as int]@);
            if i == 0 {
                assert(so_far[0] == paths@[0]@);
            }
        }
        let text = quote(paths[i].as_str());
        if i == 0 {
            m = text;
        } else {
            m.append(", ");
            m.append(text.as_str());
        }
        i = i + 1;
    }
    assert(views(paths@).take(i as int) =~= views(paths@));
    m
}

/// Writes a response as it appears in messages.
pub fn describe_response(response: &Response) -> (r: String)
    ensures
        r@ == response_text(response@),
{
    match response {
        Response::Okay => "Ok".to_owned(),
        Response::Added { checkout_name, path } => {
            let mut m = "Added { checkout_name: ".to_owned();
            m.append(quote(checkout_name.as_str()).as_str());
            m.append(", path: ");
            m.append(quote(path.as_str()).as_str());
            m.append(" }");
            m
        },
        Response::List(list) => "List(SlotList { slots: [".to_owned().concat(
            describe_slots(list).as_str(),
        ).concat("] })"),
        Response::Cleaned { paths } => "Cleaned { paths: [".to_owned().concat(
            describe_paths(paths).as_str(),
        ).concat("] }"),
        Response::Error { message } => "Error { message: ".to_owned().concat(
            quote(message.as_str()).as_str(),
        ).concat(" }"),
        Response::VersionMismatch { expected, got } => {
            let mut m = "VersionMismatch { expected: ".to_owned();
            m.append(to_decimal(*expected as u64).as_str());
            m.append(", got: ");
            m.append(to_decimal(*got as u64).as_str());
            m.append(" }");
            m
        },
    }
}

/// What is printed of a response that is not what was asked for.
pub open spec fn refused(response: ResponseView) -> CliErrorView {
    CliErrorView::Exit(
        (match response {
            ResponseView::Error { message } => "error: "@ + message,
            ResponseView::VersionMismatch { expected, got } =>
                "protocol version mismatch: server expects "@ + decimal(expected as nat)
                    + ", client sent "@ + decimal(got as nat),
            other => "unexpected response: "@ + response_text(other),
        }) + "\n"@,
    )
}

/// Reports a response that is not what was asked for.
pub fn report_refusal(response: &Response) -> (r: CliError)
    ensures
        r@ == refused(response@),
{
    let mut m = match response {
        Response::Error { message } => "error: ".to_owned().concat(message.as_str()),
        Response::VersionMismatch { expected, got } => {
            let mut m = "protocol version mismatch: server expects ".to_owned();
            m.append(to_decimal(*expected as u64).as_str());
            m.append(", client sent ");
            m.append(to_decimal(*got as u64).as_str());
            m
        },
        other => "unexpected response: ".to_owned().concat(describe_response(other).as_str()),
    };
    m.append("\n");
    CliError::Exit(m)
}

/// Puts a request in an envelope.
pub fn envelope(id: &str, content: Request) -> (r: RequestEnvelope)
    ensures
        r.version == PROTOCOL_VERSION,
        r.request_id@ == id@,
        r.content@ == content@,
{
    Envelope { version: PROTOCOL_VERSION, request_id: id.to_owned(), content }
}

/// The request of `aid add`.
pub fn add_request(project_name: &String, checkout_name: &String) -> (r: RequestEnvelope)
    ensures
        r.version == PROTOCOL_VERSION,
        r.request_id@ == "1"@,
        r.content@ == (RequestView::Add {
            project_name: project_name@,
            checkout_name: checkout_name@,
        }),
{
    envelope(
        "1",
        Request::Add { project_name: project_name.clone(), checkout_name: checkout_name.clone() },
    )
}

/// The request of `aid list`, and of all that start with a listing.
pub fn list_request(filter: ListFilter) -> (r: RequestEnvelope)
    ensures
        r.version == PROTOCOL_VERSION,
        r.request_id@ == "1"@,
        r.content@ == (RequestView::List { filter }),
{
    envelope("1", Request::List { filter })
}

/// The request of `aid rm`, once the project is known.
pub fn remove_request(project_name: &String, checkout_name: &String, force: bool) -> (r:
    RequestEnvelope)
    ensures
        r.version == PROTOCOL_VERSION,
        r.request_id@ == "2"@,
        r.content@ == (RequestView::Remove {
            project_name: project_name@,
            checkout_name: checkout_name@,
            force,
        }),
{
    envelope(
        "2",
        Request::Remove {
            project_name: project_name.clone(),
            checkout_name: checkout_name.clone(),
            force,
        },
    )
}

/// The request of `aid cleanup` and `aid purge`.
pub fn clean_request(removal: Removal) -> (r: RequestEnvelope)
    ensures
        r.version == PROTOCOL_VERSION,
        r.request_id@ == "1"@,
        r.content@ == (match removal {
            Removal::Extra => RequestView::Cleanup,
            Removal::All => RequestView::Purge,
        }),
{
    match removal {
        Removal::Extra => envelope("1", Request::Cleanup),
        Removal::All => envelope("1", Request::Purge),
    }
}

/// The lines for the directories that were removed.
pub open spec fn removed_lines(paths: Seq<Seq<char>>) -> Seq<char>
    decreases paths.len(),
{
    if paths.len() == 0 {
        Seq::empty()
    } else {
        removed_lines(paths.drop_last()) + "removed "@ + paths.last() + "\n"@
    }
}

/// What `aid cleanup` and `aid purge` print of a response.
pub open spec fn clean_report(response: ResponseView) -> std::result::Result<
    Seq<char>,
    CliErrorView,
> {
    match response {
        ResponseView::Cleaned { paths } => if paths.len() == 0 {
            Ok("Nothing to remove.\n"@)
        } else {
            Ok(removed_lines(paths))
        },
        other => Err(refused(other)),
    }
}

/// Reports the response to `aid cleanup` or `aid purge`.
pub fn run_clean(response: &Response) -> (r: Printed)
    ensures
        prints(r, clean_report(response@)),
{
    match response {
        Response::Cleaned { paths } => {
            if paths.len() == 0 {
                return Ok("Nothing to remove.\n".to_owned());
            }
            let mut m = String::new();
            let mut i: usize = 0;
            assert(views(paths@).take(0) =~= Seq::<Seq<char>>::empty());
            while i < paths.len()
                invariant
                    i <= paths.len(),
                    m@ == removed_lines(views(paths@).take(i as int)),
                decreases paths.len() - i,
            {
                m.append("removed ");
                m.append(paths[i].as_str());
                m.append("\n");
                proof {
                    let so_far = views(paths@).take(i + 1);
                    assert(so_far.drop_last() =~= views(paths@).take(i as int));
                    assert(so_far.last() == paths@[i as int]@);
                }
                i = i + 1;
            }
            assert(views(paths@).take(i as int) =~= views(paths@));
            Ok(m)
        },
        other => Err(report_refusal(other)),
    }
}

/// What `aid add` prints of a response.
pub open spec fn add_report(response: ResponseView) -> std::result::Result<
    Seq<char>,
    CliErrorView,
> {
    match response {
        ResponseView::Added { checkout_name, path } => Ok(
            "checked out '"@ + checkout_name + "' at "@ + path + "\n"@,
        ),
        other => Err(refused(other)),
    }
}

/// Reports the response to `aid add`.
pub fn run_add(response: &Response) -> (r: Printed)
    ensures
        prints(r, add_report(response@)),
{
    match response {
        Response::Added { checkout_name, path } => {
            let mut m = "checked out '".to_owned();
            m.append(checkout_name.as_str());
            m.append("' at ");
            m.append(path.as_str());
            m.append("\n");
            Ok(m)
        },
        other => Err(report_refusal(other)),
    }
}

/// A line of the table of slots.
pub open spec fn row(a: Seq<char>, b: Seq<char>, c: Seq<char>, d: Seq<char>) -> Seq<char> {
    padded_right(a, 20) + " "@ + padded_right(b, 20) + " "@ + padded_right(c, 12) + " "@ + d
        + "\n"@
}

/// The word for a status in the table.
pub open spec fn status_word(status: SlotStatusSummary) -> Seq<char> {
    match status {
        SlotStatusSummary::Uninitialized => "uninitialized"@,
        SlotStatusSummary::Cloning => "cloning"@,
        SlotStatusSummary::Building => "building"@,
        SlotStatusSummary::Ready => "ready"@,
        SlotStatusSummary::CheckedOut => "checkedout"@,
        SlotStatusSummary::Error => "error"@,
    }
}

pub open spec fn or_dash(s: Option<Seq<char>>) -> Seq<char> {
    match s {
        Some(s) => s,
        None => "-"@,
    }
}

/// The line for a slot. The directory is shown without the home directory.
pub open spec fn slot_row(home: Seq<char>, slot: SlotInfoView) -> Seq<char> {
    row(
        or_dash(slot.checkout_name),
        slot.project,
        status_word(slot.status),
        shown_path(home, slot),
    )
}

/// The lines for all slots.
pub open spec fn slot_rows(home: Seq<char>, slots: Seq<SlotInfoView>) -> Seq<char>
    decreases slots.len(),
{
    if slots.len() == 0 {
        Seq::empty()
    } else {
        slot_rows(home, slots.drop_last()) + slot_row(home, slots.last())
    }
}

/// A line of the table of background slots.
pub open spec fn background_row(
    project: Seq<char>,
    status: Seq<char>,
    refreshed: Seq<char>,
    path: Seq<char>,
    error: Seq<char>,
) -> Seq<char> {
    padded_right(project, 20) + " "@ + padded_right(status, 12) + " "@ + padded_right(
        refreshed,
        35,
    ) + " "@ + padded_right(path, 40) + " "@ + error + "\n"@
}

/// The directory of a slot, without the home directory.
pub open spec fn shown_path(home: Seq<char>, slot: SlotInfoView) -> Seq<char> {
    if home.len() == 0 {
        or_dash(slot.path)
    } else {
        prefix_stripped(or_dash(slot.path), home)
    }
}

/// The line for a background slot: its status, when it was last pulled, and what
/// went wrong with it.
pub open spec fn background_slot_row(home: Seq<char>, slot: SlotInfoView) -> Seq<char> {
    background_row(
        slot.project,
        status_word(slot.status),
        or_dash(slot.last_refreshed),
        shown_path(home, slot),
        or_dash(slot.error_message),
    )
}

/// The lines for all background slots.
pub open spec fn background_rows(home: Seq<char>, slots: Seq<SlotInfoView>) -> Seq<char>
    decreases slots.len(),
{
    if slots.len() == 0 {
        Seq::empty()
    } else {
        background_rows(home, slots.drop_last()) + background_slot_row(home, slots.last())
    }
}

/// What `aid list` prints of a response to that filter. Background slots come
/// with the time of their last refresh and their error.
pub open spec fn list_report(
    home: Seq<char>,
    filter: ListFilter,
    response: ResponseView,
) -> std::result::Result<Seq<char>, CliErrorView> {
    match response {
        ResponseView::List(slots) => if slots.len() == 0 {
            Ok("No slots found.\n"@)
        } else if filter is Background {
            Ok(
                background_row("PROJECT"@, "STATUS"@, "REFRESHED"@, "PATH"@, "ERROR"@)
                    + background_rows(home, slots),
            )
        } else {
            Ok(row("CHECKOUT"@, "PROJECT"@, "STATUS"@, "PATH"@) + slot_rows(home, slots))
        },
        other => Err(refused(other)),
    }
}

fn push_row(m: &mut String, a: &str, b: &str, c: &str, d: &str)
    ensures
        final(m)@ == old(m)@ + row(a@, b@, c@, d@),
{
    m.append(pad_right(a, 20).as_str());
    m.append(" ");
    m.append(pad_right(b, 20).as_str());
    m.append(" ");
    m.append(pad_right(c, 12).as_str());
    m.append(" ");
    m.append(d);
    m.append("\n");
    assert(m@ =~= old(m)@ + row(a@, b@, c@, d@));
}

fn lower_status(status: SlotStatusSummary) -> (r: &'static str)
    ensures
        r@ == status_word(status),
{
    match status {
        SlotStatusSummary::Uninitialized => "uninitialized",
        SlotStatusSummary::Cloning => "cloning",
        SlotStatusSummary::Building => "building",
        SlotStatusSummary::Ready => "ready",
        SlotStatusSummary::CheckedOut => "checkedout",
        SlotStatusSummary::Error => "error",
    }
}

fn str_or_dash(s: &Option<String>) -> (r: &str)
    ensures
        r@ == or_dash(opt_view(*s)),
{
    match s {
        Some(s) => s.as_str(),
        None => "-",
    }
}

fn show_path<'a>(home: &str, slot: &'a SlotInfo) -> (r: &'a str)
    ensures
        r@ == shown_path(home@, slot@),
{
    let path_raw = str_or_dash(&slot.path);
    if home.is_empty() {
        path_raw
    } else {
        strip_prefix_or_self(path_raw, home)
    }
}

fn list_table(list: &SlotList, home: &str) -> (r: String)
    ensures
        r@ == row("CHECKOUT"@, "PROJECT"@, "STATUS"@, "PATH"@) + slot_rows(home@, list@),
{
    let mut m = String::new();
    push_row(&mut m, "CHECKOUT", "PROJECT", "STATUS", "PATH");
    let ghost header = m@;
    assert(header =~= row("CHECKOUT"@, "PROJECT"@, "STATUS"@, "PATH"@));
    let mut i: usize = 0;
    assert(list@.take(0) =~= Seq::<SlotInfoView>::empty());
    assert(m@ =~= header + slot_rows(home@, list@.take(0)));
    while i < list.slots.len()
        invariant
            i <= list.slots.len(),
            m@ == header + slot_rows(home@, list@.take(i as int)),
        decreases list.slots.len() - i,
    {
        let slot = &list.slots[i];
        push_row(
            &mut m,
            str_or_dash(&slot.checkout_name),
            slot.project.as_str(),
            lower_status(slot.status),
            show_path(home, slot),
        );
        proof {
            let so_far = list@.take(i + 1);
            assert(so_far.drop_last() =~= list@.take(i as int));
            assert(so_far.last() == slot@);
            assert(m@ =~= header + slot_rows(home@, so_far));
        }
        i = i + 1;
    }
    assert(list@.take(i as int) =~= list@);
    m
}

fn push_background_row(
    m: &mut String,
    project: &str,
    status: &str,
    refreshed: &str,
    path: &str,
    error: &str,
)
    ensures
        final(m)@ == old(m)@ + background_row(project@, status@, refreshed@, path@, error@),
{
    m.append(pad_right(project, 20).as_str());
    m.append(" ");
    m.append(pad_right(status, 12).as_str());
    m.append(" ");
    m.append(pad_right(refreshed, 35).as_str());
    m.append(" ");
    m.append(pad_right(path, 40).as_str());
    m.append(" ");
    m.append(error);
    m.append("\n");
    assert(m@ =~= old(m)@ + background_row(project@, status@, refreshed@, path@, error@));
}

fn background_table(list: &SlotList, home: &str) -> (r: String)
    ensures
        r@ == background_row("PROJECT"@, "STATUS"@, "REFRESHED"@, "PATH"@, "ERROR"@)
            + background_rows(home@, list@),
{
    let mut m = String::new();
    push_background_row(&mut m, "PROJECT", "STATUS", "REFRESHED", "PATH", "ERROR");
    let ghost header = m@;
    assert(header =~= background_row("PROJECT"@, "STATUS"@, "REFRESHED"@, "PATH"@, "ERROR"@));
    let mut i: usize = 0;
    assert(list@.take(0) =~= Seq::<SlotInfoView>::empty());
    assert(m@ =~= header + background_rows(home@, list@.take(0)));
    while i < list.slots.len()
        invariant
            i <= list.slots.len(),
            m@ == header + background_rows(home@, list@.take(i as int)),
        decreases list.slots.len() - i,
    {
        let slot = &list.slots[i];
        push_background_row(
            &mut m,
            slot.project.as_str(),
            lower_status(slot.status),
            str_or_dash(&slot.last_refreshed),
            show_path(home, slot),
            str_or_dash(&slot.error_message),
        );
        proof {
            let so_far = list@.take(i + 1);
            assert(so_far.drop_last() =~= list@.take(i as int));
            assert(so_far.last() == slot@);
            assert(m@ =~= header + background_rows(home@, so_far));
        }
        i = i + 1;
    }
    assert(list@.take(i as int) =~= list@);
    m
}

/// Reports the response to `aid list` with that filter as a table.
pub fn run_list(response: &Response, filter: ListFilter, home: &str) -> (r: Printed)
    ensures
        prints(r, list_report(home@, filter, response@)),
{
    match response {
        Response::List(list) => {
            if list.slots.len() == 0 {
                return Ok("No slots found.\n".to_owned());
            }
            match filter {
                ListFilter::Background => Ok(background_table(list, home)),
                _ => Ok(list_table(list, home)),
            }
        },
        other => Err(report_refusal(other)),
    }
}

/// The predicate of the slots that are handed out under a name.
pub open spec fn bears(name: Seq<char>) -> spec_fn(SlotInfoView) -> bool {
    |s: SlotInfoView| s.checkout_name == Some(name)
}

fn find_checkout(list: &SlotList, checkout_name: &String) -> (r: Option<usize>)
    ensures
        match r {
            Some(i) => first_where(list@, bears(checkout_name@)) == Some(i as int) && i
                < list.slots@.len(),
            None => first_where(list@, bears(checkout_name@)) is None,
        },
{
    let mut i: usize = 0;
    while i < list.slots.len()
        invariant
            i <= list.slots.len(),
            forall|j: int| 0 <= j < i ==> !bears(checkout_name@)(#[trigger] list@[j]),
        decreases list.slots.len() - i,
    {
        assert(list@[i as int] == list.slots@[i as int]@);
        if let Some(name) = &list.slots[i].checkout_name {
            if *name == *checkout_name {
                proof {
                    lemma_first_where_is(list@, bears(checkout_name@), i as int);
                }
                return Some(i);
            }
        }
        i = i + 1;
    }
    proof {
        lemma_first_where_none(list@, bears(checkout_name@));
    }
    None
}

/// What is printed where no checkout has the name.
pub open spec fn no_checkout(name: Seq<char>) -> CliErrorView {
    CliErrorView::Exit("no active checkout named '"@ + name + "'\n"@)
}

fn report_no_checkout(name: &String) -> (r: CliError)
    ensures
        r@ == no_checkout(name@),
{
    CliError::Exit("no active checkout named '".to_owned().concat(name.as_str()).concat("'\n"))
}

/// What `aid cd` prints of a response: the directory of the first slot with the
/// name.
pub open spec fn cd_report(response: ResponseView, name: Seq<char>) -> std::result::Result<
    Seq<char>,
    CliErrorView,
> {
    match response {
        ResponseView::List(slots) => match first_where(slots, bears(name)) {
            Some(i) => match slots[i].path {
                Some(path) => Ok(path + "\n"@),
                None => Err(
                    CliErrorView::Failed(
                        "server returned no path for checkout '"@ + name + "'"@,
                    ),
                ),
            },
            None => Err(no_checkout(name)),
        },
        other => Err(refused(other)),
    }
}

/// Look up the path for `checkout_name` and print it to stdout.
/// The shell wrapper installed by `aid init` will `cd` to this path.
pub fn run_cd(response: &Response, checkout_name: &String) -> (r: Printed)
    ensures
        prints(r, cd_report(response@, checkout_name@)),
{
    match response {
        Response::List(list) => match find_checkout(list, checkout_name) {
            Some(i) => {
                assert(list@[i as int] == list.slots@[i as int]@);
                match &list.slots[i].path {
                    Some(path) => Ok(path.clone().concat("\n")),
                    None => Err(
                        CliError::Failed(
                            "server returned no path for checkout '".to_owned().concat(
                                checkout_name.as_str(),
                            ).concat("'"),
                        ),
                    ),
                }
            },
            None => Err(report_no_checkout(checkout_name)),
        },
        other => Err(report_refusal(other)),
    }
}

/// What a shell completes: the names of projects, or those of checkouts.
#[derive(Debug, Clone, Copy, PartialEq, Eq, Structural)]
pub enum Completion {
    Add,
    Cd,
}

/// What `aid completions` is to complete.
pub open spec fn completion(subcmd: Seq<char>) -> std::result::Result<Completion, CliErrorView> {
    if subcmd == "add"@ {
        Ok(Completion::Add)
    } else if subcmd == "cd"@ {
        Ok(Completion::Cd)
    } else {
        Err(
            CliErrorView::Failed(
                "unknown completions target '"@ + subcmd + "'; supported: add, cd"@,
            ),
        )
    }
}

/// Reads what `aid completions` is to complete.
pub fn parse_completion(subcmd: &str) -> (r: std::result::Result<Completion, CliError>)
    ensures
        match completion(subcmd@) {
            Ok(target) => r == Ok::<Completion, CliError>(target),
            Err(e) => r matches Err(got) && got@ == e,
        },
{
    if same_text(subcmd, "add") {
        Ok(Completion::Add)
    } else if same_text(subcmd, "cd") {
        Ok(Completion::Cd)
    } else {
        Err(
            CliError::Failed(
                "unknown completions target '".to_owned().concat(subcmd).concat(
                    "'; supported: add, cd",
                ),
            ),
        )
    }
}

/// Which slots are to be listed for a completion.
pub fn completion_filter(target: Completion) -> (r: ListFilter)
    ensures
        r == (match target {
            Completion::Add => ListFilter::All,
            Completion::Cd => ListFilter::Active,
        }),
{
    match target {
        Completion::Add => ListFilter::All,
        Completion::Cd => ListFilter::Active,
    }
}

/// Whether a slot before position `i` belongs to the same project as the one there.
pub open spec fn project_seen(slots: Seq<SlotInfoView>, i: int) -> bool {
    exists|j: int| 0 <= j < i && (#[trigger] slots[j]).project == slots[i].project
}

/// The names of the projects of the slots, each once and on a line of its own.
pub open spec fn project_lines(slots: Seq<SlotInfoView>, n: int) -> Seq<char>
    decreases n,
{
    if n <= 0 {
        Seq::empty()
    } else if project_seen(slots, n - 1) {
        project_lines(slots, n - 1)
    } else {
        project_lines(slots, n - 1) + slots[n - 1].project + "\n"@
    }
}

/// The names of the checkouts, each on a line of its own.
pub open spec fn checkout_lines(slots: Seq<SlotInfoView>, n: int) -> Seq<char>
    decreases n,
{
    if n <= 0 {
        Seq::empty()
    } else {
        match slots[n - 1].checkout_name {
            Some(name) => checkout_lines(slots, n - 1) + name + "\n"@,
            None => checkout_lines(slots, n - 1),
        }
    }
}

/// What `aid completions` prints of a response.
pub open spec fn completions_report(
    response: ResponseView,
    target: Completion,
) -> std::result::Result<Seq<char>, CliErrorView> {
    match response {
        ResponseView::List(slots) => match target {
            Completion::Add => Ok(project_lines(slots, slots.len() as int)),
            Completion::Cd => Ok(checkout_lines(slots, slots.len() as int)),
        },
        ResponseView::Error { message } => Err(refused(response)),
        other => Err(
            CliErrorView::Exit("unexpected response: "@ + response_text(other) + "\n"@),
        ),
    }
}

fn is_project_seen(list: &SlotList, i: usize) -> (r: bool)
    requires
        i < list.slots@.len(),
    ensures
        r == project_seen(list@, i as int),
{
    let mut j: usize = 0;
    assert(list@[i as int] == list.slots@[i as int]@);
    while j < i
        invariant
            j <= i < list.slots@.len(),
            list@[i as int] == list.slots@[i as int]@,
            forall|m: int| 0 <= m < j ==> (#[trigger] list@[m]).project != list@[i as int].project,
        decreases i - j,
    {
        assert(list@[j as int] == list.slots@[j as int]@);
        if list.slots[j].project == list.slots[i].project {
            return true;
        }
        j = j + 1;
    }
    false
}

/// Print one project name per line for `aid add` completions.
/// Print one active checkout name per line for `aid cd` completions.
pub fn run_completions(response: &Response, target: Completion) -> (r: Printed)
    ensures
        prints(r, completions_report(response@, target)),
{
    match response {
        Response::List(list) => {
            let mut m = String::new();
            let mut i: usize = 0;
            match target {
                Completion::Add => {
                    while i < list.slots.len()
                        invariant
                            i <= list.slots.len(),
                            m@ == project_lines(list@, i as int),
                        decreases list.slots.len() - i,
                    {
                        assert(list@[i as int] == list.slots@[i as int]@);
                        if !is_project_seen(list, i) {
                            m.append(list.slots[i].project.as_str());
                            m.append("\n");
                        }
                        i = i + 1;
                    }
                },
                Completion::Cd => {
                    while i < list.slots.len()
                        invariant
                            i <= list.slots.len(),
                            m@ == checkout_lines(list@, i as int),
                        decreases list.slots.len() - i,
                    {
                        assert(list@[i as int] == list.slots@[i as int]@);
                        if let Some(name) = &list.slots[i].checkout_name {
                            m.append(name.as_str());
                            m.append("\n");
                        }
                        i = i + 1;
                    }
                },
            }
            Ok(m)
        },
        Response::Error { message } => Err(report_refusal(response)),
        other => Err(
            CliError::Exit(
                "unexpected response: ".to_owned().concat(
                    describe_response(other).as_str(),
                ).concat("\n"),
            ),
        ),
    }
}

/// The project of the first slot with the name, which `aid rm` looks up first.
pub open spec fn project_report(response: ResponseView, name: Seq<char>) -> std::result::Result<
    Seq<char>,
    CliErrorView,
> {
    match response {
        ResponseView::List(slots) => match first_where(slots, bears(name)) {
            Some(i) => Ok(slots[i].project),
            None => Err(no_checkout(name)),
        },
        other => Err(refused(other)),
    }
}

/// Finds the project of a checkout in the response to a listing.
pub fn find_project(response: &Response, checkout_name: &String) -> (r: Printed)
    ensures
        prints(r, project_report(response@, checkout_name@)),
{
    match response {
        Response::List(list) => match find_checkout(list, checkout_name) {
            Some(i) => {
                assert(list@[i as int] == list.slots@[i as int]@);
                Ok(list.slots[i].project.clone())
            },
            None => Err(report_no_checkout(checkout_name)),
        },
        other => Err(report_refusal(other)),
    }
}

/// What `aid rm` does next.
#[derive(Debug, Clone, PartialEq, Eq)]
pub enum RemoveStep {
    /// Send the request.
    Send(RequestEnvelope),
    /// End with that error.
    Stop(CliError),
}

/// The first request of `aid rm`: it asks for the active checkouts.
pub fn start_rm() -> (r: RequestEnvelope)
    ensures
        r.version == PROTOCOL_VERSION,
        r.request_id@ == "1"@,
        r.content@ == (RequestView::List { filter: ListFilter::Active }),
{
    list_request(ListFilter::Active)
}

/// The second request of `aid rm`: it names the project that the first response
/// gave.
pub fn continue_rm(response: &Response, checkout_name: &String, force: bool) -> (r: RemoveStep)
    ensures
        match project_report(response@, checkout_name@) {
            Ok(project_name) => r matches RemoveStep::Send(request) && request.version
                == PROTOCOL_VERSION && request.request_id@ == "2"@ && request.content@ == (
            RequestView::Remove { project_name, checkout_name: checkout_name@, force }),
            Err(e) => r matches RemoveStep::Stop(got) && got@ == e,
        },
{
    match find_project(response, checkout_name) {
        Ok(project_name) => RemoveStep::Send(remove_request(&project_name, checkout_name, force)),
        Err(e) => RemoveStep::Stop(e),
    }
}

/// What `aid rm` prints of the response to its second request.
pub open spec fn rm_report(response: ResponseView, name: Seq<char>) -> std::result::Result<
    Seq<char>,
    CliErrorView,
> {
    match response {
        ResponseView::Okay => Ok("returned '"@ + name + "'\n"@),
        other => Err(refused(other)),
    }
}

/// Reports the response to the second request of `aid rm`.
pub fn run_rm(response: &Response, checkout_name: &String) -> (r: Printed)
    ensures
        prints(r, rm_report(response@, checkout_name@)),
{
    match response {
        Response::Okay => Ok("returned '".to_owned().concat(checkout_name.as_str()).concat("'\n")),
        other => Err(report_refusal(other)),
    }
}

} // verus!
