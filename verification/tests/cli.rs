//! Arguments, requests and printed lines.
use aid::api::{ListFilter, Request, Response, SlotInfo, SlotList, SlotStatusSummary};
use aid::cleanup::Removal;
use aid::cli::{
    add_request, clean_request, completion_filter, continue_rm, describe_response, envelope, find_project,
    list_request, parse_args, parse_completion, parse_list_filter, report_refusal, resolve_paths,
    run_add, run_cd, run_clean, run_completions, run_init, run_list, run_rm, start_rm, CliError, Completion,
    Invocation, RemoveStep, BASH_SNIPPET, USAGE, ZSH_SNIPPET,
};

fn args(list: &[&str]) -> Vec<String> {
    list.iter().map(|s| s.to_string()).collect()
}

fn failed(message: &str) -> CliError {
    CliError::Failed(message.to_string())
}

fn exit(message: &str) -> CliError {
    CliError::Exit(message.to_string())
}

fn info(project: &str, name: Option<&str>, path: Option<&str>) -> SlotInfo {
    SlotInfo {
        project: project.to_string(),
        checkout_name: name.map(|s| s.to_string()),
        status: if name.is_some() {
            SlotStatusSummary::CheckedOut
        } else {
            SlotStatusSummary::Ready
        },
        last_refreshed: None,
        error_message: None,
        path: path.map(|s| s.to_string()),
    }
}

fn list(slots: Vec<SlotInfo>) -> Response {
    Response::List(SlotList { slots })
}

#[test]
fn arguments_say_what_to_do() {
    let parse = |list: &[&str]| parse_args(&args(list));
    assert_eq!(parse(&["server"]), Ok(Invocation::Server));
    assert_eq!(
        parse(&["add", "p", "c"]),
        Ok(Invocation::Add { project_name: "p".to_string(), checkout_name: "c".to_string() })
    );
    assert_eq!(parse(&["list"]), Ok(Invocation::List { filter: ListFilter::All }));
    assert_eq!(
        parse(&["list", "--active"]),
        Ok(Invocation::List { filter: ListFilter::Active })
    );
    assert_eq!(parse(&["cleanup"]), Ok(Invocation::Cleanup));
    assert_eq!(parse(&["purge"]), Ok(Invocation::Purge));
    assert_eq!(
        parse(&["list", "--background"]),
        Ok(Invocation::List { filter: ListFilter::Background })
    );
    assert_eq!(parse(&["cd", "c"]), Ok(Invocation::Cd { checkout_name: "c".to_string() }));
    assert_eq!(parse(&["init", "zsh"]), Ok(Invocation::Init { shell: "zsh".to_string() }));
    assert_eq!(
        parse(&["rm", "c"]),
        Ok(Invocation::Rm { checkout_name: "c".to_string(), force: false })
    );
    assert_eq!(
        parse(&["rm", "--force", "c"]),
        Ok(Invocation::Rm { checkout_name: "c".to_string(), force: true })
    );
    assert_eq!(
        parse(&["completions", "cd"]),
        Ok(Invocation::Completions { subcmd: "cd".to_string() })
    );
}

#[test]
fn missing_arguments_are_errors() {
    let parse = |list: &[&str]| parse_args(&args(list)).expect_err("an error");
    assert_eq!(parse(&["add"]), failed("Usage: aid add <project_name> <checkout_name>"));
    assert_eq!(parse(&["add", "p"]), failed("Usage: aid add <project_name> <checkout_name>"));
    assert_eq!(parse(&["cd"]), failed("Usage: aid cd <checkout_name>"));
    assert_eq!(parse(&["init"]), failed("Usage: aid init <bash|zsh>"));
    assert_eq!(parse(&["rm"]), failed("Usage: aid rm [--force] <checkout_name>"));
    assert_eq!(parse(&["rm", "--force"]), failed("Usage: aid rm [--force] <checkout_name>"));
    assert_eq!(parse(&["completions"]), failed("Usage: aid completions <add|cd>"));
    assert_eq!(parse(&["list", "--all"]), failed("unknown flag for list: --all"));
    assert_eq!(parse(&[]), exit(&format!("{USAGE}\n")));
    assert_eq!(parse(&["fly"]), exit(&format!("unknown command: fly\n{USAGE}\n")));
}

#[test]
fn the_last_list_flag_counts() {
    assert_eq!(parse_list_filter(&args(&[])), Ok(ListFilter::All));
    assert_eq!(parse_list_filter(&args(&["--background"])), Ok(ListFilter::Background));
    assert_eq!(parse_list_filter(&args(&["--backgorund"])), Ok(ListFilter::Background));
    assert_eq!(parse_list_filter(&args(&["--background", "--free"])), Ok(ListFilter::Free));
    assert_eq!(parse_list_filter(&args(&["--active", "--free"])), Ok(ListFilter::Free));
    assert_eq!(parse_list_filter(&args(&["--free", "--active"])), Ok(ListFilter::Active));
    assert_eq!(
        parse_list_filter(&args(&["--free", "-x", "-y"])),
        Err(failed("unknown flag for list: -x"))
    );
}

#[test]
fn paths_come_from_the_environment() {
    let paths = resolve_paths(Some("/home/u"), None, None).expect("paths");
    assert_eq!(paths.config_file, "/home/u/.config/aid/config.toml");
    assert_eq!(paths.data_dir, "/home/u/.local/state/aid");
    assert_eq!(paths.socket_file, "/home/u/.local/state/aid/server.sock");
    let paths = resolve_paths(Some("/home/u"), Some("/c"), Some("/s")).expect("paths");
    assert_eq!(paths.config_file, "/c/aid/config.toml");
    assert_eq!(paths.repos_dir, "/s/aid/repos");
    assert_eq!(paths.state_file, "/s/aid/state.json");
    assert_eq!(paths.lock_file, "/s/aid/server.lock");
    assert_eq!(
        resolve_paths(None, Some("/c"), Some("/s")).expect_err("an error"),
        failed("HOME environment variable is not set")
    );
}

#[test]
fn requests_are_numbered() {
    let add = add_request(&"p".to_string(), &"c".to_string());
    assert_eq!(add.version, 1);
    assert_eq!(add.request_id, "1");
    assert_eq!(
        add.content,
        Request::Add { project_name: "p".to_string(), checkout_name: "c".to_string() }
    );
    assert_eq!(start_rm(), list_request(ListFilter::Active));
    assert_eq!(
        envelope("9", Request::List { filter: ListFilter::Free }).content,
        Request::List { filter: ListFilter::Free }
    );
}

#[test]
fn an_added_checkout_is_reported() {
    let added = Response::Added { checkout_name: "c".to_string(), path: "/r/p/0".to_string() };
    assert_eq!(run_add(&added), Ok("checked out 'c' at /r/p/0\n".to_string()));
    assert_eq!(
        run_add(&Response::Error { message: "no".to_string() }),
        Err(exit("error: no\n"))
    );
    assert_eq!(
        run_add(&Response::VersionMismatch { expected: 2, got: 1 }),
        Err(exit("protocol version mismatch: server expects 2, client sent 1\n"))
    );
    assert_eq!(run_add(&Response::Okay), Err(exit("unexpected response: Ok\n")));
}

#[test]
fn slots_are_listed_in_columns() {
    assert_eq!(run_list(&list(vec![]), ListFilter::All, "/home/u"), Ok("No slots found.\n".to_string()));
    let slots = vec![
        info("alpha", Some("mine"), Some("/home/u/r/alpha/0")),
        info("a-project-with-a-very-long-name", None, None),
    ];
    let want = [
        "CHECKOUT             PROJECT              STATUS       PATH\n",
        "mine                 alpha                checkedout   /r/alpha/0\n",
        "-                    a-project-with-a-very-long-name ready        -\n",
    ];
    assert_eq!(run_list(&list(slots.clone()), ListFilter::All, "/home/u"), Ok(want.concat()));
    let shown = run_list(&list(slots), ListFilter::Active, "").expect("a table");
    assert!(shown.contains("/home/u/r/alpha/0"));
    assert_eq!(
        run_list(&Response::Error { message: "no".to_string() }, ListFilter::Free, ""),
        Err(exit("error: no\n"))
    );
}

#[test]
fn cd_prints_the_directory() {
    let slots = vec![info("p", None, Some("/x")), info("q", Some("c"), Some("/y"))];
    assert_eq!(run_cd(&list(slots.clone()), &"c".to_string()), Ok("/y\n".to_string()));
    assert_eq!(
        run_cd(&list(slots), &"d".to_string()),
        Err(exit("no active checkout named 'd'\n"))
    );
    assert_eq!(
        run_cd(&list(vec![info("p", Some("c"), None)]), &"c".to_string()),
        Err(failed("server returned no path for checkout 'c'"))
    );
    assert_eq!(
        run_cd(&Response::Okay, &"c".to_string()),
        Err(exit("unexpected response: Ok\n"))
    );
}

#[test]
fn completions_name_projects_once_and_checkouts_all() {
    assert_eq!(parse_completion("add"), Ok(Completion::Add));
    assert_eq!(parse_completion("cd"), Ok(Completion::Cd));
    assert_eq!(
        parse_completion("rm"),
        Err(failed("unknown completions target 'rm'; supported: add, cd"))
    );
    assert_eq!(completion_filter(Completion::Add), ListFilter::All);
    assert_eq!(completion_filter(Completion::Cd), ListFilter::Active);
    let slots = list(vec![
        info("p", Some("a"), None),
        info("q", None, None),
        info("p", Some("b"), None),
    ]);
    assert_eq!(run_completions(&slots, Completion::Add), Ok("p\nq\n".to_string()));
    assert_eq!(run_completions(&slots, Completion::Cd), Ok("a\nb\n".to_string()));
    assert_eq!(
        run_completions(&Response::Error { message: "no".to_string() }, Completion::Cd),
        Err(exit("error: no\n"))
    );
    assert_eq!(
        run_completions(&Response::VersionMismatch { expected: 2, got: 1 }, Completion::Cd),
        Err(exit("unexpected response: VersionMismatch { expected: 2, got: 1 }\n"))
    );
}

#[test]
fn rm_looks_the_project_up_first() {
    let slots = list(vec![info("q", Some("c"), None)]);
    assert_eq!(find_project(&slots, &"c".to_string()), Ok("q".to_string()));
    match continue_rm(&slots, &"c".to_string(), true) {
        RemoveStep::Send(request) => {
            assert_eq!(request.request_id, "2");
            assert_eq!(
                request.content,
                Request::Remove {
                    project_name: "q".to_string(),
                    checkout_name: "c".to_string(),
                    force: true,
                }
            );
        }
        RemoveStep::Stop(e) => panic!("expected a request, got {e:?}"),
    }
    assert_eq!(
        continue_rm(&list(vec![]), &"c".to_string(), false),
        RemoveStep::Stop(exit("no active checkout named 'c'\n"))
    );
    assert_eq!(run_rm(&Response::Okay, &"c".to_string()), Ok("returned 'c'\n".to_string()));
    assert_eq!(
        run_rm(&Response::Error { message: "dirty".to_string() }, &"c".to_string()),
        Err(exit("error: dirty\n"))
    );
}

#[test]
fn responses_are_written_out() {
    let slot = SlotInfo {
        project: "p".to_string(),
        checkout_name: Some("c\"d".to_string()),
        status: SlotStatusSummary::CheckedOut,
        last_refreshed: None,
        error_message: Some("tab\there".to_string()),
        path: None,
    };
    assert_eq!(
        describe_response(&list(vec![slot, info("q", None, None)])),
        "List(SlotList { slots: [SlotInfo { project: \"p\", checkout_name: Some(\"c\\\"d\"), \
         status: CheckedOut, last_refreshed: None, error_message: Some(\"tab\\there\"), \
         path: None }, SlotInfo { project: \"q\", checkout_name: None, status: Ready, \
         last_refreshed: None, error_message: None, path: None }] })"
    );
    assert_eq!(describe_response(&list(vec![])), "List(SlotList { slots: [] })");
    assert_eq!(
        describe_response(&Response::Error { message: "x".to_string() }),
        "Error { message: \"x\" }"
    );
    assert_eq!(
        report_refusal(&Response::Added {
            checkout_name: "c".to_string(),
            path: "/p".to_string()
        }),
        exit("unexpected response: Added { checkout_name: \"c\", path: \"/p\" }\n")
    );
}

/// The notation is the one that `{:?}` gives, but for the name of the plain success.
#[test]
fn responses_are_written_as_they_are_debugged() {
    let response = list(vec![
        info("p", Some("c"), Some("/x y")),
        info("q'", None, Some("\u{1F600}\n")),
    ]);
    assert_eq!(describe_response(&response), format!("{response:?}"));
    let response = Response::VersionMismatch { expected: 10, got: 0 };
    assert_eq!(describe_response(&response), format!("{response:?}"));
    let response = Response::Added { checkout_name: "\\".to_string(), path: "".to_string() };
    assert_eq!(describe_response(&response), format!("{response:?}"));
}

#[test]
fn shells_get_their_snippet() {
    assert_eq!(run_init("bash"), Ok(format!("{BASH_SNIPPET}\n")));
    assert_eq!(run_init("zsh"), Ok(format!("{ZSH_SNIPPET}\n")));
    assert_eq!(
        run_init("fish"),
        Err(failed("unsupported shell 'fish'; supported: bash, zsh"))
    );
    assert!(BASH_SNIPPET.starts_with("aid() {\n  if [ \"$1\" = \"cd\" ]; then\n"));
    assert!(BASH_SNIPPET.ends_with("complete -F _aid_completions aid"));
    assert!(BASH_SNIPPET.contains("cur=\"${COMP_WORDS[COMP_CWORD]}\""));
    assert!(ZSH_SNIPPET.ends_with("compdef _aid_completions aid"));
}

#[test]
fn background_slots_are_listed_with_their_last_refresh_and_error() {
    let mut ready = info("alpha", None, Some("/home/u/r/alpha/0"));
    ready.last_refreshed = Some("2023-11-14T22:13:20+00:00".to_string());
    let mut broken = info("beta", None, Some("/r/beta/1"));
    broken.status = SlotStatusSummary::Error;
    broken.error_message = Some("no rule".to_string());
    let pad = |s: &str, n: usize| format!("{s:<n$} ");
    let line = |a: &str, b: &str, c: &str, d: &str, e: &str| {
        [pad(a, 20), pad(b, 12), pad(c, 35), pad(d, 40), format!("{e}\n")].concat()
    };
    let want = [
        line("PROJECT", "STATUS", "REFRESHED", "PATH", "ERROR"),
        line("alpha", "ready", "2023-11-14T22:13:20+00:00", "/r/alpha/0", "-"),
        line("beta", "error", "-", "/r/beta/1", "no rule"),
    ];
    let response = list(vec![ready, broken]);
    assert_eq!(run_list(&response, ListFilter::Background, "/home/u"), Ok(want.concat()));
    assert_eq!(
        run_list(&list(vec![]), ListFilter::Background, ""),
        Ok("No slots found.\n".to_string())
    );
}

#[test]
fn removed_directories_are_reported() {
    assert_eq!(clean_request(Removal::Extra).content, Request::Cleanup);
    assert_eq!(clean_request(Removal::All).content, Request::Purge);
    assert_eq!(clean_request(Removal::All).request_id, "1");
    let cleaned = Response::Cleaned { paths: args(&["/r/p/0", "/r/q/1"]) };
    assert_eq!(run_clean(&cleaned), Ok("removed /r/p/0\nremoved /r/q/1\n".to_string()));
    assert_eq!(describe_response(&cleaned), format!("{cleaned:?}"));
    let nothing = Response::Cleaned { paths: vec![] };
    assert_eq!(run_clean(&nothing), Ok("Nothing to remove.\n".to_string()));
    assert_eq!(describe_response(&nothing), format!("{nothing:?}"));
    assert_eq!(run_clean(&Response::Okay), Err(exit("unexpected response: Ok\n")));
}
