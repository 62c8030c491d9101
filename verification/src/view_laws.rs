//! That contracts speak of values as they are: a view shows everything of a value, and
//! nothing else.
use crate::api::{
    Request, RequestView, Response, ResponseView, SlotInfo, SlotInfoView, SlotList,
};
use crate::cli::{prints, CliError, CliErrorView, Invocation, InvocationView, Printed};
use crate::command::{opt_command_view, CommandSpec, CommandView};
use crate::config::reports;
use crate::error::{ErrorView, ServerError};
use crate::handler::commands;
use crate::poll_loop::{byte_views, ChildExit};
use crate::pool::{PoolAction, PoolActionView, RefreshAction, RefreshActionView};
use crate::requests::{TreeCheck, TreeView};
use crate::socket::ProjectSummary;
use crate::state::{slot_views, ProjectState, ServerState, Slot, SlotStatus, SlotView, StatusView};
use crate::text::{opt_view, views};
use vstd::prelude::*;

verus! {

/// Texts and lists of texts are shown as they are.
pub proof fn texts_are_shown(texts: Seq<String>, text: Option<String>, bytes: Seq<Vec<u8>>)
    ensures
        views(texts).len() == texts.len(),
        forall|i: int| 0 <= i < texts.len() ==> #[trigger] views(texts)[i] == texts[i]@,
        text is None ==> opt_view(text) is None,
        text matches Some(t) ==> opt_view(text) == Some(t@),
        byte_views(bytes).len() == bytes.len(),
        forall|i: int| 0 <= i < bytes.len() ==> #[trigger] byte_views(bytes)[i] == bytes[i]@,
{
}

/// A request is shown with all that it asks for.
pub proof fn requests_are_shown(request: Request)
    ensures
        match request {
            Request::Add { project_name, checkout_name } => request@ == (RequestView::Add {
                project_name: project_name@,
                checkout_name: checkout_name@,
            }),
            Request::List { filter } => request@ == (RequestView::List { filter }),
            Request::Remove { project_name, checkout_name, force } => request@ == (
            RequestView::Remove {
                project_name: project_name@,
                checkout_name: checkout_name@,
                force,
            }),
            Request::Cleanup => request@ == RequestView::Cleanup,
            Request::Purge => request@ == RequestView::Purge,
        },
{
}

/// A response is shown with all that it tells.
pub proof fn responses_are_shown(response: Response)
    ensures
        match response {
            Response::Okay => response@ == ResponseView::Okay,
            Response::Added { checkout_name, path } => response@ == (ResponseView::Added {
                checkout_name: checkout_name@,
                path: path@,
            }),
            Response::List(list) => response@ == ResponseView::List(list@),
            Response::Cleaned { paths } => response@ == (ResponseView::Cleaned {
                paths: views(paths@),
            }),
            Response::Error { message } => response@ == (ResponseView::Error { message: message@ }),
            Response::VersionMismatch { expected, got } => response@ == (
            ResponseView::VersionMismatch { expected, got }),
        },
{
}

/// A listing is shown entry by entry, and an entry field by field.
pub proof fn listings_are_shown(list: SlotList, info: SlotInfo)
    ensures
        list@.len() == list.slots@.len(),
        forall|i: int| 0 <= i < list.slots@.len() ==> #[trigger] list@[i] == list.slots@[i]@,
        info@ == (SlotInfoView {
            project: info.project@,
            checkout_name: opt_view(info.checkout_name),
            status: info.status,
            last_refreshed: opt_view(info.last_refreshed),
            error_message: opt_view(info.error_message),
            path: opt_view(info.path),
        }),
{
}

/// A status is shown as it is, with the step or the name that it bears.
pub proof fn statuses_are_shown(status: SlotStatus)
    ensures
        match status {
            SlotStatus::Uninitialized => status@ == StatusView::Uninitialized,
            SlotStatus::Cloning => status@ == StatusView::Cloning,
            SlotStatus::Cloned => status@ == StatusView::Cloned,
            SlotStatus::CloningSubmodules => status@ == StatusView::CloningSubmodules,
            SlotStatus::SubmodulesCloned => status@ == StatusView::SubmodulesCloned,
            SlotStatus::Updating => status@ == StatusView::Updating,
            SlotStatus::UpdatingSubmodules => status@ == StatusView::UpdatingSubmodules,
            SlotStatus::PartiallyUpdated => status@ == StatusView::PartiallyUpdated,
            SlotStatus::WaitingToBuild => status@ == StatusView::WaitingToBuild,
            SlotStatus::Building => status@ == StatusView::Building,
            SlotStatus::Built(k) => status@ == StatusView::Built(k),
            SlotStatus::Ready => status@ == StatusView::Ready,
            SlotStatus::CheckedOut(name) => status@ == StatusView::CheckedOut(name@),
            SlotStatus::Error => status@ == StatusView::Error,
        },
{
}

/// The state is shown project by project, a pool slot by slot, and a slot field by
/// field.
pub proof fn states_are_shown(state: ServerState, pool: ProjectState, slot: Slot, some: Seq<&Slot>)
    ensures
        state@.last_updated == state.last_updated,
        state@.pending_action == state.pending_action,
        state@.projects.len() == state.projects@.len(),
        forall|k: int|
            0 <= k < state.projects@.len() ==> #[trigger] state@.projects[k] == (
                state.projects@[k].0@,
                state.projects@[k].1@,
            ),
        pool@.len() == pool.slots@.len(),
        forall|j: int| 0 <= j < pool.slots@.len() ==> #[trigger] pool@[j] == pool.slots@[j]@,
        slot@ == (SlotView {
            id: slot.id,
            status: slot.status@,
            last_refreshed: slot.last_refreshed,
            error_message: opt_view(slot.error_message),
        }),
        slot_views(some).len() == some.len(),
        forall|j: int| 0 <= j < some.len() ==> #[trigger] slot_views(some)[j] == some[j]@,
{
}

/// A command is shown with its program, its arguments and its directory; what it ended
/// with, with all that it wrote.
pub proof fn commands_are_shown(command: CommandSpec, exit: ChildExit)
    ensures
        command@ == (CommandView {
            program: command.program@,
            args: views(command.args@),
            current_dir: opt_view(command.current_dir),
        }),
        opt_command_view(Some(command)) == Some(command@),
        opt_command_view(None) is None,
        exit@.success == exit.success,
        exit@.stdout == exit.stdout@,
        exit@.stderr == exit.stderr@,
{
}

/// What was found in a working tree is shown as it is.
pub proof fn trees_are_shown(tree: TreeCheck)
    ensures
        match tree {
            TreeCheck::Clean => tree@ == TreeView::Clean,
            TreeCheck::Dirty => tree@ == TreeView::Dirty,
            TreeCheck::Unpushed => tree@ == TreeView::Unpushed,
            TreeCheck::Unknown(reason) => tree@ == TreeView::Unknown(reason@),
        },
{
}

/// An error is shown with its kind and its message.
pub proof fn errors_are_shown(error: ServerError)
    ensures
        match error {
            ServerError::Config(m) => error@ == ErrorView::Config(m@),
            ServerError::Io(m) => error@ == ErrorView::Io(m@),
            ServerError::Json(m) => error@ == ErrorView::Json(m@),
            ServerError::Toml(m) => error@ == ErrorView::Toml(m@),
            ServerError::LockfileHeld { pid, path } => error@ == (ErrorView::LockfileHeld {
                pid,
                path: path@,
            }),
            ServerError::Pool(m) => error@ == ErrorView::Pool(m@),
            ServerError::Git(m) => error@ == ErrorView::Git(m@),
            ServerError::Build(m) => error@ == ErrorView::Build(m@),
        },
{
}

/// What the user asked for is shown with all that it says, and so is an error.
pub proof fn invocations_are_shown(asked: Invocation, error: CliError)
    ensures
        match asked {
            Invocation::Server => asked@ == InvocationView::Server,
            Invocation::Add { project_name, checkout_name } => asked@ == (InvocationView::Add {
                project_name: project_name@,
                checkout_name: checkout_name@,
            }),
            Invocation::List { filter } => asked@ == (InvocationView::List { filter }),
            Invocation::Cd { checkout_name } => asked@ == (InvocationView::Cd {
                checkout_name: checkout_name@,
            }),
            Invocation::Init { shell } => asked@ == (InvocationView::Init { shell: shell@ }),
            Invocation::Rm { checkout_name, force } => asked@ == (InvocationView::Rm {
                checkout_name: checkout_name@,
                force,
            }),
            Invocation::Cleanup => asked@ == InvocationView::Cleanup,
            Invocation::Purge => asked@ == InvocationView::Purge,
            Invocation::Completions { subcmd } => asked@ == (InvocationView::Completions {
                subcmd: subcmd@,
            }),
        },
        error matches CliError::Failed(m) ==> error@ == CliErrorView::Failed(m@),
        error matches CliError::Exit(m) ==> error@ == CliErrorView::Exit(m@),
{
}

/// What to do next for a pool, or for a slot that is refreshed, is shown as it is.
pub proof fn next_moves_are_shown(filling: PoolAction, refreshing: RefreshAction)
    ensures
        match filling {
            PoolAction::Save => filling@ == PoolActionView::Save,
            PoolAction::Run(c) => filling@ == PoolActionView::Run(c@),
            PoolAction::Done => filling@ == PoolActionView::Done,
        },
        match refreshing {
            RefreshAction::Run(c) => refreshing@ == RefreshActionView::Run(c@),
            RefreshAction::Stop(Ok(_)) => refreshing@ == RefreshActionView::Stop(None),
            RefreshAction::Stop(Err(e)) => refreshing@ == RefreshActionView::Stop(Some(e@)),
        },
{
}

/// What is told of a project is shown field by field, with its slots where they are
/// told.
pub proof fn summaries_are_shown(told: ProjectSummary)
    ensures
        told@.name == told.name@,
        told@.repo_url == told.repo_url@,
        told@.branch == told.branch@,
        told.slots is None ==> told@.slots is None,
        told.slots matches Some(slots) ==> (told@.slots matches Some(shown) && shown.len()
            == slots@.len() && forall|j: int|
            0 <= j < slots@.len() ==> #[trigger] shown[j] == slots@[j]@),
{
}

/// A result meets its model exactly where both are successes, or errors, of the same
/// content.
pub proof fn results_meet_their_models(
    ended: std::result::Result<(), ServerError>,
    fault: Option<ErrorView>,
    made: std::result::Result<CommandSpec, ServerError>,
    command: std::result::Result<CommandView, ErrorView>,
    printed: Printed,
    text: std::result::Result<Seq<char>, CliErrorView>,
)
    ensures
        reports(ended, fault) <==> match ended {
            Ok(_) => fault is None,
            Err(e) => fault == Some(e@),
        },
        commands(made, command) <==> match made {
            Ok(c) => command == Ok::<CommandView, ErrorView>(c@),
            Err(e) => command == Err::<CommandView, ErrorView>(e@),
        },
        prints(printed, text) <==> match printed {
            Ok(t) => text == Ok::<Seq<char>, CliErrorView>(t@),
            Err(e) => text == Err::<Seq<char>, CliErrorView>(e@),
        },
{
}

} // verus!
