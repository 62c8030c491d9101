//! Handing out and taking back: which slot, under which name, and after which look.
use crate::api::{ListFilter, RequestView, ResponseView, PROTOCOL_VERSION};
use crate::config::Config;
use crate::handler::clone_path;
use crate::listing_laws::{listings_show_nothing_else, shows, slots_are_listed_where_they_belong};
use crate::poll_loop::ChildExit;
use crate::request_laws::{is_checked_out_at, names_of_checkouts_differ};
use crate::requests::{
    added, answered, changes_command, checkout_position, deciding_tree, envelope_answered, held_as,
    judged_tree, listing, name_in_use, removed, tree_refusal, unpushed_command, TreeView,
};
use crate::seqs::{first_where, lemma_first_where, lemma_first_where_is};
use crate::state::{
    named, names_differ, project_index, ready, slots_of, ProjectsView, SlotView, StateView, StatusView,
};
use crate::text::lossy_text;
use vstd::prelude::*;

verus! {

/// Whether slot `j` of the slots is ready and none before it is.
pub open spec fn is_first_ready(slots: Seq<SlotView>, j: int) -> bool {
    &&& 0 <= j < slots.len()
    &&& slots[j].status is Ready
    &&& forall|i: int| 0 <= i < j ==> !((#[trigger] slots[i]).status is Ready)
}

/// Whether slot `j` of the slots is handed out under the name and none before it is.
pub open spec fn is_first_held(slots: Seq<SlotView>, name: Seq<char>, j: int) -> bool {
    &&& 0 <= j < slots.len()
    &&& slots[j].status == StatusView::CheckedOut(name)
    &&& forall|i: int|
        0 <= i < j ==> (#[trigger] slots[i]).status != StatusView::CheckedOut(name)
}

/// Whether slot `j` of project `k` has another status, and nothing else differs.
pub open spec fn only_status_changes(
    before: ProjectsView,
    after: ProjectsView,
    k: int,
    j: int,
    status: StatusView,
) -> bool {
    &&& after.len() == before.len()
    &&& forall|m: int| 0 <= m < before.len() && m != k ==> #[trigger] after[m] == before[m]
    &&& after[k].0 == before[k].0
    &&& after[k].1.len() == before[k].1.len()
    &&& forall|i: int|
        0 <= i < before[k].1.len() && i != j ==> #[trigger] after[k].1[i] == before[k].1[i]
    &&& after[k].1[j].status == status
    &&& after[k].1[j].id == before[k].1[j].id
    &&& after[k].1[j].last_refreshed == before[k].1[j].last_refreshed
    &&& after[k].1[j].error_message == before[k].1[j].error_message
}

/// Whether some slot of some project is handed out under the name.
pub open spec fn is_taken(projects: ProjectsView, name: Seq<char>) -> bool {
    exists|k: int, j: int|
        0 <= k < projects.len() && 0 <= j < projects[k].1.len() && (
        #[trigger] projects[k].1[j]).status == StatusView::CheckedOut(name)
}

proof fn lemma_taken(projects: ProjectsView, name: Seq<char>)
    ensures
        is_taken(projects, name) == name_in_use(projects, name),
{
    if is_taken(projects, name) {
        let (k, j) = choose|k: int, j: int|
            0 <= k < projects.len() && 0 <= j < projects[k].1.len() && (
            #[trigger] projects[k].1[j]).status == StatusView::CheckedOut(name);
        assert(held_as(name)(projects[k].1[j]));
    }
    if name_in_use(projects, name) {
        let (k, j) = choose|k: int, j: int|
            0 <= k < projects.len() && 0 <= j < projects[k].1.len() && held_as(name)(
                #[trigger] projects[k].1[j],
            );
        assert(projects[k].1[j].status == StatusView::CheckedOut(name));
    }
}

/// Where the names of projects differ, a project is found under its name, with its
/// slots.
pub proof fn projects_are_found_by_name(projects: ProjectsView, k: int)
    requires
        names_differ(projects),
        0 <= k < projects.len(),
    ensures
        project_index(projects, projects[k].0) == Some(k),
        slots_of(projects, projects[k].0) == projects[k].1,
{
    let name = projects[k].0;
    assert forall|j: int| 0 <= j < k implies !named(name)(#[trigger] projects[j]) by {
        assert(projects[j].0 != projects[k].0);
    }
    lemma_first_where_is(projects, named(name), k);
}

/// Under a name that no project has there is none, and no slot.
pub proof fn nothing_is_found_under_other_names(projects: ProjectsView, name: Seq<char>)
    requires
        forall|k: int| 0 <= k < projects.len() ==> (#[trigger] projects[k]).0 != name,
    ensures
        project_index(projects, name) is None,
        slots_of(projects, name).len() == 0,
{
    lemma_first_where(projects, named(name));
    if let Some(k) = project_index(projects, name) {
        assert(projects[k].0 == name);
    }
}

/// A request to hand out a slot is met exactly where the project has a ready slot
/// and no slot at all is handed out under the name. Then the first ready slot of the
/// project is handed out under that name, the answer bears the name and the
/// directory of that slot, and nothing else changes. Else the answer is an error, and
/// nothing changes.
pub proof fn ready_slots_are_handed_out(
    config: Config,
    repos_dir: Seq<char>,
    state: StateView,
    k: int,
    name: Seq<char>,
    tree: TreeView,
)
    requires
        names_differ(state.projects),
        0 <= k < state.projects.len(),
    ensures
        ({
            let before = state.projects;
            let request = RequestView::Add { project_name: before[k].0, checkout_name: name };
            let (after, response) = answered(config, repos_dir, state, request, tree);
            &&& response is Added <==> !is_taken(before, name) && exists|j: int|
                0 <= j < before[k].1.len() && (#[trigger] before[k].1[j]).status is Ready
            &&& response is Added ==> exists|j: int| #[trigger]
                is_first_ready(before[k].1, j) && only_status_changes(
                    before,
                    after.projects,
                    k,
                    j,
                    StatusView::CheckedOut(name),
                ) && response == (ResponseView::Added {
                    checkout_name: name,
                    path: clone_path(repos_dir, before[k].0, before[k].1[j].id),
                })
            &&& !(response is Added) ==> response is Error && after == state
            &&& after.pending_action == state.pending_action
            &&& after.last_updated == state.last_updated
        }),
{
    let before = state.projects;
    let slots = before[k].1;
    projects_are_found_by_name(before, k);
    lemma_taken(before, name);
    lemma_first_where(slots, ready());
    match first_where(slots, ready()) {
        Some(j) => {
            assert forall|i: int| 0 <= i < j implies !((#[trigger] slots[i]).status is Ready) by {
                assert(!ready()(slots[i]));
            }
            assert(is_first_ready(slots, j));
            assert(before[k].1[j].status is Ready);
        },
        None => {
            assert forall|j: int| 0 <= j < slots.len() implies !((
            #[trigger] before[k].1[j]).status is Ready) by {
                assert(!ready()(slots[j]));
            }
        },
    }
}

/// A project that the server does not know has no slot to hand out, and none to
/// take back.
pub proof fn unknown_projects_are_refused(
    config: Config,
    repos_dir: Seq<char>,
    state: StateView,
    project: Seq<char>,
    name: Seq<char>,
    force: bool,
    tree: TreeView,
)
    requires
        forall|k: int|
            0 <= k < state.projects.len() ==> (#[trigger] state.projects[k]).0 != project,
    ensures
        ({
            let request = RequestView::Add { project_name: project, checkout_name: name };
            let (after, response) = answered(config, repos_dir, state, request, tree);
            response is Error && after == state
        }),
        ({
            let request = RequestView::Remove { project_name: project, checkout_name: name, force };
            let (after, response) = answered(config, repos_dir, state, request, tree);
            response is Error && after == state
        }),
{
    lemma_first_where(state.projects, named(project));
}

/// A request to take a slot back is met exactly where a slot of the project is handed
/// out under the name and either its working tree is clean or the request says to
/// force it. Then that slot is ready again, and nothing else changes. Else the answer
/// is an error, and nothing changes.
pub proof fn checkouts_are_taken_back(
    config: Config,
    repos_dir: Seq<char>,
    state: StateView,
    k: int,
    name: Seq<char>,
    force: bool,
    tree: TreeView,
)
    requires
        names_differ(state.projects),
        0 <= k < state.projects.len(),
    ensures
        ({
            let before = state.projects;
            let request = RequestView::Remove {
                project_name: before[k].0,
                checkout_name: name,
                force,
            };
            let (after, response) = answered(config, repos_dir, state, request, tree);
            &&& response is Okay <==> (force || tree is Clean) && exists|j: int|
                0 <= j < before[k].1.len() && (#[trigger] before[k].1[j]).status
                    == StatusView::CheckedOut(name)
            &&& response is Okay ==> exists|j: int| #[trigger]
                is_first_held(before[k].1, name, j) && only_status_changes(
                    before,
                    after.projects,
                    k,
                    j,
                    StatusView::Ready,
                )
            &&& !(response is Okay) ==> response is Error && after == state
            &&& after.pending_action == state.pending_action
            &&& after.last_updated == state.last_updated
        }),
{
    let before = state.projects;
    let slots = before[k].1;
    projects_are_found_by_name(before, k);
    lemma_first_where(slots, held_as(name));
    match first_where(slots, held_as(name)) {
        Some(j) => {
            assert forall|i: int| 0 <= i < j implies (#[trigger] slots[i]).status
                != StatusView::CheckedOut(name) by {
                assert(!held_as(name)(slots[i]));
            }
            assert(is_first_held(slots, name, j));
            assert(before[k].1[j].status == StatusView::CheckedOut(name));
        },
        None => {
            assert forall|j: int| 0 <= j < slots.len() implies (
            #[trigger] before[k].1[j]).status != StatusView::CheckedOut(name) by {
                assert(!held_as(name)(slots[j]));
            }
        },
    }
}

/// A refusal says why: that the project is unknown, that the name is taken, that no
/// slot is ready, or that the project has no checkout of that name.
pub proof fn refusals_say_why(
    config: Config,
    repos_dir: Seq<char>,
    state: StateView,
    project: Seq<char>,
    name: Seq<char>,
    force: bool,
    tree: TreeView,
)
    ensures
        ({
            let request = RequestView::Add { project_name: project, checkout_name: name };
            let response = answered(config, repos_dir, state, request, tree).1;
            let known = exists|k: int|
                0 <= k < state.projects.len() && (#[trigger] state.projects[k]).0 == project;
            &&& !known ==> response == (ResponseView::Error {
                message: "unknown project '"@ + project + "'"@,
            })
            &&& known && is_taken(state.projects, name) ==> response == (ResponseView::Error {
                message: "checkout '"@ + name + "' already exists"@,
            })
            &&& known && !is_taken(state.projects, name) && !(response is Added) ==> response == (
            ResponseView::Error { message: "no ready slot for project '"@ + project + "'"@ })
        }),
        ({
            let request = RequestView::Remove { project_name: project, checkout_name: name, force };
            let response = answered(config, repos_dir, state, request, tree).1;
            response is Error && (force || tree is Clean) ==> response == (ResponseView::Error {
                message: "no checkout named '"@ + name + "' in project '"@ + project + "'"@,
            })
        }),
        ({
            let request = RequestView::Remove {
                project_name: project,
                checkout_name: name,
                force: false,
            };
            let response = answered(config, repos_dir, state, request, tree).1;
            let held = deciding_tree(
                repos_dir,
                state.projects,
                PROTOCOL_VERSION,
                request,
            ) is Some;
            &&& held && tree is Dirty ==> response == (ResponseView::Error {
                message: "checkout '"@ + name + "' is dirty: it has uncommitted changes"@,
            })
            &&& held && tree is Unpushed ==> response == (ResponseView::Error {
                message: "checkout '"@ + name + "' has unpushed commits"@,
            })
            &&& tree matches TreeView::Unknown(reason) ==> (held ==> response == (
            ResponseView::Error { message: "cannot inspect checkout '"@ + name + "': "@ + reason }))
        }),
{
    lemma_first_where(state.projects, named(project));
    lemma_taken(state.projects, name);
    if let Some(k) = project_index(state.projects, project) {
        assert(state.projects[k].0 == project);
    } else {
        assert forall|k: int| 0 <= k < state.projects.len() implies (
        #[trigger] state.projects[k]).0 != project by {
            assert(!named(project)(state.projects[k]));
        }
    }
}

/// After a slot was handed out, the directory to inspect before it is taken back is
/// the very one that was handed out.
pub proof fn what_was_handed_out_is_inspected(
    config: Config,
    repos_dir: Seq<char>,
    state: StateView,
    project: Seq<char>,
    name: Seq<char>,
    tree: TreeView,
)
    requires
        answered(
            config,
            repos_dir,
            state,
            RequestView::Add { project_name: project, checkout_name: name },
            tree,
        ).1 is Added,
    ensures
        ({
            let (after, response) = answered(
                config,
                repos_dir,
                state,
                RequestView::Add { project_name: project, checkout_name: name },
                tree,
            );
            deciding_tree(
                repos_dir,
                after.projects,
                PROTOCOL_VERSION,
                RequestView::Remove { project_name: project, checkout_name: name, force: false },
            ) == Some(response->path)
        }),
{
    crate::request_laws::lemma_held_after_add(repos_dir, state.projects, project, name);
    let k = project_index(state.projects, project)->0;
    let j = first_where(state.projects[k].1, ready())->0;
    lemma_first_where(state.projects, named(project));
    lemma_first_where(state.projects[k].1, ready());
    let after = added(repos_dir, state.projects, project, name).0;
    assert(after[k].1[j].id == state.projects[k].1[j].id);
}

/// The directory to inspect is that of the checkout of that name in that project:
/// the one that the listing of active checkouts gives for it.
pub proof fn the_checkout_itself_is_inspected(
    repos_dir: Seq<char>,
    projects: ProjectsView,
    k: int,
    j: int,
    name: Seq<char>,
)
    requires
        names_differ(projects),
        names_of_checkouts_differ(projects),
        0 <= k < projects.len(),
        0 <= j < projects[k].1.len(),
        projects[k].1[j].status == StatusView::CheckedOut(name),
    ensures
        ({
            let project = projects[k].0;
            let inspected = deciding_tree(
                repos_dir,
                projects,
                PROTOCOL_VERSION,
                RequestView::Remove { project_name: project, checkout_name: name, force: false },
            );
            let active = listing(repos_dir, projects, ListFilter::Active);
            &&& inspected == Some(clone_path(repos_dir, project, projects[k].1[j].id))
            &&& exists|n: int|
                0 <= n < active.len() && (#[trigger] active[n]).project == project
                    && active[n].checkout_name == Some(name)
            &&& forall|n: int|
                0 <= n < active.len() && (#[trigger] active[n]).project == project
                    && active[n].checkout_name == Some(name) ==> active[n].path == inspected
        }),
{
    let project = projects[k].0;
    let slots = projects[k].1;
    let active = listing(repos_dir, projects, ListFilter::Active);
    projects_are_found_by_name(projects, k);
    assert forall|i: int| 0 <= i < j implies !held_as(name)(#[trigger] slots[i]) by {
        if held_as(name)(slots[i]) {
            assert(is_checked_out_at(projects, k, i) && is_checked_out_at(projects, k, j));
        }
    }
    lemma_first_where_is(slots, held_as(name), j);
    slots_are_listed_where_they_belong(repos_dir, projects, k, j);
    assert(shows(active, repos_dir, project, slots[j]));
    let inspected = Some(clone_path(repos_dir, project, slots[j].id));
    assert forall|n: int|
        0 <= n < active.len() && (#[trigger] active[n]).project == project
            && active[n].checkout_name == Some(name) implies active[n].path == inspected by {
        let (a, b) = listings_show_nothing_else(repos_dir, projects, ListFilter::Active, n);
        assert(is_checked_out_at(projects, a, b) && is_checked_out_at(projects, k, j));
    }
}

/// The slot that an unforced request takes back is the one whose directory was
/// inspected.
pub proof fn what_is_taken_back_was_inspected(
    config: Config,
    repos_dir: Seq<char>,
    state: StateView,
    project: Seq<char>,
    name: Seq<char>,
    tree: TreeView,
)
    requires
        answered(
            config,
            repos_dir,
            state,
            RequestView::Remove { project_name: project, checkout_name: name, force: false },
            tree,
        ).1 is Okay,
    ensures
        ({
            let request = RequestView::Remove {
                project_name: project,
                checkout_name: name,
                force: false,
            };
            let before = state.projects;
            let after = answered(config, repos_dir, state, request, tree).0.projects;
            let inspected = deciding_tree(repos_dir, before, PROTOCOL_VERSION, request);
            &&& tree is Clean
            &&& exists|k: int, j: int|
                0 <= k < before.len() && 0 <= j < before[k].1.len() && before[k].0 == project
                    && #[trigger] only_status_changes(before, after, k, j, StatusView::Ready)
                    && before[k].1[j].status == StatusView::CheckedOut(name) && inspected == Some(
                    clone_path(repos_dir, project, before[k].1[j].id),
                )
        }),
{
    let before = state.projects;
    let request = RequestView::Remove {
        project_name: project,
        checkout_name: name,
        force: false,
    };
    let after = answered(config, repos_dir, state, request, tree).0.projects;
    assert(after == removed(before, project, name, false, tree).0);
    let (k, j) = checkout_position(before, project, name)->0;
    lemma_first_where(before, named(project));
    lemma_first_where(before[k].1, held_as(name));
    assert(only_status_changes(before, after, k, j, StatusView::Ready));
    assert(before[k].1[j].status == StatusView::CheckedOut(name));
    assert(deciding_tree(repos_dir, before, PROTOCOL_VERSION, request) == Some(
        clone_path(repos_dir, project, before[k].1[j].id),
    ));
    assert(tree is Clean);
}

/// Nothing is inspected for a request that is forced, for any other request, for
/// another version of the protocol, or where no slot of the project is handed out
/// under the name.
pub proof fn nothing_else_is_inspected(
    repos_dir: Seq<char>,
    projects: ProjectsView,
    version: u32,
    request: RequestView,
)
    ensures
        deciding_tree(repos_dir, projects, version, request) is Some ==> {
            &&& version == PROTOCOL_VERSION
            &&& request matches RequestView::Remove { project_name, checkout_name, force }
            &&& !force
            &&& exists|k: int, j: int|
                0 <= k < projects.len() && 0 <= j < projects[k].1.len() && projects[k].0
                    == project_name && (#[trigger] projects[k].1[j]).status
                    == StatusView::CheckedOut(checkout_name)
        },
{
    if deciding_tree(repos_dir, projects, version, request) is Some {
        let project = request->Remove_project_name;
        let name = request->Remove_checkout_name;
        let (k, j) = checkout_position(projects, project, name)->0;
        lemma_first_where(projects, named(project));
        lemma_first_where(projects[k].1, held_as(name));
        assert(projects[k].1[j].status == StatusView::CheckedOut(name));
    }
}

/// A working tree is clean exactly where both commands succeeded and neither had
/// anything to list. An uncommitted change makes it dirty; else a commit that is
/// listed makes it unpushed; a command that failed leaves it unknown.
pub proof fn trees_are_judged_by_what_is_listed(changes: ChildExit, unpushed: ChildExit)
    ensures
        ({
            let tree = judged_tree(changes, unpushed);
            let untouched = changes.success && changes.stdout@.len() == 0;
            &&& tree is Clean <==> untouched && unpushed.success && unpushed.stdout@.len() == 0
            &&& tree is Dirty <==> changes.success && changes.stdout@.len() > 0
            &&& tree is Unpushed <==> untouched && unpushed.success && unpushed.stdout@.len() > 0
            &&& !changes.success ==> tree == TreeView::Unknown(lossy_text(changes.stderr@))
            &&& untouched && !unpushed.success ==> tree == TreeView::Unknown(
                lossy_text(unpushed.stderr@),
            )
        }),
{
}

/// Both commands look at the directory that they are given, and change nothing in it.
pub proof fn trees_are_inspected_in_place(dir: Seq<char>)
    ensures
        changes_command(dir).current_dir == Some(dir),
        changes_command(dir).program == "git"@,
        changes_command(dir).args == seq!["status"@, "--porcelain"@],
        unpushed_command(dir).current_dir == Some(dir),
        unpushed_command(dir).program == "git"@,
        unpushed_command(dir).args == seq!["log"@, "--oneline"@, "@{upstream}..HEAD"@],
{
}

/// Only a clean working tree is no reason to refuse; every refusal names the checkout.
pub proof fn unclean_trees_are_refused(name: Seq<char>, tree: TreeView)
    ensures
        tree_refusal(name, tree) is None <==> tree is Clean,
        tree_refusal(name, tree) matches Some(response) ==> (response matches ResponseView::Error {
            message,
        } && exists|i: int|
            0 <= i && i + name.len() <= message.len() && #[trigger] message.subrange(
                i,
                i + name.len(),
            ) == name),
{
    if tree_refusal(name, tree) is Some {
        let message = (tree_refusal(name, tree)->0)->Error_message;
        let front = match tree {
            TreeView::Unknown(_) => "cannot inspect checkout '"@,
            _ => "checkout '"@,
        };
        let i = front.len() as int;
        assert(message.subrange(i, i + name.len()) =~= name);
    }
}

/// A client with another version of the protocol is told both versions, whatever it
/// asks, and changes nothing; one with the same version is answered.
pub proof fn other_versions_are_turned_away(
    config: Config,
    repos_dir: Seq<char>,
    state: StateView,
    version: u32,
    request: RequestView,
    tree: TreeView,
)
    ensures
        ({
            let answer = envelope_answered(config, repos_dir, state, version, request, tree);
            &&& version != 1 ==> answer == (
                state,
                ResponseView::VersionMismatch { expected: 1, got: version },
            )
            &&& version == 1 ==> answer == answered(config, repos_dir, state, request, tree)
            &&& version == 1 ==> !(answer.1 is VersionMismatch)
        }),
{
}

/// Each request is answered in kind.
pub proof fn requests_are_answered_in_kind(
    config: Config,
    repos_dir: Seq<char>,
    state: StateView,
    request: RequestView,
    tree: TreeView,
)
    ensures
        ({
            let (after, response) = answered(config, repos_dir, state, request, tree);
            match request {
                RequestView::Add { .. } => response is Added || response is Error,
                RequestView::List { filter } => after == state && response == ResponseView::List(
                    listing(repos_dir, state.projects, filter),
                ),
                RequestView::Remove { .. } => response is Okay || response is Error,
                RequestView::Cleanup => response is Cleaned,
                RequestView::Purge => response is Cleaned,
            }
        }),
{
}

} // verus!
