//! What clients ask of the server, and what they are answered.
use crate::api::{
    Envelope, ListFilter, Request, RequestEnvelope, RequestView, Response, ResponseEnvelope,
    ResponseView, SlotInfo, SlotInfoView, SlotList, PROTOCOL_VERSION,
};
use crate::cleanup::{clean, cleaned, going_paths, Removal};
use crate::command::{owned, CommandSpec, CommandView};
use crate::config::Config;
use crate::handler::{clone_dest, clone_path};
use crate::poll_loop::ChildExit;
use crate::seqs::{
    first_where, lemma_filter_step, lemma_first_where, lemma_first_where_is, lemma_first_where_none,
};
use crate::state::{
    entry_view, named, project_index, ready, with_slots, ProjectState, ProjectsView, ServerState,
    Slot, SlotStatus, SlotView, StateView, StatusView,
};
use crate::text::{from_utf8_lossy, lossy_text, opt_clone, views};
use vstd::prelude::*;
use vstd::string::*;

verus! {

/// What was found in the working tree of a checkout.
#[derive(Debug, Clone, PartialEq, Eq)]
pub enum TreeCheck {
    Clean,
    /// Files were changed, added or removed and not committed.
    Dirty,
    /// There are commits that the remote repository lacks.
    Unpushed,
    /// It could not be inspected, for the given reason.
    Unknown(String),
}

pub enum TreeView {
    Clean,
    Dirty,
    Unpushed,
    Unknown(Seq<char>),
}

impl View for TreeCheck {
    type V = TreeView;

    open spec fn view(&self) -> TreeView {
        match self {
            TreeCheck::Clean => TreeView::Clean,
            TreeCheck::Dirty => TreeView::Dirty,
            TreeCheck::Unpushed => TreeView::Unpushed,
            TreeCheck::Unknown(m) => TreeView::Unknown(m@),
        }
    }
}

/// The command that lists the uncommitted changes of a working tree.
pub open spec fn changes_command(dir: Seq<char>) -> CommandView {
    CommandView {
        program: "git"@,
        args: seq!["status"@, "--porcelain"@],
        current_dir: Some(dir),
    }
}

/// The command that lists the commits that the remote repository lacks.
pub open spec fn unpushed_command(dir: Seq<char>) -> CommandView {
    CommandView {
        program: "git"@,
        args: seq!["log"@, "--oneline"@, "@{upstream}..HEAD"@],
        current_dir: Some(dir),
    }
}

/// The commands whose outputs tell whether a checkout can be returned.
pub fn tree_commands(dir: &str) -> (r: (CommandSpec, CommandSpec))
    ensures
        r.0@ == changes_command(dir@),
        r.1@ == unpushed_command(dir@),
{
    let changes = owned(&["status", "--porcelain"]);
    let unpushed = owned(&["log", "--oneline", "@{upstream}..HEAD"]);
    assert(views(changes@) =~= seq!["status"@, "--porcelain"@]);
    assert(views(unpushed@) =~= seq!["log"@, "--oneline"@, "@{upstream}..HEAD"@]);
    (
        CommandSpec {
            program: "git".to_owned(),
            args: changes,
            current_dir: Some(dir.to_owned()),
        },
        CommandSpec {
            program: "git".to_owned(),
            args: unpushed,
            current_dir: Some(dir.to_owned()),
        },
    )
}

/// What the two outputs say of a working tree: any uncommitted change makes it
/// dirty, and any commit that is listed is unpushed.
pub open spec fn judged_tree(changes: ChildExit, unpushed: ChildExit) -> TreeView {
    if !changes.success {
        TreeView::Unknown(lossy_text(changes.stderr@))
    } else if changes.stdout@.len() > 0 {
        TreeView::Dirty
    } else if !unpushed.success {
        TreeView::Unknown(lossy_text(unpushed.stderr@))
    } else if unpushed.stdout@.len() > 0 {
        TreeView::Unpushed
    } else {
        TreeView::Clean
    }
}

/// Judges a working tree by the outcomes of its two commands.
pub fn judge_tree(changes: &ChildExit, unpushed: &ChildExit) -> (r: TreeCheck)
    ensures
        r@ == judged_tree(*changes, *unpushed),
{
    if !changes.success {
        TreeCheck::Unknown(from_utf8_lossy(changes.stderr.as_slice()))
    } else if changes.stdout.len() > 0 {
        TreeCheck::Dirty
    } else if !unpushed.success {
        TreeCheck::Unknown(from_utf8_lossy(unpushed.stderr.as_slice()))
    } else if unpushed.stdout.len() > 0 {
        TreeCheck::Unpushed
    } else {
        TreeCheck::Clean
    }
}

/// The predicate of the slots that a filter lets through.
pub open spec fn selected(filter: ListFilter) -> spec_fn(SlotView) -> bool {
    |s: SlotView|
        match filter {
            ListFilter::All => true,
            ListFilter::Active => s.status is CheckedOut,
            ListFilter::Free => s.status is Ready,
            ListFilter::Background => !(s.status is CheckedOut),
        }
}

/// What clients are told of a slot.
pub open spec fn slot_info(repos_dir: Seq<char>, project: Seq<char>, slot: SlotView) -> SlotInfoView {
    SlotInfoView {
        project,
        checkout_name: match slot.status {
            StatusView::CheckedOut(name) => Some(name),
            _ => None,
        },
        status: slot.status.summary(),
        last_refreshed: match slot.last_refreshed {
            Some(t) => Some(t.spec_to_rfc3339()),
            None => None,
        },
        error_message: slot.error_message,
        path: Some(clone_path(repos_dir, project, slot.id)),
    }
}

/// What clients are told of the slots of one project.
pub open spec fn project_listing(
    repos_dir: Seq<char>,
    entry: (Seq<char>, Seq<SlotView>),
    filter: ListFilter,
) -> Seq<SlotInfoView> {
    entry.1.filter(selected(filter)).map_values(
        |s: SlotView| slot_info(repos_dir, entry.0, s),
    )
}

/// What clients are told of the slots of all projects, in order.
pub open spec fn listing(
    repos_dir: Seq<char>,
    projects: ProjectsView,
    filter: ListFilter,
) -> Seq<SlotInfoView>
    decreases projects.len(),
{
    if projects.len() == 0 {
        Seq::empty()
    } else {
        listing(repos_dir, projects.drop_last(), filter) + project_listing(
            repos_dir,
            projects.last(),
            filter,
        )
    }
}

/// The predicate of the slots that are handed out under a name.
pub open spec fn held_as(name: Seq<char>) -> spec_fn(SlotView) -> bool {
    |s: SlotView| s.status == StatusView::CheckedOut(name)
}

/// Whether a slot of any project is handed out under the name.
pub open spec fn name_in_use(projects: ProjectsView, name: Seq<char>) -> bool {
    exists|k: int, j: int|
        0 <= k < projects.len() && 0 <= j < projects[k].1.len() && held_as(name)(
            #[trigger] projects[k].1[j],
        )
}

pub open spec fn refusal(message: Seq<char>) -> ResponseView {
    ResponseView::Error { message }
}

pub open spec fn unknown_project(project: Seq<char>) -> ResponseView {
    refusal("unknown project '"@ + project + "'"@)
}

pub open spec fn name_taken(name: Seq<char>) -> ResponseView {
    refusal("checkout '"@ + name + "' already exists"@)
}

pub open spec fn nothing_ready(project: Seq<char>) -> ResponseView {
    refusal("no ready slot for project '"@ + project + "'"@)
}

pub open spec fn no_such_checkout(project: Seq<char>, name: Seq<char>) -> ResponseView {
    refusal("no checkout named '"@ + name + "' in project '"@ + project + "'"@)
}

/// Why a checkout with such a working tree is not taken back; none where it is.
pub open spec fn tree_refusal(name: Seq<char>, tree: TreeView) -> Option<ResponseView> {
    match tree {
        TreeView::Clean => None,
        TreeView::Dirty => Some(
            refusal("checkout '"@ + name + "' is dirty: it has uncommitted changes"@),
        ),
        TreeView::Unpushed => Some(refusal("checkout '"@ + name + "' has unpushed commits"@)),
        TreeView::Unknown(m) => Some(
            refusal("cannot inspect checkout '"@ + name + "': "@ + m),
        ),
    }
}

/// The answer to a request to hand out a slot, and the projects after it: the
/// first ready slot of the project is handed out under the name, where the
/// project is known, the name is free and there is such a slot.
pub open spec fn added(
    repos_dir: Seq<char>,
    projects: ProjectsView,
    project: Seq<char>,
    name: Seq<char>,
) -> (ProjectsView, ResponseView) {
    match project_index(projects, project) {
        None => (projects, unknown_project(project)),
        Some(k) => {
            let slots = projects[k].1;
            if name_in_use(projects, name) {
                (projects, name_taken(name))
            } else {
                match first_where(slots, ready()) {
                    None => (projects, nothing_ready(project)),
                    Some(j) => (
                        with_slots(
                            projects,
                            project,
                            slots.update(
                                j,
                                SlotView { status: StatusView::CheckedOut(name), ..slots[j] },
                            ),
                        ),
                        ResponseView::Added {
                            checkout_name: name,
                            path: clone_path(repos_dir, project, slots[j].id),
                        },
                    ),
                }
            }
        },
    }
}

/// The slot of a project that is handed out under a name: the positions of both.
pub open spec fn checkout_position(
    projects: ProjectsView,
    project: Seq<char>,
    name: Seq<char>,
) -> Option<(int, int)> {
    match project_index(projects, project) {
        None => None,
        Some(k) => match first_where(projects[k].1, held_as(name)) {
            None => None,
            Some(j) => Some((k, j)),
        },
    }
}

/// The answer to a request to take a slot back, and the projects after it: the
/// slot is ready again, where there is one under the name and either its working
/// tree is clean or the request says to force it.
pub open spec fn removed(
    projects: ProjectsView,
    project: Seq<char>,
    name: Seq<char>,
    force: bool,
    tree: TreeView,
) -> (ProjectsView, ResponseView) {
    match checkout_position(projects, project, name) {
        None => (projects, no_such_checkout(project, name)),
        Some((k, j)) => {
            let slots = projects[k].1;
            if !force && tree_refusal(name, tree) is Some {
                (projects, tree_refusal(name, tree)->0)
            } else {
                (
                    with_slots(
                        projects,
                        project,
                        slots.update(j, SlotView { status: StatusView::Ready, ..slots[j] }),
                    ),
                    ResponseView::Okay,
                )
            }
        },
    }
}

/// The answer to a request to remove background slots, and the state after it.
pub open spec fn cleaning_answered(
    config: Config,
    repos_dir: Seq<char>,
    state: StateView,
    removal: Removal,
) -> (StateView, ResponseView) {
    (
        StateView {
            projects: cleaned(config, state.pending_action, removal, state.projects),
            ..state
        },
        ResponseView::Cleaned {
            paths: going_paths(repos_dir, config, state.pending_action, removal, state.projects),
        },
    )
}

/// The answer to a request, and the state after it.
pub open spec fn answered(
    config: Config,
    repos_dir: Seq<char>,
    state: StateView,
    request: RequestView,
    tree: TreeView,
) -> (StateView, ResponseView) {
    match request {
        RequestView::Add { project_name, checkout_name } => {
            let (projects, response) = added(
                repos_dir,
                state.projects,
                project_name,
                checkout_name,
            );
            (StateView { projects, ..state }, response)
        },
        RequestView::List { filter } => (
            state,
            ResponseView::List(listing(repos_dir, state.projects, filter)),
        ),
        RequestView::Remove { project_name, checkout_name, force } => {
            let (projects, response) = removed(
                state.projects,
                project_name,
                checkout_name,
                force,
                tree,
            );
            (StateView { projects, ..state }, response)
        },
        RequestView::Cleanup => cleaning_answered(config, repos_dir, state, Removal::Extra),
        RequestView::Purge => cleaning_answered(config, repos_dir, state, Removal::All),
    }
}

fn three(a: &str, b: &str, c: &str) -> (r: String)
    ensures
        r@ == a@ + b@ + c@,
{
    a.to_owned().concat(b).concat(c)
}

fn refuse(message: String) -> (r: Response)
    ensures
        r@ == refusal(message@),
{
    Response::Error { message }
}

fn is_selected(filter: ListFilter, slot: &Slot) -> (r: bool)
    ensures
        r == selected(filter)(slot@),
{
    match filter {
        ListFilter::All => true,
        ListFilter::Active => matches!(slot.status, SlotStatus::CheckedOut(_)),
        ListFilter::Free => matches!(slot.status, SlotStatus::Ready),
        ListFilter::Background => !matches!(slot.status, SlotStatus::CheckedOut(_)),
    }
}

/// Tells clients of a slot.
pub fn describe_slot(repos_dir: &str, project: &String, slot: &Slot) -> (r: SlotInfo)
    ensures
        r@ == slot_info(repos_dir@, project@, slot@),
{
    SlotInfo {
        project: project.clone(),
        checkout_name: match &slot.status {
            SlotStatus::CheckedOut(name) => Some(name.clone()),
            _ => None,
        },
        status: slot.status.to_api(),
        last_refreshed: match &slot.last_refreshed {
            Some(t) => Some(t.to_rfc3339()),
            None => None,
        },
        error_message: opt_clone(&slot.error_message),
        path: Some(clone_dest(repos_dir, project.as_str(), slot.id)),
    }
}

/// Appends what clients are told of one project.
fn list_project(
    out: &mut Vec<SlotInfo>,
    repos_dir: &str,
    name: &String,
    pool: &ProjectState,
    filter: ListFilter,
)
    ensures
        final(out)@.map_values(|s: SlotInfo| s@) == old(out)@.map_values(|s: SlotInfo| s@)
            + project_listing(repos_dir@, (name@, pool@), filter),
{
    let ghost start = out@.map_values(|s: SlotInfo| s@);
    let ghost info = |s: SlotView| slot_info(repos_dir@, name@, s);
    let ghost pred = selected(filter);
    let mut j: usize = 0;
    proof {
        reveal(Seq::filter);
        assert(pool@.take(0) =~= Seq::<SlotView>::empty());
        assert(pool@.take(0).filter(pred).map_values(info) =~= Seq::<SlotInfoView>::empty());
        assert(start + Seq::<SlotInfoView>::empty() =~= start);
    }
    while j < pool.slots.len()
        invariant
            j <= pool.slots.len(),
            pred == selected(filter),
            info == (|s: SlotView| slot_info(repos_dir@, name@, s)),
            out@.map_values(|s: SlotInfo| s@) == start + pool@.take(j as int).filter(
                pred,
            ).map_values(info),
        decreases pool.slots.len() - j,
    {
        let ghost before = out@;
        proof {
            lemma_filter_step(pool@, pred, j as int);
        }
        if is_selected(filter, &pool.slots[j]) {
            let slot = describe_slot(repos_dir, name, &pool.slots[j]);
            out.push(slot);
            proof {
                let kept = pool@.take(j as int).filter(pred);
                assert(out@.map_values(|s: SlotInfo| s@) =~= before.map_values(
                    |s: SlotInfo| s@,
                ).push(slot@));
                assert(kept.push(pool@[j as int]).map_values(info) =~= kept.map_values(info).push(
                    slot@,
                ));
                assert(start + kept.map_values(info).push(slot@) =~= (start + kept.map_values(
                    info,
                )).push(slot@));
            }
        }
        j = j + 1;
    }
    proof {
        assert(pool@.take(j as int) =~= pool@);
        assert(info =~= (|s: SlotView| slot_info(repos_dir@, (name@, pool@).0, s)));
    }
}

/// Lists the slots that a filter lets through.
pub fn list_slots(state: &ServerState, repos_dir: &str, filter: ListFilter) -> (r: SlotList)
    ensures
        r@ == listing(repos_dir@, state@.projects, filter),
{
    let mut out: Vec<SlotInfo> = Vec::new();
    let mut k: usize = 0;
    proof {
        assert(state@.projects.take(0) =~= Seq::<(Seq<char>, Seq<SlotView>)>::empty());
        assert(out@.map_values(|s: SlotInfo| s@) =~= Seq::<SlotInfoView>::empty());
    }
    while k < state.projects.len()
        invariant
            k <= state.projects.len(),
            out@.map_values(|s: SlotInfo| s@) == listing(
                repos_dir@,
                state@.projects.take(k as int),
                filter,
            ),
        decreases state.projects.len() - k,
    {
        proof {
            let so_far = state@.projects.take(k + 1);
            assert(so_far.drop_last() =~= state@.projects.take(k as int));
            assert(so_far.last() == entry_view(state.projects@[k as int]));
        }
        list_project(&mut out, repos_dir, &state.projects[k].0, &state.projects[k].1, filter);
        k = k + 1;
    }
    assert(state@.projects.take(k as int) =~= state@.projects);
    SlotList { slots: out }
}

fn find_held(pool: &ProjectState, name: &String) -> (r: Option<usize>)
    ensures
        match r {
            Some(j) => first_where(pool@, held_as(name@)) == Some(j as int) && j
                < pool.slots@.len(),
            None => first_where(pool@, held_as(name@)) is None,
        },
{
    let mut j: usize = 0;
    while j < pool.slots.len()
        invariant
            j <= pool.slots.len(),
            forall|m: int| 0 <= m < j ==> !held_as(name@)(#[trigger] pool@[m]),
        decreases pool.slots.len() - j,
    {
        assert(pool@[j as int] == pool.slots@[j as int]@);
        if let SlotStatus::CheckedOut(holder) = &pool.slots[j].status {
            if *holder == *name {
                proof {
                    lemma_first_where_is(pool@, held_as(name@), j as int);
                }
                return Some(j);
            }
        }
        j = j + 1;
    }
    proof {
        lemma_first_where_none(pool@, held_as(name@));
    }
    None
}

fn find_ready(pool: &ProjectState) -> (r: Option<usize>)
    ensures
        match r {
            Some(j) => first_where(pool@, ready()) == Some(j as int) && j < pool.slots@.len(),
            None => first_where(pool@, ready()) is None,
        },
{
    let mut j: usize = 0;
    while j < pool.slots.len()
        invariant
            j <= pool.slots.len(),
            forall|m: int| 0 <= m < j ==> !ready()(#[trigger] pool@[m]),
        decreases pool.slots.len() - j,
    {
        assert(pool@[j as int] == pool.slots@[j as int]@);
        if matches!(pool.slots[j].status, SlotStatus::Ready) {
            proof {
                lemma_first_where_is(pool@, ready(), j as int);
            }
            return Some(j);
        }
        j = j + 1;
    }
    proof {
        lemma_first_where_none(pool@, ready());
    }
    None
}

/// Whether a slot of any project is handed out under the name.
pub fn is_name_in_use(state: &ServerState, name: &String) -> (r: bool)
    ensures
        r == name_in_use(state@.projects, name@),
{
    let mut k: usize = 0;
    while k < state.projects.len()
        invariant
            k <= state.projects.len(),
            forall|m: int, j: int|
                0 <= m < k && 0 <= j < state@.projects[m].1.len() ==> !held_as(name@)(
                    #[trigger] state@.projects[m].1[j],
                ),
        decreases state.projects.len() - k,
    {
        let ghost pool = state@.projects[k as int].1;
        assert(pool == state.projects@[k as int].1@);
        proof {
            lemma_first_where(pool, held_as(name@));
        }
        if let Some(j) = find_held(&state.projects[k].1, name) {
            assert(held_as(name@)(state@.projects[k as int].1[j as int]));
            return true;
        }
        k = k + 1;
    }
    false
}

/// Hands out the first ready slot of a project under a name.
pub fn add_checkout(
    state: &mut ServerState,
    repos_dir: &str,
    project_name: &String,
    checkout_name: &String,
) -> (r: Response)
    ensures
        ({
            let model = added(
                repos_dir@,
                old(state)@.projects,
                project_name@,
                checkout_name@,
            );
            final(state)@ == (StateView { projects: model.0, ..old(state)@ }) && r@ == model.1
        }),
{
    let k: usize = match state.find_project(project_name) {
        Some(k) => k,
        None => {
            return refuse(three("unknown project '", project_name.as_str(), "'"));
        },
    };
    let ghost before = state@.projects;
    proof {
        lemma_first_where(before, named(project_name@));
        assert(before[k as int] == (project_name@, state.projects@[k as int].1@));
    }
    if is_name_in_use(state, checkout_name) {
        return refuse(three("checkout '", checkout_name.as_str(), "' already exists"));
    }
    match find_ready(&state.projects[k].1) {
        None => refuse(three("no ready slot for project '", project_name.as_str(), "'")),
        Some(j) => {
            assert(before[k as int].1[j as int] == state.projects@[k as int].1.slots@[j as int]@);
            let id = state.projects[k].1.slots[j].id;
            state.set_status(k, j, SlotStatus::CheckedOut(checkout_name.clone()));
            Response::Added {
                checkout_name: checkout_name.clone(),
                path: clone_dest(repos_dir, project_name.as_str(), id),
            }
        },
    }
}

fn refuse_tree(checkout_name: &String, tree: &TreeCheck) -> (r: Option<Response>)
    ensures
        match r {
            Some(response) => tree_refusal(checkout_name@, tree@) == Some(response@),
            None => tree_refusal(checkout_name@, tree@) is None,
        },
{
    match tree {
        TreeCheck::Clean => None,
        TreeCheck::Dirty => Some(
            refuse(
                three(
                    "checkout '",
                    checkout_name.as_str(),
                    "' is dirty: it has uncommitted changes",
                ),
            ),
        ),
        TreeCheck::Unpushed => Some(
            refuse(three("checkout '", checkout_name.as_str(), "' has unpushed commits")),
        ),
        TreeCheck::Unknown(m) => Some(
            refuse(
                three("cannot inspect checkout '", checkout_name.as_str(), "': ").concat(
                    m.as_str(),
                ),
            ),
        ),
    }
}

fn find_checkout(state: &ServerState, project_name: &String, checkout_name: &String) -> (r: Option<
    (usize, usize),
>)
    ensures
        match r {
            Some((k, j)) => checkout_position(state@.projects, project_name@, checkout_name@)
                == Some((k as int, j as int)) && k < state.projects@.len() && j
                < state.projects@[k as int].1.slots@.len() && state@.projects[k as int]
                == (project_name@, state.projects@[k as int].1@),
            None => checkout_position(state@.projects, project_name@, checkout_name@) is None,
        },
{
    match state.find_project(project_name) {
        None => None,
        Some(k) => {
            proof {
                lemma_first_where(state@.projects, named(project_name@));
                assert(state@.projects[k as int] == entry_view(state.projects@[k as int]));
            }
            match find_held(&state.projects[k].1, checkout_name) {
                None => None,
                Some(j) => Some((k, j)),
            }
        },
    }
}

/// Takes a slot back into the pool.
pub fn remove_checkout(
    state: &mut ServerState,
    project_name: &String,
    checkout_name: &String,
    force: bool,
    tree: &TreeCheck,
) -> (r: Response)
    ensures
        ({
            let model = removed(
                old(state)@.projects,
                project_name@,
                checkout_name@,
                force,
                tree@,
            );
            final(state)@ == (StateView { projects: model.0, ..old(state)@ }) && r@ == model.1
        }),
{
    match find_checkout(state, project_name, checkout_name) {
        None => refuse(
            three("no checkout named '", checkout_name.as_str(), "' in project '").concat(
                project_name.as_str(),
            ).concat("'"),
        ),
        Some((k, j)) => {
            if !force {
                if let Some(response) = refuse_tree(checkout_name, tree) {
                    return response;
                }
            }
            state.set_status(k, j, SlotStatus::Ready);
            Response::Okay
        },
    }
}

/// Answers a request.
pub fn answer(
    state: &mut ServerState,
    config: &Config,
    repos_dir: &str,
    request: &Request,
    tree: &TreeCheck,
) -> (r: Response)
    ensures
        (final(state)@, r@) == answered(*config, repos_dir@, old(state)@, request@, tree@),
{
    match request {
        Request::Add { project_name, checkout_name } => add_checkout(
            state,
            repos_dir,
            project_name,
            checkout_name,
        ),
        Request::List { filter } => Response::List(list_slots(state, repos_dir, *filter)),
        Request::Remove { project_name, checkout_name, force } => remove_checkout(
            state,
            project_name,
            checkout_name,
            *force,
            tree,
        ),
        Request::Cleanup => {
            let paths = clean(state, config, repos_dir, Removal::Extra);
            Response::Cleaned { paths }
        },
        Request::Purge => {
            let paths = clean(state, config, repos_dir, Removal::All);
            Response::Cleaned { paths }
        },
    }
}

/// The answer to an envelope, and the state after it: a client with another
/// version of the protocol is told so, and changes nothing.
pub open spec fn envelope_answered(
    config: Config,
    repos_dir: Seq<char>,
    state: StateView,
    version: u32,
    request: RequestView,
    tree: TreeView,
) -> (StateView, ResponseView) {
    if version != PROTOCOL_VERSION {
        (state, ResponseView::VersionMismatch { expected: PROTOCOL_VERSION, got: version })
    } else {
        answered(config, repos_dir, state, request, tree)
    }
}

/// Answers an envelope. The answer bears the id of the request.
pub fn answer_envelope(
    state: &mut ServerState,
    config: &Config,
    repos_dir: &str,
    envelope: &RequestEnvelope,
    tree: &TreeCheck,
) -> (r: ResponseEnvelope)
    ensures
        (final(state)@, r.content@) == envelope_answered(
            *config,
            repos_dir@,
            old(state)@,
            envelope.version,
            envelope.content@,
            tree@,
        ),
        r.version == PROTOCOL_VERSION,
        r.request_id@ == envelope.request_id@,
{
    let content = if envelope.version != PROTOCOL_VERSION {
        Response::VersionMismatch { expected: PROTOCOL_VERSION, got: envelope.version }
    } else {
        answer(state, config, repos_dir, &envelope.content, tree)
    };
    Envelope { version: PROTOCOL_VERSION, request_id: envelope.request_id.clone(), content }
}

/// The directory whose working tree decides on a request.
pub open spec fn deciding_tree(
    repos_dir: Seq<char>,
    projects: ProjectsView,
    version: u32,
    request: RequestView,
) -> Option<Seq<char>> {
    match request {
        RequestView::Remove { project_name, checkout_name, force } => {
            if version != PROTOCOL_VERSION || force {
                None
            } else {
                match checkout_position(projects, project_name, checkout_name) {
                    Some((k, j)) => Some(clone_path(repos_dir, project_name, projects[k].1[j].id)),
                    None => None,
                }
            }
        },
        _ => None,
    }
}

/// The directory whose working tree must be inspected before the envelope is
/// answered.
pub fn tree_to_inspect(state: &ServerState, repos_dir: &str, envelope: &RequestEnvelope) -> (r:
    Option<String>)
    ensures
        crate::text::opt_view(r) == deciding_tree(
            repos_dir@,
            state@.projects,
            envelope.version,
            envelope.content@,
        ),
{
    if envelope.version != PROTOCOL_VERSION {
        return None;
    }
    match &envelope.content {
        Request::Remove { project_name, checkout_name, force } => {
            if *force {
                None
            } else {
                match find_checkout(state, project_name, checkout_name) {
                    Some((k, j)) => {
                        assert(state@.projects[k as int].1[j as int]
                            == state.projects@[k as int].1.slots@[j as int]@);
                        Some(
                            clone_dest(
                                repos_dir,
                                project_name.as_str(),
                                state.projects[k].1.slots[j].id,
                            ),
                        )
                    },
                    None => None,
                }
            }
        },
        _ => None,
    }
}

/// Answers bytes that are no request, for the given reason.
pub fn answer_invalid(reason: &str) -> (r: ResponseEnvelope)
    ensures
        r.version == PROTOCOL_VERSION,
        r.request_id@ == ""@,
        r.content@ == refusal("invalid request: "@ + reason@),
{
    Envelope {
        version: PROTOCOL_VERSION,
        request_id: "".to_owned(),
        content: refuse("invalid request: ".to_owned().concat(reason)),
    }
}

} // verus!
