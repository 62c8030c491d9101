//! The line-by-line status protocol: methods by name, answers with data or an error.
use crate::config::Config;
use crate::seqs::{lemma_first_where, lemma_first_where_is};
use crate::state::{named, project_index, ProjectsView, ServerState, Slot, SlotView};
use crate::text::same_text;
use vstd::prelude::*;
use vstd::string::*;

verus! {

/// A JSON value of `serde_json`. It is carried through and never looked into.
#[verifier::external_type_specification]
#[verifier::external_body]
pub struct ExValue(serde_json::Value);

/// A call of a method by its name.
#[derive(Debug)]
pub struct Request {
    pub method: String,
    pub params: Option<serde_json::Value>,
}

/// The answer to a call.
#[derive(Debug)]
pub struct Response {
    pub ok: bool,
    pub data: Option<serde_json::Value>,
    pub error: Option<String>,
}

impl Response {
    /// The answer that carries data.
    #[must_use]
    pub fn success(data: serde_json::Value) -> (r: Self)
        ensures
            r.ok,
            r.data == Some(data),
            r.error is None,
    {
        Self { ok: true, data: Some(data), error: None }
    }

    /// The answer that carries the message of an error.
    pub fn error(msg: String) -> (r: Self)
        ensures
            r.is_error(msg@),
    {
        Self { ok: false, data: None, error: Some(msg) }
    }

    /// Whether this is the answer that carries the message.
    pub open spec fn is_error(self, msg: Seq<char>) -> bool {
        !self.ok && self.data is None && (self.error matches Some(m) && m@ == msg)
    }
}

/// Answers a line that is no call, for the given reason.
pub fn invalid_request(reason: &str) -> (r: Response)
    ensures
        r.is_error("invalid request: "@ + reason@),
{
    Response::error("invalid request: ".to_owned().concat(reason))
}

/// What is told of a configured project: its settings, and its slots where the
/// project is known.
#[derive(Debug)]
pub struct ProjectSummary<'a> {
    pub name: &'a String,
    pub repo_url: &'a String,
    pub branch: &'a str,
    pub slots: Option<&'a Vec<Slot>>,
}

pub struct SummaryView {
    pub name: Seq<char>,
    pub repo_url: Seq<char>,
    pub branch: Seq<char>,
    pub slots: Option<Seq<SlotView>>,
}

impl<'a> View for ProjectSummary<'a> {
    type V = SummaryView;

    open spec fn view(&self) -> SummaryView {
        SummaryView {
            name: self.name@,
            repo_url: self.repo_url@,
            branch: self.branch@,
            slots: match self.slots {
                Some(slots) => Some(slots@.map_values(|s: Slot| s@)),
                None => None,
            },
        }
    }
}

/// What is told of the configured project at position `i`.
pub open spec fn summary(config: Config, projects: ProjectsView, i: int) -> SummaryView {
    let project = config.projects[i];
    SummaryView {
        name: project.name@,
        repo_url: project.repo_url@,
        branch: project.spec_effective_branch(),
        slots: match project_index(projects, project.name@) {
            Some(k) => Some(projects[k].1),
            None => None,
        },
    }
}

/// What is told of all configured projects, in order.
pub open spec fn summaries(config: Config, projects: ProjectsView) -> Seq<SummaryView> {
    Seq::new(config.projects@.len(), |i: int| summary(config, projects, i))
}

/// Lists the configured projects with their slots.
pub fn handle_list_projects<'a>(state: &'a ServerState, config: &'a Config) -> (r: Vec<
    ProjectSummary<'a>,
>)
    ensures
        r@.map_values(|s: ProjectSummary<'a>| s@) == summaries(*config, state@.projects),
{
    let mut r: Vec<ProjectSummary<'a>> = Vec::new();
    let mut i: usize = 0;
    while i < config.projects.len()
        invariant
            i <= config.projects.len(),
            r@.len() == i,
            forall|m: int|
                0 <= m < i ==> (#[trigger] r@[m])@ == summary(*config, state@.projects, m),
        decreases config.projects.len() - i,
    {
        let project = &config.projects[i];
        let slots = match state.find_project(&project.name) {
            Some(k) => {
                proof {
                    lemma_first_where(state@.projects, named(project.name@));
                    assert(state@.projects[k as int] == crate::state::entry_view(
                        state.projects@[k as int],
                    ));
                }
                Some(&state.projects[k].1.slots)
            },
            None => None,
        };
        r.push(
            ProjectSummary {
                name: &project.name,
                repo_url: &project.repo_url,
                branch: project.effective_branch(),
                slots,
            },
        );
        i = i + 1;
    }
    assert(r@.map_values(|s: ProjectSummary<'a>| s@) =~= summaries(*config, state@.projects));
    r
}

/// What a call is answered with.
#[derive(Debug)]
pub enum Reply<'a> {
    /// The whole state.
    Status(&'a ServerState),
    /// The configured projects.
    Projects(Vec<ProjectSummary<'a>>),
    /// A refusal.
    Refused(Response),
}

/// Decides what a call is answered with, by its method.
pub fn dispatch<'a>(req: &Request, state: &'a ServerState, config: &'a Config) -> (r: Reply<'a>)
    ensures
        req.method@ == "status"@ ==> r == Reply::Status(state),
        req.method@ == "list_projects"@ ==> (r matches Reply::Projects(list) && list@.map_values(
            |s: ProjectSummary<'a>| s@,
        ) == summaries(*config, state@.projects)),
        req.method@ != "status"@ && req.method@ != "list_projects"@ ==> (r matches Reply::Refused(
            response,
        ) && response.is_error("unknown method: "@ + req.method@)),
{
    proof {
        reveal_strlit("status");
        reveal_strlit("list_projects");
        assert("status"@.len() != "list_projects"@.len());
    }
    let method = req.method.as_str();
    if same_text(method, "status") {
        Reply::Status(state)
    } else if same_text(method, "list_projects") {
        Reply::Projects(handle_list_projects(state, config))
    } else {
        Reply::Refused(Response::error("unknown method: ".to_owned().concat(method)))
    }
}

/// Every configured project is told of, in order, with its settings; with its slots
/// exactly where the server knows it.
pub proof fn every_project_is_told_of(config: Config, projects: ProjectsView, i: int)
    requires
        0 <= i < config.projects@.len(),
    ensures
        summaries(config, projects).len() == config.projects@.len(),
        ({
            let told = summaries(config, projects)[i];
            let project = config.projects@[i];
            &&& told.name == project.name@
            &&& told.repo_url == project.repo_url@
            &&& project.branch matches Some(branch) ==> told.branch == branch@
            &&& project.branch is None ==> told.branch == "main"@
            &&& (forall|k: int|
                0 <= k < projects.len() ==> (#[trigger] projects[k]).0 != project.name@)
                ==> told.slots is None
            &&& forall|k: int|
                0 <= k < projects.len() && (#[trigger] projects[k]).0 == project.name@ && (forall|
                    m: int,
                |
                    0 <= m < k ==> (#[trigger] projects[m]).0 != project.name@) ==> told.slots
                    == Some(projects[k].1)
        }),
{
    let name = config.projects@[i].name@;
    lemma_first_where(projects, named(name));
    assert forall|k: int|
        0 <= k < projects.len() && (#[trigger] projects[k]).0 == name && (forall|m: int|
            0 <= m < k ==> (#[trigger] projects[m]).0 != name) implies project_index(projects, name)
        == Some(k) by {
        assert forall|m: int| 0 <= m < k implies !named(name)(#[trigger] projects[m]) by {}
        lemma_first_where_is(projects, named(name), k);
    }
    if let Some(k) = project_index(projects, name) {
        assert(projects[k].0 == name);
    }
}

} // verus!
