//! The configuration: which projects there are, and how large their pools are.
use crate::error::{ErrorView, Result, ServerError};
use vstd::prelude::*;
use vstd::string::*;

verus! {

/// An ordered sequence of shell-style commands to execute during the build step.
///
/// Each entry is split on whitespace into program + arguments and executed directly
/// (no shell involved). Steps are run in order; the first failure aborts the build.
#[derive(Debug, Clone)]
pub struct Steps(pub Vec<String>);

pub const DEFAULT_SLOT_SIZE: u32 = 2;

/// 30 minutes
pub const DEFAULT_REFRESH_INTERVAL_SECS: u64 = 1800;

#[derive(Debug, Clone)]
pub struct Config {
    pub nslots: Option<u32>,
    pub refresh_interval_secs: Option<u64>,
    pub projects: Vec<ProjectConfig>,
}

#[derive(Debug, Clone)]
pub struct ProjectConfig {
    pub name: String,
    pub repo_url: String,
    pub build_command: Option<Steps>,
    pub branch: Option<String>,
    pub nslots: Option<u32>,
    pub has_submodules: bool,
}

impl ProjectConfig {
    pub open spec fn spec_effective_branch(self) -> Seq<char> {
        match self.branch {
            Some(b) => b@,
            None => "main"@,
        }
    }

    /// The commands that build the project, in order.
    pub open spec fn spec_build_steps(self) -> Seq<Seq<char>> {
        match self.build_command {
            Some(steps) => crate::text::views(steps.0@),
            None => Seq::empty(),
        }
    }

    /// The branch to check out: the configured one, else `main`.
    #[must_use]
    pub fn effective_branch(&self) -> (r: &str)
        ensures
            r@ == self.spec_effective_branch(),
    {
        match &self.branch {
            Some(b) => b.as_str(),
            None => "main",
        }
    }

    /// The number of commands that build the project.
    pub fn build_step_count(&self) -> (r: usize)
        ensures
            r == self.spec_build_steps().len(),
    {
        match &self.build_command {
            Some(steps) => steps.0.len(),
            None => 0,
        }
    }

    /// The command of one build step.
    pub fn build_step(&self, i: usize) -> (r: &String)
        requires
            i < self.spec_build_steps().len(),
        ensures
            r@ == self.spec_build_steps()[i as int],
    {
        match &self.build_command {
            Some(steps) => &steps.0[i],
            None => &self.name,
        }
    }
}

impl Config {
    /// The size of a project's pool.
    pub open spec fn spec_nslots(self, project: ProjectConfig) -> u32 {
        match project.nslots {
            Some(n) => n,
            None => match self.nslots {
                Some(n) => n,
                None => DEFAULT_SLOT_SIZE,
            },
        }
    }

    pub open spec fn spec_refresh_interval(self) -> u64 {
        match self.refresh_interval_secs {
            Some(n) => n,
            None => DEFAULT_REFRESH_INTERVAL_SECS,
        }
    }

    /// The size of a project's pool: the project's own setting, else the global
    /// one, else the default.
    #[must_use]
    pub fn nslots(&self, project: &ProjectConfig) -> (r: u32)
        ensures
            r == self.spec_nslots(*project),
    {
        match project.nslots {
            Some(n) => n,
            None => match self.nslots {
                Some(n) => n,
                None => DEFAULT_SLOT_SIZE,
            },
        }
    }

    /// How many seconds may pass between two refreshes of a slot.
    #[must_use]
    pub fn effective_refresh_interval(&self) -> (r: u64)
        ensures
            r == self.spec_refresh_interval(),
    {
        match self.refresh_interval_secs {
            Some(n) => n,
            None => DEFAULT_REFRESH_INTERVAL_SECS,
        }
    }
}

impl Default for Config {
    /// No projects, and nothing set.
    fn default() -> (r: Config)
        ensures
            r.nslots is None,
            r.refresh_interval_secs is None,
            r.projects@.len() == 0,
    {
        Config { nslots: None, refresh_interval_secs: None, projects: Vec::new() }
    }
}

/// What is wrong with the configuration of a project.
pub open spec fn project_fault(project: ProjectConfig) -> Option<ErrorView> {
    if project.name@.len() == 0 {
        Some(ErrorView::Config("project name is required"@))
    } else if project.repo_url@.len() == 0 {
        Some(
            ErrorView::Config("repo_url is required for project '"@ + project.name@ + "'"@),
        )
    } else {
        None
    }
}

/// What is wrong with a configuration: the fault of its first faulty project.
pub open spec fn config_fault(projects: Seq<ProjectConfig>) -> Option<ErrorView>
    decreases projects.len(),
{
    if projects.len() == 0 {
        None
    } else {
        match project_fault(projects[0]) {
            Some(e) => Some(e),
            None => config_fault(projects.drop_first()),
        }
    }
}

/// Whether a result is an error with the given view, or a success where there is none.
pub open spec fn reports(r: Result<()>, fault: Option<ErrorView>) -> bool {
    match fault {
        Some(e) => r matches Err(got) && got@ == e,
        None => r is Ok,
    }
}

/// Checks that a project has a name and a repository.
pub fn validate_project(project: &ProjectConfig) -> (r: Result<()>)
    ensures
        reports(r, project_fault(*project)),
{
    if project.name.as_str().is_empty() {
        return Err(ServerError::Config("project name is required".to_owned()));
    }
    if project.repo_url.as_str().is_empty() {
        let mut m = "repo_url is required for project '".to_owned();
        m.append(project.name.as_str());
        m.append("'");
        return Err(ServerError::Config(m));
    }
    Ok(())
}

/// Checks every project of a configuration, in order.
pub fn validate_config(config: &Config) -> (r: Result<()>)
    ensures
        reports(r, config_fault(config.projects@)),
{
    let mut i: usize = 0;
    assert(config.projects@.skip(0) =~= config.projects@);
    while i < config.projects.len()
        invariant
            i <= config.projects.len(),
            config_fault(config.projects@) == config_fault(config.projects@.skip(i as int)),
        decreases config.projects.len() - i,
    {
        let ghost rest = config.projects@.skip(i as int);
        assert(rest[0] == config.projects@[i as int]);
        assert(rest.drop_first() =~= config.projects@.skip(i + 1));
        match validate_project(&config.projects[i]) {
            Err(e) => return Err(e),
            Ok(()) => {},
        }
        i = i + 1;
    }
    Ok(())
}

/// A configuration is accepted exactly where every project has a name and a
/// repository.
pub proof fn accepted_config_has_no_fault(projects: Seq<ProjectConfig>)
    ensures
        config_fault(projects) is None <==> (forall|i: int|
            0 <= i < projects.len() ==> (#[trigger] projects[i]).name@.len() > 0
                && projects[i].repo_url@.len() > 0),
    decreases projects.len(),
{
    if projects.len() > 0 {
        let rest = projects.drop_first();
        accepted_config_has_no_fault(rest);
        assert(forall|i: int| 0 <= i < rest.len() ==> rest[i] == projects[i + 1]);
        if project_fault(projects[0]) is None {
            if config_fault(rest) is None {
                assert forall|i: int| 0 <= i < projects.len() implies (
                #[trigger] projects[i]).name@.len() > 0 && projects[i].repo_url@.len() > 0 by {
                    if i > 0 {
                        assert(rest[i - 1] == projects[i]);
                    }
                }
            } else {
                let j = choose|j: int|
                    0 <= j < rest.len() && !((#[trigger] rest[j]).name@.len() > 0
                        && rest[j].repo_url@.len() > 0);
                assert(projects[j + 1] == rest[j]);
            }
        } else {
            assert(projects[0].name@.len() == 0 || projects[0].repo_url@.len() == 0);
        }
    }
}

/// What is reported of a configuration is the fault of its first faulty project: that
/// its name is missing, else its repository.
pub proof fn the_first_fault_is_reported(projects: Seq<ProjectConfig>, i: int)
    requires
        0 <= i < projects.len(),
        projects[i].name@.len() == 0 || projects[i].repo_url@.len() == 0,
        forall|m: int|
            0 <= m < i ==> (#[trigger] projects[m]).name@.len() > 0 && projects[m].repo_url@.len()
                > 0,
    ensures
        config_fault(projects) == Some(
            if projects[i].name@.len() == 0 {
                ErrorView::Config("project name is required"@)
            } else {
                ErrorView::Config(
                    "repo_url is required for project '"@ + projects[i].name@ + "'"@,
                )
            },
        ),
    decreases projects.len(),
{
    if i > 0 {
        let rest = projects.drop_first();
        assert(rest[i - 1] == projects[i]);
        assert(projects[0].name@.len() > 0);
        assert forall|m: int| 0 <= m < i - 1 implies (#[trigger] rest[m]).name@.len() > 0
            && rest[m].repo_url@.len() > 0 by {
            assert(rest[m] == projects[m + 1]);
        }
        the_first_fault_is_reported(rest, i - 1);
    }
}

} // verus!
