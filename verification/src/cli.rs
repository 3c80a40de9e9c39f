//! The operations of the command-line tool and what it reports of them.

use vstd::prelude::*;

use crate::path::is_absolute;
use crate::path::joined;
use crate::path::lemma_joined_under_base;
use crate::path::resolve_from_project;

verus! {

/// Lists the operations supported by the command-line interface.
#[derive(Clone, Copy, Debug, PartialEq, Eq, Structural)]
pub enum Command {
    /// Renders configured README files into the output directory.
    Build,
    /// Creates a compressed pages artifact.
    Artifact,
    /// Creates a compressed artifact for deployment by GitHub Pages Actions.
    Deploy,
    /// Creates the default GitHub Pages artifact in the project directory.
    PublishGithubPages,
}

/// The stable name of each operation, used in failure summaries.
pub open spec fn command_label(command: Command) -> Seq<char> {
    match command {
        Command::Build => "build"@,
        Command::Artifact => "artifact"@,
        Command::Deploy => "deploy"@,
        Command::PublishGithubPages => "publish-github-pages"@,
    }
}

/// Returns the stable name used in failure summaries.
pub fn command_name(command: &Command) -> (name: &'static str)
    ensures
        name@ == command_label(*command),
{
    match command {
        Command::Build => "build",
        Command::Artifact => "artifact",
        Command::Deploy => "deploy",
        Command::PublishGithubPages => "publish-github-pages",
    }
}

/// The final summary of a successful operation; `location` is the built
/// site for `build` and the artifact for `artifact` and `deploy`.
pub open spec fn summary_text(command: Command, location: Seq<char>) -> Seq<char> {
    match command {
        Command::Build => "built site at "@ + location,
        Command::Artifact => "created artifact at "@ + location,
        Command::Deploy => "prepared deploy artifact at "@ + location,
        Command::PublishGithubPages => "published pages-artifact.tar.gz"@,
    }
}

/// Returns the final user-facing summary of a successful operation.
pub fn success_summary(command: &Command, location: &str) -> (summary: String)
    ensures
        summary@ == summary_text(*command, location@),
{
    match command {
        Command::Build => {
            let mut s = "built site at ".to_owned();
            s.append(location);
            s
        },
        Command::Artifact => {
            let mut s = "created artifact at ".to_owned();
            s.append(location);
            s
        },
        Command::Deploy => {
            let mut s = "prepared deploy artifact at ".to_owned();
            s.append(location);
            s
        },
        Command::PublishGithubPages => "published pages-artifact.tar.gz".to_owned(),
    }
}

/// The pages directory an operation works on: `build` writes the site to
/// the output resolved from the project; the artifact operations archive
/// the output as given, relative to the working directory.
pub open spec fn pages_path(command: Command, project: Seq<char>, output: Seq<char>) -> Seq<char> {
    match command {
        Command::Build => joined(project, output),
        _ => output,
    }
}

/// Returns the pages directory that `command` works on.
pub fn pages_location(command: &Command, project: &str, output: &str) -> (pages: String)
    requires
        is_absolute(project@),
    ensures
        pages@ == pages_path(*command, project@, output@),
{
    match command {
        Command::Build => resolve_from_project(project, output),
        _ => output.to_owned(),
    }
}

/// The artifact an operation writes: the requested artifact resolved from
/// the project for `artifact` and `deploy`, `pages-artifact.tar.gz` in the
/// working directory for `publish-github-pages`, and none for `build`.
pub open spec fn artifact_path(command: Command, project: Seq<char>, artifact: Seq<char>) -> Option<
    Seq<char>,
> {
    match command {
        Command::Build => None,
        Command::Artifact => Some(joined(project, artifact)),
        Command::Deploy => Some(joined(project, artifact)),
        Command::PublishGithubPages => Some("pages-artifact.tar.gz"@),
    }
}

/// Returns the artifact that `command` writes, if any.
pub fn artifact_location(command: &Command, project: &str, artifact: &str) -> (target: Option<
    String,
>)
    requires
        is_absolute(project@),
    ensures
        match target {
            Some(t) => artifact_path(*command, project@, artifact@) == Some(t@),
            None => artifact_path(*command, project@, artifact@) is None,
        },
{
    match command {
        Command::Build => None,
        Command::Artifact => Some(resolve_from_project(project, artifact)),
        Command::Deploy => Some(resolve_from_project(project, artifact)),
        Command::PublishGithubPages => Some("pages-artifact.tar.gz".to_owned()),
    }
}

/// `deploy` writes its artifact where `artifact` does: the requested path
/// resolved from the project. Under an absolute project the artifact path
/// is absolute, and a relative request lies under the project and ends with
/// the request; `publish-github-pages` always writes
/// `pages-artifact.tar.gz`, and `build` writes none.
pub proof fn lemma_artifact_paths(project: Seq<char>, artifact: Seq<char>)
    requires
        is_absolute(project),
    ensures
        artifact_path(Command::Deploy, project, artifact) == artifact_path(
            Command::Artifact,
            project,
            artifact,
        ),
        artifact_path(Command::Deploy, project, artifact) matches Some(t) && is_absolute(t) && (
        !is_absolute(artifact) ==> t.len() >= project.len() + artifact.len() && t.subrange(
            0,
            project.len() as int,
        ) == project && t.subrange(t.len() - artifact.len(), t.len() as int) == artifact),
        artifact_path(Command::PublishGithubPages, project, artifact) == Some(
            "pages-artifact.tar.gz"@,
        ),
        artifact_path(Command::Build, project, artifact) is None,
{
    let t = joined(project, artifact);
    if !is_absolute(artifact) {
        lemma_joined_under_base(project, artifact);
        assert(t[0] == t.subrange(0, project.len() as int)[0]);
        if project.last() != '/' {
            assert(t == project + seq!['/'] + artifact);
        } else {
            assert(t == project + artifact);
        }
        assert(t.subrange(t.len() - artifact.len(), t.len() as int) =~= artifact);
    }
}

/// `build` works on the output resolved from the project, which under an
/// absolute project is absolute and, when relative, lies under the project;
/// the artifact operations archive the output exactly as given.
pub proof fn lemma_pages_paths(project: Seq<char>, output: Seq<char>)
    requires
        is_absolute(project),
    ensures
        is_absolute(pages_path(Command::Build, project, output)),
        !is_absolute(output) ==> pages_path(Command::Build, project, output).len() >= project.len()
            && pages_path(Command::Build, project, output).subrange(0, project.len() as int)
            == project,
        is_absolute(output) ==> pages_path(Command::Build, project, output) == output,
        pages_path(Command::Artifact, project, output) == output,
        pages_path(Command::Deploy, project, output) == output,
        pages_path(Command::PublishGithubPages, project, output) == output,
{
    let t = joined(project, output);
    if !is_absolute(output) {
        lemma_joined_under_base(project, output);
        assert(t[0] == t.subrange(0, project.len() as int)[0]);
    }
}

} // verus!
