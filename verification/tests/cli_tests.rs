//! Names and summaries of the command-line operations.

use qubit_infra_pages::cli::artifact_location;
use qubit_infra_pages::cli::command_name;
use qubit_infra_pages::cli::pages_location;
use qubit_infra_pages::cli::success_summary;
use qubit_infra_pages::cli::Command;

#[test]
fn operations_have_stable_names() {
    assert_eq!(command_name(&Command::Build), "build");
    assert_eq!(command_name(&Command::Artifact), "artifact");
    assert_eq!(command_name(&Command::Deploy), "deploy");
    assert_eq!(command_name(&Command::PublishGithubPages), "publish-github-pages");
}

#[test]
fn success_summaries_name_what_was_made() {
    assert_eq!(success_summary(&Command::Build, "/p/public"), "built site at /p/public");
    assert_eq!(success_summary(&Command::Artifact, "/p/a.tar.gz"), "created artifact at /p/a.tar.gz");
    assert_eq!(
        success_summary(&Command::Deploy, "/p/a.tar.gz"),
        "prepared deploy artifact at /p/a.tar.gz"
    );
    assert_eq!(
        success_summary(&Command::PublishGithubPages, "ignored"),
        "published pages-artifact.tar.gz"
    );
}

#[test]
fn operations_choose_their_paths() {
    assert_eq!(pages_location(&Command::Build, "/p", "public"), "/p/public");
    assert_eq!(pages_location(&Command::Artifact, "/p", "public"), "public");
    assert_eq!(pages_location(&Command::PublishGithubPages, "/p", "/abs/out"), "/abs/out");
    assert_eq!(artifact_location(&Command::Build, "/p", "a.tar.gz"), None);
    assert_eq!(artifact_location(&Command::Artifact, "/p", "a.tar.gz"), Some("/p/a.tar.gz".to_string()));
    assert_eq!(artifact_location(&Command::Deploy, "/p", "/x/a.tar.gz"), Some("/x/a.tar.gz".to_string()));
    assert_eq!(
        artifact_location(&Command::PublishGithubPages, "/p", "a.tar.gz"),
        Some("pages-artifact.tar.gz".to_string())
    );
}
