use writeme::converter::{Contributor, ConverterOutput, Repository, RepositoryPlatform};
use writeme::history::{
    rank_contributors, same_author, CommitAuthor, GitAction, GitEvent, GitFailure, GitPhase,
    GitScan,
};
use writeme::scanner::scan_git;

fn author(name: &str, email: &str) -> CommitAuthor {
    CommitAuthor { name: name.to_string(), email: email.to_string() }
}

fn contributor(name: &str, email: &str) -> Contributor {
    Contributor { name: Some(name.to_string()), email: Some(email.to_string()), url: None }
}

fn commit(name: &str, email: &str) -> GitEvent {
    GitEvent::Commit { name: Some(name.to_string()), email: Some(email.to_string()) }
}

#[test]
fn ranks_by_commit_count() {
    let log = vec![author("Alice", "a@x"), author("Bob", "b@x"), author("Alice", "a@x")];
    assert_eq!(rank_contributors(&log), vec![contributor("Alice", "a@x"), contributor("Bob", "b@x")]);
}

#[test]
fn later_author_with_more_commits_comes_first() {
    let log = vec![
        author("Bob", "b@x"),
        author("Alice", "a@x"),
        author("Alice", "a@x"),
        author("Carol", "c@x"),
        author("Carol", "c@x"),
        author("Carol", "c@x"),
    ];
    assert_eq!(
        rank_contributors(&log),
        vec![contributor("Carol", "c@x"), contributor("Alice", "a@x"), contributor("Bob", "b@x")]
    );
}

#[test]
fn ties_keep_order_of_first_appearance() {
    let log = vec![
        author("Dan", "d@x"),
        author("Bob", "b@x"),
        author("Alice", "a@x"),
        author("Bob", "b@x"),
        author("Dan", "d@x"),
        author("Alice", "a@x"),
    ];
    assert_eq!(
        rank_contributors(&log),
        vec![contributor("Dan", "d@x"), contributor("Bob", "b@x"), contributor("Alice", "a@x")]
    );
}

#[test]
fn identity_is_name_and_email_exactly() {
    let log = vec![
        author("Alice", "a@x"),
        author("alice", "a@x"),
        author("Alice", "A@x"),
        author("Alice", "a@x"),
    ];
    assert_eq!(
        rank_contributors(&log),
        vec![contributor("Alice", "a@x"), contributor("alice", "a@x"), contributor("Alice", "A@x")]
    );
    assert!(same_author(&author("Alice", "a@x"), &author("Alice", "a@x")));
    assert!(!same_author(&author("Alice", "a@x"), &author("Alice", "b@x")));
    assert!(!same_author(&author("Alice", "a@x"), &author("Alicia", "a@x")));
}

#[test]
fn empty_history_has_no_contributors() {
    assert_eq!(rank_contributors(&vec![]), vec![]);
}

#[test]
fn ranking_is_reproducible() {
    let log = vec![author("B", "b"), author("A", "a"), author("B", "b"), author("C", "c")];
    assert_eq!(rank_contributors(&log), rank_contributors(&log.clone()));
}

#[test]
fn github_remote_short_circuits() {
    let events = vec![
        GitEvent::Remote("https://github.com/owner/project.git".to_string()),
        commit("Alice", "a@x"),
        commit("Bob", "b@x"),
        GitEvent::End,
    ];
    let record = scan_git("/work/project/", &events);
    assert_eq!(record.source_config_file_path, Some("/work/project/.git".to_string()));
    assert_eq!(
        record.repository,
        Some(Repository {
            url: "https://github.com/owner/project.git".to_string(),
            platform: RepositoryPlatform::Github,
            name: Some("project".to_string()),
        })
    );
    assert_eq!(record.name, Some("project".to_string()));
    assert_eq!(record.contributors, None);
}

#[test]
fn github_remote_ends_the_scan_at_once() {
    let mut scan = GitScan::new("repo/");
    assert_eq!(scan.next(), GitAction::ResolveRemote);
    let action = scan.advance(&GitEvent::Remote("git@github.com:owner/project.git".to_string()));
    assert_eq!(action, GitAction::Finish);
    assert_eq!(scan.phase, GitPhase::Done);
    assert_eq!(scan.advance(&commit("Alice", "a@x")), GitAction::Finish);
    assert_eq!(scan.finish().contributors, None);
}

#[test]
fn other_remote_walks_history() {
    let events = vec![
        GitEvent::Remote("https://gitlab.com/owner/tool".to_string()),
        commit("Alice", "a@x"),
        commit("Bob", "b@x"),
        commit("Alice", "a@x"),
        GitEvent::End,
    ];
    let record = scan_git("tool/", &events);
    assert_eq!(record.source_config_file_path, Some("tool/.git".to_string()));
    assert_eq!(record.name, Some("tool".to_string()));
    assert_eq!(record.repository.unwrap().platform, RepositoryPlatform::Gitlab);
    assert_eq!(
        record.contributors,
        Some(vec![contributor("Alice", "a@x"), contributor("Bob", "b@x")])
    );
    assert_eq!(record.description, None);
    assert_eq!(record.version, None);
    assert_eq!(record.license, None);
    assert_eq!(record.dependencies, None);
}

#[test]
fn walk_is_driven_step_by_step() {
    let mut scan = GitScan::new("tool");
    assert_eq!(scan.phase, GitPhase::Opening);
    assert_eq!(
        scan.advance(&GitEvent::Remote("https://example.org/owner/tool.git".to_string())),
        GitAction::ReadCommit
    );
    assert_eq!(scan.advance(&commit("Alice", "a@x")), GitAction::ReadCommit);
    assert_eq!(scan.authors, vec![author("Alice", "a@x")]);
    assert_eq!(scan.advance(&GitEvent::End), GitAction::Finish);
    let record = scan.finish();
    assert_eq!(record.source_config_file_path, Some("tool.git".to_string()));
    assert_eq!(record.contributors, Some(vec![contributor("Alice", "a@x")]));
}

#[test]
fn open_failure_leaves_only_the_source() {
    let record = scan_git("nowhere/", &vec![GitEvent::Failed(GitFailure::Open)]);
    let mut expected = ConverterOutput::empty();
    expected.source_config_file_path = Some("nowhere/.git".to_string());
    assert_eq!(record, expected);
}

#[test]
fn missing_remote_ends_the_scan() {
    let events = vec![GitEvent::Failed(GitFailure::Remote), commit("Alice", "a@x"), GitEvent::End];
    let record = scan_git("p/", &events);
    assert_eq!(record.repository, None);
    assert_eq!(record.name, None);
    assert_eq!(record.contributors, None);
}

#[test]
fn head_failure_keeps_repository_without_contributors() {
    let events = vec![
        GitEvent::Remote("https://bitbucket.org/owner/app.git".to_string()),
        GitEvent::Failed(GitFailure::Head),
        commit("Alice", "a@x"),
        GitEvent::End,
    ];
    let record = scan_git("app/", &events);
    assert_eq!(record.name, Some("app".to_string()));
    assert_eq!(record.repository.unwrap().platform, RepositoryPlatform::Bitbucket);
    assert_eq!(record.contributors, None);
}

#[test]
fn commit_read_failure_drops_contributors() {
    let events = vec![
        GitEvent::Remote("https://example.org/owner/app.git".to_string()),
        commit("Alice", "a@x"),
        GitEvent::Failed(GitFailure::Commit),
        commit("Bob", "b@x"),
        GitEvent::End,
    ];
    let record = scan_git("app/", &events);
    assert_eq!(record.name, Some("app".to_string()));
    assert_eq!(record.contributors, None);
}

#[test]
fn missing_author_field_keeps_partial_list() {
    let events = vec![
        GitEvent::Remote("https://example.org/owner/app.git".to_string()),
        commit("Alice", "a@x"),
        commit("Bob", "b@x"),
        commit("Bob", "b@x"),
        GitEvent::Commit { name: None, email: Some("c@x".to_string()) },
        commit("Alice", "a@x"),
        commit("Alice", "a@x"),
        GitEvent::End,
    ];
    let record = scan_git("app/", &events);
    assert_eq!(
        record.contributors,
        Some(vec![contributor("Bob", "b@x"), contributor("Alice", "a@x")])
    );
}

#[test]
fn missing_email_closes_the_walk() {
    let mut scan = GitScan::new("app/");
    scan.advance(&GitEvent::Remote("https://example.org/o/app".to_string()));
    let action = scan.advance(&GitEvent::Commit { name: Some("Al".to_string()), email: None });
    assert_eq!(action, GitAction::Finish);
    assert_eq!(scan.finish().contributors, Some(vec![]));
}

#[test]
fn unexpected_events_change_nothing() {
    let mut scan = GitScan::new("app/");
    assert_eq!(scan.advance(&commit("Alice", "a@x")), GitAction::ResolveRemote);
    assert_eq!(scan.advance(&GitEvent::End), GitAction::ResolveRemote);
    assert_eq!(scan.authors, vec![]);
    scan.advance(&GitEvent::Remote("https://example.org/o/app".to_string()));
    assert_eq!(
        scan.advance(&GitEvent::Remote("https://github.com/o/other".to_string())),
        GitAction::ReadCommit
    );
    let record = scan.finish();
    assert_eq!(record.name, Some("app".to_string()));
    assert_eq!(record.contributors, None);
}

#[test]
fn unfinished_walk_has_no_contributors_yet() {
    let events =
        vec![GitEvent::Remote("https://example.org/o/app".to_string()), commit("Alice", "a@x")];
    assert_eq!(scan_git("app/", &events).contributors, None);
}

#[test]
fn failures_have_warnings() {
    assert_eq!(GitFailure::Open.warning(), "Failed to open repository: {}");
    assert_eq!(GitFailure::Remote.warning(), "Failed to find the origin remote: {}");
    assert_eq!(GitFailure::Head.warning(), "Failed to get repository head: {}");
    assert_eq!(GitFailure::Peel.warning(), "Failed to peel to commit of the repository: {}");
    assert_eq!(GitFailure::Revwalk.warning(), "Failed to get revwalk of the repository: {}");
    assert_eq!(GitFailure::Oid.warning(), "Failed to get oid of the repository: {}");
    assert_eq!(GitFailure::Commit.warning(), "Failed to find commit: {}");
}

#[test]
fn events_can_be_copied() {
    let event = commit("Alice", "a@x");
    assert_eq!(event.clone(), event);
    let remote = GitEvent::Remote("u".to_string());
    assert_eq!(remote.clone(), remote);
    assert_eq!(author("A", "a").clone(), author("A", "a"));
}
