use minecraft_sourcecode_tracker::piston_meta::OpenSourceVersion;
use minecraft_sourcecode_tracker::git::CommitAction;
use minecraft_sourcecode_tracker::git::CommitEvent;
use minecraft_sourcecode_tracker::tracker::start_version_commit;
use minecraft_sourcecode_tracker::tracker::versions_to_process;

fn version(id: &str) -> OpenSourceVersion {
    OpenSourceVersion { version: id.to_string(), manifest_url: format!("https://m/{id}"), is_snapshot: false }
}

fn names(vs: &[OpenSourceVersion]) -> Vec<String> {
    vs.iter().map(|v| v.version.clone()).collect()
}

#[test]
fn unprocessed_versions_oldest_first() {
    let listed = vec![version("c"), version("b"), version("a")];
    let processed = vec!["b".to_string()];
    assert_eq!(names(&versions_to_process(&listed, &processed)), vec!["a", "c"]);
}

#[test]
fn nothing_to_do_once_all_are_processed() {
    let listed = vec![version("c"), version("b")];
    let processed = vec!["a".to_string(), "b".to_string(), "c".to_string()];
    assert!(versions_to_process(&listed, &processed).is_empty());
}

#[test]
fn everything_to_do_on_an_empty_repository() {
    let listed = vec![version("26.1-snapshot-2"), version("26.1-snapshot-1")];
    let out = versions_to_process(&listed, &vec![]);
    assert_eq!(names(&out), vec!["26.1-snapshot-1", "26.1-snapshot-2"]);
    assert_eq!(out[0].manifest_url, "https://m/26.1-snapshot-1");
}

#[test]
fn processed_names_match_exactly() {
    let listed = vec![version("26.1"), version("26.1-pre-1")];
    let processed = vec!["26.1-pre".to_string(), "26".to_string()];
    assert_eq!(names(&versions_to_process(&listed, &processed)), vec!["26.1-pre-1", "26.1"]);
}

#[test]
fn a_version_is_committed_on_the_client_branch_tagged_with_its_name() {
    let v = OpenSourceVersion { version: "26.1-snapshot-1".to_string(), manifest_url: "u".to_string(), is_snapshot: true };
    let (mut c, first) = start_version_commit(&v, "/tmp/working");
    assert_eq!(c.branch, "client");
    assert_eq!(c.tag, Some("26.1-snapshot-1".to_string()));
    assert_eq!(c.message, "Processed minecraft snapshot version 26.1-snapshot-1");
    match first {
        CommitAction::StageDirectory { directory } => assert_eq!(directory, "/tmp/working"),
        other => panic!("unexpected {:?}", other),
    }
    c.step(CommitEvent::Staged);
    c.step(CommitEvent::Parent(Some("r".to_string())));
    c.step(CommitEvent::Committed("c".to_string()));
    match c.step(CommitEvent::HeadName(Some("client".to_string()))) {
        CommitAction::CreateTag { name, .. } => assert_eq!(name, "26.1-snapshot-1"),
        other => panic!("unexpected {:?}", other),
    }
}

#[test]
fn a_second_round_after_tagging_does_nothing() {
    let listed = vec![version("c"), version("b"), version("a")];
    let processed = vec!["b".to_string()];
    let first = versions_to_process(&listed, &processed);
    let mut tags = processed.clone();
    tags.extend(first.iter().map(|v| v.version.clone()));
    assert!(versions_to_process(&listed, &tags).is_empty());
}
