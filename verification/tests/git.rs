use minecraft_sourcecode_tracker::git::committer_email;
use minecraft_sourcecode_tracker::git::fetch_refspec;
use minecraft_sourcecode_tracker::git::head_is_branch;
use minecraft_sourcecode_tracker::git::index_entry_action;
use minecraft_sourcecode_tracker::git::local_branch_ref;
use minecraft_sourcecode_tracker::git::push_refspecs;
use minecraft_sourcecode_tracker::git::push_rejection_message;
use minecraft_sourcecode_tracker::git::remote_tracking_ref;
use minecraft_sourcecode_tracker::git::tag_message;
use minecraft_sourcecode_tracker::git::tags_from_refs;
use minecraft_sourcecode_tracker::git::BranchFetch;
use minecraft_sourcecode_tracker::git::CommitAction;
use minecraft_sourcecode_tracker::git::CommitEvent;
use minecraft_sourcecode_tracker::git::CredentialAttempts;
use minecraft_sourcecode_tracker::git::FetchAction;
use minecraft_sourcecode_tracker::git::FetchEvent;
use minecraft_sourcecode_tracker::git::IndexEntryAction;
use minecraft_sourcecode_tracker::git::PushReport;
use minecraft_sourcecode_tracker::git::VersionCommit;

fn s(x: &str) -> String {
    x.to_string()
}

#[test]
fn email_defaults_to_the_noreply_address() {
    assert_eq!(committer_email("steve", None), "steve@users.noreply.github.com");
    assert_eq!(committer_email("steve", Some(s("steve@example.org"))), "steve@example.org");
}

#[test]
fn credentials_are_given_three_times() {
    let mut a = CredentialAttempts::new();
    assert!(a.next_attempt());
    assert!(a.next_attempt());
    assert!(a.next_attempt());
    assert!(!a.next_attempt());
    assert!(!a.next_attempt());
    assert_eq!(a.count, 5);
}

#[test]
fn reference_names() {
    assert_eq!(local_branch_ref("client"), "refs/heads/client");
    assert_eq!(remote_tracking_ref("client"), "refs/remotes/origin/client");
    assert_eq!(fetch_refspec("client"), "refs/heads/client:refs/remotes/origin/client");
}

#[test]
fn push_refspecs_with_and_without_tag() {
    assert_eq!(push_refspecs("client", None), vec!["refs/heads/client:refs/heads/client"]);
    assert_eq!(
        push_refspecs("client", Some("26.1")),
        vec!["refs/heads/client:refs/heads/client", "refs/tags/26.1:refs/tags/26.1"]
    );
}

#[test]
fn messages() {
    assert_eq!(tag_message("0123abcd"), "Tag for commit 0123abcd");
    assert_eq!(push_rejection_message("refs/heads/client", "non-fast-forward"), "Push rejected for refs/heads/client: non-fast-forward");
}

#[test]
fn head_on_branch() {
    assert!(head_is_branch(Some("client"), "client"));
    assert!(!head_is_branch(Some("main"), "client"));
    assert!(!head_is_branch(None, "client"));
}

#[test]
fn summary_is_never_indexed() {
    let root: Vec<String> = vec![];
    assert_eq!(index_entry_action(&root, "summary.txt", false, true), IndexEntryAction::Skip);
    assert_eq!(index_entry_action(&root, "summary.txt", true, false), IndexEntryAction::Skip);
    assert_eq!(index_entry_action(&vec![s("net")], "summary.txt", false, true), IndexEntryAction::Skip);
    assert_eq!(index_entry_action(&root, "link", false, false), IndexEntryAction::Skip);
}

#[test]
fn index_paths_are_relative_to_the_committed_directory() {
    let root: Vec<String> = vec![];
    assert_eq!(index_entry_action(&root, "A.java", false, true), IndexEntryAction::Add(s("A.java")));
    assert_eq!(index_entry_action(&root, "net", true, false), IndexEntryAction::Descend(vec![s("net")]));
    let net = vec![s("net")];
    assert_eq!(index_entry_action(&net, "B.java", false, true), IndexEntryAction::Add(s("net/B.java")));
    assert_eq!(
        index_entry_action(&net, "minecraft", true, false),
        IndexEntryAction::Descend(vec![s("net"), s("minecraft")])
    );
    let deep = vec![s("net"), s("minecraft"), s("client")];
    assert_eq!(index_entry_action(&deep, "Main.java", false, true), IndexEntryAction::Add(s("net/minecraft/client/Main.java")));
}

#[test]
fn remote_tags_from_listed_refs() {
    let refs = vec![
        s("HEAD"),
        s("refs/heads/client"),
        s("refs/tags/26.1-snapshot-1"),
        s("refs/tags/26.1-snapshot-1^{}"),
        s("refs/tags/26.1"),
        s("refs/tags/26.1^{}"),
        s("refs/tags/refs/tags/odd"),
    ];
    assert_eq!(tags_from_refs(&refs), vec!["26.1-snapshot-1", "26.1", "refs/tags/odd"]);
    assert!(tags_from_refs(&vec![s("refs/heads/client")]).is_empty());
    assert_eq!(tags_from_refs(&vec![s("refs/tags/"), s("refs/tagsx")]), vec![""]);
}

#[test]
fn fetch_of_a_branch_missing_on_the_remote() {
    let (mut f, first) = BranchFetch::new("client");
    match first {
        FetchAction::Fetch { refspec } => assert_eq!(refspec, "refs/heads/client:refs/remotes/origin/client"),
        other => panic!("unexpected {:?}", other),
    }
    assert!(matches!(f.step(FetchEvent::BranchNotOnRemote), FetchAction::Finish));
}

#[test]
fn fetch_without_remote_tracking_reference() {
    let (mut f, _) = BranchFetch::new("client");
    match f.step(FetchEvent::Fetched) {
        FetchAction::FindRemoteRef { name } => assert_eq!(name, "refs/remotes/origin/client"),
        other => panic!("unexpected {:?}", other),
    }
    assert!(matches!(f.step(FetchEvent::RemoteRef(None)), FetchAction::Finish));
}

#[test]
fn fetch_checks_out_the_branch_when_head_is_elsewhere() {
    let (mut f, _) = BranchFetch::new("client");
    f.step(FetchEvent::Fetched);
    assert!(matches!(f.step(FetchEvent::RemoteRef(Some(s("abc")))), FetchAction::ReadHeadName));
    match f.step(FetchEvent::HeadName(None)) {
        FetchAction::CheckoutBranch { branch, commit, reference } => {
            assert_eq!(branch, "client");
            assert_eq!(commit, "abc");
            assert_eq!(reference, "refs/heads/client");
        },
        other => panic!("unexpected {:?}", other),
    }
    assert!(matches!(f.step(FetchEvent::HeadCommit(s("abc"))), FetchAction::Wait));
}

#[test]
fn fetch_resets_head_behind_the_remote() {
    let (mut f, _) = BranchFetch::new("client");
    f.step(FetchEvent::Fetched);
    f.step(FetchEvent::RemoteRef(Some(s("abc"))));
    assert!(matches!(f.step(FetchEvent::HeadName(Some(s("client")))), FetchAction::ReadHeadCommit));
    match f.step(FetchEvent::HeadCommit(s("def"))) {
        FetchAction::ResetHeadSoft { commit } => assert_eq!(commit, "abc"),
        other => panic!("unexpected {:?}", other),
    }
}

#[test]
fn fetch_keeps_head_at_the_remote_commit() {
    let (mut f, _) = BranchFetch::new("client");
    f.step(FetchEvent::Fetched);
    f.step(FetchEvent::RemoteRef(Some(s("abc"))));
    f.step(FetchEvent::HeadName(Some(s("client"))));
    assert!(matches!(f.step(FetchEvent::HeadCommit(s("abc"))), FetchAction::Finish));
}

#[test]
fn commit_with_tag_on_a_new_repository() {
    let (mut c, first) = VersionCommit::new("/tmp/working", s("Processed minecraft release version 26.1"), "client", Some(s("26.1")));
    match first {
        CommitAction::StageDirectory { directory } => assert_eq!(directory, "/tmp/working"),
        other => panic!("unexpected {:?}", other),
    }
    assert!(matches!(c.step(CommitEvent::Staged), CommitAction::ReadParent));
    match c.step(CommitEvent::Parent(None)) {
        CommitAction::Commit { message, parent } => {
            assert_eq!(message, "Processed minecraft release version 26.1");
            assert_eq!(parent, None);
        },
        other => panic!("unexpected {:?}", other),
    }
    assert!(matches!(c.step(CommitEvent::Committed(s("c0ffee"))), CommitAction::ReadHeadName));
    match c.step(CommitEvent::HeadName(Some(s("master")))) {
        CommitAction::UpdateBranch { branch, commit } => {
            assert_eq!(branch, "client");
            assert_eq!(commit, "c0ffee");
        },
        other => panic!("unexpected {:?}", other),
    }
    match c.step(CommitEvent::Done) {
        CommitAction::CreateTag { name, commit, message } => {
            assert_eq!(name, "26.1");
            assert_eq!(commit, "c0ffee");
            assert_eq!(message, "Tag for commit c0ffee");
        },
        other => panic!("unexpected {:?}", other),
    }
    match c.step(CommitEvent::Done) {
        CommitAction::Push { refspecs } => {
            assert_eq!(refspecs, vec!["refs/heads/client:refs/heads/client", "refs/tags/26.1:refs/tags/26.1"]);
        },
        other => panic!("unexpected {:?}", other),
    }
    assert!(matches!(c.step(CommitEvent::Pushed(None)), CommitAction::Finish(Ok(()))));
    assert!(matches!(c.step(CommitEvent::Pushed(None)), CommitAction::Wait));
}

#[test]
fn commit_on_the_branch_without_tag() {
    let (mut c, _) = VersionCommit::new("/w", s("m"), "client", None);
    c.step(CommitEvent::Staged);
    match c.step(CommitEvent::Parent(Some(s("p1")))) {
        CommitAction::Commit { parent, .. } => assert_eq!(parent, Some(s("p1"))),
        other => panic!("unexpected {:?}", other),
    }
    c.step(CommitEvent::Committed(s("c1")));
    match c.step(CommitEvent::HeadName(Some(s("client")))) {
        CommitAction::Push { refspecs } => assert_eq!(refspecs, vec!["refs/heads/client:refs/heads/client"]),
        other => panic!("unexpected {:?}", other),
    }
    match c.step(CommitEvent::Pushed(Some(s("Push rejected for refs/heads/client: stale")))) {
        CommitAction::Finish(Err(m)) => assert_eq!(m, "Push rejected for refs/heads/client: stale"),
        other => panic!("unexpected {:?}", other),
    }
}

#[test]
fn push_report_keeps_the_last_rejection() {
    let mut r = PushReport::new();
    r.record("refs/heads/client", None);
    assert_eq!(r.rejection, None);
    r.record("refs/heads/client", Some("stale info"));
    r.record("refs/tags/26.1", None);
    assert_eq!(r.rejection, Some(s("Push rejected for refs/heads/client: stale info")));
    r.record("refs/tags/26.1", Some("already exists"));
    assert_eq!(r.rejection, Some(s("Push rejected for refs/tags/26.1: already exists")));
}
