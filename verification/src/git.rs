//! The decisions of the git side of tracking: identities and credentials,
//! reference names and refspecs, which files go into a commit, the tag list
//! of the remote, and the steps of fetching a branch and of committing,
//! tagging and pushing a version.
use vstd::prelude::*;
use crate::text::ends_with;
use crate::text::has_prefix;
use crate::text::has_suffix;
use crate::text::join_with;
use crate::text::joined;
use crate::text::same_text;
use crate::text::starts_with;

verus! {

/// The name of the remote that the tracker pushes to.
pub const REMOTE_NAME: &'static str = "origin";

/// The address that stands in for a missing e-mail address.
pub open spec fn noreply_email(username: Seq<char>) -> Seq<char> {
    username + "@users.noreply.github.com"@
}

/// The e-mail address written to the repository's configuration: the one
/// given, or the user's no-reply address.
pub fn committer_email(username: &str, email: Option<String>) -> (r: String)
    ensures
        r@ == match email {
            Some(e) => e@,
            None => noreply_email(username@),
        },
{
    match email {
        Some(e) => e,
        None => {
            let mut out = String::from_str(username);
            out.append("@users.noreply.github.com");
            out
        },
    }
}

/// The no-reply address is the whole username followed by
/// `@users.noreply.github.com`: nothing of the username is dropped, so two
/// users never share an address.
pub proof fn lemma_noreply_email_keeps_username(username: Seq<char>, other: Seq<char>)
    ensures
        noreply_email(username) == username + "@users.noreply.github.com"@,
        noreply_email(username).subrange(0, username.len() as int) == username,
        noreply_email(username).skip(username.len() as int) == "@users.noreply.github.com"@,
        noreply_email(username) == noreply_email(other) ==> username == other,
{
    reveal_strlit("@users.noreply.github.com");
    let d = "@users.noreply.github.com"@;
    assert((username + d).subrange(0, username.len() as int) =~= username);
    assert((username + d).skip(username.len() as int) =~= d);
    if noreply_email(username) == noreply_email(other) {
        assert(username.len() == other.len());
        assert((other + d).subrange(0, other.len() as int) =~= other);
    }
}

/// How many times the credentials are handed out for one remote operation.
pub const MAX_CREDENTIAL_ATTEMPTS: u32 = 3;

/// Counts the credential requests of one remote operation; a remote that keeps
/// asking is refused after a few attempts instead of being asked forever.
#[derive(Debug, Clone, Copy, PartialEq, Eq)]
pub struct CredentialAttempts {
    pub count: u32,
}

impl CredentialAttempts {
    /// No request yet.
    pub fn new() -> (r: CredentialAttempts)
        ensures
            r.count == 0,
    {
        CredentialAttempts { count: 0 }
    }

    /// Records one more request, and says whether to answer it with the
    /// credentials (`true`) or to fail it.
    pub fn next_attempt(&mut self) -> (grant: bool)
        requires
            old(self).count < u32::MAX,
        ensures
            final(self).count == old(self).count + 1,
            grant == (final(self).count <= MAX_CREDENTIAL_ATTEMPTS),
    {
        self.count = self.count + 1;
        self.count <= MAX_CREDENTIAL_ATTEMPTS
    }
}

/// Whether the `n`-th request (counting from one) is answered.
pub open spec fn attempt_granted(n: nat) -> bool {
    n <= MAX_CREDENTIAL_ATTEMPTS
}

/// The credentials are handed out for the first three requests and refused
/// for every later one; so at most three are ever handed out.
pub proof fn lemma_credentials_given_at_most_three_times(n: nat)
    ensures
        attempt_granted(n) <==> n <= 3,
        Set::new(|k: nat| 1 <= k <= n && attempt_granted(k)) =~= Set::new(|k: nat| 1 <= k <= if n < 3 { n } else { 3 }),
{
}

/// `refs/heads/<branch>`.
pub open spec fn branch_ref(branch: Seq<char>) -> Seq<char> {
    "refs/heads/"@ + branch
}

/// `refs/remotes/origin/<branch>`.
pub open spec fn remote_branch_ref(branch: Seq<char>) -> Seq<char> {
    "refs/remotes/origin/"@ + branch
}

/// `refs/tags/<tag>`.
pub open spec fn tag_ref(tag: Seq<char>) -> Seq<char> {
    "refs/tags/"@ + tag
}

/// The reference of a local branch.
pub fn local_branch_ref(branch: &str) -> (r: String)
    ensures
        r@ == branch_ref(branch@),
{
    let mut out = String::from_str("refs/heads/");
    out.append(branch);
    out
}

/// The remote-tracking reference of a branch of `origin`.
pub fn remote_tracking_ref(branch: &str) -> (r: String)
    ensures
        r@ == remote_branch_ref(branch@),
{
    let mut out = String::from_str("refs/remotes/origin/");
    out.append(branch);
    out
}

fn refspec_text(source: &String, destination: &String) -> (r: String)
    ensures
        r@ == source@ + ":"@ + destination@,
{
    let mut out = source.clone();
    out.append(":");
    out.append(destination.as_str());
    out
}

/// The refspec that fetches a branch into its remote-tracking reference.
pub fn fetch_refspec(branch: &str) -> (r: String)
    ensures
        r@ == branch_ref(branch@) + ":"@ + remote_branch_ref(branch@),
{
    refspec_text(&local_branch_ref(branch), &remote_tracking_ref(branch))
}

/// The refspecs of a push: the branch onto the same branch, and, when a tag
/// was made, the tag onto the same tag.
pub open spec fn push_refspec_texts(branch: Seq<char>, tag: Option<Seq<char>>) -> Seq<Seq<char>> {
    let heads = seq![branch_ref(branch) + ":"@ + branch_ref(branch)];
    match tag {
        Some(t) => heads.push(tag_ref(t) + ":"@ + tag_ref(t)),
        None => heads,
    }
}

/// The refspecs that push a branch and, when given, a tag.
pub fn push_refspecs(branch: &str, tag: Option<&str>) -> (r: Vec<String>)
    ensures
        r@.map_values(|s: String| s@) == push_refspec_texts(branch@, match tag {
            Some(t) => Some(t@),
            None => None,
        }),
{
    let heads = local_branch_ref(branch);
    let mut specs: Vec<String> = Vec::new();
    specs.push(refspec_text(&heads, &heads));
    if let Some(t) = tag {
        let mut tags = String::from_str("refs/tags/");
        tags.append(t);
        specs.push(refspec_text(&tags, &tags));
    }
    assert(specs@.map_values(|s: String| s@) =~= push_refspec_texts(branch@, match tag {
        Some(t) => Some(t@),
        None => None,
    }));
    specs
}

/// The message of the annotated tag of a commit.
pub fn tag_message(commit_id: &str) -> (r: String)
    ensures
        r@ == "Tag for commit "@ + commit_id@,
{
    let mut out = String::from_str("Tag for commit ");
    out.append(commit_id);
    out
}

/// The error that a push reports for a reference that the remote rejected.
pub fn push_rejection_message(refname: &str, status: &str) -> (r: String)
    ensures
        r@ == "Push rejected for "@ + refname@ + ": "@ + status@,
{
    let mut out = String::from_str("Push rejected for ");
    out.append(refname);
    out.append(": ");
    out.append(status);
    out
}

/// Whether HEAD is on `branch`: its short name is known and is `branch`.
pub fn head_is_branch(head_shorthand: Option<&str>, branch: &str) -> (r: bool)
    ensures
        r == (head_shorthand matches Some(s) && s@ == branch@),
{
    match head_shorthand {
        Some(s) => same_text(s, branch),
        None => false,
    }
}


/// The file that CFR writes beside the sources; it is never committed.
pub const SUMMARY_FILE_NAME: &'static str = "summary.txt";

/// What to do with one entry of a directory that is being added to the index.
#[derive(Debug, Clone, PartialEq, Eq)]
pub enum IndexEntryAction {
    /// Leave it out.
    Skip,
    /// Add the entries of this directory, whose path below the committed
    /// directory has these components.
    Descend(Vec<String>),
    /// Add this file to the index under this path (relative to the committed
    /// directory, components separated by `/`).
    Add(String),
}

/// The abstract value of an [`IndexEntryAction`].
pub enum IndexEntryView {
    Skip,
    Descend(Seq<Seq<char>>),
    Add(Seq<char>),
}

impl View for IndexEntryAction {
    type V = IndexEntryView;

    open spec fn view(&self) -> IndexEntryView {
        match self {
            IndexEntryAction::Skip => IndexEntryView::Skip,
            IndexEntryAction::Descend(d) => IndexEntryView::Descend(d@.map_values(|c: String| c@)),
            IndexEntryAction::Add(p) => IndexEntryView::Add(p@),
        }
    }
}

/// The index path of the entry `name` of the directory whose path below the
/// committed directory has the components `dir`: the components and the name,
/// separated by `/`.
pub open spec fn index_path(dir: Seq<Seq<char>>, name: Seq<char>) -> Seq<char> {
    joined(dir.push(name), "/"@)
}

/// What happens to the entry `name` of the directory at components `dir`
/// below the committed directory: the summary file is left out whatever it
/// is; other directories are walked, other files added under their path
/// relative to the committed directory, and anything else (a symbolic link,
/// say) left out.
pub open spec fn index_entry_action_of(dir: Seq<Seq<char>>, name: Seq<char>, is_dir: bool, is_file: bool) -> IndexEntryView {
    if name == SUMMARY_FILE_NAME@ {
        IndexEntryView::Skip
    } else if is_dir {
        IndexEntryView::Descend(dir.push(name))
    } else if is_file {
        IndexEntryView::Add(index_path(dir, name))
    } else {
        IndexEntryView::Skip
    }
}

fn components_with(dir: &Vec<String>, name: &str) -> (r: Vec<String>)
    ensures
        r@.map_values(|c: String| c@) == dir@.map_values(|c: String| c@).push(name@),
{
    let mut out: Vec<String> = Vec::new();
    let mut i: usize = 0;
    while i < dir.len()
        invariant
            i <= dir@.len(),
            out@.map_values(|c: String| c@) == dir@.map_values(|c: String| c@).take(i as int),
        decreases dir@.len() - i,
    {
        let c = dir[i].clone();
        assert(c@ == dir@[i as int]@);
        let ghost before = out@.map_values(|c: String| c@);
        out.push(c);
        assert(out@.map_values(|c: String| c@) =~= before.push(dir@[i as int]@));
        assert(out@.map_values(|c: String| c@) =~= dir@.map_values(|c: String| c@).take(i + 1));
        i = i + 1;
    }
    out.push(String::from_str(name));
    assert(dir@.map_values(|c: String| c@).take(dir@.len() as int) =~= dir@.map_values(|c: String| c@));
    assert(out@.map_values(|c: String| c@) =~= dir@.map_values(|c: String| c@).push(name@));
    out
}

/// Decides what to do with the entry `file_name`, of the given type, of the
/// directory whose path below the committed directory has the components
/// `dir` (empty for the committed directory itself).
pub fn index_entry_action(dir: &Vec<String>, file_name: &str, is_dir: bool, is_file: bool) -> (r: IndexEntryAction)
    ensures
        r@ == index_entry_action_of(dir@.map_values(|c: String| c@), file_name@, is_dir, is_file),
{
    if same_text(file_name, SUMMARY_FILE_NAME) {
        IndexEntryAction::Skip
    } else if is_dir {
        IndexEntryAction::Descend(components_with(dir, file_name))
    } else if is_file {
        let components = components_with(dir, file_name);
        IndexEntryAction::Add(join_with(&components, "/"))
    } else {
        IndexEntryAction::Skip
    }
}

/// The index path of an entry of the committed directory is its name; the
/// index path of an entry of a subdirectory is the subdirectory's own index
/// path, a `/`, and the entry's name.
pub proof fn lemma_index_path_nests(dir: Seq<Seq<char>>, name: Seq<char>)
    ensures
        index_path(Seq::empty(), name) == name,
        dir.len() > 0 ==> index_path(dir, name) == index_path(dir.drop_last(), dir.last()) + "/"@ + name,
{
    crate::text::lemma_joined_push(Seq::empty(), name, "/"@);
    assert(Seq::<Seq<char>>::empty().push(name) =~= seq![name]);
    if dir.len() > 0 {
        crate::text::lemma_joined_push(dir, name, "/"@);
        let init = dir.drop_last();
        assert(init.push(dir.last()) =~= dir);
        if init.len() > 0 {
            crate::text::lemma_joined_push(init, dir.last(), "/"@);
        } else {
            crate::text::lemma_joined_push(init, dir.last(), "/"@);
            assert(init.push(dir.last()) =~= seq![dir.last()]);
        }
    }
}

/// Every other directory is walked, every other regular file added under its
/// path, and anything else left out. The summary file is never added to the
/// index, whether it is a file or a directory, and a walk that starts at the committed directory never enters
/// a directory named like it nor adds a path through one: every directory it
/// walks and every path it adds has components free of the name.
pub proof fn lemma_summary_never_indexed(dir: Seq<Seq<char>>, name: Seq<char>, is_dir: bool, is_file: bool)
    requires
        !dir.contains(SUMMARY_FILE_NAME@),
    ensures
        index_entry_action_of(dir, SUMMARY_FILE_NAME@, is_dir, is_file) == IndexEntryView::Skip,
        index_entry_action_of(dir, name, is_dir, is_file) matches IndexEntryView::Descend(d)
            ==> !d.contains(SUMMARY_FILE_NAME@) && d == dir.push(name),
        index_entry_action_of(dir, name, is_dir, is_file) matches IndexEntryView::Add(p)
            ==> !dir.push(name).contains(SUMMARY_FILE_NAME@) && p == joined(dir.push(name), "/"@),
        name != "summary.txt"@ && is_dir ==> index_entry_action_of(dir, name, is_dir, is_file)
            == IndexEntryView::Descend(dir.push(name)),
        name != "summary.txt"@ && !is_dir && is_file ==> index_entry_action_of(dir, name, is_dir, is_file)
            == IndexEntryView::Add(joined(dir.push(name), "/"@)),
        !is_dir && !is_file ==> index_entry_action_of(dir, name, is_dir, is_file) == IndexEntryView::Skip,
{
    if name != SUMMARY_FILE_NAME@ {
        assert forall|c: Seq<char>| #[trigger] dir.push(name).contains(c) implies c != SUMMARY_FILE_NAME@ by {
            let k = choose|k: int| 0 <= k < dir.push(name).len() && dir.push(name)[k] == c;
            if k < dir.len() {
                assert(dir.contains(dir[k]));
            }
        }
    }
}

/// The prefix of the references that the remote lists for its tags.
pub const TAG_REF_PREFIX: &'static str = "refs/tags/";

/// The ending of the extra entry that a remote lists for an annotated tag,
/// naming the object that the tag points to (`refs/tags/<tag>^{}`).
pub const PEELED_SUFFIX: &'static str = "^{}";

/// Whether a listed reference is a tag: it lies under `refs/tags/` and is not
/// the peeled entry of an annotated tag.
pub open spec fn is_tag_ref(name: Seq<char>) -> bool {
    has_prefix(name, TAG_REF_PREFIX@) && !has_suffix(name, PEELED_SUFFIX@)
}

/// The tag that a listed reference names, if it is a tag reference.
pub open spec fn tag_of_ref(name: Seq<char>) -> Option<Seq<char>> {
    if is_tag_ref(name) {
        Some(name.skip(TAG_REF_PREFIX@.len() as int))
    } else {
        None
    }
}

/// The tags among the references that a remote lists, in the listed order.
pub open spec fn tags_of_refs(names: Seq<Seq<char>>) -> Seq<Seq<char>> {
    names.filter_map(|n: Seq<char>| tag_of_ref(n))
}

/// The tags that a remote lists: of the listed references, those that begin
/// with `refs/tags/` and are not peeled entries (ending in `^{}`), without
/// that one leading `refs/tags/`, in the listed order.
pub fn tags_from_refs(names: &Vec<String>) -> (r: Vec<String>)
    ensures
        r@.map_values(|s: String| s@) == tags_of_refs(names@.map_values(|s: String| s@)),
{
    let ghost all = names@.map_values(|s: String| s@);
    let mut tags: Vec<String> = Vec::new();
    let mut i: usize = 0;
    while i < names.len()
        invariant
            i <= names@.len(),
            all == names@.map_values(|s: String| s@),
            tags@.map_values(|s: String| s@) == tags_of_refs(all.take(i as int)),
        decreases names@.len() - i,
    {
        let ghost before = tags@.map_values(|s: String| s@);
        assert(all.take(i + 1).drop_last() =~= all.take(i as int));
        assert(all.take(i + 1).last() == names@[i as int]@);
        let name = names[i].as_str();
        if starts_with(name, TAG_REF_PREFIX) && !ends_with(name, PEELED_SUFFIX) {
            let prefix_len = TAG_REF_PREFIX.unicode_len();
            let name_len = name.unicode_len();
            let tag = String::from_str(name.substring_char(prefix_len, name_len));
            assert(tag@ =~= all[i as int].skip(TAG_REF_PREFIX@.len() as int));
            tags.push(tag);
            assert(tags@.map_values(|s: String| s@) =~= before + seq![all[i as int].skip(TAG_REF_PREFIX@.len() as int)]);
        } else {
            assert(tags@.map_values(|s: String| s@) =~= before);
        }
        i = i + 1;
    }
    assert(all.take(names@.len() as int) =~= all);
    tags
}


/// An ending of `s` that ends in `suffix` makes `s` end in it too.
pub proof fn lemma_suffix_of_ending(s: Seq<char>, t: Seq<char>, suffix: Seq<char>)
    requires
        t.len() <= s.len(),
        t == s.skip(s.len() - t.len()),
    ensures
        has_suffix(t, suffix) ==> has_suffix(s, suffix),
{
    if has_suffix(t, suffix) {
        assert(s.subrange(s.len() - suffix.len(), s.len() as int) =~= t.subrange(t.len() - suffix.len(), t.len() as int));
    }
}

/// Every listed tag is the name of a listed tag reference (under
/// `refs/tags/`, not a peeled entry): that reference is `refs/tags/` followed
/// by the tag. No listed tag ends in `^{}`, and references that are not tags
/// contribute no tag.
pub proof fn lemma_tags_come_from_tag_refs(names: Seq<Seq<char>>)
    ensures
        forall|t: Seq<char>| #[trigger] tags_of_refs(names).contains(t) ==> exists|n: Seq<char>|
            #[trigger] names.contains(n) && is_tag_ref(n) && n == tag_ref(t),
        forall|t: Seq<char>| #[trigger] tags_of_refs(names).contains(t) ==> !has_suffix(t, PEELED_SUFFIX@),
        (forall|j: int| 0 <= j < names.len() ==> !is_tag_ref(#[trigger] names[j]))
            ==> tags_of_refs(names).len() == 0,
    decreases names.len(),
{
    reveal_strlit("refs/tags/");
    let f = |n: Seq<char>| tag_of_ref(n);
    assert forall|t: Seq<char>| #[trigger] tags_of_refs(names).contains(t) implies (exists|n: Seq<char>|
        #[trigger] names.contains(n) && is_tag_ref(n) && n == tag_ref(t))
        && !has_suffix(t, PEELED_SUFFIX@) by {
        names.lemma_filter_map_contains(f, t);
        let n = choose|n: Seq<char>| #[trigger] names.contains(n) && f(n) == Some(t);
        assert(n =~= tag_ref(t));
        lemma_suffix_of_ending(n, t, PEELED_SUFFIX@);
    }
    if names.len() > 0 {
        lemma_tags_come_from_tag_refs(names.drop_last());
        if forall|j: int| 0 <= j < names.len() ==> !is_tag_ref(#[trigger] names[j]) {
            assert forall|j: int| 0 <= j < names.drop_last().len() implies !is_tag_ref(#[trigger] names.drop_last()[j]) by {
                assert(names.drop_last()[j] == names[j]);
            }
            assert(!is_tag_ref(names.last()));
        }
    }
}


/// Every listed reference under `refs/tags/` that is not a peeled entry
/// (ending in `^{}`) gives its tag: the name without that one leading
/// `refs/tags/`, whatever its length.
pub proof fn lemma_every_tag_ref_is_listed(names: Seq<Seq<char>>)
    ensures
        forall|n: Seq<char>| #[trigger] names.contains(n) && n.len() >= 10 && n.subrange(0, 10) == "refs/tags/"@
            && !(n.len() >= 3 && n.subrange(n.len() - 3, n.len() as int) == "^{}"@)
            ==> tags_of_refs(names).contains(n.skip(10)),
    decreases names.len(),
{
    reveal_strlit("refs/tags/");
    reveal_strlit("^{}");
    if names.len() > 0 {
        let init = names.drop_last();
        lemma_every_tag_ref_is_listed(init);
        let f = |n: Seq<char>| tag_of_ref(n);
        assert(names.filter_map(f) == init.filter_map(f) + (match f(names.last()) {
            Some(t) => seq![t],
            None => Seq::<Seq<char>>::empty(),
        }));
        assert forall|n: Seq<char>| #[trigger] names.contains(n) && n.len() >= 10 && n.subrange(0, 10) == "refs/tags/"@
            && !(n.len() >= 3 && n.subrange(n.len() - 3, n.len() as int) == "^{}"@)
            implies tags_of_refs(names).contains(n.skip(10)) by {
            let k = choose|k: int| 0 <= k < names.len() && names[k] == n;
            if k == names.len() - 1 {
                assert(is_tag_ref(n));
                assert(f(n) == Some(n.skip(10)));
                let fm = names.filter_map(f);
                assert(fm[fm.len() - 1] == n.skip(10));
            } else {
                assert(init[k] == n);
                assert(init.contains(n));
                let fi = init.filter_map(f);
                let j = choose|j: int| 0 <= j < fi.len() && fi[j] == n.skip(10);
                assert(names.filter_map(f)[j] == fi[j]);
            }
        }
    }
}

/// Where the fetch of a branch stands.
#[derive(Debug)]
pub enum FetchStage {
    /// The branch is being fetched from `origin`.
    Fetching,
    /// Looking up the remote-tracking reference of the branch.
    FindingRemoteRef,
    /// The remote branch is at `remote_commit`; reading HEAD's short name.
    ReadingHead { remote_commit: String },
    /// HEAD is on the branch; reading the commit it points to.
    ComparingHead { remote_commit: String },
    /// Nothing more to do.
    Finished,
}

/// What the outside world reports back to a branch fetch. Errors of the
/// outside calls other than those listed here end the fetch with that error.
#[derive(Debug)]
pub enum FetchEvent {
    /// The fetch succeeded.
    Fetched,
    /// The fetch failed because the branch is not on the remote (yet).
    BranchNotOnRemote,
    /// The commit of the remote-tracking reference, or `None` when the
    /// reference could not be found.
    RemoteRef(Option<String>),
    /// HEAD's short name, or `None` when HEAD does not resolve or its name is
    /// not valid text.
    HeadName(Option<String>),
    /// The commit that HEAD points to.
    HeadCommit(String),
}

/// What a branch fetch asks the outside world to do next.
#[derive(Debug)]
pub enum FetchAction {
    /// Fetch from `origin` with this refspec.
    Fetch { refspec: String },
    /// Look up this reference and the commit it points to.
    FindRemoteRef { name: String },
    /// Read HEAD's short name.
    ReadHeadName,
    /// Read the commit that HEAD points to.
    ReadHeadCommit,
    /// Move HEAD (and its branch) to `commit`, keeping the index and the
    /// working tree: the fetch is then over.
    ResetHeadSoft { commit: String },
    /// Point `branch` at `commit`, overwriting it if it exists, and make
    /// `reference` the HEAD: the fetch is then over.
    CheckoutBranch { branch: String, commit: String, reference: String },
    /// The fetch is over and nothing moves.
    Finish,
    /// The event did not fit the stage: nothing to do.
    Wait,
}

/// The abstract value of a [`FetchStage`].
pub enum FetchStageView {
    Fetching,
    FindingRemoteRef,
    ReadingHead(Seq<char>),
    ComparingHead(Seq<char>),
    Finished,
}

/// The abstract value of a [`FetchEvent`].
pub enum FetchEventView {
    Fetched,
    BranchNotOnRemote,
    RemoteRef(Option<Seq<char>>),
    HeadName(Option<Seq<char>>),
    HeadCommit(Seq<char>),
}

/// The abstract value of a [`FetchAction`].
pub enum FetchActionView {
    Fetch(Seq<char>),
    FindRemoteRef(Seq<char>),
    ReadHeadName,
    ReadHeadCommit,
    ResetHeadSoft(Seq<char>),
    CheckoutBranch(Seq<char>, Seq<char>, Seq<char>),
    Finish,
    Wait,
}

impl View for FetchStage {
    type V = FetchStageView;

    open spec fn view(&self) -> FetchStageView {
        match self {
            FetchStage::Fetching => FetchStageView::Fetching,
            FetchStage::FindingRemoteRef => FetchStageView::FindingRemoteRef,
            FetchStage::ReadingHead { remote_commit } => FetchStageView::ReadingHead(remote_commit@),
            FetchStage::ComparingHead { remote_commit } => FetchStageView::ComparingHead(remote_commit@),
            FetchStage::Finished => FetchStageView::Finished,
        }
    }
}

impl View for FetchEvent {
    type V = FetchEventView;

    open spec fn view(&self) -> FetchEventView {
        match self {
            FetchEvent::Fetched => FetchEventView::Fetched,
            FetchEvent::BranchNotOnRemote => FetchEventView::BranchNotOnRemote,
            FetchEvent::RemoteRef(c) => FetchEventView::RemoteRef(c.deep_view()),
            FetchEvent::HeadName(h) => FetchEventView::HeadName(h.deep_view()),
            FetchEvent::HeadCommit(c) => FetchEventView::HeadCommit(c@),
        }
    }
}

impl View for FetchAction {
    type V = FetchActionView;

    open spec fn view(&self) -> FetchActionView {
        match self {
            FetchAction::Fetch { refspec } => FetchActionView::Fetch(refspec@),
            FetchAction::FindRemoteRef { name } => FetchActionView::FindRemoteRef(name@),
            FetchAction::ReadHeadName => FetchActionView::ReadHeadName,
            FetchAction::ReadHeadCommit => FetchActionView::ReadHeadCommit,
            FetchAction::ResetHeadSoft { commit } => FetchActionView::ResetHeadSoft(commit@),
            FetchAction::CheckoutBranch { branch, commit, reference } => FetchActionView::CheckoutBranch(
                branch@,
                commit@,
                reference@,
            ),
            FetchAction::Finish => FetchActionView::Finish,
            FetchAction::Wait => FetchActionView::Wait,
        }
    }
}

/// One step of fetching `branch` so that a commit is built on the remote's
/// history: a branch that the remote lacks, or whose remote-tracking
/// reference is missing, is new and needs nothing; when HEAD is already on
/// the branch it is moved (softly) to the remote commit unless it is there
/// already; otherwise the branch is pointed at the remote commit and checked
/// out.
pub open spec fn fetch_step(branch: Seq<char>, stage: FetchStageView, event: FetchEventView) -> (FetchStageView, FetchActionView) {
    match (stage, event) {
        (FetchStageView::Fetching, FetchEventView::Fetched) =>
            (FetchStageView::FindingRemoteRef, FetchActionView::FindRemoteRef(remote_branch_ref(branch))),
        (FetchStageView::Fetching, FetchEventView::BranchNotOnRemote) =>
            (FetchStageView::Finished, FetchActionView::Finish),
        (FetchStageView::FindingRemoteRef, FetchEventView::RemoteRef(None)) =>
            (FetchStageView::Finished, FetchActionView::Finish),
        (FetchStageView::FindingRemoteRef, FetchEventView::RemoteRef(Some(c))) =>
            (FetchStageView::ReadingHead(c), FetchActionView::ReadHeadName),
        (FetchStageView::ReadingHead(c), FetchEventView::HeadName(h)) =>
            if h == Some(branch) {
                (FetchStageView::ComparingHead(c), FetchActionView::ReadHeadCommit)
            } else {
                (FetchStageView::Finished, FetchActionView::CheckoutBranch(branch, c, branch_ref(branch)))
            },
        (FetchStageView::ComparingHead(c), FetchEventView::HeadCommit(h)) =>
            if h == c {
                (FetchStageView::Finished, FetchActionView::Finish)
            } else {
                (FetchStageView::Finished, FetchActionView::ResetHeadSoft(c))
            },
        (s, _) => (s, FetchActionView::Wait),
    }
}

/// The fetch of one branch from `origin`, driven step by step.
#[derive(Debug)]
pub struct BranchFetch {
    pub branch: String,
    pub stage: FetchStage,
}

impl BranchFetch {
    /// Starts fetching `branch`; the first action fetches it into its
    /// remote-tracking reference.
    pub fn new(branch: &str) -> (r: (BranchFetch, FetchAction))
        ensures
            r.0.branch@ == branch@,
            r.0.stage@ == FetchStageView::Fetching,
            r.1@ == FetchActionView::Fetch(branch_ref(branch@) + ":"@ + remote_branch_ref(branch@)),
    {
        (
            BranchFetch { branch: String::from_str(branch), stage: FetchStage::Fetching },
            FetchAction::Fetch { refspec: fetch_refspec(branch) },
        )
    }

    /// Takes in what the outside world reports and says what to do next.
    pub fn step(&mut self, event: FetchEvent) -> (r: FetchAction)
        ensures
            final(self).branch@ == old(self).branch@,
            (final(self).stage@, r@) == fetch_step(old(self).branch@, old(self).stage@, event@),
    {
        match (&self.stage, event) {
            (FetchStage::Fetching, FetchEvent::Fetched) => {
                self.stage = FetchStage::FindingRemoteRef;
                FetchAction::FindRemoteRef { name: remote_tracking_ref(self.branch.as_str()) }
            },
            (FetchStage::Fetching, FetchEvent::BranchNotOnRemote) => {
                self.stage = FetchStage::Finished;
                FetchAction::Finish
            },
            (FetchStage::FindingRemoteRef, FetchEvent::RemoteRef(None)) => {
                self.stage = FetchStage::Finished;
                FetchAction::Finish
            },
            (FetchStage::FindingRemoteRef, FetchEvent::RemoteRef(Some(c))) => {
                self.stage = FetchStage::ReadingHead { remote_commit: c };
                FetchAction::ReadHeadName
            },
            (FetchStage::ReadingHead { remote_commit }, FetchEvent::HeadName(h)) => {
                let on_branch = match &h {
                    Some(name) => same_text(name.as_str(), self.branch.as_str()),
                    None => false,
                };
                let commit = remote_commit.clone();
                if on_branch {
                    self.stage = FetchStage::ComparingHead { remote_commit: commit };
                    FetchAction::ReadHeadCommit
                } else {
                    let reference = local_branch_ref(self.branch.as_str());
                    let branch = self.branch.clone();
                    self.stage = FetchStage::Finished;
                    FetchAction::CheckoutBranch { branch, commit, reference }
                }
            },
            (FetchStage::ComparingHead { remote_commit }, FetchEvent::HeadCommit(h)) => {
                let same = same_text(h.as_str(), remote_commit.as_str());
                let commit = remote_commit.clone();
                self.stage = FetchStage::Finished;
                if same {
                    FetchAction::Finish
                } else {
                    FetchAction::ResetHeadSoft { commit }
                }
            },
            _ => FetchAction::Wait,
        }
    }
}


/// Collects what the remote answers for each pushed reference; the push fails
/// with the rejection of the last reference that the remote refused.
#[derive(Debug, Clone, PartialEq, Eq)]
pub struct PushReport {
    pub rejection: Option<String>,
}

impl PushReport {
    /// Nothing refused yet.
    pub fn new() -> (r: PushReport)
        ensures
            r.rejection is None,
    {
        PushReport { rejection: None }
    }

    /// Records the remote's answer for `refname`: `status` is the reason it was
    /// refused, or `None` when it was accepted.
    pub fn record(&mut self, refname: &str, status: Option<&str>)
        ensures
            match status {
                Some(s) => final(self).rejection matches Some(m)
                    && m@ == "Push rejected for "@ + refname@ + ": "@ + s@,
                None => final(self).rejection.deep_view() == old(self).rejection.deep_view(),
            },
    {
        if let Some(s) = status {
            self.rejection = Some(push_rejection_message(refname, s));
        }
    }
}

/// Where the commit of a version stands.
#[derive(Debug)]
pub enum CommitStage {
    /// The directory is being put into the index and written as a tree.
    Staging,
    /// Reading the commit that HEAD points to, the parent of the new commit.
    ReadingParent,
    /// The commit is being made.
    Committing,
    /// Reading HEAD's short name after the commit `commit`.
    CheckingBranch { commit: String },
    /// The branch is being pointed at `commit`.
    UpdatingBranch { commit: String },
    /// The tag is being made on `commit`.
    Tagging { commit: String },
    /// The branch (and tag) are being pushed.
    Pushing,
    /// The outcome has been given.
    Finished,
}

/// What the outside world reports back to a commit. Errors of the outside
/// calls end the commit with that error.
#[derive(Debug)]
pub enum CommitEvent {
    /// The index holds the directory and the tree is written.
    Staged,
    /// The commit that HEAD points to, or `None` when HEAD does not resolve
    /// (the repository has no commit yet).
    Parent(Option<String>),
    /// The commit was made, with this id.
    Committed(String),
    /// HEAD's short name, or `None` when HEAD does not resolve or its name is
    /// not valid text.
    HeadName(Option<String>),
    /// The asked branch update or tag was made.
    Done,
    /// The push went through; `rejection` is the remote's refusal, if any.
    Pushed(Option<String>),
}

/// What a commit asks the outside world to do next.
#[derive(Debug)]
pub enum CommitAction {
    /// Replace the index by the files of `directory` and write its tree.
    StageDirectory { directory: String },
    /// Read the commit that HEAD points to.
    ReadParent,
    /// Commit the tree on HEAD with this message, on top of `parent` when given.
    Commit { message: String, parent: Option<String> },
    /// Read HEAD's short name.
    ReadHeadName,
    /// Point `branch` at `commit`, overwriting it if it exists.
    UpdateBranch { branch: String, commit: String },
    /// Make the annotated tag `name` on `commit`, failing if it exists.
    CreateTag { name: String, commit: String, message: String },
    /// Push these refspecs to `origin`.
    Push { refspecs: Vec<String> },
    /// The commit is over, with this outcome (the rejection of the push).
    Finish(Result<(), String>),
    /// The event did not fit the stage: nothing to do.
    Wait,
}

/// The abstract value of a [`CommitStage`].
pub enum CommitStageView {
    Staging,
    ReadingParent,
    Committing,
    CheckingBranch(Seq<char>),
    UpdatingBranch(Seq<char>),
    Tagging(Seq<char>),
    Pushing,
    Finished,
}

/// The abstract value of a [`CommitEvent`].
pub enum CommitEventView {
    Staged,
    Parent(Option<Seq<char>>),
    Committed(Seq<char>),
    HeadName(Option<Seq<char>>),
    Done,
    Pushed(Option<Seq<char>>),
}

/// The abstract value of a [`CommitAction`].
pub enum CommitActionView {
    StageDirectory(Seq<char>),
    ReadParent,
    Commit(Seq<char>, Option<Seq<char>>),
    ReadHeadName,
    UpdateBranch(Seq<char>, Seq<char>),
    CreateTag(Seq<char>, Seq<char>, Seq<char>),
    Push(Seq<Seq<char>>),
    Finish(Result<(), Seq<char>>),
    Wait,
}

impl View for CommitStage {
    type V = CommitStageView;

    open spec fn view(&self) -> CommitStageView {
        match self {
            CommitStage::Staging => CommitStageView::Staging,
            CommitStage::ReadingParent => CommitStageView::ReadingParent,
            CommitStage::Committing => CommitStageView::Committing,
            CommitStage::CheckingBranch { commit } => CommitStageView::CheckingBranch(commit@),
            CommitStage::UpdatingBranch { commit } => CommitStageView::UpdatingBranch(commit@),
            CommitStage::Tagging { commit } => CommitStageView::Tagging(commit@),
            CommitStage::Pushing => CommitStageView::Pushing,
            CommitStage::Finished => CommitStageView::Finished,
        }
    }
}

impl View for CommitEvent {
    type V = CommitEventView;

    open spec fn view(&self) -> CommitEventView {
        match self {
            CommitEvent::Staged => CommitEventView::Staged,
            CommitEvent::Parent(p) => CommitEventView::Parent(p.deep_view()),
            CommitEvent::Committed(c) => CommitEventView::Committed(c@),
            CommitEvent::HeadName(h) => CommitEventView::HeadName(h.deep_view()),
            CommitEvent::Done => CommitEventView::Done,
            CommitEvent::Pushed(r) => CommitEventView::Pushed(r.deep_view()),
        }
    }
}

impl View for CommitAction {
    type V = CommitActionView;

    open spec fn view(&self) -> CommitActionView {
        match self {
            CommitAction::StageDirectory { directory } => CommitActionView::StageDirectory(directory@),
            CommitAction::ReadParent => CommitActionView::ReadParent,
            CommitAction::Commit { message, parent } => CommitActionView::Commit(message@, parent.deep_view()),
            CommitAction::ReadHeadName => CommitActionView::ReadHeadName,
            CommitAction::UpdateBranch { branch, commit } => CommitActionView::UpdateBranch(branch@, commit@),
            CommitAction::CreateTag { name, commit, message } => CommitActionView::CreateTag(
                name@,
                commit@,
                message@,
            ),
            CommitAction::Push { refspecs } => CommitActionView::Push(refspecs@.map_values(|s: String| s@)),
            CommitAction::Finish(Ok(())) => CommitActionView::Finish(Ok(())),
            CommitAction::Finish(Err(m)) => CommitActionView::Finish(Err(m@)),
            CommitAction::Wait => CommitActionView::Wait,
        }
    }
}

/// What follows once the branch points at `commit`: the tag, when one is
/// asked for, else the push.
pub open spec fn after_branch(branch: Seq<char>, tag: Option<Seq<char>>, commit: Seq<char>) -> (CommitStageView, CommitActionView) {
    match tag {
        Some(t) => (CommitStageView::Tagging(commit), CommitActionView::CreateTag(t, commit, "Tag for commit "@ + commit)),
        None => (CommitStageView::Pushing, CommitActionView::Push(push_refspec_texts(branch, None))),
    }
}

/// One step of recording `directory` as a commit with `message` on `branch`,
/// tagged `tag` when given, and pushing it: the commit's parent is HEAD's
/// commit when there is one; the branch is pointed at the commit unless HEAD
/// is on it (the commit then moved it already); the tag is made when asked;
/// the push sends the branch and the tag; a rejected push is an error that
/// carries the rejection.
pub open spec fn commit_step(
    branch: Seq<char>,
    tag: Option<Seq<char>>,
    message: Seq<char>,
    stage: CommitStageView,
    event: CommitEventView,
) -> (CommitStageView, CommitActionView) {
    match (stage, event) {
        (CommitStageView::Staging, CommitEventView::Staged) =>
            (CommitStageView::ReadingParent, CommitActionView::ReadParent),
        (CommitStageView::ReadingParent, CommitEventView::Parent(p)) =>
            (CommitStageView::Committing, CommitActionView::Commit(message, p)),
        (CommitStageView::Committing, CommitEventView::Committed(c)) =>
            (CommitStageView::CheckingBranch(c), CommitActionView::ReadHeadName),
        (CommitStageView::CheckingBranch(c), CommitEventView::HeadName(h)) =>
            if h == Some(branch) {
                after_branch(branch, tag, c)
            } else {
                (CommitStageView::UpdatingBranch(c), CommitActionView::UpdateBranch(branch, c))
            },
        (CommitStageView::UpdatingBranch(c), CommitEventView::Done) => after_branch(branch, tag, c),
        (CommitStageView::Tagging(_), CommitEventView::Done) =>
            (CommitStageView::Pushing, CommitActionView::Push(push_refspec_texts(branch, tag))),
        (CommitStageView::Pushing, CommitEventView::Pushed(None)) =>
            (CommitStageView::Finished, CommitActionView::Finish(Ok(()))),
        (CommitStageView::Pushing, CommitEventView::Pushed(Some(m))) =>
            (CommitStageView::Finished, CommitActionView::Finish(Err(m))),
        (s, _) => (s, CommitActionView::Wait),
    }
}

/// The commit of one directory, driven step by step.
#[derive(Debug)]
pub struct VersionCommit {
    pub branch: String,
    pub tag: Option<String>,
    pub message: String,
    pub stage: CommitStage,
}

impl VersionCommit {
    /// Starts committing `directory`; the first action stages it.
    pub fn new(directory: &str, message: String, branch: &str, tag: Option<String>) -> (r: (VersionCommit, CommitAction))
        ensures
            r.0.branch@ == branch@,
            r.0.tag.deep_view() == tag.deep_view(),
            r.0.message@ == message@,
            r.0.stage@ == CommitStageView::Staging,
            r.1@ == CommitActionView::StageDirectory(directory@),
    {
        (
            VersionCommit { branch: String::from_str(branch), tag, message, stage: CommitStage::Staging },
            CommitAction::StageDirectory { directory: String::from_str(directory) },
        )
    }

    fn after_branch(&mut self, commit: String) -> (r: CommitAction)
        ensures
            final(self).branch@ == old(self).branch@,
            final(self).tag.deep_view() == old(self).tag.deep_view(),
            final(self).message@ == old(self).message@,
            (final(self).stage@, r@) == after_branch(old(self).branch@, old(self).tag.deep_view(), commit@),
    {
        match &self.tag {
            Some(t) => {
                let name = t.clone();
                let message = tag_message(commit.as_str());
                self.stage = CommitStage::Tagging { commit: commit.clone() };
                CommitAction::CreateTag { name, commit, message }
            },
            None => {
                self.stage = CommitStage::Pushing;
                CommitAction::Push { refspecs: push_refspecs(self.branch.as_str(), None) }
            },
        }
    }

    /// Takes in what the outside world reports and says what to do next.
    pub fn step(&mut self, event: CommitEvent) -> (r: CommitAction)
        ensures
            final(self).branch@ == old(self).branch@,
            final(self).tag.deep_view() == old(self).tag.deep_view(),
            final(self).message@ == old(self).message@,
            (final(self).stage@, r@) == commit_step(
                old(self).branch@,
                old(self).tag.deep_view(),
                old(self).message@,
                old(self).stage@,
                event@,
            ),
    {
        match (&self.stage, event) {
            (CommitStage::Staging, CommitEvent::Staged) => {
                self.stage = CommitStage::ReadingParent;
                CommitAction::ReadParent
            },
            (CommitStage::ReadingParent, CommitEvent::Parent(parent)) => {
                self.stage = CommitStage::Committing;
                CommitAction::Commit { message: self.message.clone(), parent }
            },
            (CommitStage::Committing, CommitEvent::Committed(c)) => {
                self.stage = CommitStage::CheckingBranch { commit: c };
                CommitAction::ReadHeadName
            },
            (CommitStage::CheckingBranch { commit }, CommitEvent::HeadName(h)) => {
                let on_branch = match &h {
                    Some(name) => same_text(name.as_str(), self.branch.as_str()),
                    None => false,
                };
                let commit = commit.clone();
                if on_branch {
                    self.after_branch(commit)
                } else {
                    let branch = self.branch.clone();
                    self.stage = CommitStage::UpdatingBranch { commit: commit.clone() };
                    CommitAction::UpdateBranch { branch, commit }
                }
            },
            (CommitStage::UpdatingBranch { commit }, CommitEvent::Done) => {
                let commit = commit.clone();
                self.after_branch(commit)
            },
            (CommitStage::Tagging { .. }, CommitEvent::Done) => {
                self.stage = CommitStage::Pushing;
                let refspecs = match &self.tag {
                    Some(t) => push_refspecs(self.branch.as_str(), Some(t.as_str())),
                    None => push_refspecs(self.branch.as_str(), None),
                };
                CommitAction::Push { refspecs }
            },
            (CommitStage::Pushing, CommitEvent::Pushed(None)) => {
                self.stage = CommitStage::Finished;
                CommitAction::Finish(Ok(()))
            },
            (CommitStage::Pushing, CommitEvent::Pushed(Some(m))) => {
                self.stage = CommitStage::Finished;
                CommitAction::Finish(Err(m))
            },
            _ => CommitAction::Wait,
        }
    }
}


/// The actions a branch fetch asks for, from `stage` on, as `events` come in.
pub open spec fn fetch_trace(branch: Seq<char>, stage: FetchStageView, events: Seq<FetchEventView>) -> Seq<FetchActionView>
    decreases events.len(),
{
    if events.len() == 0 {
        Seq::empty()
    } else {
        let (next, action) = fetch_step(branch, stage, events[0]);
        seq![action] + fetch_trace(branch, next, events.drop_first())
    }
}

/// Whether an action of a branch fetch moves HEAD or a branch, and to which commit.
pub open spec fn fetch_moves_to(action: FetchActionView) -> Option<Seq<char>> {
    match action {
        FetchActionView::ResetHeadSoft(c) => Some(c),
        FetchActionView::CheckoutBranch(_, c, _) => Some(c),
        _ => None,
    }
}

/// The remote commit that a fetch stage remembers.
pub open spec fn fetch_stage_commit(stage: FetchStageView) -> Option<Seq<char>> {
    match stage {
        FetchStageView::ReadingHead(c) => Some(c),
        FetchStageView::ComparingHead(c) => Some(c),
        _ => None,
    }
}

proof fn lemma_fetch_trace_len(branch: Seq<char>, stage: FetchStageView, events: Seq<FetchEventView>)
    ensures
        fetch_trace(branch, stage, events).len() == events.len(),
    decreases events.len(),
{
    if events.len() > 0 {
        let (next, _) = fetch_step(branch, stage, events[0]);
        lemma_fetch_trace_len(branch, next, events.drop_first());
    }
}

proof fn lemma_fetch_finished_waits(branch: Seq<char>, events: Seq<FetchEventView>)
    ensures
        forall|k: int| 0 <= k < events.len() ==> #[trigger] fetch_trace(branch, FetchStageView::Finished, events)[k]
            == FetchActionView::Wait,
    decreases events.len(),
{
    lemma_fetch_trace_len(branch, FetchStageView::Finished, events);
    if events.len() > 0 {
        lemma_fetch_finished_waits(branch, events.drop_first());
        let t = fetch_trace(branch, FetchStageView::Finished, events);
        assert forall|k: int| 0 <= k < events.len() implies #[trigger] t[k] == FetchActionView::Wait by {
            if k > 0 {
                assert(t[k] == fetch_trace(branch, FetchStageView::Finished, events.drop_first())[k - 1]);
            }
        }
    }
}

proof fn lemma_fetch_moves_general(branch: Seq<char>, stage: FetchStageView, events: Seq<FetchEventView>)
    ensures
        forall|k: int| 0 <= k < events.len() && #[trigger] fetch_moves_to(fetch_trace(branch, stage, events)[k]) is Some
            ==> (fetch_stage_commit(stage) == fetch_moves_to(fetch_trace(branch, stage, events)[k])
                || exists|j: int| 0 <= j < k && events[j] == FetchEventView::RemoteRef(
                    fetch_moves_to(fetch_trace(branch, stage, events)[k]),
                )),
        forall|k1: int, k2: int| 0 <= k1 < k2 < events.len()
            && #[trigger] fetch_moves_to(fetch_trace(branch, stage, events)[k1]) is Some
            ==> #[trigger] fetch_trace(branch, stage, events)[k2] == FetchActionView::Wait,
        forall|k: int| 0 <= k < events.len() ==> (#[trigger] fetch_trace(branch, stage, events)[k]
            matches FetchActionView::CheckoutBranch(b, _, r) ==> b == branch && r == "refs/heads/"@ + branch),
    decreases events.len(),
{
    lemma_fetch_trace_len(branch, stage, events);
    if events.len() > 0 {
        let (next, a) = fetch_step(branch, stage, events[0]);
        let rest = events.drop_first();
        let t = fetch_trace(branch, stage, events);
        let tr = fetch_trace(branch, next, rest);
        lemma_fetch_moves_general(branch, next, rest);
        lemma_fetch_trace_len(branch, next, rest);
        assert(t[0] == a);
        assert forall|k: int| 1 <= k < events.len() implies #[trigger] t[k] == tr[k - 1] by {}
        assert forall|k: int| 0 <= k < events.len() && #[trigger] fetch_moves_to(t[k]) is Some implies (
            fetch_stage_commit(stage) == fetch_moves_to(t[k]) || exists|j: int| 0 <= j < k && events[j]
                == FetchEventView::RemoteRef(fetch_moves_to(t[k]))) by {
            if k > 0 {
                assert(t[k] == tr[k - 1]);
                if fetch_stage_commit(next) == fetch_moves_to(tr[k - 1]) {
                    if fetch_stage_commit(stage) != fetch_moves_to(t[k]) {
                        assert(events[0] == FetchEventView::RemoteRef(fetch_moves_to(t[k])));
                    }
                } else {
                    let j = choose|j: int| 0 <= j < k - 1 && rest[j] == FetchEventView::RemoteRef(fetch_moves_to(tr[k - 1]));
                    assert(events[j + 1] == rest[j]);
                }
            }
        }
        assert forall|k: int| 0 <= k < events.len() implies (#[trigger] t[k]
            matches FetchActionView::CheckoutBranch(b, _, r) ==> b == branch && r == "refs/heads/"@ + branch) by {
            if k > 0 {
                assert(t[k] == tr[k - 1]);
            }
        }
        assert forall|k1: int, k2: int| 0 <= k1 < k2 < events.len()
            && #[trigger] fetch_moves_to(t[k1]) is Some implies #[trigger] t[k2] == FetchActionView::Wait by {
            if k1 == 0 {
                assert(next == FetchStageView::Finished);
                lemma_fetch_finished_waits(branch, rest);
                assert(t[k2] == tr[k2 - 1]);
            } else {
                assert(t[k1] == tr[k1 - 1]);
                assert(t[k2] == tr[k2 - 1]);
            }
        }
    }
}

/// Whatever the outside world reports, a branch fetch moves HEAD or the
/// branch at most once, after which it asks for nothing more, and only ever
/// to the commit that the remote-tracking reference was reported to point to.
pub proof fn lemma_fetch_moves_only_to_remote_commit(branch: Seq<char>, events: Seq<FetchEventView>)
    ensures
        forall|k: int| 0 <= k < events.len() && #[trigger] fetch_moves_to(
            fetch_trace(branch, FetchStageView::Fetching, events)[k],
        ) is Some ==> exists|j: int| 0 <= j < k && events[j] == FetchEventView::RemoteRef(
            fetch_moves_to(fetch_trace(branch, FetchStageView::Fetching, events)[k]),
        ),
        forall|k1: int, k2: int| 0 <= k1 < k2 < events.len()
            && #[trigger] fetch_moves_to(fetch_trace(branch, FetchStageView::Fetching, events)[k1]) is Some
            ==> #[trigger] fetch_trace(branch, FetchStageView::Fetching, events)[k2] == FetchActionView::Wait,
        forall|k: int| 0 <= k < events.len() ==> (#[trigger] fetch_trace(branch, FetchStageView::Fetching, events)[k]
            matches FetchActionView::CheckoutBranch(b, _, r) ==> b == branch && r == "refs/heads/"@ + branch),
{
    lemma_fetch_moves_general(branch, FetchStageView::Fetching, events);
}

/// A branch that the remote does not have is new, not an error: the fetch
/// ends at once and moves nothing.
pub proof fn lemma_missing_remote_branch_is_new(branch: Seq<char>)
    ensures
        fetch_step(branch, FetchStageView::Fetching, FetchEventView::BranchNotOnRemote)
            == (FetchStageView::Finished, FetchActionView::Finish),
{
}

/// HEAD on the branch, already at the remote commit, is left alone.
pub proof fn lemma_head_at_remote_commit_is_kept(branch: Seq<char>, commit: Seq<char>)
    ensures
        fetch_step(branch, FetchStageView::ComparingHead(commit), FetchEventView::HeadCommit(commit))
            == (FetchStageView::Finished, FetchActionView::Finish),
{
}


/// The actions a commit asks for, from `stage` on, as `events` come in.
pub open spec fn commit_trace(
    branch: Seq<char>,
    tag: Option<Seq<char>>,
    message: Seq<char>,
    stage: CommitStageView,
    events: Seq<CommitEventView>,
) -> Seq<CommitActionView>
    decreases events.len(),
{
    if events.len() == 0 {
        Seq::empty()
    } else {
        let (next, action) = commit_step(branch, tag, message, stage, events[0]);
        seq![action] + commit_trace(branch, tag, message, next, events.drop_first())
    }
}

/// The commit that a commit stage remembers.
pub open spec fn commit_stage_commit(stage: CommitStageView) -> Option<Seq<char>> {
    match stage {
        CommitStageView::CheckingBranch(c) => Some(c),
        CommitStageView::UpdatingBranch(c) => Some(c),
        CommitStageView::Tagging(c) => Some(c),
        _ => None,
    }
}

/// Whether a commit stage comes after the push was asked for.
pub open spec fn commit_stage_pushing(stage: CommitStageView) -> bool {
    stage == CommitStageView::Pushing
}

proof fn lemma_commit_trace_len(
    branch: Seq<char>,
    tag: Option<Seq<char>>,
    message: Seq<char>,
    stage: CommitStageView,
    events: Seq<CommitEventView>,
)
    ensures
        commit_trace(branch, tag, message, stage, events).len() == events.len(),
    decreases events.len(),
{
    if events.len() > 0 {
        let (next, _) = commit_step(branch, tag, message, stage, events[0]);
        lemma_commit_trace_len(branch, tag, message, next, events.drop_first());
    }
}

proof fn lemma_commit_finished_waits(branch: Seq<char>, tag: Option<Seq<char>>, message: Seq<char>, events: Seq<CommitEventView>)
    ensures
        forall|k: int| 0 <= k < events.len() ==> #[trigger] commit_trace(branch, tag, message, CommitStageView::Finished, events)[k]
            == CommitActionView::Wait,
    decreases events.len(),
{
    lemma_commit_trace_len(branch, tag, message, CommitStageView::Finished, events);
    if events.len() > 0 {
        lemma_commit_finished_waits(branch, tag, message, events.drop_first());
        let t = commit_trace(branch, tag, message, CommitStageView::Finished, events);
        assert forall|k: int| 0 <= k < events.len() implies #[trigger] t[k] == CommitActionView::Wait by {
            if k > 0 {
                assert(t[k] == commit_trace(branch, tag, message, CommitStageView::Finished, events.drop_first())[k - 1]);
            }
        }
    }
}

/// Whether an action gives the outcome of the commit.
pub open spec fn is_finish(action: CommitActionView) -> bool {
    action is Finish
}

#[verifier::spinoff_prover]
#[verifier::rlimit(60)]
proof fn lemma_commit_trace_general(
    branch: Seq<char>,
    tag: Option<Seq<char>>,
    message: Seq<char>,
    stage: CommitStageView,
    events: Seq<CommitEventView>,
)
    ensures
        forall|k: int| 0 <= k < events.len() && #[trigger] commit_trace(branch, tag, message, stage, events)[k]
            == CommitActionView::Finish(Ok(())) ==> events[k] == CommitEventView::Pushed(None) && (commit_stage_pushing(stage)
            || exists|j: int| 0 <= j < k && commit_trace(branch, tag, message, stage, events)[j]
                == CommitActionView::Push(push_refspec_texts(branch, tag))),
        forall|k: int| 0 <= k < events.len() ==> (#[trigger] commit_trace(branch, tag, message, stage, events)[k]
            matches CommitActionView::Finish(Err(m)) ==> events[k] == CommitEventView::Pushed(Some(m))),
        forall|k: int| 0 <= k < events.len() ==> (#[trigger] commit_trace(branch, tag, message, stage, events)[k]
            matches CommitActionView::CreateTag(n, c, msg)
            ==> tag == Some(n) && msg == "Tag for commit "@ + c && (commit_stage_commit(stage) == Some(c)
                || exists|j: int| 0 <= j < k && events[j] == CommitEventView::Committed(c))),
        forall|k1: int, k2: int| 0 <= k1 < k2 < events.len()
            && #[trigger] is_finish(commit_trace(branch, tag, message, stage, events)[k1])
            ==> #[trigger] commit_trace(branch, tag, message, stage, events)[k2] == CommitActionView::Wait,
        forall|k: int| 0 <= k < events.len() ==> (#[trigger] commit_trace(branch, tag, message, stage, events)[k]
            matches CommitActionView::UpdateBranch(b, c)
            ==> b == branch && (commit_stage_commit(stage) == Some(c)
                || exists|j: int| 0 <= j < k && events[j] == CommitEventView::Committed(c))),
    decreases events.len(),
{
    lemma_commit_trace_len(branch, tag, message, stage, events);
    if events.len() > 0 {
        let (next, a) = commit_step(branch, tag, message, stage, events[0]);
        let rest = events.drop_first();
        let t = commit_trace(branch, tag, message, stage, events);
        let tr = commit_trace(branch, tag, message, next, rest);
        lemma_commit_trace_general(branch, tag, message, next, rest);
        lemma_commit_trace_len(branch, tag, message, next, rest);
        assert(t[0] == a);
        assert forall|k: int| 1 <= k < events.len() implies #[trigger] t[k] == tr[k - 1] by {}
        assert forall|k: int| 0 <= k < events.len() && #[trigger] t[k] == CommitActionView::Finish(Ok(()))
            implies events[k] == CommitEventView::Pushed(None) && (commit_stage_pushing(stage)
            || exists|j: int| 0 <= j < k && t[j] == CommitActionView::Push(push_refspec_texts(branch, tag))) by {
            if k > 0 {
                assert(t[k] == tr[k - 1]);
                assert(events[k] == rest[k - 1]);
                if commit_stage_pushing(next) {
                    if !commit_stage_pushing(stage) {
                        assert(t[0] == CommitActionView::Push(push_refspec_texts(branch, tag)));
                    }
                } else {
                    let j = choose|j: int| 0 <= j < k - 1 && tr[j] == CommitActionView::Push(push_refspec_texts(branch, tag));
                    assert(t[j + 1] == tr[j]);
                }
            }
        }
        assert forall|k: int| 0 <= k < events.len() implies (#[trigger] t[k] matches CommitActionView::Finish(Err(m))
            ==> events[k] == CommitEventView::Pushed(Some(m))) by {
            if k > 0 {
                assert(t[k] == tr[k - 1]);
                assert(events[k] == rest[k - 1]);
            }
        }
        assert forall|k: int| 0 <= k < events.len() implies (#[trigger] t[k] matches CommitActionView::CreateTag(n, c, msg)
            ==> tag == Some(n) && msg == "Tag for commit "@ + c && (commit_stage_commit(stage) == Some(c)
                || exists|j: int| 0 <= j < k && events[j] == CommitEventView::Committed(c))) by {
            if k > 0 && t[k] is CreateTag {
                let c = t[k]->CreateTag_1;
                assert(t[k] == tr[k - 1]);
                if commit_stage_commit(next) == Some(c) {
                    if commit_stage_commit(stage) != Some(c) {
                        assert(events[0] == CommitEventView::Committed(c));
                    }
                } else {
                    let j = choose|j: int| 0 <= j < k - 1 && rest[j] == CommitEventView::Committed(c);
                    assert(events[j + 1] == rest[j]);
                }
            }
        }
        assert forall|k: int| 0 <= k < events.len() implies (#[trigger] t[k] matches CommitActionView::UpdateBranch(b, c)
            ==> b == branch && (commit_stage_commit(stage) == Some(c)
                || exists|j: int| 0 <= j < k && events[j] == CommitEventView::Committed(c))) by {
            if k > 0 && t[k] is UpdateBranch {
                let c = t[k]->UpdateBranch_1;
                assert(t[k] == tr[k - 1]);
                if commit_stage_commit(next) == Some(c) {
                    if commit_stage_commit(stage) != Some(c) {
                        assert(events[0] == CommitEventView::Committed(c));
                    }
                } else {
                    let j = choose|j: int| 0 <= j < k - 1 && rest[j] == CommitEventView::Committed(c);
                    assert(events[j + 1] == rest[j]);
                }
            }
        }
        assert forall|k1: int, k2: int| 0 <= k1 < k2 < events.len() && #[trigger] is_finish(t[k1])
            implies #[trigger] t[k2] == CommitActionView::Wait by {
            if k1 == 0 {
                assert(next == CommitStageView::Finished);
                lemma_commit_finished_waits(branch, tag, message, rest);
                assert(t[k2] == tr[k2 - 1]);
            } else {
                assert(t[k1] == tr[k1 - 1]);
                assert(t[k2] == tr[k2 - 1]);
            }
        }
    }
}

/// Whatever the outside world reports, a commit started afresh: succeeds
/// only by a push of the branch (and of the tag exactly when one was asked
/// for) that the remote did not refuse; fails only with the remote's
/// refusal; makes a tag only when asked, named as asked, on a commit it
/// made, with the message `Tag for commit <id>`; points only the asked branch,
/// and only at the id of a commit it made; and gives its outcome once.
pub proof fn lemma_commit_outcome(branch: Seq<char>, tag: Option<Seq<char>>, message: Seq<char>, events: Seq<CommitEventView>)
    ensures
        forall|k: int| 0 <= k < events.len() && #[trigger] commit_trace(branch, tag, message, CommitStageView::Staging, events)[k]
            == CommitActionView::Finish(Ok(())) ==> events[k] == CommitEventView::Pushed(None)
            && exists|j: int| 0 <= j < k && commit_trace(branch, tag, message, CommitStageView::Staging, events)[j]
                == CommitActionView::Push(push_refspec_texts(branch, tag)),
        forall|k: int| 0 <= k < events.len() ==> (#[trigger] commit_trace(branch, tag, message, CommitStageView::Staging, events)[k]
            matches CommitActionView::Finish(Err(m)) ==> events[k] == CommitEventView::Pushed(Some(m))),
        forall|k: int| 0 <= k < events.len() ==> (#[trigger] commit_trace(branch, tag, message, CommitStageView::Staging, events)[k]
            matches CommitActionView::CreateTag(n, c, msg) ==> tag == Some(n) && msg == "Tag for commit "@ + c
                && exists|j: int| 0 <= j < k && events[j] == CommitEventView::Committed(c)),
        forall|k1: int, k2: int| 0 <= k1 < k2 < events.len()
            && #[trigger] is_finish(commit_trace(branch, tag, message, CommitStageView::Staging, events)[k1])
            ==> #[trigger] commit_trace(branch, tag, message, CommitStageView::Staging, events)[k2] == CommitActionView::Wait,
        forall|k: int| 0 <= k < events.len() ==> (#[trigger] commit_trace(branch, tag, message, CommitStageView::Staging, events)[k]
            matches CommitActionView::UpdateBranch(b, c) ==> b == branch
                && exists|j: int| 0 <= j < k && events[j] == CommitEventView::Committed(c)),
{
    lemma_commit_trace_general(branch, tag, message, CommitStageView::Staging, events);
}

/// The push sends the branch onto itself first, and the tag onto itself
/// exactly when one was made.
pub proof fn lemma_push_refspecs_shape(branch: Seq<char>, tag: Option<Seq<char>>)
    ensures
        push_refspec_texts(branch, tag)[0] == "refs/heads/"@ + branch + ":"@ + "refs/heads/"@ + branch,
        push_refspec_texts(branch, tag).len() == if tag is Some { 2int } else { 1int },
        tag matches Some(t) ==> push_refspec_texts(branch, tag)[1] == "refs/tags/"@ + t + ":"@ + "refs/tags/"@ + t,
{
}


/// A model of what the fetch and commit steps read and change of the local
/// repository: the branch that HEAD names, if any, and the commit of each
/// local branch.
pub struct RepoModel {
    pub head: Option<Seq<char>>,
    pub branches: Map<Seq<char>, Seq<char>>,
}

/// HEAD's short name, when HEAD names a branch that exists (an unborn
/// branch does not resolve).
pub open spec fn head_name(repo: RepoModel) -> Option<Seq<char>> {
    match repo.head {
        Some(h) => if repo.branches.contains_key(h) { Some(h) } else { None },
        None => None,
    }
}

/// The commit that HEAD points to, when it resolves.
pub open spec fn head_commit(repo: RepoModel) -> Option<Seq<char>> {
    match head_name(repo) {
        Some(h) => Some(repo.branches[h]),
        None => None,
    }
}

/// What the repository and the remote report back for a fetch action, where
/// `remote` is the commit of the branch on `origin` (`None` when `origin`
/// lacks the branch); fetching brings that commit into the remote-tracking
/// reference.
pub open spec fn fetch_response(repo: RepoModel, remote: Option<Seq<char>>, action: FetchActionView) -> FetchEventView {
    match action {
        FetchActionView::Fetch(_) => if remote is Some {
            FetchEventView::Fetched
        } else {
            FetchEventView::BranchNotOnRemote
        },
        FetchActionView::FindRemoteRef(_) => FetchEventView::RemoteRef(remote),
        FetchActionView::ReadHeadName => FetchEventView::HeadName(head_name(repo)),
        _ => FetchEventView::HeadCommit(
            match head_commit(repo) {
                Some(c) => c,
                None => Seq::empty(),
            },
        ),
    }
}

/// Whether a fetch action ends the fetch.
pub open spec fn ends_fetch(action: FetchActionView) -> bool {
    action is ResetHeadSoft || action is CheckoutBranch || action is Finish || action is Wait
}

/// What a final fetch action does to the repository: a checkout points the
/// branch at the commit and makes HEAD name it; a soft reset moves the branch
/// that HEAD names.
pub open spec fn fetch_effect(repo: RepoModel, action: FetchActionView) -> RepoModel {
    match action {
        FetchActionView::CheckoutBranch(b, c, _) => RepoModel { head: Some(b), branches: repo.branches.insert(b, c) },
        FetchActionView::ResetHeadSoft(c) => match repo.head {
            Some(h) => RepoModel { head: repo.head, branches: repo.branches.insert(h, c) },
            None => repo,
        },
        _ => repo,
    }
}

/// The repository after running a fetch from `stage` and `action` on, the
/// repository answering each action, for at most `fuel` answers.
pub open spec fn drive_fetch(
    branch: Seq<char>,
    remote: Option<Seq<char>>,
    repo: RepoModel,
    stage: FetchStageView,
    action: FetchActionView,
    fuel: nat,
) -> RepoModel
    decreases fuel,
{
    if ends_fetch(action) {
        fetch_effect(repo, action)
    } else if fuel == 0 {
        repo
    } else {
        let (next, next_action) = fetch_step(branch, stage, fetch_response(repo, remote, action));
        drive_fetch(branch, remote, repo, next, next_action, (fuel - 1) as nat)
    }
}

/// The repository after fetching `branch` whose commit on `origin` is `remote`.
pub open spec fn fetch_outcome(branch: Seq<char>, remote: Option<Seq<char>>, repo: RepoModel) -> RepoModel {
    drive_fetch(
        branch,
        remote,
        repo,
        FetchStageView::Fetching,
        FetchActionView::Fetch(branch_ref(branch) + ":"@ + remote_branch_ref(branch)),
        4,
    )
}

/// After a fetch of a branch that `origin` has at `r`, HEAD names the branch
/// and the branch is at `r`; a fetch of a branch that `origin` lacks changes
/// nothing.
pub proof fn lemma_fetch_syncs_branch(branch: Seq<char>, remote: Option<Seq<char>>, repo: RepoModel)
    ensures
        remote matches Some(r) ==> {
            &&& fetch_outcome(branch, remote, repo).head == Some(branch)
            &&& fetch_outcome(branch, remote, repo).branches.contains_key(branch)
            &&& fetch_outcome(branch, remote, repo).branches[branch] == r
            &&& head_commit(fetch_outcome(branch, remote, repo)) == Some(r)
        },
        remote is None ==> fetch_outcome(branch, remote, repo) == repo,
{
    reveal_with_fuel(drive_fetch, 5);
}

/// Fetching twice leaves the repository as fetching once, when `origin` has
/// not changed in between.
pub proof fn lemma_fetch_idempotent(branch: Seq<char>, remote: Option<Seq<char>>, repo: RepoModel)
    ensures
        fetch_outcome(branch, remote, fetch_outcome(branch, remote, repo)) == fetch_outcome(branch, remote, repo),
{
    reveal_with_fuel(drive_fetch, 5);
    lemma_fetch_syncs_branch(branch, remote, repo);
}

/// A commit made after fetching a branch that `origin` has at `r` is built on
/// `r`: its parent is the fetched remote commit, so the pushed branch extends
/// the remote's history.
pub proof fn lemma_commit_builds_on_fetched_commit(
    branch: Seq<char>,
    remote: Seq<char>,
    repo: RepoModel,
    tag: Option<Seq<char>>,
    message: Seq<char>,
)
    ensures
        commit_step(
            branch,
            tag,
            message,
            CommitStageView::ReadingParent,
            CommitEventView::Parent(head_commit(fetch_outcome(branch, Some(remote), repo))),
        ) == (CommitStageView::Committing, CommitActionView::Commit(message, Some(remote))),
{
    lemma_fetch_syncs_branch(branch, Some(remote), repo);
}

} // verus!
