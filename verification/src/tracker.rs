//! The decisions of one tracking round: which listed versions still have to
//! be decompiled and committed, and in which order.
use vstd::prelude::*;
use crate::piston_meta::OpenSourceVersion;
use crate::piston_meta::VersionView;
use crate::text::same_text;
use crate::git::VersionCommit;
use crate::git::CommitAction;
use crate::git::CommitActionView;
use crate::git::CommitStageView;

verus! {

/// Whether `name` is among the already processed versions (the tags that the
/// repository already holds).
pub open spec fn is_processed(processed: Seq<Seq<char>>, name: Seq<char>) -> bool {
    processed.contains(name)
}

/// The versions still to process: those of `listed` that are not yet
/// processed, oldest first (the listing comes newest first).
pub open spec fn pending(listed: Seq<VersionView>, processed: Seq<Seq<char>>) -> Seq<VersionView> {
    listed.filter(|v: VersionView| !is_processed(processed, v.version)).reverse()
}

fn contains_text(items: &Vec<String>, name: &String) -> (r: bool)
    ensures
        r == is_processed(items@.map_values(|s: String| s@), name@),
{
    let ghost names = items@.map_values(|s: String| s@);
    let mut i: usize = 0;
    while i < items.len()
        invariant
            i <= items@.len(),
            names == items@.map_values(|s: String| s@),
            forall|j: int| 0 <= j < i ==> names[j] != name@,
        decreases items@.len() - i,
    {
        if same_text(items[i].as_str(), name.as_str()) {
            assert(names[i as int] == name@);
            return true;
        }
        i = i + 1;
    }
    assert forall|j: int| 0 <= j < names.len() implies names[j] != name@ by {}
    false
}

fn clone_version(v: &OpenSourceVersion) -> (r: OpenSourceVersion)
    ensures
        r@ == v@,
{
    OpenSourceVersion { version: v.version.clone(), manifest_url: v.manifest_url.clone(), is_snapshot: v.is_snapshot }
}

/// The listed versions that are not yet processed, oldest first.
pub fn versions_to_process(listed: &Vec<OpenSourceVersion>, processed: &Vec<String>) -> (r: Vec<OpenSourceVersion>)
    ensures
        r@.map_values(|v: OpenSourceVersion| v@) == pending(
            listed@.map_values(|v: OpenSourceVersion| v@),
            processed@.map_values(|s: String| s@),
        ),
{
    let ghost all = listed@.map_values(|v: OpenSourceVersion| v@);
    let ghost names = processed@.map_values(|s: String| s@);
    let ghost keep = |v: VersionView| !is_processed(names, v.version);
    let mut kept: Vec<OpenSourceVersion> = Vec::new();
    let mut i: usize = 0;
    while i < listed.len()
        invariant
            i <= listed@.len(),
            all == listed@.map_values(|v: OpenSourceVersion| v@),
            names == processed@.map_values(|s: String| s@),
            keep == (|v: VersionView| !is_processed(names, v.version)),
            kept@.map_values(|v: OpenSourceVersion| v@) == all.take(i as int).filter(keep),
        decreases listed@.len() - i,
    {
        let ghost before = kept@.map_values(|v: OpenSourceVersion| v@);
        assert(all.take(i + 1).drop_last() =~= all.take(i as int));
        assert(all.take(i + 1).last() == all[i as int]);
        proof { reveal_with_fuel(Seq::filter, 1); }
        if !contains_text(processed, &listed[i].version) {
            let v = clone_version(&listed[i]);
            kept.push(v);
            assert(kept@.map_values(|v: OpenSourceVersion| v@) =~= before.push(all[i as int]));
        } else {
            assert(kept@.map_values(|v: OpenSourceVersion| v@) =~= before);
        }
        i = i + 1;
    }
    assert(all.take(listed@.len() as int) =~= all);
    let ghost filtered = all.filter(keep);
    let mut out: Vec<OpenSourceVersion> = Vec::new();
    let mut k: usize = kept.len();
    while k > 0
        invariant
            k <= kept@.len(),
            kept@.map_values(|v: OpenSourceVersion| v@) == filtered,
            out@.map_values(|v: OpenSourceVersion| v@) =~= filtered.reverse().take((filtered.len() - k) as int),
        decreases k,
    {
        k = k - 1;
        let ghost before = out@.map_values(|v: OpenSourceVersion| v@);
        let v = clone_version(&kept[k]);
        assert(v@ == filtered[k as int]);
        assert(filtered.reverse()[filtered.len() - 1 - k] == filtered[k as int]);
        out.push(v);
        assert(out@.map_values(|v: OpenSourceVersion| v@) =~= before.push(v@));
        assert(out@.map_values(|v: OpenSourceVersion| v@) =~= filtered.reverse().take((filtered.len() - k) as int));
    }
    assert(filtered.reverse().take(filtered.len() as int) =~= filtered.reverse());
    out
}


/// No already processed version is processed again, every listed version
/// that is not yet processed is, and nothing else is: the round's work is
/// exactly the unprocessed part of the listing.
pub proof fn lemma_pending_is_unprocessed_part(listed: Seq<VersionView>, processed: Seq<Seq<char>>)
    ensures
        forall|k: int, m: int| 0 <= k < pending(listed, processed).len() && 0 <= m < processed.len()
            ==> #[trigger] processed[m] != #[trigger] pending(listed, processed)[k].version,
        forall|k: int| 0 <= k < pending(listed, processed).len()
            ==> listed.contains(#[trigger] pending(listed, processed)[k]),
        forall|j: int| 0 <= j < listed.len() && (forall|m: int| 0 <= m < processed.len() ==> processed[m] != listed[j].version)
            ==> pending(listed, processed).contains(#[trigger] listed[j]),
        pending(listed, processed).len() <= listed.len(),
{
    let keep = |v: VersionView| !is_processed(processed, v.version);
    let f = listed.filter(keep);
    listed.filter_lemma(keep);
    let p = pending(listed, processed);
    assert(p == f.reverse());
    assert forall|k: int, m: int| 0 <= k < p.len() && 0 <= m < processed.len()
        implies #[trigger] processed[m] != #[trigger] p[k].version by {
        assert(p[k] == f[f.len() - 1 - k]);
        assert(keep(f[f.len() - 1 - k]));
        if processed[m] == p[k].version {
            assert(processed.contains(p[k].version));
        }
    }
    assert forall|k: int| 0 <= k < p.len() implies !is_processed(processed, #[trigger] p[k].version)
        && listed.contains(p[k]) by {
        assert(p[k] == f[f.len() - 1 - k]);
        assert(keep(f[f.len() - 1 - k]));
        listed.lemma_filter_contains_rev(keep, f[f.len() - 1 - k]);
    }
    assert forall|j: int| 0 <= j < listed.len() && (forall|m: int| 0 <= m < processed.len() ==> processed[m] != listed[j].version)
        implies p.contains(#[trigger] listed[j]) by {
        if processed.contains(listed[j].version) {
            let m = choose|m: int| 0 <= m < processed.len() && processed[m] == listed[j].version;
            assert(processed[m] == listed[j].version);
        }
        assert(keep(listed[j]));
        assert(f.contains(listed[j]));
        let m = choose|m: int| 0 <= m < f.len() && f[m] == listed[j];
        assert(p[f.len() - 1 - m] == f[m]);
    }
}

/// Once every listed version is processed, a round has nothing to do.
pub proof fn lemma_nothing_pending_once_all_processed(listed: Seq<VersionView>, processed: Seq<Seq<char>>)
    requires
        forall|j: int| 0 <= j < listed.len() ==> processed.contains(#[trigger] listed[j].version),
    ensures
        pending(listed, processed).len() == 0,
{
    assert forall|j: int| 0 <= j < listed.len() implies is_processed(processed, #[trigger] listed[j].version) by {}
    let keep = |v: VersionView| !is_processed(processed, v.version);
    assert(listed.all(|x: VersionView| !keep(x)));
    listed.lemma_all_neg_filter_empty(keep);
}

/// Processing is oldest first: of two unprocessed versions, the one listed
/// later (older) is processed earlier.
pub proof fn lemma_pending_oldest_first(listed: Seq<VersionView>, processed: Seq<Seq<char>>, k1: int, k2: int)
    requires
        0 <= k1 < k2 < pending(listed, processed).len(),
    ensures
        exists|j1: int, j2: int| 0 <= j2 < j1 < listed.len()
            && listed[j1] == pending(listed, processed)[k1]
            && listed[j2] == pending(listed, processed)[k2],
{
    let keep = |v: VersionView| !is_processed(processed, v.version);
    let f = listed.filter(keep);
    let p = pending(listed, processed);
    lemma_filter_is_subsequence(listed, keep);
    let i1 = f.len() - 1 - k1;
    let i2 = f.len() - 1 - k2;
    assert(p[k1] == f[i1]);
    assert(p[k2] == f[i2]);
    let pos = choose|pos: Seq<int>| is_embedding(listed, f, pos);
    assert(listed[pos[i1]] == p[k1]);
    assert(listed[pos[i2]] == p[k2]);
}

/// `pos` places each element of `sub` in `s`, at strictly increasing positions.
pub open spec fn is_embedding<A>(s: Seq<A>, sub: Seq<A>, pos: Seq<int>) -> bool {
    &&& pos.len() == sub.len()
    &&& forall|i: int| 0 <= i < pos.len() ==> 0 <= #[trigger] pos[i] < s.len() && s[pos[i]] == sub[i]
    &&& forall|i: int, j: int| 0 <= i < j < pos.len() ==> #[trigger] pos[i] < #[trigger] pos[j]
}

/// A filter keeps the order of what it keeps.
pub proof fn lemma_filter_is_subsequence<A>(s: Seq<A>, pred: spec_fn(A) -> bool)
    ensures
        exists|pos: Seq<int>| is_embedding(s, s.filter(pred), pos),
    decreases s.len(),
{
    reveal_with_fuel(Seq::filter, 1);
    if s.len() == 0 {
        assert(is_embedding(s, s.filter(pred), Seq::<int>::empty()));
    } else {
        let init = s.drop_last();
        lemma_filter_is_subsequence(init, pred);
        let pos0 = choose|pos: Seq<int>| is_embedding(init, init.filter(pred), pos);
        if pred(s.last()) {
            let pos = pos0.push(s.len() - 1);
            assert(is_embedding(s, s.filter(pred), pos));
        } else {
            assert(is_embedding(s, s.filter(pred), pos0));
        }
    }
}


/// The branch that holds the decompiled sources.
pub const TRACKED_BRANCH: &'static str = "client";

/// Starts the commit that records a decompiled version: the sources in
/// `directory` go onto the tracked branch with the version's commit message,
/// tagged with the version's name, so that a later round counts the version
/// as processed.
pub fn start_version_commit(version: &OpenSourceVersion, directory: &str) -> (r: (VersionCommit, CommitAction))
    ensures
        r.0.branch@ == TRACKED_BRANCH@,
        r.0.tag.deep_view() == Some(version.version@),
        r.0.message@ == version@.commit_message_text(),
        r.0.stage@ == CommitStageView::Staging,
        r.1@ == CommitActionView::StageDirectory(directory@),
{
    VersionCommit::new(directory, version.commit_message(), TRACKED_BRANCH, Some(version.version.clone()))
}

/// The tags that a round adds when it records every pending version: one per
/// version, named as the version.
pub open spec fn round_tags(listed: Seq<VersionView>, processed: Seq<Seq<char>>) -> Seq<Seq<char>> {
    pending(listed, processed).map_values(|v: VersionView| v.version)
}

/// A round that records every pending version (tagging each with its name)
/// leaves nothing for the next round on the same listing.
pub proof fn lemma_second_round_does_nothing(listed: Seq<VersionView>, processed: Seq<Seq<char>>)
    ensures
        pending(listed, processed + round_tags(listed, processed)).len() == 0,
{
    let after = processed + round_tags(listed, processed);
    lemma_pending_is_unprocessed_part(listed, processed);
    let p = pending(listed, processed);
    assert forall|j: int| 0 <= j < listed.len() implies after.contains(#[trigger] listed[j].version) by {
        if is_processed(processed, listed[j].version) {
            let k = choose|k: int| 0 <= k < processed.len() && processed[k] == listed[j].version;
            assert(after[k] == processed[k]);
        } else {
            assert forall|m: int| 0 <= m < processed.len() implies processed[m] != listed[j].version by {
                if processed[m] == listed[j].version {
                    assert(processed.contains(processed[m]));
                }
            }
            assert(p.contains(listed[j]));
            let k = choose|k: int| 0 <= k < p.len() && p[k] == listed[j];
            assert(round_tags(listed, processed)[k] == listed[j].version);
            assert(after[processed.len() + k] == listed[j].version);
        }
    }
    lemma_nothing_pending_once_all_processed(listed, after);
}

} // verus!
