//! Choosing the open-source versions from the launcher's version manifest, and
//! the pieces of the client-jar download that decide rather than fetch.
use vstd::prelude::*;

verus! {

#[verifier::external_type_specification]
#[verifier::external_body]
pub struct ExParseError(chrono::format::ParseError);

#[verifier::external_type_specification]
#[verifier::external_body]
pub struct ExPathBuf(std::path::PathBuf);

/// The format of the `releaseTime` field of the version manifest,
/// for example `2025-12-16T12:42:29+00:00`.
pub const RELEASE_TIME_FORMAT: &'static str = "%Y-%m-%dT%T%z";

/// The release time of the first version whose sources were published
/// deobfuscated (`26.1-snapshot-1`).
pub const DATE_OF_OPEN_SOURCE: &'static str = "2025-12-16T12:42:29+00:00";

/// Errors met while reading the version manifest or a version's own manifest.
#[derive(Debug, Clone, PartialEq, Eq)]
pub enum PistonMetaError {
    FailedToGetVersionsList,
    VersionDoesNotHaveID(String),
    VersionDoesNotHaveReleaseDate(String),
    VersionDoesNotHaveManifestUrl(String),
    VersionDoesNotHaveClientJar(String),
}

/// The abstract value of a [`PistonMetaError`].
pub enum MetaErrorView {
    FailedToGetVersionsList,
    VersionDoesNotHaveID(Seq<char>),
    VersionDoesNotHaveReleaseDate(Seq<char>),
    VersionDoesNotHaveManifestUrl(Seq<char>),
    VersionDoesNotHaveClientJar(Seq<char>),
}

impl View for PistonMetaError {
    type V = MetaErrorView;

    open spec fn view(&self) -> MetaErrorView {
        match self {
            PistonMetaError::FailedToGetVersionsList => MetaErrorView::FailedToGetVersionsList,
            PistonMetaError::VersionDoesNotHaveID(s) => MetaErrorView::VersionDoesNotHaveID(s@),
            PistonMetaError::VersionDoesNotHaveReleaseDate(s) => MetaErrorView::VersionDoesNotHaveReleaseDate(s@),
            PistonMetaError::VersionDoesNotHaveManifestUrl(s) => MetaErrorView::VersionDoesNotHaveManifestUrl(s@),
            PistonMetaError::VersionDoesNotHaveClientJar(s) => MetaErrorView::VersionDoesNotHaveClientJar(s@),
        }
    }
}

impl MetaErrorView {
    /// The human-readable text of the error.
    pub open spec fn text(self) -> Seq<char> {
        match self {
            MetaErrorView::FailedToGetVersionsList =>
                "Failed to get the versions list from the piston version manifest v2"@,
            MetaErrorView::VersionDoesNotHaveID(s) => "version does not have a ID: "@ + s,
            MetaErrorView::VersionDoesNotHaveReleaseDate(s) =>
                "'"@ + s + "' version does not have a release date"@,
            MetaErrorView::VersionDoesNotHaveManifestUrl(s) =>
                "'"@ + s + "' version does not have a manifest url"@,
            MetaErrorView::VersionDoesNotHaveClientJar(s) =>
                "'"@ + s + "' version does not have a client jar url"@,
        }
    }
}

fn quoted_then(subject: &String, rest: &str) -> (r: String)
    ensures
        r@ == "'"@ + subject@ + rest@,
{
    let mut out = String::from_str("'");
    out.append(subject.as_str());
    out.append(rest);
    out
}

impl PistonMetaError {
    /// The human-readable text of the error.
    pub fn message(&self) -> (r: String)
        ensures
            r@ == self@.text(),
    {
        match self {
            PistonMetaError::FailedToGetVersionsList => String::from_str(
                "Failed to get the versions list from the piston version manifest v2",
            ),
            PistonMetaError::VersionDoesNotHaveID(s) => {
                let mut out = String::from_str("version does not have a ID: ");
                out.append(s.as_str());
                out
            },
            PistonMetaError::VersionDoesNotHaveReleaseDate(s) => quoted_then(
                s,
                "' version does not have a release date",
            ),
            PistonMetaError::VersionDoesNotHaveManifestUrl(s) => quoted_then(
                s,
                "' version does not have a manifest url",
            ),
            PistonMetaError::VersionDoesNotHaveClientJar(s) => quoted_then(
                s,
                "' version does not have a client jar url",
            ),
        }
    }
}


/// A point in time as `chrono::NaiveDateTime` holds it: the whole seconds
/// since the Unix epoch (the offset of the text is not applied) and the
/// sub-second nanoseconds, which reach past one second only during a leap
/// second. Ordering by `(secs, nanos)` is the ordering of `NaiveDateTime`:
/// its date and its seconds-from-midnight first, then its fraction.
#[derive(Debug, Clone, Copy, PartialEq, Eq)]
pub struct ReleaseTime {
    pub secs: i64,
    pub nanos: u32,
}

impl ReleaseTime {
    /// Whether `self` comes no later than `other`.
    pub open spec fn not_after(self, other: ReleaseTime) -> bool {
        self.secs < other.secs || (self.secs == other.secs && self.nanos <= other.nanos)
    }

    /// Whether `self` is at or after `other` (`self >= other` on `NaiveDateTime`).
    pub fn is_at_or_after(&self, other: &ReleaseTime) -> (r: bool)
        ensures
            r == other.not_after(*self),
    {
        other.secs < self.secs || (other.secs == self.secs && other.nanos <= self.nanos)
    }
}

/// Release times are ordered by their seconds, and within the same second by
/// their nanoseconds, at every magnitude: the order is the lexicographic order
/// on `(secs, nanos)`, a total order.
pub proof fn lemma_release_time_order(a: ReleaseTime, b: ReleaseTime, c: ReleaseTime)
    ensures
        a.not_after(b) <==> (a.secs < b.secs || (a.secs == b.secs && a.nanos <= b.nanos)),
        a.not_after(a),
        a.not_after(b) || b.not_after(a),
        a.not_after(b) && b.not_after(a) ==> a == b,
        a.not_after(b) && b.not_after(c) ==> a.not_after(c),
        a.secs < b.secs ==> a.not_after(b) && !b.not_after(a),
{
}

/// Once the open-source date parses, every release time in a later second
/// is open source, and every release time in an earlier second is not.
pub proof fn lemma_later_seconds_are_open_source(date: ReleaseTime)
    ensures
        open_source_threshold() matches Some(t) ==> (date.secs > t.secs ==> t.not_after(date))
            && (date.secs < t.secs ==> !t.not_after(date)),
{
}

/// What `chrono::NaiveDateTime::parse_from_str(text, format)` returns, as the
/// pair `(and_utc().timestamp(), and_utc().timestamp_subsec_nanos())`, or
/// `None` where it returns an error.
pub uninterp spec fn naive_datetime_parse(text: Seq<char>, format: Seq<char>) -> Option<(i64, u32)>;

/// The release time that `text` denotes in `RELEASE_TIME_FORMAT`, if it parses.
pub open spec fn release_time_of(text: Seq<char>) -> Option<ReleaseTime> {
    match naive_datetime_parse(text, RELEASE_TIME_FORMAT@) {
        Some(p) => Some(ReleaseTime { secs: p.0, nanos: p.1 }),
        None => None,
    }
}

/// The open-source date, if its text parses.
pub open spec fn open_source_threshold() -> Option<ReleaseTime> {
    release_time_of(DATE_OF_OPEN_SOURCE@)
}

/// Calls `chrono::NaiveDateTime::parse_from_str(text, format)`. Its result is
/// a function of the two strings alone; the contract names it and claims that
/// an `Ok` carries the timestamp seconds and sub-second nanoseconds of the
/// parsed value. What the error holds is left unsaid.
#[verifier::external_body]
fn parse_naive_datetime(text: &str, format: &str) -> (r: Result<ReleaseTime, chrono::format::ParseError>)
    ensures
        r is Ok <==> naive_datetime_parse(text@, format@) is Some,
        r matches Ok(t) ==> naive_datetime_parse(text@, format@) == Some((t.secs, t.nanos)),
{
    match chrono::NaiveDateTime::parse_from_str(text, format) {
        Ok(d) => Ok(ReleaseTime { secs: d.and_utc().timestamp(), nanos: d.and_utc().timestamp_subsec_nanos() }),
        Err(e) => Err(e),
    }
}

/// Parses a `releaseTime` of the version manifest.
pub fn parse_release_time(text: &str) -> (r: Result<ReleaseTime, chrono::format::ParseError>)
    ensures
        r is Ok <==> release_time_of(text@) is Some,
        r matches Ok(t) ==> release_time_of(text@) == Some(t),
{
    parse_naive_datetime(text, RELEASE_TIME_FORMAT)
}

/// Errors of the open-source version listing.
#[derive(Debug)]
pub enum VersionListError {
    Meta(PistonMetaError),
    /// A release time that did not parse, with chrono's error.
    ReleaseTime(chrono::format::ParseError),
}

/// The abstract value of a [`VersionListError`]: which error, without the
/// parse error's inner detail.
pub enum ListErrorView {
    Meta(MetaErrorView),
    ReleaseTime,
}

impl View for VersionListError {
    type V = ListErrorView;

    open spec fn view(&self) -> ListErrorView {
        match self {
            VersionListError::Meta(e) => ListErrorView::Meta(e@),
            VersionListError::ReleaseTime(_) => ListErrorView::ReleaseTime,
        }
    }
}

/// Whether a version released at `date` is open source: the open-source
/// date itself counts, and so does everything after it.
pub fn is_date_open_source(date: ReleaseTime) -> (r: Result<bool, VersionListError>)
    ensures
        match open_source_threshold() {
            Some(t) => r matches Ok(b) && b == t.not_after(date),
            None => r matches Err(e) && e@ == ListErrorView::ReleaseTime,
        },
{
    match parse_release_time(DATE_OF_OPEN_SOURCE) {
        Ok(threshold) => Ok(date.is_at_or_after(&threshold)),
        Err(e) => Err(VersionListError::ReleaseTime(e)),
    }
}


/// One entry of the launcher's version manifest, holding what the listing
/// reads of it: each field is present when the entry has it as a JSON string.
#[derive(Debug, Clone, PartialEq, Eq)]
pub struct ManifestEntry {
    /// The `id` field.
    pub id: Option<String>,
    /// The `releaseTime` field.
    pub release_time: Option<String>,
    /// The `url` field (the version's own manifest).
    pub url: Option<String>,
    /// The `type` field (`release`, `snapshot`, ...).
    pub kind: Option<String>,
    /// The whole entry written as JSON, for the error that names it.
    pub json: String,
}

/// The abstract value of a [`ManifestEntry`].
pub struct EntryView {
    pub id: Option<Seq<char>>,
    pub release_time: Option<Seq<char>>,
    pub url: Option<Seq<char>>,
    pub kind: Option<Seq<char>>,
    pub json: Seq<char>,
}

impl View for ManifestEntry {
    type V = EntryView;

    open spec fn view(&self) -> EntryView {
        EntryView {
            id: self.id.deep_view(),
            release_time: self.release_time.deep_view(),
            url: self.url.deep_view(),
            kind: self.kind.deep_view(),
            json: self.json@,
        }
    }
}

/// The launcher's version manifest: the `versions` array, when the document
/// has one.
#[derive(Debug, Clone, PartialEq, Eq)]
pub struct VersionManifest {
    pub versions: Option<Vec<ManifestEntry>>,
}

impl View for VersionManifest {
    type V = Option<Seq<EntryView>>;

    open spec fn view(&self) -> Option<Seq<EntryView>> {
        match self.versions {
            Some(v) => Some(v@.map_values(|e: ManifestEntry| e@)),
            None => None,
        }
    }
}

/// A version whose sources are published deobfuscated.
#[derive(Debug, Clone, PartialEq, Eq)]
pub struct OpenSourceVersion {
    pub version: String,
    pub manifest_url: String,
    pub is_snapshot: bool,
}

/// The abstract value of an [`OpenSourceVersion`].
pub struct VersionView {
    pub version: Seq<char>,
    pub manifest_url: Seq<char>,
    pub is_snapshot: bool,
}

impl View for OpenSourceVersion {
    type V = VersionView;

    open spec fn view(&self) -> VersionView {
        VersionView { version: self.version@, manifest_url: self.manifest_url@, is_snapshot: self.is_snapshot }
    }
}

impl VersionView {
    /// `Processed minecraft <snapshot|release> version <version>`.
    pub open spec fn commit_message_text(self) -> Seq<char> {
        "Processed minecraft "@ + (if self.is_snapshot { "snapshot"@ } else { "release"@ }) + " version "@
            + self.version
    }
}

/// The commit message names the kind (`snapshot` or `release`) and the whole
/// version name: different versions get different messages.
pub proof fn lemma_commit_message_names_version(a: VersionView, b: VersionView)
    ensures
        a.commit_message_text() == "Processed minecraft "@ + (if a.is_snapshot { "snapshot"@ } else { "release"@ })
            + " version "@ + a.version,
        a.commit_message_text() == b.commit_message_text() ==> a.version == b.version && a.is_snapshot == b.is_snapshot,
{
    reveal_strlit("Processed minecraft ");
    reveal_strlit("snapshot");
    reveal_strlit("release");
    reveal_strlit(" version ");
    let pa = "Processed minecraft "@ + (if a.is_snapshot { "snapshot"@ } else { "release"@ }) + " version "@;
    let pb = "Processed minecraft "@ + (if b.is_snapshot { "snapshot"@ } else { "release"@ }) + " version "@;
    if a.commit_message_text() == b.commit_message_text() {
        if a.is_snapshot != b.is_snapshot {
            assert((pa + a.version)[20] != (pb + b.version)[20]);
        }
        assert(pa == pb);
        assert((pa + a.version).skip(pa.len() as int) =~= a.version);
        assert((pb + b.version).skip(pb.len() as int) =~= b.version);
    }
}

/// The downloaded client jar of a version.
#[derive(Debug)]
pub struct DownloadResult {
    pub client: std::path::PathBuf,
}

/// What the listing does with one manifest entry.
#[derive(Debug)]
pub enum EntryVerdict {
    /// The entry is open source: list it and go on.
    Take(OpenSourceVersion),
    /// The entry predates the open-source date: stop listing.
    Stop,
    /// A field the listing needs is missing.
    Missing(PistonMetaError),
    /// The release time did not parse.
    BadReleaseTime,
    /// The open-source date did not parse.
    BadThreshold,
}

/// The abstract value of an [`EntryVerdict`].
pub enum VerdictView {
    Take(VersionView),
    Stop,
    Missing(MetaErrorView),
    BadReleaseTime,
    BadThreshold,
}

impl View for EntryVerdict {
    type V = VerdictView;

    open spec fn view(&self) -> VerdictView {
        match self {
            EntryVerdict::Take(v) => VerdictView::Take(v@),
            EntryVerdict::Stop => VerdictView::Stop,
            EntryVerdict::Missing(e) => VerdictView::Missing(e@),
            EntryVerdict::BadReleaseTime => VerdictView::BadReleaseTime,
            EntryVerdict::BadThreshold => VerdictView::BadThreshold,
        }
    }
}

/// A `type` of `snapshot` marks a snapshot; a missing `type` counts as `release`.
pub open spec fn is_snapshot_kind(kind: Option<Seq<char>>) -> bool {
    kind matches Some(k) && k == "snapshot"@
}

/// The verdict on an entry, given the parsed release time (`None` when it did
/// not parse) and whether that time is open source (`None` when the
/// open-source date did not parse). Fields are checked in the order `id`,
/// `releaseTime`, `url`.
pub open spec fn verdict_of(e: EntryView, release: Option<ReleaseTime>, open_source: Option<bool>) -> VerdictView {
    match e.id {
        None => VerdictView::Missing(MetaErrorView::VersionDoesNotHaveID(e.json)),
        Some(id) => match e.release_time {
            None => VerdictView::Missing(MetaErrorView::VersionDoesNotHaveReleaseDate(id)),
            Some(_) => match e.url {
                None => VerdictView::Missing(MetaErrorView::VersionDoesNotHaveManifestUrl(id)),
                Some(url) => match release {
                    None => VerdictView::BadReleaseTime,
                    Some(_) => match open_source {
                        None => VerdictView::BadThreshold,
                        Some(true) => VerdictView::Take(
                            VersionView { version: id, manifest_url: url, is_snapshot: is_snapshot_kind(e.kind) },
                        ),
                        Some(false) => VerdictView::Stop,
                    },
                },
            },
        },
    }
}

/// The parsed release time of an entry, when it has one that parses.
pub open spec fn entry_release(e: EntryView) -> Option<ReleaseTime> {
    match e.release_time {
        Some(t) => release_time_of(t),
        None => None,
    }
}

/// Whether the entry's release time is open source, when both it and the
/// open-source date parse.
pub open spec fn entry_open_source(e: EntryView) -> Option<bool> {
    match (entry_release(e), open_source_threshold()) {
        (Some(d), Some(t)) => Some(t.not_after(d)),
        _ => None,
    }
}

/// The verdict that the listing reaches on a manifest entry.
pub open spec fn manifest_verdict(e: EntryView) -> VerdictView {
    verdict_of(e, entry_release(e), entry_open_source(e))
}

/// `front` followed by a listing result.
pub open spec fn prefixed(
    front: Seq<VersionView>,
    r: Result<Seq<VersionView>, ListErrorView>,
) -> Result<Seq<VersionView>, ListErrorView> {
    match r {
        Ok(rest) => Ok(front + rest),
        Err(e) => Err(e),
    }
}

/// The open-source versions of a list of entries: entries are taken in order
/// until the first one released before the open-source date; the first entry
/// before that point that lacks a field, or whose time does not parse, makes
/// the whole listing fail.
pub open spec fn selection(entries: Seq<EntryView>) -> Result<Seq<VersionView>, ListErrorView>
    decreases entries.len(),
{
    if entries.len() == 0 {
        Ok(seq![])
    } else {
        match manifest_verdict(entries[0]) {
            VerdictView::Take(v) => prefixed(seq![v], selection(entries.drop_first())),
            VerdictView::Stop => Ok(seq![]),
            VerdictView::Missing(m) => Err(ListErrorView::Meta(m)),
            VerdictView::BadReleaseTime => Err(ListErrorView::ReleaseTime),
            VerdictView::BadThreshold => Err(ListErrorView::ReleaseTime),
        }
    }
}

/// The open-source listing of a whole manifest.
pub open spec fn listing(manifest: Option<Seq<EntryView>>) -> Result<Seq<VersionView>, ListErrorView> {
    match manifest {
        None => Err(ListErrorView::Meta(MetaErrorView::FailedToGetVersionsList)),
        Some(entries) => selection(entries),
    }
}

/// Whether an executable listing result has the abstract value `expected`.
pub open spec fn listed_as(
    r: Result<Vec<OpenSourceVersion>, VersionListError>,
    expected: Result<Seq<VersionView>, ListErrorView>,
) -> bool {
    match (r, expected) {
        (Ok(out), Ok(vs)) => out@.map_values(|v: OpenSourceVersion| v@) == vs,
        (Err(x), Err(e)) => x@ == e,
        _ => false,
    }
}

fn clone_text(s: &String) -> (r: String)
    ensures
        r@ == s@,
{
    s.clone()
}

/// Decides on one manifest entry, given the parse of its release time and
/// whether that time is open source (see [`verdict_of`]).
pub fn entry_verdict(entry: &ManifestEntry, release: Option<ReleaseTime>, open_source: Option<bool>) -> (r: EntryVerdict)
    ensures
        r@ == verdict_of(entry@, release, open_source),
{
    let id = match &entry.id {
        None => return EntryVerdict::Missing(PistonMetaError::VersionDoesNotHaveID(clone_text(&entry.json))),
        Some(id) => id,
    };
    if entry.release_time.is_none() {
        return EntryVerdict::Missing(PistonMetaError::VersionDoesNotHaveReleaseDate(clone_text(id)));
    }
    let url = match &entry.url {
        None => return EntryVerdict::Missing(PistonMetaError::VersionDoesNotHaveManifestUrl(clone_text(id))),
        Some(url) => url,
    };
    if release.is_none() {
        return EntryVerdict::BadReleaseTime;
    }
    match open_source {
        None => EntryVerdict::BadThreshold,
        Some(false) => EntryVerdict::Stop,
        Some(true) => {
            let is_snapshot = match &entry.kind {
                Some(k) => {
                    proof { reveal_strlit("snapshot"); }
                    crate::text::same_text(k.as_str(), "snapshot")
                },
                None => false,
            };
            EntryVerdict::Take(
                OpenSourceVersion { version: clone_text(id), manifest_url: clone_text(url), is_snapshot },
            )
        },
    }
}

proof fn lemma_prefixed_assoc(a: Seq<VersionView>, b: Seq<VersionView>, r: Result<Seq<VersionView>, ListErrorView>)
    ensures
        prefixed(a, prefixed(b, r)) == prefixed(a + b, r),
{
    match r {
        Ok(rest) => {
            assert(a + (b + rest) =~= (a + b) + rest);
        },
        Err(_) => {},
    }
}

/// Lists the open-source versions of the launcher's version manifest, newest
/// first as the manifest orders them, stopping at the first version released
/// before the open-source date.
pub fn select_open_source_versions(manifest: &VersionManifest) -> (r: Result<Vec<OpenSourceVersion>, VersionListError>)
    ensures
        listed_as(r, listing(manifest@)),
{
    let entries = match &manifest.versions {
        None => return Err(VersionListError::Meta(PistonMetaError::FailedToGetVersionsList)),
        Some(v) => v,
    };
    let ghost es = entries@.map_values(|e: ManifestEntry| e@);
    let mut out: Vec<OpenSourceVersion> = Vec::new();
    let mut i: usize = 0;
    assert(es.skip(0) =~= es);
    while i < entries.len()
        invariant
            i <= entries@.len(),
            es == entries@.map_values(|e: ManifestEntry| e@),
            manifest@ == Some(es),
            selection(es) == prefixed(out@.map_values(|v: OpenSourceVersion| v@), selection(es.skip(i as int))),
        decreases entries@.len() - i,
    {
        let entry = &entries[i];
        let ghost ev = entry@;
        assert(es.skip(i as int)[0] == ev);
        assert(es.skip(i as int).drop_first() =~= es.skip(i + 1));
        let parsed = match &entry.release_time {
            Some(t) => Some(parse_release_time(t.as_str())),
            None => None,
        };
        let release = match &parsed {
            Some(Ok(t)) => Some(*t),
            _ => None,
        };
        assert(release == entry_release(ev));
        let checked = match release {
            Some(d) => Some(is_date_open_source(d)),
            None => None,
        };
        let open_source = match &checked {
            Some(Ok(b)) => Some(*b),
            _ => None,
        };
        assert(open_source == entry_open_source(ev));
        let verdict = entry_verdict(entry, release, open_source);
        let ghost before = out@.map_values(|v: OpenSourceVersion| v@);
        match verdict {
            EntryVerdict::Take(v) => {
                let ghost vv = v@;
                out.push(v);
                assert(out@.map_values(|v: OpenSourceVersion| v@) =~= before + seq![vv]);
                proof { lemma_prefixed_assoc(before, seq![vv], selection(es.skip(i + 1))); }
            },
            EntryVerdict::Stop => {
                assert(before + seq![] =~= before);
                return Ok(out);
            },
            EntryVerdict::Missing(m) => {
                return Err(VersionListError::Meta(m));
            },
            EntryVerdict::BadReleaseTime => {
                match parsed {
                    Some(Err(e)) => return Err(VersionListError::ReleaseTime(e)),
                    _ => return vstd::pervasive::unreached(),
                }
            },
            EntryVerdict::BadThreshold => {
                match checked {
                    Some(Err(e)) => return Err(e),
                    _ => return vstd::pervasive::unreached(),
                }
            },
        }
        i = i + 1;
    }
    assert(es.skip(i as int) =~= Seq::<EntryView>::empty());
    assert(out@.map_values(|v: OpenSourceVersion| v@) + seq![] =~= out@.map_values(|v: OpenSourceVersion| v@));
    Ok(out)
}


/// Whether a version's verdict takes it with the version `v`: the entry has
/// every field, its time parses, is open source, and `v` is built from it.
pub open spec fn takes(e: EntryView, v: VersionView) -> bool {
    manifest_verdict(e) == VerdictView::Take(v)
}

/// A successful listing is a prefix of the manifest: its `k`-th version is
/// the `k`-th entry, whose release time is at or after the open-source date,
/// and the listing ends at the end of the manifest or at an entry released
/// before that date.
pub proof fn lemma_listing_is_open_source_prefix(entries: Seq<EntryView>)
    ensures
        selection(entries) matches Ok(vs) ==> {
            &&& vs.len() <= entries.len()
            &&& forall|k: int| 0 <= k < vs.len() ==> takes(#[trigger] entries[k], vs[k])
            &&& forall|k: int| 0 <= k < vs.len() ==> #[trigger] entry_open_source(entries[k]) == Some(true)
            &&& forall|k: int| 0 <= k < vs.len() ==> vs[k].version == entries[k].id->0
            &&& vs.len() < entries.len() ==> manifest_verdict(entries[vs.len() as int]) == VerdictView::Stop
            &&& vs.len() < entries.len() ==> entry_open_source(entries[vs.len() as int]) == Some(false)
        },
    decreases entries.len(),
{
    if entries.len() > 0 {
        let rest = entries.drop_first();
        lemma_listing_is_open_source_prefix(rest);
        match manifest_verdict(entries[0]) {
            VerdictView::Take(v) => {
                if let Ok(tail) = selection(rest) {
                    let vs = seq![v] + tail;
                    assert forall|k: int| 0 <= k < vs.len() implies takes(#[trigger] entries[k], vs[k]) by {
                        if k > 0 {
                            assert(entries[k] == rest[k - 1]);
                            assert(vs[k] == tail[k - 1]);
                        }
                    }
                    assert forall|k: int| 0 <= k < vs.len() implies #[trigger] entry_open_source(entries[k]) == Some(true) by {
                        assert(takes(entries[k], vs[k]));
                    }
                    assert forall|k: int| 0 <= k < vs.len() implies vs[k].version == entries[k].id->0 by {
                        assert(takes(entries[k], vs[k]));
                    }
                    if vs.len() < entries.len() {
                        assert(entries[vs.len() as int] == rest[tail.len() as int]);
                    }
                }
            },
            _ => {},
        }
    }
}

/// Whether the parsed time `q` comes no later than the parsed time `p`.
pub open spec fn parsed_not_after(q: (i64, u32), p: (i64, u32)) -> bool {
    q.0 < p.0 || (q.0 == p.0 && q.1 <= p.1)
}

/// What a successful listing says of each manifest entry, in the raw terms of
/// the manifest and of chrono's parse: the `k`-th listed version is the `k`-th
/// entry, with its `id` as name, its `url` as manifest url, marked a snapshot
/// exactly when its `type` is `snapshot`, and released (as chrono parses
/// `releaseTime` with `%Y-%m-%dT%T%z`) no earlier than the open-source date;
/// the entry after the last listed one, if any, is complete and released
/// strictly before that date.
pub proof fn lemma_listed_versions_describe_entries(entries: Seq<EntryView>)
    ensures
        selection(entries) matches Ok(vs) ==> {
            &&& forall|k: int| 0 <= k < vs.len() ==> {
                &&& #[trigger] entries[k].id == Some(vs[k].version)
                &&& entries[k].url == Some(vs[k].manifest_url)
                &&& vs[k].is_snapshot == (entries[k].kind == Some("snapshot"@))
                &&& entries[k].release_time matches Some(t)
                &&& naive_datetime_parse(t, "%Y-%m-%dT%T%z"@) matches Some(p)
                &&& naive_datetime_parse("2025-12-16T12:42:29+00:00"@, "%Y-%m-%dT%T%z"@) matches Some(q)
                &&& parsed_not_after(q, p)
            }
            &&& vs.len() < entries.len() ==> {
                &&& entries[vs.len() as int].id is Some
                &&& entries[vs.len() as int].url is Some
                &&& entries[vs.len() as int].release_time matches Some(t)
                &&& naive_datetime_parse(t, "%Y-%m-%dT%T%z"@) matches Some(p)
                &&& naive_datetime_parse("2025-12-16T12:42:29+00:00"@, "%Y-%m-%dT%T%z"@) matches Some(q)
                &&& !parsed_not_after(q, p)
            }
        },
{
    lemma_listing_is_open_source_prefix(entries);
    if let Ok(vs) = selection(entries) {
        assert forall|k: int| 0 <= k < vs.len() implies {
            &&& #[trigger] entries[k].id == Some(vs[k].version)
            &&& entries[k].url == Some(vs[k].manifest_url)
            &&& vs[k].is_snapshot == (entries[k].kind == Some("snapshot"@))
            &&& entries[k].release_time matches Some(t)
            &&& naive_datetime_parse(t, "%Y-%m-%dT%T%z"@) matches Some(p)
            &&& naive_datetime_parse("2025-12-16T12:42:29+00:00"@, "%Y-%m-%dT%T%z"@) matches Some(q)
            &&& parsed_not_after(q, p)
        } by {
            assert(takes(entries[k], vs[k]));
            assert(entry_open_source(entries[k]) == Some(true));
        }
    }
}

/// Being open source is closed upward in time: a version released no earlier
/// than an open-source one is open source too.
pub proof fn lemma_open_source_upward_closed(earlier: ReleaseTime, later: ReleaseTime)
    requires
        open_source_threshold() matches Some(t) && t.not_after(earlier),
        earlier.not_after(later),
    ensures
        open_source_threshold() matches Some(t) && t.not_after(later),
{
}

/// The open-source date is itself open source.
pub proof fn lemma_threshold_is_open_source()
    ensures
        open_source_threshold() matches Some(t) ==> t.not_after(t),
{
}

impl OpenSourceVersion {
    /// The url of the client jar, read from the version's own manifest at
    /// `downloads.client.url` (given here as that field, when it is a string).
    pub fn client_jar_url(&self, client_url: Option<String>) -> (r: Result<String, PistonMetaError>)
        ensures
            match client_url {
                Some(u) => r matches Ok(s) && s@ == u@,
                None => r matches Err(e) && e@ == MetaErrorView::VersionDoesNotHaveClientJar(self.version@),
            },
    {
        match client_url {
            Some(u) => Ok(u),
            None => Err(PistonMetaError::VersionDoesNotHaveClientJar(clone_text(&self.version))),
        }
    }

    /// The file name under which the client jar is stored: `client-<version>.jar`.
    pub fn client_jar_file_name(&self) -> (r: String)
        ensures
            r@ == "client-"@ + self.version@ + ".jar"@,
    {
        let mut out = String::from_str("client-");
        out.append(self.version.as_str());
        out.append(".jar");
        out
    }

    /// The message of the commit that records this version:
    /// `Processed minecraft <snapshot|release> version <version>`.
    pub fn commit_message(&self) -> (r: String)
        ensures
            r@ == self@.commit_message_text(),
    {
        let mut out = String::from_str("Processed minecraft ");
        if self.is_snapshot {
            out.append("snapshot");
        } else {
            out.append("release");
        }
        out.append(" version ");
        out.append(self.version.as_str());
        out
    }
}

} // verus!
