use minecraft_sourcecode_tracker::piston_meta::entry_verdict;
use minecraft_sourcecode_tracker::piston_meta::is_date_open_source;
use minecraft_sourcecode_tracker::piston_meta::parse_release_time;
use minecraft_sourcecode_tracker::piston_meta::select_open_source_versions;
use minecraft_sourcecode_tracker::piston_meta::EntryVerdict;
use minecraft_sourcecode_tracker::piston_meta::ManifestEntry;
use minecraft_sourcecode_tracker::piston_meta::OpenSourceVersion;
use minecraft_sourcecode_tracker::piston_meta::PistonMetaError;
use minecraft_sourcecode_tracker::piston_meta::ReleaseTime;
use minecraft_sourcecode_tracker::piston_meta::VersionListError;
use minecraft_sourcecode_tracker::piston_meta::VersionManifest;
use minecraft_sourcecode_tracker::piston_meta::DATE_OF_OPEN_SOURCE;

fn entry(id: &str, time: &str, kind: &str) -> ManifestEntry {
    ManifestEntry {
        id: Some(id.to_string()),
        release_time: Some(time.to_string()),
        url: Some(format!("https://piston-meta.mojang.com/v1/packages/{id}.json")),
        kind: Some(kind.to_string()),
        json: format!("{{\"id\":\"{id}\"}}"),
    }
}

fn version(id: &str, is_snapshot: bool) -> OpenSourceVersion {
    OpenSourceVersion {
        version: id.to_string(),
        manifest_url: format!("https://piston-meta.mojang.com/v1/packages/{id}.json"),
        is_snapshot,
    }
}

#[test]
fn release_time_of_the_open_source_date() {
    let t = parse_release_time(DATE_OF_OPEN_SOURCE).unwrap();
    assert_eq!(t, ReleaseTime { secs: 1765888949, nanos: 0 });
}

#[test]
fn release_time_ignores_the_offset() {
    let t = parse_release_time("2025-12-16T14:42:29+02:00").unwrap();
    assert_eq!(t, ReleaseTime { secs: 1765896149, nanos: 0 });
}

#[test]
fn release_time_rejects_other_formats() {
    assert!(parse_release_time("2025-12-16 12:42:29").is_err());
    assert!(parse_release_time("").is_err());
    assert!(parse_release_time("2025-12-16T12:42:29").is_err());
}

#[test]
fn the_open_source_date_is_open_source() {
    let t = parse_release_time(DATE_OF_OPEN_SOURCE).unwrap();
    assert!(is_date_open_source(t).unwrap());
}

#[test]
fn a_second_before_is_not_open_source() {
    assert!(!is_date_open_source(ReleaseTime { secs: 1765888948, nanos: 0 }).unwrap());
    assert!(!is_date_open_source(ReleaseTime { secs: 1765888948, nanos: 999_999_999 }).unwrap());
}

#[test]
fn later_dates_are_open_source() {
    assert!(is_date_open_source(ReleaseTime { secs: 1765888949, nanos: 1 }).unwrap());
    assert!(is_date_open_source(ReleaseTime { secs: 1767780000, nanos: 0 }).unwrap());
}

#[test]
fn ordering_of_release_times() {
    let a = ReleaseTime { secs: 10, nanos: 5 };
    let b = ReleaseTime { secs: 10, nanos: 6 };
    let c = ReleaseTime { secs: 11, nanos: 0 };
    assert!(b.is_at_or_after(&a));
    assert!(!a.is_at_or_after(&b));
    assert!(c.is_at_or_after(&b));
    assert!(a.is_at_or_after(&a));
}

#[test]
fn listing_stops_at_the_first_closed_version() {
    let manifest = VersionManifest {
        versions: Some(vec![
            entry("26.1-snapshot-2", "2026-01-07T10:00:00+00:00", "snapshot"),
            entry("26.1-snapshot-1", "2025-12-16T12:42:29+00:00", "snapshot"),
            entry("1.21.11", "2025-12-09T12:00:00+00:00", "release"),
            entry("1.21.12", "2026-02-01T12:00:00+00:00", "release"),
        ]),
    };
    let listed = select_open_source_versions(&manifest).unwrap();
    assert_eq!(listed, vec![version("26.1-snapshot-2", true), version("26.1-snapshot-1", true)]);
}

#[test]
fn listing_marks_releases_and_untyped_versions_as_releases() {
    let mut untyped = entry("27.0", "2026-03-01T00:00:00+00:00", "release");
    untyped.kind = None;
    let manifest = VersionManifest {
        versions: Some(vec![untyped, entry("26.1", "2026-02-01T00:00:00+00:00", "release")]),
    };
    let listed = select_open_source_versions(&manifest).unwrap();
    assert_eq!(listed, vec![version("27.0", false), version("26.1", false)]);
}

#[test]
fn listing_of_an_empty_manifest_is_empty() {
    let manifest = VersionManifest { versions: Some(vec![]) };
    assert!(select_open_source_versions(&manifest).unwrap().is_empty());
}

#[test]
fn listing_without_versions_fails() {
    let manifest = VersionManifest { versions: None };
    match select_open_source_versions(&manifest) {
        Err(VersionListError::Meta(PistonMetaError::FailedToGetVersionsList)) => {},
        other => panic!("unexpected {:?}", other),
    }
}

#[test]
fn listing_reports_a_version_without_id() {
    let mut e = entry("x", "2026-01-07T10:00:00+00:00", "snapshot");
    e.id = None;
    e.json = "{\"releaseTime\":\"2026-01-07T10:00:00+00:00\"}".to_string();
    let manifest = VersionManifest { versions: Some(vec![e]) };
    match select_open_source_versions(&manifest) {
        Err(VersionListError::Meta(PistonMetaError::VersionDoesNotHaveID(j))) => {
            assert_eq!(j, "{\"releaseTime\":\"2026-01-07T10:00:00+00:00\"}");
        },
        other => panic!("unexpected {:?}", other),
    }
}

#[test]
fn listing_reports_a_version_without_release_date() {
    let mut e = entry("26.1-snapshot-3", "", "snapshot");
    e.release_time = None;
    let manifest = VersionManifest { versions: Some(vec![e]) };
    match select_open_source_versions(&manifest) {
        Err(VersionListError::Meta(PistonMetaError::VersionDoesNotHaveReleaseDate(id))) => {
            assert_eq!(id, "26.1-snapshot-3");
        },
        other => panic!("unexpected {:?}", other),
    }
}

#[test]
fn listing_reports_a_version_without_manifest_url() {
    let mut e = entry("26.1-snapshot-3", "2026-01-07T10:00:00+00:00", "snapshot");
    e.url = None;
    let manifest = VersionManifest { versions: Some(vec![e]) };
    match select_open_source_versions(&manifest) {
        Err(VersionListError::Meta(PistonMetaError::VersionDoesNotHaveManifestUrl(id))) => {
            assert_eq!(id, "26.1-snapshot-3");
        },
        other => panic!("unexpected {:?}", other),
    }
}

#[test]
fn listing_reports_an_unparsable_release_time() {
    let manifest = VersionManifest {
        versions: Some(vec![
            entry("26.1-snapshot-2", "2026-01-07T10:00:00+00:00", "snapshot"),
            entry("26.1-snapshot-1", "yesterday", "snapshot"),
        ]),
    };
    match select_open_source_versions(&manifest) {
        Err(VersionListError::ReleaseTime(e)) => {
            assert_eq!(e.to_string(), "input contains invalid characters");
        },
        other => panic!("unexpected {:?}", other),
    }
}

#[test]
fn listing_does_not_look_past_the_stop() {
    let mut broken = entry("1.0", "", "release");
    broken.id = None;
    let manifest = VersionManifest {
        versions: Some(vec![entry("1.21.11", "2025-12-09T12:00:00+00:00", "release"), broken]),
    };
    assert!(select_open_source_versions(&manifest).unwrap().is_empty());
}

#[test]
fn verdict_on_given_parse_results() {
    let e = entry("26.1", "2026-02-01T00:00:00+00:00", "snapshot");
    let t = ReleaseTime { secs: 1, nanos: 0 };
    match entry_verdict(&e, Some(t), Some(true)) {
        EntryVerdict::Take(v) => assert_eq!(v, version("26.1", true)),
        other => panic!("unexpected {:?}", other),
    }
    assert!(matches!(entry_verdict(&e, Some(t), Some(false)), EntryVerdict::Stop));
    assert!(matches!(entry_verdict(&e, None, Some(true)), EntryVerdict::BadReleaseTime));
    assert!(matches!(entry_verdict(&e, Some(t), None), EntryVerdict::BadThreshold));
}

#[test]
fn meta_error_messages() {
    assert_eq!(
        PistonMetaError::FailedToGetVersionsList.message(),
        "Failed to get the versions list from the piston version manifest v2"
    );
    assert_eq!(
        PistonMetaError::VersionDoesNotHaveID("{}".to_string()).message(),
        "version does not have a ID: {}"
    );
    assert_eq!(
        PistonMetaError::VersionDoesNotHaveReleaseDate("1.0".to_string()).message(),
        "'1.0' version does not have a release date"
    );
    assert_eq!(
        PistonMetaError::VersionDoesNotHaveManifestUrl("1.0".to_string()).message(),
        "'1.0' version does not have a manifest url"
    );
    assert_eq!(
        PistonMetaError::VersionDoesNotHaveClientJar("1.0".to_string()).message(),
        "'1.0' version does not have a client jar url"
    );
}

#[test]
fn client_jar_url_is_taken_from_the_version_manifest() {
    let v = version("26.1", false);
    assert_eq!(v.client_jar_url(Some("https://example.org/client.jar".to_string())).unwrap(), "https://example.org/client.jar");
    assert_eq!(v.client_jar_url(None).unwrap_err(), PistonMetaError::VersionDoesNotHaveClientJar("26.1".to_string()));
}

#[test]
fn client_jar_file_name_names_the_version() {
    assert_eq!(version("26.1-snapshot-1", true).client_jar_file_name(), "client-26.1-snapshot-1.jar");
}

#[test]
fn commit_message_names_kind_and_version() {
    assert_eq!(version("26.1-snapshot-1", true).commit_message(), "Processed minecraft snapshot version 26.1-snapshot-1");
    assert_eq!(version("26.1", false).commit_message(), "Processed minecraft release version 26.1");
}
