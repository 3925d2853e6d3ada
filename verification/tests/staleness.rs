use builder_cpp::stale::{mtime_lookup, rebuild_decision, MtimeEntry, RebuildReason};

fn meta(entries: &[(&str, u64)]) -> Vec<MtimeEntry> {
    entries
        .iter()
        .map(|(p, t)| MtimeEntry { path: p.to_string(), mtime: *t })
        .collect()
}

#[test]
fn absent_artifact_forces_rebuild() {
    assert_eq!(
        rebuild_decision(None, 100, &vec![]),
        Some(RebuildReason::ArtifactMissing)
    );
}

#[test]
fn artifact_newer_than_source_no_headers_is_fresh() {
    assert_eq!(rebuild_decision(Some(200), 100, &vec![]), None);
}

#[test]
fn artifact_equal_to_source_is_fresh() {
    assert_eq!(rebuild_decision(Some(100), 100, &vec![]), None);
}

#[test]
fn artifact_older_than_source_rebuilds() {
    assert_eq!(
        rebuild_decision(Some(50), 100, &vec![]),
        Some(RebuildReason::OlderThanSource)
    );
}

#[test]
fn first_stale_header_is_reported() {
    let hdrs = vec![10, 20, 300, 400];
    assert_eq!(
        rebuild_decision(Some(150), 100, &hdrs),
        Some(RebuildReason::OlderThanHeader(2))
    );
}

#[test]
fn all_headers_older_is_fresh() {
    let hdrs = vec![10, 20, 30];
    assert_eq!(rebuild_decision(Some(150), 100, &hdrs), None);
}

#[test]
fn mtime_lookup_finds_first_match() {
    let m = meta(&[("a.c", 5), ("b.c", 7)]);
    assert_eq!(mtime_lookup(&m, &"b.c".to_string()), Some(7));
    assert_eq!(mtime_lookup(&m, &"a.c".to_string()), Some(5));
    assert_eq!(mtime_lookup(&m, &"c.c".to_string()), None);
}
