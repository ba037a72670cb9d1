use itcy_tui::artefact::{artefact_from_body_path, subject_from_meta};

#[test]
fn parses_flat_and_sharded() {
    let flat = artefact_from_body_path("TWEET-20260813-000001/body.md").expect("flat");
    assert_eq!(flat.id, "TWEET-20260813-000001");
    assert_eq!(flat.shard, None);
    assert_eq!(flat.meta_path, "TWEET-20260813-000001/meta.toml");

    let shard =
        artefact_from_body_path("2026/08/13/XPOST-20260813-000001/body.md").expect("shard");
    assert_eq!(shard.id, "XPOST-20260813-000001");
    assert_eq!(shard.shard.as_deref(), Some("2026/08/13"));
    assert_eq!(
        shard.meta_path,
        "2026/08/13/XPOST-20260813-000001/meta.toml"
    );

    let legacy =
        artefact_from_body_path("2026/08/XPOST-20260813-000001/body.md").expect("legacy");
    assert_eq!(legacy.shard.as_deref(), Some("2026/08"));

    let draft = artefact_from_body_path("DRAFT-20260801-000001/body.md").expect("draft");
    assert_eq!(draft.id, "DRAFT-20260801-000001");
    assert!(artefact_from_body_path("README.md").is_none());
    assert!(artefact_from_body_path("2026/08/TWEET-20260813-000001/meta.toml").is_none());
}

#[test]
fn subject_line() {
    assert_eq!(
        subject_from_meta("kind = \"tweet\"\nsubject = \"owl merge\"\n"),
        "owl merge"
    );
    assert_eq!(subject_from_meta("kind = \"tweet\"\n"), "");
}
