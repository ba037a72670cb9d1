use itcy_tui::artefact::{artefact_from_body_path, subject_from_meta};

#[test]
fn backslash_path_reads_as_slash_path() {
    let a = artefact_from_body_path("2026\\08\\13\\XPOST-20260813-000001\\body.md").expect("win");
    let b = artefact_from_body_path("2026/08/13/XPOST-20260813-000001/body.md").expect("unix");
    assert_eq!(a, b);
    assert_eq!(a.body_path, "2026/08/13/XPOST-20260813-000001/body.md");
    assert_eq!(a.shard.as_deref(), Some("2026/08/13"));
}

#[test]
fn reparsing_body_path_gives_same_artefact() {
    let a = artefact_from_body_path("2026/08/POST-20260801-000002/body.md").expect("post");
    let again = artefact_from_body_path(&a.body_path).expect("again");
    assert_eq!(a, again);
}

#[test]
fn meta_path_sits_beside_body() {
    let a = artefact_from_body_path("x/y/DRAFT-7/body.md").expect("draft");
    assert_eq!(a.body_path, "x/y/DRAFT-7/body.md");
    assert_eq!(a.meta_path, "x/y/DRAFT-7/meta.toml");
    assert_eq!(a.subject, "");
    assert_eq!(a.shard, None);
}

#[test]
fn first_id_segment_wins() {
    let a = artefact_from_body_path("DRAFT-a/POST-b/body.md").expect("nested");
    assert_eq!(a.id, "DRAFT-a");
    let t = artefact_from_body_path("TWEET-x/body.md").expect("tweet");
    assert_eq!(t.id, "TWEET-x");
    let p = artefact_from_body_path("POST-9/body.md").expect("post");
    assert_eq!(p.id, "POST-9");
}

#[test]
fn paths_without_id_folder_are_refused() {
    assert!(artefact_from_body_path("2026/08/notes/body.md").is_none());
    assert!(artefact_from_body_path("body.md").is_none());
    assert!(artefact_from_body_path("/body.md").is_none());
    assert!(artefact_from_body_path("tweet-1/body.md").is_none());
    assert!(artefact_from_body_path("DRAFT-1/body.mdx").is_none());
    assert!(artefact_from_body_path("").is_none());
}

#[test]
fn shard_shapes() {
    let short_month = artefact_from_body_path("2026/8/TWEET-x/body.md").expect("a");
    assert_eq!(short_month.shard, None);
    let letter_year = artefact_from_body_path("20a6/08/TWEET-x/body.md").expect("b");
    assert_eq!(letter_year.shard, None);
    let one_digit_day = artefact_from_body_path("2026/08/1/TWEET-x/body.md").expect("c");
    assert_eq!(one_digit_day.shard.as_deref(), Some("2026/08"));
    let id_after_month = artefact_from_body_path("2026/08/TWEET-x/body.md").expect("d");
    assert_eq!(id_after_month.shard.as_deref(), Some("2026/08"));
    let full = artefact_from_body_path("1999/12/31/XPOST-z/body.md").expect("e");
    assert_eq!(full.shard.as_deref(), Some("1999/12/31"));
}

#[test]
fn subject_unescapes_quotes_and_backslashes() {
    let meta = "subject = \"say \\\"hi\\\" \\\\ ok\"\n";
    assert_eq!(subject_from_meta(meta), "say \"hi\" \\ ok");
}

#[test]
fn subject_round_trip_of_escaped_text() {
    let subject = "a \\\" b \"\" \\\\";
    let escaped = subject.replace('\\', "\\\\").replace('"', "\\\"");
    let meta = format!("subject = \"{escaped}\"");
    assert_eq!(subject_from_meta(&meta), subject);
}

#[test]
fn subject_line_edges() {
    assert_eq!(subject_from_meta("subject = \"x\"\r\n"), "x");
    assert_eq!(subject_from_meta("  \tsubject =   \"x\"  \n"), "x");
    assert_eq!(subject_from_meta("\u{3000}subject = \"wide\""), "wide");
    assert_eq!(subject_from_meta("subject = x\nsubject = \"y\""), "y");
    assert_eq!(subject_from_meta("subject=\"x\""), "");
    assert_eq!(subject_from_meta("subject = \""), "");
    assert_eq!(subject_from_meta("subject = \"\""), "");
    assert_eq!(subject_from_meta("subject = \"one\"\nsubject = \"two\""), "one");
    assert_eq!(subject_from_meta(""), "");
    assert_eq!(subject_from_meta("subject = \"é ü\""), "é ü");
}
