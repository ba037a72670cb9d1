use itcy_tui::artefact::Artefact;
use itcy_tui::ui::model::{IoNeed, PubsPane, StatusModel};
use itcy_tui::ui::ViewMode;

fn art(id: &str, subject: &str) -> Artefact {
    Artefact {
        id: id.to_string(),
        shard: None,
        body_path: format!("{id}/body.md"),
        meta_path: format!("{id}/meta.toml"),
        subject: subject.to_string(),
    }
}

fn pane() -> PubsPane {
    let mut p = PubsPane::new();
    p.artefacts = vec![
        art("DRAFT-1", "Owl merge"),
        art("TWEET-2", ""),
        art("POST-3", "night owls"),
        art("TWEET-4", "merge day"),
    ];
    p
}

#[test]
fn empty_filter_shows_every_row() {
    let p = pane();
    assert_eq!(p.filtered_indexes(), vec![0, 1, 2, 3]);
}

#[test]
fn filter_ignores_ascii_case_and_keeps_order() {
    let mut p = pane();
    p.set_filter("OWL".into());
    assert_eq!(p.filtered_indexes(), vec![0, 2]);
    assert_eq!(p.selected, Some(0));
    p.set_filter("tweet".into());
    assert_eq!(p.filtered_indexes(), vec![1, 3]);
    assert_eq!(p.selected_artefact().map(|a| a.id.as_str()), Some("TWEET-2"));
}

#[test]
fn filter_with_no_match_clears_selection() {
    let mut p = pane();
    p.set_filter("zebra".into());
    assert!(p.filtered_indexes().is_empty());
    assert_eq!(p.selected, None);
    assert!(p.selected_artefact().is_none());
    assert_eq!(p.selected(), 0);
}

#[test]
fn open_prefix_searches_shown_rows_only() {
    let mut p = pane();
    p.set_filter("merge".into());
    assert!(p.open_prefix("tweet"));
    assert_eq!(p.selected, Some(1));
    assert_eq!(p.selected_artefact().map(|a| a.id.as_str()), Some("TWEET-4"));
    assert!(!p.open_prefix("post"));
    assert_eq!(p.selected, Some(1));
}

#[test]
fn selected_row_out_of_range_has_no_artefact() {
    let mut p = pane();
    p.selected = Some(9);
    assert!(p.selected_artefact().is_none());
    assert_eq!(p.selected(), 9);
}

#[test]
fn boot_opens_live_when_product_up() {
    let mut m = StatusModel::new(true);
    assert_eq!(m.apply_boot_view(), IoNeed::Nothing);
    assert_eq!(m.view, ViewMode::Live);
}

#[test]
fn boot_fetches_tree_when_public_and_empty() {
    let mut m = StatusModel::new(false);
    assert_eq!(m.view, ViewMode::Live);
    assert_eq!(m.apply_boot_view(), IoNeed::FetchTree);
    assert_eq!(m.view, ViewMode::Publications);
}

#[test]
fn fresh_pane_highlights_first_row_once_loaded() {
    let mut m = StatusModel::new(false);
    assert_eq!(m.pubs.selected, Some(0));
    assert!(m.pubs.selected_artefact().is_none());
    m.pubs.artefacts = vec![art("DRAFT-20260801-000001", "owl merge"), art("TWEET-20260813-000001", "")];
    assert_eq!(
        m.pubs.selected_artefact().map(|a| a.id.as_str()),
        Some("DRAFT-20260801-000001")
    );
}
