use itcy_tui::artefact::Artefact;
use itcy_tui::ui::model::{IoNeed, StatusModel};
use itcy_tui::ui::ViewMode;

fn fixture_artefact(id: &str, shard: Option<&str>) -> Artefact {
    let folder = shard.map_or_else(|| id.to_string(), |s| format!("{s}/{id}"));
    Artefact {
        id: id.to_string(),
        shard: shard.map(ToString::to_string),
        body_path: format!("{folder}/body.md"),
        meta_path: format!("{folder}/meta.toml"),
        subject: String::new(),
    }
}

#[test]
fn filter_matches_id_and_subject() {
    let mut model = StatusModel::new(false);
    model.pubs.artefacts = vec![
        fixture_artefact("DRAFT-20260801-000001", None),
        fixture_artefact("TWEET-20260813-000001", Some("2026/08/13")),
    ];
    model.pubs.artefacts[1].subject = "owl merge".into();
    model.pubs.set_filter("owl".into());
    let idx = model.pubs.filtered_indexes();
    assert_eq!(idx.len(), 1);
    assert_eq!(model.pubs.artefacts[idx[0]].id, "TWEET-20260813-000001");
}

#[test]
fn boot_public_skips_fetch_when_tree_present() {
    let mut model = StatusModel::new(false);
    model.pubs.artefacts = vec![fixture_artefact("DRAFT-20260801-000001", None)];
    let need = model.apply_boot_view();
    assert_eq!(model.view, ViewMode::Publications);
    assert_eq!(need, IoNeed::Nothing);
}

#[test]
fn open_prefix_selects() {
    let mut model = StatusModel::new(true);
    model.pubs.artefacts = vec![
        fixture_artefact("DRAFT-20260801-000001", None),
        fixture_artefact("TWEET-20260813-000001", Some("2026/08/13")),
    ];
    assert!(model.pubs.open_prefix("tweet"));
    assert_eq!(
        model.pubs.selected_artefact().map(|a| a.id.as_str()),
        Some("TWEET-20260813-000001")
    );
}
