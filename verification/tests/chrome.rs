use itcy_tui::artefact::Artefact;
use itcy_tui::text::{chars_of, string_of};
use itcy_tui::ui::footer::{cursor_x, footer_segments, overlay_title, FooterInput};
use itcy_tui::ui::model::{InputMode, PubsBranch, PubsPane, PubsRemote};
use itcy_tui::ui::pubs::{
    branch_chips, lines, preview_lines, remote_chips, row_cells, scroll_length,
};
use itcy_tui::ui::{contains, footer_keys, overlay_height, tabs, view_label, Segment, Tone, ViewMode};

fn texts(segs: &[Segment]) -> Vec<String> {
    segs.iter().map(|s| s.text.clone()).collect()
}

fn footer(view: ViewMode) -> FooterInput {
    FooterInput {
        product_up: false,
        view,
        notice: String::new(),
        copied: false,
        pending: false,
        ticks: 0,
        rate_remaining: None,
        id: String::new(),
        match_count: None,
        filter_active: false,
    }
}

#[test]
fn keys_and_labels_per_view() {
    assert_eq!(footer_keys(ViewMode::Live), "d c p s  ?  :  /  q");
    assert_eq!(footer_keys(ViewMode::Commands), "j k  Enter=/list  y  /  q");
    assert_eq!(footer_keys(ViewMode::Publications), "o f  1-4  Tab  j k  y  /  :  q");
    assert_eq!(footer_keys(ViewMode::SavedList), "j k  y  r  /  q");
    assert_eq!(footer_keys(ViewMode::Help), "Esc back  q quit");
    assert_eq!(view_label(ViewMode::SavedList), "list");
    assert_eq!(view_label(ViewMode::Publications), "pubs");
    assert_eq!(ViewMode::default(), ViewMode::Live);
}

#[test]
fn tab_order() {
    let t = tabs();
    let labels: Vec<&str> = t.iter().map(|(l, _)| *l).collect();
    assert_eq!(labels, vec!["d:live", "c:commands", "p:pubs", "s:list"]);
    assert_eq!(t[2].1, ViewMode::Publications);
    assert_eq!(overlay_height(true), 3);
    assert_eq!(overlay_height(false), 0);
}

#[test]
fn plain_footer() {
    let segs = footer_segments(&footer(ViewMode::Live));
    assert_eq!(
        texts(&segs),
        vec![" ", "public", " · ", "live", " · ", "d c p s  ?  :  /  q"]
    );
    assert_eq!(segs[1].tone, Tone::Strong);
    assert_eq!(segs[5].tone, Tone::Muted);
}

#[test]
fn full_footer_on_publications() {
    let mut f = footer(ViewMode::Publications);
    f.product_up = true;
    f.rate_remaining = Some(4999);
    f.notice = "boom".into();
    f.copied = true;
    f.id = "TWEET-1".into();
    f.match_count = Some((3, 12));
    f.filter_active = true;
    let segs = footer_segments(&f);
    assert_eq!(
        texts(&segs),
        vec![
            " ",
            "local",
            " · ",
            "pubs",
            " · rate 4999",
            " · ",
            "boom",
            " · ",
            "TWEET-1",
            " · ",
            "3/12",
            " · ",
            "o f  1-4  Tab  j k  y  /  :  q"
        ]
    );
    assert_eq!(segs[6].tone, Tone::Alert);
}

#[test]
fn footer_status_precedence() {
    let mut f = footer(ViewMode::Commands);
    f.rate_remaining = Some(7);
    f.copied = true;
    f.pending = true;
    let segs = footer_segments(&f);
    assert_eq!(texts(&segs)[5], "copied");
    assert_eq!(segs[5].tone, Tone::Done);
    assert!(!texts(&segs).iter().any(|t| t.contains("rate")));
    f.copied = false;
    f.ticks = 5;
    let segs = footer_segments(&f);
    assert_eq!(texts(&segs)[5], "/ loading");
    assert_eq!(segs[5].tone, Tone::Busy);
    f.ticks = 7;
    assert_eq!(texts(&footer_segments(&f))[5], "\\ loading");
    f.match_count = Some((1, 2));
    assert!(!texts(&footer_segments(&f)).contains(&"1/2".to_string()));
}

#[test]
fn overlay_titles() {
    assert_eq!(overlay_title(InputMode::Filter, Some((0, 0))), "filter 0/0");
    assert_eq!(overlay_title(InputMode::Filter, Some((12, 345))), "filter 12/345");
    assert_eq!(overlay_title(InputMode::Filter, None), "filter");
    assert_eq!(overlay_title(InputMode::Command, Some((1, 1))), "command");
    assert_eq!(overlay_title(InputMode::Normal, None), "");
    assert_eq!(
        overlay_title(InputMode::Filter, Some((usize::MAX, 10))),
        format!("filter {}/10", usize::MAX)
    );
}

#[test]
fn cursor_stays_in_box() {
    assert_eq!(cursor_x(10, 20, 5), 15);
    assert_eq!(cursor_x(10, 20, 50), 29);
    assert_eq!(cursor_x(65530, 10, 100), 65535);
    assert_eq!(cursor_x(10, 0, 3), 10);
}

#[test]
fn chips_mark_current() {
    let r = remote_chips(PubsRemote::Fork);
    assert_eq!(r, vec![("o:org", false), ("f:fork", true)]);
    let b = branch_chips(PubsBranch::DraftsTweet);
    assert_eq!(
        b,
        vec![
            ("1:drafts", false),
            ("2:posts", false),
            ("3:drafts_tweet", true),
            ("4:tweets", false)
        ]
    );
}

#[test]
fn row_cells_fill_blanks() {
    let a = Artefact {
        id: "DRAFT-1".into(),
        shard: None,
        body_path: "DRAFT-1/body.md".into(),
        meta_path: "DRAFT-1/meta.toml".into(),
        subject: String::new(),
    };
    assert_eq!(row_cells(&a), ("DRAFT-1".into(), "-".into(), "-".into()));
    let b = Artefact {
        shard: Some("2026/08".into()),
        subject: "owl".into(),
        ..a
    };
    assert_eq!(row_cells(&b), ("DRAFT-1".into(), "2026/08".into(), "owl".into()));
    assert_eq!(scroll_length(0), 1);
    assert_eq!(scroll_length(9), 9);
}

#[test]
fn body_lines_like_str_lines() {
    for text in ["", "a", "a\n", "\n", "a\r\nb\r", "a\n\nb\r\n", "x\ry\n"] {
        let expected: Vec<String> = text.lines().map(str::to_string).collect();
        assert_eq!(lines(text), expected, "{text:?}");
    }
}

#[test]
fn preview_without_selection() {
    let pane = PubsPane::new();
    let l = preview_lines(&pane);
    assert_eq!(l.len(), 3);
    assert_eq!(texts(&l[0]), vec!["id  ", "(none)"]);
    assert_eq!(texts(&l[1]), vec![""]);
    assert_eq!(
        texts(&l[2]),
        vec!["Enter loads body  ·  wait 400ms after j/k  ·  y yank id"]
    );
}

#[test]
fn preview_with_body_and_error() {
    let mut pane = PubsPane::new();
    pane.artefacts = vec![Artefact {
        id: "POST-3".into(),
        shard: None,
        body_path: "POST-3/body.md".into(),
        meta_path: "POST-3/meta.toml".into(),
        subject: String::new(),
    }];
    pane.selected = Some(0);
    pane.error = "rate limited".into();
    pane.body = "hello\r\nworld\n".into();
    let l = preview_lines(&pane);
    assert_eq!(l.len(), 5);
    assert_eq!(texts(&l[0]), vec!["id  ", "POST-3"]);
    assert_eq!(texts(&l[1]), vec!["rate limited"]);
    assert_eq!(l[1][0].tone, Tone::Alert);
    assert_eq!(texts(&l[3]), vec!["hello"]);
    assert_eq!(texts(&l[4]), vec!["world"]);
}

#[test]
fn chars_and_strings_round_trip() {
    let v = chars_of("héllo · wörld");
    assert_eq!(v.len(), 13);
    assert_eq!(string_of(&v), "héllo · wörld");
    assert_eq!(string_of(&vec!['a', 'b']), "ab");
}

#[test]
fn hit_test_edges() {
    assert!(contains(10, 5, 4, 2, 10, 5));
    assert!(contains(10, 5, 4, 2, 13, 6));
    assert!(!contains(10, 5, 4, 2, 14, 6));
    assert!(!contains(10, 5, 4, 2, 13, 7));
    assert!(!contains(10, 5, 4, 2, 9, 5));
    assert!(!contains(10, 5, 0, 2, 10, 5));
    assert!(contains(65530, 65530, 100, 100, 65534, 65534));
    assert!(!contains(65530, 65530, 100, 100, 65535, 65535));
}
