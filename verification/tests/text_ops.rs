use itcy_tui::text::{
    chars_of, ends_with, is_whitespace, replace_char_chars, replace_pair_chars, split_chars,
    starts_with, string_of, trim_chars,
};

const SAMPLES: [&str; 9] = [
    "",
    "/",
    "a/b",
    "//x//",
    " \t padded \r\n",
    "\u{3000}wide\u{2028}",
    "\\\"a\\\\\"b\\",
    "\\\\\\\"",
    "no-sep",
];

#[test]
fn whitespace_matches_std_for_every_char() {
    for c in (0u32..=0x10FFFF).filter_map(char::from_u32) {
        assert_eq!(is_whitespace(c), c.is_whitespace(), "{:#x}", c as u32);
    }
}

#[test]
fn trim_matches_std() {
    for s in SAMPLES {
        assert_eq!(string_of(&trim_chars(&chars_of(s))), s.trim(), "{s:?}");
    }
}

#[test]
fn split_matches_std() {
    for s in SAMPLES {
        let ours: Vec<String> = split_chars(&chars_of(s), '/').iter().map(string_of).collect();
        let std: Vec<String> = s.split('/').map(str::to_string).collect();
        assert_eq!(ours, std, "{s:?}");
    }
}

#[test]
fn replace_matches_std() {
    for s in SAMPLES {
        let v = chars_of(s);
        assert_eq!(
            string_of(&replace_pair_chars(&v, '\\', '"', '"')),
            s.replace("\\\"", "\""),
            "{s:?}"
        );
        assert_eq!(
            string_of(&replace_pair_chars(&v, '\\', '\\', '\\')),
            s.replace("\\\\", "\\"),
            "{s:?}"
        );
        assert_eq!(string_of(&replace_char_chars(&v, '\\', '/')), s.replace('\\', "/"));
    }
}

#[test]
fn prefix_and_suffix_match_std() {
    for s in SAMPLES {
        for p in ["", "/", "a", "no", "sep", "\\"] {
            assert_eq!(starts_with(&chars_of(s), &chars_of(p)), s.starts_with(p));
            assert_eq!(ends_with(&chars_of(s), &chars_of(p)), s.ends_with(p));
        }
    }
}
