use mdlog::{
    code_block, escape_markdownv2, escape_markdownv2_code, escape_markdownv2_link,
    json_code_block,
};

const RESERVED: [char; 19] = [
    '_', '*', '[', ']', '(', ')', '~', '`', '>', '#', '+', '-', '=', '|', '{', '}', '.', '!',
    '\\',
];

/// Remove one backslash before each reserved character: the matching
/// unescape for the plain-text zone.
fn unescape_plain(s: &str) -> String {
    let cs: Vec<char> = s.chars().collect();
    let mut out = String::new();
    let mut i = 0;
    while i < cs.len() {
        if cs[i] == '\\' && i + 1 < cs.len() && RESERVED.contains(&cs[i + 1]) {
            out.push(cs[i + 1]);
            i += 2;
        } else {
            out.push(cs[i]);
            i += 1;
        }
    }
    out
}

#[test]
fn escape_only_reserved_chars() {
    assert_eq!(escape_markdownv2("_*."), "\\_\\*\\.");
}

#[test]
fn escape_every_reserved_char() {
    for c in RESERVED {
        let input = c.to_string();
        let expected = format!("\\{c}");
        assert_eq!(escape_markdownv2(&input), expected);
    }
}

#[test]
fn escape_plain_passthrough() {
    assert_eq!(escape_markdownv2("hello world"), "hello world");
    assert_eq!(escape_markdownv2(""), "");
}

#[test]
fn escape_plain_mixed() {
    assert_eq!(escape_markdownv2("a_b*c"), "a\\_b\\*c");
    assert_eq!(escape_markdownv2("1+1=2."), "1\\+1\\=2\\.");
}

#[test]
fn escape_code_touches_only_backslash_and_backtick() {
    assert_eq!(escape_markdownv2_code("a\\b`c_*.-"), "a\\\\b\\`c_*.-");
    assert_eq!(escape_markdownv2_code("plain"), "plain");
    assert_eq!(escape_markdownv2_code(""), "");
}

#[test]
fn escape_link_destination() {
    assert_eq!(escape_markdownv2_link("(a)`b\\"), "(a\\)\\`b\\\\");
    assert_eq!(escape_markdownv2_link("https://x/y_z"), "https://x/y_z");
}

#[test]
fn escape_round_trip() {
    for t in ["", "a_b*c\\d.e", "_*[]()~`>#+-=|{}.!\\", "\\\\", "no specials"] {
        assert_eq!(unescape_plain(&escape_markdownv2(t)), t);
    }
}

#[test]
fn escape_never_shortens() {
    for t in ["", "abc", "_", "a.b", "\\"] {
        let e = escape_markdownv2(t);
        assert!(e.chars().count() >= t.chars().count());
        let has_reserved = t.chars().any(|c| RESERVED.contains(&c));
        assert_eq!(e.chars().count() == t.chars().count(), !has_reserved);
    }
}

#[test]
fn code_block_fences_and_escapes() {
    assert_eq!(code_block("x`y\\z"), "```\nx\\`y\\\\z\n```");
    assert_eq!(code_block(""), "```\n\n```");
}

#[test]
fn json_code_block_tagged() {
    assert_eq!(json_code_block("{\"a\": 1}"), "```json\n{\"a\": 1}\n```");
}
