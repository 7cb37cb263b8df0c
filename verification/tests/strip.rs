use mdlog::strip;

#[test]
fn strip_color_codes() {
    assert_eq!(strip("\u{1b}[31mred\u{1b}[0m"), "red");
}

#[test]
fn strip_plain_text_unchanged() {
    assert_eq!(strip("hello, world"), "hello, world");
    assert_eq!(strip(""), "");
    assert_eq!(strip("multi\nline — ünïcode"), "multi\nline — ünïcode");
}

#[test]
fn strip_csi_introducer_byte() {
    assert_eq!(strip("a\u{9b}[1mb"), "ab");
}

#[test]
fn strip_partial_sequences_pass_through() {
    assert_eq!(strip("\u{1b}"), "\u{1b}");
    assert_eq!(strip("\u{1b}["), "\u{1b}[");
    assert_eq!(strip("\u{1b}x"), "\u{1b}x");
    assert_eq!(strip("\u{1b}[;"), "\u{1b}[;");
}

#[test]
fn strip_private_mode_markers() {
    assert_eq!(strip("\u{1b}[?25h"), "");
    assert_eq!(strip("\u{1b}[?1049lrest"), "rest");
}

#[test]
fn strip_multi_parameter_sequence() {
    assert_eq!(strip("\u{1b}[1;31;40mtext"), "text");
}

#[test]
fn strip_no_parameters() {
    assert_eq!(strip("\u{1b}[mx"), "x");
}

#[test]
fn strip_several_sequences() {
    assert_eq!(strip("a\u{1b}[1mb\u{1b}[2mc"), "abc");
}

#[test]
fn strip_long_parameter_run() {
    // only four digits fit in a parameter: the fifth digit terminates the
    // sequence and the command letter survives
    assert_eq!(strip("\u{1b}[12345m"), "m");
}

#[test]
fn strip_sequence_at_end_of_text() {
    assert_eq!(strip("\u{1b}[12"), "");
    assert_eq!(strip("ok\u{1b}[0K"), "ok");
}

#[test]
fn strip_stops_before_stray_marker() {
    // a marker after the parameters cannot end the sequence either; the
    // parse falls back to the first digit and the rest survives
    assert_eq!(strip("\u{1b}[1;?m"), ";?m");
}

#[test]
fn strip_gives_back_trailing_semicolon() {
    // the semicolon cannot end a sequence, so the digit before it does and
    // the semicolon survives
    assert_eq!(strip("\u{1b}[1;x"), ";x");
}
