use mdlog::{escape_markdownv2, LogCollector};

#[test]
fn empty_message_is_a_valid_entry() {
    let mut c = LogCollector::new();
    c.log(String::from(""), true);
    assert_eq!(c.drain_logs(), vec![String::from("")]);
    assert_eq!(c.drain_logs(), Vec::<String>::new());
}

#[test]
fn entries_keep_insertion_order() {
    let mut c = LogCollector::new();
    c.log(String::from("a"), true);
    c.log(String::from("b"), false);
    assert_eq!(c.drain_logs(), vec![escape_markdownv2("a"), String::from("b")]);
    assert_eq!(c.drain_logs(), Vec::<String>::new());
}

#[test]
fn fresh_collector_is_empty() {
    let mut c = LogCollector::new();
    assert_eq!(c.drain_logs(), Vec::<String>::new());
}

#[test]
fn log_strips_before_escaping() {
    let mut c = LogCollector::new();
    c.log(String::from("\u{1b}[31m_hi_"), true);
    assert_eq!(c.drain_logs(), vec![String::from("\\_hi\\_")]);
}

#[test]
fn unescaped_entries_are_still_stripped() {
    let mut c = LogCollector::new();
    c.log(String::from("\u{1b}[1m*bold*"), false);
    assert_eq!(c.drain_logs(), vec![String::from("*bold*")]);
}

#[test]
fn print_escapes_its_message() {
    let mut c = LogCollector::new();
    c.print(String::from("a.b"));
    assert_eq!(c.drain_logs(), vec![String::from("a\\.b")]);
}

#[test]
fn print_escaped_leaves_markup_alone() {
    let mut c = LogCollector::new();
    c.print_escaped(String::from("*a* : b"));
    assert_eq!(c.drain_logs(), vec![String::from("*a* : b")]);
}

#[test]
fn drain_empties_between_batches() {
    let mut c = LogCollector::new();
    c.log(String::from("one"), true);
    assert_eq!(c.drain_logs(), vec![String::from("one")]);
    c.log(String::from("two"), true);
    assert_eq!(c.drain_logs(), vec![String::from("two")]);
}
