use mdlog::{print_table, render_table, LogCollector};

fn rows(data: &[&[&str]]) -> Vec<Vec<String>> {
    data.iter()
        .map(|row| row.iter().map(|cell| cell.to_string()).collect())
        .collect()
}

#[test]
fn table_two_rows() {
    let mut c = LogCollector::new();
    print_table(&mut c, &rows(&[&["Name", "Alice", "admin"], &["Role", "Op"]]));
    assert_eq!(
        c.drain_logs(),
        vec![String::from("*Name* : Alice : _admin_\n\n*Role* : Op")]
    );
}

#[test]
fn code_formatted_cell_kept_verbatim() {
    let mut c = LogCollector::new();
    print_table(&mut c, &rows(&[&["`code`", "x"]]));
    assert_eq!(c.drain_logs(), vec![String::from("`code` : x")]);
}

#[test]
fn code_formatted_annotation_kept_verbatim() {
    assert_eq!(render_table(&rows(&[&["k", "v", "`n`"]])), "*k* : v : `n`");
}

#[test]
fn long_row_is_chunked_in_threes() {
    assert_eq!(
        render_table(&rows(&[&["a", "b", "c", "d", "e", "f", "g"]])),
        "*a* : b : _c_ : *d* : e : _f_ : *g*"
    );
}

#[test]
fn blank_segments_are_dropped() {
    assert_eq!(render_table(&rows(&[&["k", " ", "n"]])), "*k* : _n_");
    assert_eq!(render_table(&rows(&[&["", "x"]])), "x");
    assert_eq!(render_table(&rows(&[&["", "", ""]])), "");
}

#[test]
fn empty_table_renders_empty() {
    let mut c = LogCollector::new();
    print_table(&mut c, &rows(&[]));
    assert_eq!(c.drain_logs(), vec![String::from("")]);
}

#[test]
fn table_entry_is_not_reescaped() {
    let mut c = LogCollector::new();
    print_table(&mut c, &rows(&[&["k", "a.b"]]));
    assert_eq!(c.drain_logs(), vec![String::from("*k* : a.b")]);
}

#[test]
fn control_sequences_in_cells_are_stripped_on_entry() {
    let mut c = LogCollector::new();
    print_table(&mut c, &rows(&[&["k", "\u{1b}[31mv"]]));
    assert_eq!(c.drain_logs(), vec![String::from("*k* : v")]);
}
