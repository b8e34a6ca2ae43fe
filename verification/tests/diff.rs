use ff_router::installer::diff::{lines, rows_from, LineChange};

#[test]
fn marks_added_and_removed_lines() {
    let rows = lines("a\nb\n", "a\nc\n");
    assert_eq!(rows.len(), 3);
    assert!(rows[0].text.contains('a'));
    assert!(rows[1].text.starts_with("- ") && rows[1].text.contains('b'));
    assert!(rows[2].text.starts_with("+ ") && rows[2].text.contains('c'));
}

#[test]
fn rows_are_exact() {
    let rows = lines("a\nb\n", "a\nc\n");
    let got: Vec<(LineChange, String)> = rows.into_iter().map(|r| (r.change, r.text)).collect();
    assert_eq!(
        got,
        vec![
            (LineChange::Equal, "  a".to_string()),
            (LineChange::Delete, "- b".to_string()),
            (LineChange::Insert, "+ c".to_string()),
        ]
    );
}

#[test]
fn rows_from_strips_line_endings_only() {
    let rows = rows_from(&[
        (LineChange::Insert, "x\n\n".to_string()),
        (LineChange::Equal, "y\r\n".to_string()),
        (LineChange::Delete, String::new()),
    ]);
    assert_eq!(rows[0].text, "+ x");
    assert_eq!(rows[1].text, "  y\r");
    assert_eq!(rows[2].text, "- ");
    assert_eq!(rows[2].change, LineChange::Delete);
}

#[test]
fn identical_texts_have_only_equal_rows() {
    let rows = lines("x\ny", "x\ny");
    assert_eq!(rows.len(), 2);
    assert!(rows.iter().all(|r| r.change == LineChange::Equal));
    assert_eq!(rows[1].text, "  y");
}
