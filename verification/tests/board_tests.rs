use jm_core::board::{column_widths, truncate_str, visible_col_count};

#[test]
fn board_columns() {
    assert_eq!(visible_col_count(100, 10), 4);
    assert_eq!(visible_col_count(10, 10), 1);
    assert_eq!(visible_col_count(100, 2), 2);
    assert_eq!(visible_col_count(100, 0), 1);
    assert_eq!(column_widths(100, 3), vec![34, 33, 33]);
    assert_eq!(column_widths(10, 4), vec![3, 3, 2, 2]);
    assert!(column_widths(10, 0).is_empty());
}

#[test]
fn board_truncation() {
    assert_eq!(truncate_str("hello world", 0), "");
    assert_eq!(truncate_str("hello", 5), "hello");
    assert_eq!(truncate_str("hello", 3), "hel");
    assert_eq!(truncate_str("hello world", 8), "hello...");
    assert_eq!(truncate_str("日本語テキスト", 5), "日本...");
}
