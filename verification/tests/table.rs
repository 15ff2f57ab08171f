use turboterm::table::Table;

#[test]
fn empty_table_is_placeholder() {
    let t = Table::new();
    assert_eq!(t.render(), "\u{250c}\u{2510}\n\u{2514}\u{2518}");
}

#[test]
fn rows_with_no_cells_are_placeholder() {
    let mut t = Table::new();
    t.add_row(vec![]);
    t.add_row(vec![]);
    assert_eq!(t.render(), "\u{250c}\u{2510}\n\u{2514}\u{2518}");
}

#[test]
fn single_cell() {
    let mut t = Table::new();
    t.add_row(vec!["a".to_string()]);
    assert_eq!(t.render(), "┌───┐\n│ a │\n└───┘");
}

#[test]
fn ragged_rows_pad_missing_cells() {
    let mut t = Table::new();
    t.add_row(vec!["a".to_string(), "b".to_string(), "c".to_string()]);
    t.add_row(vec!["d".to_string()]);
    assert_eq!(
        t.render(),
        "┌───┬───┬───┐\n│ a ┆ b ┆ c │\n├╌╌╌┼╌╌╌┼╌╌╌┤\n│ d ┆   ┆   │\n└───┴───┴───┘"
    );
}

#[test]
fn column_width_follows_widest_cell() {
    let mut t = Table::new();
    t.add_row(vec!["a".to_string()]);
    t.add_row(vec!["bbb".to_string()]);
    assert_eq!(
        t.render(),
        "┌─────┐\n│ a   │\n├╌╌╌╌╌┤\n│ bbb │\n└─────┘"
    );
}

#[test]
fn empty_string_cell_has_minimum_width() {
    let mut t = Table::new();
    t.add_row(vec!["".to_string()]);
    assert_eq!(t.render(), "┌───┐\n│   │\n└───┘");
}

#[test]
fn cells_are_styled_and_sized_by_visible_width() {
    let mut t = Table::new();
    t.add_row(vec!["[b]x[/b]".to_string(), "yy".to_string()]);
    assert_eq!(
        t.render(),
        "┌───┬────┐\n│ \x1b[1mx\x1b[0m ┆ yy │\n└───┴────┘"
    );
}

#[test]
fn styled_and_plain_columns_align() {
    let mut t = Table::new();
    t.add_row(vec!["[red]ab[/red]".to_string()]);
    t.add_row(vec!["cd".to_string()]);
    assert_eq!(
        t.render(),
        "┌────┐\n│ \x1b[31mab\x1b[0m │\n├╌╌╌╌┤\n│ cd │\n└────┘"
    );
}

#[test]
fn unknown_markup_stays_literal_in_cells() {
    let mut t = Table::new();
    t.add_row(vec!["[foo]".to_string()]);
    assert_eq!(t.render(), "┌───────┐\n│ [foo] │\n└───────┘");
}
