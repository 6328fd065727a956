use gridedit::Cell;
use gridedit::DataType;
use gridedit::Document;
use gridedit::Position;

fn pos(x: usize, y: usize) -> Position {
    Position { x, y }
}

fn type_at(d: &mut Document, p: &Position, s: &str) {
    for c in s.chars() {
        d.insert(p, c);
    }
}

/// The coercion step the interactive shell runs when a cell edit ends: if
/// the cell holds marker-prefixed text whose literal parses as a float, the
/// cell becomes a float carrying the canonical rendering.
fn coerce_at(d: &mut Document, p: &Position) {
    if let Some(lit) = d.coercion_literal(p) {
        if let Ok(v) = lit.parse::<f64>() {
            d.promote(p, v.to_string());
        }
    }
}

#[test]
fn default_document_is_empty_and_unnamed() {
    let d = Document::default();
    assert_eq!(d.len, 0);
    assert!(d.file_name.is_none());
    assert_eq!(d.col_count(), 0);
}

#[test]
fn insert_beyond_bounds_creates_the_cell() {
    let mut d = Document::default();
    assert!(!d.cell_exist(&pos(3, 2)));
    d.insert(&pos(3, 2), 'q');
    assert!(d.cell_exist(&pos(3, 2)));
    assert_eq!(d.len, 3);
    assert_eq!(d.get_cell(&pos(3, 2)).unwrap().val.display(), "q");
}

#[test]
fn growth_pads_with_empty_cells() {
    let mut d = Document::default();
    d.insert(&pos(2, 1), 'q');
    assert_eq!(d.rows[0].len, 0);
    assert_eq!(d.rows[1].len, 3);
    assert!(d.get_cell(&pos(0, 1)).unwrap().val.is_empy());
    assert!(d.get_cell(&pos(1, 1)).unwrap().val.is_empy());
}

#[test]
fn delete_on_missing_cell_changes_nothing() {
    let mut d = Document::default();
    type_at(&mut d, &pos(0, 0), "ab");
    let before = d.to_text();
    d.delete(&pos(5, 0));
    d.delete(&pos(0, 7));
    assert_eq!(d.len, 1);
    assert_eq!(d.rows[0].len, 1);
    assert_eq!(d.to_text(), before);
}

#[test]
fn delete_trims_the_addressed_document_cell() {
    let mut d = Document::default();
    type_at(&mut d, &pos(0, 0), "ab");
    d.delete(&pos(0, 0));
    assert_eq!(d.get_cell(&pos(0, 0)).unwrap().val.display(), "a");
}

#[test]
fn insert_cell_pastes_a_copy() {
    let mut d = Document::default();
    let clip = Cell::from(String::from("pasted"));
    d.insert_cell(&pos(1, 1), &clip);
    assert_eq!(d.get_cell(&pos(1, 1)).unwrap().val.display(), "pasted");
    type_at(&mut d, &pos(0, 0), "old");
    d.insert_cell(&pos(0, 0), &clip);
    assert_eq!(d.get_cell(&pos(0, 0)).unwrap().val.display(), "pasted");
}

#[test]
fn col_count_is_the_widest_row() {
    let mut d = Document::default();
    assert_eq!(d.col_count(), 0);
    d.insert(&pos(0, 0), 'a');
    d.insert(&pos(3, 1), 'b');
    d.insert(&pos(1, 2), 'c');
    assert_eq!(d.col_count(), 4);
}

#[test]
fn add_column_makes_every_row_one_wider_than_the_old_maximum() {
    let mut d = Document::default();
    d.insert(&pos(0, 0), 'a');
    d.insert(&pos(3, 1), 'b');
    let old_max = d.col_count();
    d.add_column();
    assert_eq!(d.rows[0].len, old_max + 1);
    assert_eq!(d.rows[1].len, old_max + 1);
    assert_eq!(d.col_count(), old_max + 1);
    assert_eq!(d.get_cell(&pos(0, 0)).unwrap().val.display(), "a");
    assert!(d.get_cell(&pos(4, 0)).unwrap().val.is_empy());
}

#[test]
fn del_col_skips_rows_that_are_too_short() {
    let mut d = Document::default();
    type_at(&mut d, &pos(0, 0), "a");
    type_at(&mut d, &pos(1, 0), "b");
    type_at(&mut d, &pos(2, 0), "c");
    type_at(&mut d, &pos(0, 1), "q");
    d.del_col(1);
    assert_eq!(d.rows[0].len, 2);
    assert_eq!(d.get_cell(&pos(0, 0)).unwrap().val.display(), "a");
    assert_eq!(d.get_cell(&pos(1, 0)).unwrap().val.display(), "c");
    assert_eq!(d.rows[1].len, 1);
    assert_eq!(d.get_cell(&pos(0, 1)).unwrap().val.display(), "q");
}

#[test]
fn is_col_empty_ignores_missing_cells() {
    let mut d = Document::default();
    d.insert(&pos(2, 0), 'a');
    assert!(d.is_col_empty(0));
    assert!(d.is_col_empty(1));
    assert!(!d.is_col_empty(2));
    assert!(d.is_col_empty(9));
    assert!(Document::default().is_col_empty(0));
}

#[test]
fn loaded_blank_token_counts_as_content() {
    let d = Document::from_text("a;\n");
    assert_eq!(d.rows[0].len, 2);
    assert!(d.get_cell(&pos(1, 0)).unwrap().val.is_string());
    assert!(!d.is_col_empty(1));
}

#[test]
fn get_cell_is_bounds_checked() {
    let mut d = Document::default();
    d.insert(&pos(0, 0), 'a');
    assert!(d.get_cell(&pos(0, 0)).is_some());
    assert!(d.get_cell(&pos(1, 0)).is_none());
    assert!(d.get_cell(&pos(0, 1)).is_none());
}

#[test]
fn typing_a_marked_number_yields_a_float_cell() {
    let mut d = Document::default();
    let p = pos(0, 0);
    type_at(&mut d, &p, "=3.14");
    coerce_at(&mut d, &p);
    let cell = d.get_cell(&p).unwrap();
    assert!(cell.val.is_float());
    assert_eq!(cell.val.display(), "3.14");
}

#[test]
fn typing_an_unmarked_number_yields_a_text_cell() {
    let mut d = Document::default();
    let p = pos(0, 0);
    type_at(&mut d, &p, "3.14");
    coerce_at(&mut d, &p);
    let cell = d.get_cell(&p).unwrap();
    assert!(cell.val.is_string());
    assert_eq!(cell.val.display(), "3.14");
}

#[test]
fn marked_non_number_stays_text() {
    let mut d = Document::default();
    let p = pos(0, 0);
    type_at(&mut d, &p, "=abc");
    coerce_at(&mut d, &p);
    let cell = d.get_cell(&p).unwrap();
    assert!(cell.val.is_string());
    assert_eq!(cell.val.display(), "=abc");
}

#[test]
fn fill_appends_default_rows() {
    let mut d = Document::default();
    d.fill(2);
    assert_eq!(d.len, 2);
    assert_eq!(d.rows[0].len, 0);
    d.add_row();
    assert_eq!(d.len, 3);
}

#[test]
fn int_and_bool_cells_render_in_the_grid() {
    let mut d = Document::default();
    d.insert_cell(&pos(0, 0), &Cell { val: DataType::Int(-7), pos: pos(0, 0) });
    d.insert_cell(&pos(1, 0), &Cell { val: DataType::Bool(true), pos: pos(1, 0) });
    assert_eq!(d.rows[0].stringify(";"), "-7;true");
}
