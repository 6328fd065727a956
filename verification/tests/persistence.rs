use gridedit::Cell;
use gridedit::DataType;
use gridedit::Document;
use gridedit::Position;

fn pos(x: usize, y: usize) -> Position {
    Position { x, y }
}

#[test]
fn from_text_splits_lines_and_fields() {
    let d = Document::from_text("a;b\nc\n");
    assert_eq!(d.len, 2);
    assert_eq!(d.rows[0].len, 2);
    assert_eq!(d.rows[1].len, 1);
    assert_eq!(d.get_cell(&pos(0, 0)).unwrap().val.display(), "a");
    assert_eq!(d.get_cell(&pos(1, 0)).unwrap().val.display(), "b");
    assert_eq!(d.get_cell(&pos(0, 1)).unwrap().val.display(), "c");
    assert!(d.file_name.is_none());
}

#[test]
fn from_text_keeps_empty_fields() {
    let d = Document::from_text("a;;b");
    assert_eq!(d.len, 1);
    assert_eq!(d.rows[0].len, 3);
    assert_eq!(d.get_cell(&pos(1, 0)).unwrap().val.display(), "");
}

#[test]
fn from_text_of_the_empty_text_is_the_empty_grid() {
    let d = Document::from_text("");
    assert_eq!(d.len, 0);
}

#[test]
fn a_blank_line_becomes_a_single_empty_field() {
    let d = Document::from_text("\n");
    assert_eq!(d.len, 1);
    assert_eq!(d.rows[0].len, 1);
    assert_eq!(d.get_cell(&pos(0, 0)).unwrap().val.display(), "");
}

#[test]
fn from_text_strips_a_trailing_carriage_return() {
    let d = Document::from_text("a;b\r\nc\r\n");
    assert_eq!(d.len, 2);
    assert_eq!(d.get_cell(&pos(1, 0)).unwrap().val.display(), "b");
    assert_eq!(d.get_cell(&pos(0, 1)).unwrap().val.display(), "c");
}

#[test]
fn loading_never_coerces_numbers() {
    let d = Document::from_text("=3.14;3.14\n");
    assert!(d.get_cell(&pos(0, 0)).unwrap().val.is_string());
    assert!(d.get_cell(&pos(1, 0)).unwrap().val.is_string());
    assert_eq!(d.get_cell(&pos(0, 0)).unwrap().val.display(), "=3.14");
}

#[test]
fn to_text_joins_rows_with_newlines() {
    let mut d = Document::default();
    for c in "ab".chars() {
        d.insert(&pos(0, 0), c);
    }
    d.insert(&pos(1, 0), 'c');
    d.insert(&pos(0, 1), 'd');
    assert_eq!(d.to_text(), "ab;c\nd\n");
    assert_eq!(Document::default().to_text(), "");
}

#[test]
fn round_trip_preserves_the_rendered_grid() {
    let mut d = Document::default();
    for c in "hi".chars() {
        d.insert(&pos(0, 0), c);
    }
    d.insert(&pos(2, 0), 'z');
    d.insert_cell(&pos(0, 1), &Cell { val: DataType::Int(-42), pos: pos(0, 1) });
    d.insert_cell(&pos(1, 1), &Cell { val: DataType::Float(String::from("2.5")), pos: pos(1, 1) });
    let text = d.to_text();
    let d2 = Document::from_text(&text);
    assert_eq!(d2.len, d.len);
    for y in 0..d.len {
        assert_eq!(d2.rows[y].len, d.rows[y].len);
        for x in 0..d.rows[y].len {
            assert_eq!(
                d2.get_cell(&pos(x, y)).unwrap().val.display(),
                d.get_cell(&pos(x, y)).unwrap().val.display()
            );
        }
    }
    assert_eq!(d2.to_text(), text);
}

#[test]
fn round_trip_turns_numbers_into_text() {
    let mut d = Document::default();
    d.insert_cell(&pos(0, 0), &Cell { val: DataType::Int(7), pos: pos(0, 0) });
    let d2 = Document::from_text(&d.to_text());
    let v = &d2.get_cell(&pos(0, 0)).unwrap().val;
    assert!(v.is_string());
    assert!(!v.is_int());
    assert_eq!(v.display(), "7");
}
