use gridedit::Cell;
use gridedit::DataType;
use gridedit::Position;

fn typed(s: &str) -> DataType {
    let mut v = DataType::Empty;
    for c in s.chars() {
        v.insert(c);
    }
    v
}

#[test]
fn empty_value_renders_empty() {
    let v = DataType::Empty;
    assert!(v.is_empy());
    assert_eq!(v.display(), "");
    assert_eq!(v.len(), 0);
}

#[test]
fn first_insert_turns_empty_into_text() {
    let mut v = DataType::Empty;
    v.insert('a');
    assert!(v.is_string());
    assert_eq!(v.display(), "a");
    assert_eq!(v.len(), 1);
}

#[test]
fn text_grows_at_the_end() {
    let v = typed("hello");
    assert!(v.is_string());
    assert_eq!(v.display(), "hello");
    assert_eq!(v.len(), 5);
}

#[test]
fn insert_into_numeric_and_bool_is_a_no_op() {
    let mut i = DataType::Int(7);
    i.insert('9');
    assert_eq!(i.display(), "7");
    let mut f = DataType::Float(String::from("2.5"));
    f.insert('9');
    assert_eq!(f.display(), "2.5");
    let mut b = DataType::Bool(true);
    b.insert('9');
    assert_eq!(b.display(), "true");
}

#[test]
fn delete_trims_the_last_text_character() {
    let mut v = typed("ab");
    v.delete(0);
    assert_eq!(v.display(), "a");
    v.delete(17);
    assert_eq!(v.display(), "");
    v.delete(0);
    assert!(v.is_string());
    assert_eq!(v.display(), "");
}

#[test]
fn delete_leaves_non_text_alone() {
    let mut i = DataType::Int(42);
    i.delete(0);
    assert_eq!(i.display(), "42");
    let mut b = DataType::Bool(false);
    b.delete(0);
    assert_eq!(b.display(), "false");
}

#[test]
fn reset_discards_content_and_type() {
    let mut v = DataType::Int(5);
    v.reset();
    assert!(v.is_empy());
    let mut t = typed("abc");
    t.reset();
    assert!(t.is_empy());
}

#[test]
fn integer_display_and_length() {
    assert_eq!(DataType::Int(0).display(), "0");
    assert_eq!(DataType::Int(-42).display(), "-42");
    assert_eq!(DataType::Int(-42).len(), 3);
    assert_eq!(DataType::Int(i64::MAX).display(), "9223372036854775807");
    assert_eq!(DataType::Int(i64::MIN).display(), "-9223372036854775808");
    assert_eq!(DataType::Int(i64::MIN).len(), 20);
}

#[test]
fn boolean_display_and_length() {
    assert_eq!(DataType::Bool(true).display(), "true");
    assert_eq!(DataType::Bool(true).len(), 4);
    assert_eq!(DataType::Bool(false).display(), "false");
    assert_eq!(DataType::Bool(false).len(), 5);
}

#[test]
fn predicates_match_the_variant() {
    assert!(DataType::Int(1).is_int());
    assert!(DataType::Float(String::from("1.5")).is_float());
    assert!(typed("x").is_string());
    assert!(DataType::Bool(true).is_bool());
    assert!(!DataType::Int(1).is_float());
    assert!(!DataType::Empty.is_string());
}

#[test]
fn marker_text_promotes_to_float() {
    let mut v = typed("=3.14");
    let lit = v.coercion_literal().expect("marker-prefixed text has a literal");
    assert_eq!(lit, "3.14");
    let parsed: f64 = lit.parse().expect("the literal is a float");
    v.promote(parsed.to_string());
    assert!(v.is_float());
    assert_eq!(v.display(), "3.14");
}

#[test]
fn unmarked_number_stays_text() {
    let v = typed("3.14");
    assert!(v.coercion_literal().is_none());
    assert!(v.is_string());
    assert_eq!(v.display(), "3.14");
}

#[test]
fn promotion_is_irreversible_for_inserts() {
    let mut v = typed("=2");
    let lit = v.coercion_literal().unwrap();
    let parsed: f64 = lit.parse().unwrap();
    v.promote(parsed.to_string());
    assert!(v.is_float());
    v.insert('9');
    assert_eq!(v.display(), "2");
}

#[test]
fn promote_without_marker_changes_nothing() {
    let mut v = typed("abc");
    v.promote(String::from("1.5"));
    assert!(v.is_string());
    assert_eq!(v.display(), "abc");
}

#[test]
fn default_cell_is_empty_at_origin() {
    let c = Cell::default();
    assert!(c.val.is_empy());
    assert_eq!(c.pos, Position { x: 0, y: 0 });
}

#[test]
fn cell_from_raw_token_is_text() {
    let c = Cell::from(String::from("=5"));
    assert!(c.val.is_string());
    assert_eq!(c.val.display(), "=5");
}

#[test]
fn cell_render_truncates_with_ellipsis() {
    let mut c = Cell::default();
    for ch in "abcdef".chars() {
        c.insert(ch);
    }
    assert_eq!(c.render(5), "abc..");
    assert_eq!(c.render(0), "abcdef");
    assert_eq!(c.render(6), "abcdef");
    assert_eq!(c.render(9), "abcdef");
    assert_eq!(c.render(2), "..");
    assert_eq!(c.render(1), "..");
    assert_eq!(c.val.display(), "abcdef");
}

#[test]
fn cell_edits_delegate_to_the_value() {
    let mut c = Cell::default();
    c.insert('h');
    c.insert('i');
    assert_eq!(c.val.display(), "hi");
    c.delete(0);
    assert_eq!(c.val.display(), "h");
    c.reset();
    assert!(c.val.is_empy());
}
