use gridedit::Row;
use gridedit::SearchDirection;

fn row_of(tokens: &[&str]) -> Row {
    let mut r = Row::default();
    for (i, t) in tokens.iter().enumerate() {
        for c in t.chars() {
            r.insert(c, i);
        }
        if t.is_empty() {
            r.fill(1);
        }
    }
    r
}

#[test]
fn default_row_is_empty() {
    let r = Row::default();
    assert_eq!(r.len, 0);
    assert_eq!(r.cells.len(), 0);
}

#[test]
fn insert_beyond_bounds_pads_with_empty_cells() {
    let mut r = Row::default();
    r.insert('z', 3);
    assert_eq!(r.len, 4);
    assert!(r.cells[0].val.is_empy());
    assert!(r.cells[1].val.is_empy());
    assert!(r.cells[2].val.is_empy());
    assert_eq!(r.cells[3].val.display(), "z");
}

#[test]
fn fill_appends_default_cells_and_updates_len() {
    let mut r = Row::default();
    r.fill(3);
    assert_eq!(r.len, 3);
    assert_eq!(r.cells.len(), 3);
    assert!(r.cells[2].val.is_empy());
}

#[test]
fn insert_cell_overwrites() {
    let mut r = row_of(&["a", "b"]);
    let c = gridedit::Cell::from(String::from("new"));
    r.insert_cell(1, &c);
    assert_eq!(r.cells[1].val.display(), "new");
    assert_eq!(r.cells[0].val.display(), "a");
    r.insert_cell(4, &c);
    assert_eq!(r.len, 5);
    assert!(r.cells[3].val.is_empy());
    assert_eq!(r.cells[4].val.display(), "new");
}

#[test]
fn delete_out_of_bounds_is_a_no_op() {
    let mut r = row_of(&["ab"]);
    r.delete(5);
    assert_eq!(r.len, 1);
    assert_eq!(r.cells[0].val.display(), "ab");
}

#[test]
fn delete_trims_the_addressed_cell() {
    let mut r = row_of(&["ab", "cd"]);
    r.delete(1);
    assert_eq!(r.cells[0].val.display(), "ab");
    assert_eq!(r.cells[1].val.display(), "c");
}

#[test]
fn stringify_joins_full_texts() {
    let r = row_of(&["a", "", "b"]);
    assert_eq!(r.stringify(";"), "a;;b");
    assert_eq!(r.stringify(", "), "a, , b");
    assert_eq!(Row::default().stringify(";"), "");
}

#[test]
fn stringify_uses_untruncated_text() {
    let r = row_of(&["a-very-long-token"]);
    assert_eq!(r.stringify(";"), "a-very-long-token");
}

#[test]
fn render_joins_with_pipes() {
    let r = row_of(&["a", "b"]);
    assert_eq!(r.render(), "a | b | ");
    assert_eq!(Row::default().render(), "");
}

#[test]
fn find_forward_returns_first_match_at_or_after_start() {
    let r = row_of(&["x", "ax", "b", "x"]);
    assert_eq!(r.find("x", 0, SearchDirection::Forward), Some(0));
    assert_eq!(r.find("x", 1, SearchDirection::Forward), Some(1));
    assert_eq!(r.find("x", 2, SearchDirection::Forward), Some(3));
    assert_eq!(r.find("b", 3, SearchDirection::Forward), None);
}

#[test]
fn find_backward_returns_nearest_match_below_start() {
    let r = row_of(&["x", "b", "x", "c"]);
    assert_eq!(r.find("x", 4, SearchDirection::Backward), Some(2));
    assert_eq!(r.find("x", 2, SearchDirection::Backward), Some(0));
    assert_eq!(r.find("x", 0, SearchDirection::Backward), None);
}

#[test]
fn find_matches_substrings_of_the_display_string() {
    let r = row_of(&["hello", "world"]);
    assert_eq!(r.find("orl", 0, SearchDirection::Forward), Some(1));
    assert_eq!(r.find("ell", 0, SearchDirection::Forward), Some(0));
    assert_eq!(r.find("xyz", 0, SearchDirection::Forward), None);
}

#[test]
fn find_rejects_empty_query_and_start_beyond_row() {
    let r = row_of(&["a"]);
    assert_eq!(r.find("", 0, SearchDirection::Forward), None);
    assert_eq!(r.find("a", 2, SearchDirection::Forward), None);
    assert_eq!(r.find("a", 2, SearchDirection::Backward), None);
    assert_eq!(r.find("a", 1, SearchDirection::Backward), Some(0));
}
