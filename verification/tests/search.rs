use gridedit::Document;
use gridedit::Position;
use gridedit::SearchDirection;

fn pos(x: usize, y: usize) -> Position {
    Position { x, y }
}

fn grid_with_x_at_2_5() -> Document {
    let mut d = Document::default();
    d.insert(&pos(4, 6), 'a');
    d.insert(&pos(2, 5), 'x');
    d
}

#[test]
fn forward_search_finds_the_only_match() {
    let d = grid_with_x_at_2_5();
    let hit = d.find("x", &pos(0, 0), SearchDirection::Forward);
    assert_eq!(hit, Some(pos(2, 5)));
}

#[test]
fn backward_search_from_the_origin_finds_nothing() {
    let d = grid_with_x_at_2_5();
    let hit = d.find("x", &pos(0, 0), SearchDirection::Backward);
    assert_eq!(hit, None);
}

#[test]
fn backward_search_from_below_finds_the_match() {
    let d = grid_with_x_at_2_5();
    let hit = d.find("x", &pos(0, 6), SearchDirection::Backward);
    assert_eq!(hit, Some(pos(2, 5)));
}

#[test]
fn forward_search_skips_columns_before_the_start() {
    let mut d = Document::default();
    d.insert(&pos(0, 0), 'x');
    d.insert(&pos(2, 0), 'x');
    assert_eq!(d.find("x", &pos(1, 0), SearchDirection::Forward), Some(pos(2, 0)));
}

#[test]
fn forward_search_wraps_to_the_next_row_from_column_zero() {
    let mut d = Document::default();
    d.insert(&pos(5, 0), 'a');
    d.insert(&pos(0, 1), 'x');
    assert_eq!(d.find("x", &pos(3, 0), SearchDirection::Forward), Some(pos(0, 1)));
}

#[test]
fn backward_search_takes_the_nearest_earlier_match() {
    let mut d = Document::default();
    d.insert(&pos(0, 0), 'x');
    d.insert(&pos(1, 1), 'x');
    d.insert(&pos(0, 3), 'a');
    assert_eq!(d.find("x", &pos(0, 3), SearchDirection::Backward), Some(pos(1, 1)));
}

#[test]
fn search_matches_substrings() {
    let mut d = Document::default();
    for c in "hello".chars() {
        d.insert(&pos(0, 0), c);
    }
    assert_eq!(d.find("ell", &pos(0, 0), SearchDirection::Forward), Some(pos(0, 0)));
}

#[test]
fn empty_query_finds_nothing() {
    let d = grid_with_x_at_2_5();
    assert_eq!(d.find("", &pos(0, 0), SearchDirection::Forward), None);
    assert_eq!(d.find("", &pos(0, 6), SearchDirection::Backward), None);
}

#[test]
fn start_below_the_grid_finds_nothing() {
    let d = grid_with_x_at_2_5();
    assert_eq!(d.find("x", &pos(0, 40), SearchDirection::Forward), None);
    assert_eq!(d.find("x", &pos(0, 40), SearchDirection::Backward), None);
}

#[test]
fn no_match_returns_none() {
    let d = grid_with_x_at_2_5();
    assert_eq!(d.find("zz", &pos(0, 0), SearchDirection::Forward), None);
}
