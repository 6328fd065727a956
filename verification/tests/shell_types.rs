use gridedit::Position;
use gridedit::Size;
use gridedit::Status;
use gridedit::Terminal;

#[test]
fn default_position_is_the_origin() {
    let p = Position::default();
    assert_eq!(p, Position { x: 0, y: 0 });
}

#[test]
fn status_keeps_its_message() {
    let s = Status::from(String::from("File saved successfully."));
    assert_eq!(s.message, "File saved successfully.");
    assert_eq!(Status::default().message, "");
}

#[test]
fn terminal_reports_its_size() {
    let t = Terminal { size: Size { width: 80, height: 20 } };
    let s = t.size();
    assert_eq!(s.width, 80);
    assert_eq!(s.height, 20);
}

#[test]
fn update_size_reserves_four_chrome_lines() {
    let mut t = Terminal { size: Size { width: 0, height: 0 } };
    t.update_size(100, 40);
    assert_eq!(t.size().width, 100);
    assert_eq!(t.size().height, 36);
    t.update_size(10, 3);
    assert_eq!(t.size().height, 0);
}
