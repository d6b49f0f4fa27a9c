use ruterm::cursor::{
    hide_with_output, move_with_output, push_decimal, set_with_output, show_with_output,
    start_with_output, Direction,
};
use ruterm::io::{flush_with_output, read_with_input, write_with_output, Input};
use ruterm::render::visible_length;

fn as_string(buffer: &Vec<char>) -> String {
    buffer.iter().collect::<String>()
}

#[test]
fn set_writes_row_then_column() {
    let mut buffer: Vec<char> = Vec::new();
    let n = set_with_output(&mut buffer, 2, 5).unwrap();
    assert_eq!("\x1b[5;2H", as_string(&buffer));
    assert_eq!(6, n);
}

#[test]
fn move_each_direction_uses_its_letter() {
    let mut buffer: Vec<char> = Vec::new();
    move_with_output(&mut buffer, Direction::Up, 1).unwrap();
    move_with_output(&mut buffer, Direction::Down, 2).unwrap();
    move_with_output(&mut buffer, Direction::Right, 3).unwrap();
    move_with_output(&mut buffer, Direction::Left, 4).unwrap();
    assert_eq!("\x1b[1A\x1b[2B\x1b[3C\x1b[4D", as_string(&buffer));
}

#[test]
fn move_reports_sequence_length() {
    let mut buffer: Vec<char> = Vec::new();
    let n = move_with_output(&mut buffer, Direction::Left, 10).unwrap();
    assert_eq!("\x1b[10D", as_string(&buffer));
    assert_eq!(5, n);
}

#[test]
fn decimal_rendering_is_exact() {
    let mut buffer: Vec<char> = Vec::new();
    push_decimal(&mut buffer, 0);
    buffer.push(',');
    push_decimal(&mut buffer, 7);
    buffer.push(',');
    push_decimal(&mut buffer, 10);
    buffer.push(',');
    push_decimal(&mut buffer, 305);
    buffer.push(',');
    push_decimal(&mut buffer, 65535);
    assert_eq!("0,7,10,305,65535", as_string(&buffer));
}

#[test]
fn clear_hide_show_sequences() {
    let mut buffer: Vec<char> = Vec::new();
    start_with_output(&mut buffer).unwrap();
    hide_with_output(&mut buffer).unwrap();
    show_with_output(&mut buffer).unwrap();
    assert_eq!("\x1b[2J\x1b[?25l\x1b[?25h", as_string(&buffer));
}

#[test]
fn every_emitted_sequence_is_invisible() {
    // The terminator set used by the length scan covers every sequence the
    // cursor commands can emit.
    let mut buffer: Vec<char> = Vec::new();
    set_with_output(&mut buffer, 123, 45).unwrap();
    move_with_output(&mut buffer, Direction::Up, 300).unwrap();
    move_with_output(&mut buffer, Direction::Down, 0).unwrap();
    move_with_output(&mut buffer, Direction::Left, 65535).unwrap();
    move_with_output(&mut buffer, Direction::Right, 1).unwrap();
    start_with_output(&mut buffer).unwrap();
    hide_with_output(&mut buffer).unwrap();
    show_with_output(&mut buffer).unwrap();
    let s = as_string(&buffer);
    assert_eq!(0, visible_length(&s));
}

#[test]
fn write_appends_and_counts() {
    let mut buffer: Vec<char> = Vec::new();
    assert_eq!(5, write_with_output(&mut buffer, "Hello").unwrap());
    assert_eq!(0, write_with_output(&mut buffer, "").unwrap());
    assert_eq!(2, write_with_output(&mut buffer, "!\n").unwrap());
    assert_eq!("Hello!\n", as_string(&buffer));
}

#[test]
fn flush_changes_nothing() {
    let mut buffer: Vec<char> = Vec::new();
    write_with_output(&mut buffer, "x").unwrap();
    flush_with_output(&mut buffer).unwrap();
    assert_eq!("x", as_string(&buffer));
}

#[test]
fn read_delivers_bytes_then_none() {
    let mut input = Input::new(vec![10, 20]);
    assert_eq!(Some(10), read_with_input(&mut input));
    assert_eq!(Some(20), read_with_input(&mut input));
    assert_eq!(None, read_with_input(&mut input));
    assert_eq!(None, read_with_input(&mut input));
}
