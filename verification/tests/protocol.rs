use ruterm::error::ProtocolError;
use ruterm::io::Input;
use ruterm::protocol::{is_reply_terminator, parse_position_reply, query_position, Position};

fn query(reply: &[u8]) -> (String, Result<Position, ProtocolError>) {
    let mut output: Vec<char> = Vec::new();
    let mut input = Input::new(reply.to_vec());
    let r = query_position(&mut output, &mut input);
    (output.iter().collect::<String>(), r)
}

#[test]
fn query_round_trip() {
    // A fake channel primed with the reply to `ESC[6n`: the first numeric
    // field is the row, the second the column; `x` carries the column.
    let (written, r) = query(b"\x1b[12;34R");
    assert_eq!("\x1b[6n", written);
    assert_eq!(Ok(Position { x: 34, y: 12 }), r);
}

#[test]
fn query_round_trip_order_fixed() {
    // Asymmetric coordinates both ways, to pin the field ordering.
    let (_, r) = query(b"\x1b[1;99R");
    let p = r.unwrap();
    assert_eq!(99, p.x);
    assert_eq!(1, p.y);
    let (_, r) = query(b"\x1b[99;1R");
    let p = r.unwrap();
    assert_eq!(1, p.x);
    assert_eq!(99, p.y);
}

#[test]
fn query_stops_reading_at_first_terminator() {
    let mut output: Vec<char> = Vec::new();
    let mut input = Input::new(b"\x1b[2;3Rleftover".to_vec());
    let r = query_position(&mut output, &mut input);
    assert_eq!(Ok(Position { x: 3, y: 2 }), r);
    // The bytes after the reply terminator are still available.
    assert_eq!(Some(b'l'), ruterm::io::read_with_input(&mut input));
}

#[test]
fn short_response_rejected() {
    let (_, r) = query(b"\x1b[R");
    assert_eq!(Err(ProtocolError::ShortResponse), r);
}

#[test]
fn empty_input_is_short_response() {
    let (_, r) = query(b"");
    assert_eq!(Err(ProtocolError::ShortResponse), r);
}

#[test]
fn three_fields_rejected_as_malformed() {
    let (_, r) = query(b"\x1b[1;2;3R");
    assert_eq!(Err(ProtocolError::MalformedResponse), r);
}

#[test]
fn missing_semicolon_rejected_as_malformed() {
    let (_, r) = query(b"\x1b[1234R");
    assert_eq!(Err(ProtocolError::MalformedResponse), r);
}

#[test]
fn missing_terminator_rejected_as_malformed() {
    // The source runs dry before any `R`: enough bytes, wrong framing.
    let (_, r) = query(b"\x1b[12;34");
    assert_eq!(Err(ProtocolError::MalformedResponse), r);
}

#[test]
fn wrong_introducer_rejected_as_malformed() {
    let (_, r) = query(b"xx12;34R");
    assert_eq!(Err(ProtocolError::MalformedResponse), r);
}

#[test]
fn non_digit_field_rejected_as_not_numeric() {
    let (_, r) = query(b"\x1b[1a;22R");
    assert_eq!(Err(ProtocolError::NotNumeric), r);
}

#[test]
fn empty_field_rejected_as_not_numeric() {
    let (_, r) = query(b"\x1b[;1234R");
    assert_eq!(Err(ProtocolError::NotNumeric), r);
}

#[test]
fn overflowing_field_rejected_as_not_numeric() {
    let (_, r) = query(b"\x1b[99999;1R");
    assert_eq!(Err(ProtocolError::NotNumeric), r);
}

#[test]
fn boundary_values_parse() {
    let (_, r) = query(b"\x1b[65535;0R");
    assert_eq!(Ok(Position { x: 0, y: 65535 }), r);
}

#[test]
fn leading_zeroes_parse() {
    let (_, r) = query(b"\x1b[007;00042R");
    assert_eq!(Ok(Position { x: 42, y: 7 }), r);
}

#[test]
fn reply_terminator_is_exactly_r() {
    assert!(is_reply_terminator(b'R'));
    assert!(!is_reply_terminator(b';'));
    assert!(!is_reply_terminator(b'r'));
    assert!(!is_reply_terminator(27));
}

#[test]
fn parse_reply_directly() {
    assert_eq!(
        Ok(Position { x: 4, y: 3 }),
        parse_position_reply(&b"\x1b[3;4R".to_vec())
    );
    assert_eq!(
        Err(ProtocolError::ShortResponse),
        parse_position_reply(&b"\x1b[4R".to_vec())
    );
}
