use ruterm::render::{render_with_output, skip_invisible, visible_length, RenderToken};

fn text(s: &str) -> RenderToken {
    RenderToken::Text(s.to_string())
}

fn rendered(tokens: Vec<RenderToken>) -> String {
    let mut buffer: Vec<char> = Vec::new();
    render_with_output(&mut buffer, &tokens).unwrap();
    buffer.iter().collect::<String>()
}

#[test]
fn visible_length_() {
    let code = "Hi\x1b[?25hHello".to_string();
    assert_eq!(("Hi".len() + "Hello".len()) as u16, visible_length(&code));
}

#[test]
fn render_() {
    let tokens = vec![text("1line"), text("1line"), RenderToken::Break, text("2line")];
    let mut buffer: Vec<char> = Vec::new();
    render_with_output(&mut buffer, &tokens).unwrap();
    assert_eq!(
        "1line1line\x1b[1B\x1b[10D2line".to_string(),
        buffer.iter().collect::<String>()
    );
}

#[test]
fn visible_length_plain_text() {
    assert_eq!(5, visible_length("Hello"));
    assert_eq!(0, visible_length(""));
}

#[test]
fn visible_length_escape_only() {
    assert_eq!(0, visible_length("\x1b[2J"));
    assert_eq!(0, visible_length("\x1b[31m\x1b[?25l"));
}

#[test]
fn visible_length_sgr_terminator_counts_as_end() {
    // The SGR terminator `m` belongs to the shared terminator set: the
    // characters after the style sequence are visible again.
    assert_eq!(3, visible_length("\x1b[31mred"));
    assert_eq!(8, visible_length("red\x1b[31mgreen\x1b[m"));
}

#[test]
fn visible_length_movement_terminators() {
    // One escape sequence per movement letter, all invisible.
    assert_eq!(2, visible_length("a\x1b[1A\x1b[2B\x1b[10C\x1b[7D\x1b[5;6H\x1b[2Jb"));
}

#[test]
fn skip_invisible_stops_after_terminator() {
    let line = "\x1b[10Dxy";
    // Skipping from just after the introducer consumes up to and including
    // the terminating `D`.
    assert_eq!(5, skip_invisible(line, 1));
}

#[test]
fn skip_invisible_stops_at_first_terminator_only() {
    // Two escape sequences back to back: the skip consumes only the first,
    // never the one that follows it.
    let line = "\x1b[A\x1b[Bxy";
    assert_eq!(3, skip_invisible(line, 1));
}

#[test]
fn skip_invisible_consumes_rest_without_terminator() {
    let line = "\x1b[42";
    assert_eq!(4, skip_invisible(line, 1));
}

#[test]
fn render_empty_token_list() {
    assert_eq!("", rendered(vec![]));
}

#[test]
fn render_leading_break_moves_without_shift() {
    assert_eq!("\x1b[1B\x1b[0D", rendered(vec![RenderToken::Break]));
}

#[test]
fn render_shift_ignores_escapes() {
    // The styled token adds only its visible characters to the shift.
    let tokens = vec![text("\x1b[31mab"), RenderToken::Break, text("c")];
    assert_eq!("\x1b[31mab\x1b[1B\x1b[2Dc", rendered(tokens));
}

#[test]
fn render_shift_resets_at_each_break() {
    let tokens = vec![
        text("abcd"),
        RenderToken::Break,
        text("ef"),
        RenderToken::Break,
        text("g"),
    ];
    assert_eq!("abcd\x1b[1B\x1b[4Def\x1b[1B\x1b[2Dg", rendered(tokens));
}
