//! Cursor commands: stateless formatters from parameters to escape
//! characters, appended to a caller-supplied output buffer.
//!
//! Every emitter's contract pins the emitted characters exactly, via spec
//! functions that spell out the ANSI sequences: `ESC [ {row} ; {col} H` for
//! absolute positioning, `ESC [ {n} {letter}` for relative movement,
//! `ESC [ 2 J` for clear-and-home, and `ESC [ ? 2 5 l / h` for hide/show.

use crate::error::Error;
use vstd::prelude::*;

verus! {

/// Direction of relative cursor movement.
#[derive(Debug, Clone, Copy, PartialEq, Eq)]
pub enum Direction {
    Left,
    Down,
    Up,
    Right,
}

impl Direction {
    /// The final character of a relative-movement escape sequence:
    /// `A` up, `B` down, `C` right, `D` left.
    pub open spec fn spec_letter(self) -> char {
        match self {
            Direction::Left => 'D',
            Direction::Down => 'B',
            Direction::Up => 'A',
            Direction::Right => 'C',
        }
    }

    /// Direct mapping from a direction to its sequence-terminating letter.
    pub fn letter(self) -> (c: char)
        ensures
            c == self.spec_letter(),
    {
        match self {
            Direction::Left => 'D',
            Direction::Down => 'B',
            Direction::Up => 'A',
            Direction::Right => 'C',
        }
    }
}

/// The character for decimal digit `d`.
pub open spec fn spec_digit(d: nat) -> char
    recommends
        d < 10,
{
    ((d + 48) as u8) as char
}

/// The shortest decimal rendering of `n`: no leading zeroes, except that 0
/// itself is rendered as "0".
pub open spec fn spec_dec(n: nat) -> Seq<char>
    decreases n,
{
    if n < 10 {
        seq![spec_digit(n)]
    } else {
        spec_dec(n / 10).push(spec_digit(n % 10))
    }
}

/// Appends the decimal rendering of `n` to `output`.
pub fn push_decimal(output: &mut Vec<char>, n: u16)
    ensures
        final(output)@ == old(output)@ + spec_dec(n as nat),
    decreases n,
{
    if n < 10 {
        output.push((n as u8 + 48) as char);
        proof {
            assert(output@ =~= old(output)@ + spec_dec(n as nat));
        }
    } else {
        push_decimal(output, n / 10);
        output.push(((n % 10) as u8 + 48) as char);
        proof {
            assert(output@ =~= old(output)@ + spec_dec(n as nat));
        }
    }
}

/// The two-character control sequence introducer `ESC [`.
pub open spec fn spec_csi() -> Seq<char> {
    seq!['\x1b', '[']
}

/// The absolute-positioning sequence `ESC [ {y} ; {x} H` (row first, then
/// column, both 1-based).
pub open spec fn spec_set_seq(x: nat, y: nat) -> Seq<char> {
    spec_csi() + spec_dec(y) + seq![';'] + spec_dec(x) + seq!['H']
}

/// The relative-movement sequence `ESC [ {distance} {letter}`.
pub open spec fn spec_move_seq(direction: Direction, distance: nat) -> Seq<char> {
    spec_csi() + spec_dec(distance) + seq![direction.spec_letter()]
}

/// The clear-screen-and-home sequence `ESC [ 2 J`.
pub open spec fn spec_clear_seq() -> Seq<char> {
    seq!['\x1b', '[', '2', 'J']
}

/// The hide-cursor sequence `ESC [ ? 2 5 l`.
pub open spec fn spec_hide_seq() -> Seq<char> {
    seq!['\x1b', '[', '?', '2', '5', 'l']
}

/// The show-cursor sequence `ESC [ ? 2 5 h`.
pub open spec fn spec_show_seq() -> Seq<char> {
    seq!['\x1b', '[', '?', '2', '5', 'h']
}

/// Sets the cursor position: writes `ESC [ {y} ; {x} H` to `output`.
///
/// `x` is the column and `y` the row, both 1-based from the terminal's top
/// left corner. The buffer sink cannot fail, so the result is always `Ok`
/// with the number of characters written.
pub fn set_with_output(output: &mut Vec<char>, x: u16, y: u16) -> (r: Result<usize, Error>)
    ensures
        final(output)@ == old(output)@ + spec_set_seq(x as nat, y as nat),
        r is Ok,
        r->Ok_0 == spec_set_seq(x as nat, y as nat).len(),
{
    let start = output.len();
    output.push('\x1b');
    output.push('[');
    push_decimal(output, y);
    output.push(';');
    push_decimal(output, x);
    output.push('H');
    proof {
        assert(output@ =~= old(output)@ + spec_set_seq(x as nat, y as nat));
    }
    Ok(output.len() - start)
}

/// Moves the cursor `distance` cells in `direction`: writes
/// `ESC [ {distance} {letter}` to `output`.
///
/// The buffer sink cannot fail, so the result is always `Ok` with the number
/// of characters written.
pub fn move_with_output(output: &mut Vec<char>, direction: Direction, distance: u16) -> (r: Result<
    usize,
    Error,
>)
    ensures
        final(output)@ == old(output)@ + spec_move_seq(direction, distance as nat),
        r is Ok,
        r->Ok_0 == spec_move_seq(direction, distance as nat).len(),
{
    let start = output.len();
    output.push('\x1b');
    output.push('[');
    push_decimal(output, distance);
    output.push(direction.letter());
    proof {
        assert(output@ =~= old(output)@ + spec_move_seq(direction, distance as nat));
    }
    Ok(output.len() - start)
}

/// Clears the screen and homes the cursor: writes `ESC [ 2 J` to `output`.
pub fn start_with_output(output: &mut Vec<char>) -> (r: Result<usize, Error>)
    ensures
        final(output)@ == old(output)@ + spec_clear_seq(),
        r == Ok::<usize, Error>(4),
{
    output.push('\x1b');
    output.push('[');
    output.push('2');
    output.push('J');
    proof {
        assert(output@ =~= old(output)@ + spec_clear_seq());
    }
    Ok(4)
}

/// Makes the cursor invisible: writes `ESC [ ? 2 5 l` to `output`.
pub fn hide_with_output(output: &mut Vec<char>) -> (r: Result<usize, Error>)
    ensures
        final(output)@ == old(output)@ + spec_hide_seq(),
        r == Ok::<usize, Error>(6),
{
    output.push('\x1b');
    output.push('[');
    output.push('?');
    output.push('2');
    output.push('5');
    output.push('l');
    proof {
        assert(output@ =~= old(output)@ + spec_hide_seq());
    }
    Ok(6)
}

/// Makes the cursor visible: writes `ESC [ ? 2 5 h` to `output`.
pub fn show_with_output(output: &mut Vec<char>) -> (r: Result<usize, Error>)
    ensures
        final(output)@ == old(output)@ + spec_show_seq(),
        r == Ok::<usize, Error>(6),
{
    output.push('\x1b');
    output.push('[');
    output.push('?');
    output.push('2');
    output.push('5');
    output.push('h');
    proof {
        assert(output@ =~= old(output)@ + spec_show_seq());
    }
    Ok(6)
}

} // verus!
