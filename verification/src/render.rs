//! The escape-aware line renderer.
//!
//! A render pass consumes an ordered sequence of tokens — literal text or an
//! explicit line-break marker — and emits the text plus cursor-repositioning
//! escapes, so that each token lands where the caller intended independently
//! of the terminal's own line-wrap behaviour. The renderer tracks only the
//! *visible* horizontal displacement since the last break: characters inside
//! escape sequences contribute nothing to it, characters outside contribute
//! one column each.

use crate::cursor::{
    move_with_output, spec_clear_seq, spec_dec, spec_hide_seq, spec_move_seq, spec_set_seq,
    spec_show_seq, Direction,
};
use crate::error::Error;
use crate::io::write_with_output;
use vstd::prelude::*;
use vstd::string::StrSliceExecFns;

verus! {

/// Whether `c` ends an escape sequence: the terminating letters of the
/// cursor-movement, absolute-positioning, clear and show/hide sequences,
/// plus the SGR terminator `m`. This one set is shared by the visible-length
/// scan and by every sequence the cursor commands emit.
pub open spec fn is_terminator(c: char) -> bool {
    ||| c == 'm'
    ||| c == 'A'
    ||| c == 'B'
    ||| c == 'C'
    ||| c == 'D'
    ||| c == 'H'
    ||| c == 'J'
    ||| c == 'l'
    ||| c == 'h'
}

/// Executable check against the authoritative terminator set.
pub fn is_escape_end(c: char) -> (b: bool)
    ensures
        b == is_terminator(c),
{
    c == 'm' || c == 'A' || c == 'B' || c == 'C' || c == 'D' || c == 'H' || c == 'J' || c == 'l'
        || c == 'h'
}

/// The visible length of `s` as seen by a left-to-right scan. In plain mode
/// (`in_escape == false`), an `ESC` switches the scan into an escape
/// sequence and counts nothing, and any other character counts one column.
/// Inside an escape sequence, characters count nothing and the first
/// terminator switches the scan back to plain mode.
pub open spec fn visible_count(s: Seq<char>, in_escape: bool) -> nat
    decreases s.len(),
{
    if s.len() == 0 {
        0
    } else if in_escape {
        visible_count(s.skip(1), !is_terminator(s[0]))
    } else if s[0] == '\x1b' {
        visible_count(s.skip(1), true)
    } else {
        1 + visible_count(s.skip(1), false)
    }
}

/// The number of character cells `s` occupies on screen: characters inside
/// escape sequences are invisible, all others take one cell.
pub open spec fn spec_visible_length(s: Seq<char>) -> nat {
    visible_count(s, false)
}

/// Consumes characters of `line` from position `start` up to and including
/// the first sequence terminator, and returns the position after it; if no
/// terminator follows, consumes the rest of the line.
pub fn skip_invisible(line: &str, start: usize) -> (j: usize)
    requires
        start <= line@.len(),
    ensures
        start <= j <= line@.len(),
        forall|i: int| start <= i < j - 1 ==> !is_terminator(#[trigger] line@[i]),
        j == line@.len() || is_terminator(line@[j - 1]),
        visible_count(line@.skip(start as int), true) == visible_count(
            line@.skip(j as int),
            false,
        ),
{
    let len = line.unicode_len();
    let mut i: usize = start;
    while i < len
        invariant
            start <= i <= len,
            len == line@.len(),
            forall|k: int| start <= k < i ==> !is_terminator(#[trigger] line@[k]),
            visible_count(line@.skip(start as int), true) == visible_count(
                line@.skip(i as int),
                true,
            ),
        decreases len - i,
    {
        let c = line.get_char(i);
        i = i + 1;
        proof {
            assert(line@.skip(i - 1).skip(1) =~= line@.skip(i as int));
            assert(line@.skip(i - 1)[0] == line@[i - 1]);
        }
        if is_escape_end(c) {
            return i;
        }
    }
    proof {
        assert(line@.skip(len as int) =~= Seq::<char>::empty());
    }
    len
}

/// Returns the visible length of `line`: the number of character cells it
/// occupies on screen, with every well-formed escape sequence contributing
/// zero. Only the visible length itself must fit the `u16` result; the
/// line may hold any number of invisible characters beyond that.
pub fn visible_length(line: &str) -> (r: u16)
    requires
        spec_visible_length(line@) <= u16::MAX,
    ensures
        r == spec_visible_length(line@),
{
    let len = line.unicode_len();
    let mut length: u16 = 0;
    let mut i: usize = 0;
    proof {
        assert(line@.skip(0) =~= line@);
    }
    while i < len
        invariant
            i <= len,
            len == line@.len(),
            spec_visible_length(line@) <= u16::MAX,
            spec_visible_length(line@) == length + visible_count(line@.skip(i as int), false),
        decreases len - i,
    {
        let c = line.get_char(i);
        proof {
            assert(line@.skip(i as int).skip(1) =~= line@.skip(i + 1));
            assert(line@.skip(i as int)[0] == line@[i as int]);
        }
        if c == '\x1b' {
            i = skip_invisible(line, i + 1);
        } else {
            length = length + 1;
            i = i + 1;
        }
    }
    proof {
        assert(line@.skip(len as int) =~= Seq::<char>::empty());
    }
    length
}

/// One token of a render pass: literal text to emit verbatim, or the marker
/// that advances one row and returns to the column where the pass started.
#[derive(Debug, Clone, PartialEq, Eq)]
pub enum RenderToken {
    Text(String),
    Break,
}

/// The characters a line break emits: move down one row, then move left by
/// the visible displacement `shift` accumulated since the last break.
pub open spec fn spec_break_seq(shift: nat) -> Seq<char> {
    spec_move_seq(Direction::Down, 1) + spec_move_seq(Direction::Left, shift)
}

/// The characters a render pass emits for `tokens`, starting with an
/// accumulated visible displacement of `shift`.
pub open spec fn spec_render(tokens: Seq<RenderToken>, shift: nat) -> Seq<char>
    decreases tokens.len(),
{
    if tokens.len() == 0 {
        Seq::empty()
    } else {
        match tokens[0] {
            RenderToken::Text(s) => s@ + spec_render(
                tokens.skip(1),
                shift + spec_visible_length(s@),
            ),
            RenderToken::Break => spec_break_seq(shift) + spec_render(tokens.skip(1), 0),
        }
    }
}

/// Whether a render pass over `tokens`, starting with displacement `shift`,
/// keeps every accumulated visible displacement within `u16` range — the
/// machine limit under which the renderer is exact. Invisible characters
/// do not count against the limit.
pub open spec fn render_fits(tokens: Seq<RenderToken>, shift: nat) -> bool
    decreases tokens.len(),
{
    if tokens.len() == 0 {
        true
    } else {
        match tokens[0] {
            RenderToken::Text(s) => {
                &&& shift + spec_visible_length(s@) <= u16::MAX
                &&& render_fits(tokens.skip(1), shift + spec_visible_length(s@))
            },
            RenderToken::Break => render_fits(tokens.skip(1), 0),
        }
    }
}

/// Writes `text` to `output` in rendered form.
///
/// Tokens are consumed left to right exactly once. A text token is written
/// verbatim and its visible length is added to the running displacement; a
/// break token emits "down 1, left by the displacement" and resets the
/// displacement to zero. The buffer sink cannot fail, so the result is
/// always `Ok`.
pub fn render_with_output(output: &mut Vec<char>, text: &Vec<RenderToken>) -> (r: Result<
    (),
    Error,
>)
    requires
        render_fits(text@, 0),
    ensures
        final(output)@ == old(output)@ + spec_render(text@, 0),
        r == Ok::<(), Error>(()),
{
    let mut shift: u16 = 0;
    let mut k: usize = 0;
    proof {
        assert(text@.skip(0) =~= text@);
    }
    while k < text.len()
        invariant
            k <= text@.len(),
            render_fits(text@.skip(k as int), shift as nat),
            old(output)@ + spec_render(text@, 0) == output@ + spec_render(
                text@.skip(k as int),
                shift as nat,
            ),
        decreases text@.len() - k,
    {
        proof {
            assert(text@.skip(k as int).skip(1) =~= text@.skip(k + 1));
            assert(text@.skip(k as int)[0] == text@[k as int]);
        }
        match &text[k] {
            RenderToken::Break => {
                move_with_output(output, Direction::Down, 1)?;
                move_with_output(output, Direction::Left, shift)?;
                proof {
                    assert(output@ + spec_render(text@.skip(k + 1), 0) =~= old(output)@
                        + spec_render(text@, 0));
                }
                shift = 0;
            },
            RenderToken::Text(s) => {
                let line = s.as_str();
                write_with_output(output, line)?;
                proof {
                    assert(output@ + spec_render(
                        text@.skip(k + 1),
                        shift as nat + spec_visible_length(line@),
                    ) =~= old(output)@ + spec_render(text@, 0));
                }
                shift = shift + visible_length(line);
            },
        }
        k = k + 1;
    }
    Ok(())
}

/// Whether `s` is literal text: it contains no escape introducer.
pub open spec fn is_plain_text(s: Seq<char>) -> bool {
    forall|i: int| 0 <= i < s.len() ==> (#[trigger] s[i]) != '\x1b'
}

/// Whether `s` is one well-formed escape sequence from the supported set:
/// the introducer `ESC`, a body free of terminators, and a final terminator.
pub open spec fn is_escape_sequence(s: Seq<char>) -> bool {
    &&& s.len() >= 2
    &&& s[0] == '\x1b'
    &&& is_terminator(s[s.len() - 1])
    &&& forall|i: int| 1 <= i < s.len() - 1 ==> !is_terminator(#[trigger] s[i])
}

proof fn lemma_visible_plain_prefix(p: Seq<char>, rest: Seq<char>)
    requires
        is_plain_text(p),
    ensures
        visible_count(p + rest, false) == p.len() + visible_count(rest, false),
    decreases p.len(),
{
    if p.len() == 0 {
        assert(p + rest =~= rest);
    } else {
        assert((p + rest)[0] == p[0]);
        assert((p + rest).skip(1) =~= p.skip(1) + rest);
        lemma_visible_plain_prefix(p.skip(1), rest);
    }
}

proof fn lemma_visible_escape_body(b: Seq<char>, rest: Seq<char>)
    requires
        b.len() >= 1,
        is_terminator(b[b.len() - 1]),
        forall|i: int| 0 <= i < b.len() - 1 ==> !is_terminator(#[trigger] b[i]),
    ensures
        visible_count(b + rest, true) == visible_count(rest, false),
    decreases b.len(),
{
    assert((b + rest)[0] == b[0]);
    assert((b + rest).skip(1) =~= b.skip(1) + rest);
    if b.len() == 1 {
        assert(is_terminator(b[0]));
        assert(b.skip(1) + rest =~= rest);
    } else {
        assert(!is_terminator(b[0]));
        lemma_visible_escape_body(b.skip(1), rest);
    }
}

proof fn lemma_visible_escape_prefix(e: Seq<char>, rest: Seq<char>)
    requires
        is_escape_sequence(e),
    ensures
        visible_count(e + rest, false) == visible_count(rest, false),
{
    assert((e + rest)[0] == '\x1b');
    assert((e + rest).skip(1) =~= e.skip(1) + rest);
    lemma_visible_escape_body(e.skip(1), rest);
}

/// The concatenation of a sequence of string segments, left to right.
pub open spec fn concat_segments(segs: Seq<Seq<char>>) -> Seq<char>
    decreases segs.len(),
{
    if segs.len() == 0 {
        Seq::empty()
    } else {
        segs[0] + concat_segments(segs.skip(1))
    }
}

/// The number of characters of `segs` that stand outside any escape
/// sequence: each literal segment contributes its length, each escape
/// sequence nothing.
pub open spec fn plain_char_count(segs: Seq<Seq<char>>) -> nat
    decreases segs.len(),
{
    if segs.len() == 0 {
        0
    } else {
        (if is_plain_text(segs[0]) {
            segs[0].len()
        } else {
            0
        }) + plain_char_count(segs.skip(1))
    }
}

proof fn lemma_dec_chars_are_digits(n: nat)
    ensures
        forall|i: int|
            0 <= i < spec_dec(n).len() ==> 48 <= (#[trigger] spec_dec(n)[i]) as u32 <= 57,
    decreases n,
{
    if n < 10 {
        assert(spec_dec(n)[0] == crate::cursor::spec_digit(n));
        assert(48 <= crate::cursor::spec_digit(n) as u32 <= 57);
    } else {
        lemma_dec_chars_are_digits(n / 10);
        assert forall|i: int| 0 <= i < spec_dec(n).len() implies 48 <= (#[trigger] spec_dec(
            n,
        )[i]) as u32 <= 57 by {
            if i < spec_dec(n).len() - 1 {
                assert(spec_dec(n)[i] == spec_dec(n / 10)[i]);
            } else {
                assert(spec_dec(n)[i] == crate::cursor::spec_digit(n % 10));
                assert(48 <= crate::cursor::spec_digit(n % 10) as u32 <= 57);
            }
        }
    }
}

proof fn lemma_escape_alone_invisible(e: Seq<char>)
    requires
        is_escape_sequence(e),
    ensures
        spec_visible_length(e) == 0,
{
    assert(e + Seq::<char>::empty() =~= e);
    lemma_visible_escape_prefix(e, Seq::empty());
}

/// Law: the one authoritative terminator set covers every escape sequence
/// the cursor commands emit — absolute positioning, relative movement,
/// clear-and-home, hide and show are all invisible to the length scan, for
/// every coordinate, direction and distance.
pub proof fn lemma_commands_invisible(x: nat, y: nat, direction: Direction, distance: nat)
    ensures
        spec_visible_length(spec_set_seq(x, y)) == 0,
        spec_visible_length(spec_move_seq(direction, distance)) == 0,
        spec_visible_length(spec_clear_seq()) == 0,
        spec_visible_length(spec_hide_seq()) == 0,
        spec_visible_length(spec_show_seq()) == 0,
{
    lemma_dec_chars_are_digits(x);
    lemma_dec_chars_are_digits(y);
    lemma_dec_chars_are_digits(distance);
    let set_seq = spec_set_seq(x, y);
    assert forall|i: int| 1 <= i < set_seq.len() - 1 implies !is_terminator(
        #[trigger] set_seq[i],
    ) by {
        let dy = spec_dec(y).len() as int;
        let dx = spec_dec(x).len() as int;
        if 2 <= i < 2 + dy {
            assert(set_seq[i] == spec_dec(y)[i - 2]);
        } else if i == 2 + dy {
            assert(set_seq[i] == ';');
        } else if 2 + dy < i < 3 + dy + dx {
            assert(set_seq[i] == spec_dec(x)[i - 3 - dy]);
        }
    }
    assert(is_escape_sequence(set_seq));
    lemma_escape_alone_invisible(set_seq);
    let move_seq = spec_move_seq(direction, distance);
    assert forall|i: int| 1 <= i < move_seq.len() - 1 implies !is_terminator(
        #[trigger] move_seq[i],
    ) by {
        if 2 <= i < move_seq.len() - 1 {
            assert(move_seq[i] == spec_dec(distance)[i - 2]);
        }
    }
    assert(is_escape_sequence(move_seq));
    lemma_escape_alone_invisible(move_seq);
    assert(is_escape_sequence(spec_clear_seq()));
    lemma_escape_alone_invisible(spec_clear_seq());
    assert(is_escape_sequence(spec_hide_seq()));
    lemma_escape_alone_invisible(spec_hide_seq());
    assert(is_escape_sequence(spec_show_seq()));
    lemma_escape_alone_invisible(spec_show_seq());
}

/// Law: for every string composed of literal text interleaved with
/// well-formed escape sequences from the supported set, the visible length
/// equals the count of characters outside any escape sequence.
pub proof fn lemma_visible_length_invariant(segs: Seq<Seq<char>>)
    requires
        forall|i: int|
            0 <= i < segs.len() ==> is_plain_text(#[trigger] segs[i]) || is_escape_sequence(
                segs[i],
            ),
    ensures
        spec_visible_length(concat_segments(segs)) == plain_char_count(segs),
    decreases segs.len(),
{
    if segs.len() == 0 {
        assert(concat_segments(segs) =~= Seq::<char>::empty());
    } else {
        lemma_visible_length_invariant(segs.skip(1));
        if is_plain_text(segs[0]) {
            lemma_visible_plain_prefix(segs[0], concat_segments(segs.skip(1)));
        } else {
            lemma_visible_escape_prefix(segs[0], concat_segments(segs.skip(1)));
        }
    }
}

} // verus!
