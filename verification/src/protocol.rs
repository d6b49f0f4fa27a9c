//! The cursor-position query protocol: a synchronous request/response round
//! trip over the same channel pair used for ordinary output.
//!
//! The request is `ESC [ 6 n`; the terminal replies `ESC [ {row} ; {col} R`.
//! The reader consumes bytes up to and including the first `R` (or until the
//! source is exhausted), and the parser holds the reply to that grammar:
//! too few bytes is a short response, wrong framing or a payload that does
//! not split into exactly two fields is malformed, and a field that fails
//! unsigned integer parsing is not numeric.

use crate::error::ProtocolError;
use crate::io::{read_with_input, Input};
use vstd::prelude::*;

verus! {

/// A cursor position: `x` is the column and `y` the row, both 1-based with
/// origin at the terminal's top left corner.
///
/// The reply's first numeric field is the row and its second the column;
/// the parser fixes that ordering, so `x` always carries the second field.
#[derive(Debug, Clone, Copy, PartialEq, Eq, Structural)]
pub struct Position {
    pub x: u16,
    pub y: u16,
}

/// The cursor-position request `ESC [ 6 n`.
pub open spec fn spec_query_seq() -> Seq<char> {
    seq!['\x1b', '[', '6', 'n']
}

/// Whether `b` is an ASCII decimal digit.
pub open spec fn is_digit(b: u8) -> bool {
    48 <= b <= 57
}

/// Whether `s` is a well-formed unsigned decimal numeral: at least one
/// byte, all of them digits.
pub open spec fn is_digits(s: Seq<u8>) -> bool {
    s.len() > 0 && forall|i: int| 0 <= i < s.len() ==> is_digit(#[trigger] s[i])
}

/// The value of the decimal numeral `s`.
pub open spec fn digits_val(s: Seq<u8>) -> nat
    recommends
        is_digits(s),
    decreases s.len(),
{
    if s.len() == 0 {
        0
    } else {
        (digits_val(s.drop_last()) * 10 + (s.last() - 48)) as nat
    }
}

/// The number of semicolons in `s`.
pub open spec fn count_semis(s: Seq<u8>) -> nat
    decreases s.len(),
{
    if s.len() == 0 {
        0
    } else {
        count_semis(s.drop_last()) + (if s.last() == 59 {
            1nat
        } else {
            0
        })
    }
}

/// The index of the first semicolon of `s`, or `s.len()` if there is none.
pub open spec fn first_semi(s: Seq<u8>) -> int
    decreases s.len(),
{
    if s.len() == 0 {
        0
    } else if s[0] == 59 {
        0
    } else {
        1 + first_semi(s.skip(1))
    }
}

/// What parsing one numeric field of the payload yields: `None` when the
/// field is empty, holds a non-digit, or does not fit in `u16`.
pub open spec fn spec_parse_field(s: Seq<u8>) -> Option<u16> {
    if !is_digits(s) || digits_val(s) > u16::MAX {
        None
    } else {
        Some(digits_val(s) as u16)
    }
}

/// What parsing the payload (the reply stripped of `ESC [` and `R`) yields:
/// it must split on its single semicolon into a row field and a column
/// field, each a numeral that fits in `u16`.
pub open spec fn spec_parse_payload(p: Seq<u8>) -> Result<Position, ProtocolError> {
    if count_semis(p) != 1 {
        Err(ProtocolError::MalformedResponse)
    } else {
        let row = spec_parse_field(p.take(first_semi(p)));
        let col = spec_parse_field(p.skip(first_semi(p) + 1));
        if row is None || col is None {
            Err(ProtocolError::NotNumeric)
        } else {
            Ok(Position { x: col->0, y: row->0 })
        }
    }
}

/// What parsing a whole reply yields. A reply shorter than 6 bytes (the
/// length of the shortest well-formed reply) is a short response; one that
/// does not start with `ESC [` and end with `R` is malformed; otherwise the
/// payload between them decides.
pub open spec fn spec_parse(reply: Seq<u8>) -> Result<Position, ProtocolError> {
    if reply.len() < 6 {
        Err(ProtocolError::ShortResponse)
    } else if reply[0] != 27 || reply[1] != 91 || reply[reply.len() - 1] != 82 {
        Err(ProtocolError::MalformedResponse)
    } else {
        spec_parse_payload(reply.subrange(2, reply.len() - 1))
    }
}

proof fn lemma_digits_val_prefix(s: Seq<u8>, k: int)
    requires
        0 <= k <= s.len(),
        forall|i: int| 0 <= i < s.len() ==> is_digit(#[trigger] s[i]),
    ensures
        digits_val(s.take(k)) <= digits_val(s),
    decreases s.len(),
{
    if k == s.len() {
        assert(s.take(k) =~= s);
    } else if s.len() > 0 {
        assert(s.drop_last().take(k) =~= s.take(k));
        lemma_digits_val_prefix(s.drop_last(), k);
        assert(is_digit(s.last()));
    }
}

/// Parses the decimal field at `reply[from..to]` into a `u16`.
fn parse_u16(reply: &Vec<u8>, from: usize, to: usize) -> (r: Option<u16>)
    requires
        from <= to <= reply@.len(),
    ensures
        r == spec_parse_field(reply@.subrange(from as int, to as int)),
{
    let ghost field = reply@.subrange(from as int, to as int);
    if from == to {
        return None;
    }
    let mut i: usize = from;
    while i < to
        invariant
            from <= i <= to <= reply@.len(),
            field == reply@.subrange(from as int, to as int),
            forall|j: int| 0 <= j < i - from ==> is_digit(#[trigger] field[j]),
        decreases to - i,
    {
        let b = reply[i];
        assert(field[i - from] == reply@[i as int]);
        if b < 48 || b > 57 {
            assert(!is_digits(field));
            return None;
        }
        i = i + 1;
    }
    assert(is_digits(field));
    let mut acc: u32 = 0;
    i = from;
    proof {
        assert(field.take(0) =~= Seq::<u8>::empty());
    }
    while i < to
        invariant
            from <= i <= to <= reply@.len(),
            field == reply@.subrange(from as int, to as int),
            is_digits(field),
            acc <= u16::MAX,
            acc == digits_val(field.take(i - from)),
        decreases to - i,
    {
        let b = reply[i];
        assert(field[i - from] == reply@[i as int]);
        acc = acc * 10 + ((b - 48) as u32);
        i = i + 1;
        proof {
            assert(field.take(i - from).drop_last() =~= field.take(i - from - 1));
            assert(field.take(i - from).last() == field[i - from - 1]);
        }
        if acc > 65535 {
            proof {
                lemma_digits_val_prefix(field, i - from);
            }
            return None;
        }
    }
    proof {
        assert(field.take(to - from) =~= field);
    }
    Some(acc as u16)
}

/// Parses a complete reply against the grammar `ESC '[' row ';' col 'R'`.
///
/// Returns the position on a well-formed reply and the precise protocol
/// error otherwise, exactly as [`spec_parse`] lays down.
pub fn parse_position_reply(reply: &Vec<u8>) -> (r: Result<Position, ProtocolError>)
    ensures
        r == spec_parse(reply@),
{
    let n = reply.len();
    if n < 6 {
        return Err(ProtocolError::ShortResponse);
    }
    if reply[0] != 27 || reply[1] != 91 || reply[n - 1] != 82 {
        return Err(ProtocolError::MalformedResponse);
    }
    let ghost payload = reply@.subrange(2, n - 1);
    let mut semis: usize = 0;
    let mut semi_at: usize = 0;
    let mut i: usize = 2;
    proof {
        assert(payload.take(0) =~= Seq::<u8>::empty());
    }
    while i < n - 1
        invariant
            2 <= i <= n - 1,
            n == reply@.len(),
            payload == reply@.subrange(2, n - 1),
            semis == count_semis(payload.take(i - 2)),
            semis <= i,
            semis >= 1 ==> {
                &&& 2 <= semi_at < i
                &&& reply@[semi_at as int] == 59
                &&& first_semi(payload) == semi_at - 2
            },
            semis == 0 ==> first_semi(payload.take(i - 2)) == i - 2,
        decreases n - 1 - i,
    {
        let b = reply[i];
        assert(payload[i - 2] == reply@[i as int]);
        proof {
            assert(payload.take(i - 1).drop_last() =~= payload.take(i - 2));
            assert(payload.take(i - 1).last() == payload[i - 2]);
            if semis == 0 {
                lemma_first_semi_extend(payload, i - 1);
            }
        }
        if b == 59 {
            if semis == 0 {
                semi_at = i;
            }
            semis = semis + 1;
        }
        i = i + 1;
    }
    proof {
        assert(payload.take(n - 3) =~= payload);
    }
    if semis != 1 {
        return Err(ProtocolError::MalformedResponse);
    }
    let row = parse_u16(reply, 2, semi_at);
    let col = parse_u16(reply, semi_at + 1, n - 1);
    proof {
        assert(reply@.subrange(2, semi_at as int) =~= payload.take(first_semi(payload)));
        assert(reply@.subrange(semi_at + 1, n - 1) =~= payload.skip(first_semi(payload) + 1));
    }
    match (row, col) {
        (Some(y), Some(x)) => Ok(Position { x, y }),
        _ => Err(ProtocolError::NotNumeric),
    }
}

/// Relates the first semicolon of a prefix of `p` to that of the next
/// longer prefix: scanning one more byte either finds the first semicolon
/// or pushes the bound one byte further.
proof fn lemma_first_semi_extend(p: Seq<u8>, m: int)
    requires
        1 <= m <= p.len(),
        first_semi(p.take(m - 1)) == m - 1,
    ensures
        p[m - 1] == 59 ==> first_semi(p) == m - 1,
        p[m - 1] != 59 ==> first_semi(p.take(m)) == m,
    decreases m,
{
    if m == 1 {
        if p[0] == 59 {
        } else {
            assert(p.take(1).len() == 1);
            assert(p.take(1)[0] == p[0]);
            assert(first_semi(p.take(1).skip(1)) == 0);
        }
    } else {
        assert(p.take(m - 1)[0] == p[0]);
        assert(p[0] != 59) by {
            if p[0] == 59 {
                assert(first_semi(p.take(m - 1)) == 0);
            }
        }
        assert(p.take(m - 1).skip(1) =~= p.skip(1).take(m - 2));
        assert(p.take(m).skip(1) =~= p.skip(1).take(m - 1));
        assert(p.skip(1)[m - 2] == p[m - 1]);
        lemma_first_semi_extend(p.skip(1), m - 1);
        if p[m - 1] == 59 {
            assert(first_semi(p.skip(1)) == m - 2);
        }
    }
}

/// Whether `b` ends a position reply: the grammar's final `R`. A reply read
/// stops at the first such byte, so this one predicate decides how much of
/// a stream belongs to the reply.
pub fn is_reply_terminator(b: u8) -> (r: bool)
    ensures
        r == (b == 82),
{
    b == 82
}

/// The position of `data`'s read cursor after one reply read that starts at
/// `from`: just past the first `R`, or the end of the data if none follows.
pub open spec fn reply_end(data: Seq<u8>, from: int) -> int
    recommends
        0 <= from <= data.len(),
    decreases data.len() - from,
{
    if from < 0 || from >= data.len() {
        from
    } else if data[from] == 82 {
        from + 1
    } else {
        reply_end(data, from + 1)
    }
}

/// The decimal numeral of `n` in ASCII bytes: no leading zeroes, except
/// that 0 itself is rendered as "0".
pub open spec fn dec_bytes(n: nat) -> Seq<u8>
    decreases n,
{
    if n < 10 {
        seq![(n + 48) as u8]
    } else {
        dec_bytes(n / 10).push((n % 10 + 48) as u8)
    }
}

/// The well-formed reply a terminal at (`col`, `row`) sends:
/// `ESC [ {row} ; {col} R`.
pub open spec fn spec_reply(row: nat, col: nat) -> Seq<u8> {
    seq![27u8, 91u8] + dec_bytes(row) + seq![59u8] + dec_bytes(col) + seq![82u8]
}

proof fn lemma_dec_bytes_digits(n: nat)
    ensures
        dec_bytes(n).len() >= 1,
        forall|i: int| 0 <= i < dec_bytes(n).len() ==> 48 <= #[trigger] dec_bytes(n)[i] <= 57,
    decreases n,
{
    if n >= 10 {
        lemma_dec_bytes_digits(n / 10);
        assert forall|i: int| 0 <= i < dec_bytes(n).len() implies 48 <= #[trigger] dec_bytes(
            n,
        )[i] <= 57 by {
            if i < dec_bytes(n).len() - 1 {
                assert(dec_bytes(n)[i] == dec_bytes(n / 10)[i]);
            }
        }
    }
}

proof fn lemma_dec_bytes_val(n: nat)
    ensures
        digits_val(dec_bytes(n)) == n,
    decreases n,
{
    assert(digits_val(Seq::<u8>::empty()) == 0);
    if n < 10 {
        assert(dec_bytes(n).drop_last() =~= Seq::<u8>::empty());
        assert(dec_bytes(n).last() == (n + 48) as u8);
        assert(((n + 48) as u8) == n + 48);
    } else {
        lemma_dec_bytes_val(n / 10);
        assert(dec_bytes(n).drop_last() =~= dec_bytes(n / 10));
        assert(dec_bytes(n).last() == (n % 10 + 48) as u8);
        assert(((n % 10 + 48) as u8) == n % 10 + 48);
        vstd::arithmetic::div_mod::lemma_fundamental_div_mod(n as int, 10);
    }
}

proof fn lemma_count_semis_concat(a: Seq<u8>, b: Seq<u8>)
    ensures
        count_semis(a + b) == count_semis(a) + count_semis(b),
    decreases b.len(),
{
    if b.len() == 0 {
        assert(a + b =~= a);
    } else {
        assert((a + b).drop_last() =~= a + b.drop_last());
        assert((a + b).last() == b.last());
        lemma_count_semis_concat(a, b.drop_last());
    }
}

proof fn lemma_count_semis_none(s: Seq<u8>)
    requires
        forall|i: int| 0 <= i < s.len() ==> (#[trigger] s[i]) != 59,
    ensures
        count_semis(s) == 0,
    decreases s.len(),
{
    if s.len() > 0 {
        lemma_count_semis_none(s.drop_last());
    }
}

proof fn lemma_first_semi_concat(a: Seq<u8>, b: Seq<u8>)
    requires
        forall|i: int| 0 <= i < a.len() ==> (#[trigger] a[i]) != 59,
        b.len() >= 1,
        b[0] == 59,
    ensures
        first_semi(a + b) == a.len(),
    decreases a.len(),
{
    if a.len() == 0 {
        assert(a + b =~= b);
    } else {
        assert((a + b)[0] == a[0]);
        assert((a + b).skip(1) =~= a.skip(1) + b);
        lemma_first_semi_concat(a.skip(1), b);
    }
}

/// Law (general cursor-query round trip): for every coordinate pair, the
/// well-formed reply `ESC [ {row} ; {col} R` parses to exactly that
/// position, with the first field as the row (`y`) and the second as the
/// column (`x`).
pub proof fn lemma_reply_round_trip(row: u16, col: u16)
    ensures
        spec_parse(spec_reply(row as nat, col as nat)) == Ok::<Position, ProtocolError>(
            Position { x: col, y: row },
        ),
{
    let dr = dec_bytes(row as nat);
    let dc = dec_bytes(col as nat);
    lemma_dec_bytes_digits(row as nat);
    lemma_dec_bytes_digits(col as nat);
    lemma_dec_bytes_val(row as nat);
    lemma_dec_bytes_val(col as nat);
    let reply = spec_reply(row as nat, col as nat);
    let n = reply.len();
    assert(n == 4 + dr.len() + dc.len());
    assert(reply[0] == 27);
    assert(reply[1] == 91);
    assert(reply[n - 1] == 82);
    let payload = reply.subrange(2, n - 1);
    let tail = seq![59u8] + dc;
    assert(payload =~= dr + tail);
    lemma_count_semis_none(dr);
    lemma_count_semis_none(dc);
    assert(count_semis(Seq::<u8>::empty()) == 0);
    assert(seq![59u8].drop_last() =~= Seq::<u8>::empty());
    assert(seq![59u8].last() == 59);
    assert(count_semis(seq![59u8]) == 1);
    lemma_count_semis_concat(seq![59u8], dc);
    lemma_count_semis_concat(dr, tail);
    assert(count_semis(payload) == 1);
    lemma_first_semi_concat(dr, tail);
    assert(first_semi(payload) == dr.len());
    assert(payload.take(dr.len() as int) =~= dr);
    assert(payload.skip(dr.len() as int + 1) =~= dc);
    assert(is_digits(dr));
    assert(is_digits(dc));
    assert(spec_parse_field(dr) == Some(row));
    assert(spec_parse_field(dc) == Some(col));
}

/// Law: every reply shorter than 6 bytes — the length of the shortest
/// well-formed reply — is rejected as a short response, whatever it holds.
pub proof fn lemma_short_response_rejected(reply: Seq<u8>)
    requires
        reply.len() < 6,
    ensures
        spec_parse(reply) == Err::<Position, ProtocolError>(ProtocolError::ShortResponse),
{
}

/// Law: every long-enough reply whose payload does not hold exactly one
/// semicolon — three or more `;`-separated fields, or just one field — is
/// rejected as malformed.
pub proof fn lemma_wrong_field_count_rejected(reply: Seq<u8>)
    requires
        reply.len() >= 6,
        count_semis(reply.subrange(2, reply.len() - 1)) != 1,
    ensures
        spec_parse(reply) == Err::<Position, ProtocolError>(ProtocolError::MalformedResponse),
{
}

proof fn lemma_reply_end_scan(data: Seq<u8>, end: int, from: int)
    requires
        0 <= from < end <= data.len(),
        data[end - 1] == 82,
        forall|i: int| from <= i < end - 1 ==> (#[trigger] data[i]) != 82,
    ensures
        reply_end(data, from) == end,
    decreases end - from,
{
    if from < end - 1 {
        lemma_reply_end_scan(data, end, from + 1);
    }
}

/// Law (query round trip over the channel): when the input source holds the
/// well-formed reply for (`col`, `row`) followed by anything at all, one
/// reply read consumes exactly the reply, and parsing it yields that
/// position. Together with the contract of [`query_position`], this pins
/// the whole round trip for every coordinate pair.
pub proof fn lemma_query_round_trip(row: u16, col: u16, rest: Seq<u8>)
    ensures
        ({
            let reply = spec_reply(row as nat, col as nat);
            let data = reply + rest;
            &&& reply_end(data, 0) == reply.len()
            &&& spec_parse(data.subrange(0, reply.len() as int)) == Ok::<
                Position,
                ProtocolError,
            >(Position { x: col, y: row })
        }),
{
    let reply = spec_reply(row as nat, col as nat);
    let data = reply + rest;
    lemma_dec_bytes_digits(row as nat);
    lemma_dec_bytes_digits(col as nat);
    assert forall|i: int| 0 <= i < reply.len() - 1 implies (#[trigger] data[i]) != 82 by {
        assert(data[i] == reply[i]);
        let dr = dec_bytes(row as nat);
        let dc = dec_bytes(col as nat);
        if 2 <= i < 2 + dr.len() {
            assert(reply[i] == dr[i - 2]);
        } else if i == 2 + dr.len() {
            assert(reply[i] == 59);
        } else if i > 2 + dr.len() {
            assert(reply[i] == dc[i - 3 - dr.len()]);
        }
    }
    assert(data[reply.len() - 1] == reply[reply.len() - 1] == 82);
    lemma_reply_end_scan(data, reply.len() as int, 0);
    assert(data.subrange(0, reply.len() as int) =~= reply);
    lemma_reply_round_trip(row, col);
}

/// Issues the cursor-position query and parses the terminal's reply.
///
/// Writes `ESC [ 6 n` to `output`, then reads bytes from `input` up to and
/// including the first `R` (or until the source is exhausted) in a single
/// attempt — no retry on a short read — and parses what was read. The
/// caller must have flushed the query to the device before the device's
/// reply can appear on `input`; with buffer channels the write always
/// precedes the read, which this function's contract fixes.
pub fn query_position(output: &mut Vec<char>, input: &mut Input) -> (r: Result<
    Position,
    ProtocolError,
>)
    requires
        old(input).wf(),
    ensures
        final(output)@ == old(output)@ + spec_query_seq(),
        final(input).wf(),
        final(input).data() == old(input).data(),
        final(input).pos() == reply_end(old(input).data(), old(input).pos()),
        r == spec_parse(
            old(input).data().subrange(
                old(input).pos(),
                reply_end(old(input).data(), old(input).pos()),
            ),
        ),
{
    output.push('\x1b');
    output.push('[');
    output.push('6');
    output.push('n');
    proof {
        assert(output@ =~= old(output)@ + spec_query_seq());
    }
    let ghost data = old(input).data();
    let ghost p0 = old(input).pos();
    let mut reply: Vec<u8> = Vec::new();
    let mut done = false;
    proof {
        assert(data.subrange(p0, p0) =~= Seq::<u8>::empty());
    }
    while !done
        invariant
            input.wf(),
            input.data() == data,
            0 <= p0 <= input.pos() <= data.len(),
            reply@ == data.subrange(p0, input.pos()),
            !done ==> reply_end(data, p0) == reply_end(data, input.pos()),
            done ==> input.pos() == reply_end(data, p0),
        decreases data.len() - input.pos() + (if done {
            0int
        } else {
            1int
        }),
    {
        let ghost pos_before = input.pos();
        match read_with_input(input) {
            None => {
                done = true;
            },
            Some(b) => {
                reply.push(b);
                proof {
                    assert(data.subrange(p0, pos_before + 1) =~= data.subrange(
                        p0,
                        pos_before,
                    ).push(data[pos_before]));
                }
                if is_reply_terminator(b) {
                    done = true;
                }
            },
        }
    }
    parse_position_reply(&reply)
}

} // verus!
