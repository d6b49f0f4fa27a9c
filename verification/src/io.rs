//! The byte channel: an explicit, injectable sink of output characters and
//! source of input bytes.
//!
//! The core never touches a real device. Output is appended to a
//! caller-supplied character buffer (`Vec<char>`); input is taken from a
//! caller-supplied [`Input`] source. A thin unverified shell copies buffers
//! to the standard streams and feeds bytes read from them back in.

use crate::error::Error;
use vstd::prelude::*;
use vstd::string::StrSliceExecFns;

verus! {

/// A source of input bytes with a read cursor.
///
/// Models "the bytes a device will deliver": `data` holds them in arrival
/// order and `pos` counts how many have already been consumed.
pub struct Input {
    data: Vec<u8>,
    pos: usize,
}

impl Input {
    /// The bytes this source delivers, consumed and pending alike.
    pub closed spec fn data(&self) -> Seq<u8> {
        self.data@
    }

    /// How many bytes have been consumed so far.
    pub closed spec fn pos(&self) -> int {
        self.pos as int
    }

    /// The read cursor never runs past the end of the data.
    pub open spec fn wf(&self) -> bool {
        0 <= self.pos() <= self.data().len()
    }

    /// A fresh source that will deliver exactly `data`, front to back.
    pub fn new(data: Vec<u8>) -> (r: Input)
        ensures
            r.wf(),
            r.data() == data@,
            r.pos() == 0,
    {
        Input { data, pos: 0 }
    }
}

/// Writes `content` to `output` and reports how many characters were written.
///
/// The buffer sink cannot fail, so the result is always `Ok`; the `Result`
/// shape is kept so that callers treat any channel uniformly.
pub fn write_with_output(output: &mut Vec<char>, content: &str) -> (r: Result<usize, Error>)
    ensures
        final(output)@ == old(output)@ + content@,
        r == Ok::<usize, Error>(content@.len() as usize),
{
    let len = content.unicode_len();
    let mut i: usize = 0;
    while i < len
        invariant
            i <= len,
            len == content@.len(),
            output@ == old(output)@ + content@.take(i as int),
        decreases len - i,
    {
        output.push(content.get_char(i));
        i = i + 1;
        proof {
            assert(output@ =~= old(output)@ + content@.take(i as int));
        }
    }
    proof {
        assert(output@ =~= old(output)@ + content@);
    }
    Ok(len)
}

/// Reads one byte from `input`: the next pending byte if one is left, `None`
/// once the source is exhausted.
pub fn read_with_input(input: &mut Input) -> (r: Option<u8>)
    requires
        old(input).wf(),
    ensures
        final(input).wf(),
        final(input).data() == old(input).data(),
        old(input).pos() < old(input).data().len() ==> {
            &&& r == Some(old(input).data()[old(input).pos()])
            &&& final(input).pos() == old(input).pos() + 1
        },
        old(input).pos() >= old(input).data().len() ==> {
            &&& r is None
            &&& final(input).pos() == old(input).pos()
        },
{
    if input.pos < input.data.len() {
        let b = input.data[input.pos];
        input.pos = input.pos + 1;
        Some(b)
    } else {
        None
    }
}

/// Flushes `output`. A buffer sink holds nothing back, so this is a no-op
/// that always succeeds; it exists so that callers can flush any channel.
pub fn flush_with_output(output: &mut Vec<char>) -> (r: Result<(), Error>)
    ensures
        final(output)@ == old(output)@,
        r == Ok::<(), Error>(()),
{
    Ok(())
}

} // verus!
