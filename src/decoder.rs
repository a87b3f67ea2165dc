use vstd::prelude::*;

use crate::error::{malformed, HexError};
use crate::hex::{from_hex_digit, hex_value, is_hex_digit, join_nibbles};

verus! {

pub const LINE_FEED: u8 = 10;

/// ASCII whitespace as `u8::is_ascii_whitespace` defines it:
/// tab, line feed, form feed, carriage return and space.
pub open spec fn is_ascii_ws(c: u8) -> bool {
    c == 9 || c == 10 || c == 12 || c == 13 || c == 32
}

/// Whether the decoder passes over `c`: a line feed always, other ASCII
/// whitespace only when whitespace is tolerated.
pub open spec fn is_skipped(ignore_ws: bool, c: u8) -> bool {
    c == LINE_FEED || (ignore_ws && is_ascii_ws(c))
}

/// Whether `c` is ASCII whitespace.
pub fn is_ascii_whitespace(c: u8) -> (r: bool)
    ensures
        r == is_ascii_ws(c),
{
    c == 9 || c == 10 || c == 12 || c == 13 || c == 32
}

/// Whether the decoder passes over `c` under the given whitespace setting.
pub fn skips(ignore_ws: bool, c: u8) -> (r: bool)
    ensures
        r == is_skipped(ignore_ws, c),
{
    c == LINE_FEED || (ignore_ws && is_ascii_whitespace(c))
}

/// One hex digit fed to a decoder with `pending` high nibble: the new
/// pending nibble and the bytes written.
pub open spec fn feed(pending: Option<u8>, digit: u8) -> (Option<u8>, Seq<u8>) {
    match pending {
        None => (Some(hex_value(digit)), Seq::empty()),
        Some(hi) => (None, seq![join_nibbles(hi, hex_value(digit))]),
    }
}

/// Decoding `s` from a decoder with `pending` high nibble: the pending nibble
/// afterwards, the bytes written, and the first offending byte if one was met.
/// Nothing after an offending byte is read.
pub open spec fn decode_run(ignore_ws: bool, pending: Option<u8>, s: Seq<u8>) -> (
    Option<u8>,
    Seq<u8>,
    Option<u8>,
)
    decreases s.len(),
{
    if s.len() == 0 {
        (pending, Seq::empty(), None)
    } else {
        let prev = decode_run(ignore_ws, pending, s.drop_last());
        let c = s.last();
        if prev.2 is Some || is_skipped(ignore_ws, c) {
            prev
        } else if !is_hex_digit(c) {
            (prev.0, prev.1, Some(c))
        } else {
            let step = feed(prev.0, c);
            (step.0, prev.1 + step.1, None)
        }
    }
}

/// The outcome of a whole decode session over `s`.
pub open spec fn decode_spec(ignore_ws: bool, s: Seq<u8>) -> Result<Seq<u8>, HexError> {
    let run = decode_run(ignore_ws, None, s);
    match run.2 {
        Some(c) => Err(malformed(c)),
        None => if run.0 is Some {
            Err(HexError::OddLength)
        } else {
            Ok(run.1)
        },
    }
}

/// Pairs hex digits into bytes, holding the first digit of a pair until its
/// partner arrives.
pub struct HexDecoder {
    last: Option<u8>,
}

impl HexDecoder {
    /// The high nibble waiting for its partner, if any.
    pub closed spec fn pending(&self) -> Option<u8> {
        self.last
    }

    /// A pending nibble is a value below 16.
    pub closed spec fn wf(&self) -> bool {
        self.last is Some ==> self.last.unwrap() < 16
    }

    pub fn new() -> (r: Self)
        ensures
            r.wf(),
            r.pending() is None,
    {
        HexDecoder { last: None }
    }

    /// Feeds one hex digit; a completed pair is appended to `out`.
    pub fn write(&mut self, out: &mut Vec<u8>, digit: u8)
        requires
            old(self).wf(),
            is_hex_digit(digit),
        ensures
            final(self).wf(),
            final(self).pending() == feed(old(self).pending(), digit).0,
            final(out)@ == old(out)@ + feed(old(self).pending(), digit).1,
    {
        let lo = match from_hex_digit(digit) {
            Some(v) => v,
            None => 0,
        };
        match self.last.take() {
            Some(hi) => {
                out.push(hi * 16 + lo);
            },
            None => {
                self.last = Some(lo);
            },
        }
    }

    /// Fails with `OddLength` when a digit is still waiting for its partner.
    pub fn finish(&self) -> (r: Result<(), HexError>)
        ensures
            r == (if self.pending() is Some {
                Err(HexError::OddLength)
            } else {
                Ok(())
            }),
    {
        if self.last.is_some() {
            Err(HexError::OddLength)
        } else {
            Ok(())
        }
    }
}

} // verus!
