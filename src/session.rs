use vstd::prelude::*;
use vstd::utf8::encode_utf8;

use crate::decoder::{decode_run, decode_spec, is_skipped, skips, HexDecoder, LINE_FEED};
use crate::error::{malformed, malformed_input, HexError};
use crate::hex::{from_hex_digit, hex_pair, is_hex_digit, lemma_hex_digit_value, to_hex_digit};

verus! {

/// Whether the byte written at column `col` completes a line of `wrap` pairs.
pub open spec fn wraps(wrap: nat, col: nat) -> bool {
    wrap > 0 && col + 1 == wrap
}

/// The column after one more byte is written at column `col`: one more,
/// or 0 when the line is full.
pub open spec fn next_column(wrap: nat, col: nat) -> nat {
    if wraps(wrap, col) {
        0
    } else {
        col + 1
    }
}

/// The text written for byte `b` at column `col`: the prefix, two lowercase
/// hex digits, and a line feed when the line is full.
pub open spec fn encode_unit(prefix: Seq<u8>, wrap: nat, col: nat, b: u8) -> Seq<u8> {
    prefix + hex_pair(b) + if wraps(wrap, col) {
        seq![LINE_FEED]
    } else {
        Seq::empty()
    }
}

/// Encoding `s` from column `col`: the text written and the column afterwards.
pub open spec fn encode_run(prefix: Seq<u8>, wrap: nat, col: nat, s: Seq<u8>) -> (Seq<u8>, nat)
    decreases s.len(),
{
    if s.len() == 0 {
        (Seq::empty(), col)
    } else {
        let prev = encode_run(prefix, wrap, col, s.drop_last());
        (prev.0 + encode_unit(prefix, wrap, prev.1, s.last()), next_column(wrap, prev.1))
    }
}

/// Whether the encoded text ends inside a line after `o` is written, given
/// whether it did before.
pub open spec fn ends_open(prev: bool, o: Seq<u8>) -> bool {
    if o.len() == 0 {
        prev
    } else {
        o.last() != LINE_FEED
    }
}

/// `o` with a line feed added unless it is empty or already ends with one.
pub open spec fn with_final_newline(o: Seq<u8>) -> Seq<u8> {
    if ends_open(false, o) {
        o.push(LINE_FEED)
    } else {
        o
    }
}

/// The text of a whole encode session over `data`.
pub open spec fn encode_spec(wrap: nat, prefix: Seq<u8>, data: Seq<u8>) -> Seq<u8> {
    with_final_newline(encode_run(prefix, wrap, 0, data).0)
}

/// One encode or decode session: the configuration, the wrap column, the
/// pending nibble of the decoder, and whether the encoded text ends mid-line.
/// Both directions persist their state across the sources of a session.
pub struct App {
    ignore_ws: bool,
    wrap_size: usize,
    column: usize,
    prefix: Vec<u8>,
    decoder: HexDecoder,
    line_open: bool,
}

impl App {
    pub closed spec fn ignores_ws(&self) -> bool {
        self.ignore_ws
    }

    /// Byte pairs per line; 0 means no wrapping.
    pub closed spec fn wrap(&self) -> nat {
        self.wrap_size as nat
    }

    pub closed spec fn col(&self) -> nat {
        self.column as nat
    }

    /// The bytes written before every encoded byte.
    pub closed spec fn prefix_bytes(&self) -> Seq<u8> {
        self.prefix@
    }

    pub closed spec fn pending(&self) -> Option<u8> {
        self.decoder.pending()
    }

    /// Whether the encoded text written so far ends inside a line.
    pub closed spec fn is_line_open(&self) -> bool {
        self.line_open
    }

    pub closed spec fn wf(&self) -> bool {
        &&& self.decoder.wf()
        &&& self.wrap_size > 0 ==> self.column < self.wrap_size
    }

    /// True when `other` has the same configuration as `self`.
    pub open spec fn same_config(&self, other: &App) -> bool {
        &&& other.ignores_ws() == self.ignores_ws()
        &&& other.wrap() == self.wrap()
        &&& other.prefix_bytes() == self.prefix_bytes()
    }

    pub fn new(ignore_ws: bool, wrap_size: usize, prefix: String) -> (r: App)
        ensures
            r.wf(),
            r.ignores_ws() == ignore_ws,
            r.wrap() == wrap_size,
            r.prefix_bytes() == encode_utf8(prefix@),
            r.col() == 0,
            r.pending() is None,
            !r.is_line_open(),
    {
        let bytes = vstd::slice::slice_to_vec(prefix.as_str().as_bytes());
        App {
            ignore_ws,
            wrap_size,
            column: 0,
            prefix: bytes,
            decoder: HexDecoder::new(),
            line_open: false,
        }
    }

    /// Byte pairs per line; 0 means no wrapping.
    pub fn wrap_size(&self) -> (r: usize)
        ensures
            r as nat == self.wrap(),
    {
        self.wrap_size
    }

    /// The number of byte pairs written on the current line.
    pub fn column(&self) -> (r: usize)
        ensures
            r as nat == self.col(),
    {
        self.column
    }

    /// Writes the prefix and the two hex digits of `c`, then a line feed when
    /// the line is full.
    pub fn write(&mut self, out: &mut Vec<u8>, c: u8)
        requires
            old(self).wf(),
            old(self).wrap() > 0 || old(self).col() < usize::MAX,
        ensures
            final(self).wf(),
            old(self).same_config(final(self)),
            final(self).pending() == old(self).pending(),
            final(out)@ == old(out)@ + encode_unit(
                old(self).prefix_bytes(),
                old(self).wrap(),
                old(self).col(),
                c,
            ),
            final(self).col() == next_column(old(self).wrap(), old(self).col()),
            final(self).is_line_open() == !wraps(old(self).wrap(), old(self).col()),
    {
        let ghost out0 = out@;
        let mut i: usize = 0;
        while i < self.prefix.len()
            invariant
                i <= self.prefix@.len(),
                out@ == out0 + self.prefix@.take(i as int),
            decreases self.prefix@.len() - i,
        {
            out.push(self.prefix[i]);
            i += 1;
            assert(self.prefix@.take(i as int) == self.prefix@.take(i - 1).push(self.prefix@[i - 1]));
        }
        assert(self.prefix@.take(i as int) == self.prefix@);
        out.push(to_hex_digit(c / 16));
        out.push(to_hex_digit(c % 16));
        let wrapped = self.wrap_size > 0 && self.column + 1 == self.wrap_size;
        if wrapped {
            out.push(LINE_FEED);
            self.column = 0;
        } else {
            self.column = self.column + 1;
        }
        self.line_open = !wrapped;
        assert(out@ == out0 + encode_unit(self.prefix@, self.wrap_size as nat, old(self).column as nat, c));
    }

    /// Encodes one source; the wrap column carries over from earlier sources.
    pub fn encode_src(&mut self, src: &[u8], out: &mut Vec<u8>)
        requires
            old(self).wf(),
            old(self).wrap() > 0 || old(self).col() + src@.len() <= usize::MAX,
        ensures
            final(self).wf(),
            old(self).same_config(final(self)),
            final(self).pending() == old(self).pending(),
            final(out)@ == old(out)@ + encode_run(
                old(self).prefix_bytes(),
                old(self).wrap(),
                old(self).col(),
                src@,
            ).0,
            final(self).col() == encode_run(
                old(self).prefix_bytes(),
                old(self).wrap(),
                old(self).col(),
                src@,
            ).1,
            final(self).is_line_open() == ends_open(
                old(self).is_line_open(),
                encode_run(old(self).prefix_bytes(), old(self).wrap(), old(self).col(), src@).0,
            ),
    {
        let ghost s0 = *self;
        let ghost out0 = out@;
        let mut i: usize = 0;
        while i < src.len()
            invariant
                self.wf(),
                s0.same_config(self),
                self.pending() == s0.pending(),
                i <= src@.len(),
                s0.wrap() > 0 || s0.col() + src@.len() <= usize::MAX,
                s0.wrap() == 0 ==> self.col() == s0.col() + i,
                out@ == out0 + encode_run(s0.prefix_bytes(), s0.wrap(), s0.col(), src@.take(i as int)).0,
                self.col() == encode_run(s0.prefix_bytes(), s0.wrap(), s0.col(), src@.take(i as int)).1,
                self.is_line_open() == ends_open(
                    s0.is_line_open(),
                    encode_run(s0.prefix_bytes(), s0.wrap(), s0.col(), src@.take(i as int)).0,
                ),
            decreases src@.len() - i,
        {
            let ghost before = *self;
            self.write(out, src[i]);
            i += 1;
            proof {
                let t = src@.take(i as int);
                assert(t.drop_last() == src@.take(i - 1));
                let unit = encode_unit(s0.prefix_bytes(), s0.wrap(), before.col(), src@[i - 1]);
                let run = encode_run(s0.prefix_bytes(), s0.wrap(), s0.col(), t);
                assert(run.0 == encode_run(s0.prefix_bytes(), s0.wrap(), s0.col(), src@.take(i - 1)).0 + unit);
                lemma_unit_end(s0.prefix_bytes(), s0.wrap(), before.col(), src@[i - 1]);
            }
        }
        assert(src@.take(i as int) == src@);
    }

    /// Decodes one source; a digit left unpaired at its end waits for the next
    /// source. Stops at the first offending byte.
    pub fn decode_src(&mut self, src: &[u8], out: &mut Vec<u8>) -> (r: Result<(), HexError>)
        requires
            old(self).wf(),
        ensures
            final(self).wf(),
            old(self).same_config(final(self)),
            final(self).col() == old(self).col(),
            final(self).is_line_open() == old(self).is_line_open(),
            final(self).pending() == decode_run(
                old(self).ignores_ws(),
                old(self).pending(),
                src@,
            ).0,
            final(out)@ == old(out)@ + decode_run(
                old(self).ignores_ws(),
                old(self).pending(),
                src@,
            ).1,
            r == (match decode_run(old(self).ignores_ws(), old(self).pending(), src@).2 {
                Some(c) => Err(malformed(c)),
                None => Ok(()),
            }),
    {
        let ghost s0 = *self;
        let ghost out0 = out@;
        let mut i: usize = 0;
        while i < src.len()
            invariant
                s0 == *old(self),
                out0 == old(out)@,
                self.wf(),
                s0.same_config(self),
                self.col() == s0.col(),
                self.is_line_open() == s0.is_line_open(),
                i <= src@.len(),
                decode_run(s0.ignores_ws(), s0.pending(), src@.take(i as int)).2 is None,
                self.pending() == decode_run(s0.ignores_ws(), s0.pending(), src@.take(i as int)).0,
                out@ == out0 + decode_run(s0.ignores_ws(), s0.pending(), src@.take(i as int)).1,
            decreases src@.len() - i,
        {
            let c = src[i];
            proof {
                assert(src@.take(i + 1).drop_last() == src@.take(i as int));
            }
            if skips(self.ignore_ws, c) {
                i += 1;
            } else if from_hex_digit(c).is_none() {
                proof {
                    lemma_decode_halts(s0.ignores_ws(), s0.pending(), src@, i as int);
                }
                return Err(malformed_input(c));
            } else {
                self.decoder.write(out, c);
                i += 1;
            }
        }
        assert(src@.take(i as int) == src@);
        Ok(())
    }

    /// Ends an encode session: adds a line feed when the text ends mid-line.
    pub fn finish_encode(&mut self, out: &mut Vec<u8>)
        requires
            old(self).wf(),
        ensures
            final(self).wf(),
            old(self).same_config(final(self)),
            final(self).col() == old(self).col(),
            final(self).pending() == old(self).pending(),
            !final(self).is_line_open(),
            final(out)@ == (if old(self).is_line_open() {
                old(out)@.push(LINE_FEED)
            } else {
                old(out)@
            }),
    {
        if self.line_open {
            out.push(LINE_FEED);
            self.line_open = false;
        }
    }

    /// Ends a decode session: fails with `OddLength` when a digit is unpaired.
    pub fn finish_decode(&self) -> (r: Result<(), HexError>)
        requires
            self.wf(),
        ensures
            r == (if self.pending() is Some {
                Err(HexError::OddLength)
            } else {
                Ok(())
            }),
    {
        self.decoder.finish()
    }
}

/// Once an offending byte is met, the rest of the input is not read: the
/// run over the whole input equals the run up to that byte, plus the error.
pub proof fn lemma_decode_halts(ignore_ws: bool, pending: Option<u8>, s: Seq<u8>, i: int)
    requires
        0 <= i < s.len(),
        decode_run(ignore_ws, pending, s.take(i)).2 is None,
        !is_skipped(ignore_ws, s[i]),
        !is_hex_digit(s[i]),
    ensures
        decode_run(ignore_ws, pending, s) == (
            decode_run(ignore_ws, pending, s.take(i)).0,
            decode_run(ignore_ws, pending, s.take(i)).1,
            Some(s[i]),
        ),
    decreases s.len(),
{
    if s.len() == i + 1 {
        assert(s.drop_last() == s.take(i));
    } else {
        assert(s.drop_last().take(i) == s.take(i));
        lemma_decode_halts(ignore_ws, pending, s.drop_last(), i);
    }
}

/// Encodes `data` as one session: lowercase hex pairs, each after `prefix`,
/// a line feed after every `wrap_size` pairs (none when 0), and a final line
/// feed when the text does not already end with one.
pub fn encode(wrap_size: usize, prefix: String, data: &[u8]) -> (r: Vec<u8>)
    ensures
        r@ == encode_spec(wrap_size as nat, encode_utf8(prefix@), data@),
{
    let mut app = App::new(false, wrap_size, prefix);
    let mut out: Vec<u8> = Vec::new();
    let n = data.len();
    assert(n == data@.len());
    app.encode_src(data, &mut out);
    app.finish_encode(&mut out);
    out
}

/// Decodes `text` as one session: line feeds are skipped, other ASCII
/// whitespace only when `ignore_ws` is set; any other non-digit is refused,
/// and so is an odd number of digits.
pub fn decode(ignore_ws: bool, text: &[u8]) -> (r: Result<Vec<u8>, HexError>)
    ensures
        match decode_spec(ignore_ws, text@) {
            Ok(b) => r is Ok && r->Ok_0@ == b,
            Err(e) => r == Err::<Vec<u8>, HexError>(e),
        },
{
    let mut app = App::new(ignore_ws, 0, String::new());
    let mut out: Vec<u8> = Vec::new();
    match app.decode_src(text, &mut out) {
        Err(e) => Err(e),
        Ok(()) => match app.finish_decode() {
            Err(e) => Err(e),
            Ok(()) => Ok(out),
        },
    }
}

/// The text for one byte is never empty, and ends with a line feed exactly
/// when the line is full.
pub proof fn lemma_unit_end(prefix: Seq<u8>, wrap: nat, col: nat, b: u8)
    ensures
        encode_unit(prefix, wrap, col, b).len() > 0,
        (encode_unit(prefix, wrap, col, b).last() == LINE_FEED) == wraps(wrap, col),
{
    lemma_hex_digit_value(b % 16);
}

} // verus!
