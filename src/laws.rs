use vstd::prelude::*;

use vstd::arithmetic::div_mod::{
    lemma_fundamental_div_mod, lemma_fundamental_div_mod_converse, lemma_mod_pos_bound,
};

use crate::error::HexError;
use crate::decoder::{decode_run, decode_spec, feed, is_skipped, LINE_FEED};
use crate::hex::{hex_digit, hex_pair, lemma_hex_digit_value, lemma_join_split};
use crate::session::{encode_run, encode_spec, encode_unit, wraps};

verus! {

/// Decoding is continuous across sources: decoding `a` and then `b` with the
/// state `a` left behind is decoding `a + b`. After an offending byte in `a`,
/// `b` is not read.
pub proof fn lemma_decode_concat(ignore_ws: bool, pending: Option<u8>, a: Seq<u8>, b: Seq<u8>)
    ensures
        decode_run(ignore_ws, pending, a + b) == (if decode_run(ignore_ws, pending, a).2 is Some {
            decode_run(ignore_ws, pending, a)
        } else {
            (
                decode_run(ignore_ws, decode_run(ignore_ws, pending, a).0, b).0,
                decode_run(ignore_ws, pending, a).1 + decode_run(
                    ignore_ws,
                    decode_run(ignore_ws, pending, a).0,
                    b,
                ).1,
                decode_run(ignore_ws, decode_run(ignore_ws, pending, a).0, b).2,
            )
        }),
    decreases b.len(),
{
    let ra = decode_run(ignore_ws, pending, a);
    if b.len() == 0 {
        assert(a + b == a);
        assert(ra.1 + Seq::<u8>::empty() == ra.1);
    } else {
        assert((a + b).drop_last() == a + b.drop_last());
        assert((a + b).last() == b.last());
        lemma_decode_concat(ignore_ws, pending, a, b.drop_last());
        if ra.2 is None {
            let rb = decode_run(ignore_ws, ra.0, b.drop_last());
            let step = feed(rb.0, b.last());
            assert(ra.1 + rb.1 + step.1 == ra.1 + (rb.1 + step.1));
        }
    }
}

/// Encoding is continuous across sources: encoding `a` and then `b` from the
/// column `a` left behind is encoding `a + b`.
pub proof fn lemma_encode_concat(prefix: Seq<u8>, wrap: nat, col: nat, a: Seq<u8>, b: Seq<u8>)
    ensures
        encode_run(prefix, wrap, col, a + b) == (
            encode_run(prefix, wrap, col, a).0 + encode_run(
                prefix,
                wrap,
                encode_run(prefix, wrap, col, a).1,
                b,
            ).0,
            encode_run(prefix, wrap, encode_run(prefix, wrap, col, a).1, b).1,
        ),
    decreases b.len(),
{
    let ra = encode_run(prefix, wrap, col, a);
    if b.len() == 0 {
        assert(a + b == a);
        assert(ra.0 + Seq::<u8>::empty() == ra.0);
    } else {
        assert((a + b).drop_last() == a + b.drop_last());
        assert((a + b).last() == b.last());
        lemma_encode_concat(prefix, wrap, col, a, b.drop_last());
        let rb = encode_run(prefix, wrap, ra.1, b.drop_last());
        let unit = encode_unit(prefix, wrap, rb.1, b.last());
        assert(ra.0 + rb.0 + unit == ra.0 + (rb.0 + unit));
    }
}

/// A separator that the decoder skips (a line feed always, other ASCII
/// whitespace when tolerated) can be removed without changing the outcome.
pub proof fn lemma_separator_ignored(ignore_ws: bool, a: Seq<u8>, c: u8, b: Seq<u8>)
    requires
        is_skipped(ignore_ws, c),
    ensures
        decode_spec(ignore_ws, a + seq![c] + b) == decode_spec(ignore_ws, a + b),
{
    let ra = decode_run(ignore_ws, None, a);
    assert((a + seq![c]).drop_last() == a);
    assert(decode_run(ignore_ws, None, a + seq![c]) == ra);
    lemma_decode_concat(ignore_ws, None, a + seq![c], b);
    lemma_decode_concat(ignore_ws, None, a, b);
}

/// Decoding the two digits of a byte, from no pending digit, gives that byte.
proof fn lemma_decode_pair(ignore_ws: bool, b: u8)
    ensures
        decode_run(ignore_ws, None, hex_pair(b)) == (None::<u8>, seq![b], None::<u8>),
{
    let h = hex_digit(b / 16);
    let l = hex_digit(b % 16);
    lemma_join_split(b);
    lemma_hex_digit_value(b / 16);
    lemma_hex_digit_value(b % 16);
    assert(seq![h].len() == 1);
    assert(h >= 48 && l >= 48);
    assert(!is_skipped(ignore_ws, h) && !is_skipped(ignore_ws, l));
    assert(seq![h].drop_last() == Seq::<u8>::empty());
    assert(seq![h].last() == h);
    assert(Seq::<u8>::empty() + Seq::<u8>::empty() == Seq::<u8>::empty());
    assert(decode_run(ignore_ws, None, Seq::<u8>::empty()) == (
        None::<u8>,
        Seq::<u8>::empty(),
        None::<u8>,
    ));
    assert(decode_run(ignore_ws, None, seq![h]) == (Some(b / 16), Seq::<u8>::empty(), None::<u8>));
    assert(hex_pair(b).drop_last() == seq![h]);
    assert(hex_pair(b).last() == l);
    assert(Seq::<u8>::empty() + seq![b] == seq![b]);
}

/// Decoding the text that the encoder writes for `data`, with no prefix and
/// any wrap width, gives back `data`.
proof fn lemma_decode_encoded(ignore_ws: bool, wrap: nat, col: nat, data: Seq<u8>)
    ensures
        decode_run(ignore_ws, None, encode_run(Seq::empty(), wrap, col, data).0) == (
            None::<u8>,
            data,
            None::<u8>,
        ),
    decreases data.len(),
{
    if data.len() == 0 {
        assert(decode_run(ignore_ws, None, Seq::empty()).1 == Seq::<u8>::empty());
    } else {
        let prev = encode_run(Seq::empty(), wrap, col, data.drop_last());
        let b = data.last();
        let unit = encode_unit(Seq::empty(), wrap, prev.1, b);
        lemma_decode_encoded(ignore_ws, wrap, col, data.drop_last());
        lemma_decode_pair(ignore_ws, b);
        lemma_decode_concat(ignore_ws, None, prev.0, unit);
        if wraps(wrap, prev.1) {
            assert(unit == hex_pair(b) + seq![LINE_FEED]);
            assert((hex_pair(b) + seq![LINE_FEED]).drop_last() == hex_pair(b));
        } else {
            assert(unit == hex_pair(b));
        }
        assert(data.drop_last() + seq![b] == data);
    }
}

/// Round trip: decoding the text of an encode session without prefix gives
/// the original bytes back, whatever the wrap width and the whitespace
/// setting.
pub proof fn lemma_round_trip(ignore_ws: bool, wrap: nat, data: Seq<u8>)
    ensures
        decode_spec(ignore_ws, encode_spec(wrap, Seq::empty(), data)) == Ok::<Seq<u8>, HexError>(data),
{
    let o = encode_run(Seq::empty(), wrap, 0, data).0;
    lemma_decode_encoded(ignore_ws, wrap, 0, data);
    if o.len() > 0 && o.last() != LINE_FEED {
        assert(o.push(LINE_FEED).drop_last() == o);
    }
}

/// The encoder writes the prefix and two hex digits per byte, and one line
/// feed each time a line of `wrap` pairs fills up; the column afterwards is
/// the count of pairs on the last line (the count of all pairs when `wrap`
/// is 0).
pub proof fn lemma_encoded_length(prefix: Seq<u8>, wrap: nat, col: nat, data: Seq<u8>)
    requires
        wrap == 0 || col < wrap,
    ensures
        encode_run(prefix, wrap, col, data).1 == (if wrap > 0 {
            (col + data.len()) as int % (wrap as int)
        } else {
            (col + data.len()) as int
        }),
        encode_run(prefix, wrap, col, data).0.len() == (prefix.len() + 2) * data.len() + (if wrap
            > 0 {
            (col + data.len()) as int / (wrap as int)
        } else {
            0
        }),
    decreases data.len(),
{
    let p = prefix.len() as int;
    let n = data.len() as int;
    let c = col as int;
    if n == 0 {
        if wrap > 0 {
            lemma_fundamental_div_mod_converse(c, wrap as int, 0, c);
        }
    } else {
        lemma_encoded_length(prefix, wrap, col, data.drop_last());
        let m = n - 1;
        assert((p + 2) * m + p + 2 == (p + 2) * n) by (nonlinear_arith)
            requires
                m == n - 1,
        ;
        if wrap > 0 {
            let w = wrap as int;
            let q = (c + m) / w;
            let r = (c + m) % w;
            lemma_fundamental_div_mod(c + m, w);
            lemma_mod_pos_bound(c + m, w);
            assert(c + m == w * q + r);
            if r + 1 == w {
                assert(c + n == (q + 1) * w + 0) by (nonlinear_arith)
                    requires
                        c + m == w * q + r,
                        r + 1 == w,
                        n == m + 1,
                ;
                lemma_fundamental_div_mod_converse(c + n, w, q + 1, 0);
            } else {
                assert(c + n == q * w + (r + 1)) by (nonlinear_arith)
                    requires
                        c + m == w * q + r,
                        n == m + 1,
                ;
                lemma_fundamental_div_mod_converse(c + n, w, q, r + 1);
            }
        }
    }
}

} // verus!
