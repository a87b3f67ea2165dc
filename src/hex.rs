use vstd::prelude::*;

verus! {

pub const ZERO: u8 = 48;
pub const NINE: u8 = 57;
pub const LOWER_A: u8 = 97;
pub const LOWER_F: u8 = 102;
pub const UPPER_A: u8 = 65;
pub const UPPER_F: u8 = 70;

/// True when `c` is one of `0-9`, `a-f` or `A-F`.
pub open spec fn is_hex_digit(c: u8) -> bool {
    (ZERO <= c && c <= NINE) || (LOWER_A <= c && c <= LOWER_F) || (UPPER_A <= c && c <= UPPER_F)
}

/// The value, 0 to 15, of a hex digit; both cases give the same value.
pub open spec fn hex_value(c: u8) -> u8
    recommends
        is_hex_digit(c),
{
    if ZERO <= c && c <= NINE {
        (c - ZERO) as u8
    } else if LOWER_A <= c && c <= LOWER_F {
        (c - LOWER_A + 10) as u8
    } else {
        (c - UPPER_A + 10) as u8
    }
}

/// Value of a hex digit, or `None` for any other byte.
pub fn from_hex_digit(x: u8) -> (r: Option<u8>)
    ensures
        r == (if is_hex_digit(x) {
            Some(hex_value(x))
        } else {
            None::<u8>
        }),
{
    if ZERO <= x && x <= NINE {
        Some(x - ZERO)
    } else if LOWER_A <= x && x <= LOWER_F {
        Some(x - LOWER_A + 10)
    } else if UPPER_A <= x && x <= UPPER_F {
        Some(x - UPPER_A + 10)
    } else {
        None
    }
}

/// The lowercase hex digit for a nibble value below 16.
pub open spec fn hex_digit(n: u8) -> u8
    recommends
        n < 16,
{
    if n < 10 {
        (ZERO + n) as u8
    } else {
        (LOWER_A + n - 10) as u8
    }
}

/// The two lowercase hex digits of a byte, high nibble first.
pub open spec fn hex_pair(b: u8) -> Seq<u8> {
    seq![hex_digit(b / 16), hex_digit(b % 16)]
}

/// The byte whose high nibble is `hi` and low nibble is `lo`.
pub open spec fn join_nibbles(hi: u8, lo: u8) -> u8 {
    (hi * 16 + lo) as u8
}

/// Lowercase hex digit of a nibble value.
pub fn to_hex_digit(n: u8) -> (r: u8)
    requires
        n < 16,
    ensures
        r == hex_digit(n),
        is_hex_digit(r),
        hex_value(r) == n,
{
    if n < 10 {
        ZERO + n
    } else {
        LOWER_A + (n - 10)
    }
}

/// A digit emitted by the encoder reads back as the nibble it was made from.
pub proof fn lemma_hex_digit_value(n: u8)
    requires
        n < 16,
    ensures
        is_hex_digit(hex_digit(n)),
        hex_value(hex_digit(n)) == n,
{
}

/// Joining the two nibbles of a byte gives the byte back.
pub proof fn lemma_join_split(b: u8)
    ensures
        b / 16 < 16,
        b % 16 < 16,
        join_nibbles(b / 16, b % 16) == b,
{
}

} // verus!
