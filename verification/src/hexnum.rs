//! Hexadecimal text: unsigned integers written in base 16, and hex-encoded
//! bytes.
use vstd::prelude::*;
use vstd::utf8::encode_utf8;
use base64::Engine;

verus! {

/// The value of an ASCII hexadecimal digit (either case).
pub open spec fn hex_digit(b: u8) -> Option<u8> {
    if 48 <= b <= 57 {
        Some((b - 48) as u8)
    } else if 97 <= b <= 102 {
        Some((b - 87) as u8)
    } else if 65 <= b <= 70 {
        Some((b - 55) as u8)
    } else {
        None
    }
}

pub fn hex_digit_of(b: u8) -> (r: Option<u8>)
    ensures
        r == hex_digit(b),
{
    if 48 <= b && b <= 57 {
        Some(b - 48)
    } else if 97 <= b && b <= 102 {
        Some(b - 87)
    } else if 65 <= b && b <= 70 {
        Some(b - 55)
    } else {
        None
    }
}

/// Why a text is not an unsigned integer.
#[derive(Clone, Copy, Debug, PartialEq, Eq, Structural)]
pub enum IntParseError {
    Empty,
    InvalidDigit,
    PosOverflow,
}

/// What `Display` prints for each kind of parse error.
pub open spec fn parse_error_text(e: IntParseError) -> Seq<char> {
    match e {
        IntParseError::Empty => "cannot parse integer from empty string"@,
        IntParseError::InvalidDigit => "invalid digit found in string"@,
        IntParseError::PosOverflow => "number too large to fit in target type"@,
    }
}

impl IntParseError {
    /// The error as text.
    pub fn message(&self) -> (r: String)
        ensures
            r@ == parse_error_text(*self),
    {
        match self {
            IntParseError::Empty => String::from_str("cannot parse integer from empty string"),
            IntParseError::InvalidDigit => String::from_str("invalid digit found in string"),
            IntParseError::PosOverflow => String::from_str("number too large to fit in target type"),
        }
    }
}

/// Reads base-16 digits left to right onto `acc`; the first byte that is not
/// a digit, or the first digit that takes the value past `u64::MAX`, stops it.
pub open spec fn hex_scan(d: Seq<u8>, acc: nat) -> Result<u64, IntParseError>
    decreases d.len(),
{
    if d.len() == 0 {
        Ok(acc as u64)
    } else {
        match hex_digit(d[0]) {
            None => Err(IntParseError::InvalidDigit),
            Some(x) => {
                let a: nat = acc * 16 + x as nat;
                if a > u64::MAX {
                    Err(IntParseError::PosOverflow)
                } else {
                    hex_scan(d.drop_first(), a)
                }
            },
        }
    }
}

/// The unsigned 64-bit integer that the bytes write in base 16, as
/// `u64::from_str_radix(s, 16)` reads it: an optional leading `+`, then at
/// least one digit.
pub open spec fn parse_hex(b: Seq<u8>) -> Result<u64, IntParseError> {
    if b.len() == 0 {
        Err(IntParseError::Empty)
    } else if (b[0] == 43 || b[0] == 45) && b.len() == 1 {
        Err(IntParseError::InvalidDigit)
    } else if b[0] == 43 {
        hex_scan(b.drop_first(), 0)
    } else {
        hex_scan(b, 0)
    }
}

/// Reads a base-16 unsigned integer (`u64::from_str_radix(s, 16)`).
pub fn parse_hex_u64(s: &str) -> (r: Result<u64, IntParseError>)
    ensures
        r == parse_hex(encode_utf8(s@)),
{
    let b = s.as_bytes();
    let n = b.len();
    if n == 0 {
        return Err(IntParseError::Empty);
    }
    if (b[0] == 43 || b[0] == 45) && n == 1 {
        return Err(IntParseError::InvalidDigit);
    }
    let start: usize = if b[0] == 43 {
        1
    } else {
        0
    };
    let ghost d = if b@[0] == 43 {
        b@.drop_first()
    } else {
        b@
    };
    assert(d =~= b@.subrange(start as int, n as int));
    assert(parse_hex(b@) == hex_scan(d, 0));
    let mut acc: u64 = 0;
    let mut i: usize = start;
    while i < n
        invariant
            start <= i <= n,
            n == b@.len(),
            b@ == encode_utf8(s@),
            parse_hex(b@) == hex_scan(b@.subrange(i as int, n as int), acc as nat),
        decreases n - i,
    {
        let ghost rest = b@.subrange(i as int, n as int);
        assert(rest[0] == b@[i as int]);
        assert(rest.drop_first() =~= b@.subrange(i + 1, n as int));
        match hex_digit_of(b[i]) {
            None => {
                return Err(IntParseError::InvalidDigit);
            },
            Some(x) => {
                if acc > (u64::MAX - x as u64) / 16 {
                    assert(acc * 16 + x > u64::MAX) by (nonlinear_arith)
                        requires
                            acc > (u64::MAX - x as u64) / 16,
                            x < 16,
                    ;
                    return Err(IntParseError::PosOverflow);
                }
                assert(acc * 16 + x <= u64::MAX) by (nonlinear_arith)
                    requires
                        acc <= (u64::MAX - x as u64) / 16,
                        x < 16,
                ;
                acc = acc * 16 + x as u64;
            },
        }
        i = i + 1;
    }
    assert(b@.subrange(n as int, n as int) =~= Seq::<u8>::empty());
    Ok(acc)
}

/// Sixteen bytes, each an ASCII hexadecimal digit.
pub open spec fn is_hex16(b: Seq<u8>) -> bool {
    b.len() == 16 && forall|i: int| 0 <= i < b.len() ==> (#[trigger] hex_digit(b[i])) is Some
}

/// Whether the text is sixteen hexadecimal digits.
pub fn hex16(s: &str) -> (r: bool)
    ensures
        r == is_hex16(encode_utf8(s@)),
{
    let b = s.as_bytes();
    if b.len() != 16 {
        return false;
    }
    let mut i: usize = 0;
    while i < 16
        invariant
            i <= 16,
            b@.len() == 16,
            b@ == encode_utf8(s@),
            forall|j: int| 0 <= j < i ==> (#[trigger] hex_digit(b@[j])) is Some,
        decreases 16 - i,
    {
        if hex_digit_of(b[i]).is_none() {
            return false;
        }
        i = i + 1;
    }
    true
}

/// The bytes that hex text encodes, two digits a byte, high digit first;
/// `None` for an odd length or a byte that is not a digit.
pub open spec fn hex_decoded(b: Seq<u8>) -> Option<Seq<u8>> {
    if b.len() % 2 != 0 {
        None
    } else if exists|i: int| 0 <= i < b.len() && (#[trigger] hex_digit(b[i])) is None {
        None
    } else {
        Some(
            Seq::new(
                b.len() / 2,
                |i: int| (hex_digit(b[2 * i])->0 * 16 + hex_digit(b[2 * i + 1])->0) as u8,
            ),
        )
    }
}

/// The text that `hex::FromHexError` prints for bytes that do not decode.
pub uninterp spec fn hex_error_text(b: Seq<u8>) -> Seq<char>;

pub open spec fn bytes_or_text(r: Result<Vec<u8>, String>) -> Result<Seq<u8>, Seq<char>> {
    match r {
        Ok(v) => Ok(v@),
        Err(m) => Err(m@),
    }
}

/// `hex::decode` on the text's bytes: `Ok` exactly when the length is even
/// and every byte is a hexadecimal digit, each pair of digits giving a byte;
/// otherwise the error as `Display` prints it (named, not stated).
#[verifier::external_body]
pub(crate) fn hex_decode(s: &str) -> (r: Result<Vec<u8>, String>)
    ensures
        bytes_or_text(r) == match hex_decoded(encode_utf8(s@)) {
            Some(v) => Ok(v),
            None => Err(hex_error_text(encode_utf8(s@))),
        },
{
    hex::decode(s).map_err(|e| e.to_string())
}

/// The lowercase hex digit of a value below 16.
pub open spec fn hex_char(d: nat) -> char {
    if d < 10 {
        (48 + d) as char
    } else {
        (87 + d) as char
    }
}

/// Bytes as lowercase hex text, two digits a byte, high digit first.
pub open spec fn hex_encoded(b: Seq<u8>) -> Seq<char> {
    Seq::new(2 * b.len(), |i: int| if i % 2 == 0 {
        hex_char((b[i / 2] / 16) as nat)
    } else {
        hex_char((b[i / 2] % 16) as nat)
    })
}

/// `hex::encode`: the bytes as lowercase hex text.
#[verifier::external_body]
pub(crate) fn hex_encode(b: &[u8]) -> (r: String)
    ensures
        r@ == hex_encoded(b@),
{
    hex::encode(b)
}

/// The bytes that base64 text encodes, as the standard padded engine of the
/// `base64` crate decodes them, or `None` where it refuses the text.
pub uninterp spec fn base64_decoded(b: Seq<u8>) -> Option<Seq<u8>>;

/// `base64::engine::general_purpose::STANDARD.decode` on the text's bytes.
/// The result is named, not stated.
#[verifier::external_body]
pub(crate) fn base64_decode(s: &str) -> (r: Option<Vec<u8>>)
    ensures
        match r {
            Some(v) => base64_decoded(encode_utf8(s@)) == Some(v@),
            None => base64_decoded(encode_utf8(s@)) is None,
        },
{
    base64::engine::general_purpose::STANDARD.decode(s).ok()
}

} // verus!
