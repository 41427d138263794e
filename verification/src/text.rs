//! Text: decimal numbers, the textual form of principals, and UTF-8.
use vstd::prelude::*;
use vstd::utf8::*;

verus! {

/// The decimal digit `d`.
pub open spec fn digit_char(d: nat) -> char {
    if d == 0 {
        '0'
    } else if d == 1 {
        '1'
    } else if d == 2 {
        '2'
    } else if d == 3 {
        '3'
    } else if d == 4 {
        '4'
    } else if d == 5 {
        '5'
    } else if d == 6 {
        '6'
    } else if d == 7 {
        '7'
    } else if d == 8 {
        '8'
    } else {
        '9'
    }
}

/// The decimal form of `n`, as `Display` prints an unsigned integer.
pub open spec fn decimal(n: nat) -> Seq<char>
    decreases n,
{
    if n < 10 {
        seq![digit_char(n)]
    } else {
        decimal(n / 10).push(digit_char(n % 10))
    }
}

/// A decimal form is at least one character long, two from ten on, and
/// every character is a digit (none is `-`).
pub proof fn lemma_decimal_digits(n: nat)
    ensures
        decimal(n).len() >= 1,
        n >= 10 ==> decimal(n).len() >= 2,
        forall|i: int| 0 <= i < decimal(n).len() ==> #[trigger] decimal(n)[i] != '-',
    decreases n,
{
    if n >= 10 {
        lemma_decimal_digits(n / 10);
        assert forall|i: int| 0 <= i < decimal(n).len() implies #[trigger] decimal(n)[i] != '-' by {
            if i < decimal(n / 10).len() {
                assert(decimal(n)[i] == decimal(n / 10)[i]);
            }
        }
    }
}

/// Different numbers have different decimal forms.
pub proof fn lemma_decimal_injective(a: nat, b: nat)
    requires
        decimal(a) == decimal(b),
    ensures
        a == b,
    decreases a,
{
    lemma_decimal_digits(a);
    lemma_decimal_digits(b);
    if a >= 10 && b >= 10 {
        let da = decimal(a);
        assert(da.drop_last() == decimal(a / 10));
        assert(decimal(b).drop_last() == decimal(b / 10));
        assert(da.last() == digit_char(a % 10));
        assert(decimal(b).last() == digit_char(b % 10));
        assert(a % 10 == b % 10);
        lemma_decimal_injective(a / 10, b / 10);
        assert(a == 10 * (a / 10) + a % 10);
        assert(b == 10 * (b / 10) + b % 10);
    } else if a < 10 && b < 10 {
        assert(decimal(a)[0] == digit_char(a));
        assert(decimal(b)[0] == digit_char(b));
    } else {
        assert(decimal(a).len() != decimal(b).len());
    }
}

/// The one-character string of a decimal digit.
pub fn digit_str(d: u8) -> (r: &'static str)
    requires
        d < 10,
    ensures
        r@ == seq![digit_char(d as nat)],
{
    let digits = "0123456789";
    proof {
        reveal_strlit("0123456789");
    }
    let r = digits.substring_char(d as usize, d as usize + 1);
    assert(r@ =~= seq![digit_char(d as nat)]);
    r
}

/// Appends the decimal form of `n`.
pub fn push_decimal(out: &mut String, n: u128)
    ensures
        final(out)@ == old(out)@ + decimal(n as nat),
    decreases n,
{
    if n >= 10 {
        push_decimal(out, n / 10);
    }
    let d = (n % 10) as u8;
    out.append(digit_str(d));
    assert(out@ =~= old(out)@ + decimal(n as nat));
}

/// The decimal form of `n`.
pub fn decimal_string(n: u128) -> (r: String)
    ensures
        r@ == decimal(n as nat),
{
    let mut s = String::new();
    push_decimal(&mut s, n);
    assert(s@ =~= decimal(n as nat));
    s
}

/// Appends a string slice.
pub fn push_str(out: &mut String, s: &str)
    ensures
        final(out)@ == old(out)@ + s@,
{
    out.append(s);
}

/// The list of numbers `l` as `Debug` prints a `Vec<u8>`: `[1, 2, 3]`.
pub open spec fn byte_list_text(l: Seq<u8>) -> Seq<char> {
    seq!['['] + byte_items(l) + seq![']']
}

pub open spec fn byte_items(l: Seq<u8>) -> Seq<char>
    decreases l.len(),
{
    if l.len() == 0 {
        Seq::empty()
    } else if l.len() == 1 {
        decimal(l[0] as nat)
    } else {
        byte_items(l.drop_last()) + seq![',', ' '] + decimal(l.last() as nat)
    }
}

/// Appends `l` as `Debug` prints a `Vec<u8>`.
pub fn push_byte_list(out: &mut String, l: &[u8])
    ensures
        final(out)@ == old(out)@ + byte_list_text(l@),
{
    let open = "[";
    let sep = ", ";
    let close = "]";
    proof {
        reveal_strlit("[");
        reveal_strlit(", ");
        reveal_strlit("]");
    }
    out.append(open);
    let ghost start = out@;
    let mut i: usize = 0;
    assert(l@.subrange(0, 0) =~= Seq::<u8>::empty());
    while i < l.len()
        invariant
            i <= l@.len(),
            sep@ == seq![',', ' '],
            out@ == start + byte_items(l@.subrange(0, i as int)),
        decreases l@.len() - i,
    {
        let ghost prev = l@.subrange(0, i as int);
        if i > 0 {
            out.append(sep);
        }
        push_decimal(out, l[i] as u128);
        i = i + 1;
        proof {
            let cur = l@.subrange(0, i as int);
            assert(cur.drop_last() =~= prev);
            if i == 1 {
                assert(prev =~= Seq::<u8>::empty());
                assert(byte_items(prev) =~= Seq::<char>::empty());
            }
            assert(out@ =~= start + byte_items(cur));
        }
    }
    out.append(close);
    assert(l@.subrange(0, l@.len() as int) =~= l@);
    assert(out@ =~= old(out)@ + byte_list_text(l@));
}

// ---------------------------------------------------------------------------
// Principals as text
// ---------------------------------------------------------------------------

/// The textual form of the principal with these bytes (what `to_text` gives).
pub uninterp spec fn principal_text(bytes: Seq<u8>) -> Seq<char>;

/// What `Principal::from_text` makes of `text`: the principal's bytes, or
/// the text of the error it gives.
pub uninterp spec fn principal_from_text(text: Seq<char>) -> Result<Seq<u8>, Seq<char>>;

/// `candid::Principal::to_text` on the principal with these bytes
/// (`Principal::from_slice` panics beyond 29 bytes, which `requires` leaves
/// out). The result is named, not stated, but for one fact the source shows:
/// it is lowercase base-32 grouped by hyphens, so ASCII.
#[verifier::external_body]
pub(crate) fn principal_to_text(bytes: &[u8]) -> (r: String)
    requires
        bytes@.len() <= 29,
    ensures
        r@ == principal_text(bytes@),
        is_ascii_chars(r@),
{
    candid::Principal::from_slice(bytes).to_text()
}

/// `candid::Principal::from_text`: the bytes of the principal, or the
/// error as `Display` prints it. The source shows that an accepted principal
/// has at most 29 bytes; the rest is named, not stated.
#[verifier::external_body]
pub(crate) fn principal_parse(text: &str) -> (r: Result<Vec<u8>, String>)
    ensures
        match r {
            Ok(b) => principal_from_text(text@) == Ok::<Seq<u8>, Seq<char>>(b@) && b@.len() <= 29,
            Err(m) => principal_from_text(text@) == Err::<Seq<u8>, Seq<char>>(m@),
        },
{
    match candid::Principal::from_text(text) {
        Ok(p) => Ok(p.as_slice().to_vec()),
        Err(e) => Err(e.to_string()),
    }
}

// ---------------------------------------------------------------------------
// UTF-8
// ---------------------------------------------------------------------------

/// `std::str::from_utf8`, as an owned string: `None` where the bytes are not
/// UTF-8, else the characters they encode.
#[verifier::external_body]
pub(crate) fn utf8_string(bytes: &[u8]) -> (r: Option<String>)
    ensures
        match r {
            Some(s) => valid_utf8(bytes@) && s@ == decode_utf8(bytes@),
            None => !valid_utf8(bytes@),
        },
{
    match std::str::from_utf8(bytes) {
        Ok(s) => Some(s.to_string()),
        Err(_) => None,
    }
}

/// Whether two texts are equal.
pub fn text_eq(a: &str, b: &str) -> (r: bool)
    ensures
        r == (a@ == b@),
{
    let r = crate::codec::bytes_eq(a.as_bytes(), b.as_bytes());
    proof {
        if r {
            crate::tables::lemma_encode_utf8_injective(a@, b@);
        }
    }
    r
}

/// The UTF-8 bytes of a string.
pub fn string_bytes(s: &str) -> (r: Vec<u8>)
    ensures
        r@ == encode_utf8(s@),
{
    crate::codec::to_vec(s.as_bytes())
}

} // verus!
