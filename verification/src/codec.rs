//! Byte layouts of the values kept in stable memory.
//!
//! Integers are little-endian; a record is a sequence of length-prefixed
//! fields (an eight-byte little-endian length followed by the field's bytes).
use vstd::prelude::*;

verus! {

/// `256^n`.
pub open spec fn pow256(n: nat) -> nat
    decreases n,
{
    if n == 0 {
        1
    } else {
        256 * pow256((n - 1) as nat)
    }
}

/// The `n` little-endian bytes of `x` (the value is taken modulo `256^n`).
pub open spec fn le_bytes(x: nat, n: nat) -> Seq<u8>
    decreases n,
{
    if n == 0 {
        Seq::empty()
    } else {
        seq![(x % 256) as u8] + le_bytes(x / 256, (n - 1) as nat)
    }
}

/// The number that a little-endian byte string stands for.
pub open spec fn le_value(s: Seq<u8>) -> nat
    decreases s.len(),
{
    if s.len() == 0 {
        0
    } else {
        s[0] as nat + 256 * le_value(s.drop_first())
    }
}

pub proof fn lemma_pow256_pos(n: nat)
    ensures
        pow256(n) >= 1,
    decreases n,
{
    if n > 0 {
        lemma_pow256_pos((n - 1) as nat);
    }
}

pub proof fn lemma_pow256_values()
    ensures
        pow256(4) == 0x1_0000_0000,
        pow256(8) == 0x1_0000_0000_0000_0000,
        pow256(16) == 0x1_0000_0000_0000_0000_0000_0000_0000_0000,
{
    reveal_with_fuel(pow256, 17);
}

pub proof fn lemma_le_bytes_len(x: nat, n: nat)
    ensures
        le_bytes(x, n).len() == n,
    decreases n,
{
    if n > 0 {
        lemma_le_bytes_len(x / 256, (n - 1) as nat);
    }
}

pub proof fn lemma_le_value_bound(s: Seq<u8>)
    ensures
        le_value(s) < pow256(s.len()),
    decreases s.len(),
{
    if s.len() > 0 {
        lemma_le_value_bound(s.drop_first());
    }
}

/// Decoding the little-endian bytes of a number that fits gives it back.
pub proof fn lemma_le_roundtrip(x: nat, n: nat)
    requires
        x < pow256(n),
    ensures
        le_value(le_bytes(x, n)) == x,
        le_bytes(x, n).len() == n,
    decreases n,
{
    lemma_le_bytes_len(x, n);
    if n > 0 {
        let s = le_bytes(x, n);
        assert(s.drop_first() =~= le_bytes(x / 256, (n - 1) as nat));
        lemma_le_roundtrip(x / 256, (n - 1) as nat);
    }
}

/// Encodes `x` into `n` little-endian bytes.
pub fn push_le(out: &mut Vec<u8>, x: u128, n: usize)
    requires
        n <= 16,
    ensures
        final(out)@ == old(out)@ + le_bytes(x as nat, n as nat),
{
    let mut v: u128 = x;
    let mut i: usize = 0;
    assert(old(out)@ + le_bytes(x as nat, n as nat) =~= old(out)@ + le_bytes(x as nat, n as nat));
    while i < n
        invariant
            i <= n,
            out@ + le_bytes(v as nat, (n - i) as nat) == old(out)@ + le_bytes(x as nat, n as nat),
        decreases n - i,
    {
        let b: u8 = (v % 256) as u8;
        let ghost prev = out@;
        out.push(b);
        proof {
            let rest = le_bytes((v / 256) as nat, (n - i - 1) as nat);
            assert(le_bytes(v as nat, (n - i) as nat) == seq![b] + rest);
            assert(prev + (seq![b] + rest) =~= prev.push(b) + rest);
        }
        v = v / 256;
        i = i + 1;
    }
    assert(le_bytes(v as nat, 0) =~= Seq::<u8>::empty());
    assert(out@ + Seq::<u8>::empty() =~= out@);
}

/// Reads the number stored little-endian in `s[start .. start + n]`.
pub fn read_le(s: &[u8], start: usize, n: usize) -> (r: u128)
    requires
        n <= 16,
        start + n <= s@.len(),
    ensures
        r as nat == le_value(s@.subrange(start as int, start + n)),
{
    let mut acc: u128 = 0;
    let mut i: usize = n;
    proof {
        lemma_pow256_values();
    }
    assert(s@.subrange(start + i, start + n) =~= Seq::<u8>::empty());
    while i > 0
        invariant
            i <= n <= 16,
            start + n <= s.len(),
            pow256(16) == 0x1_0000_0000_0000_0000_0000_0000_0000_0000,
            acc as nat == le_value(s@.subrange(start + i, start + n)),
        decreases i,
    {
        let ghost tail = s@.subrange(start + i, start + n);
        proof {
            lemma_le_value_bound(tail);
            lemma_pow256_monotone(tail.len(), 15);
        }
        let b = s[start + i - 1];
        acc = acc * 256 + b as u128;
        i = i - 1;
        proof {
            let t = s@.subrange(start + i, start + n);
            assert(t.drop_first() =~= tail);
        }
    }
    acc
}

pub proof fn lemma_pow256_monotone(a: nat, b: nat)
    requires
        a <= b,
    ensures
        pow256(a) <= pow256(b),
    decreases b,
{
    if a < b {
        lemma_pow256_monotone(a, (b - 1) as nat);
        lemma_pow256_pos((b - 1) as nat);
    }
}

// ---------------------------------------------------------------------------
// Length-prefixed fields
// ---------------------------------------------------------------------------

/// A field: its length in eight little-endian bytes, then its bytes.
pub open spec fn field(x: Seq<u8>) -> Seq<u8> {
    le_bytes(x.len(), 8) + x
}

/// Splits the first field off `s`.
pub open spec fn parse_field(s: Seq<u8>) -> Option<(Seq<u8>, Seq<u8>)> {
    if s.len() < 8 {
        None
    } else {
        let n = le_value(s.subrange(0, 8)) as int;
        if 8 + n <= s.len() {
            Some((s.subrange(8, 8 + n), s.subrange(8 + n, s.len() as int)))
        } else {
            None
        }
    }
}

/// A record: its fields one after another.
pub open spec fn fields(l: Seq<Seq<u8>>) -> Seq<u8>
    decreases l.len(),
{
    if l.len() == 0 {
        Seq::empty()
    } else {
        field(l[0]) + fields(l.drop_first())
    }
}

/// Splits `s` into fields; `None` where it is not a sequence of whole fields.
pub open spec fn parse_fields(s: Seq<u8>) -> Option<Seq<Seq<u8>>>
    decreases s.len(),
{
    if s.len() == 0 {
        Some(Seq::empty())
    } else {
        match parse_field(s) {
            None => None,
            Some((x, rest)) => {
                if rest.len() < s.len() {
                    match parse_fields(rest) {
                        Some(l) => Some(seq![x] + l),
                        None => None,
                    }
                } else {
                    None
                }
            },
        }
    }
}

/// Every field is short enough for its length to fit in eight bytes.
pub open spec fn fields_fit(l: Seq<Seq<u8>>) -> bool {
    forall|i: int| 0 <= i < l.len() ==> #[trigger] l[i].len() < 0x1_0000_0000_0000_0000
}

pub proof fn lemma_parse_field(x: Seq<u8>, rest: Seq<u8>)
    requires
        x.len() < 0x1_0000_0000_0000_0000,
    ensures
        parse_field(field(x) + rest) == Some((x, rest)),
{
    lemma_pow256_values();
    lemma_le_roundtrip(x.len(), 8);
    let s = field(x) + rest;
    assert(s.subrange(0, 8) =~= le_bytes(x.len(), 8));
    assert(s.subrange(8, 8 + x.len() as int) =~= x);
    assert(s.subrange(8 + x.len() as int, s.len() as int) =~= rest);
}

/// Parsing a record gives back its fields.
pub proof fn lemma_fields_roundtrip(l: Seq<Seq<u8>>)
    requires
        fields_fit(l),
    ensures
        parse_fields(fields(l)) == Some(l),
    decreases l.len(),
{
    if l.len() > 0 {
        let rest = fields(l.drop_first());
        assert(fields_fit(l.drop_first())) by {
            assert forall|i: int| 0 <= i < l.drop_first().len() implies #[trigger] l.drop_first()[i].len()
                < 0x1_0000_0000_0000_0000 by {
                assert(l.drop_first()[i] == l[i + 1]);
            }
        }
        assert(l[0].len() < 0x1_0000_0000_0000_0000);
        lemma_parse_field(l[0], rest);
        lemma_fields_roundtrip(l.drop_first());
        lemma_le_bytes_len(l[0].len(), 8);
        assert(seq![l[0]] + l.drop_first() =~= l);
    } else {
        assert(fields(l) =~= Seq::<u8>::empty());
    }
}

pub proof fn lemma_fields_push(l: Seq<Seq<u8>>, x: Seq<u8>)
    ensures
        fields(l.push(x)) == fields(l) + field(x),
    decreases l.len(),
{
    if l.len() == 0 {
        assert(l.push(x).drop_first() =~= Seq::<Seq<u8>>::empty());
        assert(fields(Seq::<Seq<u8>>::empty()) =~= Seq::<u8>::empty());
        assert(fields(l.push(x)) =~= fields(l) + field(x));
    } else {
        assert(l.push(x).drop_first() =~= l.drop_first().push(x));
        lemma_fields_push(l.drop_first(), x);
        assert(fields(l.push(x)) =~= fields(l) + field(x));
    }
}

/// The views of a list of byte vectors.
pub open spec fn views(l: Seq<Vec<u8>>) -> Seq<Seq<u8>> {
    l.map_values(|v: Vec<u8>| v@)
}

/// Appends `x` as one field.
pub fn push_field(out: &mut Vec<u8>, x: &[u8])
    ensures
        final(out)@ == old(out)@ + field(x@),
{
    push_le(out, x.len() as u128, 8);
    let ghost mid = out@;
    let mut i: usize = 0;
    while i < x.len()
        invariant
            i <= x@.len(),
            out@ == mid + x@.subrange(0, i as int),
        decreases x@.len() - i,
    {
        out.push(x[i]);
        i = i + 1;
        assert(out@ =~= mid + x@.subrange(0, i as int));
    }
    assert(x@.subrange(0, x@.len() as int) =~= x@);
    assert(out@ =~= old(out)@ + field(x@));
}

/// Encodes a record.
pub fn encode_fields(l: &Vec<Vec<u8>>) -> (r: Vec<u8>)
    ensures
        r@ == fields(views(l@)),
{
    let mut out: Vec<u8> = Vec::new();
    let mut i: usize = 0;
    assert(views(l@).subrange(0, 0) =~= Seq::<Seq<u8>>::empty());
    while i < l.len()
        invariant
            i <= l@.len(),
            out@ == fields(views(l@).subrange(0, i as int)),
        decreases l@.len() - i,
    {
        assert(views(l@)[i as int] == l@[i as int]@);
        push_field(&mut out, l[i].as_slice());
        proof {
            lemma_fields_push(views(l@).subrange(0, i as int), l@[i as int]@);
            assert(views(l@).subrange(0, i as int).push(l@[i as int]@) =~= views(l@).subrange(
                0,
                i + 1,
            ));
        }
        i = i + 1;
    }
    assert(views(l@).subrange(0, l@.len() as int) =~= views(l@));
    out
}

/// Decodes a record; `None` where `s` is not a sequence of whole fields.
pub fn decode_fields(s: &[u8]) -> (r: Option<Vec<Vec<u8>>>)
    ensures
        match r {
            Some(l) => parse_fields(s@) == Some(views(l@)),
            None => parse_fields(s@) is None,
        },
{
    let mut out: Vec<Vec<u8>> = Vec::new();
    let mut pos: usize = 0;
    proof {
        lemma_pow256_values();
    }
    assert(s@.subrange(0, s@.len() as int) =~= s@);
    while pos < s.len()
        invariant
            pos <= s@.len(),
            pow256(8) == 0x1_0000_0000_0000_0000,
            parse_fields(s@) == match parse_fields(s@.subrange(pos as int, s@.len() as int)) {
                Some(t) => Some(views(out@) + t),
                None => None::<Seq<Seq<u8>>>,
            },
        decreases s@.len() - pos,
    {
        let ghost cur = s@.subrange(pos as int, s@.len() as int);
        if s.len() - pos < 8 {
            return None;
        }
        let n = read_le(s, pos, 8);
        proof {
            assert(cur.subrange(0, 8) =~= s@.subrange(pos as int, pos + 8));
            lemma_le_value_bound(s@.subrange(pos as int, pos + 8));
        }
        if n > (s.len() - pos - 8) as u128 {
            return None;
        }
        let n = n as usize;
        let mut x: Vec<u8> = Vec::new();
        let mut j: usize = 0;
        while j < n
            invariant
                j <= n,
                pos + 8 + n <= s.len(),
                x@ == s@.subrange(pos + 8, pos + 8 + j),
            decreases n - j,
        {
            x.push(s[pos + 8 + j]);
            j = j + 1;
            assert(x@ =~= s@.subrange(pos + 8, pos + 8 + j));
        }
        proof {
            assert(cur.subrange(8, 8 + n) =~= x@);
            let next = s@.subrange(pos + 8 + n, s@.len() as int);
            assert(cur.subrange(8 + n, cur.len() as int) =~= next);
            assert(views(out@.push(x)) =~= views(out@).push(x@));
            match parse_fields(next) {
                Some(t) => {
                    assert(views(out@) + (seq![x@] + t) =~= views(out@).push(x@) + t);
                },
                None => {},
            }
        }
        out.push(x);
        pos = pos + 8 + n;
    }
    assert(s@.subrange(pos as int, s@.len() as int) =~= Seq::<u8>::empty());
    assert(views(out@) + Seq::<Seq<u8>>::empty() =~= views(out@));
    Some(out)
}

// ---------------------------------------------------------------------------
// Byte strings
// ---------------------------------------------------------------------------

/// Compares two byte strings.
pub fn bytes_eq(a: &[u8], b: &[u8]) -> (r: bool)
    ensures
        r == (a@ == b@),
{
    if a.len() != b.len() {
        return false;
    }
    let mut i: usize = 0;
    while i < a.len()
        invariant
            i <= a@.len(),
            a@.len() == b@.len(),
            forall|j: int| 0 <= j < i ==> a@[j] == b@[j],
        decreases a@.len() - i,
    {
        if a[i] != b[i] {
            return false;
        }
        i = i + 1;
    }
    assert(a@ =~= b@);
    true
}

/// Lexicographic order of byte strings (the order of `Vec<u8>` and of `str`).
pub open spec fn bytes_lt(a: Seq<u8>, b: Seq<u8>) -> bool
    decreases a.len(),
{
    if a.len() == 0 {
        b.len() > 0
    } else if b.len() == 0 {
        false
    } else if a[0] != b[0] {
        a[0] < b[0]
    } else {
        bytes_lt(a.drop_first(), b.drop_first())
    }
}

/// Two different byte strings are ordered one way or the other.
pub proof fn lemma_bytes_lt_total(a: Seq<u8>, b: Seq<u8>)
    requires
        a != b,
    ensures
        bytes_lt(a, b) || bytes_lt(b, a),
    decreases a.len(),
{
    if a.len() == 0 {
        assert(b.len() > 0) by {
            if b.len() == 0 {
                assert(a =~= b);
            }
        }
    } else if b.len() == 0 {
    } else if a[0] == b[0] {
        if a.drop_first() == b.drop_first() {
            assert(a =~= seq![a[0]] + a.drop_first());
            assert(b =~= seq![b[0]] + b.drop_first());
        }
        lemma_bytes_lt_total(a.drop_first(), b.drop_first());
    }
}

/// The order of byte strings is transitive.
pub proof fn lemma_bytes_lt_trans(a: Seq<u8>, b: Seq<u8>, c: Seq<u8>)
    requires
        bytes_lt(a, b),
        bytes_lt(b, c),
    ensures
        bytes_lt(a, c),
    decreases a.len(),
{
    if a.len() > 0 && b.len() > 0 && c.len() > 0 && a[0] == b[0] && b[0] == c[0] {
        lemma_bytes_lt_trans(a.drop_first(), b.drop_first(), c.drop_first());
    }
}

/// A byte string never comes before itself.
pub proof fn lemma_bytes_lt_irreflexive(a: Seq<u8>)
    ensures
        !bytes_lt(a, a),
    decreases a.len(),
{
    if a.len() > 0 {
        lemma_bytes_lt_irreflexive(a.drop_first());
    }
}

/// Copies a slice into a new vector.
pub fn to_vec(s: &[u8]) -> (r: Vec<u8>)
    ensures
        r@ == s@,
{
    let mut out: Vec<u8> = Vec::new();
    let mut i: usize = 0;
    while i < s.len()
        invariant
            i <= s@.len(),
            out@ == s@.subrange(0, i as int),
        decreases s@.len() - i,
    {
        out.push(s[i]);
        i = i + 1;
        assert(out@ =~= s@.subrange(0, i as int));
    }
    assert(s@.subrange(0, s@.len() as int) =~= s@);
    out
}

/// Appends a slice.
pub fn extend(out: &mut Vec<u8>, s: &[u8])
    ensures
        final(out)@ == old(out)@ + s@,
{
    let mut i: usize = 0;
    while i < s.len()
        invariant
            i <= s@.len(),
            out@ == old(out)@ + s@.subrange(0, i as int),
        decreases s@.len() - i,
    {
        out.push(s[i]);
        i = i + 1;
        assert(out@ =~= old(out)@ + s@.subrange(0, i as int));
    }
    assert(s@.subrange(0, s@.len() as int) =~= s@);
}


/// The first `n` bytes of `s`.
pub fn prefix(s: &[u8], n: usize) -> (r: Vec<u8>)
    requires
        n <= s@.len(),
    ensures
        r@ == s@.subrange(0, n as int),
{
    let mut out: Vec<u8> = Vec::new();
    let mut i: usize = 0;
    while i < n
        invariant
            i <= n <= s@.len(),
            out@ == s@.subrange(0, i as int),
        decreases n - i,
    {
        out.push(s[i]);
        i = i + 1;
        assert(out@ =~= s@.subrange(0, i as int));
    }
    out
}

} // verus!
