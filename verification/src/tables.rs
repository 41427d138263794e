//! Typed views of byte tables, and the little-endian numbers and strings that
//! values are stored as.
use vstd::prelude::*;
use vstd::utf8::*;
use crate::codec::{le_bytes, le_value, pow256, lemma_le_value_bound, lemma_pow256_monotone, lemma_pow256_values, lemma_le_roundtrip, push_le, read_le};
use crate::text::utf8_string;
use crate::codec::{fields, parse_fields, views, encode_fields, decode_fields};
use crate::stable::{ByteTable, byte_table_contents, byte_table_get, byte_table_insert, byte_table_entries};

verus! {

/// The entries of a byte table whose keys are encodings of good keys, each
/// value read through a decoder.
pub open spec fn decoded<K, V>(
    raw: Map<Seq<u8>, Seq<u8>>,
    ok: spec_fn(K) -> bool,
    key: spec_fn(K) -> Seq<u8>,
    val: spec_fn(Seq<u8>) -> V,
) -> Map<K, V> {
    Map::new(|k: K| ok(k) && raw.contains_key(key(k)), |k: K| val(raw[key(k)]))
}

/// No two good keys have the same encoding.
pub open spec fn injective_on<K>(ok: spec_fn(K) -> bool, key: spec_fn(K) -> Seq<u8>) -> bool {
    forall|a: K, b: K| ok(a) && ok(b) && #[trigger] key(a) == #[trigger] key(b) ==> a == b
}

pub proof fn lemma_decoded_insert<K, V>(
    raw: Map<Seq<u8>, Seq<u8>>,
    ok: spec_fn(K) -> bool,
    key: spec_fn(K) -> Seq<u8>,
    val: spec_fn(Seq<u8>) -> V,
    k: K,
    v: Seq<u8>,
)
    requires
        injective_on(ok, key),
        ok(k),
    ensures
        decoded(raw.insert(key(k), v), ok, key, val) == decoded(raw, ok, key, val).insert(k, val(v)),
{
    let a = decoded(raw.insert(key(k), v), ok, key, val);
    let b = decoded(raw, ok, key, val).insert(k, val(v));
    assert forall|j: K| #[trigger] a.contains_key(j) == b.contains_key(j) by {
        if ok(j) && key(j) == key(k) {
            assert(j == k);
        }
    }
    assert forall|j: K| a.contains_key(j) implies #[trigger] a[j] == b[j] by {
        if key(j) == key(k) {
            assert(j == k);
        }
    }
    assert(a =~= b);
}

pub proof fn lemma_decoded_remove<K, V>(
    raw: Map<Seq<u8>, Seq<u8>>,
    ok: spec_fn(K) -> bool,
    key: spec_fn(K) -> Seq<u8>,
    val: spec_fn(Seq<u8>) -> V,
    k: K,
)
    requires
        injective_on(ok, key),
        ok(k),
    ensures
        decoded(raw.remove(key(k)), ok, key, val) == decoded(raw, ok, key, val).remove(k),
{
    let a = decoded(raw.remove(key(k)), ok, key, val);
    let b = decoded(raw, ok, key, val).remove(k);
    assert forall|j: K| #[trigger] a.contains_key(j) == b.contains_key(j) by {
        if ok(j) && key(j) == key(k) {
            assert(j == k);
        }
    }
    assert(a =~= b);
}

pub proof fn lemma_decoded_empty<K, V>(
    ok: spec_fn(K) -> bool,
    key: spec_fn(K) -> Seq<u8>,
    val: spec_fn(Seq<u8>) -> V,
)
    ensures
        decoded(Map::<Seq<u8>, Seq<u8>>::empty(), ok, key, val) == Map::<K, V>::empty(),
{
    assert(decoded(Map::<Seq<u8>, Seq<u8>>::empty(), ok, key, val) =~= Map::<K, V>::empty());
}

/// A finite table has finitely many typed entries.
pub proof fn lemma_decoded_finite<K, V>(
    raw: Map<Seq<u8>, Seq<u8>>,
    ok: spec_fn(K) -> bool,
    key: spec_fn(K) -> Seq<u8>,
    val: spec_fn(Seq<u8>) -> V,
)
    requires
        raw.dom().finite(),
        injective_on(ok, key),
    ensures
        decoded(raw, ok, key, val).dom().finite(),
    decreases raw.dom().len(),
{
    let y = decoded(raw, ok, key, val).dom();
    if raw.dom().len() == 0 {
        assert(y =~= Set::<K>::empty()) by {
            assert forall|k: K| !#[trigger] y.contains(k) by {
                if y.contains(k) {
                    assert(raw.dom().contains(key(k)));
                }
            }
        }
    } else {
        let b = raw.dom().choose();
        let rest = raw.remove(b);
        assert(rest.dom() =~= raw.dom().remove(b));
        lemma_decoded_finite(rest, ok, key, val);
        let y2 = decoded(rest, ok, key, val).dom();
        if exists|k: K| ok(k) && #[trigger] key(k) == b {
            let k = choose|k: K| ok(k) && #[trigger] key(k) == b;
            assert(y =~= y2.insert(k)) by {
                assert forall|j: K| y.contains(j) implies #[trigger] y2.insert(k).contains(j) by {
                    if key(j) == b {
                        assert(j == k);
                    }
                }
            }
        } else {
            assert(y =~= y2);
        }
    }
}

/// A finite table whose raw keys are all encodings of good keys, `dec`
/// giving each back, has as many typed entries as raw ones.
pub proof fn lemma_decoded_len<K, V>(
    raw: Map<Seq<u8>, Seq<u8>>,
    ok: spec_fn(K) -> bool,
    key: spec_fn(K) -> Seq<u8>,
    val: spec_fn(Seq<u8>) -> V,
    dec: spec_fn(Seq<u8>) -> K,
)
    requires
        raw.dom().finite(),
        injective_on(ok, key),
        forall|b: Seq<u8>| #[trigger] raw.contains_key(b) ==> ok(dec(b)) && key(dec(b)) == b,
    ensures
        decoded(raw, ok, key, val).dom().finite(),
        decoded(raw, ok, key, val).len() == raw.len(),
{
    let y = decoded(raw, ok, key, val).dom();
    let x = raw.dom();
    assert forall|a: Seq<u8>, b: Seq<u8>|
        x.contains(a) && x.contains(b) && #[trigger] dec(a) == #[trigger] dec(b) implies a == b by {
        assert(key(dec(a)) == a);
        assert(key(dec(b)) == b);
    }
    assert(vstd::relations::injective_on(dec, x));
    assert forall|k: K| #[trigger] y.contains(k) implies x.map(dec).contains(k) by {
        let b = key(k);
        assert(x.contains(b));
        assert(ok(dec(b)) && key(dec(b)) == b);
        assert(dec(b) == k);
    }
    assert forall|k: K| #[trigger] x.map(dec).contains(k) implies y.contains(k) by {
        let b = choose|b: Seq<u8>| x.contains(b) && dec(b) == k;
        assert(ok(dec(b)) && key(dec(b)) == b);
    }
    assert(x.map(dec) =~= y);
    vstd::set_lib::lemma_map_size(x, y, dec);
}

// ---------------------------------------------------------------------------
// Numbers
// ---------------------------------------------------------------------------

/// The number stored in `b`: the first `n` bytes little-endian (all of them
/// when there are fewer).
pub open spec fn le_prefix(b: Seq<u8>, n: nat) -> nat {
    if b.len() >= n {
        le_value(b.subrange(0, n as int))
    } else {
        le_value(b)
    }
}

pub open spec fn u128_of(b: Seq<u8>) -> u128 {
    le_prefix(b, 16) as u128
}

pub open spec fn u64_of(b: Seq<u8>) -> u64 {
    le_prefix(b, 8) as u64
}

pub open spec fn u32_of(b: Seq<u8>) -> u32 {
    le_prefix(b, 4) as u32
}

pub open spec fn u128_bytes(x: u128) -> Seq<u8> {
    le_bytes(x as nat, 16)
}

pub open spec fn u64_bytes(x: u64) -> Seq<u8> {
    le_bytes(x as nat, 8)
}

pub open spec fn u32_bytes(x: u32) -> Seq<u8> {
    le_bytes(x as nat, 4)
}

pub proof fn lemma_le_prefix_bound(b: Seq<u8>, n: nat)
    ensures
        le_prefix(b, n) < pow256(n),
{
    if b.len() >= n {
        lemma_le_value_bound(b.subrange(0, n as int));
    } else {
        lemma_le_value_bound(b);
        lemma_pow256_monotone(b.len(), n);
    }
}

pub proof fn lemma_numbers_roundtrip(a: u128, b: u64, c: u32)
    ensures
        u128_of(u128_bytes(a)) == a,
        u64_of(u64_bytes(b)) == b,
        u32_of(u32_bytes(c)) == c,
        u128_bytes(a).len() == 16,
        u64_bytes(b).len() == 8,
        u32_bytes(c).len() == 4,
{
    lemma_pow256_values();
    lemma_le_roundtrip(a as nat, 16);
    lemma_le_roundtrip(b as nat, 8);
    lemma_le_roundtrip(c as nat, 4);
    assert(u128_bytes(a).subrange(0, 16) =~= u128_bytes(a));
    assert(u64_bytes(b).subrange(0, 8) =~= u64_bytes(b));
    assert(u32_bytes(c).subrange(0, 4) =~= u32_bytes(c));
}

pub fn encode_u128(x: u128) -> (r: Vec<u8>)
    ensures
        r@ == u128_bytes(x),
{
    let mut out: Vec<u8> = Vec::new();
    push_le(&mut out, x, 16);
    assert(out@ =~= u128_bytes(x));
    out
}

pub fn encode_u64(x: u64) -> (r: Vec<u8>)
    ensures
        r@ == u64_bytes(x),
{
    let mut out: Vec<u8> = Vec::new();
    push_le(&mut out, x as u128, 8);
    assert(out@ =~= u64_bytes(x));
    out
}

pub fn encode_u32(x: u32) -> (r: Vec<u8>)
    ensures
        r@ == u32_bytes(x),
{
    let mut out: Vec<u8> = Vec::new();
    push_le(&mut out, x as u128, 4);
    assert(out@ =~= u32_bytes(x));
    out
}

fn read_prefix(b: &[u8], n: usize) -> (r: u128)
    requires
        n <= 16,
    ensures
        r as nat == le_prefix(b@, n as nat),
{
    if b.len() >= n {
        read_le(b, 0, n)
    } else {
        let r = read_le(b, 0, b.len());
        assert(b@.subrange(0, b@.len() as int) =~= b@);
        r
    }
}

pub fn decode_u128(b: &[u8]) -> (r: u128)
    ensures
        r == u128_of(b@),
{
    proof {
        lemma_le_prefix_bound(b@, 16);
        lemma_pow256_values();
    }
    read_prefix(b, 16)
}

pub fn decode_u64(b: &[u8]) -> (r: u64)
    ensures
        r == u64_of(b@),
{
    proof {
        lemma_le_prefix_bound(b@, 8);
        lemma_pow256_values();
    }
    read_prefix(b, 8) as u64
}

pub fn decode_u32(b: &[u8]) -> (r: u32)
    ensures
        r == u32_of(b@),
{
    proof {
        lemma_le_prefix_bound(b@, 4);
        lemma_pow256_values();
    }
    read_prefix(b, 4) as u32
}

// ---------------------------------------------------------------------------
// Strings
// ---------------------------------------------------------------------------

/// The string that UTF-8 bytes encode; the empty string where they are not
/// UTF-8.
pub open spec fn string_of(b: Seq<u8>) -> Seq<char> {
    if valid_utf8(b) {
        decode_utf8(b)
    } else {
        Seq::empty()
    }
}

pub proof fn lemma_string_roundtrip(s: Seq<char>)
    ensures
        string_of(encode_utf8(s)) == s,
{
    encode_utf8_valid_utf8(s);
    encode_utf8_decode_utf8(s);
}

pub proof fn lemma_encode_utf8_injective(a: Seq<char>, b: Seq<char>)
    requires
        encode_utf8(a) == encode_utf8(b),
    ensures
        a == b,
{
    lemma_string_roundtrip(a);
    lemma_string_roundtrip(b);
}

pub fn decode_string(b: &[u8]) -> (r: String)
    ensures
        r@ == string_of(b@),
{
    match utf8_string(b) {
        Some(s) => s,
        None => String::new(),
    }
}


// ---------------------------------------------------------------------------
// Saved settings
// ---------------------------------------------------------------------------

/// The key under which a settings table holds its record.
pub open spec fn settings_key() -> Seq<u8> {
    Seq::empty()
}

/// The record held under the settings key, where there is one and it splits
/// into `n` fields.
pub open spec fn saved_record(saved: Map<Seq<u8>, Seq<u8>>, n: nat) -> Option<Seq<Seq<u8>>> {
    if !saved.contains_key(settings_key()) {
        None
    } else {
        match parse_fields(saved[settings_key()]) {
            Some(l) => if l.len() == n {
                Some(l)
            } else {
                None
            },
            None => None,
        }
    }
}

/// Puts the record of fields `l` under the settings key.
pub fn write_record(t: &mut ByteTable, l: &Vec<Vec<u8>>)
    ensures
        byte_table_contents(*final(t)) == byte_table_contents(*old(t)).insert(
            settings_key(),
            fields(views(l@)),
        ),
{
    let bytes = encode_fields(l);
    let key: Vec<u8> = Vec::new();
    assert(key@ =~= settings_key());
    byte_table_insert(t, key, bytes);
}

/// Reads back the record of `n` fields held under the settings key.
pub fn read_record(t: &ByteTable, n: usize) -> (r: Option<Vec<Vec<u8>>>)
    ensures
        match r {
            Some(l) => saved_record(byte_table_contents(*t), n as nat) == Some(views(l@)),
            None => saved_record(byte_table_contents(*t), n as nat) is None,
        },
{
    let key: Vec<u8> = Vec::new();
    assert(key@ =~= settings_key());
    match byte_table_get(t, &key) {
        None => None,
        Some(b) => match decode_fields(b.as_slice()) {
            None => None,
            Some(l) => {
                if l.len() == n {
                    Some(l)
                } else {
                    None
                }
            },
        },
    }
}

/// A record written is read back whole.
pub proof fn lemma_record_roundtrip(saved: Map<Seq<u8>, Seq<u8>>, l: Seq<Seq<u8>>)
    requires
        crate::codec::fields_fit(l),
    ensures
        saved_record(saved.insert(settings_key(), fields(l)), l.len()) == Some(l),
{
    crate::codec::lemma_fields_roundtrip(l);
}


/// Whether every entry of a table has the property `p`, `f` telling it for
/// one entry.
pub fn all_entries<F: Fn(&Vec<u8>, &Vec<u8>) -> bool>(
    t: &ByteTable,
    f: F,
    Ghost(p): Ghost<spec_fn(Seq<u8>, Seq<u8>) -> bool>,
) -> (r: bool)
    requires
        forall|k: &Vec<u8>, v: &Vec<u8>| #[trigger] f.requires((k, v)),
        forall|k: &Vec<u8>, v: &Vec<u8>, b: bool| #[trigger] f.ensures((k, v), b) ==> b == p(k@, v@),
    ensures
        r == forall|k: Seq<u8>| #[trigger] byte_table_contents(*t).contains_key(k) ==> p(
            k,
            byte_table_contents(*t)[k],
        ),
{
    let entries = byte_table_entries(t);
    let ghost raw = byte_table_contents(*t);
    let mut i: usize = 0;
    while i < entries.len()
        invariant
            i <= entries@.len(),
            raw == byte_table_contents(*t),
            forall|k: &Vec<u8>, v: &Vec<u8>| #[trigger] f.requires((k, v)),
            forall|k: &Vec<u8>, v: &Vec<u8>, b: bool| #[trigger] f.ensures((k, v), b) ==> b == p(k@, v@),
            forall|j: int|
                0 <= j < entries@.len() ==> raw.contains_key(#[trigger] entries@[j].0@) && raw[entries@[j].0@]
                    == entries@[j].1@,
            forall|k: Seq<u8>|
                raw.contains_key(k) ==> exists|j: int| 0 <= j < entries@.len() && #[trigger] entries@[j].0@ == k,
            forall|j: int| 0 <= j < i ==> p(#[trigger] entries@[j].0@, raw[entries@[j].0@]),
        decreases entries@.len() - i,
    {
        let ok = f(&entries[i].0, &entries[i].1);
        if !ok {
            assert(raw.contains_key(entries@[i as int].0@));
            return false;
        }
        i = i + 1;
    }
    assert forall|k: Seq<u8>| #[trigger] raw.contains_key(k) implies p(k, raw[k]) by {
        let j = choose|j: int| 0 <= j < entries@.len() && #[trigger] entries@[j].0@ == k;
        assert(p(entries@[j].0@, raw[entries@[j].0@]));
    }
    true
}

/// Whether bytes are UTF-8.
pub fn is_utf8(b: &Vec<u8>) -> (r: bool)
    ensures
        r == valid_utf8(b@),
{
    utf8_string(b.as_slice()).is_some()
}

} // verus!
