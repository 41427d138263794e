//! Principals: their table keys, and the test that tells an Internet Identity
//! principal from a test or mock one by its bytes and its textual form.
use vstd::prelude::*;
use vstd::utf8::encode_utf8;
use crate::account::anonymous_principal;
use crate::codec::bytes_eq;

verus! {

/// The table key of a principal of at most 29 bytes: its length, then its
/// bytes padded with zeros to 29. Keys compare as principals do: by length,
/// then by the padded bytes.
pub open spec fn principal_key(p: Seq<u8>) -> Seq<u8> {
    seq![p.len() as u8] + p + Seq::new((29 - p.len()) as nat, |i: int| 0u8)
}

pub proof fn lemma_principal_key_injective(a: Seq<u8>, b: Seq<u8>)
    requires
        a.len() <= 29,
        b.len() <= 29,
        principal_key(a) == principal_key(b),
    ensures
        a == b,
{
    assert(principal_key(a)[0] == a.len() as u8);
    assert(principal_key(b)[0] == b.len() as u8);
    assert(a.len() == b.len());
    assert forall|i: int| 0 <= i < a.len() implies a[i] == b[i] by {
        assert(principal_key(a)[i + 1] == a[i]);
        assert(principal_key(b)[i + 1] == b[i]);
    }
    assert(a =~= b);
}

/// The table key of a principal.
pub fn principal_key_of(p: &[u8]) -> (r: Vec<u8>)
    requires
        p@.len() <= 29,
    ensures
        r@ == principal_key(p@),
{
    let mut out: Vec<u8> = Vec::new();
    out.push(p.len() as u8);
    crate::codec::extend(&mut out, p);
    let mut i: usize = p.len();
    while i < 29
        invariant
            p@.len() <= i <= 29,
            out@ == seq![p@.len() as u8] + p@ + Seq::new((i - p@.len()) as nat, |j: int| 0u8),
        decreases 29 - i,
    {
        out.push(0);
        i = i + 1;
        assert(out@ =~= seq![p@.len() as u8] + p@ + Seq::new((i - p@.len()) as nat, |j: int| 0u8));
    }
    out
}

// ---------------------------------------------------------------------------
// Textual form
// ---------------------------------------------------------------------------

/// The pieces of `b` between the bytes `-`, as `str::split('-')` gives them
/// (an empty text gives one empty piece).
pub open spec fn dash_segments(b: Seq<u8>) -> Seq<Seq<u8>>
    decreases b.len(),
{
    if b.len() == 0 {
        seq![Seq::<u8>::empty()]
    } else {
        let p = dash_segments(b.drop_last());
        if b.last() == 45 {
            p.push(Seq::empty())
        } else {
            p.update(p.len() - 1, p.last().push(b.last()))
        }
    }
}

pub proof fn lemma_dash_segments_nonempty(b: Seq<u8>)
    ensures
        dash_segments(b).len() >= 1,
    decreases b.len(),
{
    if b.len() > 0 {
        lemma_dash_segments_nonempty(b.drop_last());
    }
}

/// A lowercase ASCII letter or a digit.
pub open spec fn is_lower_alnum(c: u8) -> bool {
    (97 <= c <= 122) || (48 <= c <= 57)
}

/// A well-formed piece of principal text: one to five lowercase letters or
/// digits.
pub open spec fn segment_ok(s: Seq<u8>) -> bool {
    &&& 0 < s.len() <= 5
    &&& forall|i: int| 0 <= i < s.len() ==> #[trigger] is_lower_alnum(s[i])
}

/// A piece that looks like test data: at least three bytes, all `a`.
pub open spec fn segment_repeated(s: Seq<u8>) -> bool {
    s.len() >= 3 && forall|i: int| 0 <= i < s.len() ==> #[trigger] s[i] == 97
}

/// How many pieces look like test data.
pub open spec fn repeated_count(segs: Seq<Seq<u8>>) -> nat
    decreases segs.len(),
{
    if segs.len() == 0 {
        0
    } else {
        repeated_count(segs.drop_last()) + if segment_repeated(segs.last()) {
            1nat
        } else {
            0nat
        }
    }
}

/// The text of the management canister.
pub open spec fn management_text() -> Seq<u8> {
    encode_utf8("aaaaa-aa"@)
}

/// Whether a principal passes as an Internet Identity principal, given
/// whether it is trusted and the bytes of its textual form: not the
/// anonymous principal; trusted ones pass; otherwise not the management
/// canister, a text of 10 to 63 bytes with a hyphen, every piece between
/// hyphens well formed, and, for a 29-byte principal ending in 2, no more
/// than half the pieces looking like test data; and at least 10 bytes.
pub open spec fn ii_valid(p: Seq<u8>, trusted: bool, text: Seq<u8>) -> bool {
    let segs = dash_segments(text);
    if p == anonymous_principal() {
        false
    } else if trusted {
        true
    } else if text == management_text() {
        false
    } else if text.len() < 10 || text.len() > 63 || !text.contains(45) {
        false
    } else if !(forall|i: int| 0 <= i < segs.len() ==> #[trigger] segment_ok(segs[i])) {
        false
    } else if p.len() == 29 && p[28] == 2 && repeated_count(segs) > segs.len() / 2 {
        false
    } else {
        p.len() >= 10
    }
}

pub open spec fn seg_views(l: Seq<Vec<u8>>) -> Seq<Seq<u8>> {
    l.map_values(|v: Vec<u8>| v@)
}

/// Splits at each byte `-`.
pub fn split_dashes(b: &[u8]) -> (r: Vec<Vec<u8>>)
    ensures
        seg_views(r@) == dash_segments(b@),
{
    let mut out: Vec<Vec<u8>> = Vec::new();
    let mut cur: Vec<u8> = Vec::new();
    let mut i: usize = 0;
    assert(b@.subrange(0, 0) =~= Seq::<u8>::empty());
    assert(seg_views(out@).push(cur@) =~= dash_segments(Seq::<u8>::empty()));
    while i < b.len()
        invariant
            i <= b@.len(),
            seg_views(out@).push(cur@) == dash_segments(b@.subrange(0, i as int)),
        decreases b@.len() - i,
    {
        let ghost pre = b@.subrange(0, i as int);
        let ghost next = b@.subrange(0, i + 1);
        assert(next.drop_last() =~= pre);
        assert(next.last() == b@[i as int]);
        if b[i] == 45 {
            let done = cur;
            out.push(done);
            cur = Vec::new();
            assert(seg_views(out@).push(cur@) =~= dash_segments(pre).push(Seq::empty()));
        } else {
            let ghost before = cur@;
            cur.push(b[i]);
            proof {
                let p = dash_segments(pre);
                assert(p.last() == before);
                assert(seg_views(out@).push(cur@) =~= p.update(p.len() - 1, before.push(b@[i as int])));
            }
        }
        i = i + 1;
    }
    assert(b@.subrange(0, b@.len() as int) =~= b@);
    out.push(cur);
    assert(seg_views(out@) =~= dash_segments(b@));
    out
}

fn segment_ok_of(s: &[u8]) -> (r: bool)
    ensures
        r == segment_ok(s@),
{
    if s.len() == 0 || s.len() > 5 {
        return false;
    }
    let mut i: usize = 0;
    while i < s.len()
        invariant
            i <= s@.len(),
            forall|j: int| 0 <= j < i ==> #[trigger] is_lower_alnum(s@[j]),
        decreases s@.len() - i,
    {
        let c = s[i];
        if !((97 <= c && c <= 122) || (48 <= c && c <= 57)) {
            assert(!is_lower_alnum(s@[i as int]));
            return false;
        }
        i = i + 1;
    }
    true
}

fn segment_repeated_of(s: &[u8]) -> (r: bool)
    ensures
        r == segment_repeated(s@),
{
    if s.len() < 3 {
        return false;
    }
    let mut i: usize = 0;
    while i < s.len()
        invariant
            i <= s@.len(),
            forall|j: int| 0 <= j < i ==> #[trigger] s@[j] == 97,
        decreases s@.len() - i,
    {
        if s[i] != 97 {
            return false;
        }
        i = i + 1;
    }
    true
}

fn contains_dash(b: &[u8]) -> (r: bool)
    ensures
        r == b@.contains(45),
{
    let mut i: usize = 0;
    while i < b.len()
        invariant
            i <= b@.len(),
            forall|j: int| 0 <= j < i ==> b@[j] != 45,
        decreases b@.len() - i,
    {
        if b[i] == 45 {
            return true;
        }
        i = i + 1;
    }
    false
}

/// The Internet Identity test of `ii_valid`, on the principal's bytes,
/// whether it is trusted, and its textual form.
pub fn ii_principal_check(p: &[u8], trusted: bool, text: &str) -> (r: bool)
    ensures
        r == ii_valid(p@, trusted, encode_utf8(text@)),
{
    let b = text.as_bytes();
    let anon: [u8; 1] = [4];
    if bytes_eq(p, &anon) {
        assert(anon@ =~= anonymous_principal());
        return false;
    }
    assert(p@ != anonymous_principal()) by {
        assert(anon@ =~= anonymous_principal());
    }
    if trusted {
        return true;
    }
    let mgmt = "aaaaa-aa";
    if bytes_eq(b, mgmt.as_bytes()) {
        return false;
    }
    if b.len() < 10 || b.len() > 63 || !contains_dash(b) {
        return false;
    }
    let segs = split_dashes(b);
    let mut i: usize = 0;
    while i < segs.len()
        invariant
            i <= segs@.len(),
            seg_views(segs@) == dash_segments(b@),
            b@ == encode_utf8(text@),
            p@ != anonymous_principal(),
            !trusted,
            b@ != management_text(),
            10 <= b@.len() <= 63,
            b@.contains(45),
            forall|j: int| 0 <= j < i ==> #[trigger] segment_ok(dash_segments(b@)[j]),
        decreases segs@.len() - i,
    {
        assert(seg_views(segs@)[i as int] == segs@[i as int]@);
        if !segment_ok_of(segs[i].as_slice()) {
            assert(!segment_ok(dash_segments(b@)[i as int]));
            return false;
        }
        i = i + 1;
    }
    if p.len() == 29 && p[28] == 2 {
        let mut count: usize = 0;
        let mut k: usize = 0;
        assert(seg_views(segs@).subrange(0, 0) =~= Seq::<Seq<u8>>::empty());
        while k < segs.len()
            invariant
                k <= segs@.len(),
                count <= k,
                seg_views(segs@) == dash_segments(b@),
                b@ == encode_utf8(text@),
                p@ != anonymous_principal(),
                !trusted,
                b@ != management_text(),
                10 <= b@.len() <= 63,
                b@.contains(45),
                forall|j: int| 0 <= j < segs@.len() ==> #[trigger] segment_ok(dash_segments(b@)[j]),
                count == repeated_count(seg_views(segs@).subrange(0, k as int)),
            decreases segs@.len() - k,
        {
            let ghost pre = seg_views(segs@).subrange(0, k as int);
            let ghost next = seg_views(segs@).subrange(0, k + 1);
            assert(next.drop_last() =~= pre);
            assert(next.last() == segs@[k as int]@);
            if segment_repeated_of(segs[k].as_slice()) {
                count = count + 1;
            }
            k = k + 1;
        }
        assert(seg_views(segs@).subrange(0, segs@.len() as int) =~= seg_views(segs@));
        if count > segs.len() / 2 {
            return false;
        }
    }
    p.len() >= 10
}

} // verus!
