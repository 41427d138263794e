//! Principals and ICRC-1 accounts, and the byte keys under which accounts are
//! stored.
use vstd::prelude::*;
use crate::codec::{bytes_eq, extend, to_vec};

verus! {

/// The bytes of the anonymous principal (`2vxsx-fae`).
pub open spec fn anonymous_principal() -> Seq<u8> {
    seq![4u8]
}

/// The bytes of the anonymous principal.
pub fn anonymous() -> (r: Vec<u8>)
    ensures
        r@ == anonymous_principal(),
{
    let mut v: Vec<u8> = Vec::new();
    v.push(4u8);
    assert(v@ =~= anonymous_principal());
    v
}

/// An ICRC-1 account: a principal (its bytes, at most 29) and an optional
/// 32-byte subaccount.
#[derive(Clone, Debug)]
pub struct Account {
    pub owner: Vec<u8>,
    pub subaccount: Option<[u8; 32]>,
}

/// An account as plain values.
pub struct AccountView {
    pub owner: Seq<u8>,
    pub subaccount: Option<Seq<u8>>,
}

pub open spec fn sub_view(s: Option<[u8; 32]>) -> Option<Seq<u8>> {
    match s {
        Some(a) => Some(a@),
        None => None,
    }
}

impl View for Account {
    type V = AccountView;

    open spec fn view(&self) -> AccountView {
        AccountView { owner: self.owner@, subaccount: sub_view(self.subaccount) }
    }
}

/// The owner is short enough to be a principal.
pub open spec fn account_ok(a: AccountView) -> bool {
    &&& a.owner.len() <= 29
    &&& match a.subaccount {
        Some(s) => s.len() == 32,
        None => true,
    }
}

/// The key of an account: the owner's length and bytes, then `0`, or `1` and
/// the subaccount.
pub open spec fn account_key(a: AccountView) -> Seq<u8> {
    seq![a.owner.len() as u8] + a.owner + match a.subaccount {
        None => seq![0u8],
        Some(s) => seq![1u8] + s,
    }
}

/// Reads an account key off the front of `s`.
pub open spec fn parse_account(s: Seq<u8>) -> Option<(AccountView, Seq<u8>)> {
    if s.len() == 0 {
        None
    } else {
        let n = s[0] as int;
        if n > 29 || s.len() < n + 2 {
            None
        } else {
            let owner = s.subrange(1, 1 + n);
            let tag = s[1 + n];
            if tag == 0 {
                Some((AccountView { owner, subaccount: None }, s.subrange(2 + n, s.len() as int)))
            } else if tag == 1 && s.len() >= n + 34 {
                Some(
                    (
                        AccountView { owner, subaccount: Some(s.subrange(2 + n, 34 + n)) },
                        s.subrange(34 + n, s.len() as int),
                    ),
                )
            } else {
                None
            }
        }
    }
}

/// Reading a key gives back its account, and what followed it.
pub proof fn lemma_parse_account(a: AccountView, rest: Seq<u8>)
    requires
        account_ok(a),
    ensures
        parse_account(account_key(a) + rest) == Some((a, rest)),
{
    let s = account_key(a) + rest;
    let n = a.owner.len() as int;
    assert(s[0] as int == n);
    assert(s.subrange(1, 1 + n) =~= a.owner);
    match a.subaccount {
        None => {
            assert(s[1 + n] == 0);
            assert(s.subrange(2 + n, s.len() as int) =~= rest);
        },
        Some(sub) => {
            assert(s[1 + n] == 1);
            assert(s.subrange(2 + n, 34 + n) =~= sub);
            assert(s.subrange(34 + n, s.len() as int) =~= rest);
        },
    }
}

/// Two accounts have the same key only if they are the same account; no key
/// is the beginning of another.
pub proof fn lemma_account_key_injective(a: AccountView, b: AccountView, x: Seq<u8>, y: Seq<u8>)
    requires
        account_ok(a),
        account_ok(b),
        account_key(a) + x == account_key(b) + y,
    ensures
        a == b,
        x == y,
{
    lemma_parse_account(a, x);
    lemma_parse_account(b, y);
}

pub proof fn lemma_account_key_injective1(a: AccountView, b: AccountView)
    requires
        account_ok(a),
        account_ok(b),
        account_key(a) == account_key(b),
    ensures
        a == b,
{
    assert(account_key(a) + Seq::<u8>::empty() =~= account_key(a));
    assert(account_key(b) + Seq::<u8>::empty() =~= account_key(b));
    lemma_account_key_injective(a, b, Seq::empty(), Seq::empty());
}

/// Appends the key of `a`.
pub fn push_account_key(out: &mut Vec<u8>, a: &Account)
    requires
        account_ok(a@),
    ensures
        final(out)@ == old(out)@ + account_key(a@),
{
    out.push(a.owner.len() as u8);
    extend(out, a.owner.as_slice());
    match &a.subaccount {
        None => {
            out.push(0u8);
        },
        Some(s) => {
            out.push(1u8);
            extend(out, s.as_slice());
        },
    }
    assert(out@ =~= old(out)@ + account_key(a@));
}

/// The key of an account.
pub fn account_key_of(a: &Account) -> (r: Vec<u8>)
    requires
        account_ok(a@),
    ensures
        r@ == account_key(a@),
{
    let mut out: Vec<u8> = Vec::new();
    push_account_key(&mut out, a);
    assert(out@ =~= account_key(a@));
    out
}

/// Reads an account key at `s[start..]`: the account and where the key ends.
pub fn read_account(s: &[u8], start: usize) -> (r: Option<(Account, usize)>)
    requires
        start <= s@.len(),
    ensures
        match r {
            Some((a, end)) => start <= end <= s@.len() && parse_account(
                s@.subrange(start as int, s@.len() as int),
            ) == Some((a@, s@.subrange(end as int, s@.len() as int))),
            None => parse_account(s@.subrange(start as int, s@.len() as int)) is None,
        },
{
    let ghost t = s@.subrange(start as int, s@.len() as int);
    if start >= s.len() {
        return None;
    }
    let n = s[start] as usize;
    assert(t[0] as int == n);
    if n > 29 || s.len() - start < n + 2 {
        return None;
    }
    let mut owner: Vec<u8> = Vec::new();
    let mut i: usize = 0;
    while i < n
        invariant
            i <= n <= 29,
            start + n + 2 <= s.len(),
            owner@ == s@.subrange(start + 1, start + 1 + i),
        decreases n - i,
    {
        owner.push(s[start + 1 + i]);
        i = i + 1;
        assert(owner@ =~= s@.subrange(start + 1, start + 1 + i));
    }
    assert(t.subrange(1, 1 + n) =~= owner@);
    let tag = s[start + 1 + n];
    assert(t[1 + n] == tag);
    if tag == 0 {
        assert(t.subrange(2 + n, t.len() as int) =~= s@.subrange(start + 2 + n, s@.len() as int));
        let a = Account { owner, subaccount: None };
        return Some((a, start + 2 + n));
    }
    if tag != 1 || s.len() - start < n + 34 {
        return None;
    }
    let mut sub = [0u8; 32];
    let mut j: usize = 0;
    while j < 32
        invariant
            j <= 32,
            start + n + 34 <= s.len(),
            forall|k: int| 0 <= k < j ==> sub@[k] == s@[start + 2 + n + k],
        decreases 32 - j,
    {
        sub[j] = s[start + 2 + n + j];
        j = j + 1;
    }
    assert(sub@ =~= t.subrange(2 + n, 34 + n));
    assert(t.subrange(34 + n, t.len() as int) =~= s@.subrange(start + 34 + n, s@.len() as int));
    let a = Account { owner, subaccount: Some(sub) };
    Some((a, start + 34 + n))
}

/// Whether the account's subaccount is the given one.
pub fn has_subaccount(a: &Account, sub: &[u8; 32]) -> (r: bool)
    ensures
        r == (a@.subaccount == Some(sub@)),
{
    match &a.subaccount {
        None => false,
        Some(s) => bytes_eq(s.as_slice(), sub.as_slice()),
    }
}

/// A copy of the account.
pub fn copy_account(a: &Account) -> (r: Account)
    ensures
        r@ == a@,
{
    Account { owner: to_vec(a.owner.as_slice()), subaccount: a.subaccount }
}

} // verus!
