//! Who can open which chronolock, and the vetKD requests that give the keys
//! to do so.
//!
//! A chronolock's metadata is JSON, hex- or base64-encoded; its `lockTime`
//! (seconds) says when it opens, and its `userKeys` say for whom: `public`,
//! a user's principal, or `<principal>:<lockTime>`.
use vstd::prelude::*;
use vstd::utf8::*;
use crate::codec::to_vec;
use crate::hexnum::{hex_decoded, hex_decode, base64_decoded, base64_decode, is_hex16, hex16, parse_hex,
    parse_hex_u64, parse_error_text, IntParseError};
use crate::registry::{ChronoError, ErrView, Registry, RegistryView, Chronolock, LockView, ids_room,
    entry_views, ids_of, sorted_ids, page, page_bounds, lemma_entries_list_raw,
    lemma_sorted_text_entries, as_lock, lock_of, invalid_input};
use crate::registry_auth::{auth_spec, key_name_for, values_at};
use crate::registry_tokens::{capped, lock_views, decode_lock_bytes};
use crate::stable::{byte_table_contents, byte_table_entries};
use crate::text::{decimal, push_decimal, push_str, principal_text, principal_to_text, principal_from_text,
    principal_parse, utf8_string, string_bytes, text_eq};

verus! {

/// What access rules a chronolock's metadata gives: its `lockTime` as a
/// `u64`, and for each entry of its `userKeys` array the `user` string.
#[derive(Clone, Debug)]
pub struct AccessFields {
    pub lock_time: Option<u64>,
    pub user_keys: Option<Vec<Option<String>>>,
}

pub struct FieldsView {
    pub lock_time: Option<u64>,
    pub user_keys: Option<Seq<Option<Seq<char>>>>,
}

pub open spec fn opt_text_view(s: Option<String>) -> Option<Seq<char>> {
    match s {
        Some(x) => Some(x@),
        None => None,
    }
}

pub open spec fn key_views(l: Seq<Option<String>>) -> Seq<Option<Seq<char>>> {
    l.map_values(|s: Option<String>| opt_text_view(s))
}

impl View for AccessFields {
    type V = FieldsView;

    open spec fn view(&self) -> FieldsView {
        FieldsView {
            lock_time: self.lock_time,
            user_keys: match self.user_keys {
                Some(l) => Some(key_views(l@)),
                None => None,
            },
        }
    }
}

pub open spec fn opt_fields_view(f: Option<AccessFields>) -> Option<FieldsView> {
    match f {
        Some(x) => Some(x@),
        None => None,
    }
}

/// The access rules that `serde_json` reads in a JSON text, or `None` where
/// the text is not JSON.
pub uninterp spec fn json_access_fields(text: Seq<char>) -> Option<FieldsView>;

/// `serde_json::from_str::<serde_json::Value>`, then the `lockTime` member
/// read with `as_u64` and each `user` member of the `userKeys` array read
/// with `as_str`. The result is named, not stated.
#[verifier::external_body]
fn read_access_fields(text: &str) -> (r: Option<AccessFields>)
    ensures
        opt_fields_view(r) == json_access_fields(text@),
{
    let v: serde_json::Value = serde_json::from_str(text).ok()?;
    let lock_time = v.get("lockTime").and_then(|x| x.as_u64());
    let user_keys = v.get("userKeys").and_then(|x| x.as_array()).map(|a| {
        a.iter().map(|k| k.get("user").and_then(|u| u.as_str()).map(|s| s.to_string())).collect()
    });
    Some(AccessFields { lock_time, user_keys })
}

/// The rules in bytes that may be UTF-8 JSON.
pub open spec fn json_in(b: Option<Seq<u8>>) -> Option<FieldsView> {
    match b {
        Some(x) => if valid_utf8(x) {
            json_access_fields(decode_utf8(x))
        } else {
            None
        },
        None => None,
    }
}

/// The rules in a chronolock's metadata: read as hex first, then as base64.
pub open spec fn metadata_fields(meta: Seq<char>) -> Option<FieldsView> {
    let first = json_in(hex_decoded(encode_utf8(meta)));
    if first is Some {
        first
    } else {
        json_in(base64_decoded(encode_utf8(meta)))
    }
}

fn json_of_bytes(b: Option<Vec<u8>>) -> (r: Option<AccessFields>)
    ensures
        opt_fields_view(r) == json_in(match b {
            Some(x) => Some(x@),
            None => None,
        }),
{
    match b {
        Some(x) => match utf8_string(x.as_slice()) {
            Some(s) => read_access_fields(s.as_str()),
            None => None,
        },
        None => None,
    }
}

/// Reads the access rules of a chronolock's metadata
/// (`decode_metadata_value`).
pub fn decode_metadata_value(metadata: &str) -> (r: Option<AccessFields>)
    ensures
        opt_fields_view(r) == metadata_fields(metadata@),
{
    let hex_bytes = match hex_decode(metadata) {
        Ok(v) => Some(v),
        Err(_) => None,
    };
    let first = json_of_bytes(hex_bytes);
    if first.is_some() {
        return first;
    }
    json_of_bytes(base64_decode(metadata))
}

/// Seconds as nanoseconds, wrapping past `u64::MAX` as unchecked
/// multiplication does in a release build.
pub open spec fn nanos(secs: u64) -> u64 {
    vstd::wrapping::u64_specs::wrapping_mul(secs, 1_000_000_000)
}

/// Whether a `user` entry lets the user in: `public`, the user's text, or
/// the user's text, `:` and the lock time.
pub open spec fn user_key_matches(k: Option<Seq<char>>, user_text: Seq<char>, lock_time: u64) -> bool {
    match k {
        Some(u) => u == "public"@ || u == user_text || u == user_text + ":"@ + decimal(lock_time as nat),
        None => false,
    }
}

/// Whether rules let the user (by its text) open the chronolock at `now`
/// (nanoseconds): both a lock time and keys, the time passed, and some key
/// that matches.
pub open spec fn accessible(f: Option<FieldsView>, user_text: Seq<char>, now: u64) -> bool {
    match f {
        Some(fv) => match (fv.lock_time, fv.user_keys) {
            (Some(t), Some(keys)) => now >= nanos(t) && exists|i: int|
                0 <= i < keys.len() && user_key_matches(#[trigger] keys[i], user_text, t),
            _ => false,
        },
        None => false,
    }
}

/// The chronolocks a user can open.
pub open spec fn opens_for(user_text: Seq<char>, now: u64) -> spec_fn(LockView) -> bool {
    |l: LockView| accessible(metadata_fields(l.metadata), user_text, now)
}

/// Whether some key lets the user in.
fn any_key_matches(keys: &Vec<Option<String>>, user_text: &str, t: u64) -> (r: bool)
    ensures
        r == exists|i: int|
            0 <= i < keys@.len() && user_key_matches(
                #[trigger] key_views(keys@)[i],
                user_text@,
                t,
            ),
{
    let ghost kv = key_views(keys@);
    let mut with_time = String::new();
    push_str(&mut with_time, user_text);
    push_str(&mut with_time, ":");
    push_decimal(&mut with_time, t as u128);
    proof {
        reveal_strlit(":");
    }
    let mut i: usize = 0;
    while i < keys.len()
        invariant
            i <= keys@.len(),
            kv == key_views(keys@),
            with_time@ == user_text@ + ":"@ + decimal(t as nat),
            forall|j: int| 0 <= j < i ==> !user_key_matches(#[trigger] kv[j], user_text@, t),
        decreases keys@.len() - i,
    {
        assert(kv[i as int] == opt_text_view(keys@[i as int]));
        match &keys[i] {
            Some(u) => {
                if text_eq(u.as_str(), "public") || text_eq(u.as_str(), user_text) || text_eq(
                    u.as_str(),
                    with_time.as_str(),
                ) {
                    proof {
                        reveal_strlit("public");
                        assert(user_key_matches(kv[i as int], user_text@, t));
                    }
                    return true;
                }
            },
            None => {},
        }
        i = i + 1;
    }
    false
}

/// Whether the rules let the user in at `now`.
pub fn has_access(fields: &Option<AccessFields>, user_text: &str, now: u64) -> (r: bool)
    ensures
        r == accessible(
            match fields {
                Some(f) => Some(f@),
                None => None,
            },
            user_text@,
            now,
        ),
{
    match fields {
        None => false,
        Some(f) => match (&f.lock_time, &f.user_keys) {
            (Some(t), Some(keys)) => {
                let unlock = t.wrapping_mul(1_000_000_000);
                if now < unlock {
                    return false;
                }
                any_key_matches(keys, user_text, *t)
            },
            _ => false,
        },
    }
}

/// A request for the vetKD public key.
#[derive(Clone, Debug)]
pub struct PublicKeyRequest {
    pub context: Vec<u8>,
    pub key_name: String,
}

/// A request to derive a vetKD key for an identity, sent to the management
/// canister with a transport key.
#[derive(Clone, Debug)]
pub struct DeriveKeyRequest {
    pub input: Vec<u8>,
    pub context: Vec<u8>,
    pub transport_public_key: Vec<u8>,
    pub key_name: String,
}

/// The management canister's answer to a public-key request.
#[derive(Clone, Debug)]
pub struct VetKDPublicKeyReply {
    pub public_key: Vec<u8>,
}

/// The management canister's answer to a key derivation.
#[derive(Clone, Debug)]
pub struct VetKDDeriveKeyReply {
    pub encrypted_key: Vec<u8>,
}

/// The context of every vetKD request.
pub open spec fn key_context() -> Seq<u8> {
    encode_utf8("chronolock-encryption"@)
}

/// A derive request as plain values: input, context, transport key, key
/// name.
pub open spec fn derive_view(d: DeriveKeyRequest) -> (Seq<u8>, Seq<u8>, Seq<u8>, Seq<char>) {
    (d.input@, d.context@, d.transport_public_key@, d.key_name@)
}

pub open spec fn res_derive(r: Result<DeriveKeyRequest, ChronoError>) -> Result<(Seq<u8>, Seq<u8>, Seq<u8>, Seq<char>), ErrView> {
    match r {
        Ok(d) => Ok(derive_view(d)),
        Err(e) => Err(e@),
    }
}

/// What `get_time_decryption_key` asks for: with a transport key and a time
/// of sixteen hex digits that has passed, the key for the identity written
/// as the decimal time.
pub open spec fn time_key_spec(v: RegistryView, hex: Seq<char>, tpk: Seq<u8>, now: u64) -> Result<(Seq<u8>, Seq<u8>, Seq<u8>, Seq<char>), ErrView> {
    if tpk.len() == 0 {
        Err(ErrView::InvalidInput("Transport public key cannot be empty"@))
    } else if !is_hex16(encode_utf8(hex)) {
        Err(ErrView::InvalidInput("unlock_time_hex must be a 16-character hexadecimal string"@))
    } else {
        match parse_hex(encode_utf8(hex)) {
            Err(e) => Err(ErrView::InvalidInput("Invalid hex for unlock time: "@ + parse_error_text(e))),
            Ok(t) => if now < nanos(t) {
                Err(ErrView::TimeLocked)
            } else {
                Ok((encode_utf8(decimal(t as nat)), key_context(), tpk, key_name_for(v.network)))
            },
        }
    }
}

/// What `get_user_time_decryption_key` asks for: with a transport key, for
/// a caller who may act and is the user named, once the hex time has passed,
/// the key for the identity `<user>:<decimal time>`.
pub open spec fn user_key_spec(v: RegistryView, caller: Seq<u8>, hex: Seq<char>, user_id: Seq<char>, tpk: Seq<u8>, now: u64) -> (RegistryView, Result<(Seq<u8>, Seq<u8>, Seq<u8>, Seq<char>), ErrView>) {
    if tpk.len() == 0 {
        (v, Err(ErrView::InvalidInput("Transport public key cannot be empty"@)))
    } else {
        let (v1, a) = auth_spec(v, caller, now);
        match a {
            Err(e) => (v1, Err(e)),
            Ok(_) => match principal_from_text(user_id) {
                Err(m) => (v1, Err(ErrView::InvalidInput("Invalid user id: "@ + m))),
                Ok(p) => if caller != p {
                    (v1, Err(ErrView::Unauthorized))
                } else {
                    match parse_hex(encode_utf8(hex)) {
                        Err(e) => (v1, Err(ErrView::InvalidInput("Invalid hex: "@ + parse_error_text(e)))),
                        Ok(t) => if now < nanos(t) {
                            (v1, Err(ErrView::TimeLocked))
                        } else {
                            (
                                v1,
                                Ok(
                                    (
                                        encode_utf8(user_id + ":"@ + decimal(t as nat)),
                                        key_context(),
                                        tpk,
                                        key_name_for(v.network),
                                    ),
                                ),
                            )
                        },
                    }
                },
            },
        }
    }
}

impl Registry {
    /// The request for the vetKD public key (`ibe_encryption_key`).
    pub fn ibe_encryption_key_request(&self) -> (r: PublicKeyRequest)
        ensures
            r.context@ == key_context(),
            r.key_name@ == key_name_for(self@.network),
    {
        PublicKeyRequest { context: string_bytes("chronolock-encryption"), key_name: self.vetkd_key_name() }
    }

    /// The key derivation for a public chronolock, once its time has come
    /// (`get_time_decryption_key`).
    pub fn get_time_decryption_key(&self, unlock_time_hex: &String, transport_public_key: Vec<u8>, now: u64) -> (r: Result<DeriveKeyRequest, ChronoError>)
        ensures
            res_derive(r) == time_key_spec(self@, unlock_time_hex@, transport_public_key@, now),
    {
        if transport_public_key.len() == 0 {
            return Err(invalid_input("Transport public key cannot be empty"));
        }
        if !hex16(unlock_time_hex.as_str()) {
            return Err(invalid_input("unlock_time_hex must be a 16-character hexadecimal string"));
        }
        let t = match parse_hex_u64(unlock_time_hex.as_str()) {
            Ok(t) => t,
            Err(e) => {
                let mut m = String::new();
                push_str(&mut m, "Invalid hex for unlock time: ");
                let msg = e.message();
                push_str(&mut m, msg.as_str());
                return Err(ChronoError::InvalidInput(m));
            },
        };
        let unlock = t.wrapping_mul(1_000_000_000);
        if now < unlock {
            return Err(ChronoError::TimeLocked);
        }
        let mut identity = String::new();
        push_decimal(&mut identity, t as u128);
        Ok(DeriveKeyRequest {
            input: string_bytes(identity.as_str()),
            context: string_bytes("chronolock-encryption"),
            transport_public_key,
            key_name: self.vetkd_key_name(),
        })
    }

    /// The key derivation for a private chronolock of the caller's, once its
    /// time has come (`get_user_time_decryption_key`).
    pub fn get_user_time_decryption_key(&mut self, caller: &Vec<u8>, unlock_time_hex: &String, user_id: &String, transport_public_key: Vec<u8>, now: u64) -> (r: Result<DeriveKeyRequest, ChronoError>)
        requires
            old(self).wf(),
            caller@.len() <= 29,
            ids_room(old(self)@, 1),
        ensures
            (final(self)@, res_derive(r)) == user_key_spec(
                old(self)@,
                caller@,
                unlock_time_hex@,
                user_id@,
                transport_public_key@,
                now,
            ),
            final(self).wf(),
    {
        if transport_public_key.len() == 0 {
            return Err(invalid_input("Transport public key cannot be empty"));
        }
        match self.validate_caller_authentication(caller, now) {
            Err(e) => {
                return Err(e);
            },
            Ok(_) => {},
        }
        let p = match principal_parse(user_id.as_str()) {
            Ok(p) => p,
            Err(e) => {
                let mut m = String::new();
                push_str(&mut m, "Invalid user id: ");
                push_str(&mut m, e.as_str());
                return Err(ChronoError::InvalidInput(m));
            },
        };
        if !crate::codec::bytes_eq(caller.as_slice(), p.as_slice()) {
            return Err(ChronoError::Unauthorized);
        }
        let t = match parse_hex_u64(unlock_time_hex.as_str()) {
            Ok(t) => t,
            Err(e) => {
                let mut m = String::new();
                push_str(&mut m, "Invalid hex: ");
                let msg = e.message();
                push_str(&mut m, msg.as_str());
                return Err(ChronoError::InvalidInput(m));
            },
        };
        let unlock = t.wrapping_mul(1_000_000_000);
        if now < unlock {
            return Err(ChronoError::TimeLocked);
        }
        let mut identity = String::new();
        push_str(&mut identity, user_id.as_str());
        push_str(&mut identity, ":");
        push_decimal(&mut identity, t as u128);
        proof {
            reveal_strlit(":");
        }
        Ok(DeriveKeyRequest {
            input: string_bytes(identity.as_str()),
            context: string_bytes("chronolock-encryption"),
            transport_public_key,
            key_name: self.vetkd_key_name(),
        })
    }

    /// How many chronolocks the user can open at `now`
    /// (`get_user_accessible_chronolocks_count`).
    pub fn get_user_accessible_chronolocks_count(&self, user: &Vec<u8>, now: u64) -> (r: u64)
        requires
            self.wf(),
            user@.len() <= 29,
        ensures
            exists|ks: Seq<Seq<char>>|
                sorted_ids(ks, self@.locks.dom()) && r == values_at(ks, self@.locks).filter(
                    opens_for(principal_text(user@), now),
                ).len(),
    {
        let l = self.accessible_page(user, 0, u64::MAX, now);
        proof {
            let ks = choose|ks: Seq<Seq<char>>|
                sorted_ids(ks, self@.locks.dom()) && ks.len() <= usize::MAX && lock_views(l@) == page(
                    values_at(ks, self@.locks).filter(opens_for(principal_text(user@), now)),
                    0,
                    u64::MAX,
                );
            let s = values_at(ks, self@.locks).filter(opens_for(principal_text(user@), now));
            values_at(ks, self@.locks).lemma_filter_len(opens_for(principal_text(user@), now));
            if s.len() > 0 {
                assert(lock_views(l@) =~= s);
            } else {
                assert(lock_views(l@).len() == 0);
            }
        }
        l.len() as u64
    }

    /// A page of the chronolocks the user can open at `now`, in the order of
    /// ids, at most 100 of them (`get_user_accessible_chronolocks_paginated`).
    pub fn get_user_accessible_chronolocks_paginated(&self, user: &Vec<u8>, offset: u64, limit: u64, now: u64) -> (r: Result<Vec<Chronolock>, ChronoError>)
        requires
            self.wf(),
            user@.len() <= 29,
        ensures
            match r {
                Ok(l) => exists|ks: Seq<Seq<char>>|
                    sorted_ids(ks, self@.locks.dom()) && lock_views(l@) == page(
                        values_at(ks, self@.locks).filter(opens_for(principal_text(user@), now)),
                        offset,
                        capped(limit),
                    ),
                Err(_) => false,
            },
    {
        let lim = if limit < 100 {
            limit
        } else {
            100
        };
        Ok(self.accessible_page(user, offset, lim, now))
    }

    /// A page of the chronolocks the user can open at `now`, in the order of
    /// ids.
    fn accessible_page(&self, user: &Vec<u8>, offset: u64, limit: u64, now: u64) -> (r: Vec<Chronolock>)
        requires
            self.wf(),
            user@.len() <= 29,
        ensures
            exists|ks: Seq<Seq<char>>|
                sorted_ids(ks, self@.locks.dom()) && ks.len() <= usize::MAX && lock_views(r@) == page(
                    values_at(ks, self@.locks).filter(opens_for(principal_text(user@), now)),
                    offset,
                    limit,
                ),
    {
        let user_text = principal_to_text(user.as_slice());
        let entries = byte_table_entries(&self.chronolocks);
        let ghost e = entry_views(entries@);
        let ghost raw = byte_table_contents(self.chronolocks);
        let ghost m = self@.locks;
        let ghost ks = ids_of(e);
        let ghost all = values_at(ks, m);
        let ghost pred = opens_for(principal_text(user@), now);
        proof {
            lemma_entries_list_raw(entries@, raw);
            lemma_sorted_text_entries(raw, e, as_lock());
        }
        let mut out: Vec<Chronolock> = Vec::new();
        let mut matched: usize = 0;
        let mut i: usize = 0;
        assert(all.subrange(0, 0).filter(pred) =~= Seq::<LockView>::empty()) by {
            reveal(Seq::filter);
        }
        while i < entries.len()
            invariant
                i <= entries@.len(),
                e == entry_views(entries@),
                all == values_at(ks, m),
                ks.len() == e.len(),
                user_text@ == principal_text(user@),
                pred == opens_for(principal_text(user@), now),
                forall|j: int| 0 <= j < e.len() ==> #[trigger] m[ks[j]] == lock_of(e[j].1),
                matched == all.subrange(0, i as int).filter(pred).len(),
                matched <= i,
                lock_views(out@) == page(all.subrange(0, i as int).filter(pred), offset, limit),
            decreases entries@.len() - i,
        {
            let ghost pre = all.subrange(0, i as int);
            let ghost next = all.subrange(0, i + 1);
            assert(next.drop_last() =~= pre);
            assert(e[i as int].1 == entries@[i as int].1@);
            let lock = decode_lock_bytes(entries[i].1.as_slice());
            assert(m[ks[i as int]] == lock_of(e[i as int].1));
            assert(all[i as int] == lock@);
            assert(next.last() == lock@);
            assert(next.filter(pred) == if pred(next.last()) {
                pre.filter(pred).push(next.last())
            } else {
                pre.filter(pred)
            }) by {
                reveal(Seq::filter);
            }
            let fields = decode_metadata_value(lock.metadata.as_str());
            let ok = has_access(&fields, user_text.as_str(), now);
            let ghost before = lock_views(out@);
            if ok {
                proof {
                    lemma_page_push(pre.filter(pred), lock@, offset, limit);
                }
                if offset <= matched as u64 && (matched as u64 - offset) < limit {
                    out.push(lock);
                    assert(lock_views(out@) =~= before.push(next.last()));
                }
                matched = matched + 1;
            }
            i = i + 1;
        }
        assert(all.subrange(0, entries@.len() as int) =~= all);
        out
    }
}

/// Adding an item to a sequence adds it to a page exactly when it falls in
/// the page.
pub proof fn lemma_page_push<A>(s: Seq<A>, x: A, offset: u64, limit: u64)
    ensures
        page(s.push(x), offset, limit) == if offset <= s.len() && s.len() - offset < limit {
            page(s, offset, limit).push(x)
        } else {
            page(s, offset, limit)
        },
{
    let t = s.push(x);
    let n = s.len();
    if offset < n {
        if limit >= n - offset {
            assert(t.subrange(offset as int, n as int) =~= s.subrange(offset as int, n as int));
            assert(t.subrange(offset as int, (n + 1) as int) =~= s.subrange(offset as int, n as int).push(x));
        } else {
            assert(t.subrange(offset as int, offset + limit) =~= s.subrange(offset as int, offset + limit));
        }
    } else if offset == n {
        if limit > 0 {
            assert(t.subrange(offset as int, (n + 1) as int) =~= Seq::<A>::empty().push(x));
        } else {
            assert(t.subrange(offset as int, offset as int) =~= Seq::<A>::empty());
        }
    }
}

} // verus!
