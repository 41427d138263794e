//! The tokens: making, changing, burning and transferring chronolocks, each
//! owner's list of tokens, and reading them back page by page.
use vstd::prelude::*;
use vstd::utf8::*;
use crate::codec::{fields, parse_fields, views, encode_fields, decode_fields, lemma_fields_roundtrip,
    fields_fit, to_vec, bytes_eq};
use crate::identity::{principal_key, principal_key_of};
use crate::registry_laws::{lock_ids_issued, law_create_fresh_id};
use crate::registry::{ChronoError, ErrView, Registry, RegistryView, Chronolock, LockView, res_unit,
    res_text, log_spec, id_spec, ids_room, lemma_ascii_log, text_ok, text_key, as_lock, as_list,
    principal_ok, principal_key_fn, lemma_registry_keys, lemma_text_key_valid, lemma_lock_roundtrip,
    lock_bytes, lock_of, list_bytes, list_of, lemma_text_table_len, lemma_principal_table_len,
    entry_views, ids_of, sorted_ids, page, page_bounds, lemma_entries_list_raw,
    lemma_sorted_text_entries};
use crate::registry_auth::{auth_spec, values_at, push_principal_text};
use crate::stable::{byte_table_contents, byte_table_get, byte_table_insert, byte_table_remove,
    byte_table_len, byte_table_entries};
use crate::tables::{lemma_decoded_insert, lemma_decoded_remove, string_of, lemma_string_roundtrip,
    decode_string};
use crate::text::{push_str, principal_text, string_bytes, text_eq};

verus! {

/// The tokens an owner holds, in the order they came; none if it has no
/// list.
pub open spec fn tokens_of(v: RegistryView, p: Seq<u8>) -> Seq<Seq<char>> {
    if v.owner_tokens.contains_key(p) {
        v.owner_tokens[p]
    } else {
        Seq::empty()
    }
}

/// Every id but `id`.
pub open spec fn other_than(id: Seq<char>) -> spec_fn(Seq<char>) -> bool {
    |x: Seq<char>| x != id
}

/// The ids that name a chronolock.
pub open spec fn in_locks(m: Map<Seq<char>, LockView>) -> spec_fn(Seq<char>) -> bool {
    |x: Seq<char>| m.contains_key(x)
}

/// The largest page of chronolocks handed out at once.
pub open spec fn max_page() -> u64 {
    100
}

pub open spec fn capped(limit: u64) -> u64 {
    if limit < max_page() {
        limit
    } else {
        max_page()
    }
}

pub open spec fn text_views(l: Seq<String>) -> Seq<Seq<char>> {
    l.map_values(|s: String| s@)
}

pub open spec fn lock_views(l: Seq<Chronolock>) -> Seq<LockView> {
    l.map_values(|c: Chronolock| c@)
}

pub open spec fn res_lock(r: Result<Chronolock, ChronoError>) -> Result<LockView, ErrView> {
    match r {
        Ok(c) => Ok(c@),
        Err(e) => Err(e@),
    }
}

/// What `create_chronolock` does: once the caller may act and the metadata
/// fits, a new id names a chronolock of the caller's, added to the end of
/// its list, and the creation is logged.
pub open spec fn create_spec(v: RegistryView, caller: Seq<u8>, metadata: Seq<char>, now: u64) -> (RegistryView, Result<Seq<char>, ErrView>) {
    let (v1, a) = auth_spec(v, caller, now);
    match a {
        Err(e) => (v1, Err(e)),
        Ok(_) => if encode_utf8(metadata).len() > v1.max_metadata_size {
            (v1, Err(ErrView::MetadataTooLarge))
        } else {
            let (v2, id) = id_spec(v1, now);
            let v3 = RegistryView {
                locks: v2.locks.insert(id, LockView { id, owner: caller, metadata }),
                owner_tokens: v2.owner_tokens.insert(caller, tokens_of(v2, caller).push(id)),
                ..v2
            };
            (log_spec(v3, "Chronolock created with ID: "@ + id, now), Ok(id))
        },
    }
}

/// What `update_chronolock` does: the owner replaces the metadata of its
/// chronolock, if it fits.
pub open spec fn update_spec(v: RegistryView, caller: Seq<u8>, token_id: Seq<char>, metadata: Seq<char>, now: u64) -> (RegistryView, Result<(), ErrView>) {
    let (v1, a) = auth_spec(v, caller, now);
    match a {
        Err(e) => (v1, Err(e)),
        Ok(_) => if !v1.locks.contains_key(token_id) {
            (v1, Err(ErrView::TokenNotFound))
        } else if v1.locks[token_id].owner != caller {
            (v1, Err(ErrView::Unauthorized))
        } else if encode_utf8(metadata).len() > v1.max_metadata_size {
            (v1, Err(ErrView::MetadataTooLarge))
        } else {
            let v2 = RegistryView {
                locks: v1.locks.insert(token_id, LockView { metadata, ..v1.locks[token_id] }),
                ..v1
            };
            (log_spec(v2, "Updated chronolock "@ + token_id, now), Ok(()))
        },
    }
}

/// What `burn_chronolock` does: the owner or the admin takes the chronolock
/// out, and out of its owner's list.
pub open spec fn burn_spec(v: RegistryView, caller: Seq<u8>, token_id: Seq<char>, now: u64) -> (RegistryView, Result<(), ErrView>) {
    let (v1, a) = auth_spec(v, caller, now);
    match a {
        Err(e) => (v1, Err(e)),
        Ok(_) => if !v1.locks.contains_key(token_id) {
            (v1, Err(ErrView::TokenNotFound))
        } else if v1.locks[token_id].owner != caller && caller != v1.admin {
            (v1, Err(ErrView::Unauthorized))
        } else {
            let owner = v1.locks[token_id].owner;
            let tokens = if v1.owner_tokens.contains_key(owner) {
                v1.owner_tokens.insert(owner, v1.owner_tokens[owner].filter(other_than(token_id)))
            } else {
                v1.owner_tokens
            };
            let v2 = RegistryView { locks: v1.locks.remove(token_id), owner_tokens: tokens, ..v1 };
            (log_spec(v2, "Burned chronolock "@ + token_id, now), Ok(()))
        },
    }
}

/// What `icrc7_transfer` does: the owner, whose list holds the token, gives
/// it to `to`; the token leaves the owner's list and goes to the end of
/// `to`'s list. A transfer to oneself leaves the lists as they are.
pub open spec fn transfer_spec(v: RegistryView, caller: Seq<u8>, token_id: Seq<char>, to: Seq<u8>, now: u64) -> (RegistryView, Result<(), ErrView>) {
    let (v1, a) = auth_spec(v, caller, now);
    match a {
        Err(e) => (v1, Err(e)),
        Ok(_) => if !v1.locks.contains_key(token_id) {
            (v1, Err(ErrView::TokenNotFound))
        } else if v1.locks[token_id].owner != caller {
            (v1, Err(ErrView::Unauthorized))
        } else if !tokens_of(v1, caller).contains(token_id) {
            (v1, Err(ErrView::TokenNotFound))
        } else {
            let mine = tokens_of(v1, caller).filter(other_than(token_id));
            let theirs = tokens_of(v1, to).push(token_id);
            let v2 = RegistryView {
                locks: v1.locks.insert(token_id, LockView { owner: to, ..v1.locks[token_id] }),
                owner_tokens: if caller == to {
                    v1.owner_tokens
                } else {
                    v1.owner_tokens.insert(caller, mine).insert(to, theirs)
                },
                ..v1
            };
            (
                log_spec(v2, "Transferred token "@ + token_id + " to "@ + principal_text(to), now),
                Ok(()),
            )
        },
    }
}

pub proof fn lemma_list_roundtrip(ids: Seq<Seq<char>>)
    requires
        forall|i: int| 0 <= i < ids.len() ==> encode_utf8(#[trigger] ids[i]).len() < 0x1_0000_0000_0000_0000,
    ensures
        list_of(list_bytes(ids)) == ids,
{
    let l = ids.map_values(|s: Seq<char>| encode_utf8(s));
    assert(fields_fit(l));
    lemma_fields_roundtrip(l);
    assert forall|i: int| 0 <= i < ids.len() implies string_of(#[trigger] l[i]) == ids[i] by {
        lemma_string_roundtrip(ids[i]);
    }
    assert(list_of(list_bytes(ids)) =~= ids);
}

/// The stored form of a list of ids.
pub fn encode_list(ids: &Vec<String>) -> (r: Vec<u8>)
    ensures
        r@ == list_bytes(text_views(ids@)),
        list_of(r@) == text_views(ids@),
{
    let mut parts: Vec<Vec<u8>> = Vec::new();
    let mut i: usize = 0;
    while i < ids.len()
        invariant
            i <= ids@.len(),
            parts@.len() == i,
            forall|j: int| 0 <= j < i ==> #[trigger] parts@[j]@ == encode_utf8(ids@[j]@),
            forall|j: int| 0 <= j < i ==> (#[trigger] parts@[j])@.len() < 0x1_0000_0000_0000_0000,
        decreases ids@.len() - i,
    {
        let b = string_bytes(ids[i].as_str());
        let n = b.len();
        parts.push(b);
        i = i + 1;
    }
    let r = encode_fields(&parts);
    proof {
        let tv = text_views(ids@);
        assert(views(parts@) =~= tv.map_values(|s: Seq<char>| encode_utf8(s)));
        assert forall|j: int| 0 <= j < tv.len() implies encode_utf8(#[trigger] tv[j]).len()
            < 0x1_0000_0000_0000_0000 by {
            assert(encode_utf8(tv[j]) == parts@[j]@);
        }
        lemma_list_roundtrip(tv);
    }
    r
}

/// The list of ids that stored bytes hold.
pub fn decode_list(b: &[u8]) -> (r: Vec<String>)
    ensures
        text_views(r@) == list_of(b@),
{
    match decode_fields(b) {
        Some(l) => {
            let mut out: Vec<String> = Vec::new();
            let mut i: usize = 0;
            while i < l.len()
                invariant
                    i <= l@.len(),
                    out@.len() == i,
                    forall|j: int| 0 <= j < i ==> #[trigger] out@[j]@ == string_of(l@[j]@),
                decreases l@.len() - i,
            {
                out.push(decode_string(l[i].as_slice()));
                i = i + 1;
            }
            assert(text_views(out@) =~= views(l@).map_values(|x: Seq<u8>| string_of(x)));
            out
        },
        None => {
            let out: Vec<String> = Vec::new();
            assert(text_views(out@) =~= Seq::<Seq<char>>::empty());
            out
        },
    }
}

/// Whether a list of ids holds `id`.
pub fn list_contains(l: &Vec<String>, id: &str) -> (r: bool)
    ensures
        r == text_views(l@).contains(id@),
{
    let mut i: usize = 0;
    while i < l.len()
        invariant
            i <= l@.len(),
            forall|j: int| 0 <= j < i ==> (#[trigger] l@[j])@ != id@,
        decreases l@.len() - i,
    {
        if text_eq(l[i].as_str(), id) {
            assert(text_views(l@)[i as int] == id@);
            return true;
        }
        i = i + 1;
    }
    assert forall|j: int| 0 <= j < text_views(l@).len() implies #[trigger] text_views(l@)[j] != id@ by {
        assert(text_views(l@)[j] == l@[j]@);
    }
    false
}

/// The list without `id` (`retain(|x| x != id)`).
pub fn list_without(l: &Vec<String>, id: &str) -> (r: Vec<String>)
    ensures
        text_views(r@) == text_views(l@).filter(other_than(id@)),
{
    let mut out: Vec<String> = Vec::new();
    let mut i: usize = 0;
    let ghost all = text_views(l@);
    assert(all.subrange(0, 0).filter(other_than(id@)) =~= Seq::<Seq<char>>::empty()) by {
        reveal(Seq::filter);
    }
    while i < l.len()
        invariant
            i <= l@.len(),
            all == text_views(l@),
            text_views(out@) == all.subrange(0, i as int).filter(other_than(id@)),
        decreases l@.len() - i,
    {
        let ghost pre = all.subrange(0, i as int);
        let ghost next = all.subrange(0, i + 1);
        assert(next.drop_last() =~= pre);
        assert(next.last() == l@[i as int]@);
        assert(next.filter(other_than(id@)) == if other_than(id@)(next.last()) {
            pre.filter(other_than(id@)).push(next.last())
        } else {
            pre.filter(other_than(id@))
        }) by {
            reveal(Seq::filter);
        }
        let ghost before = text_views(out@);
        if !text_eq(l[i].as_str(), id) {
            out.push(l[i].clone());
            assert(text_views(out@) =~= before.push(next.last()));
        }
        i = i + 1;
    }
    assert(all.subrange(0, l@.len() as int) =~= all);
    out
}

impl Registry {
    /// The owner's list of tokens, or an empty one.
    pub fn tokens_of_owner(&self, p: &Vec<u8>) -> (r: Vec<String>)
        requires
            p@.len() <= 29,
        ensures
            text_views(r@) == tokens_of(self@, p@),
    {
        let key = principal_key_of(p.as_slice());
        proof {
            lemma_registry_keys();
        }
        match byte_table_get(&self.owner_tokens, &key) {
            Some(b) => decode_list(b.as_slice()),
            None => {
                let out: Vec<String> = Vec::new();
                assert(text_views(out@) =~= Seq::<Seq<char>>::empty());
                out
            },
        }
    }

    /// Stores the owner's list of tokens.
    fn set_tokens(&mut self, p: &Vec<u8>, l: &Vec<String>)
        requires
            old(self).wf(),
            p@.len() <= 29,
        ensures
            final(self)@ == (RegistryView {
                owner_tokens: old(self)@.owner_tokens.insert(p@, text_views(l@)),
                ..old(self)@
            }),
            final(self).wf(),
    {
        let key = principal_key_of(p.as_slice());
        let value = encode_list(l);
        proof {
            lemma_registry_keys();
            crate::registry::lemma_principal_key_valid(p@);
            lemma_decoded_insert(
                byte_table_contents(self.owner_tokens),
                principal_ok(),
                principal_key_fn(),
                as_list(),
                p@,
                value@,
            );
        }
        byte_table_insert(&mut self.owner_tokens, key, value);
        assert(self@.locks == old(self)@.locks);
        assert(self@.uploads == old(self)@.uploads);
    }

    /// The chronolock with this id, if any.
    pub fn lock_at(&self, token_id: &str) -> (r: Option<Chronolock>)
        ensures
            match r {
                Some(c) => self@.locks.contains_key(token_id@) && c@ == self@.locks[token_id@],
                None => !self@.locks.contains_key(token_id@),
            },
    {
        let key = string_bytes(token_id);
        proof {
            lemma_registry_keys();
        }
        match byte_table_get(&self.chronolocks, &key) {
            Some(b) => Some(decode_lock_bytes(b.as_slice())),
            None => None,
        }
    }

    /// Stores a chronolock under an ASCII id.
    fn set_lock(&mut self, token_id: &str, lock: &Chronolock)
        requires
            old(self).wf(),
            is_ascii_chars(token_id@),
            lock.owner@.len() <= 29,
        ensures
            final(self)@ == (RegistryView {
                locks: old(self)@.locks.insert(token_id@, lock@),
                ..old(self)@
            }),
            final(self).wf(),
    {
        let key = string_bytes(token_id);
        let id_bytes = string_bytes(lock.id.as_str());
        let meta_bytes = string_bytes(lock.metadata.as_str());
        let owner = to_vec(lock.owner.as_slice());
        let a = id_bytes.len();
        let b = meta_bytes.len();
        let c = owner.len();
        let mut parts: Vec<Vec<u8>> = Vec::new();
        parts.push(id_bytes);
        parts.push(owner);
        parts.push(meta_bytes);
        let value = encode_fields(&parts);
        proof {
            assert(views(parts@) =~= seq![encode_utf8(lock.id@), lock.owner@, encode_utf8(lock.metadata@)]);
            lemma_lock_roundtrip(lock@);
            lemma_registry_keys();
            lemma_text_key_valid(token_id@);
            lemma_decoded_insert(
                byte_table_contents(self.chronolocks),
                text_ok(),
                text_key(),
                as_lock(),
                token_id@,
                value@,
            );
        }
        byte_table_insert(&mut self.chronolocks, key, value);
        assert(self@.locks =~= old(self)@.locks.insert(token_id@, lock@));
        assert(self@.uploads == old(self)@.uploads);
    }

    /// Makes a chronolock for the caller with the given metadata
    /// (`create_chronolock`).
    pub fn create_chronolock(&mut self, caller: &Vec<u8>, metadata: String, now: u64) -> (r: Result<String, ChronoError>)
        requires
            old(self).wf(),
            caller@.len() <= 29,
            ids_room(old(self)@, 2),
        ensures
            (final(self)@, res_text(r)) == create_spec(old(self)@, caller@, metadata@, now),
            final(self).wf(),
            lock_ids_issued(old(self)@) && now >= old(self)@.last_timestamp ==> match r {
                Ok(id) => !old(self)@.locks.contains_key(id@) && lock_ids_issued(final(self)@),
                Err(_) => true,
            },
    {
        let ghost v0 = self@;
        let ghost m = metadata@;
        match self.validate_caller_authentication(caller, now) {
            Err(e) => {
                return Err(e);
            },
            Ok(_) => {},
        }
        let size = metadata.as_str().as_bytes().len() as u64;
        if size > self.max_metadata_size {
            return Err(ChronoError::MetadataTooLarge);
        }
        let id = self.generate_unique_id(now);
        let ghost v2 = self@;
        let lock = Chronolock { id: id.clone(), owner: to_vec(caller.as_slice()), metadata };
        self.set_lock(id.as_str(), &lock);
        let mut tokens = self.tokens_of_owner(caller);
        let ghost before = text_views(tokens@);
        tokens.push(id.clone());
        assert(text_views(tokens@) =~= before.push(id@));
        assert(before == tokens_of(v2, caller@));
        self.set_tokens(caller, &tokens);
        assert(self@ =~= RegistryView {
            locks: v2.locks.insert(id@, LockView { id: id@, owner: caller@, metadata: metadata@ }),
            owner_tokens: v2.owner_tokens.insert(caller@, tokens_of(v2, caller@).push(id@)),
            ..v2
        });
        let mut text = String::new();
        push_str(&mut text, "Chronolock created with ID: ");
        push_str(&mut text, id.as_str());
        proof {
            reveal_strlit("Chronolock created with ID: ");
            assert(is_ascii_chars(text@));
            lemma_ascii_log(text@);
        }
        self.log_activity(text, now);
        proof {
            if lock_ids_issued(v0) && now >= v0.last_timestamp {
                assert((self@, Ok::<Seq<char>, ErrView>(id@)) == create_spec(v0, caller@, m, now));
                law_create_fresh_id(v0, caller@, m, now);
            }
        }
        Ok(id)
    }

    /// Replaces the metadata of the caller's chronolock
    /// (`update_chronolock`).
    pub fn update_chronolock(&mut self, caller: &Vec<u8>, token_id: &String, metadata: String, now: u64) -> (r: Result<(), ChronoError>)
        requires
            old(self).wf(),
            caller@.len() <= 29,
            ids_room(old(self)@, 1),
        ensures
            (final(self)@, res_unit(r)) == update_spec(old(self)@, caller@, token_id@, metadata@, now),
            final(self).wf(),
    {
        match self.validate_caller_authentication(caller, now) {
            Err(e) => {
                return Err(e);
            },
            Ok(_) => {},
        }
        let mut lock = match self.lock_at(token_id.as_str()) {
            Some(l) => l,
            None => {
                return Err(ChronoError::TokenNotFound);
            },
        };
        if !bytes_eq(lock.owner.as_slice(), caller.as_slice()) {
            return Err(ChronoError::Unauthorized);
        }
        if metadata.as_str().as_bytes().len() as u64 > self.max_metadata_size {
            return Err(ChronoError::MetadataTooLarge);
        }
        let ghost v1 = self@;
        lock.metadata = metadata;
        self.set_lock(token_id.as_str(), &lock);
        assert(self@ =~= RegistryView {
            locks: v1.locks.insert(token_id@, LockView { metadata: metadata@, ..v1.locks[token_id@] }),
            ..v1
        });
        let mut text = String::new();
        push_str(&mut text, "Updated chronolock ");
        push_str(&mut text, token_id.as_str());
        proof {
            reveal_strlit("Updated chronolock ");
            assert(is_ascii_chars(text@));
            lemma_ascii_log(text@);
        }
        self.log_activity(text, now);
        Ok(())
    }

    /// Burns a chronolock, as its owner or the admin (`burn_chronolock`).
    pub fn burn_chronolock(&mut self, caller: &Vec<u8>, token_id: &String, now: u64) -> (r: Result<(), ChronoError>)
        requires
            old(self).wf(),
            caller@.len() <= 29,
            ids_room(old(self)@, 1),
        ensures
            (final(self)@, res_unit(r)) == burn_spec(old(self)@, caller@, token_id@, now),
            final(self).wf(),
    {
        match self.validate_caller_authentication(caller, now) {
            Err(e) => {
                return Err(e);
            },
            Ok(_) => {},
        }
        let lock = match self.lock_at(token_id.as_str()) {
            Some(l) => l,
            None => {
                return Err(ChronoError::TokenNotFound);
            },
        };
        let is_owner = bytes_eq(lock.owner.as_slice(), caller.as_slice());
        let caller_is_admin = self.is_admin(caller);
        if !is_owner && !caller_is_admin {
            return Err(ChronoError::Unauthorized);
        }
        let owner = lock.owner;
        let ghost v1 = self@;
        let key = string_bytes(token_id.as_str());
        proof {
            lemma_registry_keys();
            lemma_decoded_remove(byte_table_contents(self.chronolocks), text_ok(), text_key(), as_lock(), token_id@);
        }
        byte_table_remove(&mut self.chronolocks, &key);
        assert(self@.locks =~= v1.locks.remove(token_id@));
        assert(self@.uploads == v1.uploads);
        assert(owner@.len() <= 29) by {
            assert(v1.locks.contains_key(token_id@));
        }
        let key2 = principal_key_of(owner.as_slice());
        match byte_table_get(&self.owner_tokens, &key2) {
            Some(b) => {
                let list = decode_list(b.as_slice());
                let kept = list_without(&list, token_id.as_str());
                self.set_tokens(&owner, &kept);
            },
            None => {},
        }
        let mut text = String::new();
        push_str(&mut text, "Burned chronolock ");
        push_str(&mut text, token_id.as_str());
        proof {
            reveal_strlit("Burned chronolock ");
            assert(is_ascii_chars(text@));
            lemma_ascii_log(text@);
        }
        self.log_activity(text, now);
        Ok(())
    }
}

impl Registry {
    /// Transfers the caller's chronolock to `to` (`icrc7_transfer`).
    pub fn icrc7_transfer(&mut self, caller: &Vec<u8>, token_id: &String, to: &Vec<u8>, now: u64) -> (r: Result<(), ChronoError>)
        requires
            old(self).wf(),
            caller@.len() <= 29,
            to@.len() <= 29,
            ids_room(old(self)@, 1),
        ensures
            (final(self)@, res_unit(r)) == transfer_spec(old(self)@, caller@, token_id@, to@, now),
            final(self).wf(),
    {
        match self.validate_caller_authentication(caller, now) {
            Err(e) => {
                return Err(e);
            },
            Ok(_) => {},
        }
        let mut lock = match self.lock_at(token_id.as_str()) {
            Some(l) => l,
            None => {
                return Err(ChronoError::TokenNotFound);
            },
        };
        if !bytes_eq(lock.owner.as_slice(), caller.as_slice()) {
            return Err(ChronoError::Unauthorized);
        }
        let caller_tokens = self.tokens_of_owner(caller);
        if !list_contains(&caller_tokens, token_id.as_str()) {
            return Err(ChronoError::TokenNotFound);
        }
        let ghost v1 = self@;
        if bytes_eq(caller.as_slice(), to.as_slice()) {
            lock.owner = to_vec(to.as_slice());
            self.set_lock(token_id.as_str(), &lock);
            assert(self@ =~= RegistryView {
                locks: v1.locks.insert(token_id@, LockView { owner: to@, ..v1.locks[token_id@] }),
                ..v1
            });
        } else {
            let mine = list_without(&caller_tokens, token_id.as_str());
            let mut theirs = self.tokens_of_owner(to);
            let ghost before = text_views(theirs@);
            theirs.push(token_id.clone());
            assert(text_views(theirs@) =~= before.push(token_id@));
            lock.owner = to_vec(to.as_slice());
            self.set_lock(token_id.as_str(), &lock);
            self.set_tokens(caller, &mine);
            self.set_tokens(to, &theirs);
            assert(self@ =~= RegistryView {
                locks: v1.locks.insert(token_id@, LockView { owner: to@, ..v1.locks[token_id@] }),
                owner_tokens: v1.owner_tokens.insert(caller@, tokens_of(v1, caller@).filter(other_than(token_id@))).insert(
                    to@,
                    tokens_of(v1, to@).push(token_id@),
                ),
                ..v1
            });
        }
        let mut text = String::new();
        push_str(&mut text, "Transferred token ");
        push_str(&mut text, token_id.as_str());
        push_str(&mut text, " to ");
        push_principal_text(&mut text, to);
        proof {
            reveal_strlit("Transferred token ");
            reveal_strlit(" to ");
            assert(is_ascii_chars(text@));
            lemma_ascii_log(text@);
        }
        self.log_activity(text, now);
        Ok(())
    }

    /// How many chronolocks there are (`icrc7_total_supply`).
    pub fn icrc7_total_supply(&self) -> (r: u64)
        requires
            self.wf(),
        ensures
            r == self@.locks.len(),
    {
        proof {
            lemma_text_table_len(byte_table_contents(self.chronolocks), as_lock());
        }
        byte_table_len(&self.chronolocks)
    }

    /// How many chronolocks there are (`get_total_chronolocks_count`).
    pub fn get_total_chronolocks_count(&self) -> (r: u64)
        requires
            self.wf(),
        ensures
            r == self@.locks.len(),
    {
        self.icrc7_total_supply()
    }

    /// How many owners have a list of tokens (`get_unique_creators_count`).
    pub fn get_unique_creators_count(&self) -> (r: u64)
        requires
            self.wf(),
        ensures
            r == self@.owner_tokens.len(),
    {
        proof {
            lemma_principal_table_len(byte_table_contents(self.owner_tokens), as_list());
        }
        byte_table_len(&self.owner_tokens)
    }

    /// How many tokens the account's list holds (`icrc7_balance_of`).
    pub fn icrc7_balance_of(&self, account: &Vec<u8>) -> (r: u64)
        requires
            account@.len() <= 29,
        ensures
            r == tokens_of(self@, account@).len(),
    {
        let l = self.tokens_of_owner(account);
        l.len() as u64
    }

    /// How many tokens the owner's list holds
    /// (`get_owner_chronolocks_count`).
    pub fn get_owner_chronolocks_count(&self, owner: &Vec<u8>) -> (r: u64)
        requires
            owner@.len() <= 29,
        ensures
            r == tokens_of(self@, owner@).len(),
    {
        self.icrc7_balance_of(owner)
    }

    /// The owner of a chronolock (`icrc7_owner_of`).
    pub fn icrc7_owner_of(&self, token_id: &String) -> (r: Option<Vec<u8>>)
        ensures
            match r {
                Some(o) => self@.locks.contains_key(token_id@) && o@ == self@.locks[token_id@].owner,
                None => !self@.locks.contains_key(token_id@),
            },
    {
        match self.lock_at(token_id.as_str()) {
            Some(l) => Some(l.owner),
            None => None,
        }
    }

    /// The metadata of a chronolock (`icrc7_token_metadata`).
    pub fn icrc7_token_metadata(&self, token_id: &String) -> (r: Option<String>)
        ensures
            match r {
                Some(m) => self@.locks.contains_key(token_id@) && m@ == self@.locks[token_id@].metadata,
                None => !self@.locks.contains_key(token_id@),
            },
    {
        match self.lock_at(token_id.as_str()) {
            Some(l) => Some(l.metadata),
            None => None,
        }
    }

    /// A chronolock, or `TokenNotFound` (`get_chronolock`).
    pub fn get_chronolock(&self, token_id: &String) -> (r: Result<Chronolock, ChronoError>)
        ensures
            res_lock(r) == if self@.locks.contains_key(token_id@) {
                Ok::<LockView, ErrView>(self@.locks[token_id@])
            } else {
                Err::<LockView, ErrView>(ErrView::TokenNotFound)
            },
    {
        match self.lock_at(token_id.as_str()) {
            Some(l) => Ok(l),
            None => Err(ChronoError::TokenNotFound),
        }
    }

    /// A page of all chronolocks in the order of ids, at most 100 of them
    /// (`get_all_chronolocks_paginated`).
    pub fn get_all_chronolocks_paginated(&self, offset: u64, limit: u64) -> (r: Result<Vec<Chronolock>, ChronoError>)
        requires
            self.wf(),
        ensures
            match r {
                Ok(l) => exists|ks: Seq<Seq<char>>|
                    sorted_ids(ks, self@.locks.dom()) && lock_views(l@) == page(
                        values_at(ks, self@.locks),
                        offset,
                        capped(limit),
                    ),
                Err(_) => false,
            },
    {
        let lim = if limit < 100 {
            limit
        } else {
            100
        };
        let entries = byte_table_entries(&self.chronolocks);
        let ghost e = entry_views(entries@);
        let ghost raw = byte_table_contents(self.chronolocks);
        let ghost m = self@.locks;
        let ghost ks = ids_of(e);
        let ghost all = values_at(ks, m);
        proof {
            lemma_entries_list_raw(entries@, raw);
            lemma_sorted_text_entries(raw, e, as_lock());
        }
        let (start, end) = page_bounds(entries.len(), offset, lim);
        let mut out: Vec<Chronolock> = Vec::new();
        let mut i: usize = start;
        assert(all.subrange(start as int, start as int) =~= Seq::<LockView>::empty());
        while i < end
            invariant
                start <= i <= end <= entries@.len(),
                e == entry_views(entries@),
                all == values_at(ks, m),
                ks.len() == e.len(),
                forall|j: int| 0 <= j < e.len() ==> #[trigger] m[ks[j]] == lock_of(e[j].1),
                lock_views(out@) == all.subrange(start as int, i as int),
            decreases end - i,
        {
            assert(e[i as int].1 == entries@[i as int].1@);
            let lock = decode_lock_bytes(entries[i].1.as_slice());
            assert(m[ks[i as int]] == lock_of(e[i as int].1));
            assert(all[i as int] == lock@);
            let ghost before = lock_views(out@);
            out.push(lock);
            assert(lock_views(out@) =~= before.push(all[i as int]));
            assert(all.subrange(start as int, i + 1) =~= all.subrange(start as int, i as int).push(all[i as int]));
            i = i + 1;
        }
        assert(lock_views(out@) =~= page(all, offset, capped(limit)));
        Ok(out)
    }

    /// A page of the owner's list, at most 100 ids, read as chronolocks,
    /// leaving out ids that no longer name one
    /// (`get_owner_chronolocks_paginated`).
    pub fn get_owner_chronolocks_paginated(&self, owner: &Vec<u8>, offset: u64, limit: u64) -> (r: Result<Vec<Chronolock>, ChronoError>)
        requires
            owner@.len() <= 29,
        ensures
            match r {
                Ok(l) => lock_views(l@) == values_at(
                    page(tokens_of(self@, owner@), offset, capped(limit)).filter(in_locks(self@.locks)),
                    self@.locks,
                ),
                Err(_) => false,
            },
    {
        let lim = if limit < 100 {
            limit
        } else {
            100
        };
        let list = self.tokens_of_owner(owner);
        let ghost ids = text_views(list@);
        let ghost pg = page(ids, offset, lim);
        let ghost m = self@.locks;
        let (start, end) = page_bounds(list.len(), offset, lim);
        let mut out: Vec<Chronolock> = Vec::new();
        let mut i: usize = start;
        assert(pg =~= ids.subrange(start as int, end as int));
        assert(ids.subrange(start as int, start as int).filter(in_locks(m)) =~= Seq::<Seq<char>>::empty()) by {
            reveal(Seq::filter);
        }
        while i < end
            invariant
                start <= i <= end <= list@.len(),
                ids == text_views(list@),
                m == self@.locks,
                lock_views(out@) == values_at(ids.subrange(start as int, i as int).filter(in_locks(m)), m),
            decreases end - i,
        {
            let ghost pre = ids.subrange(start as int, i as int);
            let ghost next = ids.subrange(start as int, i + 1);
            assert(next.drop_last() =~= pre);
            assert(next.last() == list@[i as int]@);
            assert(next.filter(in_locks(m)) == if in_locks(m)(next.last()) {
                pre.filter(in_locks(m)).push(next.last())
            } else {
                pre.filter(in_locks(m))
            }) by {
                reveal(Seq::filter);
            }
            let ghost before = lock_views(out@);
            match self.lock_at(list[i].as_str()) {
                Some(l) => {
                    out.push(l);
                    assert(values_at(pre.filter(in_locks(m)).push(next.last()), m) =~= values_at(
                        pre.filter(in_locks(m)),
                        m,
                    ).push(m[next.last()]));
                    assert(lock_views(out@) =~= before.push(m[next.last()]));
                },
                None => {},
            }
            i = i + 1;
        }
        Ok(out)
    }
}

/// The chronolock that stored bytes hold.
pub fn decode_lock_bytes(b: &[u8]) -> (r: Chronolock)
    ensures
        r@ == lock_of(b@),
{
    match decode_fields(b) {
        Some(l) => {
            if l.len() == 3 {
                assert(views(l@)[0] == l@[0]@ && views(l@)[1] == l@[1]@ && views(l@)[2] == l@[2]@);
                Chronolock {
                    id: decode_string(l[0].as_slice()),
                    owner: to_vec(l[1].as_slice()),
                    metadata: decode_string(l[2].as_slice()),
                }
            } else {
                Chronolock { id: String::new(), owner: Vec::new(), metadata: String::new() }
            }
        },
        None => Chronolock { id: String::new(), owner: Vec::new(), metadata: String::new() },
    }
}

} // verus!
