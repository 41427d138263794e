//! The first chronolock collection: time-locked NFTs that carry their unlock
//! time, open to any caller, with media uploaded whole and keys derived by a
//! separate vetKD canister.
use vstd::prelude::*;
use vstd::utf8::*;
use crate::codec::{fields, parse_fields, views, encode_fields, decode_fields, lemma_fields_roundtrip,
    fields_fit, to_vec, bytes_eq, bytes_lt, lemma_bytes_lt_total};
use crate::access::nanos;
use crate::hexnum::{hex_decoded, hex_decode, hex_error_text, parse_hex, parse_hex_u64,
    parse_error_text, hex_encoded, hex_encode, bytes_or_text};
use crate::identity::{principal_key, principal_key_of};
use crate::registry::{ChronoError, ErrView, ActivityEntry, ActivityView, res_unit, res_text, res_bytes,
    text_ok, text_key, principal_ok, opt_bytes_view, principal_key_fn, as_activity, as_list, as_raw, list_bytes,
    list_of, text_table_ok, principal_table_ok, lemma_registry_keys, lemma_text_key_valid,
    lemma_principal_key_valid, lemma_text_table_len, lemma_activity_roundtrip, activity_bytes,
    activity_of, min_id, lemma_encode_utf8_injective_neq, lemma_decimal_ascii, entry_views, ids_of,
    sorted_ids, page, page_bounds, lemma_entries_list_raw, lemma_sorted_text_entries, invalid_input,
    max_activity_logs};
use crate::registry_auth::{values_at, activity_views, decode_activity, push_principal_text};
use crate::registry_media::{HttpRequest, HttpResponse, http_spec, header_views, serve_media};
use crate::registry_tokens::{other_than, text_views, encode_list, decode_list, list_contains,
    list_without};
use crate::stable::{Regions, ByteTable, byte_table_contents, region, byte_table_new, byte_table_get,
    byte_table_insert, byte_table_remove, byte_table_len, byte_table_first_key, byte_table_entries};
use crate::tables::{decoded, lemma_decoded_insert, lemma_decoded_remove, lemma_decoded_empty,
    u64_of, u64_bytes, string_of, lemma_numbers_roundtrip, lemma_string_roundtrip,
    lemma_encode_utf8_injective, encode_u64, decode_u64, decode_string};
use crate::text::{decimal, push_decimal, push_str, principal_text, principal_to_text,
    principal_from_text, principal_parse, string_bytes};

verus! {

/// A time-locked NFT of the first collection: id, owner, metadata and the
/// time it unlocks.
#[derive(Clone, Debug)]
pub struct TimedLock {
    pub id: String,
    pub owner: Vec<u8>,
    pub metadata: String,
    pub unlock_time: u64,
}

pub struct TimedLockView {
    pub id: Seq<char>,
    pub owner: Seq<u8>,
    pub metadata: Seq<char>,
    pub unlock_time: u64,
}

impl View for TimedLock {
    type V = TimedLockView;

    open spec fn view(&self) -> TimedLockView {
        TimedLockView { id: self.id@, owner: self.owner@, metadata: self.metadata@, unlock_time: self.unlock_time }
    }
}

/// The first collection: its admin, settings and tables.
pub struct ClassicRegistry {
    pub admin: Vec<u8>,
    pub vetkd: Option<Vec<u8>>,
    pub max_metadata_size: u64,
    pub last_timestamp: u64,
    pub counter: u64,
    pub logs: ByteTable,
    pub chronolocks: ByteTable,
    pub owner_tokens: ByteTable,
    pub media_files: ByteTable,
    pub settings: ByteTable,
}

/// The first collection as plain values.
#[verifier::ext_equal]
pub struct ClassicView {
    pub admin: Seq<u8>,
    pub vetkd: Option<Seq<u8>>,
    pub max_metadata_size: u64,
    pub last_timestamp: u64,
    pub counter: u64,
    pub logs: Map<Seq<char>, ActivityView>,
    pub locks: Map<Seq<char>, TimedLockView>,
    pub owner_tokens: Map<Seq<u8>, Seq<Seq<char>>>,
    pub media: Map<Seq<char>, Seq<u8>>,
    pub saved: Map<Seq<u8>, Seq<u8>>,
}

pub open spec fn timed_bytes(l: TimedLockView) -> Seq<u8> {
    fields(seq![encode_utf8(l.id), l.owner, encode_utf8(l.metadata), u64_bytes(l.unlock_time)])
}

pub open spec fn timed_of(b: Seq<u8>) -> TimedLockView {
    match parse_fields(b) {
        Some(l) => if l.len() == 4 {
            TimedLockView { id: string_of(l[0]), owner: l[1], metadata: string_of(l[2]), unlock_time: u64_of(l[3]) }
        } else {
            TimedLockView { id: Seq::empty(), owner: Seq::empty(), metadata: Seq::empty(), unlock_time: 0 }
        },
        None => TimedLockView { id: Seq::empty(), owner: Seq::empty(), metadata: Seq::empty(), unlock_time: 0 },
    }
}

pub open spec fn as_timed() -> spec_fn(Seq<u8>) -> TimedLockView {
    |b: Seq<u8>| timed_of(b)
}

impl View for ClassicRegistry {
    type V = ClassicView;

    open spec fn view(&self) -> ClassicView {
        ClassicView {
            admin: self.admin@,
            vetkd: match self.vetkd {
                Some(c) => Some(c@),
                None => None,
            },
            max_metadata_size: self.max_metadata_size,
            last_timestamp: self.last_timestamp,
            counter: self.counter,
            logs: decoded(byte_table_contents(self.logs), text_ok(), text_key(), as_activity()),
            locks: decoded(byte_table_contents(self.chronolocks), text_ok(), text_key(), as_timed()),
            owner_tokens: decoded(
                byte_table_contents(self.owner_tokens),
                principal_ok(),
                principal_key_fn(),
                as_list(),
            ),
            media: decoded(byte_table_contents(self.media_files), text_ok(), text_key(), as_raw()),
            saved: byte_table_contents(self.settings),
        }
    }
}

impl ClassicRegistry {
    /// The invariant: the admin is a principal, the tables are finite with
    /// keys made as ids or principals are stored, and owners are principals.
    pub open spec fn wf(&self) -> bool {
        &&& self.admin@.len() <= 29
        &&& (self.vetkd matches Some(c) ==> c@.len() <= 29)
        &&& text_table_ok(byte_table_contents(self.logs))
        &&& text_table_ok(byte_table_contents(self.chronolocks))
        &&& text_table_ok(byte_table_contents(self.media_files))
        &&& principal_table_ok(byte_table_contents(self.owner_tokens))
        &&& forall|k: Seq<char>| #[trigger] self@.locks.contains_key(k) ==> self@.locks[k].owner.len() <= 29
    }
}

pub proof fn lemma_timed_roundtrip(l: TimedLockView)
    requires
        encode_utf8(l.id).len() < 0x1_0000_0000_0000_0000,
        encode_utf8(l.metadata).len() < 0x1_0000_0000_0000_0000,
        l.owner.len() < 0x1_0000_0000_0000_0000,
    ensures
        timed_of(timed_bytes(l)) == l,
{
    let s = seq![encode_utf8(l.id), l.owner, encode_utf8(l.metadata), u64_bytes(l.unlock_time)];
    lemma_numbers_roundtrip(0, l.unlock_time, 0);
    assert(fields_fit(s));
    lemma_fields_roundtrip(s);
    lemma_string_roundtrip(l.id);
    lemma_string_roundtrip(l.metadata);
}

// ---------------------------------------------------------------------------
// Ids and the log
// ---------------------------------------------------------------------------

/// The collection after an id is made at time `now`, and the id.
pub open spec fn cid_spec(v: ClassicView, now: u64) -> (ClassicView, Seq<char>) {
    let count: u64 = if v.last_timestamp != now {
        0
    } else {
        (v.counter + 1) as u64
    };
    (
        ClassicView { last_timestamp: now, counter: count, ..v },
        decimal(now as nat) + "-"@ + decimal(count as nat),
    )
}

pub open spec fn cids_room(v: ClassicView, n: nat) -> bool {
    v.counter + n <= u64::MAX
}

/// The collection after `log_activity`: at the most entries kept the least
/// id goes; then the entry goes in under a new id, as given.
pub open spec fn clog(v: ClassicView, a: Seq<char>, now: u64) -> ClassicView {
    let logs1 = if v.logs.len() >= max_activity_logs() {
        v.logs.remove(min_id(v.logs))
    } else {
        v.logs
    };
    let (v1, id) = cid_spec(v, now);
    ClassicView { logs: logs1.insert(id, ActivityView { id, timestamp: now, activity: a }), ..v1 }
}

impl ClassicRegistry {
    /// Makes a fresh id from the time and the counter
    /// (`generate_unique_id`).
    pub fn generate_unique_id(&mut self, now: u64) -> (r: String)
        requires
            cids_room(old(self)@, 1),
        ensures
            (final(self)@, r@) == cid_spec(old(self)@, now),
            final(self).wf() == old(self).wf(),
            is_ascii_chars(r@),
    {
        if self.last_timestamp != now {
            self.last_timestamp = now;
            self.counter = 0;
        } else {
            self.counter = self.counter + 1;
        }
        let mut id = String::new();
        push_decimal(&mut id, now as u128);
        push_str(&mut id, "-");
        push_decimal(&mut id, self.counter as u128);
        proof {
            lemma_decimal_ascii(now as nat);
            lemma_decimal_ascii(self.counter as nat);
            reveal_strlit("-");
            assert(is_ascii_chars("-"@));
            assert(is_ascii_chars(decimal(now as nat) + "-"@));
            assert(self@.locks == old(self)@.locks);
        }
        id
    }

    /// Adds an entry to the activity log (`log_activity`).
    pub fn log_activity(&mut self, activity: String, now: u64)
        requires
            old(self).wf(),
            cids_room(old(self)@, 1),
        ensures
            final(self)@ == clog(old(self)@, activity@, now),
            final(self).wf(),
    {
        let ghost v0 = self@;
        let n = byte_table_len(&self.logs);
        proof {
            lemma_text_table_len(byte_table_contents(self.logs), as_activity());
        }
        if n >= 10_000 {
            match byte_table_first_key(&self.logs) {
                Some(first) => {
                    let ghost raw = byte_table_contents(self.logs);
                    let ghost k = decode_utf8(first@);
                    proof {
                        lemma_registry_keys();
                        decode_utf8_encode_utf8(first@);
                        assert(v0.logs.contains_key(k));
                        assert forall|j: Seq<char>| #[trigger] v0.logs.contains_key(j) implies !bytes_lt(
                            encode_utf8(j),
                            encode_utf8(k),
                        ) by {
                            assert(raw.contains_key(encode_utf8(j)));
                        }
                        let m = min_id(v0.logs);
                        assert(v0.logs.contains_key(m) && forall|j: Seq<char>|
                            #[trigger] v0.logs.contains_key(j) ==> !bytes_lt(encode_utf8(j), encode_utf8(m)));
                        if m != k {
                            lemma_encode_utf8_injective_neq(m, k);
                            lemma_bytes_lt_total(encode_utf8(m), encode_utf8(k));
                        }
                        lemma_decoded_remove(raw, text_ok(), text_key(), as_activity(), k);
                    }
                    byte_table_remove(&mut self.logs, &first);
                    assert(self@.logs == v0.logs.remove(min_id(v0.logs)));
                },
                None => {
                    proof {
                        assert(byte_table_contents(self.logs).dom() =~= Set::<Seq<u8>>::empty());
                    }
                },
            }
        }
        let ghost logs1 = self@.logs;
        let id = self.generate_unique_id(now);
        let key = string_bytes(id.as_str());
        let id_bytes = string_bytes(id.as_str());
        let text_bytes = string_bytes(activity.as_str());
        let id_len = id_bytes.len();
        let text_len = text_bytes.len();
        let ghost entry = ActivityView { id: id@, timestamp: now, activity: activity@ };
        let mut parts: Vec<Vec<u8>> = Vec::new();
        parts.push(id_bytes);
        parts.push(encode_u64(now));
        parts.push(text_bytes);
        let value = encode_fields(&parts);
        proof {
            assert(views(parts@) =~= seq![encode_utf8(id@), u64_bytes(now), encode_utf8(activity@)]);
            lemma_activity_roundtrip(entry);
            lemma_registry_keys();
            lemma_text_key_valid(id@);
            lemma_decoded_insert(
                byte_table_contents(self.logs),
                text_ok(),
                text_key(),
                as_activity(),
                id@,
                value@,
            );
        }
        byte_table_insert(&mut self.logs, key, value);
        assert(self@.logs =~= logs1.insert(id@, entry));
        assert(self@.locks == old(self)@.locks);
    }
}

// ---------------------------------------------------------------------------
// Tokens
// ---------------------------------------------------------------------------

pub open spec fn ctokens_of(v: ClassicView, p: Seq<u8>) -> Seq<Seq<char>> {
    if v.owner_tokens.contains_key(p) {
        v.owner_tokens[p]
    } else {
        Seq::empty()
    }
}

/// What `create_chronolock` does: metadata that fits makes a chronolock of
/// the caller's under a new id, at the end of its list.
pub open spec fn ccreate_spec(v: ClassicView, caller: Seq<u8>, metadata: Seq<char>, unlock_time: u64, now: u64) -> (ClassicView, Result<Seq<char>, ErrView>) {
    if encode_utf8(metadata).len() > v.max_metadata_size {
        (v, Err(ErrView::MetadataTooLarge))
    } else {
        let (v1, id) = cid_spec(v, now);
        let v2 = ClassicView {
            locks: v1.locks.insert(id, TimedLockView { id, owner: caller, metadata, unlock_time }),
            owner_tokens: v1.owner_tokens.insert(caller, ctokens_of(v1, caller).push(id)),
            ..v1
        };
        (clog(v2, "Chronolock created with ID: "@ + id, now), Ok(id))
    }
}

/// What `update_chronolock` does: the owner sets new metadata, if it fits,
/// and a new unlock time.
pub open spec fn cupdate_spec(v: ClassicView, caller: Seq<u8>, id: Seq<char>, metadata: Seq<char>, unlock_time: u64, now: u64) -> (ClassicView, Result<(), ErrView>) {
    if !v.locks.contains_key(id) {
        (v, Err(ErrView::TokenNotFound))
    } else if v.locks[id].owner != caller {
        (v, Err(ErrView::Unauthorized))
    } else if encode_utf8(metadata).len() > v.max_metadata_size {
        (v, Err(ErrView::MetadataTooLarge))
    } else {
        let v1 = ClassicView {
            locks: v.locks.insert(id, TimedLockView { metadata, unlock_time, ..v.locks[id] }),
            ..v
        };
        (clog(v1, "Updated chronolock "@ + id, now), Ok(()))
    }
}

/// What `burn_chronolock` does: the owner takes its chronolock out, and out
/// of its list.
pub open spec fn cburn_spec(v: ClassicView, caller: Seq<u8>, id: Seq<char>, now: u64) -> (ClassicView, Result<(), ErrView>) {
    if !v.locks.contains_key(id) {
        (v, Err(ErrView::TokenNotFound))
    } else if v.locks[id].owner != caller {
        (v, Err(ErrView::Unauthorized))
    } else {
        let tokens = if v.owner_tokens.contains_key(caller) {
            v.owner_tokens.insert(caller, v.owner_tokens[caller].filter(other_than(id)))
        } else {
            v.owner_tokens
        };
        (clog(ClassicView { locks: v.locks.remove(id), owner_tokens: tokens, ..v }, "Burned chronolock "@ + id, now), Ok(()))
    }
}

/// What `icrc7_transfer` does.
pub open spec fn ctransfer_spec(v: ClassicView, caller: Seq<u8>, id: Seq<char>, to: Seq<u8>, now: u64) -> (ClassicView, Result<(), ErrView>) {
    if !v.locks.contains_key(id) {
        (v, Err(ErrView::TokenNotFound))
    } else if v.locks[id].owner != caller {
        (v, Err(ErrView::Unauthorized))
    } else if !ctokens_of(v, caller).contains(id) {
        (v, Err(ErrView::TokenNotFound))
    } else {
        let v1 = ClassicView {
            locks: v.locks.insert(id, TimedLockView { owner: to, ..v.locks[id] }),
            owner_tokens: if caller == to {
                v.owner_tokens
            } else {
                v.owner_tokens.insert(caller, ctokens_of(v, caller).filter(other_than(id))).insert(
                    to,
                    ctokens_of(v, to).push(id),
                )
            },
            ..v
        };
        (clog(v1, "Transferred token "@ + id + " to "@ + principal_text(to), now), Ok(()))
    }
}

/// The chronolock that stored bytes hold.
pub fn decode_timed(b: &[u8]) -> (r: TimedLock)
    ensures
        r@ == timed_of(b@),
{
    match decode_fields(b) {
        Some(l) => {
            if l.len() == 4 {
                assert(views(l@)[0] == l@[0]@ && views(l@)[1] == l@[1]@ && views(l@)[2] == l@[2]@
                    && views(l@)[3] == l@[3]@);
                TimedLock {
                    id: decode_string(l[0].as_slice()),
                    owner: to_vec(l[1].as_slice()),
                    metadata: decode_string(l[2].as_slice()),
                    unlock_time: decode_u64(l[3].as_slice()),
                }
            } else {
                TimedLock { id: String::new(), owner: Vec::new(), metadata: String::new(), unlock_time: 0 }
            }
        },
        None => TimedLock { id: String::new(), owner: Vec::new(), metadata: String::new(), unlock_time: 0 },
    }
}

/// The text of the id of the vetKD canister the collection was built for.
pub open spec fn default_vetkd_text() -> Seq<char> {
    "s55qq-oqaaa-aaaaa-aaakq-cai"@
}

/// What `init` logs: the admin and the vetKD canister.
pub open spec fn init_text(admin: Seq<u8>, vetkd: Option<Seq<u8>>) -> Seq<char> {
    "Canister initialized with "@ + principal_text(admin) + " and "@ + match vetkd {
        Some(c) => principal_text(c),
        None => default_vetkd_text(),
    }
}

impl ClassicRegistry {
    /// A new collection with its admin and, where given, the vetKD canister
    /// it calls (else the one it was built for); the log names both
    /// (`init`).
    pub fn init(regions: Regions, admin: &Vec<u8>, vetkd: Option<Vec<u8>>, now: u64) -> (r: ClassicRegistry)
        requires
            admin@.len() <= 29,
            vetkd matches Some(c) ==> c@.len() <= 29,
        ensures
            r.wf(),
            r@ == clog(
                ClassicView {
                    admin: admin@,
                    vetkd: opt_bytes_view(vetkd),
                    max_metadata_size: 1024,
                    last_timestamp: 0,
                    counter: 0,
                    logs: Map::empty(),
                    locks: Map::empty(),
                    owner_tokens: Map::empty(),
                    media: Map::empty(),
                    saved: Map::empty(),
                },
                init_text(admin@, opt_bytes_view(vetkd)),
                now,
            ),
    {
        let mut text = String::new();
        push_str(&mut text, "Canister initialized with ");
        push_principal_text(&mut text, admin);
        push_str(&mut text, " and ");
        match &vetkd {
            Some(c) => push_principal_text(&mut text, c),
            None => push_str(&mut text, "s55qq-oqaaa-aaaaa-aaakq-cai"),
        }
        let mut r = ClassicRegistry {
            admin: to_vec(admin.as_slice()),
            vetkd,
            max_metadata_size: 1024,
            last_timestamp: 0,
            counter: 0,
            logs: byte_table_new(region(&regions, 0)),
            chronolocks: byte_table_new(region(&regions, 5)),
            owner_tokens: byte_table_new(region(&regions, 6)),
            media_files: byte_table_new(region(&regions, 7)),
            settings: byte_table_new(region(&regions, 1)),
        };
        proof {
            lemma_decoded_empty(text_ok(), text_key(), as_activity());
            lemma_decoded_empty(text_ok(), text_key(), as_timed());
            lemma_decoded_empty(principal_ok(), principal_key_fn(), as_list());
            lemma_decoded_empty(text_ok(), text_key(), as_raw());
        }
        r.log_activity(text, now);
        r
    }

    /// Whether the caller is the admin (`is_admin`).
    pub fn is_admin(&self, caller: &Vec<u8>) -> (r: bool)
        ensures
            r == (caller@ == self@.admin),
    {
        bytes_eq(caller.as_slice(), self.admin.as_slice())
    }

    /// Sets the metadata limit, as admin (`set_max_metadata_size`).
    pub fn set_max_metadata_size(&mut self, caller: &Vec<u8>, new_size: u64, now: u64) -> (r: Result<(), ChronoError>)
        requires
            old(self).wf(),
            cids_room(old(self)@, 1),
        ensures
            (final(self)@, res_unit(r)) == (if caller@ != old(self)@.admin {
                (old(self)@, Err(ErrView::Unauthorized))
            } else {
                (
                    clog(
                        ClassicView { max_metadata_size: new_size, ..old(self)@ },
                        "MAX_METADATA_SIZE updated to "@ + decimal(new_size as nat),
                        now,
                    ),
                    Ok(()),
                )
            }),
            final(self).wf(),
    {
        if !self.is_admin(caller) {
            return Err(ChronoError::Unauthorized);
        }
        self.max_metadata_size = new_size;
        let mut text = String::new();
        push_str(&mut text, "MAX_METADATA_SIZE updated to ");
        push_decimal(&mut text, new_size as u128);
        self.log_activity(text, now);
        Ok(())
    }

    /// A page of the log in the order of ids, for the admin
    /// (`get_logs_paginated`).
    pub fn get_logs_paginated(&self, caller: &Vec<u8>, offset: u64, limit: u64) -> (r: Result<Vec<ActivityEntry>, ChronoError>)
        requires
            self.wf(),
        ensures
            match r {
                Err(e) => caller@ != self@.admin && e@ == ErrView::Unauthorized,
                Ok(l) => caller@ == self@.admin && exists|ks: Seq<Seq<char>>|
                    sorted_ids(ks, self@.logs.dom()) && activity_views(l@) == page(
                        values_at(ks, self@.logs),
                        offset,
                        limit,
                    ),
            },
    {
        if !self.is_admin(caller) {
            return Err(ChronoError::Unauthorized);
        }
        let entries = byte_table_entries(&self.logs);
        let ghost e = entry_views(entries@);
        let ghost raw = byte_table_contents(self.logs);
        let ghost m = self@.logs;
        let ghost ks = ids_of(e);
        let ghost all = values_at(ks, m);
        proof {
            lemma_entries_list_raw(entries@, raw);
            lemma_sorted_text_entries(raw, e, as_activity());
        }
        let (start, end) = page_bounds(entries.len(), offset, limit);
        let mut out: Vec<ActivityEntry> = Vec::new();
        let mut i: usize = start;
        assert(all.subrange(start as int, start as int) =~= Seq::<ActivityView>::empty());
        while i < end
            invariant
                start <= i <= end <= entries@.len(),
                e == entry_views(entries@),
                all == values_at(ks, m),
                ks.len() == e.len(),
                forall|j: int| 0 <= j < e.len() ==> #[trigger] m[ks[j]] == activity_of(e[j].1),
                activity_views(out@) == all.subrange(start as int, i as int),
            decreases end - i,
        {
            assert(e[i as int].1 == entries@[i as int].1@);
            let entry = decode_activity(entries[i].1.as_slice());
            assert(m[ks[i as int]] == activity_of(e[i as int].1));
            assert(all[i as int] == entry@);
            let ghost before = activity_views(out@);
            out.push(entry);
            assert(activity_views(out@) =~= before.push(all[i as int]));
            assert(all.subrange(start as int, i + 1) =~= all.subrange(start as int, i as int).push(all[i as int]));
            i = i + 1;
        }
        assert(activity_views(out@) =~= page(all, offset, limit));
        Ok(out)
    }

    /// The collection's symbol (`icrc7_symbol`).
    pub fn icrc7_symbol(&self) -> (r: String)
        ensures
            r@ == "CHRONO"@,
    {
        String::from_str("CHRONO")
    }

    /// The collection's name (`icrc7_name`).
    pub fn icrc7_name(&self) -> (r: String)
        ensures
            r@ == "Chronolock Collection"@,
    {
        String::from_str("Chronolock Collection")
    }

    /// The collection's description (`icrc7_description`).
    pub fn icrc7_description(&self) -> (r: String)
        ensures
            r@ == "A collection of time-locked NFTs"@,
    {
        String::from_str("A collection of time-locked NFTs")
    }

    /// How many chronolocks there are (`icrc7_total_supply`).
    pub fn icrc7_total_supply(&self) -> (r: u64)
        requires
            self.wf(),
        ensures
            r == self@.locks.len(),
    {
        proof {
            lemma_text_table_len(byte_table_contents(self.chronolocks), as_timed());
        }
        byte_table_len(&self.chronolocks)
    }

    /// The owner's list of tokens, or an empty one.
    pub fn tokens_of_owner(&self, p: &Vec<u8>) -> (r: Vec<String>)
        requires
            p@.len() <= 29,
        ensures
            text_views(r@) == ctokens_of(self@, p@),
    {
        let key = principal_key_of(p.as_slice());
        proof {
            lemma_registry_keys();
        }
        match byte_table_get(&self.owner_tokens, &key) {
            Some(b) => decode_list(b.as_slice()),
            None => {
                let out: Vec<String> = Vec::new();
                assert(text_views(out@) =~= Seq::<Seq<char>>::empty());
                out
            },
        }
    }

    /// How many tokens the account's list holds (`icrc7_balance_of`).
    pub fn icrc7_balance_of(&self, account: &Vec<u8>) -> (r: u64)
        requires
            account@.len() <= 29,
        ensures
            r == ctokens_of(self@, account@).len(),
    {
        let l = self.tokens_of_owner(account);
        l.len() as u64
    }

    /// The chronolock with this id, if any.
    pub fn lock_at(&self, token_id: &str) -> (r: Option<TimedLock>)
        ensures
            match r {
                Some(c) => self@.locks.contains_key(token_id@) && c@ == self@.locks[token_id@],
                None => !self@.locks.contains_key(token_id@),
            },
    {
        let key = string_bytes(token_id);
        proof {
            lemma_registry_keys();
        }
        match byte_table_get(&self.chronolocks, &key) {
            Some(b) => Some(decode_timed(b.as_slice())),
            None => None,
        }
    }

    /// The owner of a chronolock (`icrc7_owner_of`).
    pub fn icrc7_owner_of(&self, token_id: &String) -> (r: Option<Vec<u8>>)
        ensures
            match r {
                Some(o) => self@.locks.contains_key(token_id@) && o@ == self@.locks[token_id@].owner,
                None => !self@.locks.contains_key(token_id@),
            },
    {
        match self.lock_at(token_id.as_str()) {
            Some(l) => Some(l.owner),
            None => None,
        }
    }

    /// The metadata of a chronolock (`icrc7_token_metadata`).
    pub fn icrc7_token_metadata(&self, token_id: &String) -> (r: Option<String>)
        ensures
            match r {
                Some(m) => self@.locks.contains_key(token_id@) && m@ == self@.locks[token_id@].metadata,
                None => !self@.locks.contains_key(token_id@),
            },
    {
        match self.lock_at(token_id.as_str()) {
            Some(l) => Some(l.metadata),
            None => None,
        }
    }

    fn set_tokens(&mut self, p: &Vec<u8>, l: &Vec<String>)
        requires
            old(self).wf(),
            p@.len() <= 29,
        ensures
            final(self)@ == (ClassicView {
                owner_tokens: old(self)@.owner_tokens.insert(p@, text_views(l@)),
                ..old(self)@
            }),
            final(self).wf(),
    {
        let key = principal_key_of(p.as_slice());
        let value = encode_list(l);
        proof {
            lemma_registry_keys();
            lemma_principal_key_valid(p@);
            lemma_decoded_insert(
                byte_table_contents(self.owner_tokens),
                principal_ok(),
                principal_key_fn(),
                as_list(),
                p@,
                value@,
            );
        }
        byte_table_insert(&mut self.owner_tokens, key, value);
        assert(self@ =~= ClassicView {
            owner_tokens: old(self)@.owner_tokens.insert(p@, text_views(l@)),
            ..old(self)@
        });
    }

    fn set_lock(&mut self, token_id: &str, lock: &TimedLock)
        requires
            old(self).wf(),
            lock.owner@.len() <= 29,
        ensures
            final(self)@ == (ClassicView { locks: old(self)@.locks.insert(token_id@, lock@), ..old(self)@ }),
            final(self).wf(),
    {
        let key = string_bytes(token_id);
        let id_bytes = string_bytes(lock.id.as_str());
        let meta_bytes = string_bytes(lock.metadata.as_str());
        let owner = to_vec(lock.owner.as_slice());
        let a = id_bytes.len();
        let b = meta_bytes.len();
        let c = owner.len();
        let mut parts: Vec<Vec<u8>> = Vec::new();
        parts.push(id_bytes);
        parts.push(owner);
        parts.push(meta_bytes);
        parts.push(encode_u64(lock.unlock_time));
        let value = encode_fields(&parts);
        proof {
            assert(views(parts@) =~= seq![
                encode_utf8(lock.id@),
                lock.owner@,
                encode_utf8(lock.metadata@),
                u64_bytes(lock.unlock_time),
            ]);
            lemma_timed_roundtrip(lock@);
            lemma_registry_keys();
            lemma_text_key_valid(token_id@);
            lemma_decoded_insert(
                byte_table_contents(self.chronolocks),
                text_ok(),
                text_key(),
                as_timed(),
                token_id@,
                value@,
            );
        }
        byte_table_insert(&mut self.chronolocks, key, value);
        assert(self@ =~= ClassicView { locks: old(self)@.locks.insert(token_id@, lock@), ..old(self)@ });
    }

    /// Makes a chronolock for the caller (`create_chronolock`).
    pub fn create_chronolock(&mut self, caller: &Vec<u8>, metadata: String, unlock_time: u64, now: u64) -> (r: Result<String, ChronoError>)
        requires
            old(self).wf(),
            caller@.len() <= 29,
            cids_room(old(self)@, 2),
        ensures
            (final(self)@, res_text(r)) == ccreate_spec(old(self)@, caller@, metadata@, unlock_time, now),
            final(self).wf(),
    {
        let size = metadata.as_str().as_bytes().len() as u64;
        if size > self.max_metadata_size {
            return Err(ChronoError::MetadataTooLarge);
        }
        let id = self.generate_unique_id(now);
        let ghost v1 = self@;
        let lock = TimedLock { id: id.clone(), owner: to_vec(caller.as_slice()), metadata, unlock_time };
        self.set_lock(id.as_str(), &lock);
        let mut tokens = self.tokens_of_owner(caller);
        let ghost before = text_views(tokens@);
        tokens.push(id.clone());
        assert(text_views(tokens@) =~= before.push(id@));
        self.set_tokens(caller, &tokens);
        assert(self@ =~= ClassicView {
            locks: v1.locks.insert(id@, TimedLockView { id: id@, owner: caller@, metadata: metadata@, unlock_time }),
            owner_tokens: v1.owner_tokens.insert(caller@, ctokens_of(v1, caller@).push(id@)),
            ..v1
        });
        let mut text = String::new();
        push_str(&mut text, "Chronolock created with ID: ");
        push_str(&mut text, id.as_str());
        self.log_activity(text, now);
        Ok(id)
    }

    /// Replaces the metadata and unlock time of the caller's chronolock
    /// (`update_chronolock`).
    pub fn update_chronolock(&mut self, caller: &Vec<u8>, token_id: &String, metadata: String, unlock_time: u64, now: u64) -> (r: Result<(), ChronoError>)
        requires
            old(self).wf(),
            cids_room(old(self)@, 1),
        ensures
            (final(self)@, res_unit(r)) == cupdate_spec(old(self)@, caller@, token_id@, metadata@, unlock_time, now),
            final(self).wf(),
    {
        let mut lock = match self.lock_at(token_id.as_str()) {
            Some(l) => l,
            None => {
                return Err(ChronoError::TokenNotFound);
            },
        };
        if !bytes_eq(lock.owner.as_slice(), caller.as_slice()) {
            return Err(ChronoError::Unauthorized);
        }
        if metadata.as_str().as_bytes().len() as u64 > self.max_metadata_size {
            return Err(ChronoError::MetadataTooLarge);
        }
        let ghost v1 = self@;
        lock.metadata = metadata;
        lock.unlock_time = unlock_time;
        self.set_lock(token_id.as_str(), &lock);
        assert(self@ =~= ClassicView {
            locks: v1.locks.insert(token_id@, TimedLockView { metadata: metadata@, unlock_time, ..v1.locks[token_id@] }),
            ..v1
        });
        let mut text = String::new();
        push_str(&mut text, "Updated chronolock ");
        push_str(&mut text, token_id.as_str());
        self.log_activity(text, now);
        Ok(())
    }

    /// Burns the caller's chronolock (`burn_chronolock`).
    pub fn burn_chronolock(&mut self, caller: &Vec<u8>, token_id: &String, now: u64) -> (r: Result<(), ChronoError>)
        requires
            old(self).wf(),
            caller@.len() <= 29,
            cids_room(old(self)@, 1),
        ensures
            (final(self)@, res_unit(r)) == cburn_spec(old(self)@, caller@, token_id@, now),
            final(self).wf(),
    {
        let lock = match self.lock_at(token_id.as_str()) {
            Some(l) => l,
            None => {
                return Err(ChronoError::TokenNotFound);
            },
        };
        if !bytes_eq(lock.owner.as_slice(), caller.as_slice()) {
            return Err(ChronoError::Unauthorized);
        }
        let ghost v1 = self@;
        let key = string_bytes(token_id.as_str());
        proof {
            lemma_registry_keys();
            lemma_decoded_remove(byte_table_contents(self.chronolocks), text_ok(), text_key(), as_timed(), token_id@);
        }
        byte_table_remove(&mut self.chronolocks, &key);
        assert(self@ =~= ClassicView { locks: v1.locks.remove(token_id@), ..v1 });
        let key2 = principal_key_of(caller.as_slice());
        match byte_table_get(&self.owner_tokens, &key2) {
            Some(b) => {
                let list = decode_list(b.as_slice());
                let kept = list_without(&list, token_id.as_str());
                self.set_tokens(caller, &kept);
            },
            None => {},
        }
        let mut text = String::new();
        push_str(&mut text, "Burned chronolock ");
        push_str(&mut text, token_id.as_str());
        self.log_activity(text, now);
        Ok(())
    }

    /// Transfers the caller's chronolock to `to` (`icrc7_transfer`).
    pub fn icrc7_transfer(&mut self, caller: &Vec<u8>, token_id: &String, to: &Vec<u8>, now: u64) -> (r: Result<(), ChronoError>)
        requires
            old(self).wf(),
            caller@.len() <= 29,
            to@.len() <= 29,
            cids_room(old(self)@, 1),
        ensures
            (final(self)@, res_unit(r)) == ctransfer_spec(old(self)@, caller@, token_id@, to@, now),
            final(self).wf(),
    {
        let mut lock = match self.lock_at(token_id.as_str()) {
            Some(l) => l,
            None => {
                return Err(ChronoError::TokenNotFound);
            },
        };
        if !bytes_eq(lock.owner.as_slice(), caller.as_slice()) {
            return Err(ChronoError::Unauthorized);
        }
        let caller_tokens = self.tokens_of_owner(caller);
        if !list_contains(&caller_tokens, token_id.as_str()) {
            return Err(ChronoError::TokenNotFound);
        }
        let ghost v1 = self@;
        if bytes_eq(caller.as_slice(), to.as_slice()) {
            lock.owner = to_vec(to.as_slice());
            self.set_lock(token_id.as_str(), &lock);
            assert(self@ =~= ClassicView {
                locks: v1.locks.insert(token_id@, TimedLockView { owner: to@, ..v1.locks[token_id@] }),
                ..v1
            });
        } else {
            let mine = list_without(&caller_tokens, token_id.as_str());
            let mut theirs = self.tokens_of_owner(to);
            let ghost before = text_views(theirs@);
            theirs.push(token_id.clone());
            assert(text_views(theirs@) =~= before.push(token_id@));
            lock.owner = to_vec(to.as_slice());
            self.set_lock(token_id.as_str(), &lock);
            self.set_tokens(caller, &mine);
            self.set_tokens(to, &theirs);
            assert(self@ =~= ClassicView {
                locks: v1.locks.insert(token_id@, TimedLockView { owner: to@, ..v1.locks[token_id@] }),
                owner_tokens: v1.owner_tokens.insert(caller@, ctokens_of(v1, caller@).filter(other_than(token_id@))).insert(
                    to@,
                    ctokens_of(v1, to@).push(token_id@),
                ),
                ..v1
            });
        }
        let mut text = String::new();
        push_str(&mut text, "Transferred token ");
        push_str(&mut text, token_id.as_str());
        push_str(&mut text, " to ");
        push_principal_text(&mut text, to);
        self.log_activity(text, now);
        Ok(())
    }
}


// ---------------------------------------------------------------------------
// Media
// ---------------------------------------------------------------------------

/// The largest file `upload_media` takes, in bytes.
pub open spec fn max_upload() -> nat {
    10_485_760
}

/// Where an uploaded file is served: the canister's raw domain and the
/// media path.
pub open spec fn upload_url(canister: Seq<u8>, id: Seq<char>) -> Seq<char> {
    "https://"@ + principal_text(canister) + ".raw.ic0.app/media/"@ + id
}

/// What `upload_media` does: a file of at most ten mebibytes goes in under a
/// new id and its URL comes back.
pub open spec fn cupload_spec(v: ClassicView, data: Seq<u8>, canister: Seq<u8>, now: u64) -> (ClassicView, Result<Seq<char>, ErrView>) {
    if data.len() > max_upload() {
        (v, Err(ErrView::InvalidInput("File size exceeds maximum of 10485760 bytes"@)))
    } else {
        let (v1, id) = cid_spec(v, now);
        (
            clog(ClassicView { media: v1.media.insert(id, data), ..v1 }, "Uploaded media with ID: "@ + id, now),
            Ok(upload_url(canister, id)),
        )
    }
}

impl ClassicRegistry {
    fn set_media(&mut self, id: &str, data: Vec<u8>)
        requires
            old(self).wf(),
        ensures
            final(self)@ == (ClassicView { media: old(self)@.media.insert(id@, data@), ..old(self)@ }),
            final(self).wf(),
    {
        let key = string_bytes(id);
        proof {
            lemma_registry_keys();
            lemma_text_key_valid(id@);
            lemma_decoded_insert(
                byte_table_contents(self.media_files),
                text_ok(),
                text_key(),
                as_raw(),
                id@,
                data@,
            );
        }
        byte_table_insert(&mut self.media_files, key, data);
        assert(self@ =~= ClassicView { media: old(self)@.media.insert(id@, data@), ..old(self)@ });
    }

    /// Stores a whole file and gives its URL (`upload_media`).
    pub fn upload_media(&mut self, file_data: Vec<u8>, canister: &Vec<u8>, now: u64) -> (r: Result<String, ChronoError>)
        requires
            old(self).wf(),
            canister@.len() <= 29,
            cids_room(old(self)@, 2),
        ensures
            (final(self)@, res_text(r)) == cupload_spec(old(self)@, file_data@, canister@, now),
            final(self).wf(),
    {
        if file_data.len() as u64 > 10_485_760 {
            return Err(invalid_input("File size exceeds maximum of 10485760 bytes"));
        }
        let id = self.generate_unique_id(now);
        self.set_media(id.as_str(), file_data);
        let mut url = String::new();
        push_str(&mut url, "https://");
        let c = principal_to_text(canister.as_slice());
        push_str(&mut url, c.as_str());
        push_str(&mut url, ".raw.ic0.app/media/");
        push_str(&mut url, id.as_str());
        let mut text = String::new();
        push_str(&mut text, "Uploaded media with ID: ");
        push_str(&mut text, id.as_str());
        self.log_activity(text, now);
        Ok(url)
    }

    /// A stored file (`get_media`).
    pub fn get_media(&self, media_id: &String) -> (r: Result<Vec<u8>, ChronoError>)
        ensures
            res_bytes(r) == if self@.media.contains_key(media_id@) {
                Ok::<Seq<u8>, ErrView>(self@.media[media_id@])
            } else {
                Err::<Seq<u8>, ErrView>(ErrView::TokenNotFound)
            },
    {
        let key = string_bytes(media_id.as_str());
        proof {
            lemma_registry_keys();
        }
        match byte_table_get(&self.media_files, &key) {
            Some(data) => Ok(data),
            None => Err(ChronoError::TokenNotFound),
        }
    }

    /// Answers an HTTP request: `GET /media/<id>` serves the file
    /// (`http_request`).
    pub fn http_request(&self, request: &HttpRequest) -> (r: HttpResponse)
        requires
            self.wf(),
        ensures
            (r.status_code, header_views(r.headers@), r.body@) == http_spec(self@.media, request.method@, request.url@),
    {
        serve_media(&self.media_files, request)
    }
}

// ---------------------------------------------------------------------------
// Keys from the vetKD canister
// ---------------------------------------------------------------------------

/// The arguments of `vetkd_public_key`: the key's name and the derivation
/// path; the curve is always BLS12-381 G2 and no canister is named.
#[derive(Clone, Debug)]
pub struct VetkdKeyArgs {
    pub key_name: String,
    pub derivation_path: Vec<Vec<u8>>,
}

/// The arguments of `vetkd_derive_encrypted_key`.
#[derive(Clone, Debug)]
pub struct VetkdDeriveArgs {
    pub key_name: String,
    pub derivation_path: Vec<Vec<u8>>,
    pub derivation_id: Vec<u8>,
    pub encryption_public_key: Vec<u8>,
}

pub open spec fn path_views(p: Seq<Vec<u8>>) -> Seq<Seq<u8>> {
    p.map_values(|v: Vec<u8>| v@)
}

/// The key name and derivation path of every request.
pub open spec fn key_path() -> (Seq<char>, Seq<Seq<u8>>) {
    ("time_lock_key"@, seq![encode_utf8("ibe_key"@)])
}

/// The vetKD canister the collection calls: the one given at `init`, else
/// the one it was built for, from its textual id.
pub open spec fn vetkd_canister_spec(v: ClassicView) -> Result<Seq<u8>, ErrView> {
    match v.vetkd {
        Some(c) => Ok(c),
        None => match principal_from_text(default_vetkd_text()) {
            Ok(p) => Ok(p),
            Err(m) => Err(ErrView::InvalidInput("Invalid VetKD canister ID: "@ + m)),
        },
    }
}

/// A call as plain values: the canister, key name, path, and for a
/// derivation the id and the encryption key.
pub open spec fn derive_call_view(r: Result<(Vec<u8>, VetkdDeriveArgs), ChronoError>) -> Result<(Seq<u8>, Seq<char>, Seq<Seq<u8>>, Seq<u8>, Seq<u8>), ErrView> {
    match r {
        Ok((c, a)) => Ok((c@, a.key_name@, path_views(a.derivation_path@), a.derivation_id@, a.encryption_public_key@)),
        Err(e) => Err(e@),
    }
}

/// The derivation call for an id and an encryption key.
pub open spec fn derive_call_spec(v: ClassicView, id: Seq<u8>, pk: Seq<u8>) -> Result<(Seq<u8>, Seq<char>, Seq<Seq<u8>>, Seq<u8>, Seq<u8>), ErrView> {
    match vetkd_canister_spec(v) {
        Err(e) => Err(e),
        Ok(c) => Ok((c, key_path().0, key_path().1, id, pk)),
    }
}

/// What `get_time_decryption_key` asks for: with an encryption key, once
/// the hex time (in seconds) has passed, the key for the bytes that the hex
/// text decodes.
pub open spec fn ctime_key_spec(v: ClassicView, hex: Seq<char>, pk: Seq<u8>, now: u64) -> Result<(Seq<u8>, Seq<char>, Seq<Seq<u8>>, Seq<u8>, Seq<u8>), ErrView> {
    if pk.len() == 0 {
        Err(ErrView::InvalidInput("Encryption public key cannot be empty"@))
    } else {
        match parse_hex(encode_utf8(hex)) {
            Err(e) => Err(ErrView::InvalidInput("Invalid hex for unlock time: "@ + parse_error_text(e))),
            Ok(t) => if now < nanos(t) {
                Err(ErrView::TimeLocked)
            } else {
                match hex_decoded(encode_utf8(hex)) {
                    None => Err(ErrView::InvalidInput("Hex decode failed: "@ + hex_error_text(encode_utf8(hex)))),
                    Some(d) => derive_call_spec(v, d, pk),
                }
            },
        }
    }
}

/// What `get_user_time_decryption_key` asks for: with an encryption key,
/// for the user named, who must be the caller, once the hex time has passed,
/// the key for `<hex>:<user>`.
pub open spec fn cuser_key_spec(v: ClassicView, caller: Seq<u8>, hex: Seq<char>, user_id: Seq<char>, pk: Seq<u8>, now: u64) -> Result<(Seq<u8>, Seq<char>, Seq<Seq<u8>>, Seq<u8>, Seq<u8>), ErrView> {
    if pk.len() == 0 {
        Err(ErrView::InvalidInput("Encryption public key cannot be empty"@))
    } else {
        match principal_from_text(user_id) {
            Err(m) => Err(ErrView::InvalidInput("Invalid user id: "@ + m)),
            Ok(p) => if caller != p {
                Err(ErrView::Unauthorized)
            } else {
                match parse_hex(encode_utf8(hex)) {
                    Err(e) => Err(ErrView::InvalidInput("Invalid hex for unlock time: "@ + parse_error_text(e))),
                    Ok(t) => if now < nanos(t) {
                        Err(ErrView::TimeLocked)
                    } else {
                        derive_call_spec(v, encode_utf8(hex + ":"@ + user_id), pk)
                    },
                }
            },
        }
    }
}

fn key_name_and_path() -> (r: (String, Vec<Vec<u8>>))
    ensures
        (r.0@, path_views(r.1@)) == key_path(),
{
    let mut path: Vec<Vec<u8>> = Vec::new();
    path.push(string_bytes("ibe_key"));
    assert(path_views(path@) =~= seq![encode_utf8("ibe_key"@)]);
    (String::from_str("time_lock_key"), path)
}

/// The text a key comes back as: the vetKD reply in hex.
pub fn key_reply_text(reply: &Vec<u8>) -> (r: String)
    ensures
        r@ == hex_encoded(reply@),
{
    hex_encode(reply.as_slice())
}

impl ClassicRegistry {
    /// The vetKD canister's id: the one given at `init`, else the default
    /// parsed from its text.
    pub fn vetkd_canister(&self) -> (r: Result<Vec<u8>, ChronoError>)
        ensures
            res_bytes(r) == vetkd_canister_spec(self@),
    {
        match &self.vetkd {
            Some(c) => Ok(to_vec(c.as_slice())),
            None => match principal_parse("s55qq-oqaaa-aaaaa-aaakq-cai") {
                Ok(p) => Ok(p),
                Err(e) => {
                    let mut m = String::new();
                    push_str(&mut m, "Invalid VetKD canister ID: ");
                    push_str(&mut m, e.as_str());
                    Err(ChronoError::InvalidInput(m))
                },
            },
        }
    }

    /// The canister and arguments of a key derivation
    /// (`call_vetkd_derive_encrypted_key` up to the call).
    pub fn derive_call(&self, derivation_id: Vec<u8>, encryption_public_key: Vec<u8>) -> (r: Result<(Vec<u8>, VetkdDeriveArgs), ChronoError>)
        ensures
            derive_call_view(r) == derive_call_spec(self@, derivation_id@, encryption_public_key@),
    {
        let (key_name, derivation_path) = key_name_and_path();
        let args = VetkdDeriveArgs { key_name, derivation_path, derivation_id, encryption_public_key };
        match self.vetkd_canister() {
            Ok(c) => Ok((c, args)),
            Err(e) => Err(e),
        }
    }

    /// The canister and arguments of the public-key request
    /// (`ibe_encryption_key` up to the call).
    pub fn ibe_encryption_key_call(&self) -> (r: Result<(Vec<u8>, VetkdKeyArgs), ChronoError>)
        ensures
            match r {
                Ok((c, a)) => vetkd_canister_spec(self@) == Ok::<Seq<u8>, ErrView>(c@) && (a.key_name@, path_views(
                    a.derivation_path@,
                )) == key_path(),
                Err(e) => vetkd_canister_spec(self@) == Err::<Seq<u8>, ErrView>(e@),
            },
    {
        let (key_name, derivation_path) = key_name_and_path();
        let args = VetkdKeyArgs { key_name, derivation_path };
        match self.vetkd_canister() {
            Ok(c) => Ok((c, args)),
            Err(e) => Err(e),
        }
    }

    /// The derivation for a time, once it has passed
    /// (`get_time_decryption_key` up to the call).
    pub fn get_time_decryption_key(&self, unlock_time_hex: &String, encryption_public_key: Vec<u8>, now: u64) -> (r: Result<(Vec<u8>, VetkdDeriveArgs), ChronoError>)
        ensures
            derive_call_view(r) == ctime_key_spec(self@, unlock_time_hex@, encryption_public_key@, now),
    {
        if encryption_public_key.len() == 0 {
            return Err(invalid_input("Encryption public key cannot be empty"));
        }
        let t = match parse_hex_u64(unlock_time_hex.as_str()) {
            Ok(t) => t,
            Err(e) => {
                let mut m = String::new();
                push_str(&mut m, "Invalid hex for unlock time: ");
                let msg = e.message();
                push_str(&mut m, msg.as_str());
                return Err(ChronoError::InvalidInput(m));
            },
        };
        if now < t.wrapping_mul(1_000_000_000) {
            return Err(ChronoError::TimeLocked);
        }
        let id = match hex_decode(unlock_time_hex.as_str()) {
            Ok(d) => d,
            Err(e) => {
                let mut m = String::new();
                push_str(&mut m, "Hex decode failed: ");
                push_str(&mut m, e.as_str());
                return Err(ChronoError::InvalidInput(m));
            },
        };
        self.derive_call(id, encryption_public_key)
    }

    /// The derivation for a user and a time, for that user alone, once the
    /// time has passed (`get_user_time_decryption_key` up to the call).
    pub fn get_user_time_decryption_key(&self, caller: &Vec<u8>, unlock_time_hex: &String, user_id: &String, encryption_public_key: Vec<u8>, now: u64) -> (r: Result<(Vec<u8>, VetkdDeriveArgs), ChronoError>)
        ensures
            derive_call_view(r) == cuser_key_spec(self@, caller@, unlock_time_hex@, user_id@, encryption_public_key@, now),
    {
        if encryption_public_key.len() == 0 {
            return Err(invalid_input("Encryption public key cannot be empty"));
        }
        let p = match principal_parse(user_id.as_str()) {
            Ok(p) => p,
            Err(e) => {
                let mut m = String::new();
                push_str(&mut m, "Invalid user id: ");
                push_str(&mut m, e.as_str());
                return Err(ChronoError::InvalidInput(m));
            },
        };
        if !bytes_eq(caller.as_slice(), p.as_slice()) {
            return Err(ChronoError::Unauthorized);
        }
        let t = match parse_hex_u64(unlock_time_hex.as_str()) {
            Ok(t) => t,
            Err(e) => {
                let mut m = String::new();
                push_str(&mut m, "Invalid hex for unlock time: ");
                let msg = e.message();
                push_str(&mut m, msg.as_str());
                return Err(ChronoError::InvalidInput(m));
            },
        };
        if now < t.wrapping_mul(1_000_000_000) {
            return Err(ChronoError::TimeLocked);
        }
        let mut combined = String::new();
        push_str(&mut combined, unlock_time_hex.as_str());
        push_str(&mut combined, ":");
        push_str(&mut combined, user_id.as_str());
        self.derive_call(string_bytes(combined.as_str()), encryption_public_key)
    }
}

} // verus!
