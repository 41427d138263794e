//! The chronolock collection (ICRC-7): time-locked NFTs whose metadata is
//! kept encrypted, media uploaded in chunks, the activity log, and the
//! principals allowed to act, kept in stable-memory tables.
//!
//! Token, media and log ids are made of the time and a counter,
//! `"<nanoseconds>-<counter>"`; the counter restarts at each new time.
use vstd::prelude::*;
use vstd::utf8::*;
use crate::account::anonymous_principal;
use crate::codec::{fields, parse_fields, views, encode_fields, decode_fields, lemma_fields_roundtrip,
    fields_fit, bytes_lt, lemma_bytes_lt_total, lemma_bytes_lt_irreflexive, to_vec};
use crate::identity::{principal_key, principal_key_of, lemma_principal_key_injective, ii_valid,
    ii_principal_check};
use crate::stable::{Regions, ByteTable, byte_table_contents, region, byte_table_new, byte_table_get,
    byte_table_insert, byte_table_remove, byte_table_len, byte_table_first_key, byte_table_entries};
use crate::tables::{decoded, injective_on, lemma_decoded_insert, lemma_decoded_remove,
    lemma_decoded_empty, lemma_decoded_len, u64_of, u32_of, u64_bytes, u32_bytes, string_of,
    lemma_numbers_roundtrip, lemma_string_roundtrip, lemma_encode_utf8_injective, encode_u64,
    decode_u64, decode_string};
use crate::text::{decimal, push_decimal, push_str, principal_text, principal_to_text, string_bytes};

verus! {

/// Why a collection call failed.
#[derive(Clone, Debug)]
pub enum ChronoError {
    Unauthorized,
    TokenNotFound,
    MetadataTooLarge,
    TimeLocked,
    InvalidInput(String),
    InternalError(String),
    NotAuthenticated,
    InvalidPrincipal,
    UnauthorizedCaller,
    AdminRequired,
}

/// A collection error as plain values.
pub enum ErrView {
    Unauthorized,
    TokenNotFound,
    MetadataTooLarge,
    TimeLocked,
    InvalidInput(Seq<char>),
    InternalError(Seq<char>),
    NotAuthenticated,
    InvalidPrincipal,
    UnauthorizedCaller,
    AdminRequired,
}

impl View for ChronoError {
    type V = ErrView;

    open spec fn view(&self) -> ErrView {
        match self {
            ChronoError::Unauthorized => ErrView::Unauthorized,
            ChronoError::TokenNotFound => ErrView::TokenNotFound,
            ChronoError::MetadataTooLarge => ErrView::MetadataTooLarge,
            ChronoError::TimeLocked => ErrView::TimeLocked,
            ChronoError::InvalidInput(m) => ErrView::InvalidInput(m@),
            ChronoError::InternalError(m) => ErrView::InternalError(m@),
            ChronoError::NotAuthenticated => ErrView::NotAuthenticated,
            ChronoError::InvalidPrincipal => ErrView::InvalidPrincipal,
            ChronoError::UnauthorizedCaller => ErrView::UnauthorizedCaller,
            ChronoError::AdminRequired => ErrView::AdminRequired,
        }
    }
}

pub open spec fn res_unit(r: Result<(), ChronoError>) -> Result<(), ErrView> {
    match r {
        Ok(_) => Ok(()),
        Err(e) => Err(e@),
    }
}

pub open spec fn res_text(r: Result<String, ChronoError>) -> Result<Seq<char>, ErrView> {
    match r {
        Ok(s) => Ok(s@),
        Err(e) => Err(e@),
    }
}

pub open spec fn res_bytes(r: Result<Vec<u8>, ChronoError>) -> Result<Seq<u8>, ErrView> {
    match r {
        Ok(s) => Ok(s@),
        Err(e) => Err(e@),
    }
}

pub open spec fn res_u32(r: Result<u32, ChronoError>) -> Result<u32, ErrView> {
    match r {
        Ok(s) => Ok(s),
        Err(e) => Err(e@),
    }
}

/// An `InvalidInput` error with the given text.
pub fn invalid_input(m: &str) -> (r: ChronoError)
    ensures
        r@ == ErrView::InvalidInput(m@),
{
    ChronoError::InvalidInput(m.to_owned())
}

// ---------------------------------------------------------------------------
// Records
// ---------------------------------------------------------------------------

/// A time-locked NFT: its id, its owner, and its metadata (hex or base64
/// text, as the owner gave it).
#[derive(Clone, Debug)]
pub struct Chronolock {
    pub id: String,
    pub owner: Vec<u8>,
    pub metadata: String,
}

pub struct LockView {
    pub id: Seq<char>,
    pub owner: Seq<u8>,
    pub metadata: Seq<char>,
}

impl View for Chronolock {
    type V = LockView;

    open spec fn view(&self) -> LockView {
        LockView { id: self.id@, owner: self.owner@, metadata: self.metadata@ }
    }
}

/// One entry of the activity log.
#[derive(Clone, Debug)]
pub struct ActivityEntry {
    pub id: String,
    pub timestamp: u64,
    pub activity: String,
}

pub struct ActivityView {
    pub id: Seq<char>,
    pub timestamp: u64,
    pub activity: Seq<char>,
}

impl View for ActivityEntry {
    type V = ActivityView;

    open spec fn view(&self) -> ActivityView {
        ActivityView { id: self.id@, timestamp: self.timestamp, activity: self.activity@ }
    }
}

/// A media upload under way: how many chunks it has, how many came, and
/// each chunk if it came.
#[derive(Clone, Debug)]
pub struct MediaUpload {
    pub total_chunks: u32,
    pub received_chunks: u32,
    pub chunks: Vec<Option<Vec<u8>>>,
}

pub struct UploadView {
    pub total: u32,
    pub received: u32,
    pub chunks: Seq<Option<Seq<u8>>>,
}

pub open spec fn opt_bytes_view(c: Option<Vec<u8>>) -> Option<Seq<u8>> {
    match c {
        Some(v) => Some(v@),
        None => None,
    }
}

pub open spec fn chunk_views(c: Seq<Option<Vec<u8>>>) -> Seq<Option<Seq<u8>>> {
    c.map_values(|x: Option<Vec<u8>>| opt_bytes_view(x))
}

impl View for MediaUpload {
    type V = UploadView;

    open spec fn view(&self) -> UploadView {
        UploadView {
            total: self.total_chunks,
            received: self.received_chunks,
            chunks: chunk_views(self.chunks@),
        }
    }
}

// ---------------------------------------------------------------------------
// State
// ---------------------------------------------------------------------------

/// The collection: its settings and its tables.
pub struct Registry {
    pub admin: Vec<u8>,
    pub network: Option<String>,
    pub max_metadata_size: u64,
    pub last_timestamp: u64,
    pub counter: u64,
    pub admin_bypass: bool,
    pub logs: ByteTable,
    pub chronolocks: ByteTable,
    pub owner_tokens: ByteTable,
    pub media_files: ByteTable,
    pub uploads: ByteTable,
    pub trusted: ByteTable,
    pub settings: ByteTable,
}

/// The collection as plain values.
#[verifier::ext_equal]
pub struct RegistryView {
    pub admin: Seq<u8>,
    pub network: Option<Seq<char>>,
    pub max_metadata_size: u64,
    pub last_timestamp: u64,
    pub counter: u64,
    pub admin_bypass: bool,
    pub logs: Map<Seq<char>, ActivityView>,
    pub locks: Map<Seq<char>, LockView>,
    pub owner_tokens: Map<Seq<u8>, Seq<Seq<char>>>,
    pub media: Map<Seq<char>, Seq<u8>>,
    pub uploads: Map<Seq<char>, UploadView>,
    pub trusted: Map<Seq<u8>, bool>,
    pub saved: Map<Seq<u8>, Seq<u8>>,
}

pub open spec fn opt_text(s: Option<String>) -> Option<Seq<char>> {
    match s {
        Some(x) => Some(x@),
        None => None,
    }
}

// Keys and values of the tables.

pub open spec fn text_ok() -> spec_fn(Seq<char>) -> bool {
    |s: Seq<char>| true
}

/// Ids are stored under their UTF-8 bytes, so that tables keep them in the
/// order of `String`.
pub open spec fn text_key() -> spec_fn(Seq<char>) -> Seq<u8> {
    |s: Seq<char>| encode_utf8(s)
}

pub open spec fn principal_ok() -> spec_fn(Seq<u8>) -> bool {
    |p: Seq<u8>| p.len() <= 29
}

pub open spec fn principal_key_fn() -> spec_fn(Seq<u8>) -> Seq<u8> {
    |p: Seq<u8>| principal_key(p)
}

/// The stored form of a chronolock.
pub open spec fn lock_bytes(l: LockView) -> Seq<u8> {
    fields(seq![encode_utf8(l.id), l.owner, encode_utf8(l.metadata)])
}

pub open spec fn default_lock() -> LockView {
    LockView { id: Seq::empty(), owner: Seq::empty(), metadata: Seq::empty() }
}

pub open spec fn lock_of(b: Seq<u8>) -> LockView {
    match parse_fields(b) {
        Some(l) => if l.len() == 3 {
            LockView { id: string_of(l[0]), owner: l[1], metadata: string_of(l[2]) }
        } else {
            default_lock()
        },
        None => default_lock(),
    }
}

/// The stored form of a log entry.
pub open spec fn activity_bytes(e: ActivityView) -> Seq<u8> {
    fields(seq![encode_utf8(e.id), u64_bytes(e.timestamp), encode_utf8(e.activity)])
}

pub open spec fn default_activity() -> ActivityView {
    ActivityView { id: Seq::empty(), timestamp: 0, activity: Seq::empty() }
}

pub open spec fn activity_of(b: Seq<u8>) -> ActivityView {
    match parse_fields(b) {
        Some(l) => if l.len() == 3 {
            ActivityView { id: string_of(l[0]), timestamp: u64_of(l[1]), activity: string_of(l[2]) }
        } else {
            default_activity()
        },
        None => default_activity(),
    }
}

/// The stored form of a list of token ids.
pub open spec fn list_bytes(ids: Seq<Seq<char>>) -> Seq<u8> {
    fields(ids.map_values(|s: Seq<char>| encode_utf8(s)))
}

pub open spec fn list_of(b: Seq<u8>) -> Seq<Seq<char>> {
    match parse_fields(b) {
        Some(l) => l.map_values(|x: Seq<u8>| string_of(x)),
        None => Seq::empty(),
    }
}

/// The stored form of a chunk that may not have come: a 0, or a 1 then the
/// chunk.
pub open spec fn chunk_bytes(c: Option<Seq<u8>>) -> Seq<u8> {
    match c {
        Some(d) => seq![1u8] + d,
        None => seq![0u8],
    }
}

pub open spec fn chunk_of(b: Seq<u8>) -> Option<Seq<u8>> {
    if b.len() > 0 && b[0] == 1 {
        Some(b.drop_first())
    } else {
        None
    }
}

/// The stored form of an upload: the two counts, then each chunk.
pub open spec fn upload_bytes(u: UploadView) -> Seq<u8> {
    fields(seq![u32_bytes(u.total), u32_bytes(u.received)] + u.chunks.map_values(|c: Option<Seq<u8>>| chunk_bytes(c)))
}

pub open spec fn default_upload() -> UploadView {
    UploadView { total: 0, received: 0, chunks: Seq::empty() }
}

pub open spec fn upload_of(b: Seq<u8>) -> UploadView {
    match parse_fields(b) {
        Some(l) => if l.len() >= 2 {
            UploadView {
                total: u32_of(l[0]),
                received: u32_of(l[1]),
                chunks: l.skip(2).map_values(|x: Seq<u8>| chunk_of(x)),
            }
        } else {
            default_upload()
        },
        None => default_upload(),
    }
}

pub open spec fn bool_of(b: Seq<u8>) -> bool {
    b.len() > 0 && b[0] != 0
}

pub open spec fn as_lock() -> spec_fn(Seq<u8>) -> LockView {
    |b: Seq<u8>| lock_of(b)
}

pub open spec fn as_activity() -> spec_fn(Seq<u8>) -> ActivityView {
    |b: Seq<u8>| activity_of(b)
}

pub open spec fn as_list() -> spec_fn(Seq<u8>) -> Seq<Seq<char>> {
    |b: Seq<u8>| list_of(b)
}

pub open spec fn as_raw() -> spec_fn(Seq<u8>) -> Seq<u8> {
    |b: Seq<u8>| b
}

pub open spec fn as_upload() -> spec_fn(Seq<u8>) -> UploadView {
    |b: Seq<u8>| upload_of(b)
}

pub open spec fn as_bool() -> spec_fn(Seq<u8>) -> bool {
    |b: Seq<u8>| bool_of(b)
}

impl View for Registry {
    type V = RegistryView;

    open spec fn view(&self) -> RegistryView {
        RegistryView {
            admin: self.admin@,
            network: opt_text(self.network),
            max_metadata_size: self.max_metadata_size,
            last_timestamp: self.last_timestamp,
            counter: self.counter,
            admin_bypass: self.admin_bypass,
            logs: decoded(byte_table_contents(self.logs), text_ok(), text_key(), as_activity()),
            locks: decoded(byte_table_contents(self.chronolocks), text_ok(), text_key(), as_lock()),
            owner_tokens: decoded(
                byte_table_contents(self.owner_tokens),
                principal_ok(),
                principal_key_fn(),
                as_list(),
            ),
            media: decoded(byte_table_contents(self.media_files), text_ok(), text_key(), as_raw()),
            uploads: decoded(byte_table_contents(self.uploads), text_ok(), text_key(), as_upload()),
            trusted: decoded(
                byte_table_contents(self.trusted),
                principal_ok(),
                principal_key_fn(),
                as_bool(),
            ),
            saved: byte_table_contents(self.settings),
        }
    }
}

/// Every key of a text table is UTF-8, and the table is finite.
pub open spec fn text_table_ok(raw: Map<Seq<u8>, Seq<u8>>) -> bool {
    &&& raw.dom().finite()
    &&& forall|k: Seq<u8>| #[trigger] raw.contains_key(k) ==> valid_utf8(k)
}

/// A key made by `principal_key`.
pub open spec fn is_principal_key(k: Seq<u8>) -> bool {
    &&& k.len() == 30
    &&& k[0] <= 29
    &&& forall|i: int| 1 + k[0] <= i < 30 ==> #[trigger] k[i] == 0
}

/// Whether `k` is a key made by `principal_key`.
pub fn is_principal_key_bytes(k: &Vec<u8>) -> (r: bool)
    ensures
        r == is_principal_key(k@),
{
    if k.len() != 30 || k[0] > 29 {
        return false;
    }
    let mut i: usize = 1 + k[0] as usize;
    while i < 30
        invariant
            k@.len() == 30,
            k@[0] <= 29,
            1 + k@[0] <= i <= 30,
            forall|j: int| 1 + k@[0] <= j < i ==> #[trigger] k@[j] == 0,
        decreases 30 - i,
    {
        if k[i] != 0 {
            return false;
        }
        i = i + 1;
    }
    true
}

/// The principal whose key `k` is.
pub open spec fn principal_of_key(k: Seq<u8>) -> Seq<u8> {
    k.subrange(1, 1 + k[0])
}

/// Every key of a principal table is a principal's key, and the table is
/// finite.
pub open spec fn principal_table_ok(raw: Map<Seq<u8>, Seq<u8>>) -> bool {
    &&& raw.dom().finite()
    &&& forall|k: Seq<u8>| #[trigger] raw.contains_key(k) ==> is_principal_key(k)
}

pub open spec fn text_dec() -> spec_fn(Seq<u8>) -> Seq<char> {
    |b: Seq<u8>| decode_utf8(b)
}

pub open spec fn principal_dec() -> spec_fn(Seq<u8>) -> Seq<u8> {
    |b: Seq<u8>| principal_of_key(b)
}

/// How many chunks have come.
pub open spec fn filled(c: Seq<Option<Seq<u8>>>) -> nat
    decreases c.len(),
{
    if c.len() == 0 {
        0
    } else {
        filled(c.drop_last()) + if c.last() is Some {
            1nat
        } else {
            0nat
        }
    }
}

pub proof fn lemma_filled_bound(c: Seq<Option<Seq<u8>>>)
    ensures
        filled(c) <= c.len(),
        (exists|i: int| 0 <= i < c.len() && c[i] is None) ==> filled(c) < c.len(),
    decreases c.len(),
{
    if c.len() > 0 {
        lemma_filled_bound(c.drop_last());
        if exists|i: int| 0 <= i < c.len() && c[i] is None {
            let i = choose|i: int| 0 <= i < c.len() && c[i] is None;
            if i < c.len() - 1 {
                assert(c.drop_last()[i] is None);
            }
        }
    }
}

pub proof fn lemma_filled_update(c: Seq<Option<Seq<u8>>>, i: int, x: Seq<u8>)
    requires
        0 <= i < c.len(),
        c[i] is None,
    ensures
        filled(c.update(i, Some(x))) == filled(c) + 1,
    decreases c.len(),
{
    let d = c.update(i, Some(x));
    if i == c.len() - 1 {
        assert(d.drop_last() =~= c.drop_last());
    } else {
        assert(d.drop_last() =~= c.drop_last().update(i, Some(x)));
        lemma_filled_update(c.drop_last(), i, x);
    }
}

pub proof fn lemma_filled_none(n: nat)
    ensures
        filled(Seq::new(n, |i: int| None::<Seq<u8>>)) == 0,
    decreases n,
{
    if n > 0 {
        assert(Seq::new(n, |i: int| None::<Seq<u8>>).drop_last() =~= Seq::new(
            (n - 1) as nat,
            |i: int| None::<Seq<u8>>,
        ));
        lemma_filled_none((n - 1) as nat);
    }
}

/// An upload whose chunk list has the announced length and whose count of
/// chunks that came is right.
pub open spec fn upload_ok(u: UploadView) -> bool {
    u.chunks.len() == u.total && u.received == filled(u.chunks)
}

/// Every upload under way is consistent.
pub open spec fn uploads_ok(v: RegistryView) -> bool {
    forall|k: Seq<char>| #[trigger] v.uploads.contains_key(k) ==> upload_ok(v.uploads[k])
}

impl Registry {
    /// The collection's invariant: the admin is a principal, every table is
    /// finite with keys made as ids or principals are stored, and the ids of
    /// chronolocks and uploads are ASCII (they are made by
    /// `generate_unique_id`), and each upload under way is consistent.
    pub open spec fn wf(&self) -> bool {
        &&& self.admin@.len() <= 29
        &&& text_table_ok(byte_table_contents(self.logs))
        &&& text_table_ok(byte_table_contents(self.chronolocks))
        &&& text_table_ok(byte_table_contents(self.media_files))
        &&& text_table_ok(byte_table_contents(self.uploads))
        &&& principal_table_ok(byte_table_contents(self.owner_tokens))
        &&& principal_table_ok(byte_table_contents(self.trusted))
        &&& forall|k: Seq<char>| #[trigger] self@.locks.contains_key(k) ==> is_ascii_chars(k)
            && self@.locks[k].owner.len() <= 29
        &&& uploads_ok(self@)
        &&& forall|k: Seq<char>| #[trigger] self@.uploads.contains_key(k) ==> is_ascii_chars(k)
    }
}

// ---------------------------------------------------------------------------
// Facts about keys and stored forms
// ---------------------------------------------------------------------------

pub proof fn lemma_registry_keys()
    ensures
        injective_on(text_ok(), text_key()),
        injective_on(principal_ok(), principal_key_fn()),
{
    assert forall|a: Seq<char>, b: Seq<char>|
        text_ok()(a) && text_ok()(b) && #[trigger] text_key()(a) == #[trigger] text_key()(
            b,
        ) implies a == b by {
        lemma_encode_utf8_injective(a, b);
    }
    assert forall|a: Seq<u8>, b: Seq<u8>|
        principal_ok()(a) && principal_ok()(b) && #[trigger] principal_key_fn()(a)
            == #[trigger] principal_key_fn()(b) implies a == b by {
        lemma_principal_key_injective(a, b);
    }
}

pub proof fn lemma_text_key_valid(s: Seq<char>)
    ensures
        valid_utf8(encode_utf8(s)),
        decode_utf8(encode_utf8(s)) == s,
{
    encode_utf8_valid_utf8(s);
    encode_utf8_decode_utf8(s);
}

pub proof fn lemma_principal_key_valid(p: Seq<u8>)
    requires
        p.len() <= 29,
    ensures
        is_principal_key(principal_key(p)),
        principal_of_key(principal_key(p)) == p,
{
    let k = principal_key(p);
    assert(k[0] == p.len() as u8);
    assert(k.subrange(1, 1 + k[0]) =~= p);
}

/// A text table with UTF-8 keys has as many ids as raw entries.
pub proof fn lemma_text_table_len<V>(raw: Map<Seq<u8>, Seq<u8>>, val: spec_fn(Seq<u8>) -> V)
    requires
        text_table_ok(raw),
    ensures
        decoded(raw, text_ok(), text_key(), val).len() == raw.len(),
        decoded(raw, text_ok(), text_key(), val).dom().finite(),
{
    lemma_registry_keys();
    assert forall|b: Seq<u8>| #[trigger] raw.contains_key(b) implies text_ok()(text_dec()(b))
        && text_key()(text_dec()(b)) == b by {
        decode_utf8_encode_utf8(b);
    }
    lemma_decoded_len(raw, text_ok(), text_key(), val, text_dec());
}

/// A principal table with principal keys has as many principals as raw
/// entries.
pub proof fn lemma_principal_table_len<V>(raw: Map<Seq<u8>, Seq<u8>>, val: spec_fn(Seq<u8>) -> V)
    requires
        principal_table_ok(raw),
    ensures
        decoded(raw, principal_ok(), principal_key_fn(), val).len() == raw.len(),
{
    lemma_registry_keys();
    assert forall|b: Seq<u8>| #[trigger] raw.contains_key(b) implies principal_ok()(
        principal_dec()(b),
    ) && principal_key_fn()(principal_dec()(b)) == b by {
        let p = principal_of_key(b);
        assert(principal_key(p) =~= b);
    }
    lemma_decoded_len(raw, principal_ok(), principal_key_fn(), val, principal_dec());
}

pub proof fn lemma_lock_roundtrip(l: LockView)
    requires
        encode_utf8(l.id).len() < 0x1_0000_0000_0000_0000,
        encode_utf8(l.metadata).len() < 0x1_0000_0000_0000_0000,
        l.owner.len() < 0x1_0000_0000_0000_0000,
    ensures
        lock_of(lock_bytes(l)) == l,
{
    let s = seq![encode_utf8(l.id), l.owner, encode_utf8(l.metadata)];
    assert(fields_fit(s));
    lemma_fields_roundtrip(s);
    lemma_string_roundtrip(l.id);
    lemma_string_roundtrip(l.metadata);
}

pub proof fn lemma_activity_roundtrip(e: ActivityView)
    requires
        encode_utf8(e.id).len() < 0x1_0000_0000_0000_0000,
        encode_utf8(e.activity).len() < 0x1_0000_0000_0000_0000,
    ensures
        activity_of(activity_bytes(e)) == e,
{
    let s = seq![encode_utf8(e.id), u64_bytes(e.timestamp), encode_utf8(e.activity)];
    lemma_numbers_roundtrip(0, e.timestamp, 0);
    assert(fields_fit(s));
    lemma_fields_roundtrip(s);
    lemma_string_roundtrip(e.id);
    lemma_string_roundtrip(e.activity);
}

// ---------------------------------------------------------------------------
// Ids and the activity log
// ---------------------------------------------------------------------------

/// The most log entries kept.
pub open spec fn max_activity_logs() -> nat {
    10_000
}

/// The collection after an id is made at time `now`, and the id.
pub open spec fn id_spec(v: RegistryView, now: u64) -> (RegistryView, Seq<char>) {
    let count: u64 = if v.last_timestamp != now {
        0
    } else {
        (v.counter + 1) as u64
    };
    (
        RegistryView { last_timestamp: now, counter: count, ..v },
        decimal(now as nat) + "-"@ + decimal(count as nat),
    )
}

/// Room for `n` more ids without the counter overflowing.
pub open spec fn ids_room(v: RegistryView, n: nat) -> bool {
    v.counter + n <= u64::MAX
}

/// An activity text that the log can shorten: 100 bytes or fewer, or a
/// character boundary at byte 97.
pub open spec fn can_log(a: Seq<char>) -> bool {
    encode_utf8(a).len() > 100 ==> is_char_boundary(encode_utf8(a), 97)
}

/// The activity as the log keeps it: past 100 bytes, its first 97 bytes and
/// `...`.
pub open spec fn sanitized(a: Seq<char>) -> Seq<char> {
    if encode_utf8(a).len() > 100 {
        decode_utf8(encode_utf8(a).subrange(0, 97)) + "..."@
    } else {
        a
    }
}

/// The least id of a map, in the order of the ids' bytes.
pub open spec fn min_id<V>(m: Map<Seq<char>, V>) -> Seq<char> {
    choose|k: Seq<char>|
        m.contains_key(k) && forall|j: Seq<char>|
            #[trigger] m.contains_key(j) ==> !bytes_lt(encode_utf8(j), encode_utf8(k))
}

/// A finite map with an id has a least id.
pub proof fn lemma_min_id_exists<V>(m: Map<Seq<char>, V>)
    requires
        m.dom().finite(),
        m.len() > 0,
    ensures
        m.contains_key(min_id(m)),
        forall|j: Seq<char>| #[trigger] m.contains_key(j) ==> !bytes_lt(encode_utf8(j), encode_utf8(min_id(m))),
    decreases m.len(),
{
    let x = m.dom().choose();
    assert(m.contains_key(x));
    let rest = m.remove(x);
    assert(rest.dom() =~= m.dom().remove(x));
    if rest.len() == 0 {
        assert forall|j: Seq<char>| #[trigger] m.contains_key(j) implies !bytes_lt(encode_utf8(j), encode_utf8(x)) by {
            if j != x {
                assert(rest.contains_key(j));
            }
            crate::codec::lemma_bytes_lt_irreflexive(encode_utf8(x));
        }
    } else {
        lemma_min_id_exists(rest);
        let y = min_id(rest);
        if bytes_lt(encode_utf8(x), encode_utf8(y)) {
            assert forall|j: Seq<char>| #[trigger] m.contains_key(j) implies !bytes_lt(encode_utf8(j), encode_utf8(x)) by {
                if j == x {
                    crate::codec::lemma_bytes_lt_irreflexive(encode_utf8(x));
                } else {
                    assert(rest.contains_key(j));
                    if bytes_lt(encode_utf8(j), encode_utf8(x)) {
                        crate::codec::lemma_bytes_lt_trans(encode_utf8(j), encode_utf8(x), encode_utf8(y));
                    }
                }
            }
        } else {
            assert forall|j: Seq<char>| #[trigger] m.contains_key(j) implies !bytes_lt(encode_utf8(j), encode_utf8(y)) by {
                if j != x {
                    assert(rest.contains_key(j));
                }
            }
        }
    }
}

/// The collection after `log_activity`: at the most entries kept the least
/// id goes; then a new id is made and the entry goes in under it.
pub open spec fn log_spec(v: RegistryView, a: Seq<char>, now: u64) -> RegistryView {
    let logs1 = if v.logs.len() >= max_activity_logs() {
        v.logs.remove(min_id(v.logs))
    } else {
        v.logs
    };
    let (v1, id) = id_spec(v, now);
    RegistryView {
        logs: logs1.insert(id, ActivityView { id, timestamp: now, activity: sanitized(a) }),
        ..v1
    }
}

/// An ASCII text can always be logged, and is shortened character-wise.
pub proof fn lemma_ascii_log(a: Seq<char>)
    requires
        is_ascii_chars(a),
    ensures
        can_log(a),
        encode_utf8(a).len() == a.len(),
        sanitized(a) == if a.len() > 100 {
            a.subrange(0, 97) + "..."@
        } else {
            a
        },
{
    is_ascii_chars_encode_utf8(a);
    let b = encode_utf8(a);
    if b.len() > 100 {
        encode_utf8_valid_utf8(a);
        is_char_boundary_iff_not_is_continuation_byte(b, 97);
        assert(b[97] == a[97] as u8);
        assert((a[97] as u32) < 128) by {
            assert('\0' <= a[97] <= '\u{7f}');
        }
        assert(!is_continuation_byte(b[97]));
        let head = a.subrange(0, 97);
        assert(is_ascii_chars(head));
        is_ascii_chars_encode_utf8(head);
        assert(encode_utf8(head) =~= b.subrange(0, 97));
        encode_utf8_decode_utf8(head);
    }
}

impl Registry {
    /// Makes a fresh id from the time and the counter
    /// (`generate_unique_id`).
    pub fn generate_unique_id(&mut self, now: u64) -> (r: String)
        requires
            ids_room(old(self)@, 1),
        ensures
            (final(self)@, r@) == id_spec(old(self)@, now),
            final(self).wf() == old(self).wf(),
            is_ascii_chars(r@),
    {
        if self.last_timestamp != now {
            self.last_timestamp = now;
            self.counter = 0;
        } else {
            self.counter = self.counter + 1;
        }
        let mut id = String::new();
        push_decimal(&mut id, now as u128);
        push_str(&mut id, "-");
        push_decimal(&mut id, self.counter as u128);
        proof {
            lemma_decimal_ascii(now as nat);
            lemma_decimal_ascii(self.counter as nat);
            reveal_strlit("-");
            assert(is_ascii_chars("-"@));
            assert(is_ascii_chars(decimal(now as nat) + "-"@));
            assert(id@ == decimal(now as nat) + "-"@ + decimal(self.counter as nat));
            assert(self@.locks == old(self)@.locks);
            assert(self@.uploads == old(self)@.uploads);
        }
        id
    }

    /// Adds an entry to the activity log (`log_activity`).
    pub fn log_activity(&mut self, activity: String, now: u64)
        requires
            old(self).wf(),
            ids_room(old(self)@, 1),
            can_log(activity@),
        ensures
            final(self)@ == log_spec(old(self)@, activity@, now),
            final(self).wf(),
    {
        let bytes = activity.as_str().as_bytes();
        let kept: String = if bytes.len() > 100 {
            let (head, _) = activity.as_str().split_at(97);
            let mut k = head.to_owned();
            push_str(&mut k, "...");
            proof {
                encode_utf8_valid_utf8(activity@);
                valid_utf8_split(encode_utf8(activity@), 97);
                decode_utf8_encode_utf8(encode_utf8(activity@).subrange(0, 97));
                encode_utf8_decode_utf8(head@);
                assert(head@ == decode_utf8(encode_utf8(activity@).subrange(0, 97)));
            }
            k
        } else {
            activity
        };
        let ghost v0 = self@;
        let n = byte_table_len(&self.logs);
        proof {
            lemma_text_table_len(byte_table_contents(self.logs), as_activity());
        }
        if n >= 10_000 {
            match byte_table_first_key(&self.logs) {
                Some(first) => {
                    let ghost raw = byte_table_contents(self.logs);
                    let ghost k = decode_utf8(first@);
                    proof {
                        lemma_registry_keys();
                        decode_utf8_encode_utf8(first@);
                        assert(encode_utf8(k) == first@);
                        assert(v0.logs.contains_key(k));
                        assert forall|j: Seq<char>| #[trigger] v0.logs.contains_key(j) implies !bytes_lt(
                            encode_utf8(j),
                            encode_utf8(k),
                        ) by {
                            assert(raw.contains_key(encode_utf8(j)));
                        }
                        let m = min_id(v0.logs);
                        assert(v0.logs.contains_key(m) && forall|j: Seq<char>|
                            #[trigger] v0.logs.contains_key(j) ==> !bytes_lt(encode_utf8(j), encode_utf8(m)));
                        if m != k {
                            lemma_encode_utf8_injective_neq(m, k);
                            lemma_bytes_lt_total(encode_utf8(m), encode_utf8(k));
                        }
                        lemma_decoded_remove(raw, text_ok(), text_key(), as_activity(), k);
                    }
                    byte_table_remove(&mut self.logs, &first);
                    assert(self@.logs == v0.logs.remove(min_id(v0.logs)));
                },
                None => {
                    proof {
                        assert(v0.logs.len() >= 10_000);
                        assert(byte_table_contents(self.logs).dom() =~= Set::<Seq<u8>>::empty());
                    }
                },
            }
        }
        let ghost logs1 = self@.logs;
        let id = self.generate_unique_id(now);
        let key = string_bytes(id.as_str());
        let id_bytes = string_bytes(id.as_str());
        let text_bytes = string_bytes(kept.as_str());
        let id_len = id_bytes.len();
        let text_len = text_bytes.len();
        let ghost entry = ActivityView { id: id@, timestamp: now, activity: kept@ };
        let mut parts: Vec<Vec<u8>> = Vec::new();
        parts.push(id_bytes);
        parts.push(encode_u64(now));
        parts.push(text_bytes);
        let value = encode_fields(&parts);
        proof {
            assert(views(parts@) =~= seq![encode_utf8(id@), u64_bytes(now), encode_utf8(kept@)]);
            assert(encode_utf8(id@).len() == parts@[0]@.len());
            assert(encode_utf8(kept@).len() == parts@[2]@.len());
            lemma_activity_roundtrip(entry);
            lemma_registry_keys();
            lemma_text_key_valid(id@);
            lemma_decoded_insert(
                byte_table_contents(self.logs),
                text_ok(),
                text_key(),
                as_activity(),
                id@,
                value@,
            );
        }
        byte_table_insert(&mut self.logs, key, value);
        assert(self@.logs =~= logs1.insert(id@, entry));
    }
}

// ---------------------------------------------------------------------------
// Listing tables in key order
// ---------------------------------------------------------------------------

pub open spec fn entry_views(r: Seq<(Vec<u8>, Vec<u8>)>) -> Seq<(Seq<u8>, Seq<u8>)> {
    r.map_values(|e: (Vec<u8>, Vec<u8>)| (e.0@, e.1@))
}

/// `e` lists every entry of `raw` once, by increasing key.
pub open spec fn lists_raw(e: Seq<(Seq<u8>, Seq<u8>)>, raw: Map<Seq<u8>, Seq<u8>>) -> bool {
    &&& forall|i: int|
        0 <= i < e.len() ==> raw.contains_key(#[trigger] e[i].0) && raw[e[i].0] == e[i].1
    &&& forall|k: Seq<u8>| raw.contains_key(k) ==> exists|i: int| 0 <= i < e.len() && #[trigger] e[i].0 == k
    &&& forall|i: int, j: int| 0 <= i < j < e.len() ==> bytes_lt(e[i].0, e[j].0)
}

/// What `byte_table_entries` promises, read over the entries' views.
pub proof fn lemma_entries_list_raw(r: Seq<(Vec<u8>, Vec<u8>)>, raw: Map<Seq<u8>, Seq<u8>>)
    requires
        forall|i: int|
            0 <= i < r.len() ==> raw.contains_key(#[trigger] r[i].0@) && raw[r[i].0@] == r[i].1@,
        forall|k: Seq<u8>| raw.contains_key(k) ==> exists|i: int| 0 <= i < r.len() && #[trigger] r[i].0@ == k,
        forall|i: int, j: int| 0 <= i < j < r.len() ==> bytes_lt(r[i].0@, r[j].0@),
    ensures
        lists_raw(entry_views(r), raw),
{
    let e = entry_views(r);
    assert forall|i: int| 0 <= i < e.len() implies raw.contains_key(#[trigger] e[i].0) && raw[e[i].0]
        == e[i].1 by {
        assert(e[i] == (r[i].0@, r[i].1@));
    }
    assert forall|k: Seq<u8>| raw.contains_key(k) implies exists|i: int|
        0 <= i < e.len() && #[trigger] e[i].0 == k by {
        let i = choose|i: int| 0 <= i < r.len() && #[trigger] r[i].0@ == k;
        assert(e[i].0 == k);
    }
    assert forall|i: int, j: int| 0 <= i < j < e.len() implies bytes_lt(e[i].0, e[j].0) by {
        assert(e[i].0 == r[i].0@);
        assert(e[j].0 == r[j].0@);
    }
}

/// `ks` lists the ids of `dom` once each, in increasing order of their
/// bytes (the order of `String`).
pub open spec fn sorted_ids(ks: Seq<Seq<char>>, dom: Set<Seq<char>>) -> bool {
    &&& forall|i: int, j: int| 0 <= i < j < ks.len() ==> bytes_lt(encode_utf8(ks[i]), encode_utf8(ks[j]))
    &&& forall|i: int| 0 <= i < ks.len() ==> dom.contains(#[trigger] ks[i])
    &&& forall|k: Seq<char>| dom.contains(k) ==> ks.contains(k)
}

/// `ps` lists the principals of `dom` once each, in increasing order of
/// their keys (the order of `Principal`).
pub open spec fn sorted_principals(ps: Seq<Seq<u8>>, dom: Set<Seq<u8>>) -> bool {
    &&& forall|i: int, j: int| 0 <= i < j < ps.len() ==> bytes_lt(principal_key(ps[i]), principal_key(ps[j]))
    &&& forall|i: int| 0 <= i < ps.len() ==> dom.contains(#[trigger] ps[i])
    &&& forall|k: Seq<u8>| dom.contains(k) ==> ps.contains(k)
}

pub open spec fn ids_of(e: Seq<(Seq<u8>, Seq<u8>)>) -> Seq<Seq<char>> {
    e.map_values(|x: (Seq<u8>, Seq<u8>)| decode_utf8(x.0))
}

pub open spec fn principals_of(e: Seq<(Seq<u8>, Seq<u8>)>) -> Seq<Seq<u8>> {
    e.map_values(|x: (Seq<u8>, Seq<u8>)| principal_of_key(x.0))
}

/// The entries of a text table, by increasing key, give its ids in order.
pub proof fn lemma_sorted_text_entries<V>(
    raw: Map<Seq<u8>, Seq<u8>>,
    e: Seq<(Seq<u8>, Seq<u8>)>,
    val: spec_fn(Seq<u8>) -> V,
)
    requires
        text_table_ok(raw),
        lists_raw(e, raw),
    ensures
        sorted_ids(ids_of(e), decoded(raw, text_ok(), text_key(), val).dom()),
        forall|i: int|
            0 <= i < e.len() ==> #[trigger] decoded(raw, text_ok(), text_key(), val)[ids_of(e)[i]]
                == val(e[i].1),
        ids_of(e).len() == e.len(),
{
    let m = decoded(raw, text_ok(), text_key(), val);
    let ks = ids_of(e);
    assert forall|i: int| 0 <= i < e.len() implies encode_utf8(#[trigger] ks[i]) == e[i].0 by {
        assert(raw.contains_key(e[i].0));
        decode_utf8_encode_utf8(e[i].0);
    }
    assert forall|i: int, j: int| 0 <= i < j < ks.len() implies bytes_lt(
        encode_utf8(ks[i]),
        encode_utf8(ks[j]),
    ) by {
        assert(encode_utf8(ks[i]) == e[i].0);
        assert(encode_utf8(ks[j]) == e[j].0);
    }
    assert forall|i: int| 0 <= i < ks.len() implies m.dom().contains(#[trigger] ks[i]) by {
        assert(encode_utf8(ks[i]) == e[i].0);
    }
    assert forall|k: Seq<char>| m.dom().contains(k) implies ks.contains(k) by {
        let b = encode_utf8(k);
        assert(raw.contains_key(b));
        let i = choose|i: int| 0 <= i < e.len() && #[trigger] e[i].0 == b;
        lemma_text_key_valid(k);
        assert(ks[i] == k);
    }
    assert forall|i: int| 0 <= i < e.len() implies #[trigger] m[ks[i]] == val(e[i].1) by {
        assert(encode_utf8(ks[i]) == e[i].0);
    }
}

/// The entries of a principal table, by increasing key, give its principals
/// in order.
pub proof fn lemma_sorted_principal_entries<V>(
    raw: Map<Seq<u8>, Seq<u8>>,
    e: Seq<(Seq<u8>, Seq<u8>)>,
    val: spec_fn(Seq<u8>) -> V,
)
    requires
        principal_table_ok(raw),
        lists_raw(e, raw),
    ensures
        sorted_principals(principals_of(e), decoded(raw, principal_ok(), principal_key_fn(), val).dom()),
        forall|i: int|
            0 <= i < e.len() ==> #[trigger] decoded(raw, principal_ok(), principal_key_fn(), val)[principals_of(e)[i]]
                == val(e[i].1),
        forall|i: int| 0 <= i < e.len() ==> (#[trigger] principals_of(e)[i]).len() <= 29,
        principals_of(e).len() == e.len(),
{
    let m = decoded(raw, principal_ok(), principal_key_fn(), val);
    let ps = principals_of(e);
    assert forall|i: int| 0 <= i < e.len() implies principal_key(#[trigger] ps[i]) == e[i].0 && ps[i].len() <= 29 by {
        assert(raw.contains_key(e[i].0));
        assert(principal_key(principal_of_key(e[i].0)) =~= e[i].0);
    }
    assert forall|i: int, j: int| 0 <= i < j < ps.len() implies bytes_lt(
        principal_key(ps[i]),
        principal_key(ps[j]),
    ) by {
        assert(principal_key(ps[i]) == e[i].0);
        assert(principal_key(ps[j]) == e[j].0);
    }
    assert forall|i: int| 0 <= i < ps.len() implies m.dom().contains(#[trigger] ps[i]) by {
        assert(principal_key(ps[i]) == e[i].0);
    }
    assert forall|k: Seq<u8>| m.dom().contains(k) implies ps.contains(k) by {
        let b = principal_key(k);
        assert(raw.contains_key(b));
        let i = choose|i: int| 0 <= i < e.len() && #[trigger] e[i].0 == b;
        lemma_principal_key_valid(k);
        assert(ps[i] == k);
    }
    assert forall|i: int| 0 <= i < e.len() implies #[trigger] m[ps[i]] == val(e[i].1) by {
        assert(principal_key(ps[i]) == e[i].0);
    }
}

/// The items from `offset`, at most `limit` of them (`skip` then `take`).
pub open spec fn page<A>(s: Seq<A>, offset: u64, limit: u64) -> Seq<A> {
    if offset >= s.len() {
        Seq::empty()
    } else if limit >= s.len() - offset {
        s.subrange(offset as int, s.len() as int)
    } else {
        s.subrange(offset as int, offset + limit)
    }
}

/// The bounds of a page over `n` items.
pub fn page_bounds(n: usize, offset: u64, limit: u64) -> (r: (usize, usize))
    ensures
        r.0 <= r.1 <= n,
        offset >= n ==> r.0 == r.1,
        offset < n ==> r.0 == offset && (if limit >= n - offset {
            r.1 == n
        } else {
            r.1 == offset + limit
        }),
{
    let n64 = n as u64;
    if offset >= n64 {
        (n, n)
    } else if limit >= n64 - offset {
        (offset as usize, n)
    } else {
        (offset as usize, (offset + limit) as usize)
    }
}

pub proof fn lemma_encode_utf8_injective_neq(a: Seq<char>, b: Seq<char>)
    requires
        a != b,
    ensures
        encode_utf8(a) != encode_utf8(b),
{
    if encode_utf8(a) == encode_utf8(b) {
        lemma_encode_utf8_injective(a, b);
    }
}

/// Decimal digits are ASCII.
pub proof fn lemma_decimal_ascii(n: nat)
    ensures
        is_ascii_chars(decimal(n)),
    decreases n,
{
    if n >= 10 {
        lemma_decimal_ascii(n / 10);
    }
}

} // verus!
