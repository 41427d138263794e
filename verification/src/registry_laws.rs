//! What holds of the collection across its operations.
use vstd::prelude::*;
use vstd::utf8::encode_utf8;
use crate::access::{accessible, time_key_spec, nanos, FieldsView, opens_for, user_key_spec};
use crate::account::anonymous_principal;
use crate::identity::ii_valid;
use crate::registry::{uploads_ok, upload_ok, filled, lemma_filled_bound, lemma_filled_update, lemma_filled_none,
    RegistryView, ErrView, LockView, log_spec, id_spec, ids_room, max_activity_logs, page,
    sorted_ids};
use crate::codec::{bytes_lt, lemma_bytes_lt_irreflexive};
use crate::ledger::lemma_bytes_lt_asym;
use crate::text::{decimal, lemma_decimal_digits, lemma_decimal_injective};
use crate::registry_auth::{auth_spec, admin_auth_spec, is_trusted, fresh_view, init_text, values_at};
use crate::registry_media::{chunk_spec, finish_spec, joined, chunk_of_file, start_upload_spec,
    fresh_upload, max_file, media_url};
use crate::registry_tokens::{create_spec, update_spec, burn_spec, transfer_spec, capped, tokens_of, other_than};

verus! {

/// The anonymous principal never passes as an Internet Identity principal,
/// whatever its text, and even when it is on the trusted list.
pub proof fn law_anonymous_never_valid(trusted: bool, text: Seq<u8>)
    ensures
        !ii_valid(anonymous_principal(), trusted, text),
{
}

/// A trusted principal may always act, and nothing changes.
pub proof fn law_trusted_may_act(v: RegistryView, caller: Seq<u8>, now: u64)
    requires
        is_trusted(v, caller),
    ensures
        auth_spec(v, caller, now) == (v, Ok::<(), ErrView>(())),
{
}

/// While the admin bypass is on, every caller may act and nothing changes;
/// with it off, only trusted or Internet Identity principals may.
pub proof fn law_bypass_admits_everyone(v: RegistryView, caller: Seq<u8>, now: u64)
    ensures
        auth_spec(RegistryView { admin_bypass: true, ..v }, caller, now) == (
            RegistryView { admin_bypass: true, ..v },
            Ok::<(), ErrView>(()),
        ),
        auth_spec(RegistryView { admin_bypass: false, ..v }, caller, now).1 is Ok <==> (is_trusted(v, caller)
            || crate::registry_auth::ii_of(v, caller)),
{
}

/// A refused caller changes nothing but the log and the id counter.
pub proof fn law_refused_caller_only_logs(v: RegistryView, caller: Seq<u8>, now: u64)
    requires
        auth_spec(v, caller, now).1 is Err,
    ensures
        ({
            let w = auth_spec(v, caller, now).0;
            &&& w.locks == v.locks
            &&& w.owner_tokens == v.owner_tokens
            &&& w.media == v.media
            &&& w.uploads == v.uploads
            &&& w.trusted == v.trusted
            &&& w.admin == v.admin
            &&& w.admin_bypass == v.admin_bypass
            &&& w.max_metadata_size == v.max_metadata_size
        }),
{
}

/// Only the admin passes the admin check.
pub proof fn law_admin_check_only_admin(v: RegistryView, caller: Seq<u8>, now: u64)
    requires
        admin_auth_spec(v, caller, now).1 is Ok,
    ensures
        caller == v.admin,
        admin_auth_spec(v, caller, now).0 == v,
{
}

/// A created chronolock belongs to its creator, holds the metadata given,
/// is the only new id, and ends the creator's list.
pub proof fn law_create_then_read(v: RegistryView, caller: Seq<u8>, meta: Seq<char>, now: u64)
    requires
        create_spec(v, caller, meta, now).1 is Ok,
    ensures
        ({
            let (w, r) = create_spec(v, caller, meta, now);
            let id = r->Ok_0;
            &&& w.locks.contains_key(id)
            &&& w.locks[id].owner == caller
            &&& w.locks[id].metadata == meta
            &&& w.locks[id].id == id
            &&& w.locks.dom() == v.locks.dom().insert(id)
            &&& tokens_of(w, caller) == tokens_of(v, caller).push(id)
        }),
{
    let (v1, a) = auth_spec(v, caller, now);
    let (v2, id) = id_spec(v1, now);
    assert(v1 == v);
    let (w, r) = create_spec(v, caller, meta, now);
    assert(w.locks =~= v.locks.insert(id, LockView { id, owner: caller, metadata: meta }));
}

/// Metadata beyond the limit is refused, and nothing but the log changes.
pub proof fn law_create_too_large(v: RegistryView, caller: Seq<u8>, meta: Seq<char>, now: u64)
    requires
        auth_spec(v, caller, now).1 is Ok,
        encode_utf8(meta).len() > v.max_metadata_size,
    ensures
        create_spec(v, caller, meta, now) == (v, Err::<Seq<char>, ErrView>(ErrView::MetadataTooLarge)),
{
}

/// After an update by the owner, the chronolock holds the new metadata and
/// keeps its owner.
pub proof fn law_update_then_read(v: RegistryView, caller: Seq<u8>, id: Seq<char>, meta: Seq<char>, now: u64)
    requires
        update_spec(v, caller, id, meta, now).1 is Ok,
    ensures
        ({
            let w = update_spec(v, caller, id, meta, now).0;
            &&& w.locks.contains_key(id)
            &&& w.locks[id].metadata == meta
            &&& w.locks[id].owner == caller
            &&& w.locks.dom() == v.locks.dom()
        }),
{
    let w = update_spec(v, caller, id, meta, now).0;
    assert(w.locks.dom() =~= v.locks.dom());
}

/// Only the owner updates or transfers; the owner or the admin burns.
pub proof fn law_who_may_change(v: RegistryView, caller: Seq<u8>, id: Seq<char>, meta: Seq<char>, to: Seq<u8>, now: u64)
    requires
        auth_spec(v, caller, now).1 is Ok,
        v.locks.contains_key(id),
    ensures
        update_spec(v, caller, id, meta, now).1 is Ok ==> v.locks[id].owner == caller,
        transfer_spec(v, caller, id, to, now).1 is Ok ==> v.locks[id].owner == caller,
        burn_spec(v, caller, id, now).1 is Ok ==> v.locks[id].owner == caller || caller == v.admin,
        v.locks[id].owner != caller ==> update_spec(v, caller, id, meta, now) == (
            v,
            Err::<(), ErrView>(ErrView::Unauthorized),
        ),
{
}

/// After a burn the chronolock is gone, and nothing else is.
pub proof fn law_burn_then_gone(v: RegistryView, caller: Seq<u8>, id: Seq<char>, now: u64)
    requires
        burn_spec(v, caller, id, now).1 is Ok,
    ensures
        burn_spec(v, caller, id, now).0.locks == v.locks.remove(id),
{
}

/// After a transfer the chronolock belongs to the receiver, which lists
/// it last, and the sender's list no longer holds it; a transfer to oneself
/// leaves the lists as they are.
pub proof fn law_transfer_moves_owner(v: RegistryView, caller: Seq<u8>, id: Seq<char>, to: Seq<u8>, now: u64)
    requires
        transfer_spec(v, caller, id, to, now).1 is Ok,
    ensures
        ({
            let w = transfer_spec(v, caller, id, to, now).0;
            &&& w.locks[id].owner == to
            &&& w.locks.dom() == v.locks.dom()
            &&& caller != to ==> tokens_of(w, to).last() == id && !tokens_of(w, caller).contains(id)
            &&& caller == to ==> w.owner_tokens == v.owner_tokens
        }),
{
    let (v1, a) = auth_spec(v, caller, now);
    assert(v1 == v);
    let w = transfer_spec(v, caller, id, to, now).0;
    assert(w.locks.dom() =~= v.locks.dom());
    if caller != to {
        let mine = tokens_of(v, caller).filter(crate::registry_tokens::other_than(id));
        assert(tokens_of(w, caller) == mine);
        if mine.contains(id) {
            let i = choose|i: int| 0 <= i < mine.len() && mine[i] == id;
            tokens_of(v, caller).lemma_filter_pred(crate::registry_tokens::other_than(id), i);
        }
    }
}

/// A chunk goes into its slot, and the count of chunks that came goes up by
/// one.
pub proof fn law_chunk_fills_slot(v: RegistryView, caller: Seq<u8>, id: Seq<char>, index: u32, chunk: Seq<u8>, now: u64)
    requires
        uploads_ok(v),
        chunk_spec(v, caller, id, index, chunk, now).1 is Ok,
    ensures
        ({
            let w = chunk_spec(v, caller, id, index, chunk, now).0;
            &&& w.uploads[id].chunks[index as int] == Some(chunk)
            &&& w.uploads[id].received == v.uploads[id].received + 1
            &&& chunk_spec(v, caller, id, index, chunk, now).1 == Ok::<u32, ErrView>(chunk.len() as u32)
        }),
{
    let u = v.uploads[id];
    assert(v.uploads.contains_key(id));
    crate::registry::lemma_filled_bound(u.chunks);
    assert(u.chunks[index as int] is None);
}

/// A chunk cannot be uploaded twice.
pub proof fn law_chunk_once(v: RegistryView, caller: Seq<u8>, id: Seq<char>, index: u32, c1: Seq<u8>, c2: Seq<u8>, now: u64, now2: u64)
    requires
        uploads_ok(v),
        chunk_spec(v, caller, id, index, c1, now).1 is Ok,
        auth_spec(chunk_spec(v, caller, id, index, c1, now).0, caller, now2).1 is Ok,
        c2.len() <= 2 * 1024 * 1024,
    ensures
        ({
            let w = chunk_spec(v, caller, id, index, c1, now).0;
            chunk_spec(w, caller, id, index, c2, now2).1 == Err::<u32, ErrView>(
                ErrView::InvalidInput("Chunk already uploaded"@),
            )
        }),
{
    assert(v.uploads.contains_key(id));
    let u = v.uploads[id];
    assert(u.chunks.len() == u.total);
}

/// A finished upload is kept as the chunks put together, and read back
/// whole from the start; the upload is gone whether it finishes or not.
pub proof fn law_finish_keeps_file(v: RegistryView, caller: Seq<u8>, id: Seq<char>, canister: Seq<u8>, now: u64)
    requires
        auth_spec(v, caller, now).1 is Ok,
        v.uploads.contains_key(id),
    ensures
        !finish_spec(v, caller, id, canister, now).0.uploads.contains_key(id),
        finish_spec(v, caller, id, canister, now).1 is Ok ==> ({
            let w = finish_spec(v, caller, id, canister, now).0;
            &&& joined(v.uploads[id].chunks) == Some(w.media[id])
            &&& w.media.contains_key(id)
            &&& w.media[id].len() <= u32::MAX ==> chunk_of_file(w.media[id], 0, w.media[id].len() as u32) == w.media[id]
        }),
{
    let w = finish_spec(v, caller, id, canister, now).0;
    if finish_spec(v, caller, id, canister, now).1 is Ok {
        if w.media[id].len() > 0 && w.media[id].len() <= u32::MAX {
            assert(w.media[id].subrange(0, w.media[id].len() as int) =~= w.media[id]);
        }
    }
}

/// A chronolock whose time has not come opens for no one.
pub proof fn law_locked_opens_for_none(f: FieldsView, user: Seq<char>, now: u64)
    requires
        f.lock_time is Some,
        now < nanos(f.lock_time->0),
    ensures
        !accessible(Some(f), user, now),
{
}

/// A public chronolock whose time has come opens for everyone.
pub proof fn law_public_opens_for_all(f: FieldsView, user: Seq<char>, now: u64, i: int)
    requires
        f.lock_time is Some,
        now >= nanos(f.lock_time->0),
        f.user_keys is Some,
        0 <= i < f.user_keys->0.len(),
        f.user_keys->0[i] == Some("public"@),
    ensures
        accessible(Some(f), user, now),
{
    assert(crate::access::user_key_matches(f.user_keys->0[i], user, f.lock_time->0));
}

/// No decryption key is asked for before its time.
pub proof fn law_no_key_before_time(v: RegistryView, hex: Seq<char>, tpk: Seq<u8>, now: u64)
    requires
        time_key_spec(v, hex, tpk, now) is Ok,
    ensures
        now >= nanos(crate::hexnum::parse_hex(encode_utf8(hex))->Ok_0),
{
}

/// A user's key is asked for only by that user, once its time has passed.
pub proof fn law_user_key_only_for_user(v: RegistryView, caller: Seq<u8>, hex: Seq<char>, user_id: Seq<char>, tpk: Seq<u8>, now: u64)
    requires
        user_key_spec(v, caller, hex, user_id, tpk, now).1 is Ok,
    ensures
        crate::text::principal_from_text(user_id) == Ok::<Seq<u8>, Seq<char>>(caller),
        now >= nanos(crate::hexnum::parse_hex(encode_utf8(hex))->Ok_0),
{
}

/// A page never holds more than 100 chronolocks.
pub proof fn law_page_at_most_hundred<A>(s: Seq<A>, offset: u64, limit: u64)
    ensures
        page(s, offset, capped(limit)).len() <= 100,
{
}

/// The activity log never grows past its most entries once within them.
pub proof fn law_log_bounded(v: RegistryView, a: Seq<char>, now: u64)
    requires
        v.logs.dom().finite(),
        v.logs.len() <= max_activity_logs(),
    ensures
        log_spec(v, a, now).logs.len() <= max_activity_logs(),
        log_spec(v, a, now).logs.dom().finite(),
{
    let logs1 = if v.logs.len() >= max_activity_logs() {
        v.logs.remove(crate::registry::min_id(v.logs))
    } else {
        v.logs
    };
    if v.logs.len() >= max_activity_logs() {
        let m = crate::registry::min_id(v.logs);
        assert(v.logs.len() > 0);
        let k = v.logs.dom().choose();
        assert(v.logs.contains_key(k));
        crate::registry::lemma_min_id_exists(v.logs);
        assert(logs1.len() == v.logs.len() - 1);
    }
}

/// The id made at time `t` with count `c`.
pub open spec fn id_text(t: u64, c: u64) -> Seq<char> {
    decimal(t as nat) + "-"@ + decimal(c as nat)
}

/// Ids made at different times or with different counts differ.
pub proof fn lemma_id_text_injective(t1: u64, c1: u64, t2: u64, c2: u64)
    requires
        id_text(t1, c1) == id_text(t2, c2),
    ensures
        t1 == t2,
        c1 == c2,
{
    reveal_strlit("-");
    let a = decimal(t1 as nat);
    let b = decimal(t2 as nat);
    let s = id_text(t1, c1);
    lemma_decimal_digits(t1 as nat);
    lemma_decimal_digits(t2 as nat);
    lemma_decimal_digits(c1 as nat);
    lemma_decimal_digits(c2 as nat);
    if a.len() < b.len() {
        assert(s[a.len() as int] == '-');
        assert(id_text(t2, c2)[a.len() as int] == b[a.len() as int]);
    } else if b.len() < a.len() {
        assert(id_text(t2, c2)[b.len() as int] == '-');
        assert(s[b.len() as int] == a[b.len() as int]);
    } else {
        assert(s.subrange(0, a.len() as int) =~= a);
        assert(id_text(t2, c2).subrange(0, b.len() as int) =~= b);
        lemma_decimal_injective(t1 as nat, t2 as nat);
        assert(s.subrange(a.len() as int + 1, s.len() as int) =~= decimal(c1 as nat));
        assert(id_text(t2, c2).subrange(b.len() as int + 1, s.len() as int) =~= decimal(c2 as nat));
        lemma_decimal_injective(c1 as nat, c2 as nat);
    }
}

/// `(t, c)` comes no later than `(last, counter)`, time first.
pub open spec fn no_later(t: u64, c: u64, last: u64, counter: u64) -> bool {
    t < last || (t == last && c <= counter)
}

/// The text is an id made no later than `(last, counter)`.
pub open spec fn issued_by(k: Seq<char>, last: u64, counter: u64) -> bool {
    exists|t: u64, c: u64| #[trigger] id_text(t, c) == k && no_later(t, c, last, counter)
}

/// Every chronolock's id was made no later than the generator's state.
pub open spec fn lock_ids_issued(v: RegistryView) -> bool {
    forall|k: Seq<char>| #[trigger] v.locks.contains_key(k) ==> issued_by(k, v.last_timestamp, v.counter)
}

/// While time does not go back, the generator never makes an id it made
/// before: the new id differs from every id made no later than its state,
/// and those stay no later than its next state.
pub proof fn law_ids_never_repeat(v: RegistryView, now: u64, t: u64, c: u64)
    requires
        now >= v.last_timestamp,
        ids_room(v, 1),
        no_later(t, c, v.last_timestamp, v.counter),
    ensures
        id_spec(v, now).1 != id_text(t, c),
        no_later(t, c, id_spec(v, now).0.last_timestamp, id_spec(v, now).0.counter),
{
    let (w, id) = id_spec(v, now);
    if id == id_text(t, c) {
        lemma_id_text_injective(now, w.counter, t, c);
    }
}

/// While time does not go back, a created chronolock gets an id that no
/// chronolock has, and every id stays one the generator made.
pub proof fn law_create_fresh_id(v: RegistryView, caller: Seq<u8>, meta: Seq<char>, now: u64)
    requires
        lock_ids_issued(v),
        now >= v.last_timestamp,
        ids_room(v, 2),
        create_spec(v, caller, meta, now).1 is Ok,
    ensures
        ({
            let (w, r) = create_spec(v, caller, meta, now);
            &&& !v.locks.contains_key(r->Ok_0)
            &&& w.locks.len() == v.locks.len() + 1 <== v.locks.dom().finite()
            &&& lock_ids_issued(w)
        }),
{
    let (v1, a) = auth_spec(v, caller, now);
    assert(v1 == v);
    let (v2, id) = id_spec(v, now);
    let (w, r) = create_spec(v, caller, meta, now);
    assert(r->Ok_0 == id);
    if v.locks.contains_key(id) {
        let (t, c) = choose|t: u64, c: u64| #[trigger] id_text(t, c) == id && no_later(t, c, v.last_timestamp, v.counter);
        law_ids_never_repeat(v, now, t, c);
        assert(false);
    }
    assert(w.last_timestamp == now && w.counter == v2.counter + 1);
    assert(w.locks == v.locks.insert(id, LockView { id, owner: caller, metadata: meta }));
    assert forall|k: Seq<char>| #[trigger] w.locks.contains_key(k) implies issued_by(k, w.last_timestamp, w.counter) by {
        if k == id {
            assert(id_text(now, v2.counter) == k);
        } else {
            assert(v.locks.contains_key(k));
            let (t, c) = choose|t: u64, c: u64| #[trigger] id_text(t, c) == k && no_later(t, c, v.last_timestamp, v.counter);
            assert(id_text(t, c) == k);
        }
    }
}


/// A collection whose chronolocks are among those of another, with a
/// generator no earlier, keeps every id one the generator made.
proof fn lemma_issued_kept(v: RegistryView, w: RegistryView)
    requires
        lock_ids_issued(v),
        forall|k: Seq<char>| #[trigger] w.locks.contains_key(k) ==> v.locks.contains_key(k),
        no_later(v.last_timestamp, v.counter, w.last_timestamp, w.counter),
    ensures
        lock_ids_issued(w),
{
    assert forall|k: Seq<char>| #[trigger] w.locks.contains_key(k) implies issued_by(k, w.last_timestamp, w.counter) by {
        assert(v.locks.contains_key(k));
        let (t, c) = choose|t: u64, c: u64| #[trigger] id_text(t, c) == k && no_later(t, c, v.last_timestamp, v.counter);
        assert(id_text(t, c) == k);
    }
}

/// Right after installation no chronolock exists, so every id is one the
/// generator made.
pub proof fn law_init_ids_issued(admin: Seq<u8>, network: Option<Seq<char>>, now: u64)
    ensures
        lock_ids_issued(log_spec(fresh_view(admin, network), init_text(admin), now)),
{
}

/// While time does not go back, a log entry keeps every chronolock id one
/// the generator made.
pub proof fn law_log_keeps_ids_issued(v: RegistryView, a: Seq<char>, now: u64)
    requires
        lock_ids_issued(v),
        now >= v.last_timestamp,
        ids_room(v, 1),
    ensures
        lock_ids_issued(log_spec(v, a, now)),
{
    lemma_issued_kept(v, log_spec(v, a, now));
}

/// While time does not go back, updating, burning and transferring
/// chronolocks, and starting, filling and finishing an upload keep every
/// chronolock id one the generator made.
pub proof fn law_changes_keep_ids_issued(
    v: RegistryView,
    caller: Seq<u8>,
    id: Seq<char>,
    meta: Seq<char>,
    to: Seq<u8>,
    total: u32,
    index: u32,
    chunk: Seq<u8>,
    canister: Seq<u8>,
    now: u64,
)
    requires
        lock_ids_issued(v),
        now >= v.last_timestamp,
        ids_room(v, 3),
    ensures
        lock_ids_issued(update_spec(v, caller, id, meta, now).0),
        lock_ids_issued(burn_spec(v, caller, id, now).0),
        lock_ids_issued(transfer_spec(v, caller, id, to, now).0),
        lock_ids_issued(start_upload_spec(v, caller, total, now).0),
        lock_ids_issued(chunk_spec(v, caller, id, index, chunk, now).0),
        lock_ids_issued(finish_spec(v, caller, id, canister, now).0),
{
    lemma_issued_kept(v, update_spec(v, caller, id, meta, now).0);
    lemma_issued_kept(v, burn_spec(v, caller, id, now).0);
    lemma_issued_kept(v, transfer_spec(v, caller, id, to, now).0);
    lemma_issued_kept(v, start_upload_spec(v, caller, total, now).0);
    lemma_issued_kept(v, chunk_spec(v, caller, id, index, chunk, now).0);
    lemma_issued_kept(v, finish_spec(v, caller, id, canister, now).0);
}


/// Ids listed once each in the order of their bytes are listed one way only.
pub proof fn lemma_sorted_ids_unique(a: Seq<Seq<char>>, b: Seq<Seq<char>>, dom: Set<Seq<char>>)
    requires
        sorted_ids(a, dom),
        sorted_ids(b, dom),
    ensures
        a == b,
    decreases a.len(),
{
    if a.len() == 0 {
        if b.len() > 0 {
            assert(dom.contains(b[0]));
            assert(a.contains(b[0]));
        }
        assert(a =~= b);
    } else {
        if b.len() == 0 {
            assert(dom.contains(a[0]));
            assert(b.contains(a[0]));
        }
        let x = a[0];
        let y = b[0];
        if x != y {
            assert(dom.contains(y) && dom.contains(x));
            assert(a.contains(y));
            let i = choose|i: int| 0 <= i < a.len() && a[i] == y;
            assert(b.contains(x));
            let j = choose|j: int| 0 <= j < b.len() && b[j] == x;
            assert(i > 0 && j > 0);
            assert(bytes_lt(encode_utf8(x), encode_utf8(y)));
            assert(bytes_lt(encode_utf8(y), encode_utf8(x)));
            lemma_bytes_lt_asym(encode_utf8(x), encode_utf8(y));
        }
        let d = dom.remove(x);
        let a1 = a.drop_first();
        let b1 = b.drop_first();
        assert forall|i: int| 0 <= i < a1.len() implies #[trigger] a1[i] != x by {
            assert(bytes_lt(encode_utf8(a[0]), encode_utf8(a[i + 1])));
            lemma_bytes_lt_irreflexive(encode_utf8(x));
        }
        assert forall|i: int| 0 <= i < b1.len() implies #[trigger] b1[i] != x by {
            assert(bytes_lt(encode_utf8(b[0]), encode_utf8(b[i + 1])));
            lemma_bytes_lt_irreflexive(encode_utf8(x));
        }
        assert(sorted_ids(a1, d)) by {
            assert forall|i: int, j: int| 0 <= i < j < a1.len() implies bytes_lt(
                encode_utf8(a1[i]),
                encode_utf8(a1[j]),
            ) by {
                assert(a1[i] == a[i + 1] && a1[j] == a[j + 1]);
            }
            assert forall|i: int| 0 <= i < a1.len() implies d.contains(#[trigger] a1[i]) by {
                assert(a1[i] == a[i + 1]);
            }
            assert forall|k: Seq<char>| d.contains(k) implies a1.contains(k) by {
                assert(a.contains(k));
                let i = choose|i: int| 0 <= i < a.len() && a[i] == k;
                assert(a1[i - 1] == k);
            }
        }
        assert(sorted_ids(b1, d)) by {
            assert forall|i: int, j: int| 0 <= i < j < b1.len() implies bytes_lt(
                encode_utf8(b1[i]),
                encode_utf8(b1[j]),
            ) by {
                assert(b1[i] == b[i + 1] && b1[j] == b[j + 1]);
            }
            assert forall|i: int| 0 <= i < b1.len() implies d.contains(#[trigger] b1[i]) by {
                assert(b1[i] == b[i + 1]);
            }
            assert forall|k: Seq<char>| d.contains(k) implies b1.contains(k) by {
                assert(b.contains(k));
                let i = choose|i: int| 0 <= i < b.len() && b[i] == k;
                assert(b1[i - 1] == k);
            }
        }
        lemma_sorted_ids_unique(a1, b1, d);
        assert(a =~= seq![x] + a1);
        assert(b =~= seq![x] + b1);
    }
}

/// The lengths of the first `n` pages of a hundred: at offsets 0, 100, 200, ...
pub open spec fn pages_len<A>(s: Seq<A>, n: nat) -> int
    decreases n,
{
    if n == 0 {
        0
    } else {
        pages_len(s, (n - 1) as nat) + page(s, (100 * (n - 1)) as u64, 100).len()
    }
}

proof fn lemma_pages_len<A>(s: Seq<A>, n: nat)
    requires
        100 * n <= u64::MAX,
    ensures
        pages_len(s, n) == if s.len() < 100 * n { s.len() as int } else { (100 * n) as int },
    decreases n,
{
    if n > 0 {
        lemma_pages_len(s, (n - 1) as nat);
    }
}

/// The pages of a hundred that `get_user_accessible_chronolocks_paginated`
/// gives at offsets 0, 100, 200, ... add up to what
/// `get_user_accessible_chronolocks_count` gives: both list the chronolocks
/// that open for the user in the one order of their ids, so once the pages
/// reach past the count their lengths add up to it.
pub proof fn law_accessible_pages_add_up(
    locks: Map<Seq<char>, LockView>,
    count_ids: Seq<Seq<char>>,
    page_ids: Seq<Seq<char>>,
    user_text: Seq<char>,
    now: u64,
    n: nat,
)
    requires
        sorted_ids(count_ids, locks.dom()),
        sorted_ids(page_ids, locks.dom()),
        100 * n <= u64::MAX,
        values_at(count_ids, locks).filter(opens_for(user_text, now)).len() <= 100 * n,
    ensures
        pages_len(values_at(page_ids, locks).filter(opens_for(user_text, now)), n)
            == values_at(count_ids, locks).filter(opens_for(user_text, now)).len(),
{
    lemma_sorted_ids_unique(count_ids, page_ids, locks.dom());
    lemma_pages_len(values_at(page_ids, locks).filter(opens_for(user_text, now)), n);
}


/// The collection after the chunk calls `(idx[j], cs[j])`, one after the
/// other, and whether each of them succeeded.
pub open spec fn after_chunks(
    v: RegistryView,
    caller: Seq<u8>,
    id: Seq<char>,
    idx: Seq<u32>,
    cs: Seq<Seq<u8>>,
    now: u64,
) -> (RegistryView, bool)
    decreases idx.len(),
{
    if idx.len() == 0 {
        (v, true)
    } else {
        let (w, ok) = after_chunks(v, caller, id, idx.drop_last(), cs.drop_last(), now);
        let (w2, r) = chunk_spec(w, caller, id, idx.last(), cs.last(), now);
        (w2, ok && r is Ok)
    }
}

proof fn lemma_filled_all(c: Seq<Option<Seq<u8>>>)
    requires
        forall|i: int| 0 <= i < c.len() ==> #[trigger] c[i] is Some,
    ensures
        filled(c) == c.len(),
        joined(c) is Some,
    decreases c.len(),
{
    if c.len() > 0 {
        lemma_filled_all(c.drop_last());
    }
}

proof fn lemma_after_chunks(
    v: RegistryView,
    caller: Seq<u8>,
    id: Seq<char>,
    idx: Seq<u32>,
    cs: Seq<Seq<u8>>,
    now: u64,
)
    requires
        auth_spec(v, caller, now).1 is Ok,
        v.uploads.contains_key(id),
        upload_ok(v.uploads[id]),
        forall|i: int| 0 <= i < v.uploads[id].chunks.len() ==> #[trigger] v.uploads[id].chunks[i] is None,
        cs.len() == idx.len(),
        after_chunks(v, caller, id, idx, cs, now).1,
    ensures
        ({
            let w = after_chunks(v, caller, id, idx, cs, now).0;
            let u = w.uploads[id];
            &&& w.uploads.contains_key(id)
            &&& upload_ok(u)
            &&& u.total == v.uploads[id].total
            &&& forall|j: int| 0 <= j < idx.len() ==> #[trigger] idx[j] < u.total && u.chunks[idx[j] as int] == Some(cs[j])
            &&& forall|i: int| 0 <= i < u.chunks.len() && (forall|j: int| 0 <= j < idx.len() ==> idx[j] != i)
                ==> #[trigger] u.chunks[i] is None
            &&& w == RegistryView { uploads: w.uploads, ..v }
        }),
    decreases idx.len(),
{
    if idx.len() > 0 {
        let i0 = idx.drop_last();
        let c0 = cs.drop_last();
        lemma_after_chunks(v, caller, id, i0, c0, now);
        let w = after_chunks(v, caller, id, i0, c0, now).0;
        let u = w.uploads[id];
        let k = idx.last();
        assert(auth_spec(w, caller, now) == (w, Ok::<(), ErrView>(())));
        assert(u.chunks[k as int] is None);
        lemma_filled_bound(u.chunks);
        lemma_filled_update(u.chunks, k as int, cs.last());
        let w2 = after_chunks(v, caller, id, idx, cs, now).0;
        let u2 = w2.uploads[id];
        assert forall|j: int| 0 <= j < idx.len() implies #[trigger] idx[j] < u2.total && u2.chunks[idx[j] as int] == Some(cs[j]) by {
            if j < idx.len() - 1 {
                assert(i0[j] == idx[j] && c0[j] == cs[j]);
                assert(u.chunks[idx[j] as int] == Some(cs[j]));
            }
        }
        assert forall|i: int| 0 <= i < u2.chunks.len() && (forall|j: int| 0 <= j < idx.len() ==> idx[j] != i)
            implies #[trigger] u2.chunks[i] is None by {
            assert forall|j: int| 0 <= j < i0.len() implies i0[j] != i by {
                assert(i0[j] == idx[j]);
            }
            assert(idx[idx.len() - 1] != i);
        }
        assert(w2 =~= RegistryView { uploads: w2.uploads, ..v });
    }
}

/// An upload started for `n` chunks, given a chunk for every index once, in
/// any order and each accepted, finishes into the chunks joined in the
/// order of their indices: the file is served exactly when it fits in
/// 10 MiB, and then holds the chunks joined.
pub proof fn law_upload_then_finish(
    v: RegistryView,
    caller: Seq<u8>,
    n: u32,
    idx: Seq<u32>,
    cs: Seq<Seq<u8>>,
    canister: Seq<u8>,
    t0: u64,
    t1: u64,
    t2: u64,
)
    requires
        start_upload_spec(v, caller, n, t0).1 is Ok,
        idx.len() == n,
        cs.len() == n,
        forall|i: u32| i < n ==> #[trigger] idx.contains(i),
        after_chunks(start_upload_spec(v, caller, n, t0).0, caller, start_upload_spec(v, caller, n, t0).1->Ok_0, idx, cs, t1).1,
    ensures
        ({
            let id = start_upload_spec(v, caller, n, t0).1->Ok_0;
            let w = after_chunks(start_upload_spec(v, caller, n, t0).0, caller, id, idx, cs, t1).0;
            let chunks = w.uploads[id].chunks;
            let (x, r) = finish_spec(w, caller, id, canister, t2);
            &&& forall|j: int| 0 <= j < n ==> #[trigger] chunks[idx[j] as int] == Some(cs[j])
            &&& joined(chunks) is Some
            &&& (r is Ok <==> joined(chunks)->0.len() <= max_file())
            &&& r is Ok ==> r == Ok::<Seq<char>, ErrView>(media_url(w.network, canister, id))
                && x.media[id] == joined(chunks)->0 && !x.uploads.contains_key(id)
        }),
{
    let (v1, a) = auth_spec(v, caller, t0);
    assert(v1 == v);
    let (v2, id) = id_spec(v1, t0);
    let v3 = RegistryView { uploads: v2.uploads.insert(id, fresh_upload(n)), ..v2 };
    let w0 = start_upload_spec(v, caller, n, t0).0;
    assert(w0 == log_spec(v3, "Started media upload: "@ + id + " ("@ + crate::text::decimal(n as nat) + " chunks)"@, t0));
    assert(w0.uploads == v3.uploads);
    lemma_filled_none(n as nat);
    assert(auth_spec(w0, caller, t1).1 is Ok);
    lemma_after_chunks(w0, caller, id, idx, cs, t1);
    let w = after_chunks(w0, caller, id, idx, cs, t1).0;
    let u = w.uploads[id];
    assert forall|i: int| 0 <= i < u.chunks.len() implies #[trigger] u.chunks[i] is Some by {
        assert(idx.contains(i as u32));
        let j = choose|j: int| 0 <= j < idx.len() && idx[j] == i as u32;
        assert(u.chunks[idx[j] as int] == Some(cs[j]));
    }
    lemma_filled_all(u.chunks);
    assert(auth_spec(w, caller, t2) == (w, Ok::<(), ErrView>(())));
}


proof fn lemma_filter_drops<A>(s: Seq<A>, pred: spec_fn(A) -> bool, x: A)
    requires
        s.contains(x),
        !pred(x),
    ensures
        s.filter(pred).len() < s.len(),
    decreases s.len(),
{
    reveal_with_fuel(Seq::filter, 1);
    let d = s.drop_last();
    d.lemma_filter_len(pred);
    if s.last() != x {
        let i = choose|i: int| 0 <= i < s.len() && s[i] == x;
        assert(i < s.len() - 1);
        assert(d[i] == x);
        lemma_filter_drops(d, pred, x);
    }
}

/// A burn takes the token out of its owner's list, keeps every other token
/// there and every other owner's list as it was, so the owner's balance
/// goes down.
pub proof fn law_burn_leaves_owner_list(v: RegistryView, caller: Seq<u8>, id: Seq<char>, now: u64)
    requires
        burn_spec(v, caller, id, now).1 is Ok,
    ensures
        ({
            let w = burn_spec(v, caller, id, now).0;
            let o = v.locks[id].owner;
            &&& !tokens_of(w, o).contains(id)
            &&& forall|x: Seq<char>| x != id ==> (tokens_of(w, o).contains(x) <==> tokens_of(v, o).contains(x))
            &&& tokens_of(v, o).contains(id) ==> tokens_of(w, o).len() < tokens_of(v, o).len()
            &&& forall|p: Seq<u8>| p != o ==> tokens_of(w, p) == tokens_of(v, p)
            &&& !w.locks.contains_key(id)
        }),
{
    let (v1, a) = auth_spec(v, caller, now);
    assert(v1 == v);
    let o = v.locks[id].owner;
    let w = burn_spec(v, caller, id, now).0;
    if v.owner_tokens.contains_key(o) {
        let l = v.owner_tokens[o];
        let f = l.filter(other_than(id));
        assert(tokens_of(w, o) == f);
        assert forall|x: Seq<char>| x != id implies (f.contains(x) <==> l.contains(x)) by {
            if l.contains(x) {
                let i = choose|i: int| 0 <= i < l.len() && l[i] == x;
                l.lemma_filter_contains(other_than(id), i);
            }
            if f.contains(x) {
                l.lemma_filter_contains_rev(other_than(id), x);
            }
        }
        if f.contains(id) {
            l.lemma_filter_contains_rev(other_than(id), id);
        }
        if l.contains(id) {
            lemma_filter_drops(l, other_than(id), id);
        }
    }
}

/// A slice of a file is the file's bytes from the offset on, at most
/// `length` of them: `min(length, len - offset)` bytes from within the
/// file, none from its end on.
pub proof fn law_media_chunk_is_slice(data: Seq<u8>, offset: u32, length: u32)
    ensures
        ({
            let r = chunk_of_file(data, offset, length);
            &&& r.len() == if offset >= data.len() {
                0
            } else if length <= data.len() - offset {
                length as int
            } else {
                data.len() - offset
            }
            &&& forall|i: int| 0 <= i < r.len() ==> r[i] == data[offset + i]
        }),
{
}

/// An entry of `userKeys` that is the user's own text, or that text, `:`
/// and the lock time, opens the chronolock for that user once the lock time
/// (in seconds) has passed.
pub proof fn law_own_key_opens(f: FieldsView, user: Seq<char>, now: u64, i: int)
    requires
        f.lock_time is Some,
        f.lock_time->0 * 1_000_000_000 <= now,
        f.user_keys is Some,
        0 <= i < f.user_keys->0.len(),
        f.user_keys->0[i] == Some(user) || f.user_keys->0[i] == Some(user + ":"@ + decimal(f.lock_time->0 as nat)),
    ensures
        accessible(Some(f), user, now),
{
    let t = f.lock_time->0;
    assert(nanos(t) == t * 1_000_000_000) by {
        assert(t * 1_000_000_000 <= u64::MAX);
    }
    assert(crate::access::user_key_matches(f.user_keys->0[i], user, t));
}


/// Nothing else opens a chronolock: a user it opens for has a lock time
/// that has passed (as nanoseconds, `now >= t * 10^9` where that fits) and
/// an entry of `userKeys` that is `public`, the user's own text, or that
/// text, `:` and the lock time.
pub proof fn law_only_listed_keys_open(f: FieldsView, user: Seq<char>, now: u64)
    requires
        accessible(Some(f), user, now),
    ensures
        f.lock_time is Some,
        f.user_keys is Some,
        f.lock_time->0 * 1_000_000_000 <= u64::MAX ==> f.lock_time->0 * 1_000_000_000 <= now,
        exists|i: int|
            0 <= i < f.user_keys->0.len() && (#[trigger] f.user_keys->0[i] == Some("public"@) || f.user_keys->0[i]
                == Some(user) || f.user_keys->0[i] == Some(user + ":"@ + decimal(f.lock_time->0 as nat))),
{
    let t = f.lock_time->0;
    if t * 1_000_000_000 <= u64::MAX {
        assert(nanos(t) == t * 1_000_000_000);
    }
    let keys = f.user_keys->0;
    let i = choose|i: int| 0 <= i < keys.len() && crate::access::user_key_matches(#[trigger] keys[i], user, t);
    assert(keys[i] == Some("public"@) || keys[i] == Some(user) || keys[i] == Some(user + ":"@ + decimal(t as nat)));
}

} // verus!
