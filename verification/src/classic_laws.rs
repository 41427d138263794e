//! What holds of the first collection across its operations.
use vstd::prelude::*;
use vstd::utf8::encode_utf8;
use crate::classic::{ClassicView, TimedLockView, ccreate_spec, cupdate_spec, cburn_spec, ctransfer_spec,
    cupload_spec, ctime_key_spec, cuser_key_spec, ctokens_of, cid_spec, clog, upload_url};
use crate::access::nanos;
use crate::hexnum::parse_hex;
use crate::registry::{ErrView, max_activity_logs, min_id, lemma_min_id_exists};
use crate::registry_tokens::other_than;
use crate::text::principal_from_text;
use crate::classic::cids_room;
use crate::registry_laws::{id_text, issued_by, no_later, lemma_id_text_injective};

verus! {

/// A created chronolock belongs to its creator, holds the metadata and
/// unlock time given, and ends the creator's list.
pub proof fn law_classic_create_then_read(v: ClassicView, caller: Seq<u8>, meta: Seq<char>, t: u64, now: u64)
    requires
        ccreate_spec(v, caller, meta, t, now).1 is Ok,
    ensures
        ({
            let (w, r) = ccreate_spec(v, caller, meta, t, now);
            let id = r->Ok_0;
            &&& w.locks.contains_key(id)
            &&& w.locks[id] == (TimedLockView { id, owner: caller, metadata: meta, unlock_time: t })
            &&& w.locks.dom() == v.locks.dom().insert(id)
            &&& ctokens_of(w, caller) == ctokens_of(v, caller).push(id)
        }),
{
    let (v1, id) = cid_spec(v, now);
    let (w, r) = ccreate_spec(v, caller, meta, t, now);
    assert(w.locks =~= v.locks.insert(id, TimedLockView { id, owner: caller, metadata: meta, unlock_time: t }));
}

/// Metadata beyond the limit is refused and nothing changes.
pub proof fn law_classic_create_too_large(v: ClassicView, caller: Seq<u8>, meta: Seq<char>, t: u64, now: u64)
    requires
        encode_utf8(meta).len() > v.max_metadata_size,
    ensures
        ccreate_spec(v, caller, meta, t, now) == (v, Err::<Seq<char>, ErrView>(ErrView::MetadataTooLarge)),
{
}

/// After an update by the owner, the chronolock holds the new metadata and
/// unlock time and keeps its owner.
pub proof fn law_classic_update_then_read(v: ClassicView, caller: Seq<u8>, id: Seq<char>, meta: Seq<char>, t: u64, now: u64)
    requires
        cupdate_spec(v, caller, id, meta, t, now).1 is Ok,
    ensures
        ({
            let w = cupdate_spec(v, caller, id, meta, t, now).0;
            &&& w.locks.contains_key(id)
            &&& w.locks[id].metadata == meta
            &&& w.locks[id].unlock_time == t
            &&& w.locks[id].owner == caller
            &&& w.locks.dom() == v.locks.dom()
        }),
{
    let w = cupdate_spec(v, caller, id, meta, t, now).0;
    assert(w.locks.dom() =~= v.locks.dom());
}

/// Only the owner updates, burns or transfers a chronolock.
pub proof fn law_classic_only_owner_changes(v: ClassicView, caller: Seq<u8>, id: Seq<char>, meta: Seq<char>, t: u64, to: Seq<u8>, now: u64)
    requires
        v.locks.contains_key(id),
        v.locks[id].owner != caller,
    ensures
        cupdate_spec(v, caller, id, meta, t, now) == (v, Err::<(), ErrView>(ErrView::Unauthorized)),
        cburn_spec(v, caller, id, now) == (v, Err::<(), ErrView>(ErrView::Unauthorized)),
        ctransfer_spec(v, caller, id, to, now) == (v, Err::<(), ErrView>(ErrView::Unauthorized)),
{
}

/// After a burn the chronolock is gone, and nothing else is.
pub proof fn law_classic_burn_then_gone(v: ClassicView, caller: Seq<u8>, id: Seq<char>, now: u64)
    requires
        cburn_spec(v, caller, id, now).1 is Ok,
    ensures
        cburn_spec(v, caller, id, now).0.locks == v.locks.remove(id),
{
}

/// After a transfer the chronolock belongs to the receiver, which lists it
/// last, and the sender's list no longer holds it; a transfer to oneself
/// leaves the lists as they are.
pub proof fn law_classic_transfer_moves_owner(v: ClassicView, caller: Seq<u8>, id: Seq<char>, to: Seq<u8>, now: u64)
    requires
        ctransfer_spec(v, caller, id, to, now).1 is Ok,
    ensures
        ({
            let w = ctransfer_spec(v, caller, id, to, now).0;
            &&& w.locks[id].owner == to
            &&& w.locks.dom() == v.locks.dom()
            &&& caller != to ==> ctokens_of(w, to).last() == id && !ctokens_of(w, caller).contains(id)
            &&& caller == to ==> w.owner_tokens == v.owner_tokens
        }),
{
    let w = ctransfer_spec(v, caller, id, to, now).0;
    assert(w.locks.dom() =~= v.locks.dom());
    if caller != to {
        let mine = ctokens_of(v, caller).filter(other_than(id));
        assert(ctokens_of(w, caller) == mine);
        if mine.contains(id) {
            let i = choose|i: int| 0 <= i < mine.len() && mine[i] == id;
            ctokens_of(v, caller).lemma_filter_pred(other_than(id), i);
        }
    }
}

/// An uploaded file is stored whole under the id that its URL ends with.
pub proof fn law_classic_upload_then_get(v: ClassicView, data: Seq<u8>, canister: Seq<u8>, now: u64)
    requires
        data.len() <= 10_485_760,
    ensures
        ({
            let (w, r) = cupload_spec(v, data, canister, now);
            let id = cid_spec(v, now).1;
            &&& r == Ok::<Seq<char>, ErrView>(upload_url(canister, id))
            &&& w.media.contains_key(id)
            &&& w.media[id] == data
        }),
{
}

/// No key is asked for before its time.
pub proof fn law_classic_no_key_before_time(v: ClassicView, hex: Seq<char>, pk: Seq<u8>, now: u64)
    requires
        ctime_key_spec(v, hex, pk, now) is Ok,
    ensures
        parse_hex(encode_utf8(hex)) is Ok,
        now >= nanos(parse_hex(encode_utf8(hex))->Ok_0),
{
}

/// A user's key is asked for only by that user, and only once its time has
/// passed.
pub proof fn law_classic_user_key_only_for_user(v: ClassicView, caller: Seq<u8>, hex: Seq<char>, user_id: Seq<char>, pk: Seq<u8>, now: u64)
    requires
        cuser_key_spec(v, caller, hex, user_id, pk, now) is Ok,
    ensures
        principal_from_text(user_id) == Ok::<Seq<u8>, Seq<char>>(caller),
        now >= nanos(parse_hex(encode_utf8(hex))->Ok_0),
{
}

/// The activity log never grows past its most entries once within them.
pub proof fn law_classic_log_bounded(v: ClassicView, a: Seq<char>, now: u64)
    requires
        v.logs.dom().finite(),
        v.logs.len() <= max_activity_logs(),
    ensures
        clog(v, a, now).logs.len() <= max_activity_logs(),
        clog(v, a, now).logs.dom().finite(),
{
    if v.logs.len() >= max_activity_logs() {
        assert(v.logs.len() > 0);
        let k = v.logs.dom().choose();
        assert(v.logs.contains_key(k));
        lemma_min_id_exists(v.logs);
    }
}

/// Every chronolock's id was made no later than the generator's state.
pub open spec fn classic_lock_ids_issued(v: ClassicView) -> bool {
    forall|k: Seq<char>| #[trigger] v.locks.contains_key(k) ==> issued_by(k, v.last_timestamp, v.counter)
}

/// While time does not go back, a created chronolock gets an id that no
/// chronolock has, and every id stays one the generator made.
pub proof fn law_classic_create_fresh_id(v: ClassicView, caller: Seq<u8>, meta: Seq<char>, t: u64, now: u64)
    requires
        classic_lock_ids_issued(v),
        now >= v.last_timestamp,
        cids_room(v, 2),
        ccreate_spec(v, caller, meta, t, now).1 is Ok,
    ensures
        ({
            let (w, r) = ccreate_spec(v, caller, meta, t, now);
            &&& !v.locks.contains_key(r->Ok_0)
            &&& classic_lock_ids_issued(w)
        }),
{
    let (v2, id) = cid_spec(v, now);
    let (w, r) = ccreate_spec(v, caller, meta, t, now);
    assert(r->Ok_0 == id);
    assert(id == id_text(now, v2.counter));
    if v.locks.contains_key(id) {
        let (t0, c0) = choose|t0: u64, c0: u64| #[trigger] id_text(t0, c0) == id && no_later(t0, c0, v.last_timestamp, v.counter);
        lemma_id_text_injective(now, v2.counter, t0, c0);
        assert(false);
    }
    assert(w.last_timestamp == now && w.counter == v2.counter + 1);
    assert forall|k: Seq<char>| #[trigger] w.locks.contains_key(k) implies issued_by(k, w.last_timestamp, w.counter) by {
        if k == id {
            assert(id_text(now, v2.counter) == k);
        } else {
            assert(v.locks.contains_key(k));
            let (t0, c0) = choose|t0: u64, c0: u64| #[trigger] id_text(t0, c0) == k && no_later(t0, c0, v.last_timestamp, v.counter);
            assert(id_text(t0, c0) == k);
        }
    }
}


/// A collection whose chronolocks are among those of another, with a
/// generator no earlier, keeps every id one the generator made.
proof fn lemma_classic_issued_kept(v: ClassicView, w: ClassicView)
    requires
        classic_lock_ids_issued(v),
        forall|k: Seq<char>| #[trigger] w.locks.contains_key(k) ==> v.locks.contains_key(k),
        no_later(v.last_timestamp, v.counter, w.last_timestamp, w.counter),
    ensures
        classic_lock_ids_issued(w),
{
    assert forall|k: Seq<char>| #[trigger] w.locks.contains_key(k) implies issued_by(k, w.last_timestamp, w.counter) by {
        assert(v.locks.contains_key(k));
        let (t0, c0) = choose|t0: u64, c0: u64| #[trigger] id_text(t0, c0) == k && no_later(t0, c0, v.last_timestamp, v.counter);
        assert(id_text(t0, c0) == k);
    }
}

/// While time does not go back, a log entry, an update, a burn, a transfer
/// and a media upload keep every chronolock id one the generator made.
pub proof fn law_classic_changes_keep_ids_issued(
    v: ClassicView,
    caller: Seq<u8>,
    id: Seq<char>,
    meta: Seq<char>,
    t: u64,
    to: Seq<u8>,
    a: Seq<char>,
    data: Seq<u8>,
    canister: Seq<u8>,
    now: u64,
)
    requires
        classic_lock_ids_issued(v),
        now >= v.last_timestamp,
        cids_room(v, 2),
    ensures
        classic_lock_ids_issued(clog(v, a, now)),
        classic_lock_ids_issued(cupdate_spec(v, caller, id, meta, t, now).0),
        classic_lock_ids_issued(cburn_spec(v, caller, id, now).0),
        classic_lock_ids_issued(ctransfer_spec(v, caller, id, to, now).0),
        classic_lock_ids_issued(cupload_spec(v, data, canister, now).0),
{
    lemma_classic_issued_kept(v, clog(v, a, now));
    lemma_classic_issued_kept(v, cupdate_spec(v, caller, id, meta, t, now).0);
    lemma_classic_issued_kept(v, cburn_spec(v, caller, id, now).0);
    lemma_classic_issued_kept(v, ctransfer_spec(v, caller, id, to, now).0);
    lemma_classic_issued_kept(v, cupload_spec(v, data, canister, now).0);
}

} // verus!
