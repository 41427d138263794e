//! Setting up the collection, telling who may act, and the admin's
//! settings: the trusted principals, the admin bypass, the metadata limit,
//! and reading the activity log.
use vstd::prelude::*;
use vstd::utf8::*;
use crate::codec::{decode_fields, views, to_vec};
use crate::identity::{principal_key, principal_key_of, ii_valid, ii_principal_check};
use crate::registry::{ActivityEntry, ActivityView, activity_of, sorted_ids, ids_of, page, page_bounds,
    lemma_sorted_text_entries, ChronoError, ErrView, Registry, RegistryView, res_unit, log_spec, ids_room,
    can_log, lemma_ascii_log, lemma_decimal_ascii, text_ok, text_key, as_activity, as_lock,
    principal_ok, principal_key_fn, as_list, as_raw, as_upload, as_bool, opt_text,
    lemma_registry_keys, lemma_principal_key_valid, entry_views, lists_raw, sorted_principals,
    principals_of, lemma_sorted_principal_entries, lemma_entries_list_raw, is_principal_key, principal_of_key, bool_of};
use crate::stable::{Regions, byte_table_contents, region, byte_table_new, byte_table_get,
    byte_table_insert, byte_table_remove, byte_table_entries};
use crate::tables::{lemma_encode_utf8_injective, decoded, lemma_decoded_insert, lemma_decoded_remove, lemma_decoded_empty,
    decode_u64, decode_string};
use crate::text::{decimal, push_decimal, push_str, principal_text, principal_to_text};

verus! {

/// The collection right after installation, before its first log entry.
pub open spec fn fresh_view(admin: Seq<u8>, network: Option<Seq<char>>) -> RegistryView {
    RegistryView {
        admin,
        network,
        max_metadata_size: 51200,
        last_timestamp: 0,
        counter: 0,
        admin_bypass: false,
        logs: Map::empty(),
        locks: Map::empty(),
        owner_tokens: Map::empty(),
        media: Map::empty(),
        uploads: Map::empty(),
        trusted: Map::empty(),
        saved: Map::empty(),
    }
}

pub open spec fn init_text(admin: Seq<u8>) -> Seq<char> {
    "Canister initialized with admin: "@ + principal_text(admin)
}

/// Whether the principal is on the trusted list.
pub open spec fn is_trusted(v: RegistryView, p: Seq<u8>) -> bool {
    v.trusted.contains_key(p) && v.trusted[p]
}

/// Whether the principal passes as an Internet Identity principal here.
pub open spec fn ii_of(v: RegistryView, p: Seq<u8>) -> bool {
    ii_valid(p, is_trusted(v, p), encode_utf8(principal_text(p)))
}

pub open spec fn auth_failure_text(p: Seq<u8>) -> Seq<char> {
    "Authentication failure: Invalid principal attempted access: "@ + principal_text(p)
}

pub open spec fn admin_failure_text(p: Seq<u8>) -> Seq<char> {
    "Unauthorized admin access attempt: "@ + principal_text(p)
}

/// Who may act: anyone while the admin bypass is on, else a trusted
/// principal or an Internet Identity principal; anyone else is logged and
/// refused with `NotAuthenticated` (`validate_caller_authentication`).
pub open spec fn auth_spec(v: RegistryView, caller: Seq<u8>, now: u64) -> (RegistryView, Result<(), ErrView>) {
    if v.admin_bypass {
        (v, Ok(()))
    } else if is_trusted(v, caller) {
        (v, Ok(()))
    } else if !ii_of(v, caller) {
        (log_spec(v, auth_failure_text(caller), now), Err(ErrView::NotAuthenticated))
    } else {
        (v, Ok(()))
    }
}

/// Who may act as admin: one who may act and is the admin; anyone else who
/// may act is logged and refused with `AdminRequired`
/// (`validate_admin_authentication`).
pub open spec fn admin_auth_spec(v: RegistryView, caller: Seq<u8>, now: u64) -> (RegistryView, Result<(), ErrView>) {
    let (v1, a) = auth_spec(v, caller, now);
    match a {
        Err(e) => (v1, Err(e)),
        Ok(_) => if caller != v.admin {
            (log_spec(v1, admin_failure_text(caller), now), Err(ErrView::AdminRequired))
        } else {
            (v1, Ok(()))
        },
    }
}

/// An admin call that, once the caller passes as admin, sets `v2` from the
/// state after the check and logs `text`.
pub open spec fn admin_update(
    v: RegistryView,
    caller: Seq<u8>,
    now: u64,
    change: spec_fn(RegistryView) -> RegistryView,
    text: Seq<char>,
) -> (RegistryView, Result<(), ErrView>) {
    let (v1, a) = admin_auth_spec(v, caller, now);
    match a {
        Err(e) => (v1, Err(e)),
        Ok(_) => (log_spec(change(v1), text, now), Ok(())),
    }
}

pub open spec fn bool_text(b: bool) -> Seq<char> {
    if b {
        "true"@
    } else {
        "false"@
    }
}

pub proof fn lemma_text_ascii(p: Seq<u8>, prefix: Seq<char>)
    requires
        is_ascii_chars(prefix),
        is_ascii_chars(principal_text(p)),
    ensures
        can_log(prefix + principal_text(p)),
{
    assert(is_ascii_chars(prefix + principal_text(p)));
    lemma_ascii_log(prefix + principal_text(p));
}

/// Appends the textual form of a principal.
pub fn push_principal_text(out: &mut String, p: &Vec<u8>)
    requires
        p@.len() <= 29,
    ensures
        final(out)@ == old(out)@ + principal_text(p@),
        is_ascii_chars(principal_text(p@)),
{
    let t = principal_to_text(p.as_slice());
    push_str(out, t.as_str());
}

/// A text made of a literal and a principal's textual form, ready to log.
fn principal_message(prefix: &str, p: &Vec<u8>) -> (r: String)
    requires
        p@.len() <= 29,
        is_ascii_chars(prefix@),
    ensures
        r@ == prefix@ + principal_text(p@),
        can_log(r@),
        is_ascii_chars(principal_text(p@)),
{
    let mut m = String::new();
    push_str(&mut m, prefix);
    push_principal_text(&mut m, p);
    proof {
        lemma_text_ascii(p@, prefix@);
    }
    m
}

impl Registry {
    /// Sets up the collection with its admin and network, and logs it
    /// (`init`).
    pub fn init(regions: Regions, admin: &Vec<u8>, network: Option<String>, now: u64) -> (r: Registry)
        requires
            admin@.len() <= 29,
        ensures
            r.wf(),
            r@ == log_spec(fresh_view(admin@, opt_text(network)), init_text(admin@), now),
    {
        let mut r = Registry {
            admin: to_vec(admin.as_slice()),
            network,
            max_metadata_size: 51200,
            last_timestamp: 0,
            counter: 0,
            admin_bypass: false,
            logs: byte_table_new(region(&regions, 0)),
            chronolocks: byte_table_new(region(&regions, 5)),
            owner_tokens: byte_table_new(region(&regions, 6)),
            media_files: byte_table_new(region(&regions, 7)),
            uploads: byte_table_new(region(&regions, 9)),
            trusted: byte_table_new(region(&regions, 10)),
            settings: byte_table_new(region(&regions, 1)),
        };
        proof {
            lemma_decoded_empty(text_ok(), text_key(), as_activity());
            lemma_decoded_empty(text_ok(), text_key(), as_lock());
            lemma_decoded_empty(principal_ok(), principal_key_fn(), as_list());
            lemma_decoded_empty(text_ok(), text_key(), as_raw());
            lemma_decoded_empty(text_ok(), text_key(), as_upload());
            lemma_decoded_empty(principal_ok(), principal_key_fn(), as_bool());
            assert(r@ == fresh_view(admin@, opt_text(network)));
            reveal_strlit("Canister initialized with admin: ");
        }
        let text = principal_message("Canister initialized with admin: ", admin);
        r.log_activity(text, now);
        r
    }

    /// Whether the principal is the admin (`is_admin`).
    pub fn is_admin(&self, p: &Vec<u8>) -> (r: bool)
        ensures
            r == (p@ == self@.admin),
    {
        crate::codec::bytes_eq(p.as_slice(), self.admin.as_slice())
    }

    /// Whether the principal is on the trusted list (`is_principal_trusted`).
    pub fn is_principal_trusted(&self, p: &Vec<u8>) -> (r: bool)
        requires
            p@.len() <= 29,
        ensures
            r == is_trusted(self@, p@),
    {
        let key = principal_key_of(p.as_slice());
        proof {
            crate::registry::lemma_registry_keys();
        }
        match byte_table_get(&self.trusted, &key) {
            Some(b) => b.len() > 0 && b[0] != 0,
            None => false,
        }
    }

    /// Whether the principal passes as an Internet Identity principal
    /// (`is_valid_internet_identity_principal`).
    pub fn is_valid_internet_identity_principal(&self, p: &Vec<u8>) -> (r: bool)
        requires
            p@.len() <= 29,
        ensures
            r == ii_of(self@, p@),
    {
        let trusted = self.is_principal_trusted(p);
        let text = principal_to_text(p.as_slice());
        ii_principal_check(p.as_slice(), trusted, text.as_str())
    }

    /// The same test, as the query of that name (`is_valid_ii_principal`).
    pub fn is_valid_ii_principal(&self, p: &Vec<u8>) -> (r: bool)
        requires
            p@.len() <= 29,
        ensures
            r == ii_of(self@, p@),
    {
        self.is_valid_internet_identity_principal(p)
    }

    /// Checks that the caller may act (`validate_caller_authentication`).
    pub fn validate_caller_authentication(&mut self, caller: &Vec<u8>, now: u64) -> (r: Result<(), ChronoError>)
        requires
            old(self).wf(),
            caller@.len() <= 29,
            ids_room(old(self)@, 1),
        ensures
            (final(self)@, res_unit(r)) == auth_spec(old(self)@, caller@, now),
            final(self).wf(),
    {
        if self.admin_bypass {
            return Ok(());
        }
        if self.is_principal_trusted(caller) {
            return Ok(());
        }
        if !self.is_valid_internet_identity_principal(caller) {
            proof {
                reveal_strlit("Authentication failure: Invalid principal attempted access: ");
            }
            let text = principal_message(
                "Authentication failure: Invalid principal attempted access: ",
                caller,
            );
            self.log_activity(text, now);
            return Err(ChronoError::NotAuthenticated);
        }
        Ok(())
    }

    /// Checks that the caller may act as admin
    /// (`validate_admin_authentication`).
    pub fn validate_admin_authentication(&mut self, caller: &Vec<u8>, now: u64) -> (r: Result<(), ChronoError>)
        requires
            old(self).wf(),
            caller@.len() <= 29,
            ids_room(old(self)@, 2),
        ensures
            (final(self)@, res_unit(r)) == admin_auth_spec(old(self)@, caller@, now),
            final(self).wf(),
    {
        let a = self.validate_caller_authentication(caller, now);
        match a {
            Err(e) => {
                return Err(e);
            },
            Ok(_) => {},
        }
        if !self.is_admin(caller) {
            proof {
                reveal_strlit("Unauthorized admin access attempt: ");
            }
            let text = principal_message("Unauthorized admin access attempt: ", caller);
            self.log_activity(text, now);
            return Err(ChronoError::AdminRequired);
        }
        Ok(())
    }

    /// Sets the largest metadata a chronolock may hold, as admin
    /// (`set_max_metadata_size`).
    pub fn set_max_metadata_size(&mut self, caller: &Vec<u8>, new_size: u64, now: u64) -> (r: Result<(), ChronoError>)
        requires
            old(self).wf(),
            caller@.len() <= 29,
            ids_room(old(self)@, 2),
        ensures
            (final(self)@, res_unit(r)) == admin_update(
                old(self)@,
                caller@,
                now,
                |v: RegistryView| RegistryView { max_metadata_size: new_size, ..v },
                "MAX_METADATA_SIZE updated to "@ + decimal(new_size as nat),
            ),
            final(self).wf(),
    {
        match self.validate_admin_authentication(caller, now) {
            Err(e) => {
                return Err(e);
            },
            Ok(_) => {},
        }
        self.max_metadata_size = new_size;
        let mut text = String::new();
        push_str(&mut text, "MAX_METADATA_SIZE updated to ");
        push_decimal(&mut text, new_size as u128);
        proof {
            reveal_strlit("MAX_METADATA_SIZE updated to ");
            lemma_decimal_ascii(new_size as nat);
            assert(is_ascii_chars(text@));
            lemma_ascii_log(text@);
        }
        self.log_activity(text, now);
        Ok(())
    }

    /// Puts a principal on the trusted list, as admin
    /// (`add_trusted_principal`).
    pub fn add_trusted_principal(&mut self, caller: &Vec<u8>, p: &Vec<u8>, now: u64) -> (r: Result<(), ChronoError>)
        requires
            old(self).wf(),
            caller@.len() <= 29,
            p@.len() <= 29,
            ids_room(old(self)@, 2),
        ensures
            (final(self)@, res_unit(r)) == admin_update(
                old(self)@,
                caller@,
                now,
                |v: RegistryView| RegistryView { trusted: v.trusted.insert(p@, true), ..v },
                "Added trusted principal: "@ + principal_text(p@),
            ),
            final(self).wf(),
    {
        match self.validate_admin_authentication(caller, now) {
            Err(e) => {
                return Err(e);
            },
            Ok(_) => {},
        }
        let key = principal_key_of(p.as_slice());
        let mut one: Vec<u8> = Vec::new();
        one.push(1);
        proof {
            lemma_registry_keys();
            lemma_principal_key_valid(p@);
            lemma_decoded_insert(
                byte_table_contents(self.trusted),
                principal_ok(),
                principal_key_fn(),
                as_bool(),
                p@,
                one@,
            );
        }
        byte_table_insert(&mut self.trusted, key, one);
        proof {
            reveal_strlit("Added trusted principal: ");
        }
        let text = principal_message("Added trusted principal: ", p);
        self.log_activity(text, now);
        Ok(())
    }

    /// Takes a principal off the trusted list, as admin
    /// (`remove_trusted_principal`).
    pub fn remove_trusted_principal(&mut self, caller: &Vec<u8>, p: &Vec<u8>, now: u64) -> (r: Result<(), ChronoError>)
        requires
            old(self).wf(),
            caller@.len() <= 29,
            p@.len() <= 29,
            ids_room(old(self)@, 2),
        ensures
            (final(self)@, res_unit(r)) == admin_update(
                old(self)@,
                caller@,
                now,
                |v: RegistryView| RegistryView { trusted: v.trusted.remove(p@), ..v },
                "Removed trusted principal: "@ + principal_text(p@),
            ),
            final(self).wf(),
    {
        match self.validate_admin_authentication(caller, now) {
            Err(e) => {
                return Err(e);
            },
            Ok(_) => {},
        }
        let key = principal_key_of(p.as_slice());
        proof {
            lemma_registry_keys();
            lemma_decoded_remove(
                byte_table_contents(self.trusted),
                principal_ok(),
                principal_key_fn(),
                as_bool(),
                p@,
            );
        }
        byte_table_remove(&mut self.trusted, &key);
        proof {
            reveal_strlit("Removed trusted principal: ");
        }
        let text = principal_message("Removed trusted principal: ", p);
        self.log_activity(text, now);
        Ok(())
    }

    /// Turns the admin bypass on or off, as admin (`set_admin_bypass`).
    pub fn set_admin_bypass(&mut self, caller: &Vec<u8>, enabled: bool, now: u64) -> (r: Result<(), ChronoError>)
        requires
            old(self).wf(),
            caller@.len() <= 29,
            ids_room(old(self)@, 2),
        ensures
            (final(self)@, res_unit(r)) == admin_update(
                old(self)@,
                caller@,
                now,
                |v: RegistryView| RegistryView { admin_bypass: enabled, ..v },
                "Admin bypass enabled: "@ + bool_text(enabled),
            ),
            final(self).wf(),
    {
        match self.validate_admin_authentication(caller, now) {
            Err(e) => {
                return Err(e);
            },
            Ok(_) => {},
        }
        self.admin_bypass = enabled;
        let mut text = String::new();
        push_str(&mut text, "Admin bypass enabled: ");
        if enabled {
            push_str(&mut text, "true");
        } else {
            push_str(&mut text, "false");
        }
        proof {
            reveal_strlit("Admin bypass enabled: ");
            reveal_strlit("true");
            reveal_strlit("false");
            assert(is_ascii_chars(text@));
            lemma_ascii_log(text@);
        }
        self.log_activity(text, now);
        Ok(())
    }

    /// Whether the caller may act (`is_caller_authenticated`); a refusal is
    /// logged as in any call.
    pub fn is_caller_authenticated(&mut self, caller: &Vec<u8>, now: u64) -> (r: bool)
        requires
            old(self).wf(),
            caller@.len() <= 29,
            ids_room(old(self)@, 1),
        ensures
            final(self)@ == auth_spec(old(self)@, caller@, now).0,
            r == auth_spec(old(self)@, caller@, now).1 is Ok,
            final(self).wf(),
    {
        self.validate_caller_authentication(caller, now).is_ok()
    }

    /// Whether the admin bypass is on; `false` to anyone but the admin
    /// (`is_admin_bypass_enabled`).
    pub fn is_admin_bypass_enabled(&mut self, caller: &Vec<u8>, now: u64) -> (r: bool)
        requires
            old(self).wf(),
            caller@.len() <= 29,
            ids_room(old(self)@, 2),
        ensures
            final(self)@ == admin_auth_spec(old(self)@, caller@, now).0,
            r == (admin_auth_spec(old(self)@, caller@, now).1 is Ok && old(self)@.admin_bypass),
            final(self).wf(),
    {
        if self.validate_admin_authentication(caller, now).is_err() {
            return false;
        }
        self.admin_bypass
    }

    /// The caller, whether it may act, and whether it is the admin
    /// (`get_caller_principal_info`).
    pub fn get_caller_principal_info(&mut self, caller: &Vec<u8>, now: u64) -> (r: (Vec<u8>, bool, bool))
        requires
            old(self).wf(),
            caller@.len() <= 29,
            ids_room(old(self)@, 1),
        ensures
            final(self)@ == auth_spec(old(self)@, caller@, now).0,
            r.0@ == caller@,
            r.1 == auth_spec(old(self)@, caller@, now).1 is Ok,
            r.2 == (caller@ == old(self)@.admin),
            final(self).wf(),
    {
        let ok = self.validate_caller_authentication(caller, now).is_ok();
        let admin = self.is_admin(caller);
        (to_vec(caller.as_slice()), ok, admin)
    }

    /// The trusted principals, in the order of principals; empty to anyone
    /// but the admin (`get_trusted_principals`).
    pub fn get_trusted_principals(&mut self, caller: &Vec<u8>, now: u64) -> (r: Vec<Vec<u8>>)
        requires
            old(self).wf(),
            caller@.len() <= 29,
            ids_room(old(self)@, 2),
        ensures
            final(self)@ == admin_auth_spec(old(self)@, caller@, now).0,
            final(self).wf(),
            admin_auth_spec(old(self)@, caller@, now).1 is Err ==> r@.len() == 0,
            admin_auth_spec(old(self)@, caller@, now).1 is Ok ==> exists|ps: Seq<Seq<u8>>|
                sorted_principals(ps, old(self)@.trusted.dom()) && byte_views(r@) == ps.filter(
                    marked(old(self)@.trusted),
                ),
    {
        if self.validate_admin_authentication(caller, now).is_err() {
            return Vec::new();
        }
        let entries = byte_table_entries(&self.trusted);
        let ghost e = entry_views(entries@);
        let ghost raw = byte_table_contents(self.trusted);
        let ghost m = self@.trusted;
        let ghost ps = principals_of(e);
        proof {
            lemma_entries_list_raw(entries@, raw);
            lemma_sorted_principal_entries(raw, e, as_bool());
            assert forall|j: int| 0 <= j < e.len() implies is_principal_key(#[trigger] e[j].0) by {
                assert(raw.contains_key(e[j].0));
            }
        }
        let mut out: Vec<Vec<u8>> = Vec::new();
        let mut i: usize = 0;
        assert(ps.subrange(0, 0) =~= Seq::<Seq<u8>>::empty());
        reveal(Seq::filter);
        while i < entries.len()
            invariant
                i <= entries@.len(),
                e == entry_views(entries@),
                ps == principals_of(e),
                ps.len() == e.len(),
                forall|j: int| 0 <= j < e.len() ==> #[trigger] m[ps[j]] == bool_of(e[j].1),
                forall|j: int| 0 <= j < e.len() ==> (#[trigger] ps[j]).len() <= 29,
                forall|j: int| 0 <= j < e.len() ==> is_principal_key(#[trigger] e[j].0),
                byte_views(out@) == ps.subrange(0, i as int).filter(marked(m)),
            decreases entries@.len() - i,
        {
            let ghost pre = ps.subrange(0, i as int);
            let ghost next = ps.subrange(0, i + 1);
            assert(next.drop_last() =~= pre);
            let key = &entries[i].0;
            let val = &entries[i].1;
            assert(e[i as int] == (key@, val@));
            let ghost before = byte_views(out@);
            assert(next.last() == ps[i as int]);
            assert(m[ps[i as int]] == bool_of(val@));
            reveal(Seq::filter);
            assert(next.filter(marked(m)) == if marked(m)(next.last()) {
                pre.filter(marked(m)).push(next.last())
            } else {
                pre.filter(marked(m))
            });
            if val.len() > 0 && val[0] != 0 {
                let p = principal_from_key(key);
                out.push(p);
                assert(byte_views(out@) =~= before.push(p@));
            }
            i = i + 1;
        }
        assert(ps.subrange(0, entries@.len() as int) =~= ps);
        out
    }
}

pub open spec fn activity_views(r: Seq<ActivityEntry>) -> Seq<ActivityView> {
    r.map_values(|e: ActivityEntry| e@)
}

/// The values of `m` at the ids `ks`, in order.
pub open spec fn values_at<V>(ks: Seq<Seq<char>>, m: Map<Seq<char>, V>) -> Seq<V> {
    ks.map_values(|k: Seq<char>| m[k])
}

/// Entries logged from `start` to `end`, both included.
pub open spec fn in_time_range(start: u64, end: u64) -> spec_fn(ActivityView) -> bool {
    |e: ActivityView| start <= e.timestamp <= end
}

/// The log entry that stored bytes hold.
pub fn decode_activity(b: &[u8]) -> (r: ActivityEntry)
    ensures
        r@ == activity_of(b@),
{
    match decode_fields(b) {
        Some(l) => {
            if l.len() == 3 {
                assert(views(l@)[0] == l@[0]@ && views(l@)[1] == l@[1]@ && views(l@)[2] == l@[2]@);
                ActivityEntry {
                    id: decode_string(l[0].as_slice()),
                    timestamp: decode_u64(l[1].as_slice()),
                    activity: decode_string(l[2].as_slice()),
                }
            } else {
                ActivityEntry { id: String::new(), timestamp: 0, activity: String::new() }
            }
        },
        None => ActivityEntry { id: String::new(), timestamp: 0, activity: String::new() },
    }
}

impl Registry {
    /// A page of the activity log, in the order of ids, for the admin
    /// (`get_logs_paginated`).
    pub fn get_logs_paginated(&mut self, caller: &Vec<u8>, offset: u64, limit: u64, now: u64) -> (r: Result<Vec<ActivityEntry>, ChronoError>)
        requires
            old(self).wf(),
            caller@.len() <= 29,
            ids_room(old(self)@, 2),
        ensures
            final(self)@ == admin_auth_spec(old(self)@, caller@, now).0,
            final(self).wf(),
            match r {
                Err(e) => admin_auth_spec(old(self)@, caller@, now).1 == Err::<(), ErrView>(e@),
                Ok(l) => admin_auth_spec(old(self)@, caller@, now).1 is Ok && exists|ks: Seq<Seq<char>>|
                    sorted_ids(ks, old(self)@.logs.dom()) && activity_views(l@) == page(
                        values_at(ks, old(self)@.logs),
                        offset,
                        limit,
                    ),
            },
    {
        match self.validate_admin_authentication(caller, now) {
            Err(e) => {
                return Err(e);
            },
            Ok(_) => {},
        }
        let entries = byte_table_entries(&self.logs);
        let ghost e = entry_views(entries@);
        let ghost raw = byte_table_contents(self.logs);
        let ghost m = self@.logs;
        let ghost ks = ids_of(e);
        let ghost all = values_at(ks, m);
        proof {
            lemma_entries_list_raw(entries@, raw);
            lemma_sorted_text_entries(raw, e, as_activity());
        }
        let (start, end) = page_bounds(entries.len(), offset, limit);
        let mut out: Vec<ActivityEntry> = Vec::new();
        let mut i: usize = start;
        assert(all.subrange(start as int, start as int) =~= Seq::<ActivityView>::empty());
        while i < end
            invariant
                start <= i <= end <= entries@.len(),
                e == entry_views(entries@),
                all == values_at(ks, m),
                ks.len() == e.len(),
                forall|j: int| 0 <= j < e.len() ==> #[trigger] m[ks[j]] == activity_of(e[j].1),
                activity_views(out@) == all.subrange(start as int, i as int),
            decreases end - i,
        {
            assert(e[i as int].1 == entries@[i as int].1@);
            let entry = decode_activity(entries[i].1.as_slice());
            assert(m[ks[i as int]] == activity_of(e[i as int].1));
            assert(all[i as int] == entry@);
            let ghost before = activity_views(out@);
            out.push(entry);
            assert(activity_views(out@) =~= before.push(all[i as int]));
            assert(all.subrange(start as int, i + 1) =~= all.subrange(start as int, i as int).push(all[i as int]));
            i = i + 1;
        }
        assert(activity_views(out@) =~= page(all, offset, limit));
        Ok(out)
    }

    /// The log entries made from `start_time` to `end_time`, both included,
    /// in the order of ids, for the admin (`get_logs_by_range`).
    pub fn get_logs_by_range(&mut self, caller: &Vec<u8>, start_time: u64, end_time: u64, now: u64) -> (r: Result<Vec<ActivityEntry>, ChronoError>)
        requires
            old(self).wf(),
            caller@.len() <= 29,
            ids_room(old(self)@, 2),
        ensures
            final(self)@ == admin_auth_spec(old(self)@, caller@, now).0,
            final(self).wf(),
            match r {
                Err(e) => admin_auth_spec(old(self)@, caller@, now).1 == Err::<(), ErrView>(e@),
                Ok(l) => admin_auth_spec(old(self)@, caller@, now).1 is Ok && exists|ks: Seq<Seq<char>>|
                    sorted_ids(ks, old(self)@.logs.dom()) && activity_views(l@) == values_at(
                        ks,
                        old(self)@.logs,
                    ).filter(in_time_range(start_time, end_time)),
            },
    {
        match self.validate_admin_authentication(caller, now) {
            Err(e) => {
                return Err(e);
            },
            Ok(_) => {},
        }
        let entries = byte_table_entries(&self.logs);
        let ghost e = entry_views(entries@);
        let ghost raw = byte_table_contents(self.logs);
        let ghost m = self@.logs;
        let ghost ks = ids_of(e);
        let ghost all = values_at(ks, m);
        proof {
            lemma_entries_list_raw(entries@, raw);
            lemma_sorted_text_entries(raw, e, as_activity());
        }
        let mut out: Vec<ActivityEntry> = Vec::new();
        let mut i: usize = 0;
        assert(all.subrange(0, 0) =~= Seq::<ActivityView>::empty());
        assert(all.subrange(0, 0).filter(in_time_range(start_time, end_time)) =~= Seq::<ActivityView>::empty()) by {
            reveal(Seq::filter);
        }
        while i < entries.len()
            invariant
                i <= entries@.len(),
                e == entry_views(entries@),
                all == values_at(ks, m),
                ks.len() == e.len(),
                forall|j: int| 0 <= j < e.len() ==> #[trigger] m[ks[j]] == activity_of(e[j].1),
                activity_views(out@) == all.subrange(0, i as int).filter(
                    in_time_range(start_time, end_time),
                ),
            decreases entries@.len() - i,
        {
            let ghost pre = all.subrange(0, i as int);
            let ghost next = all.subrange(0, i + 1);
            assert(next.drop_last() =~= pre);
            assert(e[i as int].1 == entries@[i as int].1@);
            let entry = decode_activity(entries[i].1.as_slice());
            assert(m[ks[i as int]] == activity_of(e[i as int].1));
            assert(all[i as int] == entry@);
            assert(next.last() == entry@);
            let ghost before = activity_views(out@);
            let ghost pred = in_time_range(start_time, end_time);
            assert(next.filter(pred) == if pred(next.last()) {
                pre.filter(pred).push(next.last())
            } else {
                pre.filter(pred)
            }) by {
                reveal(Seq::filter);
            }
            if start_time <= entry.timestamp && entry.timestamp <= end_time {
                out.push(entry);
                assert(activity_views(out@) =~= before.push(next.last()));
            }
            i = i + 1;
        }
        assert(all.subrange(0, entries@.len() as int) =~= all);
        Ok(out)
    }

    /// The network the collection was set up for (`get_network`).
    pub fn get_network(&self) -> (r: Option<String>)
        ensures
            opt_text(r) == self@.network,
    {
        match &self.network {
            Some(n) => Some(n.clone()),
            None => None,
        }
    }

    /// The name of the vetKD key: `dfx_test_key` on the local network,
    /// `test_key_1` elsewhere (`get_vetkd_key_name`).
    pub fn vetkd_key_name(&self) -> (r: String)
        ensures
            r@ == key_name_for(self@.network),
    {
        match &self.network {
            Some(n) => {
                if crate::codec::bytes_eq(n.as_str().as_bytes(), "local".as_bytes()) {
                    proof {
                        lemma_encode_utf8_injective(n@, "local"@);
                    }
                    String::from_str("dfx_test_key")
                } else {
                    String::from_str("test_key_1")
                }
            },
            None => String::from_str("test_key_1"),
        }
    }

    /// The collection's symbol (`icrc7_symbol`).
    pub fn icrc7_symbol(&self) -> (r: String)
        ensures
            r@ == "CHRONOLOCK"@,
    {
        String::from_str("CHRONOLOCK")
    }

    /// The collection's name (`icrc7_name`).
    pub fn icrc7_name(&self) -> (r: String)
        ensures
            r@ == "Chronolock Collection"@,
    {
        String::from_str("Chronolock Collection")
    }

    /// The collection's description (`icrc7_description`).
    pub fn icrc7_description(&self) -> (r: String)
        ensures
            r@ == "A collection of time-locked NFTs"@,
    {
        String::from_str("A collection of time-locked NFTs")
    }
}

/// The vetKD key for a network.
pub open spec fn key_name_for(network: Option<Seq<char>>) -> Seq<char> {
    if network == Some("local"@) {
        "dfx_test_key"@
    } else {
        "test_key_1"@
    }
}

/// The principal whose table key `key` is.
fn principal_from_key(key: &Vec<u8>) -> (r: Vec<u8>)
    requires
        is_principal_key(key@),
    ensures
        r@ == principal_of_key(key@),
{
    let n = key[0] as usize;
    let mut out: Vec<u8> = Vec::new();
    let mut i: usize = 0;
    while i < n
        invariant
            i <= n,
            n == key@[0],
            is_principal_key(key@),
            out@ == key@.subrange(1, 1 + i),
        decreases n - i,
    {
        out.push(key[i + 1]);
        i = i + 1;
        assert(out@ =~= key@.subrange(1, 1 + i));
    }
    out
}

/// The keys that a map marks `true`.
pub open spec fn marked(m: Map<Seq<u8>, bool>) -> spec_fn(Seq<u8>) -> bool {
    |p: Seq<u8>| m[p]
}

pub open spec fn byte_views(l: Seq<Vec<u8>>) -> Seq<Seq<u8>> {
    l.map_values(|v: Vec<u8>| v@)
}

} // verus!
