//! Keeping the collection across an upgrade. Its tables live in stable
//! memory; its admin, network, metadata limit, id generator and admin bypass
//! are saved as one record in a settings table before an upgrade, and read
//! back after it, when the tables are reopened and checked.
use vstd::prelude::*;
use vstd::string::*;
use vstd::utf8::{valid_utf8, decode_utf8, encode_utf8, is_ascii_chars, encode_utf8_decode_utf8};
use crate::codec::{fields, fields_fit, views, to_vec};
use crate::tables::{u64_bytes, u64_of, string_of, encode_u64, decode_u64, decode_string, settings_key,
    saved_record, write_record, read_record, lemma_record_roundtrip, lemma_numbers_roundtrip,
    lemma_string_roundtrip, all_entries, is_utf8};
use crate::text::{string_bytes, utf8_string};
use crate::stable::{Regions, ByteTable, byte_table_contents, region, byte_table_init};
use crate::registry::{Registry, RegistryView, MediaUpload, UploadView, lock_of, upload_of, upload_ok,
    filled, chunk_views, is_principal_key, is_principal_key_bytes};
use crate::registry_tokens::decode_lock_bytes;
use crate::registry_media::decode_upload;

verus! {

/// The saved record of the collection: the admin, whether a network is set
/// and its name, the metadata limit, the id generator's time and count, and
/// the admin bypass.
pub open spec fn registry_record(v: RegistryView) -> Seq<Seq<u8>> {
    seq![
        v.admin,
        u64_bytes(if v.network is Some { 1 } else { 0 }),
        match v.network {
            Some(n) => encode_utf8(n),
            None => Seq::empty(),
        },
        u64_bytes(v.max_metadata_size),
        u64_bytes(v.last_timestamp),
        u64_bytes(v.counter),
        u64_bytes(if v.admin_bypass { 1 } else { 0 }),
    ]
}

/// The admin, network, metadata limit, id generator and admin bypass that a
/// record of seven fields gives.
pub open spec fn registry_from_record(l: Seq<Seq<u8>>) -> (Seq<u8>, Option<Seq<char>>, u64, u64, u64, bool) {
    (
        l[0],
        if u64_of(l[1]) != 0 {
            Some(string_of(l[2]))
        } else {
            None
        },
        u64_of(l[3]),
        u64_of(l[4]),
        u64_of(l[5]),
        u64_of(l[6]) != 0,
    )
}

/// A key that is an ASCII id in UTF-8.
pub open spec fn ascii_key(k: Seq<u8>) -> bool {
    valid_utf8(k) && is_ascii_chars(decode_utf8(k))
}

/// A stored chronolock: under an ASCII id, owned by a principal.
pub open spec fn lock_entry_ok(k: Seq<u8>, v: Seq<u8>) -> bool {
    ascii_key(k) && lock_of(v).owner.len() <= 29
}

/// A stored upload: under an ASCII id, with a slot for each chunk and the
/// count of those that came.
pub open spec fn upload_entry_ok(k: Seq<u8>, v: Seq<u8>) -> bool {
    ascii_key(k) && upload_ok(upload_of(v))
}

/// The tables as the collection needs them: ids stored as UTF-8,
/// principals as principal keys, chronolocks and uploads under ASCII ids,
/// chronolocks owned by principals, and uploads consistent.
pub open spec fn registry_tables_ok(
    logs: Map<Seq<u8>, Seq<u8>>,
    chronolocks: Map<Seq<u8>, Seq<u8>>,
    owner_tokens: Map<Seq<u8>, Seq<u8>>,
    media_files: Map<Seq<u8>, Seq<u8>>,
    uploads: Map<Seq<u8>, Seq<u8>>,
    trusted: Map<Seq<u8>, Seq<u8>>,
) -> bool {
    &&& forall|k: Seq<u8>| #[trigger] logs.contains_key(k) ==> valid_utf8(k)
    &&& forall|k: Seq<u8>| #[trigger] chronolocks.contains_key(k) ==> lock_entry_ok(k, chronolocks[k])
    &&& forall|k: Seq<u8>| #[trigger] owner_tokens.contains_key(k) ==> is_principal_key(k)
    &&& forall|k: Seq<u8>| #[trigger] media_files.contains_key(k) ==> valid_utf8(k)
    &&& forall|k: Seq<u8>| #[trigger] uploads.contains_key(k) ==> upload_entry_ok(k, uploads[k])
    &&& forall|k: Seq<u8>| #[trigger] trusted.contains_key(k) ==> is_principal_key(k)
}

fn is_ascii_key(k: &Vec<u8>) -> (r: bool)
    ensures
        r == ascii_key(k@),
{
    match utf8_string(k.as_slice()) {
        Some(s) => s.is_ascii(),
        None => false,
    }
}

/// Whether an upload has a slot for each chunk and counts those that came.
fn upload_is_ok(u: &MediaUpload) -> (r: bool)
    ensures
        r == upload_ok(u@),
{
    if u.chunks.len() != u.total_chunks as usize {
        return false;
    }
    let ghost c = chunk_views(u.chunks@);
    let mut count: u64 = 0;
    let mut i: usize = 0;
    assert(c.subrange(0, 0) =~= Seq::<Option<Seq<u8>>>::empty());
    while i < u.chunks.len()
        invariant
            i <= u.chunks@.len(),
            c == chunk_views(u.chunks@),
            count == filled(c.subrange(0, i as int)),
            count <= i,
        decreases u.chunks@.len() - i,
    {
        assert(c.subrange(0, i + 1).drop_last() =~= c.subrange(0, i as int));
        if u.chunks[i].is_some() {
            count = count + 1;
        }
        i = i + 1;
    }
    assert(c.subrange(0, u.chunks@.len() as int) =~= c);
    count == u.received_chunks as u64
}

fn check_registry_tables(
    logs: &ByteTable,
    chronolocks: &ByteTable,
    owner_tokens: &ByteTable,
    media_files: &ByteTable,
    uploads: &ByteTable,
    trusted: &ByteTable,
) -> (r: bool)
    ensures
        r == registry_tables_ok(
            byte_table_contents(*logs),
            byte_table_contents(*chronolocks),
            byte_table_contents(*owner_tokens),
            byte_table_contents(*media_files),
            byte_table_contents(*uploads),
            byte_table_contents(*trusted),
        ),
{
    let utf8_key = |k: &Vec<u8>, v: &Vec<u8>| -> (b: bool)
        ensures
            b == valid_utf8(k@),
        { is_utf8(k) };
    let lock_entry = |k: &Vec<u8>, v: &Vec<u8>| -> (b: bool)
        ensures
            b == lock_entry_ok(k@, v@),
        { is_ascii_key(k) && decode_lock_bytes(v.as_slice()).owner.len() <= 29 };
    let upload_entry = |k: &Vec<u8>, v: &Vec<u8>| -> (b: bool)
        ensures
            b == upload_entry_ok(k@, v@),
        { is_ascii_key(k) && upload_is_ok(&decode_upload(v.as_slice())) };
    let principal_entry = |k: &Vec<u8>, v: &Vec<u8>| -> (b: bool)
        ensures
            b == is_principal_key(k@),
        { is_principal_key_bytes(k) };
    let a = all_entries(logs, utf8_key, Ghost(|k: Seq<u8>, v: Seq<u8>| valid_utf8(k)));
    let b = all_entries(chronolocks, lock_entry, Ghost(|k: Seq<u8>, v: Seq<u8>| lock_entry_ok(k, v)));
    let c = all_entries(owner_tokens, principal_entry, Ghost(|k: Seq<u8>, v: Seq<u8>| is_principal_key(k)));
    let d = all_entries(media_files, utf8_key, Ghost(|k: Seq<u8>, v: Seq<u8>| valid_utf8(k)));
    let e = all_entries(uploads, upload_entry, Ghost(|k: Seq<u8>, v: Seq<u8>| upload_entry_ok(k, v)));
    let f = all_entries(trusted, principal_entry, Ghost(|k: Seq<u8>, v: Seq<u8>| is_principal_key(k)));
    a && b && c && d && e && f
}

impl Registry {
    /// Saves the admin, the network, the metadata limit, the id generator
    /// and the admin bypass in the settings table, before an upgrade.
    pub fn save_settings(&mut self)
        ensures
            final(self)@ == (RegistryView {
                saved: old(self)@.saved.insert(settings_key(), fields(registry_record(old(self)@))),
                ..old(self)@
            }),
            final(self).wf() == old(self).wf(),
    {
        let mut l: Vec<Vec<u8>> = Vec::new();
        l.push(to_vec(self.admin.as_slice()));
        match &self.network {
            Some(n) => {
                l.push(encode_u64(1));
                l.push(string_bytes(n.as_str()));
            },
            None => {
                l.push(encode_u64(0));
                l.push(Vec::new());
            },
        }
        l.push(encode_u64(self.max_metadata_size));
        l.push(encode_u64(self.last_timestamp));
        l.push(encode_u64(self.counter));
        l.push(encode_u64(if self.admin_bypass { 1 } else { 0 }));
        assert(views(l@) =~= registry_record(self@));
        write_record(&mut self.settings, &l);
        assert(self@ =~= (RegistryView {
            saved: old(self)@.saved.insert(settings_key(), fields(registry_record(old(self)@))),
            ..old(self)@
        }));
        assert(self@.locks == old(self)@.locks && self@.uploads == old(self)@.uploads);
        assert(self.wf() == old(self).wf());
    }

    /// The collection over reopened tables, its settings read from the saved
    /// record; `None` where there is no whole record, its admin is no
    /// principal, or a table is not as the collection keeps it.
    pub fn from_tables(
        settings: ByteTable,
        logs: ByteTable,
        chronolocks: ByteTable,
        owner_tokens: ByteTable,
        media_files: ByteTable,
        uploads: ByteTable,
        trusted: ByteTable,
    ) -> (r: Option<Registry>)
        requires
            byte_table_contents(logs).dom().finite(),
            byte_table_contents(chronolocks).dom().finite(),
            byte_table_contents(owner_tokens).dom().finite(),
            byte_table_contents(media_files).dom().finite(),
            byte_table_contents(uploads).dom().finite(),
            byte_table_contents(trusted).dom().finite(),
        ensures
            r is Some <==> (saved_record(byte_table_contents(settings), 7) matches Some(l)
                && l[0].len() <= 29 && registry_tables_ok(
                byte_table_contents(logs),
                byte_table_contents(chronolocks),
                byte_table_contents(owner_tokens),
                byte_table_contents(media_files),
                byte_table_contents(uploads),
                byte_table_contents(trusted),
            )),
            r matches Some(x) ==> {
                let l = saved_record(byte_table_contents(settings), 7)->0;
                &&& x.wf()
                &&& (x@.admin, x@.network, x@.max_metadata_size, x@.last_timestamp, x@.counter, x@.admin_bypass)
                    == registry_from_record(l)
                &&& x.settings == settings
                &&& x.logs == logs
                &&& x.chronolocks == chronolocks
                &&& x.owner_tokens == owner_tokens
                &&& x.media_files == media_files
                &&& x.uploads == uploads
                &&& x.trusted == trusted
            },
    {
        let l = match read_record(&settings, 7) {
            Some(l) => l,
            None => {
                return None;
            },
        };
        let ghost lv = views(l@);
        assert(lv[0] == l@[0]@ && lv[1] == l@[1]@ && lv[2] == l@[2]@ && lv[3] == l@[3]@);
        assert(lv[4] == l@[4]@ && lv[5] == l@[5]@ && lv[6] == l@[6]@);
        if l[0].len() > 29 {
            return None;
        }
        if !check_registry_tables(&logs, &chronolocks, &owner_tokens, &media_files, &uploads, &trusted) {
            return None;
        }
        let network = if decode_u64(l[1].as_slice()) != 0 {
            Some(decode_string(l[2].as_slice()))
        } else {
            None
        };
        let r = Registry {
            admin: to_vec(l[0].as_slice()),
            network,
            max_metadata_size: decode_u64(l[3].as_slice()),
            last_timestamp: decode_u64(l[4].as_slice()),
            counter: decode_u64(l[5].as_slice()),
            admin_bypass: decode_u64(l[6].as_slice()) != 0,
            logs,
            chronolocks,
            owner_tokens,
            media_files,
            uploads,
            trusted,
            settings,
        };
        assert forall|k: Seq<char>| #[trigger] r@.locks.contains_key(k) implies is_ascii_chars(k)
            && r@.locks[k].owner.len() <= 29 by {
            let b = encode_utf8(k);
            encode_utf8_decode_utf8(k);
            assert(byte_table_contents(r.chronolocks).contains_key(b));
            assert(lock_entry_ok(b, byte_table_contents(r.chronolocks)[b]));
        }
        assert forall|k: Seq<char>| #[trigger] r@.uploads.contains_key(k) implies is_ascii_chars(k)
            && upload_ok(r@.uploads[k]) by {
            let b = encode_utf8(k);
            encode_utf8_decode_utf8(k);
            assert(byte_table_contents(r.uploads).contains_key(b));
            assert(upload_entry_ok(b, byte_table_contents(r.uploads)[b]));
        }
        Some(r)
    }

    /// The collection as stable memory holds it after an upgrade
    /// (`post_upgrade`): its tables reopened in the regions that `init` gave
    /// them, its settings read from the saved record. What memory holds
    /// comes from outside; whatever it is, a collection given back is
    /// well-formed.
    pub fn reopen(regions: Regions) -> (r: Option<Registry>)
        ensures
            r matches Some(x) ==> {
                &&& x.wf()
                &&& saved_record(x@.saved, 7) is Some
                &&& (x@.admin, x@.network, x@.max_metadata_size, x@.last_timestamp, x@.counter, x@.admin_bypass)
                    == registry_from_record(saved_record(x@.saved, 7)->0)
            },
    {
        let settings = byte_table_init(region(&regions, 1));
        let logs = byte_table_init(region(&regions, 0));
        let chronolocks = byte_table_init(region(&regions, 5));
        let owner_tokens = byte_table_init(region(&regions, 6));
        let media_files = byte_table_init(region(&regions, 7));
        let uploads = byte_table_init(region(&regions, 9));
        let trusted = byte_table_init(region(&regions, 10));
        Registry::from_tables(settings, logs, chronolocks, owner_tokens, media_files, uploads, trusted)
    }
}

/// What is saved before an upgrade is read back after it: a collection
/// whose admin is a principal, with a network name of machine size, starts
/// again with the same admin, network, metadata limit, id generator and
/// admin bypass.
pub proof fn law_registry_save_then_restore(v: RegistryView)
    requires
        v.admin.len() <= 29,
        v.network matches Some(n) ==> encode_utf8(n).len() < 0x1_0000_0000_0000_0000,
    ensures
        ({
            let saved = v.saved.insert(settings_key(), fields(registry_record(v)));
            &&& saved_record(saved, 7) == Some(registry_record(v))
            &&& registry_record(v)[0].len() <= 29
            &&& registry_from_record(registry_record(v)) == (
                v.admin,
                v.network,
                v.max_metadata_size,
                v.last_timestamp,
                v.counter,
                v.admin_bypass,
            )
        }),
{
    let l = registry_record(v);
    lemma_numbers_roundtrip(0, 1, 0);
    lemma_numbers_roundtrip(0, 0, 0);
    lemma_numbers_roundtrip(0, v.max_metadata_size, 0);
    lemma_numbers_roundtrip(0, v.last_timestamp, 0);
    lemma_numbers_roundtrip(0, v.counter, 0);
    if v.network is Some {
        lemma_string_roundtrip(v.network->0);
    }
    assert(fields_fit(l)) by {
        assert forall|i: int| 0 <= i < l.len() implies #[trigger] l[i].len() < 0x1_0000_0000_0000_0000 by {
        }
    }
    lemma_record_roundtrip(v.saved, l);
}

} // verus!
