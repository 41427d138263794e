//! Keeping the first collection across an upgrade. Its tables live in
//! stable memory; its admin, key service, metadata limit and id generator
//! are saved as one record in a settings table before an upgrade, and read
//! back after it, when the tables are reopened and checked.
use vstd::prelude::*;
use vstd::utf8::valid_utf8;
use crate::codec::{fields, fields_fit, views, to_vec};
use crate::tables::{u64_bytes, u64_of, encode_u64, decode_u64, settings_key, saved_record,
    write_record, read_record, lemma_record_roundtrip, lemma_numbers_roundtrip, all_entries, is_utf8};
use crate::stable::{Regions, ByteTable, byte_table_contents, region, byte_table_init};
use crate::registry::{text_table_ok, principal_table_ok, is_principal_key, is_principal_key_bytes};
use crate::classic::{ClassicRegistry, ClassicView, timed_of, decode_timed};

verus! {

/// The saved record of the collection: the admin, whether there is a key
/// service and its principal, the metadata limit, and the id generator's
/// time and count.
pub open spec fn classic_record(v: ClassicView) -> Seq<Seq<u8>> {
    seq![
        v.admin,
        u64_bytes(if v.vetkd is Some { 1 } else { 0 }),
        match v.vetkd {
            Some(c) => c,
            None => Seq::empty(),
        },
        u64_bytes(v.max_metadata_size),
        u64_bytes(v.last_timestamp),
        u64_bytes(v.counter),
    ]
}

/// The admin, key service, metadata limit and id generator that a record of
/// six fields gives.
pub open spec fn classic_from_record(l: Seq<Seq<u8>>) -> (Seq<u8>, Option<Seq<u8>>, u64, u64, u64) {
    (
        l[0],
        if u64_of(l[1]) != 0 {
            Some(l[2])
        } else {
            None
        },
        u64_of(l[3]),
        u64_of(l[4]),
        u64_of(l[5]),
    )
}

/// A record the collection can start from: the admin and the key service
/// are principals.
pub open spec fn classic_record_ok(l: Seq<Seq<u8>>) -> bool {
    l[0].len() <= 29 && (u64_of(l[1]) != 0 ==> l[2].len() <= 29)
}

/// A stored chronolock: under UTF-8 bytes, owned by a principal.
pub open spec fn timed_entry_ok(k: Seq<u8>, v: Seq<u8>) -> bool {
    valid_utf8(k) && timed_of(v).owner.len() <= 29
}

/// The tables as the collection needs them: ids stored as UTF-8, owners
/// stored as principal keys, and every chronolock owned by a principal.
pub open spec fn classic_tables_ok(
    logs: Map<Seq<u8>, Seq<u8>>,
    chronolocks: Map<Seq<u8>, Seq<u8>>,
    owner_tokens: Map<Seq<u8>, Seq<u8>>,
    media_files: Map<Seq<u8>, Seq<u8>>,
) -> bool {
    &&& forall|k: Seq<u8>| #[trigger] logs.contains_key(k) ==> valid_utf8(k)
    &&& forall|k: Seq<u8>| #[trigger] chronolocks.contains_key(k) ==> timed_entry_ok(k, chronolocks[k])
    &&& forall|k: Seq<u8>| #[trigger] owner_tokens.contains_key(k) ==> is_principal_key(k)
    &&& forall|k: Seq<u8>| #[trigger] media_files.contains_key(k) ==> valid_utf8(k)
}

fn check_classic_tables(logs: &ByteTable, chronolocks: &ByteTable, owner_tokens: &ByteTable, media_files: &ByteTable) -> (r: bool)
    ensures
        r == classic_tables_ok(
            byte_table_contents(*logs),
            byte_table_contents(*chronolocks),
            byte_table_contents(*owner_tokens),
            byte_table_contents(*media_files),
        ),
{
    let utf8_key = |k: &Vec<u8>, v: &Vec<u8>| -> (b: bool)
        ensures
            b == valid_utf8(k@),
        { is_utf8(k) };
    let lock_entry = |k: &Vec<u8>, v: &Vec<u8>| -> (b: bool)
        ensures
            b == timed_entry_ok(k@, v@),
        { is_utf8(k) && decode_timed(v.as_slice()).owner.len() <= 29 };
    let principal_entry = |k: &Vec<u8>, v: &Vec<u8>| -> (b: bool)
        ensures
            b == is_principal_key(k@),
        { is_principal_key_bytes(k) };
    let a = all_entries(logs, utf8_key, Ghost(|k: Seq<u8>, v: Seq<u8>| valid_utf8(k)));
    let b = all_entries(chronolocks, lock_entry, Ghost(|k: Seq<u8>, v: Seq<u8>| timed_entry_ok(k, v)));
    let c = all_entries(owner_tokens, principal_entry, Ghost(|k: Seq<u8>, v: Seq<u8>| is_principal_key(k)));
    let d = all_entries(media_files, utf8_key, Ghost(|k: Seq<u8>, v: Seq<u8>| valid_utf8(k)));
    a && b && c && d
}

impl ClassicRegistry {
    /// Saves the admin, the key service, the metadata limit and the id
    /// generator in the settings table, before an upgrade.
    pub fn save_settings(&mut self)
        ensures
            final(self)@ == (ClassicView {
                saved: old(self)@.saved.insert(settings_key(), fields(classic_record(old(self)@))),
                ..old(self)@
            }),
            final(self).wf() == old(self).wf(),
    {
        let mut l: Vec<Vec<u8>> = Vec::new();
        l.push(to_vec(self.admin.as_slice()));
        match &self.vetkd {
            Some(c) => {
                l.push(encode_u64(1));
                l.push(to_vec(c.as_slice()));
            },
            None => {
                l.push(encode_u64(0));
                l.push(Vec::new());
            },
        }
        l.push(encode_u64(self.max_metadata_size));
        l.push(encode_u64(self.last_timestamp));
        l.push(encode_u64(self.counter));
        assert(views(l@) =~= classic_record(self@));
        write_record(&mut self.settings, &l);
        assert(self@ =~= (ClassicView {
            saved: old(self)@.saved.insert(settings_key(), fields(classic_record(old(self)@))),
            ..old(self)@
        }));
        assert(self@.locks == old(self)@.locks);
        assert(self.wf() == old(self).wf());
    }

    /// The collection over reopened tables, its admin, key service, metadata
    /// limit and id generator read from the saved record; `None` where there
    /// is no whole record, it names no principals, or a table is not as the
    /// collection keeps it.
    pub fn from_tables(
        settings: ByteTable,
        logs: ByteTable,
        chronolocks: ByteTable,
        owner_tokens: ByteTable,
        media_files: ByteTable,
    ) -> (r: Option<ClassicRegistry>)
        requires
            byte_table_contents(logs).dom().finite(),
            byte_table_contents(chronolocks).dom().finite(),
            byte_table_contents(owner_tokens).dom().finite(),
            byte_table_contents(media_files).dom().finite(),
        ensures
            r is Some <==> (saved_record(byte_table_contents(settings), 6) matches Some(l)
                && classic_record_ok(l) && classic_tables_ok(
                byte_table_contents(logs),
                byte_table_contents(chronolocks),
                byte_table_contents(owner_tokens),
                byte_table_contents(media_files),
            )),
            r matches Some(x) ==> {
                let l = saved_record(byte_table_contents(settings), 6)->0;
                &&& x.wf()
                &&& (x@.admin, x@.vetkd, x@.max_metadata_size, x@.last_timestamp, x@.counter)
                    == classic_from_record(l)
                &&& x.settings == settings
                &&& x.logs == logs
                &&& x.chronolocks == chronolocks
                &&& x.owner_tokens == owner_tokens
                &&& x.media_files == media_files
            },
    {
        let l = match read_record(&settings, 6) {
            Some(l) => l,
            None => {
                return None;
            },
        };
        let ghost lv = views(l@);
        assert(lv[0] == l@[0]@ && lv[1] == l@[1]@ && lv[2] == l@[2]@ && lv[3] == l@[3]@);
        assert(lv[4] == l@[4]@ && lv[5] == l@[5]@);
        let has_vetkd = decode_u64(l[1].as_slice()) != 0;
        if l[0].len() > 29 || (has_vetkd && l[2].len() > 29) {
            return None;
        }
        if !check_classic_tables(&logs, &chronolocks, &owner_tokens, &media_files) {
            return None;
        }
        let vetkd = if has_vetkd {
            Some(to_vec(l[2].as_slice()))
        } else {
            None
        };
        let r = ClassicRegistry {
            admin: to_vec(l[0].as_slice()),
            vetkd,
            max_metadata_size: decode_u64(l[3].as_slice()),
            last_timestamp: decode_u64(l[4].as_slice()),
            counter: decode_u64(l[5].as_slice()),
            logs,
            chronolocks,
            owner_tokens,
            media_files,
            settings,
        };
        assert forall|k: vstd::prelude::Seq<char>| #[trigger] r@.locks.contains_key(k) implies r@.locks[k].owner.len()
            <= 29 by {
            let b = vstd::utf8::encode_utf8(k);
            assert(byte_table_contents(r.chronolocks).contains_key(b));
            assert(timed_entry_ok(b, byte_table_contents(r.chronolocks)[b]));
        }
        Some(r)
    }

    /// The collection as stable memory holds it after an upgrade
    /// (`post_upgrade`): its tables reopened in the regions that `init` gave
    /// them, the rest read from the saved record. What memory holds comes
    /// from outside; whatever it is, a collection given back is well-formed.
    pub fn reopen(regions: Regions) -> (r: Option<ClassicRegistry>)
        ensures
            r matches Some(x) ==> {
                &&& x.wf()
                &&& saved_record(x@.saved, 6) is Some
                &&& (x@.admin, x@.vetkd, x@.max_metadata_size, x@.last_timestamp, x@.counter)
                    == classic_from_record(saved_record(x@.saved, 6)->0)
            },
    {
        let settings = byte_table_init(region(&regions, 1));
        let logs = byte_table_init(region(&regions, 0));
        let chronolocks = byte_table_init(region(&regions, 5));
        let owner_tokens = byte_table_init(region(&regions, 6));
        let media_files = byte_table_init(region(&regions, 7));
        ClassicRegistry::from_tables(settings, logs, chronolocks, owner_tokens, media_files)
    }
}

/// What is saved before an upgrade is read back after it: a collection
/// whose admin and key service are principals starts again with the same
/// admin, key service, metadata limit and id generator.
pub proof fn law_classic_save_then_restore(v: ClassicView)
    requires
        v.admin.len() <= 29,
        v.vetkd matches Some(c) ==> c.len() <= 29,
    ensures
        ({
            let saved = v.saved.insert(settings_key(), fields(classic_record(v)));
            &&& saved_record(saved, 6) == Some(classic_record(v))
            &&& classic_record_ok(classic_record(v))
            &&& classic_from_record(classic_record(v)) == (
                v.admin,
                v.vetkd,
                v.max_metadata_size,
                v.last_timestamp,
                v.counter,
            )
        }),
{
    let l = classic_record(v);
    lemma_numbers_roundtrip(0, 1, 0);
    lemma_numbers_roundtrip(0, 0, 0);
    lemma_numbers_roundtrip(0, v.max_metadata_size, 0);
    lemma_numbers_roundtrip(0, v.last_timestamp, 0);
    lemma_numbers_roundtrip(0, v.counter, 0);
    assert(fields_fit(l)) by {
        assert forall|i: int| 0 <= i < l.len() implies #[trigger] l[i].len() < 0x1_0000_0000_0000_0000 by {
        }
    }
    lemma_record_roundtrip(v.saved, l);
}

} // verus!
