//! Keeping the ledger across an upgrade. Its tables live in stable memory;
//! its admin, settings and log counter are saved as one record in a settings
//! table before an upgrade, and read back after it, when the tables are
//! reopened and checked.
use vstd::prelude::*;
use vstd::utf8::encode_utf8;
use crate::codec::{fields, fields_fit, views, to_vec, bytes_eq};
use crate::tables::{u128_bytes, u64_bytes, u128_of, u64_of, string_of, encode_u128, encode_u64,
    decode_u128, decode_u64, decode_string, settings_key, saved_record, write_record, read_record,
    lemma_record_roundtrip, lemma_numbers_roundtrip, lemma_string_roundtrip};
use crate::text::string_bytes;
use crate::stable::{Regions, ByteTable, NumberTable, byte_table_contents, number_table_contents, region,
    byte_table_init, number_table_init, byte_table_entries};
use crate::ledger::{Ledger, LedgerView, MetaView, Metadata, tx_of, decode_tx};

verus! {

/// The saved record of the ledger: the admin, the settings and the log
/// counter, numbers in little-endian bytes and texts in UTF-8.
pub open spec fn ledger_record(v: LedgerView) -> Seq<Seq<u8>> {
    seq![
        v.admin,
        encode_utf8(v.meta.name),
        encode_utf8(v.meta.symbol),
        u64_bytes(v.meta.decimals as u64),
        u128_bytes(v.meta.total_supply),
        u128_bytes(v.meta.transfer_fee),
        u128_bytes(v.meta.total_burned),
        u64_bytes(v.meta.vesting_start_time),
        u64_bytes(v.meta.vesting_duration),
        u64_bytes(v.log_counter),
    ]
}

/// The admin, settings and log counter that a record of ten fields gives.
pub open spec fn ledger_from_record(l: Seq<Seq<u8>>) -> (Seq<u8>, MetaView, u64) {
    (
        l[0],
        MetaView {
            name: string_of(l[1]),
            symbol: string_of(l[2]),
            decimals: u64_of(l[3]) as u8,
            total_supply: u128_of(l[4]),
            transfer_fee: u128_of(l[5]),
            total_burned: u128_of(l[6]),
            vesting_start_time: u64_of(l[7]),
            vesting_duration: u64_of(l[8]),
        },
        u64_of(l[9]),
    )
}

/// A record the ledger can start from: the admin is a principal, there are
/// at most 30 decimals, and the end of vesting is a time.
pub open spec fn ledger_record_ok(l: Seq<Seq<u8>>) -> bool {
    &&& l[0].len() <= 29
    &&& u64_of(l[3]) <= 30
    &&& u64_of(l[7]) + u64_of(l[8]) <= u64::MAX
}

/// Every stored transaction is stored under its own id.
pub open spec fn transactions_ok(raw: Map<Seq<u8>, Seq<u8>>) -> bool {
    forall|k: Seq<u8>| #[trigger] raw.contains_key(k) ==> tx_of(raw[k]).tx_id == k
}

/// Checks that every stored transaction is stored under its own id.
pub fn check_transactions(t: &ByteTable) -> (r: bool)
    ensures
        r == transactions_ok(byte_table_contents(*t)),
{
    let entries = byte_table_entries(t);
    let ghost raw = byte_table_contents(*t);
    let mut i: usize = 0;
    while i < entries.len()
        invariant
            i <= entries@.len(),
            raw == byte_table_contents(*t),
            forall|j: int|
                0 <= j < entries@.len() ==> raw.contains_key(#[trigger] entries@[j].0@) && raw[entries@[j].0@]
                    == entries@[j].1@,
            forall|k: Seq<u8>| raw.contains_key(k) ==> exists|j: int| 0 <= j < entries@.len() && #[trigger] entries@[j].0@ == k,
            forall|j: int| 0 <= j < i ==> tx_of(raw[#[trigger] entries@[j].0@]).tx_id == entries@[j].0@,
        decreases entries@.len() - i,
    {
        let tx = decode_tx(entries[i].1.as_slice());
        let id = to_vec(tx.tx_id.as_slice());
        if !bytes_eq(id.as_slice(), entries[i].0.as_slice()) {
            assert(raw.contains_key(entries@[i as int].0@));
            return false;
        }
        i = i + 1;
    }
    assert forall|k: Seq<u8>| #[trigger] raw.contains_key(k) implies tx_of(raw[k]).tx_id == k by {
        let j = choose|j: int| 0 <= j < entries@.len() && #[trigger] entries@[j].0@ == k;
        assert(tx_of(raw[entries@[j].0@]).tx_id == entries@[j].0@);
    }
    true
}

impl Ledger {
    /// Saves the admin, the settings and the log counter in the settings
    /// table, before an upgrade.
    pub fn save_settings(&mut self)
        ensures
            final(self)@ == (LedgerView {
                saved: old(self)@.saved.insert(settings_key(), fields(ledger_record(old(self)@))),
                ..old(self)@
            }),
            final(self).wf() == old(self).wf(),
    {
        let mut l: Vec<Vec<u8>> = Vec::new();
        l.push(to_vec(self.admin.as_slice()));
        l.push(string_bytes(self.metadata.name.as_str()));
        l.push(string_bytes(self.metadata.symbol.as_str()));
        l.push(encode_u64(self.metadata.decimals as u64));
        l.push(encode_u128(self.metadata.total_supply));
        l.push(encode_u128(self.metadata.transfer_fee));
        l.push(encode_u128(self.metadata.total_burned));
        l.push(encode_u64(self.metadata.vesting_start_time));
        l.push(encode_u64(self.metadata.vesting_duration));
        l.push(encode_u64(self.log_counter));
        assert(views(l@) =~= ledger_record(self@));
        write_record(&mut self.settings, &l);
        assert(self@ =~= (LedgerView {
            saved: old(self)@.saved.insert(settings_key(), fields(ledger_record(old(self)@))),
            ..old(self)@
        }));
    }

    /// The ledger over reopened tables, its admin, settings and log counter
    /// read from the saved record; `None` where there is no whole record, it
    /// cannot start the ledger, or a transaction is not stored under its id.
    pub fn from_tables(
        settings: ByteTable,
        balances: ByteTable,
        allowances: ByteTable,
        expirations: ByteTable,
        referral_by_account: ByteTable,
        account_by_referral: ByteTable,
        claimed: ByteTable,
        logs: NumberTable,
        transactions: ByteTable,
    ) -> (r: Option<Ledger>)
        requires
            byte_table_contents(balances).dom().finite(),
            number_table_contents(logs).dom().finite(),
        ensures
            r is Some <==> (saved_record(byte_table_contents(settings), 10) matches Some(l)
                && ledger_record_ok(l) && transactions_ok(byte_table_contents(transactions))),
            r matches Some(x) ==> {
                let l = saved_record(byte_table_contents(settings), 10)->0;
                &&& x.wf()
                &&& (x@.admin, x@.meta, x@.log_counter) == ledger_from_record(l)
                &&& x.settings == settings
                &&& x.balances == balances
                &&& x.allowances == allowances
                &&& x.expirations == expirations
                &&& x.referral_by_account == referral_by_account
                &&& x.account_by_referral == account_by_referral
                &&& x.claimed == claimed
                &&& x.logs == logs
                &&& x.transactions == transactions
            },
    {
        let l = match read_record(&settings, 10) {
            Some(l) => l,
            None => {
                return None;
            },
        };
        let ghost lv = views(l@);
        assert(lv[0] == l@[0]@ && lv[1] == l@[1]@ && lv[2] == l@[2]@ && lv[3] == l@[3]@);
        assert(lv[4] == l@[4]@ && lv[5] == l@[5]@ && lv[6] == l@[6]@ && lv[7] == l@[7]@);
        assert(lv[8] == l@[8]@ && lv[9] == l@[9]@);
        let decimals = decode_u64(l[3].as_slice());
        let start = decode_u64(l[7].as_slice());
        let duration = decode_u64(l[8].as_slice());
        if l[0].len() > 29 || decimals > 30 || start > u64::MAX - duration {
            return None;
        }
        if !check_transactions(&transactions) {
            return None;
        }
        let metadata = Metadata {
            name: decode_string(l[1].as_slice()),
            symbol: decode_string(l[2].as_slice()),
            decimals: decimals as u8,
            total_supply: decode_u128(l[4].as_slice()),
            transfer_fee: decode_u128(l[5].as_slice()),
            total_burned: decode_u128(l[6].as_slice()),
            vesting_start_time: start,
            vesting_duration: duration,
        };
        let log_counter = decode_u64(l[9].as_slice());
        let r = Ledger {
            admin: to_vec(l[0].as_slice()),
            metadata,
            log_counter,
            balances,
            allowances,
            expirations,
            referral_by_account,
            account_by_referral,
            claimed,
            logs,
            transactions,
            settings,
        };
        assert forall|k: Seq<u8>| #[trigger] r@.transactions.contains_key(k) implies r@.transactions[k].tx_id
            == k by {
            assert(byte_table_contents(r.transactions).contains_key(k));
        }
        Some(r)
    }

    /// The ledger as stable memory holds it after an upgrade (`post_upgrade`):
    /// its tables reopened in the regions that `init` gave them, its admin,
    /// settings and log counter read from the saved record. What memory holds
    /// comes from outside; whatever it is, a ledger given back is
    /// well-formed.
    pub fn reopen(regions: Regions) -> (r: Option<Ledger>)
        ensures
            r matches Some(x) ==> {
                &&& x.wf()
                &&& saved_record(x@.saved, 10) is Some
                &&& (x@.admin, x@.meta, x@.log_counter) == ledger_from_record(saved_record(x@.saved, 10)->0)
            },
    {
        let settings = byte_table_init(region(&regions, 1));
        let balances = byte_table_init(region(&regions, 2));
        let allowances = byte_table_init(region(&regions, 3));
        let expirations = byte_table_init(region(&regions, 4));
        let referral_by_account = byte_table_init(region(&regions, 5));
        let account_by_referral = byte_table_init(region(&regions, 6));
        let claimed = byte_table_init(region(&regions, 7));
        let logs = number_table_init(region(&regions, 8));
        let transactions = byte_table_init(region(&regions, 9));
        Ledger::from_tables(
            settings,
            balances,
            allowances,
            expirations,
            referral_by_account,
            account_by_referral,
            claimed,
            logs,
            transactions,
        )
    }
}

/// What is saved before an upgrade is read back after it: a ledger whose
/// admin is a principal, with at most 30 decimals, a vesting end that is a
/// time and texts of machine size, starts again with the same admin,
/// settings and log counter.
pub proof fn law_ledger_save_then_restore(v: LedgerView)
    requires
        v.admin.len() <= 29,
        v.meta.decimals <= 30,
        v.meta.vesting_start_time + v.meta.vesting_duration <= u64::MAX,
        encode_utf8(v.meta.name).len() < 0x1_0000_0000_0000_0000,
        encode_utf8(v.meta.symbol).len() < 0x1_0000_0000_0000_0000,
    ensures
        ({
            let saved = v.saved.insert(settings_key(), fields(ledger_record(v)));
            &&& saved_record(saved, 10) == Some(ledger_record(v))
            &&& ledger_record_ok(ledger_record(v))
            &&& ledger_from_record(ledger_record(v)) == (v.admin, v.meta, v.log_counter)
        }),
{
    let l = ledger_record(v);
    lemma_numbers_roundtrip(v.meta.total_supply, v.meta.decimals as u64, 0);
    lemma_numbers_roundtrip(v.meta.transfer_fee, v.meta.vesting_start_time, 0);
    lemma_numbers_roundtrip(v.meta.total_burned, v.meta.vesting_duration, 0);
    lemma_numbers_roundtrip(0, v.log_counter, 0);
    lemma_string_roundtrip(v.meta.name);
    lemma_string_roundtrip(v.meta.symbol);
    assert(fields_fit(l)) by {
        assert forall|i: int| 0 <= i < l.len() implies #[trigger] l[i].len() < 0x1_0000_0000_0000_0000 by {
        }
    }
    lemma_record_roundtrip(v.saved, l);
    assert(ledger_from_record(l).1 == v.meta);
}

} // verus!
