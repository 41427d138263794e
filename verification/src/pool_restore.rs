//! Keeping the first ledger across an upgrade. Its tables live in stable
//! memory; its admin, settings and dapp funds are saved as one record in a
//! settings table before an upgrade, and read back after it, when the tables
//! are reopened.
use vstd::prelude::*;
use vstd::utf8::encode_utf8;
use crate::codec::{fields, fields_fit, views, to_vec};
use crate::tables::{u128_bytes, u64_bytes, u128_of, u64_of, string_of, encode_u128, encode_u64,
    decode_u128, decode_u64, decode_string, settings_key, saved_record, write_record, read_record,
    lemma_record_roundtrip, lemma_numbers_roundtrip, lemma_string_roundtrip};
use crate::text::string_bytes;
use crate::stable::{Regions, ByteTable, NumberTable, byte_table_contents, number_table_contents, region,
    byte_table_init, number_table_init};
use crate::pool_ledger::{PoolLedger, PoolView, PoolMetaView, PoolMetadata};

verus! {

/// The saved record of the ledger: the admin, the settings and the dapp
/// funds, numbers in little-endian bytes and texts in UTF-8.
pub open spec fn pool_record(v: PoolView) -> Seq<Seq<u8>> {
    seq![
        v.admin,
        encode_utf8(v.meta.name),
        encode_utf8(v.meta.symbol),
        u64_bytes(v.meta.decimals as u64),
        u128_bytes(v.meta.total_supply),
        u128_bytes(v.meta.transfer_fee),
        u128_bytes(v.meta.community_pool),
        u128_bytes(v.meta.team_vesting_pool),
        u128_bytes(v.meta.reserve),
        u128_bytes(v.meta.total_burned),
        u64_bytes(v.meta.vesting_start_time),
        u64_bytes(v.meta.vesting_duration),
        u128_bytes(v.dapp_funds),
    ]
}

/// The admin, settings and dapp funds that a record of thirteen fields gives.
pub open spec fn pool_from_record(l: Seq<Seq<u8>>) -> (Seq<u8>, PoolMetaView, u128) {
    (
        l[0],
        PoolMetaView {
            name: string_of(l[1]),
            symbol: string_of(l[2]),
            decimals: u64_of(l[3]) as u8,
            total_supply: u128_of(l[4]),
            transfer_fee: u128_of(l[5]),
            community_pool: u128_of(l[6]),
            team_vesting_pool: u128_of(l[7]),
            reserve: u128_of(l[8]),
            total_burned: u128_of(l[9]),
            vesting_start_time: u64_of(l[10]),
            vesting_duration: u64_of(l[11]),
        },
        u128_of(l[12]),
    )
}

/// A record the ledger can start from: the admin is a principal and there
/// are at most 30 decimals.
pub open spec fn pool_record_ok(l: Seq<Seq<u8>>) -> bool {
    l[0].len() <= 29 && u64_of(l[3]) <= 30
}

impl PoolLedger {
    /// Saves the admin, the settings and the dapp funds in the settings table,
    /// before an upgrade.
    pub fn save_settings(&mut self)
        ensures
            final(self)@ == (PoolView {
                saved: old(self)@.saved.insert(settings_key(), fields(pool_record(old(self)@))),
                ..old(self)@
            }),
            final(self).wf() == old(self).wf(),
    {
        let mut l: Vec<Vec<u8>> = Vec::new();
        l.push(to_vec(self.admin.as_slice()));
        l.push(string_bytes(self.metadata.name.as_str()));
        l.push(string_bytes(self.metadata.symbol.as_str()));
        l.push(encode_u64(self.metadata.decimals as u64));
        l.push(encode_u128(self.metadata.total_supply));
        l.push(encode_u128(self.metadata.transfer_fee));
        l.push(encode_u128(self.metadata.community_pool));
        l.push(encode_u128(self.metadata.team_vesting_pool));
        l.push(encode_u128(self.metadata.reserve));
        l.push(encode_u128(self.metadata.total_burned));
        l.push(encode_u64(self.metadata.vesting_start_time));
        l.push(encode_u64(self.metadata.vesting_duration));
        l.push(encode_u128(self.dapp_funds));
        assert(views(l@) =~= pool_record(self@));
        write_record(&mut self.settings, &l);
        assert(self@ =~= (PoolView {
            saved: old(self)@.saved.insert(settings_key(), fields(pool_record(old(self)@))),
            ..old(self)@
        }));
    }

    /// The ledger over reopened tables, its admin, settings and dapp funds
    /// read from the saved record; `None` where there is no whole record or
    /// it cannot start the ledger.
    pub fn from_tables(
        settings: ByteTable,
        balances: ByteTable,
        allowances: ByteTable,
        referral_by_account: ByteTable,
        account_by_referral: ByteTable,
        claimed: ByteTable,
        logs: NumberTable,
    ) -> (r: Option<PoolLedger>)
        requires
            byte_table_contents(balances).dom().finite(),
            number_table_contents(logs).dom().finite(),
        ensures
            r is Some <==> (saved_record(byte_table_contents(settings), 13) matches Some(l)
                && pool_record_ok(l)),
            r matches Some(x) ==> {
                let l = saved_record(byte_table_contents(settings), 13)->0;
                &&& x.wf()
                &&& (x@.admin, x@.meta, x@.dapp_funds) == pool_from_record(l)
                &&& x.settings == settings
                &&& x.balances == balances
                &&& x.allowances == allowances
                &&& x.referral_by_account == referral_by_account
                &&& x.account_by_referral == account_by_referral
                &&& x.claimed == claimed
                &&& x.logs == logs
            },
    {
        let l = match read_record(&settings, 13) {
            Some(l) => l,
            None => {
                return None;
            },
        };
        let ghost lv = views(l@);
        assert(lv[0] == l@[0]@ && lv[1] == l@[1]@ && lv[2] == l@[2]@ && lv[3] == l@[3]@);
        assert(lv[4] == l@[4]@ && lv[5] == l@[5]@ && lv[6] == l@[6]@ && lv[7] == l@[7]@);
        assert(lv[8] == l@[8]@ && lv[9] == l@[9]@ && lv[10] == l@[10]@ && lv[11] == l@[11]@);
        assert(lv[12] == l@[12]@);
        let decimals = decode_u64(l[3].as_slice());
        if l[0].len() > 29 || decimals > 30 {
            return None;
        }
        let metadata = PoolMetadata {
            name: decode_string(l[1].as_slice()),
            symbol: decode_string(l[2].as_slice()),
            decimals: decimals as u8,
            total_supply: decode_u128(l[4].as_slice()),
            transfer_fee: decode_u128(l[5].as_slice()),
            community_pool: decode_u128(l[6].as_slice()),
            team_vesting_pool: decode_u128(l[7].as_slice()),
            reserve: decode_u128(l[8].as_slice()),
            total_burned: decode_u128(l[9].as_slice()),
            vesting_start_time: decode_u64(l[10].as_slice()),
            vesting_duration: decode_u64(l[11].as_slice()),
        };
        let dapp_funds = decode_u128(l[12].as_slice());
        Some(PoolLedger {
            admin: to_vec(l[0].as_slice()),
            metadata,
            dapp_funds,
            balances,
            allowances,
            referral_by_account,
            account_by_referral,
            claimed,
            logs,
            settings,
        })
    }

    /// The ledger as stable memory holds it after an upgrade (`post_upgrade`):
    /// its tables reopened in the regions that `init` gave them, its admin,
    /// settings and dapp funds read from the saved record. What memory holds
    /// comes from outside; whatever it is, a ledger given back is
    /// well-formed.
    pub fn reopen(regions: Regions) -> (r: Option<PoolLedger>)
        ensures
            r matches Some(x) ==> {
                &&& x.wf()
                &&& saved_record(x@.saved, 13) is Some
                &&& (x@.admin, x@.meta, x@.dapp_funds) == pool_from_record(saved_record(x@.saved, 13)->0)
            },
    {
        let settings = byte_table_init(region(&regions, 0));
        let balances = byte_table_init(region(&regions, 1));
        let allowances = byte_table_init(region(&regions, 2));
        let referral_by_account = byte_table_init(region(&regions, 4));
        let account_by_referral = byte_table_init(region(&regions, 5));
        let claimed = byte_table_init(region(&regions, 7));
        let logs = number_table_init(region(&regions, 3));
        PoolLedger::from_tables(
            settings,
            balances,
            allowances,
            referral_by_account,
            account_by_referral,
            claimed,
            logs,
        )
    }
}

/// What is saved before an upgrade is read back after it: a ledger whose
/// admin is a principal, with at most 30 decimals and texts of machine size,
/// starts again with the same admin, settings and dapp funds.
pub proof fn law_pool_save_then_restore(v: PoolView)
    requires
        v.admin.len() <= 29,
        v.meta.decimals <= 30,
        encode_utf8(v.meta.name).len() < 0x1_0000_0000_0000_0000,
        encode_utf8(v.meta.symbol).len() < 0x1_0000_0000_0000_0000,
    ensures
        ({
            let saved = v.saved.insert(settings_key(), fields(pool_record(v)));
            &&& saved_record(saved, 13) == Some(pool_record(v))
            &&& pool_record_ok(pool_record(v))
            &&& pool_from_record(pool_record(v)) == (v.admin, v.meta, v.dapp_funds)
        }),
{
    let l = pool_record(v);
    lemma_numbers_roundtrip(v.meta.total_supply, v.meta.decimals as u64, 0);
    lemma_numbers_roundtrip(v.meta.transfer_fee, v.meta.vesting_start_time, 0);
    lemma_numbers_roundtrip(v.meta.community_pool, v.meta.vesting_duration, 0);
    lemma_numbers_roundtrip(v.meta.team_vesting_pool, 0, 0);
    lemma_numbers_roundtrip(v.meta.reserve, 0, 0);
    lemma_numbers_roundtrip(v.meta.total_burned, 0, 0);
    lemma_numbers_roundtrip(v.dapp_funds, 0, 0);
    lemma_string_roundtrip(v.meta.name);
    lemma_string_roundtrip(v.meta.symbol);
    assert(fields_fit(l)) by {
        assert forall|i: int| 0 <= i < l.len() implies #[trigger] l[i].len() < 0x1_0000_0000_0000_0000 by {
        }
    }
    lemma_record_roundtrip(v.saved, l);
    assert(pool_from_record(l).1 == v.meta);
}

} // verus!
