//! The first CRNL token ledger: the community pool, team vesting pool and
//! reserve are amounts kept with the token's settings, the dapp funds an
//! amount of their own, and the log is keyed by the second (a later entry of
//! the same second replaces an earlier one).
use vstd::prelude::*;
use vstd::utf8::encode_utf8;
use crate::account::{Account, AccountView, account_ok, sub_view, account_key, account_key_of,
    copy_account};
use crate::codec::{fields, views, encode_fields, to_vec, bytes_eq};
use crate::ledger::{LedgerError, Nat, nat_to_u128, LogEntry, LogView, TransferArgs, TransferFromArgs,
    acct_ok, acct_key, pair_ok, pair_key, code_ok, code_key, as_u128, as_string, as_account,
    as_unit, logs_view, log_bytes, lemma_log_roundtrip, lemma_keys_injective,
    lemma_account_roundtrip, min_key, seconds, pow10, pow10_exec, lemma_pow10_bound, fee_split,
    percent_of, pool, push_sub_text, push_principal, sub_text, decode_log, account_from_key, lists_by_key,
    key_range, log_views, logs_in_range, user_registered_details, referral_registered_details,
    referral_claimed_details};
use crate::stable::{Regions, ByteTable, NumberTable, byte_table_contents, number_table_contents,
    region, byte_table_new, number_table_new, byte_table_get, byte_table_insert, byte_table_contains,
    number_table_insert, number_table_remove, number_table_len, number_table_first_key};
use crate::tables::{decoded, lemma_decoded_insert, lemma_decoded_empty, u128_bytes,
    lemma_numbers_roundtrip, encode_u128, encode_u64, decode_u128, decode_string, string_of,
    lemma_string_roundtrip};
use crate::text::{decimal, push_decimal, push_str, principal_text, principal_to_text, string_bytes,
    byte_list_text, push_byte_list};

verus! {

/// The token's settings and totals, the pools among them.
#[derive(Clone, Debug)]
pub struct PoolMetadata {
    pub name: String,
    pub symbol: String,
    pub decimals: u8,
    pub total_supply: u128,
    pub transfer_fee: u128,
    pub community_pool: u128,
    pub team_vesting_pool: u128,
    pub reserve: u128,
    pub total_burned: u128,
    pub vesting_start_time: u64,
    pub vesting_duration: u64,
}

pub struct PoolMetaView {
    pub name: Seq<char>,
    pub symbol: Seq<char>,
    pub decimals: u8,
    pub total_supply: u128,
    pub transfer_fee: u128,
    pub community_pool: u128,
    pub team_vesting_pool: u128,
    pub reserve: u128,
    pub total_burned: u128,
    pub vesting_start_time: u64,
    pub vesting_duration: u64,
}

impl View for PoolMetadata {
    type V = PoolMetaView;

    open spec fn view(&self) -> PoolMetaView {
        PoolMetaView {
            name: self.name@,
            symbol: self.symbol@,
            decimals: self.decimals,
            total_supply: self.total_supply,
            transfer_fee: self.transfer_fee,
            community_pool: self.community_pool,
            team_vesting_pool: self.team_vesting_pool,
            reserve: self.reserve,
            total_burned: self.total_burned,
            vesting_start_time: self.vesting_start_time,
            vesting_duration: self.vesting_duration,
        }
    }
}

/// Arguments of an approval: the caller's subaccount, the spender, the
/// amount.
#[derive(Clone, Debug)]
pub struct PoolApproveArgs {
    pub from_subaccount: Option<[u8; 32]>,
    pub spender: Account,
    pub amount: Nat,
}

/// The ledger: its admin, settings, dapp funds and tables.
pub struct PoolLedger {
    pub admin: Vec<u8>,
    pub metadata: PoolMetadata,
    pub dapp_funds: u128,
    pub balances: ByteTable,
    pub allowances: ByteTable,
    pub referral_by_account: ByteTable,
    pub account_by_referral: ByteTable,
    pub claimed: ByteTable,
    pub logs: NumberTable,
    pub settings: ByteTable,
}

/// The ledger as plain values.
#[verifier::ext_equal]
pub struct PoolView {
    pub admin: Seq<u8>,
    pub meta: PoolMetaView,
    pub dapp_funds: u128,
    pub balances: Map<AccountView, u128>,
    pub allowances: Map<(AccountView, AccountView), u128>,
    pub referral_by_account: Map<AccountView, Seq<char>>,
    pub account_by_referral: Map<Seq<char>, AccountView>,
    pub claimed: Set<AccountView>,
    pub logs: Map<u64, LogView>,
    pub saved: Map<Seq<u8>, Seq<u8>>,
}

impl View for PoolLedger {
    type V = PoolView;

    open spec fn view(&self) -> PoolView {
        PoolView {
            admin: self.admin@,
            meta: self.metadata@,
            dapp_funds: self.dapp_funds,
            balances: decoded(byte_table_contents(self.balances), acct_ok(), acct_key(), as_u128()),
            allowances: decoded(byte_table_contents(self.allowances), pair_ok(), pair_key(), as_u128()),
            referral_by_account: decoded(
                byte_table_contents(self.referral_by_account),
                acct_ok(),
                acct_key(),
                as_string(),
            ),
            account_by_referral: decoded(
                byte_table_contents(self.account_by_referral),
                code_ok(),
                code_key(),
                as_account(),
            ),
            claimed: decoded(byte_table_contents(self.claimed), acct_ok(), acct_key(), as_unit()).dom(),
            logs: logs_view(number_table_contents(self.logs)),
            saved: byte_table_contents(self.settings),
        }
    }
}

impl PoolLedger {
    /// The ledger's invariant: the admin is a principal, amounts of
    /// `200 * 10^decimals` fit, and the log is finite.
    pub open spec fn wf(&self) -> bool {
        &&& self.admin@.len() <= 29
        &&& self.metadata.decimals <= 30
        &&& number_table_contents(self.logs).dom().finite()
        &&& byte_table_contents(self.balances).dom().finite()
    }
}

// ---------------------------------------------------------------------------
// Plain-value helpers
// ---------------------------------------------------------------------------

/// The balance of `a`: what is stored, or 0.
pub open spec fn pbalance(v: PoolView, a: AccountView) -> u128 {
    if v.balances.contains_key(a) {
        v.balances[a]
    } else {
        0
    }
}

/// The allowance of `spender` over `owner`: what is stored, or 0.
pub open spec fn pallowance(v: PoolView, owner: AccountView, spender: AccountView) -> u128 {
    if v.allowances.contains_key((owner, spender)) {
        v.allowances[(owner, spender)]
    } else {
        0
    }
}

pub open spec fn with_pbalance(v: PoolView, a: AccountView, x: u128) -> PoolView {
    PoolView { balances: v.balances.insert(a, x), ..v }
}

/// The most log entries kept.
pub open spec fn max_pool_logs() -> nat {
    10_000
}

/// The ledger after `log_event` at time `now` (nanoseconds): the entry goes
/// in under the second, replacing one of the same second, and past the most
/// entries kept the oldest goes.
pub open spec fn plog(v: PoolView, now: u64, event_type: Seq<char>, details: Seq<char>) -> PoolView {
    let ts = seconds(now);
    let logs1 = v.logs.insert(ts, LogView { timestamp: ts, event_type, details });
    let logs2 = if logs1.len() > max_pool_logs() {
        logs1.remove(min_key(logs1))
    } else {
        logs1
    };
    PoolView { logs: logs2, ..v }
}

pub open spec fn pwelcome(v: PoolView) -> u128 {
    (200 * pow10(v.meta.decimals as nat)) as u128
}

pub open spec fn preward(v: PoolView) -> u128 {
    (20 * pow10(v.meta.decimals as nat)) as u128
}

pub open spec fn fee_details(fee: u128) -> Seq<char> {
    let (b, p, d) = fee_split(fee);
    "Fee: "@ + decimal(fee as nat) + ", Burned: "@ + decimal(b as nat) + ", Pool: "@ + decimal(
        p as nat,
    ) + ", DApp: "@ + decimal(d as nat)
}

/// What `process_fee` does: burn a fifth (supply down, burned up), a tenth
/// to the community pool, the rest of seven tenths to the dapp funds, and log
/// it; the first overflow stops it with `ArithmeticError` (the settings are
/// written before the dapp funds).
pub open spec fn pfee_spec(v: PoolView, fee: u128, now: u64) -> (PoolView, Result<(), LedgerError>) {
    let (burn, to_pool, to_dapp) = fee_split(fee);
    if v.meta.total_supply < burn || v.meta.total_burned + burn > u128::MAX
        || v.meta.community_pool + to_pool > u128::MAX {
        (v, Err(LedgerError::ArithmeticError))
    } else {
        let v1 = PoolView {
            meta: PoolMetaView {
                total_supply: (v.meta.total_supply - burn) as u128,
                total_burned: (v.meta.total_burned + burn) as u128,
                community_pool: (v.meta.community_pool + to_pool) as u128,
                ..v.meta
            },
            ..v
        };
        if v.dapp_funds + to_dapp > u128::MAX {
            (v1, Err(LedgerError::ArithmeticError))
        } else {
            (
                plog(
                    PoolView { dapp_funds: (v.dapp_funds + to_dapp) as u128, ..v1 },
                    now,
                    "FeeProcessed"@,
                    fee_details(fee),
                ),
                Ok(()),
            )
        }
    }
}

impl PoolLedger {
    /// The balance of `a`: what is stored, or 0.
    pub fn balance(&self, a: &Account) -> (r: u128)
        requires
            account_ok(a@),
        ensures
            r == pbalance(self@, a@),
    {
        let key = account_key_of(a);
        proof {
            lemma_keys_injective();
        }
        match byte_table_get(&self.balances, &key) {
            Some(b) => decode_u128(b.as_slice()),
            None => 0,
        }
    }

    /// Sets the balance of `a` to `x`.
    pub fn set_balance(&mut self, a: &Account, x: u128)
        requires
            account_ok(a@),
        ensures
            final(self)@ == with_pbalance(old(self)@, a@, x),
            final(self).wf() == old(self).wf(),
    {
        let key = account_key_of(a);
        let val = encode_u128(x);
        byte_table_insert(&mut self.balances, key, val);
        proof {
            lemma_keys_injective();
            lemma_numbers_roundtrip(x, 0, 0);
            lemma_decoded_insert(
                byte_table_contents(old(self).balances),
                acct_ok(),
                acct_key(),
                as_u128(),
                a@,
                u128_bytes(x),
            );
            vstd::set_lib::lemma_set_insert_finite_iff(
                byte_table_contents(old(self).balances).dom(),
                account_key(a@),
            );
            assert(byte_table_contents(self.balances).dom()
                =~= byte_table_contents(old(self).balances).dom().insert(account_key(a@)));
        }
        assert(self@ =~= with_pbalance(old(self)@, a@, x));
    }

    /// The allowance of `spender` over `owner`: what is stored, or 0.
    pub fn allowance(&self, owner: &Account, spender: &Account) -> (r: u128)
        requires
            account_ok(owner@),
            account_ok(spender@),
        ensures
            r == pallowance(self@, owner@, spender@),
    {
        let mut key = account_key_of(owner);
        crate::account::push_account_key(&mut key, spender);
        proof {
            lemma_keys_injective();
            assert(key@ == pair_key()((owner@, spender@)));
        }
        match byte_table_get(&self.allowances, &key) {
            Some(b) => decode_u128(b.as_slice()),
            None => 0,
        }
    }

    /// Sets the allowance of `spender` over `owner` to `x`.
    pub fn set_allowance(&mut self, owner: &Account, spender: &Account, x: u128)
        requires
            account_ok(owner@),
            account_ok(spender@),
        ensures
            final(self)@ == (PoolView {
                allowances: old(self)@.allowances.insert((owner@, spender@), x),
                ..old(self)@
            }),
            final(self).wf() == old(self).wf(),
    {
        let mut key = account_key_of(owner);
        crate::account::push_account_key(&mut key, spender);
        let val = encode_u128(x);
        proof {
            lemma_keys_injective();
            lemma_numbers_roundtrip(x, 0, 0);
            assert(key@ == pair_key()((owner@, spender@)));
            lemma_decoded_insert(
                byte_table_contents(self.allowances),
                pair_ok(),
                pair_key(),
                as_u128(),
                (owner@, spender@),
                u128_bytes(x),
            );
        }
        byte_table_insert(&mut self.allowances, key, val);
        assert(self@ =~= PoolView {
            allowances: old(self)@.allowances.insert((owner@, spender@), x),
            ..old(self)@
        });
    }

    /// Adds an entry to the log under the current second (`log_event`).
    pub fn log_event(&mut self, event_type: &str, details: String, now: u64)
        ensures
            final(self)@ == plog(old(self)@, now, event_type@, details@),
            old(self).wf() ==> final(self).wf(),
    {
        let ts = now / 1_000_000_000;
        let et = string_bytes(event_type);
        let dt = string_bytes(details.as_str());
        let et_len = et.len();
        let dt_len = dt.len();
        let mut parts: Vec<Vec<u8>> = Vec::new();
        parts.push(encode_u64(ts));
        parts.push(et);
        parts.push(dt);
        let bytes = encode_fields(&parts);
        let ghost entry = LogView { timestamp: ts, event_type: event_type@, details: details@ };
        proof {
            assert(views(parts@) =~= seq![
                crate::tables::u64_bytes(ts),
                encode_utf8(event_type@),
                encode_utf8(details@),
            ]);
            assert(encode_utf8(event_type@).len() == parts@[1]@.len());
            assert(encode_utf8(details@).len() == parts@[2]@.len());
            lemma_log_roundtrip(entry);
        }
        number_table_insert(&mut self.logs, ts, bytes);
        let ghost logs1 = old(self)@.logs.insert(ts, entry);
        assert(logs_view(number_table_contents(self.logs)) =~= logs1);
        let n = number_table_len(&self.logs);
        assert(number_table_contents(self.logs).dom() =~= logs1.dom());
        if n > 10_000 {
            match number_table_first_key(&self.logs) {
                Some(first) => {
                    proof {
                        let m = min_key(logs1);
                        assert(logs1.contains_key(first) && forall|j: u64|
                            #[trigger] logs1.contains_key(j) ==> first <= j);
                        assert(m == first);
                    }
                    number_table_remove(&mut self.logs, first);
                    assert(logs_view(number_table_contents(self.logs)) =~= logs1.remove(first));
                },
                None => {
                    assert(logs1.contains_key(ts));
                    assert(number_table_contents(self.logs).dom().contains(ts));
                },
            }
        }
        assert(self@ =~= plog(old(self)@, now, event_type@, details@));
    }

    /// Splits a fee: burns a fifth, and credits the community pool and the
    /// dapp funds (`process_fee`).
    pub fn process_fee(&mut self, fee: u128, now: u64) -> (r: Result<(), LedgerError>)
        requires
            old(self).wf(),
        ensures
            (final(self)@, r) == pfee_spec(old(self)@, fee, now),
            final(self).wf(),
    {
        let burn = percent_of(fee, 20);
        let to_pool = percent_of(fee, 10);
        let to_dapp = percent_of(fee, 70);
        if self.metadata.total_supply < burn {
            return Err(LedgerError::ArithmeticError);
        }
        if self.metadata.total_burned > u128::MAX - burn {
            return Err(LedgerError::ArithmeticError);
        }
        if self.metadata.community_pool > u128::MAX - to_pool {
            return Err(LedgerError::ArithmeticError);
        }
        self.metadata.total_supply = self.metadata.total_supply - burn;
        self.metadata.total_burned = self.metadata.total_burned + burn;
        self.metadata.community_pool = self.metadata.community_pool + to_pool;
        if self.dapp_funds > u128::MAX - to_dapp {
            return Err(LedgerError::ArithmeticError);
        }
        self.dapp_funds = self.dapp_funds + to_dapp;
        let mut details = String::new();
        push_str(&mut details, "Fee: ");
        push_decimal(&mut details, fee);
        push_str(&mut details, ", Burned: ");
        push_decimal(&mut details, burn);
        push_str(&mut details, ", Pool: ");
        push_decimal(&mut details, to_pool);
        push_str(&mut details, ", DApp: ");
        push_decimal(&mut details, to_dapp);
        self.log_event("FeeProcessed", details, now);
        Ok(())
    }
}

// ---------------------------------------------------------------------------
// Initialization
// ---------------------------------------------------------------------------

pub open spec fn pinit_details(total_supply: u128, transfer_fee: u128, admin: Seq<u8>) -> Seq<char> {
    "Canister initialized with total supply: "@ + decimal(total_supply as nat) + ", transfer fee: "@
        + decimal(transfer_fee as nat) + ", admin: "@ + principal_text(admin)
}

/// The ledger before the `Init` entry is logged: half, a fifth and three
/// tenths of the supply in the pools, each also the balance of the admin's
/// pool account.
pub open spec fn pinit_state(
    name: Seq<char>,
    symbol: Seq<char>,
    total_supply: u128,
    vesting_duration: u64,
    transfer_fee: u128,
    admin: Seq<u8>,
    now: u64,
) -> PoolView {
    let c = (total_supply * 50 / 100) as u128;
    let t = (total_supply * 20 / 100) as u128;
    let r = (total_supply * 30 / 100) as u128;
    PoolView {
        admin,
        meta: PoolMetaView {
            name,
            symbol,
            decimals: 8,
            total_supply,
            transfer_fee,
            community_pool: c,
            team_vesting_pool: t,
            reserve: r,
            total_burned: 0,
            vesting_start_time: seconds(now),
            vesting_duration,
        },
        dapp_funds: 0,
        balances: Map::<AccountView, u128>::empty().insert(pool(admin, 1), c).insert(pool(admin, 2), t).insert(
            pool(admin, 3),
            r,
        ),
        allowances: Map::empty(),
        referral_by_account: Map::empty(),
        account_by_referral: Map::empty(),
        claimed: Set::empty(),
        logs: Map::empty(),
        saved: Map::empty(),
    }
}

impl PoolLedger {
    /// The pool account with subaccount `[tag; 32]`.
    pub fn pool_account(&self, tag: u8) -> (r: Account)
        requires
            self.wf(),
        ensures
            r@ == pool(self@.admin, tag),
            account_ok(r@),
    {
        let sub: [u8; 32] = [tag; 32];
        let r = Account { owner: to_vec(self.admin.as_slice()), subaccount: Some(sub) };
        assert(sub@ =~= Seq::new(32, |i: int| tag));
        r
    }

    /// A new ledger (`init`): the admin, the token's settings with the pools
    /// funded, the pools' accounts credited, and an `Init` entry in the log.
    pub fn init(
        regions: Regions,
        name: String,
        symbol: String,
        total_supply: u128,
        vesting_duration: u64,
        transfer_fee: u128,
        admin: Vec<u8>,
        now: u64,
    ) -> (r: PoolLedger)
        requires
            admin@.len() <= 29,
        ensures
            r.wf(),
            r@ == plog(
                pinit_state(name@, symbol@, total_supply, vesting_duration, transfer_fee, admin@, now),
                now,
                "Init"@,
                pinit_details(total_supply, transfer_fee, admin@),
            ),
    {
        let ghost name_v = name@;
        let ghost symbol_v = symbol@;
        let c = percent_of(total_supply, 50);
        let t = percent_of(total_supply, 20);
        let rs = percent_of(total_supply, 30);
        let mut ledger = PoolLedger {
            admin,
            metadata: PoolMetadata {
                name,
                symbol,
                decimals: 8,
                total_supply,
                transfer_fee,
                community_pool: c,
                team_vesting_pool: t,
                reserve: rs,
                total_burned: 0,
                vesting_start_time: now / 1_000_000_000,
                vesting_duration,
            },
            dapp_funds: 0,
            balances: byte_table_new(region(&regions, 1)),
            allowances: byte_table_new(region(&regions, 2)),
            referral_by_account: byte_table_new(region(&regions, 4)),
            account_by_referral: byte_table_new(region(&regions, 5)),
            claimed: byte_table_new(region(&regions, 7)),
            logs: number_table_new(region(&regions, 3)),
            settings: byte_table_new(region(&regions, 0)),
        };
        proof {
            lemma_decoded_empty(acct_ok(), acct_key(), as_u128());
            lemma_decoded_empty(pair_ok(), pair_key(), as_u128());
            lemma_decoded_empty(acct_ok(), acct_key(), as_string());
            lemma_decoded_empty(code_ok(), code_key(), as_account());
            lemma_decoded_empty(acct_ok(), acct_key(), as_unit());
            assert(logs_view(number_table_contents(ledger.logs)) =~= Map::<u64, LogView>::empty());
            assert(Map::<AccountView, bool>::empty().dom() =~= Set::<AccountView>::empty());
        }
        let community = ledger.pool_account(1);
        let team = ledger.pool_account(2);
        let reserve = ledger.pool_account(3);
        ledger.set_balance(&community, c);
        ledger.set_balance(&team, t);
        ledger.set_balance(&reserve, rs);
        let mut details = String::new();
        push_str(&mut details, "Canister initialized with total supply: ");
        push_decimal(&mut details, total_supply);
        push_str(&mut details, ", transfer fee: ");
        push_decimal(&mut details, transfer_fee);
        push_str(&mut details, ", admin: ");
        push_principal(&mut details, &ledger.admin);
        assert(ledger@ =~= pinit_state(
            name_v,
            symbol_v,
            total_supply,
            vesting_duration,
            transfer_fee,
            ledger.admin@,
            now,
        ));
        ledger.log_event("Init", details, now);
        ledger
    }
}

// ---------------------------------------------------------------------------
// Registration and referrals
// ---------------------------------------------------------------------------

/// What `register_user` does before a referral code is drawn: the new user
/// gets the welcome amount out of the community pool and the registration is
/// logged; the result says whether the user still needs a referral code.
pub open spec fn pregister_spec(v: PoolView, user: AccountView, now: u64) -> (PoolView, Result<bool, LedgerError>) {
    let w = pwelcome(v);
    if v.balances.contains_key(user) {
        (v, Err(LedgerError::AlreadyRegistered))
    } else if v.meta.community_pool < w {
        (v, Err(LedgerError::InsufficientPoolFunds))
    } else {
        let v1 = PoolView {
            meta: PoolMetaView { community_pool: (v.meta.community_pool - w) as u128, ..v.meta },
            ..with_pbalance(v, user, w)
        };
        (
            plog(v1, now, "UserRegistered"@, user_registered_details(user, w)),
            Ok(!v.referral_by_account.contains_key(user)),
        )
    }
}

/// The reply to a registration that needed no code.
pub open spec fn pregistered_reply(v: PoolView) -> Seq<char> {
    "User registered with 200 "@ + v.meta.symbol
}

/// What `register_user` does with a drawn code: a code in use is refused
/// (`None`, nothing changes); otherwise it is the user's, both ways, and the
/// reply names it.
pub open spec fn passign_spec(v: PoolView, user: AccountView, code: Seq<char>, now: u64) -> (PoolView, Option<Seq<char>>) {
    if v.account_by_referral.contains_key(code) {
        (v, None)
    } else {
        let v1 = PoolView {
            referral_by_account: v.referral_by_account.insert(user, code),
            account_by_referral: v.account_by_referral.insert(code, user),
            ..v
        };
        (
            plog(v1, now, "ReferralRegistered"@, referral_registered_details(user, code)),
            Some("User registered with 200 "@ + v.meta.symbol + ". Your referral code is: "@ + code),
        )
    }
}

/// What `claim_referral` does: the referrer named by the code gets the reward
/// out of the community pool, once per referee.
pub open spec fn pclaim_spec(v: PoolView, code: Seq<char>, referee: AccountView, now: u64) -> (PoolView, Result<Seq<char>, LedgerError>) {
    let reward = preward(v);
    if !v.account_by_referral.contains_key(code) {
        (v, Err(LedgerError::InvalidReferral))
    } else if v.claimed.contains(referee) {
        (v, Err(LedgerError::InvalidReferral))
    } else if v.meta.community_pool < reward {
        (v, Err(LedgerError::InsufficientPoolFunds))
    } else {
        let referrer = v.account_by_referral[code];
        let rb = pbalance(v, referrer);
        if rb + reward > u128::MAX {
            (v, Err(LedgerError::ArithmeticError))
        } else {
            let v1 = PoolView {
                meta: PoolMetaView { community_pool: (v.meta.community_pool - reward) as u128, ..v.meta },
                ..with_pbalance(v, referrer, (rb + reward) as u128)
            };
            let v2 = plog(v1, now, "ReferralClaimed"@, referral_claimed_details(referrer, referee, reward));
            (
                PoolView { claimed: v2.claimed.insert(referee), ..v2 },
                Ok("Referral reward of 20 "@ + v.meta.symbol + " credited"@),
            )
        }
    }
}

/// The letters of referral codes.
pub open spec fn letters() -> Seq<char> {
    "ABCDEFGHIJKLMNOPQRSTUVWXYZabcdefghijklmnopqrstuvwxyz"@
}

/// The code drawn from random bytes: one letter per byte, for the first
/// seven bytes.
pub open spec fn letter_code(random_bytes: Seq<u8>) -> Seq<char> {
    let n = if random_bytes.len() < 7 {
        random_bytes.len()
    } else {
        7
    };
    Seq::new(n, |i: int| letters()[random_bytes[i] as int % 52])
}

/// A referral code from random bytes (`generate_random_referral_code`).
pub fn generate_letter_code(random_bytes: &[u8]) -> (r: String)
    ensures
        r@ == letter_code(random_bytes@),
{
    let charset = "ABCDEFGHIJKLMNOPQRSTUVWXYZabcdefghijklmnopqrstuvwxyz";
    proof {
        reveal_strlit("ABCDEFGHIJKLMNOPQRSTUVWXYZabcdefghijklmnopqrstuvwxyz");
    }
    let n: usize = if random_bytes.len() < 7 {
        random_bytes.len()
    } else {
        7
    };
    let mut code = String::new();
    let mut i: usize = 0;
    while i < n
        invariant
            i <= n <= random_bytes@.len(),
            n == (if random_bytes@.len() < 7 {
                random_bytes@.len()
            } else {
                7
            }),
            charset@ == letters(),
            charset@.len() == 52,
            code@ == letter_code(random_bytes@).subrange(0, i as int),
        decreases n - i,
    {
        let idx = (random_bytes[i] as usize) % 52;
        let c = charset.substring_char(idx, idx + 1);
        code.append(c);
        i = i + 1;
        assert(code@ =~= letter_code(random_bytes@).subrange(0, i as int));
    }
    assert(letter_code(random_bytes@).subrange(0, n as int) =~= letter_code(random_bytes@));
    code
}

impl PoolLedger {
    /// The referral code of `user` (`get_referral_code`).
    pub fn get_referral_code(&self, user: &Account) -> (r: Option<String>)
        requires
            account_ok(user@),
        ensures
            match r {
                Some(c) => self@.referral_by_account.contains_key(user@)
                    && c@ == self@.referral_by_account[user@],
                None => !self@.referral_by_account.contains_key(user@),
            },
    {
        let key = account_key_of(user);
        proof {
            lemma_keys_injective();
        }
        match byte_table_get(&self.referral_by_account, &key) {
            Some(b) => Some(decode_string(b.as_slice())),
            None => None,
        }
    }

    /// The account that owns a referral code.
    pub fn referrer_of(&self, code: &str) -> (r: Option<Account>)
        ensures
            match r {
                Some(a) => self@.account_by_referral.contains_key(code@)
                    && a@ == self@.account_by_referral[code@] && account_ok(a@),
                None => !self@.account_by_referral.contains_key(code@),
            },
    {
        let key = string_bytes(code);
        proof {
            lemma_keys_injective();
        }
        match byte_table_get(&self.account_by_referral, &key) {
            Some(b) => Some(account_from_key(b.as_slice())),
            None => None,
        }
    }

    /// Registers a user (`register_user`, up to drawing a referral code): the
    /// result says whether the user needs a code (see `assign_referral_code`).
    pub fn register_user(&mut self, user: &Account, now: u64) -> (r: Result<bool, LedgerError>)
        requires
            old(self).wf(),
            account_ok(user@),
        ensures
            (final(self)@, r) == pregister_spec(old(self)@, user@, now),
            final(self).wf(),
    {
        let key = account_key_of(user);
        proof {
            lemma_keys_injective();
        }
        if byte_table_contains(&self.balances, &key) {
            return Err(LedgerError::AlreadyRegistered);
        }
        proof {
            lemma_pow10_bound(self.metadata.decimals as nat);
        }
        let welcome = 200 * pow10_exec(self.metadata.decimals);
        if self.metadata.community_pool < welcome {
            return Err(LedgerError::InsufficientPoolFunds);
        }
        let needs_code = !byte_table_contains(&self.referral_by_account, &key);
        self.set_balance(user, welcome);
        self.metadata.community_pool = self.metadata.community_pool - welcome;
        let mut details = String::new();
        push_str(&mut details, "Account: ");
        push_principal(&mut details, &user.owner);
        push_str(&mut details, ", Subaccount: ");
        push_sub_text(&mut details, &user.subaccount);
        push_str(&mut details, ", Amount: ");
        push_decimal(&mut details, welcome);
        self.log_event("UserRegistered", details, now);
        Ok(needs_code)
    }

    /// Gives a drawn code to a registered user (`register_user`, after the
    /// draw): `None` if the code is in use, else the reply.
    pub fn assign_referral_code(&mut self, user: &Account, code: &String, now: u64) -> (r: Option<String>)
        requires
            old(self).wf(),
            account_ok(user@),
        ensures
            ({
                let (v, o) = passign_spec(old(self)@, user@, code@, now);
                final(self)@ == v && match r {
                    Some(m) => o == Some(m@),
                    None => o is None,
                }
            }),
            final(self).wf(),
    {
        let code_key_bytes = string_bytes(code.as_str());
        proof {
            lemma_keys_injective();
        }
        if byte_table_contains(&self.account_by_referral, &code_key_bytes) {
            return None;
        }
        let ghost v0 = self@;
        let key = account_key_of(user);
        let code_bytes = string_bytes(code.as_str());
        let acct_bytes = account_key_of(user);
        proof {
            lemma_string_roundtrip(code@);
            lemma_account_roundtrip(user@);
            lemma_decoded_insert(
                byte_table_contents(self.referral_by_account),
                acct_ok(),
                acct_key(),
                as_string(),
                user@,
                code_bytes@,
            );
            lemma_decoded_insert(
                byte_table_contents(self.account_by_referral),
                code_ok(),
                code_key(),
                as_account(),
                code@,
                acct_bytes@,
            );
        }
        byte_table_insert(&mut self.referral_by_account, key, code_bytes);
        byte_table_insert(&mut self.account_by_referral, code_key_bytes, acct_bytes);
        assert(self@ =~= PoolView {
            referral_by_account: v0.referral_by_account.insert(user@, code@),
            account_by_referral: v0.account_by_referral.insert(code@, user@),
            ..v0
        });
        let mut details = String::new();
        push_str(&mut details, "User: ");
        push_principal(&mut details, &user.owner);
        push_str(&mut details, ", Subaccount: ");
        push_sub_text(&mut details, &user.subaccount);
        push_str(&mut details, ", Referral_Code: ");
        push_str(&mut details, code.as_str());
        self.log_event("ReferralRegistered", details, now);
        let mut reply = String::new();
        push_str(&mut reply, "User registered with 200 ");
        push_str(&mut reply, self.metadata.symbol.as_str());
        push_str(&mut reply, ". Your referral code is: ");
        push_str(&mut reply, code.as_str());
        Some(reply)
    }

    /// The reply to a registration that needed no code.
    pub fn registered_reply(&self) -> (r: String)
        ensures
            r@ == pregistered_reply(self@),
    {
        let mut reply = String::new();
        push_str(&mut reply, "User registered with 200 ");
        push_str(&mut reply, self.metadata.symbol.as_str());
        reply
    }

    /// Credits the referrer named by the code for this referee
    /// (`claim_referral`).
    pub fn claim_referral(&mut self, referral_code: &String, referee: &Account, now: u64) -> (r: Result<String, LedgerError>)
        requires
            old(self).wf(),
            account_ok(referee@),
        ensures
            ({
                let (v, o) = pclaim_spec(old(self)@, referral_code@, referee@, now);
                final(self)@ == v && match r {
                    Ok(m) => o == Ok::<Seq<char>, LedgerError>(m@),
                    Err(e) => o == Err::<Seq<char>, LedgerError>(e),
                }
            }),
            final(self).wf(),
    {
        let referrer = match self.referrer_of(referral_code.as_str()) {
            Some(a) => a,
            None => {
                return Err(LedgerError::InvalidReferral);
            },
        };
        let referee_key = account_key_of(referee);
        proof {
            lemma_keys_injective();
        }
        if byte_table_contains(&self.claimed, &referee_key) {
            return Err(LedgerError::InvalidReferral);
        }
        proof {
            lemma_pow10_bound(self.metadata.decimals as nat);
        }
        let reward = 20 * pow10_exec(self.metadata.decimals);
        if self.metadata.community_pool < reward {
            return Err(LedgerError::InsufficientPoolFunds);
        }
        let rb = self.balance(&referrer);
        if rb > u128::MAX - reward {
            return Err(LedgerError::ArithmeticError);
        }
        self.set_balance(&referrer, rb + reward);
        self.metadata.community_pool = self.metadata.community_pool - reward;
        let mut details = String::new();
        push_str(&mut details, "Referrer: ");
        push_principal(&mut details, &referrer.owner);
        push_str(&mut details, ", Referee: ");
        push_principal(&mut details, &referee.owner);
        push_str(&mut details, ", Reward: ");
        push_decimal(&mut details, reward);
        self.log_event("ReferralClaimed", details, now);
        let ghost v2 = self@;
        let mut one: Vec<u8> = Vec::new();
        one.push(1u8);
        proof {
            lemma_decoded_insert(
                byte_table_contents(self.claimed),
                acct_ok(),
                acct_key(),
                as_unit(),
                referee@,
                one@,
            );
        }
        byte_table_insert(&mut self.claimed, referee_key, one);
        assert(self@ =~= PoolView { claimed: v2.claimed.insert(referee@), ..v2 });
        let mut reply = String::new();
        push_str(&mut reply, "Referral reward of 20 ");
        push_str(&mut reply, self.metadata.symbol.as_str());
        push_str(&mut reply, " credited");
        Ok(reply)
    }
}

// ---------------------------------------------------------------------------
// Transfers and approvals
// ---------------------------------------------------------------------------

pub open spec fn ptransfer_details(from: AccountView, to: AccountView, amount: u128, fee: u128) -> Seq<char> {
    "From: "@ + principal_text(from.owner) + ", To: "@ + principal_text(to.owner) + ", Amount: "@
        + decimal(amount as nat) + ", Fee: "@ + decimal(fee as nat) + ", Received: "@ + decimal(
        (amount - fee) as nat,
    )
}

pub open spec fn ptransfer_from_details(spender: AccountView, from: AccountView, to: AccountView, amount: u128, fee: u128) -> Seq<char> {
    "Spender: "@ + principal_text(spender.owner) + ", From: "@ + principal_text(from.owner) + ", To: "@
        + principal_text(to.owner) + ", Amount: "@ + decimal(amount as nat) + ", Fee: "@ + decimal(
        fee as nat,
    ) + ", Received: "@ + decimal((amount - fee) as nat)
}

/// A subaccount as `Debug` prints an `Option<[u8; 32]>`.
pub open spec fn sub_debug(sub: Option<Seq<u8>>) -> Seq<char> {
    match sub {
        None => "None"@,
        Some(s) => "Some("@ + byte_list_text(s) + ")"@,
    }
}

pub open spec fn papproval_details(owner: AccountView, spender: AccountView, amount: u128) -> Seq<char> {
    "Owner: "@ + principal_text(owner.owner) + ", Subaccount: "@ + sub_debug(owner.subaccount)
        + ", Spender: "@ + principal_text(spender.owner) + ", Amount: "@ + decimal(amount as nat)
}

/// Moves `amount` from `from` to `to` less the fee, then splits the fee.
pub open spec fn pmove_spec(v: PoolView, from: AccountView, to: AccountView, amount: u128, now: u64) -> (PoolView, Result<(), LedgerError>) {
    let fee = v.meta.transfer_fee;
    let v1 = with_pbalance(v, from, (pbalance(v, from) - amount) as u128);
    let tb = pbalance(v1, to);
    if tb + (amount - fee) > u128::MAX {
        (v1, Err(LedgerError::ArithmeticError))
    } else {
        pfee_spec(with_pbalance(v1, to, (tb + (amount - fee)) as u128), fee, now)
    }
}

/// What `icrc1_transfer` does: from the caller's account, an amount that
/// fits and covers the fee and the balance; the receiver gets it less the
/// fee, the fee is split, and the transfer is logged.
pub open spec fn ptransfer_spec(v: PoolView, caller: Seq<u8>, from_subaccount: Option<Seq<u8>>, to: AccountView, amount: nat, now: u64) -> (PoolView, Result<u128, LedgerError>) {
    let from = AccountView { owner: caller, subaccount: from_subaccount };
    let fee = v.meta.transfer_fee;
    if amount > u128::MAX || amount == u128::MAX {
        (v, Err(LedgerError::ArithmeticError))
    } else if amount < fee {
        (v, Err(LedgerError::InsufficientFee))
    } else if pbalance(v, from) < amount {
        (v, Err(LedgerError::InsufficientBalance))
    } else {
        let (v1, r) = pmove_spec(v, from, to, amount as u128, now);
        match r {
            Err(e) => (v1, Err(e)),
            Ok(_) => (
                plog(v1, now, "Transfer"@, ptransfer_details(from, to, amount as u128, fee)),
                Ok(amount as u128),
            ),
        }
    }
}

/// What `icrc1_approve` does: the allowance of the spender over the
/// caller's account is set and logged.
pub open spec fn papprove_spec(v: PoolView, caller: Seq<u8>, from_subaccount: Option<Seq<u8>>, spender: AccountView, amount: nat, now: u64) -> (PoolView, Result<u128, LedgerError>) {
    let owner = AccountView { owner: caller, subaccount: from_subaccount };
    if amount > u128::MAX {
        (v, Err(LedgerError::ArithmeticError))
    } else {
        let v1 = PoolView { allowances: v.allowances.insert((owner, spender), amount as u128), ..v };
        (plog(v1, now, "Approval"@, papproval_details(owner, spender, amount as u128)), Ok(amount as u128))
    }
}

/// What `icrc1_transfer_from` does: within the spender's allowance over
/// `from`, a transfer from `from` to `to`; anyone may call it.
pub open spec fn ptransfer_from_spec(v: PoolView, spender: AccountView, from: AccountView, to: AccountView, amount: nat, now: u64) -> (PoolView, Result<u128, LedgerError>) {
    let fee = v.meta.transfer_fee;
    if amount > u128::MAX {
        (v, Err(LedgerError::ArithmeticError))
    } else if amount < fee {
        (v, Err(LedgerError::InsufficientFee))
    } else if pallowance(v, from, spender) < amount {
        (v, Err(LedgerError::InsufficientAllowance))
    } else if pbalance(v, from) < amount {
        (v, Err(LedgerError::InsufficientBalance))
    } else {
        let v1 = PoolView {
            allowances: v.allowances.insert((from, spender), (pallowance(v, from, spender) - amount) as u128),
            ..v
        };
        let (v2, r) = pmove_spec(v1, from, to, amount as u128, now);
        match r {
            Err(e) => (v2, Err(e)),
            Ok(_) => (
                plog(v2, now, "TransferFrom"@, ptransfer_from_details(spender, from, to, amount as u128, fee)),
                Ok(amount as u128),
            ),
        }
    }
}

fn push_sub_debug(out: &mut String, sub: &Option<[u8; 32]>)
    ensures
        final(out)@ == old(out)@ + sub_debug(sub_view(*sub)),
{
    match sub {
        None => {
            push_str(out, "None");
        },
        Some(s) => {
            push_str(out, "Some(");
            push_byte_list(out, s.as_slice());
            push_str(out, ")");
        },
    }
}

impl PoolLedger {
    fn move_tokens(&mut self, from: &Account, to: &Account, amount: u128, now: u64) -> (r: Result<(), LedgerError>)
        requires
            old(self).wf(),
            account_ok(from@),
            account_ok(to@),
            old(self)@.meta.transfer_fee <= amount <= pbalance(old(self)@, from@),
        ensures
            (final(self)@, r) == pmove_spec(old(self)@, from@, to@, amount, now),
            final(self).wf(),
    {
        let fee = self.metadata.transfer_fee;
        let after_fee = amount - fee;
        let fb = self.balance(from);
        self.set_balance(from, fb - amount);
        let tb = self.balance(to);
        if tb > u128::MAX - after_fee {
            return Err(LedgerError::ArithmeticError);
        }
        self.set_balance(to, tb + after_fee);
        self.process_fee(fee, now)
    }

    /// A transfer from the caller's account (`icrc1_transfer`).
    pub fn icrc1_transfer(&mut self, caller: &Vec<u8>, args: &TransferArgs, now: u64) -> (r: Result<u128, LedgerError>)
        requires
            old(self).wf(),
            caller@.len() <= 29,
            account_ok(args.to@),
        ensures
            (final(self)@, r) == ptransfer_spec(old(self)@, caller@, sub_view(args.from_subaccount), args.to@, args.amount@, now),
            final(self).wf(),
    {
        let from = Account { owner: to_vec(caller.as_slice()), subaccount: args.from_subaccount };
        let amount = match nat_to_u128(&args.amount) {
            Ok(a) => a,
            Err(e) => {
                return Err(e);
            },
        };
        let fee = self.metadata.transfer_fee;
        if amount == u128::MAX {
            return Err(LedgerError::ArithmeticError);
        }
        if amount < fee {
            return Err(LedgerError::InsufficientFee);
        }
        let fb = self.balance(&from);
        if fb < amount {
            return Err(LedgerError::InsufficientBalance);
        }
        match self.move_tokens(&from, &args.to, amount, now) {
            Err(e) => {
                return Err(e);
            },
            Ok(_) => {},
        }
        let mut details = String::new();
        push_str(&mut details, "From: ");
        push_principal(&mut details, &from.owner);
        push_str(&mut details, ", To: ");
        push_principal(&mut details, &args.to.owner);
        push_str(&mut details, ", Amount: ");
        push_decimal(&mut details, amount);
        push_str(&mut details, ", Fee: ");
        push_decimal(&mut details, fee);
        push_str(&mut details, ", Received: ");
        push_decimal(&mut details, amount - fee);
        self.log_event("Transfer", details, now);
        Ok(amount)
    }

    /// An approval from the caller's account (`icrc1_approve`).
    pub fn icrc1_approve(&mut self, caller: &Vec<u8>, args: &PoolApproveArgs, now: u64) -> (r: Result<u128, LedgerError>)
        requires
            old(self).wf(),
            caller@.len() <= 29,
            account_ok(args.spender@),
        ensures
            (final(self)@, r) == papprove_spec(old(self)@, caller@, sub_view(args.from_subaccount), args.spender@, args.amount@, now),
            final(self).wf(),
    {
        let owner = Account { owner: to_vec(caller.as_slice()), subaccount: args.from_subaccount };
        let amount = match nat_to_u128(&args.amount) {
            Ok(a) => a,
            Err(e) => {
                return Err(e);
            },
        };
        self.set_allowance(&owner, &args.spender, amount);
        let mut details = String::new();
        push_str(&mut details, "Owner: ");
        push_principal(&mut details, &owner.owner);
        push_str(&mut details, ", Subaccount: ");
        push_sub_debug(&mut details, &owner.subaccount);
        push_str(&mut details, ", Spender: ");
        push_principal(&mut details, &args.spender.owner);
        push_str(&mut details, ", Amount: ");
        push_decimal(&mut details, amount);
        self.log_event("Approval", details, now);
        Ok(amount)
    }

    /// A transfer within an allowance (`icrc1_transfer_from`).
    pub fn icrc1_transfer_from(&mut self, args: &TransferFromArgs, now: u64) -> (r: Result<u128, LedgerError>)
        requires
            old(self).wf(),
            account_ok(args.spender@),
            account_ok(args.from@),
            account_ok(args.to@),
        ensures
            (final(self)@, r) == ptransfer_from_spec(old(self)@, args.spender@, args.from@, args.to@, args.amount@, now),
            final(self).wf(),
    {
        let amount = match nat_to_u128(&args.amount) {
            Ok(a) => a,
            Err(e) => {
                return Err(e);
            },
        };
        let fee = self.metadata.transfer_fee;
        if amount < fee {
            return Err(LedgerError::InsufficientFee);
        }
        let allowance = self.allowance(&args.from, &args.spender);
        if allowance < amount {
            return Err(LedgerError::InsufficientAllowance);
        }
        let fb = self.balance(&args.from);
        if fb < amount {
            return Err(LedgerError::InsufficientBalance);
        }
        self.set_allowance(&args.from, &args.spender, allowance - amount);
        match self.move_tokens(&args.from, &args.to, amount, now) {
            Err(e) => {
                return Err(e);
            },
            Ok(_) => {},
        }
        let mut details = String::new();
        push_str(&mut details, "Spender: ");
        push_principal(&mut details, &args.spender.owner);
        push_str(&mut details, ", From: ");
        push_principal(&mut details, &args.from.owner);
        push_str(&mut details, ", To: ");
        push_principal(&mut details, &args.to.owner);
        push_str(&mut details, ", Amount: ");
        push_decimal(&mut details, amount);
        push_str(&mut details, ", Fee: ");
        push_decimal(&mut details, fee);
        push_str(&mut details, ", Received: ");
        push_decimal(&mut details, amount - fee);
        self.log_event("TransferFrom", details, now);
        Ok(amount)
    }
}

// ---------------------------------------------------------------------------
// Chronolock fees, settings and queries
// ---------------------------------------------------------------------------

/// The fee for a media chronolock: 20 tokens of 8 decimals.
pub open spec fn pmedia_fee() -> u128 {
    2_000_000_000
}

/// What `create_media_chronolock` does: the caller's account pays the fee,
/// which is split as any fee.
pub open spec fn pmedia_spec(v: PoolView, caller: AccountView, now: u64) -> (PoolView, Result<Seq<char>, LedgerError>) {
    let b = pbalance(v, caller);
    if b < pmedia_fee() {
        (v, Err(LedgerError::InsufficientBalance))
    } else {
        let (v1, r) = pfee_spec(with_pbalance(v, caller, (b - pmedia_fee()) as u128), pmedia_fee(), now);
        match r {
            Err(e) => (v1, Err(e)),
            Ok(_) => (
                plog(
                    v1,
                    now,
                    "MediaChronoLockCreated"@,
                    "Caller: "@ + principal_text(caller.owner) + ", Fee: 2000000000"@,
                ),
                Ok("Media ChronoLock created for 20 "@ + v.meta.symbol),
            ),
        }
    }
}

/// What `set_transfer_fee` does: only the admin sets the fee.
pub open spec fn pset_fee_spec(v: PoolView, caller: Seq<u8>, new_fee: u128, now: u64) -> (PoolView, Result<(), LedgerError>) {
    if caller != v.admin {
        (v, Err(LedgerError::Unauthorized))
    } else {
        (
            plog(
                PoolView { meta: PoolMetaView { transfer_fee: new_fee, ..v.meta }, ..v },
                now,
                "SetTransferFee"@,
                "New fee: "@ + decimal(new_fee as nat),
            ),
            Ok(()),
        )
    }
}

/// What `convert_dapp_funds_to_cycles` does: for the admin, logs the dapp
/// funds to convert when there are any.
pub open spec fn pconvert_spec(v: PoolView, caller: Seq<u8>, now: u64) -> (PoolView, Result<(), LedgerError>) {
    if caller != v.admin {
        (v, Err(LedgerError::Unauthorized))
    } else if v.dapp_funds == 0 {
        (v, Ok(()))
    } else {
        (
            plog(
                v,
                now,
                "DappFundsConverted"@,
                "Converted "@ + decimal(v.dapp_funds as nat) + " tokens to cycles"@,
            ),
            Ok(()),
        )
    }
}

impl PoolLedger {
    /// Charges the caller's account the fee for a media chronolock
    /// (`create_media_chronolock`).
    pub fn create_media_chronolock(&mut self, caller: &Account, now: u64) -> (r: Result<String, LedgerError>)
        requires
            old(self).wf(),
            account_ok(caller@),
        ensures
            ({
                let (v, o) = pmedia_spec(old(self)@, caller@, now);
                final(self)@ == v && match r {
                    Ok(m) => o == Ok::<Seq<char>, LedgerError>(m@),
                    Err(e) => o == Err::<Seq<char>, LedgerError>(e),
                }
            }),
            final(self).wf(),
    {
        let fee: u128 = 2_000_000_000;
        let b = self.balance(caller);
        if b < fee {
            return Err(LedgerError::InsufficientBalance);
        }
        self.set_balance(caller, b - fee);
        match self.process_fee(fee, now) {
            Err(e) => {
                return Err(e);
            },
            Ok(_) => {},
        }
        let mut details = String::new();
        push_str(&mut details, "Caller: ");
        push_principal(&mut details, &caller.owner);
        push_str(&mut details, ", Fee: 2000000000");
        self.log_event("MediaChronoLockCreated", details, now);
        let mut reply = String::new();
        push_str(&mut reply, "Media ChronoLock created for 20 ");
        push_str(&mut reply, self.metadata.symbol.as_str());
        Ok(reply)
    }

    /// Logs a free text chronolock (`create_text_chronolock`).
    pub fn create_text_chronolock(&mut self, caller: &Account, now: u64) -> (r: Result<String, LedgerError>)
        requires
            account_ok(caller@),
        ensures
            final(self)@ == plog(
                old(self)@,
                now,
                "TextChronoLockCreated"@,
                "Caller: "@ + principal_text(caller@.owner),
            ),
            r matches Ok(m) && m@ == "Text ChronoLock created for free"@,
            old(self).wf() ==> final(self).wf(),
    {
        let mut details = String::new();
        push_str(&mut details, "Caller: ");
        push_principal(&mut details, &caller.owner);
        self.log_event("TextChronoLockCreated", details, now);
        Ok(String::from_str("Text ChronoLock created for free"))
    }

    /// Sets the transfer fee, as admin (`set_transfer_fee`).
    pub fn set_transfer_fee(&mut self, caller: &Vec<u8>, new_fee: u128, now: u64) -> (r: Result<(), LedgerError>)
        requires
            old(self).wf(),
        ensures
            (final(self)@, r) == pset_fee_spec(old(self)@, caller@, new_fee, now),
            final(self).wf(),
    {
        if !bytes_eq(caller.as_slice(), self.admin.as_slice()) {
            return Err(LedgerError::Unauthorized);
        }
        self.metadata.transfer_fee = new_fee;
        let mut details = String::new();
        push_str(&mut details, "New fee: ");
        push_decimal(&mut details, new_fee);
        self.log_event("SetTransferFee", details, now);
        Ok(())
    }

    /// Logs the dapp funds to convert to cycles, as admin
    /// (`convert_dapp_funds_to_cycles`).
    pub fn convert_dapp_funds_to_cycles(&mut self, caller: &Vec<u8>, now: u64) -> (r: Result<(), LedgerError>)
        requires
            old(self).wf(),
        ensures
            (final(self)@, r) == pconvert_spec(old(self)@, caller@, now),
            final(self).wf(),
    {
        if !bytes_eq(caller.as_slice(), self.admin.as_slice()) {
            return Err(LedgerError::Unauthorized);
        }
        if self.dapp_funds == 0 {
            return Ok(());
        }
        let mut details = String::new();
        push_str(&mut details, "Converted ");
        push_decimal(&mut details, self.dapp_funds);
        push_str(&mut details, " tokens to cycles");
        self.log_event("DappFundsConverted", details, now);
        Ok(())
    }

    /// The admin principal (`get_admin`).
    pub fn get_admin(&self) -> (r: Vec<u8>)
        ensures
            r@ == self@.admin,
    {
        to_vec(self.admin.as_slice())
    }

    /// Whether the caller is the admin (`is_admin`).
    pub fn is_admin(&self, caller: &Vec<u8>) -> (r: bool)
        ensures
            r == (caller@ == self@.admin),
    {
        bytes_eq(caller.as_slice(), self.admin.as_slice())
    }

    /// The standards the ledger follows (`icrc1_supported_standards`).
    pub fn icrc1_supported_standards(&self) -> (r: Vec<String>)
        ensures
            r@.len() == 2,
            r@[0]@ == "ICRC-1"@,
            r@[1]@ == "ICRC-2"@,
    {
        let mut v: Vec<String> = Vec::new();
        v.push(String::from_str("ICRC-1"));
        v.push(String::from_str("ICRC-2"));
        v
    }

    /// The token's metadata as ICRC-1 entries (`icrc1_metadata`).
    pub fn icrc1_metadata(&self) -> (r: Vec<(String, String)>)
        ensures
            r@.len() == 4,
            r@[0].0@ == "icrc1:name"@ && r@[0].1@ == self@.meta.name,
            r@[1].0@ == "icrc1:symbol"@ && r@[1].1@ == self@.meta.symbol,
            r@[2].0@ == "icrc1:decimals"@ && r@[2].1@ == decimal(self@.meta.decimals as nat),
            r@[3].0@ == "icrc1:logo"@ && r@[3].1@ == "https://your-logo-url.com/token.png"@,
    {
        let mut v: Vec<(String, String)> = Vec::new();
        v.push((String::from_str("icrc1:name"), self.metadata.name.clone()));
        v.push((String::from_str("icrc1:symbol"), self.metadata.symbol.clone()));
        v.push(
            (
                String::from_str("icrc1:decimals"),
                crate::text::decimal_string(self.metadata.decimals as u128),
            ),
        );
        v.push(
            (
                String::from_str("icrc1:logo"),
                String::from_str("https://your-logo-url.com/token.png"),
            ),
        );
        v
    }

    /// The allowance of `spender` over `owner` (`icrc1_allowance`).
    pub fn icrc1_allowance(&self, owner: &Account, spender: &Account) -> (r: u128)
        requires
            account_ok(owner@),
            account_ok(spender@),
        ensures
            r == pallowance(self@, owner@, spender@),
    {
        self.allowance(owner, spender)
    }

    /// The token's name (`icrc1_name`).
    pub fn icrc1_name(&self) -> (r: String)
        ensures
            r@ == self@.meta.name,
    {
        self.metadata.name.clone()
    }

    /// The token's symbol (`icrc1_symbol`).
    pub fn icrc1_symbol(&self) -> (r: String)
        ensures
            r@ == self@.meta.symbol,
    {
        self.metadata.symbol.clone()
    }

    /// The token's decimals (`icrc1_decimals`).
    pub fn icrc1_decimals(&self) -> (r: u8)
        ensures
            r == self@.meta.decimals,
    {
        self.metadata.decimals
    }

    /// The total supply (`icrc1_total_supply`).
    pub fn icrc1_total_supply(&self) -> (r: u128)
        ensures
            r == self@.meta.total_supply,
    {
        self.metadata.total_supply
    }

    /// The transfer fee (`icrc1_fee`).
    pub fn icrc1_fee(&self) -> (r: u128)
        ensures
            r == self@.meta.transfer_fee,
    {
        self.metadata.transfer_fee
    }

    /// The balance of an account (`icrc1_balance_of`).
    pub fn icrc1_balance_of(&self, account: &Account) -> (r: u128)
        requires
            account_ok(account@),
        ensures
            r == pbalance(self@, account@),
    {
        self.balance(account)
    }

    /// The community pool (`get_community_pool_balance`).
    pub fn get_community_pool_balance(&self) -> (r: u128)
        ensures
            r == self@.meta.community_pool,
    {
        self.metadata.community_pool
    }

    /// The team vesting pool (`get_team_pool_balance`).
    pub fn get_team_pool_balance(&self) -> (r: u128)
        ensures
            r == self@.meta.team_vesting_pool,
    {
        self.metadata.team_vesting_pool
    }

    /// The reserve (`get_reserve_pool_balance`).
    pub fn get_reserve_pool_balance(&self) -> (r: u128)
        ensures
            r == self@.meta.reserve,
    {
        self.metadata.reserve
    }

    /// Tokens burned so far (`get_total_burned`).
    pub fn get_total_burned(&self) -> (r: u128)
        ensures
            r == self@.meta.total_burned,
    {
        self.metadata.total_burned
    }

    /// The dapp funds (`get_dapp_funds`).
    pub fn get_dapp_funds(&self) -> (r: u128)
        ensures
            r == self@.dapp_funds,
    {
        self.dapp_funds
    }

    /// How the current fee would be split: burned, to the community pool, to
    /// the dapp funds (`get_fee_distribution`).
    pub fn get_fee_distribution(&self) -> (r: (u128, u128, u128))
        ensures
            r == fee_split(self@.meta.transfer_fee),
    {
        let fee = self.metadata.transfer_fee;
        (percent_of(fee, 20), percent_of(fee, 10), percent_of(fee, 70))
    }

    /// The log, by increasing second (`get_logs`).
    pub fn get_logs(&self) -> (r: Vec<LogEntry>)
        ensures
            exists|ks: Seq<u64>| lists_by_key(log_views(r@), self@.logs, ks),
    {
        let r = logs_in_range(&self.logs, 0, u64::MAX);
        assert(self@.logs == logs_view(number_table_contents(self.logs)));
        r
    }

    /// The log entries from `start_time` to `end_time` (seconds), both
    /// included (`get_logs_by_range`).
    pub fn get_logs_by_range(&self, start_time: u64, end_time: u64) -> (r: Vec<LogEntry>)
        ensures
            exists|ks: Seq<u64>|
                lists_by_key(log_views(r@), key_range(self@.logs, start_time, end_time), ks),
    {
        let r = logs_in_range(&self.logs, start_time, end_time);
        assert(self@.logs == logs_view(number_table_contents(self.logs)));
        r
    }
}

} // verus!
