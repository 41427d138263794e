//! What holds of the ledger across its operations.
use vstd::prelude::*;
use crate::account::{AccountView, account_ok};
use crate::ledger::{LedgerView, LedgerError, fee_split, process_fee_spec, transfer_spec,
    approve_spec, transfer_from_spec, register_spec, assign_code_spec, claim_spec, set_fee_spec,
    balance_of, allowance_of, community_pool, dapp_pool, team_pool, reserve_pool, pool,
    welcome_amount, referral_reward, vesting_locked, log_spec, log_room, init_state, seconds, with_balance,
    move_spec};
use vstd::set::fold::{is_fun_commutative, lemma_fold_empty, lemma_fold_insert};

verus! {

/// The three parts of a fee never add up to more than the fee.
pub proof fn law_fee_split_within_fee(fee: u128)
    ensures
        fee_split(fee).0 + fee_split(fee).1 + fee_split(fee).2 <= fee,
{
}

/// A processed fee burns its first part (the supply goes down and the burned
/// total up by it, so their sum stays), and credits the community pool and
/// the dapp funds with the other two parts.
pub proof fn law_process_fee_effect(v: LedgerView, fee: u128)
    requires
        process_fee_spec(v, fee).1 is Ok,
    ensures
        ({
            let w = process_fee_spec(v, fee).0;
            let (burn, to_pool, to_dapp) = fee_split(fee);
            &&& w.meta.total_supply == v.meta.total_supply - burn
            &&& w.meta.total_burned == v.meta.total_burned + burn
            &&& w.meta.total_supply + w.meta.total_burned == v.meta.total_supply + v.meta.total_burned
            &&& balance_of(w, community_pool(v)) == balance_of(v, community_pool(v)) + to_pool
            &&& balance_of(w, dapp_pool(v)) == balance_of(v, dapp_pool(v)) + to_dapp
            &&& forall|a: AccountView|
                a != community_pool(v) && a != dapp_pool(v) ==> balance_of(w, a) == balance_of(v, a)
        }),
{
    assert(community_pool(v) != dapp_pool(v)) by {
        let c = community_pool(v).subaccount->0;
        let d = dapp_pool(v).subaccount->0;
        assert(c[0] != d[0]);
    }
}

/// Processing a fee never changes the sum of the total supply and the total
/// burned, whether it succeeds or not.
pub proof fn law_process_fee_keeps_supply_and_burned(v: LedgerView, fee: u128)
    ensures
        process_fee_spec(v, fee).0.meta.total_supply + process_fee_spec(v, fee).0.meta.total_burned
            == v.meta.total_supply + v.meta.total_burned,
{
}

/// A successful transfer between two accounts that are neither the
/// community pool nor the dapp funds takes the amount from the sender, gives
/// the amount less the fee to the receiver, and returns the amount.
pub proof fn law_transfer_moves_amount_less_fee(
    v: LedgerView,
    caller: Seq<u8>,
    from_subaccount: Option<Seq<u8>>,
    to: AccountView,
    amount: nat,
    now_secs: u64,
)
    requires
        transfer_spec(v, caller, from_subaccount, to, amount, now_secs).1 is Ok,
        to != (AccountView { owner: caller, subaccount: from_subaccount }),
        to != community_pool(v),
        to != dapp_pool(v),
        (AccountView { owner: caller, subaccount: from_subaccount }) != community_pool(v),
        (AccountView { owner: caller, subaccount: from_subaccount }) != dapp_pool(v),
    ensures
        ({
            let from = AccountView { owner: caller, subaccount: from_subaccount };
            let (w, r) = transfer_spec(v, caller, from_subaccount, to, amount, now_secs);
            &&& r == Ok::<u128, LedgerError>(amount as u128)
            &&& balance_of(w, from) == balance_of(v, from) - amount
            &&& balance_of(w, to) == balance_of(v, to) + amount - v.meta.transfer_fee
            &&& w.meta.total_supply == v.meta.total_supply - fee_split(v.meta.transfer_fee).0
        }),
{
}

/// A transfer that fails for want of balance, of fee, or by vesting, or on
/// an amount that does not fit, changes nothing.
pub proof fn law_refused_transfer_changes_nothing(
    v: LedgerView,
    caller: Seq<u8>,
    from_subaccount: Option<Seq<u8>>,
    to: AccountView,
    amount: nat,
    now_secs: u64,
)
    requires
        ({
            let r = transfer_spec(v, caller, from_subaccount, to, amount, now_secs).1;
            ||| r == Err::<u128, LedgerError>(LedgerError::InsufficientBalance)
            ||| r == Err::<u128, LedgerError>(LedgerError::InsufficientFee)
            ||| r == Err::<u128, LedgerError>(LedgerError::VestingLocked)
            ||| (r == Err::<u128, LedgerError>(LedgerError::ArithmeticError) && amount
                >= u128::MAX)
        }),
    ensures
        transfer_spec(v, caller, from_subaccount, to, amount, now_secs).0 == v,
{
}

/// The team vesting pool cannot send before the end of vesting.
pub proof fn law_team_pool_locked_until_vesting_ends(
    v: LedgerView,
    to: AccountView,
    amount: nat,
    now_secs: u64,
)
    requires
        now_secs < v.meta.vesting_start_time + v.meta.vesting_duration,
    ensures
        transfer_spec(v, v.admin, team_pool(v).subaccount, to, amount, now_secs).1 == Err::<
            u128,
            LedgerError,
        >(LedgerError::VestingLocked),
{
}

/// After an approval, the allowance is the approved amount.
pub proof fn law_approve_then_allowance(
    v: LedgerView,
    caller: Seq<u8>,
    from_subaccount: Option<Seq<u8>>,
    spender: AccountView,
    amount: nat,
    expires_at: Option<u64>,
    now_secs: u64,
)
    requires
        amount <= u128::MAX,
    ensures
        ({
            let (w, r) = approve_spec(
                v,
                caller,
                from_subaccount,
                spender,
                amount,
                expires_at,
                now_secs,
            );
            &&& r == Ok::<u128, LedgerError>(amount as u128)
            &&& allowance_of(w, AccountView { owner: caller, subaccount: from_subaccount }, spender)
                == amount
            &&& w.balances == v.balances
        }),
{
}

/// A successful transfer-from lowers the spender's allowance by the amount.
pub proof fn law_transfer_from_spends_allowance(
    v: LedgerView,
    caller: Seq<u8>,
    spender: AccountView,
    from: AccountView,
    to: AccountView,
    amount: nat,
    now_secs: u64,
)
    requires
        transfer_from_spec(v, caller, spender, from, to, amount, now_secs).1 is Ok,
    ensures
        allowance_of(transfer_from_spec(v, caller, spender, from, to, amount, now_secs).0, from, spender)
            == allowance_of(v, from, spender) - amount,
{
}

/// Only the spender named in the arguments can make a transfer-from.
pub proof fn law_transfer_from_only_by_spender(
    v: LedgerView,
    caller: Seq<u8>,
    spender: AccountView,
    from: AccountView,
    to: AccountView,
    amount: nat,
    now_secs: u64,
)
    requires
        caller != spender.owner,
    ensures
        transfer_from_spec(v, caller, spender, from, to, amount, now_secs) == (
            v,
            Err::<u128, LedgerError>(LedgerError::Unauthorized),
        ),
{
}

/// Registration gives the new user the welcome amount out of the community
/// pool; registering the same account again is refused and changes nothing.
pub proof fn law_register_once(v: LedgerView, user: AccountView, now: u64, now2: u64)
    requires
        register_spec(v, user, now).1 is Ok,
        user != community_pool(v),
    ensures
        ({
            let w = register_spec(v, user, now).0;
            &&& balance_of(w, user) == welcome_amount(v)
            &&& balance_of(w, community_pool(v)) == balance_of(v, community_pool(v))
                - welcome_amount(v)
            &&& register_spec(w, user, now2) == (
                w,
                Err::<bool, LedgerError>(LedgerError::AlreadyRegistered),
            )
        }),
{
}

/// The two referral tables are inverse to each other: each code names the
/// account that holds it, and each account holds the code that names it.
pub open spec fn referrals_consistent(v: LedgerView) -> bool {
    &&& forall|a: AccountView| #[trigger]
        v.referral_by_account.contains_key(a) ==> v.account_by_referral.contains_key(
            v.referral_by_account[a],
        ) && v.account_by_referral[v.referral_by_account[a]] == a
    &&& forall|c: Seq<char>| #[trigger]
        v.account_by_referral.contains_key(c) ==> v.referral_by_account.contains_key(
            v.account_by_referral[c],
        ) && v.referral_by_account[v.account_by_referral[c]] == c
}

/// Right after `init` no code is given out, and registering or claiming a
/// reward leaves both referral tables as they are, so they stay inverse.
pub proof fn law_referrals_consistent_kept(
    name: Seq<char>,
    symbol: Seq<char>,
    total_supply: u128,
    vesting_duration: u64,
    transfer_fee: u128,
    admin: Seq<u8>,
    v: LedgerView,
    user: AccountView,
    caller: Seq<u8>,
    code: Seq<char>,
    now: u64,
)
    requires
        referrals_consistent(v),
    ensures
        referrals_consistent(init_state(name, symbol, total_supply, vesting_duration, transfer_fee, admin, now)),
        referrals_consistent(register_spec(v, user, now).0),
        referrals_consistent(claim_spec(v, caller, code, now).0),
{
}

/// Giving out a referral code to an account without one keeps the two tables
/// inverse, so no two accounts share a code.
pub proof fn law_assign_code_keeps_referrals_consistent(
    v: LedgerView,
    user: AccountView,
    code: Seq<char>,
    now: u64,
)
    requires
        referrals_consistent(v),
        !v.referral_by_account.contains_key(user),
    ensures
        referrals_consistent(assign_code_spec(v, user, code, now).0),
{
    let w = assign_code_spec(v, user, code, now).0;
    if !v.account_by_referral.contains_key(code) {
        assert forall|a: AccountView| #[trigger]
            w.referral_by_account.contains_key(a) implies w.account_by_referral.contains_key(
            w.referral_by_account[a],
        ) && w.account_by_referral[w.referral_by_account[a]] == a by {
            if a != user {
                assert(v.referral_by_account.contains_key(a));
                assert(v.referral_by_account[a] != code);
            }
        }
        assert forall|c: Seq<char>| #[trigger]
            w.account_by_referral.contains_key(c) implies w.referral_by_account.contains_key(
            w.account_by_referral[c],
        ) && w.referral_by_account[w.account_by_referral[c]] == c by {
            if c != code {
                assert(v.account_by_referral.contains_key(c));
                assert(v.account_by_referral[c] != user);
            }
        }
    }
}

/// A code already in use is refused, and nothing changes.
pub proof fn law_code_in_use_refused(v: LedgerView, user: AccountView, code: Seq<char>, now: u64)
    requires
        v.account_by_referral.contains_key(code),
    ensures
        assign_code_spec(v, user, code, now) == (v, None::<Seq<char>>),
{
}

/// A successful claim credits the referrer with the reward out of the
/// community pool; the same caller cannot claim again.
pub proof fn law_claim_once(v: LedgerView, caller: Seq<u8>, code: Seq<char>, code2: Seq<char>, now: u64, now2: u64)
    requires
        claim_spec(v, caller, code, now).1 is Ok,
        v.account_by_referral[code] != community_pool(v),
    ensures
        ({
            let w = claim_spec(v, caller, code, now).0;
            let referrer = v.account_by_referral[code];
            &&& balance_of(w, referrer) == balance_of(v, referrer) + referral_reward(v)
            &&& balance_of(w, community_pool(v)) == balance_of(v, community_pool(v))
                - referral_reward(v)
            &&& claim_spec(w, caller, code2, now2).1 == Err::<Seq<char>, LedgerError>(
                LedgerError::InvalidReferral,
            )
        }),
{
    let w = claim_spec(v, caller, code, now).0;
    let referee = AccountView { owner: caller, subaccount: None };
    assert(w.claimed.contains(referee));
}

/// Setting the fee: the admin's new fee is what is read back; anyone else is
/// refused and the fee stays.
pub proof fn law_set_fee_then_fee(v: LedgerView, caller: Seq<u8>, new_fee: u128, now: u64)
    ensures
        caller == v.admin ==> set_fee_spec(v, caller, new_fee, now).0.meta.transfer_fee == new_fee
            && set_fee_spec(v, caller, new_fee, now).1 is Ok,
        caller != v.admin ==> set_fee_spec(v, caller, new_fee, now) == (
            v,
            Err::<(), LedgerError>(LedgerError::AdminRequired),
        ),
{
}

/// Logging never changes balances, allowances or settings, and the counter
/// goes up by one.
pub proof fn law_log_changes_only_logs(v: LedgerView, now: u64, t: Seq<char>, d: Seq<char>)
    requires
        v.log_counter < u64::MAX,
    ensures
        log_spec(v, now, t, d).balances == v.balances,
        log_spec(v, now, t, d).allowances == v.allowances,
        log_spec(v, now, t, d).meta == v.meta,
        log_spec(v, now, t, d).log_counter == v.log_counter + 1,
{
}

/// A well-formed ledger's log is finite, as `law_log_bounded` asks.
pub proof fn law_wf_logs_finite(l: crate::ledger::Ledger)
    requires
        l.wf(),
    ensures
        l@.logs.dom().finite(),
{
    assert(l@.logs.dom() =~= crate::stable::number_table_contents(l.logs).dom());
}

/// A well-formed ledger holds finitely many balances.
pub proof fn law_wf_balances_finite(l: crate::ledger::Ledger)
    requires
        l.wf(),
    ensures
        l@.balances.dom().finite(),
{
    crate::ledger::lemma_keys_injective();
    crate::tables::lemma_decoded_finite(
        crate::stable::byte_table_contents(l.balances),
        crate::ledger::acct_ok(),
        crate::ledger::acct_key(),
        crate::ledger::as_u128(),
    );
}

/// The log never holds more than its maximum once it is within it.
pub proof fn law_log_bounded(v: LedgerView, now: u64, t: Seq<char>, d: Seq<char>)
    requires
        v.logs.dom().finite(),
        v.logs.len() <= 100_000,
    ensures
        log_spec(v, now, t, d).logs.len() <= 100_000,
        log_spec(v, now, t, d).logs.dom().finite(),
{
    let key = (now + v.log_counter) as u64;
    let logs1 = v.logs.insert(key, crate::ledger::LogView { timestamp: now, event_type: t, details: d });
    assert(logs1.dom() =~= v.logs.dom().insert(key));
    if logs1.len() > 100_000 {
        let m = crate::ledger::min_key(logs1);
        assert(logs1.contains_key(key));
        // the least key exists in a finite, non-empty set of numbers
        lemma_min_exists(logs1.dom());
        assert(logs1.contains_key(m));
        assert(logs1.remove(m).dom() =~= logs1.dom().remove(m));
    }
}

pub proof fn lemma_min_exists(s: Set<u64>)
    requires
        s.finite(),
        s.len() > 0,
    ensures
        exists|k: u64| s.contains(k) && forall|j: u64| #[trigger] s.contains(j) ==> k <= j,
    decreases s.len(),
{
    let x = s.choose();
    assert(s.contains(x));
    let t = s.remove(x);
    if t.len() == 0 {
        assert forall|j: u64| #[trigger] s.contains(j) implies x <= j by {
            if j != x {
                assert(t.contains(j));
            }
        }
    } else {
        lemma_min_exists(t);
        let y = choose|k: u64| t.contains(k) && forall|j: u64| #[trigger] t.contains(j) ==> k <= j;
        if x < y {
            assert forall|j: u64| #[trigger] s.contains(j) implies x <= j by {
                if j != x {
                    assert(t.contains(j));
                }
            }
        } else {
            assert forall|j: u64| #[trigger] s.contains(j) implies y <= j by {
                if j != x {
                    assert(t.contains(j));
                }
            }
        }
    }
}

/// At initialization the pools hold half, a fifth and three tenths of the
/// supply, and the dapp funds nothing.
pub proof fn law_init_pools(
    name: Seq<char>,
    symbol: Seq<char>,
    total_supply: u128,
    vesting_duration: u64,
    transfer_fee: u128,
    admin: Seq<u8>,
    now: u64,
)
    requires
        total_supply * 50 <= u128::MAX,
    ensures
        ({
            let v = init_state(
                name,
                symbol,
                total_supply,
                vesting_duration,
                transfer_fee,
                admin,
                now,
            );
            &&& balance_of(v, community_pool(v)) == total_supply * 50 / 100
            &&& balance_of(v, team_pool(v)) == total_supply * 20 / 100
            &&& balance_of(v, reserve_pool(v)) == total_supply * 30 / 100
            &&& balance_of(v, dapp_pool(v)) == 0
            &&& v.meta.total_supply == total_supply
        }),
{
    let v = init_state(name, symbol, total_supply, vesting_duration, transfer_fee, admin, now);
    let s1 = pool(admin, 1).subaccount->0;
    let s2 = pool(admin, 2).subaccount->0;
    let s3 = pool(admin, 3).subaccount->0;
    let s4 = pool(admin, 4).subaccount->0;
    assert(s1[0] == 1 && s2[0] == 2 && s3[0] == 3 && s4[0] == 4);
}

/// A claim with a code nobody holds, or by a referee who already claimed,
/// is refused with `InvalidReferral` and changes nothing: each referee
/// triggers at most one reward.
pub proof fn law_claim_refused(v: LedgerView, caller: Seq<u8>, code: Seq<char>, now: u64)
    requires
        !v.account_by_referral.contains_key(code) || v.claimed.contains(
            AccountView { owner: caller, subaccount: None },
        ),
    ensures
        claim_spec(v, caller, code, now) == (v, Err::<Seq<char>, LedgerError>(LedgerError::InvalidReferral)),
{
}

/// While the referral tables are inverse to each other, two accounts never
/// hold the same code.
pub proof fn law_codes_distinct(v: LedgerView, a: AccountView, b: AccountView)
    requires
        referrals_consistent(v),
        a != b,
        v.referral_by_account.contains_key(a),
        v.referral_by_account.contains_key(b),
    ensures
        v.referral_by_account[a] != v.referral_by_account[b],
{
    assert(v.account_by_referral[v.referral_by_account[a]] == a);
    assert(v.account_by_referral[v.referral_by_account[b]] == b);
}

/// A code drawn from at least twelve random bytes has twelve characters,
/// each a letter or a digit.
pub proof fn law_code_shape(random_bytes: Seq<u8>)
    requires
        random_bytes.len() >= 12,
    ensures
        crate::ledger::referral_code(random_bytes).len() == 12,
        forall|i: int|
            0 <= i < 12 ==> crate::ledger::code_charset().contains(
                #[trigger] crate::ledger::referral_code(random_bytes)[i],
            ),
{
    reveal_strlit("ABCDEFGHIJKLMNOPQRSTUVWXYZabcdefghijklmnopqrstuvwxyz0123456789");
    assert forall|i: int| 0 <= i < 12 implies crate::ledger::code_charset().contains(
        #[trigger] crate::ledger::referral_code(random_bytes)[i],
    ) by {
        let j = random_bytes[i] as int % 62;
        assert(crate::ledger::code_charset()[j] == crate::ledger::referral_code(random_bytes)[i]);
    }
}

/// Every log key lies below the time plus the counter.
pub open spec fn keys_below(v: LedgerView, now: u64) -> bool {
    forall|k: u64| #[trigger] v.logs.contains_key(k) ==> k < now + v.log_counter
}

/// While every stored key lies below the time plus the counter, a new entry
/// goes under a key that no entry holds, and as time goes on the keys stay
/// below it: log keys never repeat while time does not go back.
pub proof fn law_log_key_fresh(v: LedgerView, now: u64, later: u64, t: Seq<char>, d: Seq<char>)
    requires
        keys_below(v, now),
        now <= later,
        log_room(v, now, 1),
    ensures
        !v.logs.contains_key((now + v.log_counter) as u64),
        keys_below(log_spec(v, now, t, d), later),
{
    let w = log_spec(v, now, t, d);
    assert forall|k: u64| #[trigger] w.logs.contains_key(k) implies k < later + w.log_counter by {
        if k != (now + v.log_counter) as u64 {
            assert(v.logs.contains_key(k));
        }
    }
}


// ---------------------------------------------------------------------------
// The total supply and the sum of the balances
// ---------------------------------------------------------------------------

/// What `m` holds for `a`, 0 when it holds nothing.
pub open spec fn held(m: Map<AccountView, u128>, a: AccountView) -> int {
    if m.contains_key(a) {
        m[a] as int
    } else {
        0
    }
}

/// Adds what `m` holds for an account to a running sum.
pub open spec fn add_held(m: Map<AccountView, u128>) -> spec_fn(int, AccountView) -> int {
    |acc: int, a: AccountView| acc + held(m, a)
}

/// The sum of all the balances that `m` holds.
pub open spec fn sum_of_balances(m: Map<AccountView, u128>) -> int {
    m.dom().fold(0int, add_held(m))
}

proof fn lemma_add_held_commutative(m: Map<AccountView, u128>)
    ensures
        is_fun_commutative(add_held(m)),
{
}

/// Folding over a set gives the same sum for two maps that hold the same
/// balances on it.
proof fn lemma_fold_same_on(m1: Map<AccountView, u128>, m2: Map<AccountView, u128>, t: Set<AccountView>, z: int)
    requires
        t.finite(),
        forall|a: AccountView| t.contains(a) ==> held(m1, a) == held(m2, a),
    ensures
        t.fold(z, add_held(m1)) == t.fold(z, add_held(m2)),
    decreases t.len(),
{
    lemma_add_held_commutative(m1);
    lemma_add_held_commutative(m2);
    if t.len() == 0 {
        assert(t =~= Set::<AccountView>::empty());
        lemma_fold_empty(z, add_held(m1));
        lemma_fold_empty(z, add_held(m2));
    } else {
        let a = t.choose();
        let rest = t.remove(a);
        assert(rest.insert(a) =~= t);
        lemma_fold_same_on(m1, m2, rest, z);
        lemma_fold_insert(rest, z, add_held(m1), a);
        lemma_fold_insert(rest, z, add_held(m2), a);
    }
}

/// Setting one balance changes the sum by the difference.
pub proof fn lemma_sum_after_set(m: Map<AccountView, u128>, k: AccountView, x: u128)
    requires
        m.dom().finite(),
    ensures
        m.insert(k, x).dom().finite(),
        sum_of_balances(m.insert(k, x)) == sum_of_balances(m) - held(m, k) + x,
{
    let m2 = m.insert(k, x);
    let rest = m.dom().remove(k);
    lemma_add_held_commutative(m);
    lemma_add_held_commutative(m2);
    assert(m2.dom() =~= rest.insert(k));
    lemma_fold_insert(rest, 0int, add_held(m2), k);
    lemma_fold_same_on(m, m2, rest, 0int);
    if m.dom().contains(k) {
        assert(m.dom() =~= rest.insert(k));
        lemma_fold_insert(rest, 0int, add_held(m), k);
    } else {
        assert(m.dom() =~= rest);
    }
}

/// What a fee split leaves over by rounding down: nothing when the fee is a
/// multiple of ten.
pub open spec fn fee_remainder(fee: u128) -> int {
    fee - (fee_split(fee).0 + fee_split(fee).1 + fee_split(fee).2)
}

proof fn lemma_process_fee_sum(v: LedgerView, fee: u128)
    requires
        v.balances.dom().finite(),
        process_fee_spec(v, fee).1 is Ok,
    ensures
        process_fee_spec(v, fee).0.balances.dom().finite(),
        sum_of_balances(process_fee_spec(v, fee).0.balances) - process_fee_spec(v, fee).0.meta.total_supply
            == sum_of_balances(v.balances) - v.meta.total_supply + fee_split(fee).0 + fee_split(fee).1
            + fee_split(fee).2,
{
    let (burn, to_pool, to_dapp) = fee_split(fee);
    let c = community_pool(v);
    let d = dapp_pool(v);
    let cb = balance_of(v, c);
    lemma_sum_after_set(v.balances, c, (cb + to_pool) as u128);
    let b2 = v.balances.insert(c, (cb + to_pool) as u128);
    let db = if b2.contains_key(d) { b2[d] } else { 0 };
    lemma_sum_after_set(b2, d, (db + to_dapp) as u128);
}

proof fn lemma_move_sum(v: LedgerView, from: AccountView, to: AccountView, amount: u128)
    requires
        v.balances.dom().finite(),
        balance_of(v, from) >= amount,
        amount >= v.meta.transfer_fee,
        move_spec(v, from, to, amount).1 is Ok,
    ensures
        move_spec(v, from, to, amount).0.balances.dom().finite(),
        sum_of_balances(move_spec(v, from, to, amount).0.balances) - move_spec(v, from, to, amount).0.meta.total_supply
            == sum_of_balances(v.balances) - v.meta.total_supply - fee_remainder(v.meta.transfer_fee),
{
    let fee = v.meta.transfer_fee;
    let fb = balance_of(v, from);
    lemma_sum_after_set(v.balances, from, (fb - amount) as u128);
    let v1 = with_balance(v, from, (fb - amount) as u128);
    let tb = balance_of(v1, to);
    lemma_sum_after_set(v1.balances, to, (tb + (amount - fee)) as u128);
    let v2 = with_balance(v1, to, (tb + (amount - fee)) as u128);
    lemma_process_fee_sum(v2, fee);
}

/// A successful transfer lowers the sum of the balances less the total supply
/// by what the fee split leaves over; when the fee is a multiple of ten, a
/// ledger whose balances add up to its total supply still does afterwards.
pub proof fn law_transfer_keeps_supply_equal_to_balances(
    v: LedgerView,
    caller: Seq<u8>,
    from_subaccount: Option<Seq<u8>>,
    to: AccountView,
    amount: nat,
    now_secs: u64,
)
    requires
        v.balances.dom().finite(),
        transfer_spec(v, caller, from_subaccount, to, amount, now_secs).1 is Ok,
    ensures
        ({
            let w = transfer_spec(v, caller, from_subaccount, to, amount, now_secs).0;
            &&& w.balances.dom().finite()
            &&& sum_of_balances(w.balances) - w.meta.total_supply
                == sum_of_balances(v.balances) - v.meta.total_supply - fee_remainder(v.meta.transfer_fee)
            &&& v.meta.transfer_fee % 10 == 0 && sum_of_balances(v.balances) == v.meta.total_supply
                ==> sum_of_balances(w.balances) == w.meta.total_supply
        }),
{
    let from = AccountView { owner: caller, subaccount: from_subaccount };
    lemma_move_sum(v, from, to, amount as u128);
    lemma_fee_remainder_zero(v.meta.transfer_fee);
}

/// The same for a successful `icrc1_transfer_from`.
pub proof fn law_transfer_from_keeps_supply_equal_to_balances(
    v: LedgerView,
    caller: Seq<u8>,
    spender: AccountView,
    from: AccountView,
    to: AccountView,
    amount: nat,
    now_secs: u64,
)
    requires
        v.balances.dom().finite(),
        transfer_from_spec(v, caller, spender, from, to, amount, now_secs).1 is Ok,
    ensures
        ({
            let w = transfer_from_spec(v, caller, spender, from, to, amount, now_secs).0;
            &&& w.balances.dom().finite()
            &&& sum_of_balances(w.balances) - w.meta.total_supply
                == sum_of_balances(v.balances) - v.meta.total_supply - fee_remainder(v.meta.transfer_fee)
            &&& v.meta.transfer_fee % 10 == 0 && sum_of_balances(v.balances) == v.meta.total_supply
                ==> sum_of_balances(w.balances) == w.meta.total_supply
        }),
{
    let v1 = LedgerView {
        allowances: v.allowances.insert(
            (from, spender),
            (allowance_of(v, from, spender) - amount) as u128,
        ),
        ..v
    };
    lemma_move_sum(v1, from, to, amount as u128);
    lemma_fee_remainder_zero(v.meta.transfer_fee);
}

/// A fee split leaves nothing over when the fee is a multiple of ten, and
/// never a negative amount.
pub proof fn lemma_fee_remainder_zero(fee: u128)
    ensures
        fee % 10 == 0 ==> fee_remainder(fee) == 0,
        fee_remainder(fee) >= 0,
{
    if fee % 10 == 0 {
        let q = fee / 10;
        assert(fee == 10 * q);
        assert(fee * 20 / 100 == 2 * q) by (nonlinear_arith) requires fee == 10 * q;
        assert(fee * 10 / 100 == q) by (nonlinear_arith) requires fee == 10 * q;
        assert(fee * 70 / 100 == 7 * q) by (nonlinear_arith) requires fee == 10 * q;
    }
    assert(fee * 20 / 100 + fee * 10 / 100 + fee * 70 / 100 <= fee) by (nonlinear_arith);
}


proof fn lemma_pools_differ(admin: Seq<u8>, i: u8, j: u8)
    requires
        i != j,
    ensures
        pool(admin, i) != pool(admin, j),
{
    let a = pool(admin, i).subaccount->0;
    let b = pool(admin, j).subaccount->0;
    assert(a[0] != b[0]);
}

/// Right after `init`, with a total supply that is a multiple of ten, the
/// balances of the four pools add up to the total supply.
pub proof fn law_init_balances_add_up(
    name: Seq<char>,
    symbol: Seq<char>,
    total_supply: u128,
    vesting_duration: u64,
    transfer_fee: u128,
    admin: Seq<u8>,
    now: u64,
)
    requires
        total_supply % 10 == 0,
    ensures
        ({
            let v = init_state(name, symbol, total_supply, vesting_duration, transfer_fee, admin, now);
            &&& v.balances.dom().finite()
            &&& sum_of_balances(v.balances) == v.meta.total_supply
        }),
{
    let e = Map::<AccountView, u128>::empty();
    assert(e.dom() =~= Set::<AccountView>::empty());
    lemma_fold_empty(0int, add_held(e));
    let q = total_supply / 10;
    assert(total_supply * 50 / 100 == 5 * q && total_supply * 20 / 100 == 2 * q
        && total_supply * 30 / 100 == 3 * q) by (nonlinear_arith)
        requires
            total_supply % 10 == 0,
            q == total_supply / 10,
    ;
    let a1 = (total_supply * 50 / 100) as u128;
    let a2 = (total_supply * 20 / 100) as u128;
    let a3 = (total_supply * 30 / 100) as u128;
    lemma_pools_differ(admin, 1, 2);
    lemma_pools_differ(admin, 1, 3);
    lemma_pools_differ(admin, 1, 4);
    lemma_pools_differ(admin, 2, 3);
    lemma_pools_differ(admin, 2, 4);
    lemma_pools_differ(admin, 3, 4);
    let m1 = e.insert(pool(admin, 1), a1);
    let m2 = m1.insert(pool(admin, 2), a2);
    let m3 = m2.insert(pool(admin, 3), a3);
    lemma_sum_after_set(e, pool(admin, 1), a1);
    lemma_sum_after_set(m1, pool(admin, 2), a2);
    lemma_sum_after_set(m2, pool(admin, 3), a3);
    lemma_sum_after_set(m3, pool(admin, 4), 0);
}


/// A successful registration moves the welcome amount from the community
/// pool to the new account: the sum of the balances and the total supply stay.
pub proof fn law_register_keeps_balances_sum(v: LedgerView, user: AccountView, now: u64)
    requires
        v.balances.dom().finite(),
        register_spec(v, user, now).1 is Ok,
    ensures
        ({
            let w = register_spec(v, user, now).0;
            &&& w.balances.dom().finite()
            &&& sum_of_balances(w.balances) == sum_of_balances(v.balances)
            &&& w.meta.total_supply == v.meta.total_supply
        }),
{
    let amt = welcome_amount(v);
    let c = community_pool(v);
    let v1 = with_balance(v, c, (balance_of(v, c) - amt) as u128);
    lemma_sum_after_set(v.balances, c, (balance_of(v, c) - amt) as u128);
    lemma_sum_after_set(v1.balances, user, amt);
}

/// A successful referral claim moves the reward from the community pool to
/// the referrer: the sum of the balances and the total supply stay.
pub proof fn law_claim_keeps_balances_sum(v: LedgerView, caller: Seq<u8>, code: Seq<char>, now: u64)
    requires
        v.balances.dom().finite(),
        claim_spec(v, caller, code, now).1 is Ok,
    ensures
        ({
            let w = claim_spec(v, caller, code, now).0;
            &&& w.balances.dom().finite()
            &&& sum_of_balances(w.balances) == sum_of_balances(v.balances)
            &&& w.meta.total_supply == v.meta.total_supply
        }),
{
    let reward = referral_reward(v);
    let c = community_pool(v);
    let referrer = v.account_by_referral[code];
    let v1 = with_balance(v, c, (balance_of(v, c) - reward) as u128);
    lemma_sum_after_set(v.balances, c, (balance_of(v, c) - reward) as u128);
    lemma_sum_after_set(v1.balances, referrer, (balance_of(v1, referrer) + reward) as u128);
}


/// Two accounts registered one after the other, each given a code drawn
/// from twelve or more random bytes, hold different codes of twelve letters
/// or digits, and each code names its account.
pub proof fn law_two_registrations_get_distinct_codes(
    v: LedgerView,
    u1: AccountView,
    u2: AccountView,
    bytes1: Seq<u8>,
    bytes2: Seq<u8>,
    now: u64,
)
    requires
        referrals_consistent(v),
        u1 != u2,
        !v.referral_by_account.contains_key(u1),
        !v.referral_by_account.contains_key(u2),
        bytes1.len() >= 12,
        bytes2.len() >= 12,
        register_spec(v, u1, now).1 is Ok,
        assign_code_spec(register_spec(v, u1, now).0, u1, crate::ledger::referral_code(bytes1), now).1 is Some,
    ensures
        ({
            let c1 = crate::ledger::referral_code(bytes1);
            let c2 = crate::ledger::referral_code(bytes2);
            let w1 = assign_code_spec(register_spec(v, u1, now).0, u1, c1, now).0;
            let w2 = register_spec(w1, u2, now).0;
            register_spec(w1, u2, now).1 is Ok && assign_code_spec(w2, u2, c2, now).1 is Some ==> {
                let w = assign_code_spec(w2, u2, c2, now).0;
                &&& referrals_consistent(w)
                &&& w.referral_by_account[u1] == c1
                &&& w.referral_by_account[u2] == c2
                &&& c1 != c2
                &&& w.account_by_referral[c1] == u1
                &&& w.account_by_referral[c2] == u2
                &&& c1.len() == 12 && c2.len() == 12
            }
        }),
{
    let c1 = crate::ledger::referral_code(bytes1);
    let c2 = crate::ledger::referral_code(bytes2);
    law_code_shape(bytes1);
    law_code_shape(bytes2);
    let v1 = register_spec(v, u1, now).0;
    law_referrals_consistent_kept(Seq::empty(), Seq::empty(), 0, 0, 0, Seq::empty(), v, u1, Seq::empty(), Seq::empty(), now);
    law_assign_code_keeps_referrals_consistent(v1, u1, c1, now);
    let w1 = assign_code_spec(v1, u1, c1, now).0;
    let w2 = register_spec(w1, u2, now).0;
    if register_spec(w1, u2, now).1 is Ok && assign_code_spec(w2, u2, c2, now).1 is Some {
        law_referrals_consistent_kept(Seq::empty(), Seq::empty(), 0, 0, 0, Seq::empty(), w1, u2, Seq::empty(), Seq::empty(), now);
        law_assign_code_keeps_referrals_consistent(w2, u2, c2, now);
        assert(w1.account_by_referral.contains_key(c1));
    }
}


/// An allowance is refused for its expiry only once the expiry has passed:
/// a spender calling within an allowance that covers the amount, with no
/// expiry or an expiry at or after the current second, is never answered
/// `InsufficientAllowance`; and when the account is not locked in vesting,
/// the amount fits and covers the fee, and the owner's balance covers it,
/// the transfer goes through for the whole amount unless a credit would
/// overflow.
pub proof fn law_unexpired_allowance_is_honoured(
    v: LedgerView,
    caller: Seq<u8>,
    spender: AccountView,
    from: AccountView,
    to: AccountView,
    amount: nat,
    now_secs: u64,
)
    requires
        caller == spender.owner,
        v.allowances.contains_key((from, spender)),
        amount <= v.allowances[(from, spender)],
        v.expirations.contains_key((from, spender)) ==> now_secs <= v.expirations[(from, spender)],
    ensures
        transfer_from_spec(v, caller, spender, from, to, amount, now_secs).1
            != Err::<u128, LedgerError>(LedgerError::InsufficientAllowance),
        (from.subaccount != Some(crate::ledger::team_subaccount()) || now_secs >= v.meta.vesting_start_time
            + v.meta.vesting_duration) && amount < u128::MAX && amount >= v.meta.transfer_fee
            && v.balances.contains_key(from) && amount <= v.balances[from] ==> ({
            let r = transfer_from_spec(v, caller, spender, from, to, amount, now_secs).1;
            r == Ok::<u128, LedgerError>(amount as u128) || r == Err::<u128, LedgerError>(
                LedgerError::ArithmeticError,
            )
        }),
{
}

/// Once its expiry second has passed, an allowance is refused with
/// `InsufficientAllowance` and nothing changes, whatever it covers.
pub proof fn law_expired_allowance_is_refused(
    v: LedgerView,
    caller: Seq<u8>,
    spender: AccountView,
    from: AccountView,
    to: AccountView,
    amount: nat,
    now_secs: u64,
)
    requires
        caller == spender.owner,
        from.subaccount != Some(crate::ledger::team_subaccount()) || now_secs >= v.meta.vesting_start_time
            + v.meta.vesting_duration,
        amount < u128::MAX,
        amount >= v.meta.transfer_fee,
        v.expirations.contains_key((from, spender)),
        now_secs > v.expirations[(from, spender)],
    ensures
        transfer_from_spec(v, caller, spender, from, to, amount, now_secs) == (
            v,
            Err::<u128, LedgerError>(LedgerError::InsufficientAllowance),
        ),
{
}

/// A principal takes part in a transaction exactly when it owns its sender,
/// its receiver or its spender: the history of
/// `get_transactions_by_principal` keeps the transactions a principal only
/// received.
pub proof fn law_involvement(t: crate::ledger::TxView, p: Seq<u8>)
    ensures
        t.from.owner == p ==> crate::ledger::involves(t, p),
        (t.to matches Some(a) && a.owner == p) ==> crate::ledger::involves(t, p),
        (t.spender matches Some(a) && a.owner == p) ==> crate::ledger::involves(t, p),
        crate::ledger::involves(t, p) ==> t.from.owner == p || (t.to matches Some(a) && a.owner == p) || (
        t.spender matches Some(a) && a.owner == p),
{
}


/// A transfer on an allowance is refused with `InsufficientAllowance` only
/// when the allowance's expiry second has passed or it does not cover the
/// amount (no allowance covers nothing).
pub proof fn law_allowance_refusal_has_a_reason(
    v: LedgerView,
    caller: Seq<u8>,
    spender: AccountView,
    from: AccountView,
    to: AccountView,
    amount: nat,
    now_secs: u64,
)
    requires
        transfer_from_spec(v, caller, spender, from, to, amount, now_secs).1
            == Err::<u128, LedgerError>(LedgerError::InsufficientAllowance),
    ensures
        (v.expirations.contains_key((from, spender)) && now_secs > v.expirations[(from, spender)])
            || !v.allowances.contains_key((from, spender)) || v.allowances[(from, spender)] < amount,
{
    let (w, r) = transfer_from_spec(v, caller, spender, from, to, amount, now_secs);
    if r == Err::<u128, LedgerError>(LedgerError::InsufficientAllowance) {
        let v1 = LedgerView {
            allowances: v.allowances.insert(
                (from, spender),
                (allowance_of(v, from, spender) - amount) as u128,
            ),
            ..v
        };
        if !crate::ledger::allowance_expired(v, from, spender, now_secs) && allowance_of(v, from, spender) >= amount
            && balance_of(v, from) >= amount {
            assert(move_spec(v1, from, to, amount as u128).1 != Err::<u128, LedgerError>(
                LedgerError::InsufficientAllowance,
            ));
        }
    }
}

} // verus!
