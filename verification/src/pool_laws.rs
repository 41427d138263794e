//! What holds of the first ledger across its operations.
use vstd::prelude::*;
use crate::account::AccountView;
use crate::ledger::{LedgerError, fee_split, seconds};
use crate::pool_dummy::{dummy_step_spec, RunView, ActionView, dummy_account, dummy_sub};
use crate::pool_ledger::{PoolView, pfee_spec, ptransfer_spec, papprove_spec, ptransfer_from_spec,
    pregister_spec, passign_spec, pclaim_spec, pset_fee_spec, pbalance, pallowance, pwelcome, preward,
    plog, max_pool_logs, pmove_spec, with_pbalance};
use crate::ledger_laws::{sum_of_balances, lemma_sum_after_set, fee_remainder, lemma_fee_remainder_zero};

verus! {

/// A processed fee keeps the sum of the supply and the burned total, and the
/// sum of the supply, the community pool and the dapp funds goes down by at
/// most the part burned.
pub proof fn law_pool_fee_keeps_totals(v: PoolView, fee: u128, now: u64)
    requires
        pfee_spec(v, fee, now).1 is Ok,
    ensures
        ({
            let w = pfee_spec(v, fee, now).0;
            let (burn, to_pool, to_dapp) = fee_split(fee);
            &&& w.meta.total_supply + w.meta.total_burned == v.meta.total_supply + v.meta.total_burned
            &&& w.meta.community_pool == v.meta.community_pool + to_pool
            &&& w.dapp_funds == v.dapp_funds + to_dapp
            &&& w.balances == v.balances
        }),
{
}

/// A successful transfer between two different accounts takes the amount
/// from the sender and gives the amount less the fee to the receiver.
pub proof fn law_pool_transfer_moves_amount_less_fee(v: PoolView, caller: Seq<u8>, from_subaccount: Option<Seq<u8>>, to: AccountView, amount: nat, now: u64)
    requires
        ptransfer_spec(v, caller, from_subaccount, to, amount, now).1 is Ok,
        to != (AccountView { owner: caller, subaccount: from_subaccount }),
    ensures
        ({
            let from = AccountView { owner: caller, subaccount: from_subaccount };
            let (w, r) = ptransfer_spec(v, caller, from_subaccount, to, amount, now);
            &&& r == Ok::<u128, LedgerError>(amount as u128)
            &&& pbalance(w, from) == pbalance(v, from) - amount
            &&& pbalance(w, to) == pbalance(v, to) + amount - v.meta.transfer_fee
        }),
{
}

/// A transfer refused for want of fee or balance changes nothing.
pub proof fn law_pool_refused_transfer_changes_nothing(v: PoolView, caller: Seq<u8>, from_subaccount: Option<Seq<u8>>, to: AccountView, amount: nat, now: u64)
    requires
        ({
            let r = ptransfer_spec(v, caller, from_subaccount, to, amount, now).1;
            ||| r == Err::<u128, LedgerError>(LedgerError::InsufficientBalance)
            ||| r == Err::<u128, LedgerError>(LedgerError::InsufficientFee)
        }),
    ensures
        ptransfer_spec(v, caller, from_subaccount, to, amount, now).0 == v,
{
}

/// After an approval, the allowance is the approved amount.
pub proof fn law_pool_approve_then_allowance(v: PoolView, caller: Seq<u8>, from_subaccount: Option<Seq<u8>>, spender: AccountView, amount: u128, now: u64)
    ensures
        pallowance(
            papprove_spec(v, caller, from_subaccount, spender, amount as nat, now).0,
            AccountView { owner: caller, subaccount: from_subaccount },
            spender,
        ) == amount,
{
}

/// A successful transfer-from lowers the allowance by the amount.
pub proof fn law_pool_transfer_from_spends_allowance(v: PoolView, spender: AccountView, from: AccountView, to: AccountView, amount: nat, now: u64)
    requires
        ptransfer_from_spec(v, spender, from, to, amount, now).1 is Ok,
    ensures
        pallowance(ptransfer_from_spec(v, spender, from, to, amount, now).0, from, spender)
            == pallowance(v, from, spender) - amount,
{
}

/// Registration gives the welcome amount out of the community pool, and the
/// same account cannot register twice.
pub proof fn law_pool_register_once(v: PoolView, user: AccountView, now: u64, now2: u64)
    requires
        pregister_spec(v, user, now).1 is Ok,
    ensures
        ({
            let w = pregister_spec(v, user, now).0;
            &&& pbalance(w, user) == pwelcome(v)
            &&& w.meta.community_pool == v.meta.community_pool - pwelcome(v)
            &&& pregister_spec(w, user, now2) == (w, Err::<bool, LedgerError>(LedgerError::AlreadyRegistered))
        }),
{
}

/// A code already in use is refused, and nothing changes.
pub proof fn law_pool_code_in_use_refused(v: PoolView, user: AccountView, code: Seq<char>, now: u64)
    requires
        v.account_by_referral.contains_key(code),
    ensures
        passign_spec(v, user, code, now) == (v, None::<Seq<char>>),
{
}

/// A referee can claim only once: a second claim with any code is refused.
pub proof fn law_pool_claim_once(v: PoolView, code: Seq<char>, code2: Seq<char>, referee: AccountView, now: u64, now2: u64)
    requires
        pclaim_spec(v, code, referee, now).1 is Ok,
    ensures
        ({
            let w = pclaim_spec(v, code, referee, now).0;
            let referrer = v.account_by_referral[code];
            &&& pbalance(w, referrer) == pbalance(v, referrer) + preward(v)
            &&& w.meta.community_pool == v.meta.community_pool - preward(v)
            &&& pclaim_spec(w, code2, referee, now2).1 == Err::<Seq<char>, LedgerError>(LedgerError::InvalidReferral)
        }),
{
}

/// Only the admin sets the fee, and the fee set is the fee read.
pub proof fn law_pool_set_fee(v: PoolView, caller: Seq<u8>, fee: u128, now: u64)
    ensures
        caller == v.admin ==> pset_fee_spec(v, caller, fee, now).0.meta.transfer_fee == fee,
        caller != v.admin ==> pset_fee_spec(v, caller, fee, now) == (v, Err::<(), LedgerError>(LedgerError::Unauthorized)),
{
}

/// A well-formed ledger's log is finite, as `law_pool_log_bounded` asks.
pub proof fn law_pool_wf_logs_finite(l: crate::pool_ledger::PoolLedger)
    requires
        l.wf(),
    ensures
        l@.logs.dom().finite(),
{
    assert(l@.logs.dom() =~= crate::stable::number_table_contents(l.logs).dom());
}

/// A well-formed first ledger holds finitely many balances.
pub proof fn law_pool_wf_balances_finite(l: crate::pool_ledger::PoolLedger)
    requires
        l.wf(),
    ensures
        l@.balances.dom().finite(),
{
    crate::ledger::lemma_keys_injective();
    crate::tables::lemma_decoded_finite(
        crate::stable::byte_table_contents(l.balances),
        crate::ledger::acct_ok(),
        crate::ledger::acct_key(),
        crate::ledger::as_u128(),
    );
}

/// The log never grows past its most entries once within them.
pub proof fn law_pool_log_bounded(v: PoolView, now: u64, t: Seq<char>, d: Seq<char>)
    requires
        v.logs.dom().finite(),
        v.logs.len() <= max_pool_logs(),
    ensures
        plog(v, now, t, d).logs.len() <= max_pool_logs(),
{
    let ts = seconds(now);
    let logs1 = v.logs.insert(ts, crate::ledger::LogView { timestamp: ts, event_type: t, details: d });
    assert(logs1.dom() =~= v.logs.dom().insert(ts));
    if logs1.len() > max_pool_logs() {
        let m = crate::ledger::min_key(logs1);
        assert(logs1.contains_key(ts));
        crate::ledger_laws::lemma_min_exists(logs1.dom());
        assert(logs1.contains_key(m));
        assert(logs1.remove(m).dom() =~= logs1.dom().remove(m));
    }
}

/// The dummy accounts of a run are all different.
pub proof fn law_dummy_accounts_differ(caller: Seq<u8>, ts: u64, i: u32, j: u32)
    requires
        i != j,
    ensures
        dummy_account(caller, ts, i) != dummy_account(caller, ts, j),
{
    let a = dummy_sub(ts, i);
    let b = dummy_sub(ts, j);
    crate::codec::lemma_le_bytes_len(ts as nat, 8);
    crate::codec::lemma_le_bytes_len(i as nat, 4);
    crate::codec::lemma_le_bytes_len(j as nat, 4);
    if a == b {
        assert(a.subrange(8, 12) =~= crate::codec::le_bytes(i as nat, 4));
        assert(b.subrange(8, 12) =~= crate::codec::le_bytes(j as nat, 4));
        crate::codec::lemma_pow256_values();
        crate::codec::lemma_le_roundtrip(i as nat, 4);
        crate::codec::lemma_le_roundtrip(j as nat, 4);
    }
}

/// A run that failed stays failed, and changes nothing more.
pub proof fn law_dummy_failure_is_final(v: PoolView, r: RunView, random: Option<Seq<u8>>, now: u64)
    requires
        r.failure is Some,
    ensures
        dummy_step_spec(v, r, random, now) == (v, r, ActionView::Done(Err(r.failure->0))),
{
}


/// The sum of the balances, the community-pool counter and the dapp funds
/// (the community pool's own balance and its counter are kept apart, so both
/// count).
pub open spec fn pool_holdings(v: PoolView) -> int {
    sum_of_balances(v.balances) + v.meta.community_pool + v.dapp_funds
}

proof fn lemma_pool_move_holdings(v: PoolView, from: AccountView, to: AccountView, amount: u128, now: u64)
    requires
        v.balances.dom().finite(),
        pbalance(v, from) >= amount,
        amount >= v.meta.transfer_fee,
        pmove_spec(v, from, to, amount, now).1 is Ok,
    ensures
        pmove_spec(v, from, to, amount, now).0.balances.dom().finite(),
        pool_holdings(pmove_spec(v, from, to, amount, now).0) - pmove_spec(v, from, to, amount, now).0.meta.total_supply
            == pool_holdings(v) - v.meta.total_supply - fee_remainder(v.meta.transfer_fee),
{
    let fee = v.meta.transfer_fee;
    let fb = pbalance(v, from);
    lemma_sum_after_set(v.balances, from, (fb - amount) as u128);
    let v1 = with_pbalance(v, from, (fb - amount) as u128);
    let tb = pbalance(v1, to);
    lemma_sum_after_set(v1.balances, to, (tb + (amount - fee)) as u128);
}

/// A successful transfer or transfer on allowance lowers the holdings less
/// the total supply by what the fee split leaves over, nothing when the fee
/// is a multiple of ten: the amount moves between balances, and of the fee
/// the burned part leaves the supply and the other parts go to the
/// community-pool counter and the dapp funds.
pub proof fn law_pool_transfers_keep_holdings(
    v: PoolView,
    caller: Seq<u8>,
    from_subaccount: Option<Seq<u8>>,
    spender: AccountView,
    from: AccountView,
    to: AccountView,
    amount: nat,
    now: u64,
)
    requires
        v.balances.dom().finite(),
    ensures
        ptransfer_spec(v, caller, from_subaccount, to, amount, now).1 is Ok ==> ({
            let w = ptransfer_spec(v, caller, from_subaccount, to, amount, now).0;
            &&& w.balances.dom().finite()
            &&& pool_holdings(w) - w.meta.total_supply
                == pool_holdings(v) - v.meta.total_supply - fee_remainder(v.meta.transfer_fee)
            &&& v.meta.transfer_fee % 10 == 0 ==> pool_holdings(w) - w.meta.total_supply
                == pool_holdings(v) - v.meta.total_supply
        }),
        ptransfer_from_spec(v, spender, from, to, amount, now).1 is Ok ==> ({
            let w = ptransfer_from_spec(v, spender, from, to, amount, now).0;
            &&& w.balances.dom().finite()
            &&& pool_holdings(w) - w.meta.total_supply
                == pool_holdings(v) - v.meta.total_supply - fee_remainder(v.meta.transfer_fee)
            &&& v.meta.transfer_fee % 10 == 0 ==> pool_holdings(w) - w.meta.total_supply
                == pool_holdings(v) - v.meta.total_supply
        }),
{
    lemma_fee_remainder_zero(v.meta.transfer_fee);
    if ptransfer_spec(v, caller, from_subaccount, to, amount, now).1 is Ok {
        let f = AccountView { owner: caller, subaccount: from_subaccount };
        lemma_pool_move_holdings(v, f, to, amount as u128, now);
    }
    if ptransfer_from_spec(v, spender, from, to, amount, now).1 is Ok {
        let v1 = PoolView {
            allowances: v.allowances.insert((from, spender), (pallowance(v, from, spender) - amount) as u128),
            ..v
        };
        lemma_pool_move_holdings(v1, from, to, amount as u128, now);
    }
}

} // verus!
