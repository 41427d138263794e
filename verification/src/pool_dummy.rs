//! Filling the first ledger with test data (`add_dummy_data`), one step at a
//! time: the caller's dummy accounts are registered (each draws a referral
//! code from fresh randomness, which the step asks for) and each claims the
//! referral of the one before; then every ordered pair of them approves,
//! transfers from and transfers.
use vstd::prelude::*;
use crate::account::{Account, AccountView, account_ok, sub_view, copy_account};
use crate::codec::{le_bytes, push_le, to_vec};
use crate::ledger::{LedgerError, Nat, TransferArgs, TransferFromArgs};
use crate::pool_ledger::{PoolLedger, PoolView, PoolApproveArgs, plog, pregister_spec, passign_spec,
    pclaim_spec, papprove_spec, ptransfer_from_spec, ptransfer_spec, pregistered_reply, letter_code,
    generate_letter_code};
use crate::text::{decimal, push_decimal, push_str, principal_text};

verus! {

/// How `Debug` prints a ledger error.
pub open spec fn error_name(e: LedgerError) -> Seq<char> {
    match e {
        LedgerError::InsufficientBalance => "InsufficientBalance"@,
        LedgerError::InsufficientFee => "InsufficientFee"@,
        LedgerError::InsufficientPoolFunds => "InsufficientPoolFunds"@,
        LedgerError::InsufficientAllowance => "InsufficientAllowance"@,
        LedgerError::AlreadyRegistered => "AlreadyRegistered"@,
        LedgerError::InvalidReferral => "InvalidReferral"@,
        LedgerError::TransferError => "TransferError"@,
        LedgerError::FeeProcessingError => "FeeProcessingError"@,
        LedgerError::Unauthorized => "Unauthorized"@,
        LedgerError::InvalidAccount => "InvalidAccount"@,
        LedgerError::ArithmeticError => "ArithmeticError"@,
        LedgerError::VestingLocked => "VestingLocked"@,
        LedgerError::AdminRequired => "AdminRequired"@,
    }
}

/// Appends the `Debug` form of a ledger error.
pub fn push_error_name(out: &mut String, e: LedgerError)
    ensures
        final(out)@ == old(out)@ + error_name(e),
{
    match e {
        LedgerError::InsufficientBalance => push_str(out, "InsufficientBalance"),
        LedgerError::InsufficientFee => push_str(out, "InsufficientFee"),
        LedgerError::InsufficientPoolFunds => push_str(out, "InsufficientPoolFunds"),
        LedgerError::InsufficientAllowance => push_str(out, "InsufficientAllowance"),
        LedgerError::AlreadyRegistered => push_str(out, "AlreadyRegistered"),
        LedgerError::InvalidReferral => push_str(out, "InvalidReferral"),
        LedgerError::TransferError => push_str(out, "TransferError"),
        LedgerError::FeeProcessingError => push_str(out, "FeeProcessingError"),
        LedgerError::Unauthorized => push_str(out, "Unauthorized"),
        LedgerError::InvalidAccount => push_str(out, "InvalidAccount"),
        LedgerError::ArithmeticError => push_str(out, "ArithmeticError"),
        LedgerError::VestingLocked => push_str(out, "VestingLocked"),
        LedgerError::AdminRequired => push_str(out, "AdminRequired"),
    }
}

/// The subaccount of the `i`-th dummy account of a run: the run's second
/// (8 bytes, little-endian), then `i` (4 bytes), then zeros.
pub open spec fn dummy_sub(run_timestamp: u64, i: u32) -> Seq<u8> {
    le_bytes(run_timestamp as nat, 8) + le_bytes(i as nat, 4) + Seq::new(20, |k: int| 0u8)
}

pub open spec fn dummy_account(caller: Seq<u8>, run_timestamp: u64, i: u32) -> AccountView {
    AccountView { owner: caller, subaccount: Some(dummy_sub(run_timestamp, i)) }
}

/// The `i`-th dummy account of a run.
pub fn make_dummy_account(caller: &Vec<u8>, run_timestamp: u64, i: u32) -> (r: Account)
    ensures
        r@ == dummy_account(caller@, run_timestamp, i),
{
    let mut bytes: Vec<u8> = Vec::new();
    push_le(&mut bytes, run_timestamp as u128, 8);
    push_le(&mut bytes, i as u128, 4);
    proof {
        crate::codec::lemma_le_bytes_len(run_timestamp as nat, 8);
        crate::codec::lemma_le_bytes_len(i as nat, 4);
    }
    let mut sub = [0u8; 32];
    let mut k: usize = 0;
    while k < 12
        invariant
            k <= 12,
            bytes@.len() == 12,
            forall|j: int| 0 <= j < k ==> sub@[j] == bytes@[j],
            forall|j: int| 12 <= j < 32 ==> sub@[j] == 0,
        decreases 12 - k,
    {
        sub[k] = bytes[k];
        k = k + 1;
    }
    assert(sub@ =~= dummy_sub(run_timestamp, i));
    Account { owner: to_vec(caller.as_slice()), subaccount: Some(sub) }
}

/// A run of `add_dummy_data` under way: its arguments and second, the
/// accounts registered so far, one waiting for a referral code, the stage
/// (0 registering, 1 approving, 2 transferring from, 3 transferring, 4
/// done) and the pair of accounts the stage is at.
#[derive(Clone, Debug)]
pub struct DummyRun {
    pub caller: Vec<u8>,
    pub num_users: u32,
    pub transfer_amount: u128,
    pub approve_amount: u128,
    pub run_timestamp: u64,
    pub users: Vec<Account>,
    pub pending: Option<Account>,
    pub stage: u8,
    pub pair: u64,
    pub failure: Option<LedgerError>,
}

pub struct RunView {
    pub caller: Seq<u8>,
    pub num_users: u32,
    pub transfer_amount: u128,
    pub approve_amount: u128,
    pub run_timestamp: u64,
    pub users: Seq<AccountView>,
    pub pending: Option<AccountView>,
    pub stage: u8,
    pub pair: u64,
    pub failure: Option<LedgerError>,
}

pub open spec fn account_views(l: Seq<Account>) -> Seq<AccountView> {
    l.map_values(|a: Account| a@)
}

pub open spec fn opt_account(a: Option<Account>) -> Option<AccountView> {
    match a {
        Some(x) => Some(x@),
        None => None,
    }
}

impl View for DummyRun {
    type V = RunView;

    open spec fn view(&self) -> RunView {
        RunView {
            caller: self.caller@,
            num_users: self.num_users,
            transfer_amount: self.transfer_amount,
            approve_amount: self.approve_amount,
            run_timestamp: self.run_timestamp,
            users: account_views(self.users@),
            pending: opt_account(self.pending),
            stage: self.stage,
            pair: self.pair,
            failure: self.failure,
        }
    }
}

/// A consistent run: the caller is a principal, every account is valid, no
/// more accounts than asked for, and the pair within the pairs.
pub open spec fn run_ok(r: RunView) -> bool {
    &&& r.caller.len() <= 29
    &&& r.users.len() <= r.num_users
    &&& forall|i: int| 0 <= i < r.users.len() ==> account_ok(#[trigger] r.users[i])
    &&& (r.pending matches Some(p) ==> account_ok(p) && r.users.len() < r.num_users)
    &&& r.pair <= r.users.len() * r.users.len()
}

/// What a step asks of whoever drives the run.
#[derive(Debug)]
pub enum DummyAction {
    /// Call again with fresh random bytes.
    DrawCode,
    /// Call again.
    Next,
    /// The run is over, with this result.
    Done(Result<String, LedgerError>),
}

pub enum ActionView {
    DrawCode,
    Next,
    Done(Result<Seq<char>, LedgerError>),
}

pub open spec fn action_view(a: DummyAction) -> ActionView {
    match a {
        DummyAction::DrawCode => ActionView::DrawCode,
        DummyAction::Next => ActionView::Next,
        DummyAction::Done(Ok(m)) => ActionView::Done(Ok(m@)),
        DummyAction::Done(Err(e)) => ActionView::Done(Err(e)),
    }
}

/// The message of a finished run.
pub open spec fn dummy_summary(r: RunView) -> Seq<char> {
    "Added "@ + decimal(r.num_users as nat) + " dummy users, performed approvals of "@ + decimal(
        r.approve_amount as nat,
    ) + " tokens, transfer-from operations of "@ + decimal(r.transfer_amount as nat)
        + " tokens, and direct transfers of "@ + decimal(r.transfer_amount as nat) + " tokens each."@
}

/// After an account is registered with reply `message`: it joins the run,
/// the registration is logged, and it claims the referral of the account
/// registered before it, if that one has a code.
pub open spec fn user_done_spec(v: PoolView, r: RunView, acc: AccountView, message: Seq<char>, now: u64) -> (PoolView, RunView) {
    let v1 = plog(
        v,
        now,
        "DummyUserRegistered"@,
        "User: "@ + principal_text(acc.owner) + ", Message: "@ + message,
    );
    let r1 = RunView { users: r.users.push(acc), pending: None, ..r };
    if r.users.len() > 0 {
        let prev = r.users.last();
        let code = if v1.referral_by_account.contains_key(prev) {
            v1.referral_by_account[prev]
        } else {
            Seq::empty()
        };
        if code.len() > 0 {
            let (v2, res) = pclaim_spec(v1, code, acc, now);
            let head = "Referrer: "@ + principal_text(prev.owner) + ", Referee: "@ + principal_text(acc.owner);
            match res {
                Ok(m) => (plog(v2, now, "DummyReferralClaimed"@, head + ", Message: "@ + m), r1),
                Err(e) => (plog(v2, now, "DummyReferralClaimFailed"@, head + ", Error: "@ + error_name(e)), r1),
            }
        } else {
            (v1, r1)
        }
    } else {
        (v1, r1)
    }
}

/// The indices of the pair a stage is at: `pair / n` and `pair % n`.
pub open spec fn pair_of(pair: u64, n: nat) -> (int, int) {
    ((pair as int) / (n as int), (pair as int) % (n as int))
}

/// One approval between accounts `i` and `j` of the run.
pub open spec fn approve_step(v: PoolView, r: RunView, i: int, j: int, now: u64) -> PoolView {
    let owner = r.users[i];
    let spender = r.users[j];
    let (v1, res) = papprove_spec(v, r.caller, owner.subaccount, spender, r.approve_amount as nat, now);
    let head = "Owner: "@ + principal_text(owner.owner) + ", Spender: "@ + principal_text(spender.owner)
        + ", Amount: "@ + decimal(r.approve_amount as nat);
    match res {
        Ok(_) => plog(v1, now, "DummyApproval"@, head),
        Err(e) => plog(v1, now, "DummyApprovalFailed"@, head + ", Error: "@ + error_name(e)),
    }
}

/// One transfer-from by account `i` from account `j` to account
/// `(i + j) % n`.
pub open spec fn transfer_from_step(v: PoolView, r: RunView, i: int, j: int, now: u64) -> PoolView {
    let n = r.users.len() as int;
    let spender = r.users[i];
    let from = r.users[j];
    let to = r.users[(i + j) % n];
    let (v1, res) = ptransfer_from_spec(v, spender, from, to, r.transfer_amount as nat, now);
    let head = "Spender: "@ + principal_text(spender.owner) + ", From: "@ + principal_text(from.owner)
        + ", To: "@ + principal_text(to.owner) + ", Amount: "@ + decimal(r.transfer_amount as nat);
    match res {
        Ok(_) => plog(v1, now, "DummyTransferFrom"@, head),
        Err(e) => plog(v1, now, "DummyTransferFromFailed"@, head + ", Error: "@ + error_name(e)),
    }
}

/// One transfer from account `i` to account `j`.
pub open spec fn transfer_step(v: PoolView, r: RunView, i: int, j: int, now: u64) -> PoolView {
    let from = r.users[i];
    let to = r.users[j];
    let (v1, res) = ptransfer_spec(v, r.caller, from.subaccount, to, r.transfer_amount as nat, now);
    let head = "From: "@ + principal_text(from.owner) + ", To: "@ + principal_text(to.owner) + ", Amount: "@
        + decimal(r.transfer_amount as nat);
    match res {
        Ok(_) => plog(v1, now, "DummyTransfer"@, head),
        Err(e) => plog(v1, now, "DummyTransferFailed"@, head + ", Error: "@ + error_name(e)),
    }
}

/// A step of a pair stage: the pair's operation (unless both are the same
/// account), then the next pair; past the last pair, the next stage.
pub open spec fn pair_stage_spec(v: PoolView, r: RunView, now: u64) -> (PoolView, RunView, ActionView) {
    let n = r.users.len();
    if r.pair < n * n {
        let (i, j) = pair_of(r.pair, n);
        let v1 = if i == j {
            v
        } else if r.stage == 1 {
            approve_step(v, r, i, j, now)
        } else if r.stage == 2 {
            transfer_from_step(v, r, i, j, now)
        } else {
            transfer_step(v, r, i, j, now)
        };
        (v1, RunView { pair: (r.pair + 1) as u64, ..r }, ActionView::Next)
    } else {
        (v, RunView { stage: (r.stage + 1) as u8, pair: 0, ..r }, ActionView::Next)
    }
}

/// What a step of `add_dummy_data` does, given random bytes if the last
/// step asked for them.
/// A step that gives the account waiting for a code the drawn code.
pub open spec fn pending_step_spec(v: PoolView, r: RunView, random: Option<Seq<u8>>, now: u64) -> (PoolView, RunView, ActionView) {
    let user = r.pending->0;
    match random {
        None => (v, r, ActionView::DrawCode),
        Some(bytes) => {
            let (v1, o) = passign_spec(v, user, letter_code(bytes), now);
            match o {
                None => (v1, r, ActionView::DrawCode),
                Some(reply) => {
                    let (v2, r2) = user_done_spec(v1, r, user, reply, now);
                    (v2, r2, ActionView::Next)
                },
            }
        },
    }
}

/// A step of the registration stage: the next dummy account registers, or
/// the stage ends.
pub open spec fn register_step_spec(v: PoolView, r: RunView, now: u64) -> (PoolView, RunView, ActionView) {
    if r.users.len() < r.num_users {
        let acc = dummy_account(r.caller, r.run_timestamp, r.users.len() as u32);
        let (v1, res) = pregister_spec(v, acc, now);
        match res {
            Err(e) => (
                plog(
                    v1,
                    now,
                    "DummyUserRegistrationFailed"@,
                    "User: "@ + principal_text(acc.owner) + ", Error: "@ + error_name(e),
                ),
                RunView { failure: Some(e), ..r },
                ActionView::Done(Err(e)),
            ),
            Ok(needs_code) => if needs_code {
                (v1, RunView { pending: Some(acc), ..r }, ActionView::DrawCode)
            } else {
                let (v2, r2) = user_done_spec(v1, r, acc, pregistered_reply(v1), now);
                (v2, r2, ActionView::Next)
            },
        }
    } else {
        (v, RunView { stage: 1, pair: 0, ..r }, ActionView::Next)
    }
}

pub open spec fn dummy_step_spec(v: PoolView, r: RunView, random: Option<Seq<u8>>, now: u64) -> (PoolView, RunView, ActionView) {
    if r.failure is Some {
        (v, r, ActionView::Done(Err(r.failure->0)))
    } else if r.pending is Some {
        pending_step_spec(v, r, random, now)
    } else if r.stage == 0 {
        register_step_spec(v, r, now)
    } else if r.stage <= 3 {
        pair_stage_spec(v, r, now)
    } else {
        (v, r, ActionView::Done(Ok(dummy_summary(r))))
    }
}

/// A new run, at the second `run_timestamp`.
pub open spec fn fresh_run(caller: Seq<u8>, num_users: u32, transfer_amount: u128, approve_amount: u128, run_timestamp: u64) -> RunView {
    RunView {
        caller,
        num_users,
        transfer_amount,
        approve_amount,
        run_timestamp,
        users: Seq::empty(),
        pending: None,
        stage: 0,
        pair: 0,
        failure: None,
    }
}

fn push_account_owner(out: &mut String, label: &str, a: &Account)
    requires
        account_ok(a@),
    ensures
        final(out)@ == old(out)@ + label@ + principal_text(a@.owner),
{
    push_str(out, label);
    crate::ledger::push_principal(out, &a.owner);
}

impl PoolLedger {
    /// Starts `add_dummy_data` for the admin: `Unauthorized` for anyone
    /// else, otherwise a new run at the current second, to be driven by
    /// `dummy_step`.
    pub fn add_dummy_data(&self, caller: &Vec<u8>, num_users: u32, transfer_amount: u128, approve_amount: u128, now: u64) -> (r: Result<DummyRun, LedgerError>)
        requires
            caller@.len() <= 29,
        ensures
            match r {
                Ok(run) => caller@ == self@.admin && run@ == fresh_run(
                    caller@,
                    num_users,
                    transfer_amount,
                    approve_amount,
                    crate::ledger::seconds(now),
                ) && run_ok(run@),
                Err(e) => caller@ != self@.admin && e == LedgerError::Unauthorized,
            },
    {
        if !self.is_admin(caller) {
            return Err(LedgerError::Unauthorized);
        }
        let run = DummyRun {
            caller: to_vec(caller.as_slice()),
            num_users,
            transfer_amount,
            approve_amount,
            run_timestamp: now / 1_000_000_000,
            users: Vec::new(),
            pending: None,
            stage: 0,
            pair: 0,
            failure: None,
        };
        assert(run@.users =~= Seq::<AccountView>::empty());
        Ok(run)
    }

    fn user_done(&mut self, run: &mut DummyRun, acc: Account, message: String, now: u64)
        requires
            old(self).wf(),
            run_ok(old(run)@),
            account_ok(acc@),
            old(run)@.users.len() < old(run)@.num_users,
        ensures
            (final(self)@, final(run)@) == user_done_spec(old(self)@, old(run)@, acc@, message@, now),
            final(self).wf(),
            run_ok(final(run)@),
            final(self)@.meta.transfer_fee == old(self)@.meta.transfer_fee,
    {
        let mut details = String::new();
        push_account_owner(&mut details, "User: ", &acc);
        push_str(&mut details, ", Message: ");
        push_str(&mut details, message.as_str());
        self.log_event("DummyUserRegistered", details, now);
        let n = run.users.len();
        let ghost users0 = run@.users;
        let copy = crate::account::copy_account(&acc);
        run.users.push(copy);
        run.pending = None;
        assert(run@.users =~= users0.push(acc@));
        assert(users0.len() * users0.len() <= (users0.len() + 1) * (users0.len() + 1)) by (nonlinear_arith);
        if n > 0 {
            let prev = crate::account::copy_account(&run.users[n - 1]);
            assert(run.users@[n - 1]@ == users0[n - 1]);
            let code = match self.get_referral_code(&prev) {
                Some(c) => c,
                None => String::new(),
            };
            if !code.as_str().is_empty() {
                let res = self.claim_referral(&code, &acc, now);
                let mut details = String::new();
                push_account_owner(&mut details, "Referrer: ", &prev);
                push_account_owner(&mut details, ", Referee: ", &acc);
                match res {
                    Ok(m) => {
                        push_str(&mut details, ", Message: ");
                        push_str(&mut details, m.as_str());
                        self.log_event("DummyReferralClaimed", details, now);
                    },
                    Err(e) => {
                        push_str(&mut details, ", Error: ");
                        push_error_name(&mut details, e);
                        self.log_event("DummyReferralClaimFailed", details, now);
                    },
                }
            }
        }
    }

    #[verifier::rlimit(40)]
    #[verifier::spinoff_prover]
    fn pair_step(&mut self, run: &mut DummyRun, now: u64) -> (a: DummyAction)
        requires
            old(self).wf(),
            run_ok(old(run)@),
            1 <= old(run)@.stage <= 3,
            old(run)@.pending is None,
            old(run)@.failure is None,
        ensures
            (final(self)@, final(run)@, action_view(a)) == pair_stage_spec(old(self)@, old(run)@, now),
            final(self).wf(),
            run_ok(final(run)@),
            final(self)@.meta.transfer_fee == old(self)@.meta.transfer_fee,
    {
        let n = run.users.len() as u64;
        assert(n * n <= u64::MAX) by (nonlinear_arith)
            requires
                n <= u32::MAX,
        ;
        if run.pair < n * n {
            let q = run.pair / n;
            let rm = run.pair % n;
            assert(q < n) by (nonlinear_arith)
                requires
                    run.pair < n * n,
                    q == run.pair / n,
                    n > 0,
            ;
            let i = q as usize;
            let j = rm as usize;
            let ghost r0 = run@;
            assert(pair_of(run.pair, n as nat) == (i as int, j as int));
            if i != j {
                let a = crate::account::copy_account(&run.users[i]);
                let b = crate::account::copy_account(&run.users[j]);
                assert(run.users@[i as int]@ == r0.users[i as int]);
                assert(run.users@[j as int]@ == r0.users[j as int]);
                if run.stage == 1 {
                    let args = PoolApproveArgs {
                        from_subaccount: a.subaccount,
                        spender: b,
                        amount: Nat::from_u128(run.approve_amount),
                    };
                    let res = self.icrc1_approve(&run.caller, &args, now);
                    let mut details = String::new();
                    push_account_owner(&mut details, "Owner: ", &a);
                    push_account_owner(&mut details, ", Spender: ", &args.spender);
                    push_str(&mut details, ", Amount: ");
                    push_decimal(&mut details, run.approve_amount);
                    match res {
                        Ok(_) => {
                            self.log_event("DummyApproval", details, now);
                        },
                        Err(e) => {
                            push_str(&mut details, ", Error: ");
                            push_error_name(&mut details, e);
                            self.log_event("DummyApprovalFailed", details, now);
                        },
                    }
                } else if run.stage == 2 {
                    let k = ((q + rm) % n) as usize;
                    let c = crate::account::copy_account(&run.users[k]);
                    assert(run.users@[k as int]@ == r0.users[k as int]);
                    let args = TransferFromArgs {
                        spender: a,
                        from: b,
                        to: c,
                        amount: Nat::from_u128(run.transfer_amount),
                    };
                    let res = self.icrc1_transfer_from(&args, now);
                    let mut details = String::new();
                    push_account_owner(&mut details, "Spender: ", &args.spender);
                    push_account_owner(&mut details, ", From: ", &args.from);
                    push_account_owner(&mut details, ", To: ", &args.to);
                    push_str(&mut details, ", Amount: ");
                    push_decimal(&mut details, run.transfer_amount);
                    match res {
                        Ok(_) => {
                            self.log_event("DummyTransferFrom", details, now);
                        },
                        Err(e) => {
                            push_str(&mut details, ", Error: ");
                            push_error_name(&mut details, e);
                            self.log_event("DummyTransferFromFailed", details, now);
                        },
                    }
                } else {
                    let args = TransferArgs {
                        from_subaccount: a.subaccount,
                        to: b,
                        amount: Nat::from_u128(run.transfer_amount),
                    };
                    let res = self.icrc1_transfer(&run.caller, &args, now);
                    let mut details = String::new();
                    push_account_owner(&mut details, "From: ", &a);
                    push_account_owner(&mut details, ", To: ", &args.to);
                    push_str(&mut details, ", Amount: ");
                    push_decimal(&mut details, run.transfer_amount);
                    match res {
                        Ok(_) => {
                            self.log_event("DummyTransfer", details, now);
                        },
                        Err(e) => {
                            push_str(&mut details, ", Error: ");
                            push_error_name(&mut details, e);
                            self.log_event("DummyTransferFailed", details, now);
                        },
                    }
                }
            }
            run.pair = run.pair + 1;
            DummyAction::Next
        } else {
            run.stage = run.stage + 1;
            run.pair = 0;
            DummyAction::Next
        }
    }

    #[verifier::rlimit(40)]
    fn pending_step(&mut self, run: &mut DummyRun, random: Option<Vec<u8>>, now: u64) -> (a: DummyAction)
        requires
            old(self).wf(),
            run_ok(old(run)@),
            old(run)@.pending is Some,
            old(run)@.failure is None,
        ensures
            (final(self)@, final(run)@, action_view(a)) == pending_step_spec(
                old(self)@,
                old(run)@,
                match random {
                    Some(b) => Some(b@),
                    None => None,
                },
                now,
            ),
            final(self).wf(),
            run_ok(final(run)@),
            final(self)@.meta.transfer_fee == old(self)@.meta.transfer_fee,
    {
        let user = match &run.pending {
            Some(u) => crate::account::copy_account(u),
            None => {
                return DummyAction::DrawCode;
            },
        };
        match random {
            None => {
                return DummyAction::DrawCode;
            },
            Some(bytes) => {
                let code = generate_letter_code(bytes.as_slice());
                match self.assign_referral_code(&user, &code, now) {
                    None => {
                        return DummyAction::DrawCode;
                    },
                    Some(reply) => {
                        self.user_done(run, user, reply, now);
                        return DummyAction::Next;
                    },
                }
            },
        }
    }

    fn log_registration_failed(&mut self, acc: &Account, e: LedgerError, now: u64)
        requires
            account_ok(acc@),
        ensures
            final(self)@ == plog(
                old(self)@,
                now,
                "DummyUserRegistrationFailed"@,
                "User: "@ + principal_text(acc@.owner) + ", Error: "@ + error_name(e),
            ),
            old(self).wf() ==> final(self).wf(),
    {
        let mut details = String::new();
        push_account_owner(&mut details, "User: ", acc);
        push_str(&mut details, ", Error: ");
        push_error_name(&mut details, e);
        self.log_event("DummyUserRegistrationFailed", details, now);
    }

    #[verifier::rlimit(40)]
    fn register_step(&mut self, run: &mut DummyRun, now: u64) -> (a: DummyAction)
        requires
            old(self).wf(),
            run_ok(old(run)@),
            old(run)@.pending is None,
            old(run)@.failure is None,
            old(run)@.stage == 0,
        ensures
            (final(self)@, final(run)@, action_view(a)) == register_step_spec(old(self)@, old(run)@, now),
            final(self).wf(),
            run_ok(final(run)@),
            final(self)@.meta.transfer_fee == old(self)@.meta.transfer_fee,
    {
        if (run.users.len() as u32) < run.num_users {
            let i = run.users.len() as u32;
            let acc = make_dummy_account(&run.caller, run.run_timestamp, i);
            match self.register_user(&acc, now) {
                Err(e) => {
                    self.log_registration_failed(&acc, e, now);
                    run.failure = Some(e);
                    return DummyAction::Done(Err(e));
                },
                Ok(needs_code) => {
                    if needs_code {
                        run.pending = Some(acc);
                        return DummyAction::DrawCode;
                    } else {
                        let reply = self.registered_reply();
                        self.user_done(run, acc, reply, now);
                        return DummyAction::Next;
                    }
                },
            }
        } else {
            run.stage = 1;
            run.pair = 0;
            return DummyAction::Next;
        }
    }

    /// One step of `add_dummy_data`: give it the random bytes it asked for
    /// with `DrawCode` (`raw_rand`), call again on `Next`, stop on `Done`.
    pub fn dummy_step(&mut self, run: &mut DummyRun, random: Option<Vec<u8>>, now: u64) -> (a: DummyAction)
        requires
            old(self).wf(),
            run_ok(old(run)@),
        ensures
            (final(self)@, final(run)@, action_view(a)) == dummy_step_spec(
                old(self)@,
                old(run)@,
                match random {
                    Some(b) => Some(b@),
                    None => None,
                },
                now,
            ),
            final(self).wf(),
            run_ok(final(run)@),
            final(self)@.meta.transfer_fee == old(self)@.meta.transfer_fee,
    {
        match run.failure {
            Some(e) => {
                return DummyAction::Done(Err(e));
            },
            None => {},
        }
        if run.pending.is_some() {
            return self.pending_step(run, random, now);
        }
        if run.stage == 0 {
            self.register_step(run, now)
        } else if run.stage <= 3 {
            self.pair_step(run, now)
        } else {
            let mut m = String::new();
            push_str(&mut m, "Added ");
            push_decimal(&mut m, run.num_users as u128);
            push_str(&mut m, " dummy users, performed approvals of ");
            push_decimal(&mut m, run.approve_amount);
            push_str(&mut m, " tokens, transfer-from operations of ");
            push_decimal(&mut m, run.transfer_amount);
            push_str(&mut m, " tokens, and direct transfers of ");
            push_decimal(&mut m, run.transfer_amount);
            push_str(&mut m, " tokens each.");
            DummyAction::Done(Ok(m))
        }
    }
}

} // verus!
