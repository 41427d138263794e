//! The CRNL token ledger (ICRC-1 and ICRC-2): balances, allowances,
//! referrals, the fee split and the logs, kept in stable-memory tables.
//!
//! The pools are accounts of the admin principal, told apart by their
//! subaccounts: the community pool (`[1; 32]`), the team vesting pool
//! (`[2; 32]`), the reserve (`[3; 32]`) and the dapp funds (`[4; 32]`).
use vstd::prelude::*;
use sha2::Digest;
use vstd::utf8::encode_utf8;
use crate::account::{Account, AccountView, account_ok, sub_view, account_key, parse_account,
    lemma_parse_account, lemma_account_key_injective, lemma_account_key_injective1,
    account_key_of, push_account_key, read_account, copy_account, has_subaccount, anonymous};
use crate::codec::{fields, parse_fields, views, encode_fields, decode_fields,
    lemma_fields_roundtrip, fields_fit, to_vec};
use crate::stable::{Regions, ByteTable, NumberTable, byte_table_contents, number_table_contents,
    region, byte_table_new, number_table_new, byte_table_get, byte_table_insert,
    byte_table_contains, number_table_insert, number_table_remove, number_table_len,
    number_table_first_key, number_table_entries, byte_table_entries};
use crate::tables::{decoded, injective_on, lemma_decoded_insert, lemma_decoded_empty,
    u128_of, u64_of, u128_bytes, u64_bytes, string_of, lemma_numbers_roundtrip,
    lemma_string_roundtrip, lemma_encode_utf8_injective, encode_u128, encode_u64,
    decode_u128, decode_u64, decode_string};
use crate::text::{decimal, push_decimal, push_str, principal_text, principal_to_text,
    string_bytes};

verus! {

/// Why a ledger call failed.
#[derive(Clone, Copy, Debug, PartialEq, Eq, Structural)]
pub enum LedgerError {
    InsufficientBalance,
    InsufficientFee,
    InsufficientPoolFunds,
    InsufficientAllowance,
    AlreadyRegistered,
    InvalidReferral,
    TransferError,
    FeeProcessingError,
    Unauthorized,
    InvalidAccount,
    ArithmeticError,
    VestingLocked,
    AdminRequired,
}

// ---------------------------------------------------------------------------
// Amounts
// ---------------------------------------------------------------------------

/// A natural number of any size, as little-endian base-2^32 digits (the
/// digits of a Candid `Nat`).
#[derive(Clone, Debug)]
pub struct Nat {
    pub digits: Vec<u32>,
}

/// The number that little-endian base-2^32 digits stand for.
pub open spec fn digits_value(d: Seq<u32>) -> nat
    decreases d.len(),
{
    if d.len() == 0 {
        0
    } else {
        d[0] as nat + 0x1_0000_0000 * digits_value(d.drop_first())
    }
}

impl View for Nat {
    type V = nat;

    open spec fn view(&self) -> nat {
        digits_value(self.digits@)
    }
}

/// The `n` base-2^32 digits of `x`.
pub open spec fn digits_of(x: nat, n: nat) -> Seq<u32>
    decreases n,
{
    if n == 0 {
        Seq::empty()
    } else {
        seq![(x % 0x1_0000_0000) as u32] + digits_of(x / 0x1_0000_0000, (n - 1) as nat)
    }
}

proof fn lemma_digits_roundtrip(x: nat, n: nat)
    requires
        n <= 4,
        x < pow32(n),
    ensures
        digits_value(digits_of(x, n)) == x,
    decreases n,
{
    if n > 0 {
        assert(digits_of(x, n).drop_first() =~= digits_of(x / 0x1_0000_0000, (n - 1) as nat));
        lemma_digits_roundtrip(x / 0x1_0000_0000, (n - 1) as nat);
    }
}

/// `2^(32 n)`.
pub open spec fn pow32(n: nat) -> nat
    decreases n,
{
    if n == 0 {
        1
    } else {
        0x1_0000_0000 * pow32((n - 1) as nat)
    }
}

proof fn lemma_suffix_value(d: Seq<u32>, i: int)
    requires
        0 <= i <= d.len(),
    ensures
        digits_value(d.subrange(i, d.len() as int)) <= digits_value(d),
    decreases i,
{
    if i > 0 {
        lemma_suffix_value(d, i - 1);
        assert(d.subrange(i - 1, d.len() as int).drop_first() =~= d.subrange(i, d.len() as int));
    } else {
        assert(d.subrange(0, d.len() as int) =~= d);
    }
}

impl Nat {
    /// The natural number `x`.
    pub fn from_u128(x: u128) -> (r: Nat)
        ensures
            r@ == x as nat,
    {
        let mut out: Vec<u32> = Vec::new();
        let mut v: u128 = x;
        let mut i: usize = 0;
        while i < 4
            invariant
                i <= 4,
                out@ + digits_of(v as nat, (4 - i) as nat) == digits_of(x as nat, 4),
            decreases 4 - i,
        {
            let d: u32 = (v % 0x1_0000_0000) as u32;
            let ghost prev = out@;
            out.push(d);
            proof {
                let rest = digits_of((v / 0x1_0000_0000) as nat, (4 - i - 1) as nat);
                assert(digits_of(v as nat, (4 - i) as nat) == seq![d] + rest);
                assert(prev + (seq![d] + rest) =~= prev.push(d) + rest);
            }
            v = v / 0x1_0000_0000;
            i = i + 1;
        }
        proof {
            assert(digits_of(v as nat, 0) =~= Seq::<u32>::empty());
            assert(out@ =~= digits_of(x as nat, 4));
            reveal_with_fuel(pow32, 5);
            lemma_digits_roundtrip(x as nat, 4);
        }
        Nat { digits: out }
    }
}

/// The amount as a `u128`; `ArithmeticError` where it does not fit.
pub fn nat_to_u128(n: &Nat) -> (r: Result<u128, LedgerError>)
    ensures
        match r {
            Ok(v) => v as nat == n@,
            Err(e) => e == LedgerError::ArithmeticError && n@ > u128::MAX,
        },
{
    let d = &n.digits;
    let mut acc: u128 = 0;
    let mut i: usize = d.len();
    assert(d@.subrange(i as int, d@.len() as int) =~= Seq::<u32>::empty());
    while i > 0
        invariant
            i <= d@.len(),
            d@ == n.digits@,
            acc as nat == digits_value(d@.subrange(i as int, d@.len() as int)),
        decreases i,
    {
        let x = d[i - 1];
        proof {
            assert(d@.subrange(i - 1, d@.len() as int).drop_first() =~= d@.subrange(
                i as int,
                d@.len() as int,
            ));
        }
        if acc > (u128::MAX - x as u128) / 0x1_0000_0000 {
            proof {
                assert(acc * 0x1_0000_0000 + x > u128::MAX) by (nonlinear_arith)
                    requires
                        acc > (u128::MAX - x as u128) / 0x1_0000_0000,
                        x <= u32::MAX,
                ;
                lemma_suffix_value(d@, i - 1);
                let t = d@.subrange(i - 1, d@.len() as int);
                assert(t[0] == x);
                assert(digits_value(t) == x + 0x1_0000_0000 * digits_value(t.drop_first()));
                assert(t.drop_first() =~= d@.subrange(i as int, d@.len() as int));
                assert(0x1_0000_0000 * acc == acc * 0x1_0000_0000) by (nonlinear_arith);
                assert(digits_value(t) > u128::MAX);
                assert(digits_value(d@) > u128::MAX);
            }
            return Err(LedgerError::ArithmeticError);
        }
        proof {
            assert(acc * 0x1_0000_0000 + x <= u128::MAX) by (nonlinear_arith)
                requires
                    acc <= (u128::MAX - x as u128) / 0x1_0000_0000,
                    x <= u32::MAX,
            ;
        }
        acc = acc * 0x1_0000_0000 + x as u128;
        i = i - 1;
        proof {
            let t = d@.subrange(i as int, d@.len() as int);
            assert(t[0] == x);
        }
    }
    assert(d@.subrange(0, d@.len() as int) =~= d@);
    Ok(acc)
}

// ---------------------------------------------------------------------------
// State
// ---------------------------------------------------------------------------

/// Token-wide settings and totals.
#[derive(Clone, Debug)]
pub struct Metadata {
    pub name: String,
    pub symbol: String,
    pub decimals: u8,
    pub total_supply: u128,
    pub transfer_fee: u128,
    pub total_burned: u128,
    pub vesting_start_time: u64,
    pub vesting_duration: u64,
}

pub struct MetaView {
    pub name: Seq<char>,
    pub symbol: Seq<char>,
    pub decimals: u8,
    pub total_supply: u128,
    pub transfer_fee: u128,
    pub total_burned: u128,
    pub vesting_start_time: u64,
    pub vesting_duration: u64,
}

impl View for Metadata {
    type V = MetaView;

    open spec fn view(&self) -> MetaView {
        MetaView {
            name: self.name@,
            symbol: self.symbol@,
            decimals: self.decimals,
            total_supply: self.total_supply,
            transfer_fee: self.transfer_fee,
            total_burned: self.total_burned,
            vesting_start_time: self.vesting_start_time,
            vesting_duration: self.vesting_duration,
        }
    }
}

/// One entry of the log.
#[derive(Clone, Debug)]
pub struct LogEntry {
    pub timestamp: u64,
    pub event_type: String,
    pub details: String,
}

pub struct LogView {
    pub timestamp: u64,
    pub event_type: Seq<char>,
    pub details: Seq<char>,
}

impl View for LogEntry {
    type V = LogView;

    open spec fn view(&self) -> LogView {
        LogView { timestamp: self.timestamp, event_type: self.event_type@, details: self.details@ }
    }
}

/// A recorded transfer, transfer-from or approval.
#[derive(Clone, Debug)]
pub struct TransactionEvent {
    pub tx_id: [u8; 32],
    pub timestamp: u64,
    pub event_type: String,
    pub from: Account,
    pub to: Option<Account>,
    pub spender: Option<Account>,
    pub amount: u128,
    pub fee: Option<u128>,
}

pub struct TxView {
    pub tx_id: Seq<u8>,
    pub timestamp: u64,
    pub event_type: Seq<char>,
    pub from: AccountView,
    pub to: Option<AccountView>,
    pub spender: Option<AccountView>,
    pub amount: u128,
    pub fee: Option<u128>,
}

pub open spec fn opt_account_view(a: Option<Account>) -> Option<AccountView> {
    match a {
        Some(x) => Some(x@),
        None => None,
    }
}

impl View for TransactionEvent {
    type V = TxView;

    open spec fn view(&self) -> TxView {
        TxView {
            tx_id: self.tx_id@,
            timestamp: self.timestamp,
            event_type: self.event_type@,
            from: self.from@,
            to: opt_account_view(self.to),
            spender: opt_account_view(self.spender),
            amount: self.amount,
            fee: self.fee,
        }
    }
}

/// The ledger: its settings and its tables.
pub struct Ledger {
    pub admin: Vec<u8>,
    pub metadata: Metadata,
    pub log_counter: u64,
    pub balances: ByteTable,
    pub allowances: ByteTable,
    pub expirations: ByteTable,
    pub referral_by_account: ByteTable,
    pub account_by_referral: ByteTable,
    pub claimed: ByteTable,
    pub logs: NumberTable,
    pub transactions: ByteTable,
    pub settings: ByteTable,
}

/// The ledger as plain values.
pub struct LedgerView {
    pub admin: Seq<u8>,
    pub meta: MetaView,
    pub log_counter: u64,
    pub balances: Map<AccountView, u128>,
    pub allowances: Map<(AccountView, AccountView), u128>,
    pub expirations: Map<(AccountView, AccountView), u64>,
    pub referral_by_account: Map<AccountView, Seq<char>>,
    pub account_by_referral: Map<Seq<char>, AccountView>,
    pub claimed: Set<AccountView>,
    pub logs: Map<u64, LogView>,
    pub transactions: Map<Seq<u8>, TxView>,
    pub saved: Map<Seq<u8>, Seq<u8>>,
}

// Keys and values of the tables.

pub open spec fn acct_ok() -> spec_fn(AccountView) -> bool {
    |a: AccountView| account_ok(a)
}

pub open spec fn acct_key() -> spec_fn(AccountView) -> Seq<u8> {
    |a: AccountView| account_key(a)
}

pub open spec fn pair_ok() -> spec_fn((AccountView, AccountView)) -> bool {
    |p: (AccountView, AccountView)| account_ok(p.0) && account_ok(p.1)
}

/// The key of an allowance: the owner's key, then the spender's.
pub open spec fn pair_key() -> spec_fn((AccountView, AccountView)) -> Seq<u8> {
    |p: (AccountView, AccountView)| account_key(p.0) + account_key(p.1)
}

pub open spec fn code_ok() -> spec_fn(Seq<char>) -> bool {
    |c: Seq<char>| true
}

/// A referral code is stored as its UTF-8 bytes.
pub open spec fn code_key() -> spec_fn(Seq<char>) -> Seq<u8> {
    |c: Seq<char>| encode_utf8(c)
}

pub open spec fn id_ok() -> spec_fn(Seq<u8>) -> bool {
    |k: Seq<u8>| true
}

pub open spec fn id_key() -> spec_fn(Seq<u8>) -> Seq<u8> {
    |k: Seq<u8>| k
}

pub open spec fn as_u128() -> spec_fn(Seq<u8>) -> u128 {
    |b: Seq<u8>| u128_of(b)
}

pub open spec fn as_u64() -> spec_fn(Seq<u8>) -> u64 {
    |b: Seq<u8>| u64_of(b)
}

pub open spec fn as_string() -> spec_fn(Seq<u8>) -> Seq<char> {
    |b: Seq<u8>| string_of(b)
}

pub open spec fn as_account() -> spec_fn(Seq<u8>) -> AccountView {
    |b: Seq<u8>| account_of(b)
}

pub open spec fn as_unit() -> spec_fn(Seq<u8>) -> bool {
    |b: Seq<u8>| true
}

pub open spec fn as_tx() -> spec_fn(Seq<u8>) -> TxView {
    |b: Seq<u8>| tx_of(b)
}

pub open spec fn default_account() -> AccountView {
    AccountView { owner: Seq::empty(), subaccount: None }
}

/// The account whose key `b` is.
pub open spec fn account_of(b: Seq<u8>) -> AccountView {
    match parse_account(b) {
        Some((a, rest)) => a,
        None => default_account(),
    }
}

/// The stored form of a log entry.
pub open spec fn log_bytes(e: LogView) -> Seq<u8> {
    fields(seq![u64_bytes(e.timestamp), encode_utf8(e.event_type), encode_utf8(e.details)])
}

/// The log entry that the bytes `b` hold.
pub open spec fn log_of(b: Seq<u8>) -> LogView {
    match parse_fields(b) {
        Some(l) => if l.len() == 3 {
            LogView { timestamp: u64_of(l[0]), event_type: string_of(l[1]), details: string_of(l[2]) }
        } else {
            LogView { timestamp: 0, event_type: Seq::empty(), details: Seq::empty() }
        },
        None => LogView { timestamp: 0, event_type: Seq::empty(), details: Seq::empty() },
    }
}

/// An optional account: nothing, or the account's key.
pub open spec fn opt_account_bytes(a: Option<AccountView>) -> Seq<u8> {
    match a {
        Some(x) => account_key(x),
        None => Seq::empty(),
    }
}

pub open spec fn opt_account_of(b: Seq<u8>) -> Option<AccountView> {
    if b.len() == 0 {
        None
    } else {
        Some(account_of(b))
    }
}

pub open spec fn opt_u128_bytes(x: Option<u128>) -> Seq<u8> {
    match x {
        Some(v) => u128_bytes(v),
        None => Seq::empty(),
    }
}

pub open spec fn opt_u128_of(b: Seq<u8>) -> Option<u128> {
    if b.len() == 0 {
        None
    } else {
        Some(u128_of(b))
    }
}

/// The first 32 bytes of `b`, zero-padded.
pub open spec fn id32(b: Seq<u8>) -> Seq<u8> {
    Seq::new(32, |i: int| if i < b.len() { b[i] } else { 0u8 })
}

/// The stored form of a transaction.
pub open spec fn tx_bytes(t: TxView) -> Seq<u8> {
    fields(
        seq![
            t.tx_id,
            u64_bytes(t.timestamp),
            encode_utf8(t.event_type),
            account_key(t.from),
            opt_account_bytes(t.to),
            opt_account_bytes(t.spender),
            u128_bytes(t.amount),
            opt_u128_bytes(t.fee),
        ],
    )
}

pub open spec fn default_tx() -> TxView {
    TxView {
        tx_id: id32(Seq::empty()),
        timestamp: 0,
        event_type: Seq::empty(),
        from: default_account(),
        to: None,
        spender: None,
        amount: 0,
        fee: None,
    }
}

/// The transaction that the bytes `b` hold.
pub open spec fn tx_of(b: Seq<u8>) -> TxView {
    match parse_fields(b) {
        Some(l) => if l.len() == 8 {
            TxView {
                tx_id: id32(l[0]),
                timestamp: u64_of(l[1]),
                event_type: string_of(l[2]),
                from: account_of(l[3]),
                to: opt_account_of(l[4]),
                spender: opt_account_of(l[5]),
                amount: u128_of(l[6]),
                fee: opt_u128_of(l[7]),
            }
        } else {
            default_tx()
        },
        None => default_tx(),
    }
}

pub open spec fn logs_view(raw: Map<u64, Seq<u8>>) -> Map<u64, LogView> {
    Map::new(|k: u64| raw.contains_key(k), |k: u64| log_of(raw[k]))
}

impl View for Ledger {
    type V = LedgerView;

    open spec fn view(&self) -> LedgerView {
        LedgerView {
            admin: self.admin@,
            meta: self.metadata@,
            log_counter: self.log_counter,
            balances: decoded(byte_table_contents(self.balances), acct_ok(), acct_key(), as_u128()),
            allowances: decoded(
                byte_table_contents(self.allowances),
                pair_ok(),
                pair_key(),
                as_u128(),
            ),
            expirations: decoded(
                byte_table_contents(self.expirations),
                pair_ok(),
                pair_key(),
                as_u64(),
            ),
            referral_by_account: decoded(
                byte_table_contents(self.referral_by_account),
                acct_ok(),
                acct_key(),
                as_string(),
            ),
            account_by_referral: decoded(
                byte_table_contents(self.account_by_referral),
                code_ok(),
                code_key(),
                as_account(),
            ),
            claimed: decoded(
                byte_table_contents(self.claimed),
                acct_ok(),
                acct_key(),
                as_unit(),
            ).dom(),
            logs: logs_view(number_table_contents(self.logs)),
            transactions: decoded(
                byte_table_contents(self.transactions),
                id_ok(),
                id_key(),
                as_tx(),
            ),
            saved: byte_table_contents(self.settings),
        }
    }
}

// ---------------------------------------------------------------------------
// Facts about keys and stored forms
// ---------------------------------------------------------------------------

pub proof fn lemma_keys_injective()
    ensures
        injective_on(acct_ok(), acct_key()),
        injective_on(pair_ok(), pair_key()),
        injective_on(code_ok(), code_key()),
        injective_on(id_ok(), id_key()),
{
    assert forall|a: AccountView, b: AccountView|
        acct_ok()(a) && acct_ok()(b) && #[trigger] acct_key()(a) == #[trigger] acct_key()(
            b,
        ) implies a == b by {
        lemma_account_key_injective1(a, b);
    }
    assert forall|a: (AccountView, AccountView), b: (AccountView, AccountView)|
        pair_ok()(a) && pair_ok()(b) && #[trigger] pair_key()(a) == #[trigger] pair_key()(
            b,
        ) implies a == b by {
        lemma_account_key_injective(a.0, b.0, account_key(a.1), account_key(b.1));
        lemma_account_key_injective1(a.1, b.1);
    }
    assert forall|a: Seq<char>, b: Seq<char>|
        code_ok()(a) && code_ok()(b) && #[trigger] code_key()(a) == #[trigger] code_key()(
            b,
        ) implies a == b by {
        lemma_encode_utf8_injective(a, b);
    }
}

pub proof fn lemma_account_roundtrip(a: AccountView)
    requires
        account_ok(a),
    ensures
        account_of(account_key(a)) == a,
{
    assert(account_key(a) + Seq::<u8>::empty() =~= account_key(a));
    lemma_parse_account(a, Seq::empty());
}

pub proof fn lemma_log_roundtrip(e: LogView)
    requires
        encode_utf8(e.event_type).len() < 0x1_0000_0000_0000_0000,
        encode_utf8(e.details).len() < 0x1_0000_0000_0000_0000,
    ensures
        log_of(log_bytes(e)) == e,
{
    let l = seq![u64_bytes(e.timestamp), encode_utf8(e.event_type), encode_utf8(e.details)];
    lemma_numbers_roundtrip(0, e.timestamp, 0);
    assert(fields_fit(l));
    lemma_fields_roundtrip(l);
    lemma_string_roundtrip(e.event_type);
    lemma_string_roundtrip(e.details);
}

pub proof fn lemma_tx_roundtrip(t: TxView)
    requires
        encode_utf8(t.event_type).len() < 0x1_0000_0000_0000_0000,
        t.tx_id.len() == 32,
        account_ok(t.from),
        t.to matches Some(a) ==> account_ok(a),
        t.spender matches Some(a) ==> account_ok(a),
    ensures
        tx_of(tx_bytes(t)) == t,
{
    let l = seq![
        t.tx_id,
        u64_bytes(t.timestamp),
        encode_utf8(t.event_type),
        account_key(t.from),
        opt_account_bytes(t.to),
        opt_account_bytes(t.spender),
        u128_bytes(t.amount),
        opt_u128_bytes(t.fee),
    ];
    lemma_numbers_roundtrip(t.amount, t.timestamp, 0);
    match t.fee {
        Some(f) => {
            lemma_numbers_roundtrip(f, 0, 0);
        },
        None => {},
    }
    lemma_account_roundtrip(t.from);
    match t.to {
        Some(a) => {
            lemma_account_roundtrip(a);
        },
        None => {},
    }
    match t.spender {
        Some(a) => {
            lemma_account_roundtrip(a);
        },
        None => {},
    }
    assert(fields_fit(l));
    lemma_fields_roundtrip(l);
    lemma_string_roundtrip(t.event_type);
    assert(id32(t.tx_id) =~= t.tx_id);
}

// ---------------------------------------------------------------------------
// Plain-value helpers
// ---------------------------------------------------------------------------

/// The balance of `a`: what is stored, or 0.
pub open spec fn balance_of(v: LedgerView, a: AccountView) -> u128 {
    if v.balances.contains_key(a) {
        v.balances[a]
    } else {
        0
    }
}

/// The pool account of the admin with subaccount `[tag; 32]`.
pub open spec fn pool(admin: Seq<u8>, tag: u8) -> AccountView {
    AccountView { owner: admin, subaccount: Some(Seq::new(32, |i: int| tag)) }
}

pub open spec fn community_pool(v: LedgerView) -> AccountView {
    pool(v.admin, 1)
}

pub open spec fn team_pool(v: LedgerView) -> AccountView {
    pool(v.admin, 2)
}

pub open spec fn reserve_pool(v: LedgerView) -> AccountView {
    pool(v.admin, 3)
}

pub open spec fn dapp_pool(v: LedgerView) -> AccountView {
    pool(v.admin, 4)
}

/// The ledger with the balance of `a` set to `x`.
pub open spec fn with_balance(v: LedgerView, a: AccountView, x: u128) -> LedgerView {
    LedgerView { balances: v.balances.insert(a, x), ..v }
}

/// Seconds since the epoch, from nanoseconds.
pub open spec fn seconds(now_nanos: u64) -> u64 {
    (now_nanos / 1_000_000_000) as u64
}

/// The least key of a map of log entries.
pub open spec fn min_key(m: Map<u64, LogView>) -> u64 {
    choose|k: u64| m.contains_key(k) && forall|j: u64| #[trigger] m.contains_key(j) ==> k <= j
}

/// The most log entries kept.
pub open spec fn max_logs() -> nat {
    100_000
}

/// The ledger after `log_event`: the entry goes in under the time plus the
/// counter, the counter goes up by one, and past the most entries kept the
/// oldest key goes.
pub open spec fn log_spec(v: LedgerView, now: u64, event_type: Seq<char>, details: Seq<char>) -> LedgerView {
    let key = (now + v.log_counter) as u64;
    let logs1 = v.logs.insert(key, LogView { timestamp: now, event_type, details });
    let logs2 = if logs1.len() > max_logs() {
        logs1.remove(min_key(logs1))
    } else {
        logs1
    };
    LedgerView { logs: logs2, log_counter: (v.log_counter + 1) as u64, ..v }
}

/// Room for `n` more log entries at time `now` without overflow.
pub open spec fn log_room(v: LedgerView, now: u64, n: nat) -> bool {
    v.log_counter + n <= u64::MAX && now + v.log_counter + n <= u64::MAX
}

impl Ledger {
    /// The ledger's invariant: the admin is a principal, amounts of
    /// `200 * 10^decimals` fit, the end of vesting is a time, the log is
    /// finite, and each transaction is stored under its id.
    pub open spec fn wf(&self) -> bool {
        &&& self.admin@.len() <= 29
        &&& self.metadata.decimals <= 30
        &&& self.metadata.vesting_start_time + self.metadata.vesting_duration <= u64::MAX
        &&& number_table_contents(self.logs).dom().finite()
        &&& byte_table_contents(self.balances).dom().finite()
        &&& forall|k: Seq<u8>| #[trigger]
            self@.transactions.contains_key(k) ==> self@.transactions[k].tx_id == k
    }

    /// The balance of `a`: what is stored, or 0.
    pub fn balance(&self, a: &Account) -> (r: u128)
        requires
            account_ok(a@),
        ensures
            r == balance_of(self@, a@),
    {
        let key = account_key_of(a);
        match byte_table_get(&self.balances, &key) {
            Some(b) => decode_u128(b.as_slice()),
            None => 0,
        }
    }

    /// Sets the balance of `a` to `x`.
    pub fn set_balance(&mut self, a: &Account, x: u128)
        requires
            account_ok(a@),
        ensures
            final(self)@ == with_balance(old(self)@, a@, x),
            final(self).wf() == old(self).wf(),
    {
        let key = account_key_of(a);
        let val = encode_u128(x);
        byte_table_insert(&mut self.balances, key, val);
        proof {
            lemma_keys_injective();
            lemma_numbers_roundtrip(x, 0, 0);
            lemma_decoded_insert(
                byte_table_contents(old(self).balances),
                acct_ok(),
                acct_key(),
                as_u128(),
                a@,
                u128_bytes(x),
            );
            assert(self@.balances =~= old(self)@.balances.insert(a@, x));
            vstd::set_lib::lemma_set_insert_finite_iff(
                byte_table_contents(old(self).balances).dom(),
                account_key(a@),
            );
            assert(byte_table_contents(self.balances).dom()
                =~= byte_table_contents(old(self).balances).dom().insert(account_key(a@)));
        }
    }

    /// The pool account with subaccount `[tag; 32]`.
    pub fn pool_account(&self, tag: u8) -> (r: Account)
        requires
            self.wf(),
        ensures
            r@ == pool(self@.admin, tag),
            account_ok(r@),
    {
        let sub: [u8; 32] = [tag; 32];
        let r = Account { owner: to_vec(self.admin.as_slice()), subaccount: Some(sub) };
        assert(sub@ =~= Seq::new(32, |i: int| tag));
        r
    }

    /// Adds an entry to the log (`log_event`).
    pub fn log_event(&mut self, event_type: &str, details: String, now: u64)
        requires
            log_room(old(self)@, now, 1),
        ensures
            final(self)@ == log_spec(old(self)@, now, event_type@, details@),
            old(self).wf() ==> final(self).wf(),
    {
        let counter = self.log_counter;
        self.log_counter = counter + 1;
        let key = now + counter;
        let et = string_bytes(event_type);
        let dt = string_bytes(details.as_str());
        let et_len = et.len();
        let dt_len = dt.len();
        let mut parts: Vec<Vec<u8>> = Vec::new();
        parts.push(encode_u64(now));
        parts.push(et);
        parts.push(dt);
        let bytes = encode_fields(&parts);
        let ghost entry = LogView { timestamp: now, event_type: event_type@, details: details@ };
        proof {
            assert(views(parts@) =~= seq![
                u64_bytes(now),
                encode_utf8(event_type@),
                encode_utf8(details@),
            ]);
            assert(encode_utf8(event_type@).len() == parts@[1]@.len());
            assert(encode_utf8(details@).len() == parts@[2]@.len());
            lemma_log_roundtrip(entry);
        }
        let ghost raw0 = number_table_contents(self.logs);
        number_table_insert(&mut self.logs, key, bytes);
        let ghost logs1 = old(self)@.logs.insert(key, entry);
        assert(logs_view(number_table_contents(self.logs)) =~= logs1);
        let n = number_table_len(&self.logs);
        assert(number_table_contents(self.logs).dom() =~= logs1.dom());
        if n > 100_000 {
            match number_table_first_key(&self.logs) {
                Some(first) => {
                    proof {
                        let m = min_key(logs1);
                        assert(logs1.contains_key(first) && forall|j: u64|
                            #[trigger] logs1.contains_key(j) ==> first <= j);
                        assert(m == first);
                    }
                    let ghost raw1 = number_table_contents(self.logs);
                    number_table_remove(&mut self.logs, first);
                    assert(logs_view(number_table_contents(self.logs)) =~= logs1.remove(first));
                },
                None => {
                    assert(logs1.contains_key(key));
                    assert(number_table_contents(self.logs).dom().contains(key));
                },
            }
        }
    }
}


// ---------------------------------------------------------------------------
// The fee
// ---------------------------------------------------------------------------

/// The parts of a fee: burned (20%), to the community pool (10%), to the dapp
/// funds (70%), each rounded down.
pub open spec fn fee_split(fee: u128) -> (u128, u128, u128) {
    ((fee * 20 / 100) as u128, (fee * 10 / 100) as u128, (fee * 70 / 100) as u128)
}

/// `pct` percent of `x`, rounded down, computed without overflow: the
/// hundreds of `x` times `pct`, plus the rest's share.
pub fn percent_of(x: u128, pct: u128) -> (r: u128)
    requires
        pct <= 100,
    ensures
        r == x * pct / 100,
{
    let q = x / 100;
    let rest = x % 100;
    proof {
        assert(x == 100 * q + rest && rest < 100) by (nonlinear_arith)
            requires
                q == x / 100,
                rest == x % 100,
        ;
        assert(q * pct <= x) by (nonlinear_arith)
            requires
                x == 100 * q + rest,
                pct <= 100,
                q >= 0,
                rest >= 0,
        ;
        assert(rest * pct / 100 < 100) by (nonlinear_arith)
            requires
                rest < 100,
                pct <= 100,
                rest >= 0,
        ;
        let a: int = rest * pct;
        assert(a == (a / 100) * 100 + a % 100 && 0 <= a % 100 < 100) by {
            vstd::arithmetic::div_mod::lemma_fundamental_div_mod(a, 100);
        }
        assert(x * pct == (q * pct + a / 100) * 100 + a % 100) by (nonlinear_arith)
            requires
                x == 100 * q + rest,
                a == rest * pct,
                a == (a / 100) * 100 + a % 100,
        ;
        vstd::arithmetic::div_mod::lemma_fundamental_div_mod_converse_div(x * pct, 100, q * pct + a / 100, a % 100);
        assert(q * pct + rest * pct / 100 <= x * pct / 100);
        assert(x * pct / 100 <= x) by (nonlinear_arith)
            requires
                pct <= 100,
                x >= 0,
        ;
    }
    q * pct + rest * pct / 100
}

/// What `process_fee` does: burn the first part (total supply down, total
/// burned up), credit the community pool and then the dapp funds; it stops at
/// the first overflow with `ArithmeticError`, keeping what it did before.
pub open spec fn process_fee_spec(v: LedgerView, fee: u128) -> (LedgerView, Result<(), LedgerError>) {
    let (burn, to_pool, to_dapp) = fee_split(fee);
    if v.meta.total_supply < burn || v.meta.total_burned + burn > u128::MAX {
        (v, Err(LedgerError::ArithmeticError))
    } else {
        let v1 = LedgerView {
            meta: MetaView {
                total_supply: (v.meta.total_supply - burn) as u128,
                total_burned: (v.meta.total_burned + burn) as u128,
                ..v.meta
            },
            ..v
        };
        let c = community_pool(v);
        let cb = balance_of(v1, c);
        if cb + to_pool > u128::MAX {
            (v1, Err(LedgerError::ArithmeticError))
        } else {
            let v2 = with_balance(v1, c, (cb + to_pool) as u128);
            let d = dapp_pool(v);
            let db = balance_of(v2, d);
            if db + to_dapp > u128::MAX {
                (v2, Err(LedgerError::ArithmeticError))
            } else {
                (with_balance(v2, d, (db + to_dapp) as u128), Ok(()))
            }
        }
    }
}

impl Ledger {
    /// Splits a fee: burns a fifth, and credits the community pool and the
    /// dapp funds (`process_fee`).
    pub fn process_fee(&mut self, fee: u128) -> (r: Result<(), LedgerError>)
        requires
            old(self).wf(),
        ensures
            (final(self)@, r) == process_fee_spec(old(self)@, fee),
            final(self).wf(),
    {
        let burn = percent_of(fee, 20);
        let to_pool = percent_of(fee, 10);
        let to_dapp = percent_of(fee, 70);
        if self.metadata.total_supply < burn {
            return Err(LedgerError::ArithmeticError);
        }
        if self.metadata.total_burned > u128::MAX - burn {
            return Err(LedgerError::ArithmeticError);
        }
        self.metadata.total_supply = self.metadata.total_supply - burn;
        self.metadata.total_burned = self.metadata.total_burned + burn;
        let ghost v1 = self@;
        let community = self.pool_account(1);
        let current = self.balance(&community);
        if current > u128::MAX - to_pool {
            return Err(LedgerError::ArithmeticError);
        }
        self.set_balance(&community, current + to_pool);
        let dapp = self.pool_account(4);
        let current = self.balance(&dapp);
        if current > u128::MAX - to_dapp {
            return Err(LedgerError::ArithmeticError);
        }
        self.set_balance(&dapp, current + to_dapp);
        Ok(())
    }
}


// ---------------------------------------------------------------------------
// Initialization
// ---------------------------------------------------------------------------

/// The text of the `Init` log entry.
pub open spec fn init_details(total_supply: u128, transfer_fee: u128, admin: Seq<u8>) -> Seq<char> {
    "Canister initialized with total supply: "@ + decimal(total_supply as nat) + ", transfer fee: "@
        + decimal(transfer_fee as nat) + ", admin: "@ + principal_text(admin)
}

/// The ledger before the `Init` entry is logged.
pub open spec fn init_state(
    name: Seq<char>,
    symbol: Seq<char>,
    total_supply: u128,
    vesting_duration: u64,
    transfer_fee: u128,
    admin: Seq<u8>,
    now: u64,
) -> LedgerView {
    LedgerView {
        admin,
        meta: MetaView {
            name,
            symbol,
            decimals: 8,
            total_supply,
            transfer_fee,
            total_burned: 0,
            vesting_start_time: seconds(now),
            vesting_duration,
        },
        log_counter: 0,
        balances: Map::<AccountView, u128>::empty().insert(
            pool(admin, 1),
            (total_supply * 50 / 100) as u128,
        ).insert(pool(admin, 2), (total_supply * 20 / 100) as u128).insert(
            pool(admin, 3),
            (total_supply * 30 / 100) as u128,
        ).insert(pool(admin, 4), 0),
        allowances: Map::empty(),
        expirations: Map::empty(),
        referral_by_account: Map::empty(),
        account_by_referral: Map::empty(),
        claimed: Set::empty(),
        logs: Map::empty(),
        transactions: Map::empty(),
        saved: Map::empty(),
    }
}

fn init_text(total_supply: u128, transfer_fee: u128, admin: &Vec<u8>) -> (r: String)
    requires
        admin@.len() <= 29,
    ensures
        r@ == init_details(total_supply, transfer_fee, admin@),
{
    let mut s = String::new();
    push_str(&mut s, "Canister initialized with total supply: ");
    push_decimal(&mut s, total_supply);
    push_str(&mut s, ", transfer fee: ");
    push_decimal(&mut s, transfer_fee);
    push_str(&mut s, ", admin: ");
    let t = principal_to_text(admin.as_slice());
    push_str(&mut s, t.as_str());
    assert(s@ =~= init_details(total_supply, transfer_fee, admin@));
    s
}

impl Ledger {
    /// A new ledger (`init`): the admin, the token's settings, the pools
    /// funded with 50%, 20% and 30% of the supply, the dapp funds empty, and an
    /// `Init` entry in the log.
    pub fn init(
        regions: Regions,
        name: String,
        symbol: String,
        total_supply: u128,
        vesting_duration: u64,
        transfer_fee: u128,
        admin: Vec<u8>,
        now: u64,
    ) -> (r: Ledger)
        requires
            admin@.len() <= 29,
            seconds(now) + vesting_duration <= u64::MAX,
            now < u64::MAX,
        ensures
            r.wf(),
            r@ == log_spec(
                init_state(
                    name@,
                    symbol@,
                    total_supply,
                    vesting_duration,
                    transfer_fee,
                    admin@,
                    now,
                ),
                now,
                "Init"@,
                init_details(total_supply, transfer_fee, admin@),
            ),
    {
        let ghost name_v = name@;
        let ghost symbol_v = symbol@;
        let mut ledger = Ledger {
            admin,
            metadata: Metadata {
                name,
                symbol,
                decimals: 8,
                total_supply,
                transfer_fee,
                total_burned: 0,
                vesting_start_time: now / 1_000_000_000,
                vesting_duration,
            },
            log_counter: 0,
            balances: byte_table_new(region(&regions, 2)),
            allowances: byte_table_new(region(&regions, 3)),
            expirations: byte_table_new(region(&regions, 4)),
            referral_by_account: byte_table_new(region(&regions, 5)),
            account_by_referral: byte_table_new(region(&regions, 6)),
            claimed: byte_table_new(region(&regions, 7)),
            logs: number_table_new(region(&regions, 8)),
            transactions: byte_table_new(region(&regions, 9)),
            settings: byte_table_new(region(&regions, 1)),
        };
        proof {
            lemma_decoded_empty(acct_ok(), acct_key(), as_u128());
            lemma_decoded_empty(pair_ok(), pair_key(), as_u128());
            lemma_decoded_empty(pair_ok(), pair_key(), as_u64());
            lemma_decoded_empty(acct_ok(), acct_key(), as_string());
            lemma_decoded_empty(code_ok(), code_key(), as_account());
            lemma_decoded_empty(acct_ok(), acct_key(), as_unit());
            lemma_decoded_empty(id_ok(), id_key(), as_tx());
            assert(logs_view(number_table_contents(ledger.logs)) =~= Map::<u64, LogView>::empty());
            assert(Map::<AccountView, bool>::empty().dom() =~= Set::<AccountView>::empty());
        }
        let community = ledger.pool_account(1);
        let team = ledger.pool_account(2);
        let reserve = ledger.pool_account(3);
        let dapp = ledger.pool_account(4);
        ledger.set_balance(&community, percent_of(total_supply, 50));
        ledger.set_balance(&team, percent_of(total_supply, 20));
        ledger.set_balance(&reserve, percent_of(total_supply, 30));
        ledger.set_balance(&dapp, 0);
        let details = init_text(total_supply, transfer_fee, &ledger.admin);
        assert(ledger@ == init_state(
            name_v,
            symbol_v,
            total_supply,
            vesting_duration,
            transfer_fee,
            ledger.admin@,
            now,
        ));
        ledger.log_event("Init", details, now);
        ledger
    }
}

// ---------------------------------------------------------------------------
// Transaction ids
// ---------------------------------------------------------------------------

/// The SHA-256 digest of `data`.
pub uninterp spec fn sha256_digest(data: Seq<u8>) -> Seq<u8>;

/// `sha2::Sha256::digest`: the digest of `data`, named, not stated.
#[verifier::external_body]
fn sha256(data: &[u8]) -> (r: [u8; 32])
    ensures
        r@ == sha256_digest(data@),
{
    sha2::Sha256::digest(data).into()
}

/// A transaction id (`generate_tx_id`): the SHA-256 digest of the time in
/// nanoseconds (eight little-endian bytes) followed by the random bytes.
pub fn generate_tx_id(now: u64, random_bytes: &[u8]) -> (r: [u8; 32])
    ensures
        r@ == sha256_digest(u64_bytes(now) + random_bytes@),
{
    let mut data = encode_u64(now);
    crate::codec::extend(&mut data, random_bytes);
    sha256(data.as_slice())
}


// ---------------------------------------------------------------------------
// Transfers
// ---------------------------------------------------------------------------

/// Arguments of `icrc1_transfer`.
#[derive(Clone, Debug)]
pub struct TransferArgs {
    pub from_subaccount: Option<[u8; 32]>,
    pub to: Account,
    pub amount: Nat,
}

/// Arguments of `icrc1_approve`.
#[derive(Clone, Debug)]
pub struct ApproveArgs {
    pub from_subaccount: Option<[u8; 32]>,
    pub spender: Account,
    pub amount: Nat,
    pub expires_at: Option<u64>,
}

/// Arguments of `icrc1_transfer_from`.
#[derive(Clone, Debug)]
pub struct TransferFromArgs {
    pub spender: Account,
    pub from: Account,
    pub to: Account,
    pub amount: Nat,
}

/// The subaccount of the team vesting pool.
pub open spec fn team_subaccount() -> Seq<u8> {
    Seq::new(32, |i: int| 2u8)
}

/// Tokens of an account with the team vesting subaccount are locked until the
/// end of vesting.
pub open spec fn vesting_locked(v: LedgerView, a: AccountView, now_secs: u64) -> bool {
    a.subaccount == Some(team_subaccount()) && now_secs < v.meta.vesting_start_time
        + v.meta.vesting_duration
}

/// Moves `amount` out of `from` and `amount - fee` into `to`, then splits the
/// fee; the checks and the order of effects of `icrc1_transfer` and
/// `icrc1_transfer_from` once the amount is known.
pub open spec fn move_spec(v: LedgerView, from: AccountView, to: AccountView, amount: u128) -> (LedgerView, Result<u128, LedgerError>) {
    let fee = v.meta.transfer_fee;
    let fb = balance_of(v, from);
    let v1 = with_balance(v, from, (fb - amount) as u128);
    let tb = balance_of(v1, to);
    if tb + (amount - fee) > u128::MAX {
        (v1, Err(LedgerError::ArithmeticError))
    } else {
        let v2 = with_balance(v1, to, (tb + (amount - fee)) as u128);
        let (v3, r) = process_fee_spec(v2, fee);
        match r {
            Ok(_) => (v3, Ok(amount)),
            Err(e) => (v3, Err(e)),
        }
    }
}

/// What `icrc1_transfer` does, up to recording the transaction.
pub open spec fn transfer_spec(
    v: LedgerView,
    caller: Seq<u8>,
    from_subaccount: Option<Seq<u8>>,
    to: AccountView,
    amount: nat,
    now_secs: u64,
) -> (LedgerView, Result<u128, LedgerError>) {
    let from = AccountView { owner: caller, subaccount: from_subaccount };
    let fee = v.meta.transfer_fee;
    if vesting_locked(v, from, now_secs) {
        (v, Err(LedgerError::VestingLocked))
    } else if amount > u128::MAX {
        (v, Err(LedgerError::ArithmeticError))
    } else if amount == u128::MAX {
        (v, Err(LedgerError::ArithmeticError))
    } else if amount < fee {
        (v, Err(LedgerError::InsufficientFee))
    } else if balance_of(v, from) < amount {
        (v, Err(LedgerError::InsufficientBalance))
    } else {
        move_spec(v, from, to, amount as u128)
    }
}

/// What `icrc1_approve` does: the allowance (and its expiry, when given) of
/// the spender over the caller's account, and an `Approval` entry under the
/// all-zero transaction id.
pub open spec fn approve_spec(
    v: LedgerView,
    caller: Seq<u8>,
    from_subaccount: Option<Seq<u8>>,
    spender: AccountView,
    amount: nat,
    expires_at: Option<u64>,
    now_secs: u64,
) -> (LedgerView, Result<u128, LedgerError>) {
    let owner = AccountView { owner: caller, subaccount: from_subaccount };
    if amount > u128::MAX {
        (v, Err(LedgerError::ArithmeticError))
    } else {
        let expirations = match expires_at {
            Some(e) => v.expirations.insert((owner, spender), e),
            None => v.expirations,
        };
        let zero = Seq::new(32, |i: int| 0u8);
        let event = TxView {
            tx_id: zero,
            timestamp: now_secs,
            event_type: "Approval"@,
            from: owner,
            to: None,
            spender: Some(spender),
            amount: amount as u128,
            fee: None,
        };
        (
            LedgerView {
                expirations,
                allowances: v.allowances.insert((owner, spender), amount as u128),
                transactions: v.transactions.insert(zero, event),
                ..v
            },
            Ok(amount as u128),
        )
    }
}

/// The allowance of `spender` over `owner`: what is stored, or 0.
pub open spec fn allowance_of(v: LedgerView, owner: AccountView, spender: AccountView) -> u128 {
    if v.allowances.contains_key((owner, spender)) {
        v.allowances[(owner, spender)]
    } else {
        0
    }
}

/// The allowance has an expiry that is past.
pub open spec fn allowance_expired(v: LedgerView, owner: AccountView, spender: AccountView, now_secs: u64) -> bool {
    v.expirations.contains_key((owner, spender)) && now_secs > v.expirations[(owner, spender)]
}

/// What `icrc1_transfer_from` does, up to recording the transaction.
pub open spec fn transfer_from_spec(
    v: LedgerView,
    caller: Seq<u8>,
    spender: AccountView,
    from: AccountView,
    to: AccountView,
    amount: nat,
    now_secs: u64,
) -> (LedgerView, Result<u128, LedgerError>) {
    let fee = v.meta.transfer_fee;
    if caller != spender.owner {
        (v, Err(LedgerError::Unauthorized))
    } else if vesting_locked(v, from, now_secs) {
        (v, Err(LedgerError::VestingLocked))
    } else if amount > u128::MAX {
        (v, Err(LedgerError::ArithmeticError))
    } else if amount == u128::MAX {
        (v, Err(LedgerError::ArithmeticError))
    } else if amount < fee {
        (v, Err(LedgerError::InsufficientFee))
    } else if allowance_expired(v, from, spender, now_secs) {
        (v, Err(LedgerError::InsufficientAllowance))
    } else if allowance_of(v, from, spender) < amount {
        (v, Err(LedgerError::InsufficientAllowance))
    } else if balance_of(v, from) < amount {
        (v, Err(LedgerError::InsufficientBalance))
    } else {
        let v1 = LedgerView {
            allowances: v.allowances.insert(
                (from, spender),
                (allowance_of(v, from, spender) - amount) as u128,
            ),
            ..v
        };
        move_spec(v1, from, to, amount as u128)
    }
}

impl Ledger {
    /// The allowance of `spender` over `owner`: what is stored, or 0.
    pub fn allowance(&self, owner: &Account, spender: &Account) -> (r: u128)
        requires
            account_ok(owner@),
            account_ok(spender@),
        ensures
            r == allowance_of(self@, owner@, spender@),
    {
        let mut key = account_key_of(owner);
        push_account_key(&mut key, spender);
        match byte_table_get(&self.allowances, &key) {
            Some(b) => decode_u128(b.as_slice()),
            None => 0,
        }
    }

    fn set_allowance(&mut self, owner: &Account, spender: &Account, x: u128)
        requires
            account_ok(owner@),
            account_ok(spender@),
        ensures
            final(self)@ == (LedgerView {
                allowances: old(self)@.allowances.insert((owner@, spender@), x),
                ..old(self)@
            }),
            final(self).wf() == old(self).wf(),
    {
        let mut key = account_key_of(owner);
        push_account_key(&mut key, spender);
        let val = encode_u128(x);
        byte_table_insert(&mut self.allowances, key, val);
        proof {
            lemma_keys_injective();
            lemma_numbers_roundtrip(x, 0, 0);
            lemma_decoded_insert(
                byte_table_contents(old(self).allowances),
                pair_ok(),
                pair_key(),
                as_u128(),
                (owner@, spender@),
                u128_bytes(x),
            );
            assert(self@.allowances =~= old(self)@.allowances.insert((owner@, spender@), x));
        }
    }

    /// The expiry of the allowance of `spender` over `owner`, if any.
    pub fn expiration(&self, owner: &Account, spender: &Account) -> (r: Option<u64>)
        requires
            account_ok(owner@),
            account_ok(spender@),
        ensures
            r == (if self@.expirations.contains_key((owner@, spender@)) {
                Some(self@.expirations[(owner@, spender@)])
            } else {
                None
            }),
    {
        let mut key = account_key_of(owner);
        push_account_key(&mut key, spender);
        match byte_table_get(&self.expirations, &key) {
            Some(b) => Some(decode_u64(b.as_slice())),
            None => None,
        }
    }

    fn set_expiration(&mut self, owner: &Account, spender: &Account, x: u64)
        requires
            account_ok(owner@),
            account_ok(spender@),
        ensures
            final(self)@ == (LedgerView {
                expirations: old(self)@.expirations.insert((owner@, spender@), x),
                ..old(self)@
            }),
            final(self).wf() == old(self).wf(),
    {
        let mut key = account_key_of(owner);
        push_account_key(&mut key, spender);
        let val = encode_u64(x);
        byte_table_insert(&mut self.expirations, key, val);
        proof {
            lemma_keys_injective();
            lemma_numbers_roundtrip(0, x, 0);
            lemma_decoded_insert(
                byte_table_contents(old(self).expirations),
                pair_ok(),
                pair_key(),
                as_u64(),
                (owner@, spender@),
                u64_bytes(x),
            );
            assert(self@.expirations =~= old(self)@.expirations.insert((owner@, spender@), x));
        }
    }

    /// Stores a transaction under its id.
    pub fn record_transaction(&mut self, event: &TransactionEvent)
        requires
            account_ok(event.from@),
            event.to matches Some(a) ==> account_ok(a@),
            event.spender matches Some(a) ==> account_ok(a@),
        ensures
            final(self)@ == (LedgerView {
                transactions: old(self)@.transactions.insert(event.tx_id@, event@),
                ..old(self)@
            }),
            old(self).wf() ==> final(self).wf(),
    {
        let key = to_vec(event.tx_id.as_slice());
        let bytes = tx_record(event);
        byte_table_insert(&mut self.transactions, key, bytes);
        proof {
            lemma_keys_injective();
            lemma_decoded_insert(
                byte_table_contents(old(self).transactions),
                id_ok(),
                id_key(),
                as_tx(),
                event.tx_id@,
                tx_bytes(event@),
            );
            assert(self@.transactions =~= old(self)@.transactions.insert(event.tx_id@, event@));
            assert(event@.tx_id == event.tx_id@);
        }
    }

    /// Records a transfer that went through under its drawn id, with the fee
    /// it paid (`icrc1_transfer`, after the id is drawn).
    pub fn record_transfer(&mut self, tx_id: [u8; 32], from: &Account, to: &Account, amount: u128, now: u64)
        requires
            account_ok(from@),
            account_ok(to@),
        ensures
            final(self)@ == (LedgerView {
                transactions: old(self)@.transactions.insert(
                    tx_id@,
                    TxView {
                        tx_id: tx_id@,
                        timestamp: seconds(now),
                        event_type: "Transfer"@,
                        from: from@,
                        to: Some(to@),
                        spender: None,
                        amount,
                        fee: Some(old(self)@.meta.transfer_fee),
                    },
                ),
                ..old(self)@
            }),
            old(self).wf() ==> final(self).wf(),
    {
        let event = TransactionEvent {
            tx_id,
            timestamp: now / 1_000_000_000,
            event_type: String::from_str("Transfer"),
            from: copy_account(from),
            to: Some(copy_account(to)),
            spender: None,
            amount,
            fee: Some(self.metadata.transfer_fee),
        };
        self.record_transaction(&event);
    }

    /// Records a transfer by a spender that went through under its drawn id
    /// (`icrc1_transfer_from`, after the id is drawn).
    pub fn record_transfer_from(
        &mut self,
        tx_id: [u8; 32],
        spender: &Account,
        from: &Account,
        to: &Account,
        amount: u128,
        now: u64,
    )
        requires
            account_ok(spender@),
            account_ok(from@),
            account_ok(to@),
        ensures
            final(self)@ == (LedgerView {
                transactions: old(self)@.transactions.insert(
                    tx_id@,
                    TxView {
                        tx_id: tx_id@,
                        timestamp: seconds(now),
                        event_type: "TransferFrom"@,
                        from: from@,
                        to: Some(to@),
                        spender: Some(spender@),
                        amount,
                        fee: Some(old(self)@.meta.transfer_fee),
                    },
                ),
                ..old(self)@
            }),
            old(self).wf() ==> final(self).wf(),
    {
        let event = TransactionEvent {
            tx_id,
            timestamp: now / 1_000_000_000,
            event_type: String::from_str("TransferFrom"),
            from: copy_account(from),
            to: Some(copy_account(to)),
            spender: Some(copy_account(spender)),
            amount,
            fee: Some(self.metadata.transfer_fee),
        };
        self.record_transaction(&event);
    }

    /// Whether the team vesting lock holds for `a` (`check_team_vesting`).
    pub fn check_team_vesting(&self, a: &Account, now: u64) -> (r: Result<(), LedgerError>)
        requires
            self.wf(),
        ensures
            r == (if vesting_locked(self@, a@, seconds(now)) {
                Err::<(), LedgerError>(LedgerError::VestingLocked)
            } else {
                Ok(())
            }),
    {
        let team: [u8; 32] = [2u8; 32];
        assert(team@ =~= team_subaccount());
        if has_subaccount(a, &team) {
            let unlock_time = self.metadata.vesting_start_time + self.metadata.vesting_duration;
            if now / 1_000_000_000 < unlock_time {
                return Err(LedgerError::VestingLocked);
            }
        }
        Ok(())
    }

    /// Debits `from`, credits `to` with the amount less the fee, and splits
    /// the fee.
    fn move_tokens(&mut self, from: &Account, to: &Account, amount: u128) -> (r: Result<u128, LedgerError>)
        requires
            old(self).wf(),
            account_ok(from@),
            account_ok(to@),
            old(self)@.meta.transfer_fee <= amount <= balance_of(old(self)@, from@),
        ensures
            (final(self)@, r) == move_spec(old(self)@, from@, to@, amount),
            final(self).wf(),
    {
        let fee = self.metadata.transfer_fee;
        let amount_after_fee = amount - fee;
        let from_balance = self.balance(from);
        self.set_balance(from, from_balance - amount);
        let to_balance = self.balance(to);
        if to_balance > u128::MAX - amount_after_fee {
            return Err(LedgerError::ArithmeticError);
        }
        self.set_balance(to, to_balance + amount_after_fee);
        match self.process_fee(fee) {
            Ok(_) => Ok(amount),
            Err(e) => Err(e),
        }
    }

    /// An ICRC-1 transfer from the caller's account (`icrc1_transfer`), up to
    /// recording the transaction (see `record_transaction`).
    pub fn icrc1_transfer(&mut self, caller: &Vec<u8>, args: &TransferArgs, now: u64) -> (r: Result<u128, LedgerError>)
        requires
            old(self).wf(),
            caller@.len() <= 29,
            account_ok(args.to@),
        ensures
            (final(self)@, r) == transfer_spec(
                old(self)@,
                caller@,
                sub_view(args.from_subaccount),
                args.to@,
                args.amount@,
                seconds(now),
            ),
            final(self).wf(),
    {
        let from = Account { owner: to_vec(caller.as_slice()), subaccount: args.from_subaccount };
        match self.check_team_vesting(&from, now) {
            Err(e) => {
                return Err(e);
            },
            Ok(_) => {},
        }
        let amount = match nat_to_u128(&args.amount) {
            Ok(a) => a,
            Err(e) => {
                return Err(e);
            },
        };
        let transfer_fee = self.metadata.transfer_fee;
        if amount == u128::MAX {
            return Err(LedgerError::ArithmeticError);
        }
        if amount < transfer_fee {
            return Err(LedgerError::InsufficientFee);
        }
        let from_balance = self.balance(&from);
        if from_balance < amount {
            return Err(LedgerError::InsufficientBalance);
        }
        self.move_tokens(&from, &args.to, amount)
    }

    /// An ICRC-2 approval from the caller's account (`icrc1_approve`).
    pub fn icrc1_approve(&mut self, caller: &Vec<u8>, args: &ApproveArgs, now: u64) -> (r: Result<u128, LedgerError>)
        requires
            old(self).wf(),
            caller@.len() <= 29,
            account_ok(args.spender@),
        ensures
            (final(self)@, r) == approve_spec(
                old(self)@,
                caller@,
                sub_view(args.from_subaccount),
                args.spender@,
                args.amount@,
                args.expires_at,
                seconds(now),
            ),
            final(self).wf(),
    {
        let owner = Account { owner: to_vec(caller.as_slice()), subaccount: args.from_subaccount };
        let amount = match nat_to_u128(&args.amount) {
            Ok(a) => a,
            Err(e) => {
                return Err(e);
            },
        };
        if !crate::codec::bytes_eq(caller.as_slice(), owner.owner.as_slice()) {
            return Err(LedgerError::Unauthorized);
        }
        match args.expires_at {
            Some(e) => {
                self.set_expiration(&owner, &args.spender, e);
            },
            None => {},
        }
        self.set_allowance(&owner, &args.spender, amount);
        let event = TransactionEvent {
            tx_id: [0u8; 32],
            timestamp: now / 1_000_000_000,
            event_type: String::from_str("Approval"),
            from: copy_account(&owner),
            to: None,
            spender: Some(copy_account(&args.spender)),
            amount,
            fee: None,
        };
        assert(event.tx_id@ =~= Seq::new(32, |i: int| 0u8));
        self.record_transaction(&event);
        Ok(amount)
    }

    /// An ICRC-2 transfer by the spender out of `from` (`icrc1_transfer_from`),
    /// up to recording the transaction (see `record_transaction`).
    pub fn icrc1_transfer_from(&mut self, caller: &Vec<u8>, args: &TransferFromArgs, now: u64) -> (r: Result<u128, LedgerError>)
        requires
            old(self).wf(),
            account_ok(args.spender@),
            account_ok(args.from@),
            account_ok(args.to@),
        ensures
            (final(self)@, r) == transfer_from_spec(
                old(self)@,
                caller@,
                args.spender@,
                args.from@,
                args.to@,
                args.amount@,
                seconds(now),
            ),
            final(self).wf(),
    {
        if !crate::codec::bytes_eq(caller.as_slice(), args.spender.owner.as_slice()) {
            return Err(LedgerError::Unauthorized);
        }
        match self.check_team_vesting(&args.from, now) {
            Err(e) => {
                return Err(e);
            },
            Ok(_) => {},
        }
        let amount = match nat_to_u128(&args.amount) {
            Ok(a) => a,
            Err(e) => {
                return Err(e);
            },
        };
        let transfer_fee = self.metadata.transfer_fee;
        if amount == u128::MAX {
            return Err(LedgerError::ArithmeticError);
        }
        if amount < transfer_fee {
            return Err(LedgerError::InsufficientFee);
        }
        match self.expiration(&args.from, &args.spender) {
            Some(expires_at) => {
                if now / 1_000_000_000 > expires_at {
                    return Err(LedgerError::InsufficientAllowance);
                }
            },
            None => {},
        }
        let allowance = self.allowance(&args.from, &args.spender);
        if allowance < amount {
            return Err(LedgerError::InsufficientAllowance);
        }
        let from_balance = self.balance(&args.from);
        if from_balance < amount {
            return Err(LedgerError::InsufficientBalance);
        }
        self.set_allowance(&args.from, &args.spender, allowance - amount);
        self.move_tokens(&args.from, &args.to, amount)
    }
}

/// The stored form of a transaction.
fn tx_record(event: &TransactionEvent) -> (r: Vec<u8>)
    requires
        account_ok(event.from@),
        event.to matches Some(a) ==> account_ok(a@),
        event.spender matches Some(a) ==> account_ok(a@),
    ensures
        r@ == tx_bytes(event@),
        tx_of(r@) == event@,
{
    let et = string_bytes(event.event_type.as_str());
    let et_len = et.len();
    let mut parts: Vec<Vec<u8>> = Vec::new();
    parts.push(to_vec(event.tx_id.as_slice()));
    parts.push(encode_u64(event.timestamp));
    parts.push(et);
    parts.push(account_key_of(&event.from));
    parts.push(
        match &event.to {
            Some(a) => account_key_of(a),
            None => Vec::new(),
        },
    );
    parts.push(
        match &event.spender {
            Some(a) => account_key_of(a),
            None => Vec::new(),
        },
    );
    parts.push(encode_u128(event.amount));
    parts.push(
        match event.fee {
            Some(f) => encode_u128(f),
            None => Vec::new(),
        },
    );
    let r = encode_fields(&parts);
    proof {
        assert(views(parts@) =~= seq![
            event.tx_id@,
            u64_bytes(event.timestamp),
            encode_utf8(event.event_type@),
            account_key(event.from@),
            opt_account_bytes(opt_account_view(event.to)),
            opt_account_bytes(opt_account_view(event.spender)),
            u128_bytes(event.amount),
            opt_u128_bytes(event.fee),
        ]);
        lemma_tx_roundtrip(event@);
    }
    r
}


// ---------------------------------------------------------------------------
// Registration and referrals
// ---------------------------------------------------------------------------

/// `10^n`.
pub open spec fn pow10(n: nat) -> nat
    decreases n,
{
    if n == 0 {
        1
    } else {
        10 * pow10((n - 1) as nat)
    }
}

pub proof fn lemma_pow10_bound(n: nat)
    requires
        n <= 30,
    ensures
        200 * pow10(n) <= 200 * pow10(30),
        pow10(30) == 1_000_000_000_000_000_000_000_000_000_000,
    decreases n,
{
    reveal_with_fuel(pow10, 31);
    if n < 30 {
        lemma_pow10_mono(n, 30);
    }
}

pub proof fn lemma_pow10_mono(a: nat, b: nat)
    requires
        a <= b,
    ensures
        pow10(a) <= pow10(b),
    decreases b,
{
    if a < b {
        lemma_pow10_mono(a, (b - 1) as nat);
    }
}

/// `10^n` for `n <= 30`.
pub fn pow10_exec(n: u8) -> (r: u128)
    requires
        n <= 30,
    ensures
        r == pow10(n as nat),
{
    let mut r: u128 = 1;
    let mut i: u8 = 0;
    while i < n
        invariant
            i <= n <= 30,
            r == pow10(i as nat),
        decreases n - i,
    {
        proof {
            lemma_pow10_bound(i as nat);
            lemma_pow10_mono(i as nat, 29);
            reveal_with_fuel(pow10, 31);
        }
        r = r * 10;
        i = i + 1;
    }
    r
}

/// Tokens given to a new user: 200 whole tokens.
pub open spec fn welcome_amount(v: LedgerView) -> u128 {
    (200 * pow10(v.meta.decimals as nat)) as u128
}

/// Tokens given to a referrer: 20 whole tokens.
pub open spec fn referral_reward(v: LedgerView) -> u128 {
    (20 * pow10(v.meta.decimals as nat)) as u128
}

/// `s` without its trailing zero bytes.
pub open spec fn trim_zeros(s: Seq<u8>) -> Seq<u8>
    decreases s.len(),
{
    if s.len() > 0 && s.last() == 0 {
        trim_zeros(s.drop_last())
    } else {
        s
    }
}

/// How the registration log shows a subaccount.
pub open spec fn sub_text(sub: Option<Seq<u8>>) -> Seq<char> {
    match sub {
        None => "None"@,
        Some(s) => if trim_zeros(s).len() == 0 {
            "[0]"@
        } else {
            "len: "@ + decimal(s.len()) + ", value: "@ + crate::text::byte_list_text(trim_zeros(s))
        },
    }
}

pub open spec fn user_registered_details(user: AccountView, amount: u128) -> Seq<char> {
    "Account: "@ + principal_text(user.owner) + ", Subaccount: "@ + sub_text(user.subaccount)
        + ", Amount: "@ + decimal(amount as nat)
}

pub open spec fn referral_registered_details(user: AccountView, code: Seq<char>) -> Seq<char> {
    "User: "@ + principal_text(user.owner) + ", Subaccount: "@ + sub_text(user.subaccount)
        + ", Referral_Code: "@ + code
}

pub open spec fn referral_claimed_details(referrer: AccountView, referee: AccountView, reward: u128) -> Seq<char> {
    "Referrer: "@ + principal_text(referrer.owner) + ", Referee: "@ + principal_text(referee.owner)
        + ", Reward: "@ + decimal(reward as nat)
}

/// What `register_user` does before a referral code is drawn: the new user
/// gets the welcome amount out of the community pool and the registration is
/// logged; the result says whether the user still needs a referral code.
pub open spec fn register_spec(v: LedgerView, user: AccountView, now: u64) -> (LedgerView, Result<bool, LedgerError>) {
    let w = welcome_amount(v);
    let c = community_pool(v);
    if v.balances.contains_key(user) {
        (v, Err(LedgerError::AlreadyRegistered))
    } else if balance_of(v, c) < w {
        (v, Err(LedgerError::InsufficientPoolFunds))
    } else {
        let v1 = with_balance(with_balance(v, c, (balance_of(v, c) - w) as u128), user, w);
        (
            log_spec(v1, now, "UserRegistered"@, user_registered_details(user, w)),
            Ok(!v.referral_by_account.contains_key(user)),
        )
    }
}

/// What `register_user` does with a drawn code: a code in use is refused
/// (`None`, nothing changes); otherwise it is the user's, both ways, and the
/// reply names it.
pub open spec fn assign_code_spec(v: LedgerView, user: AccountView, code: Seq<char>, now: u64) -> (LedgerView, Option<Seq<char>>) {
    if v.account_by_referral.contains_key(code) {
        (v, None)
    } else {
        let v1 = LedgerView {
            referral_by_account: v.referral_by_account.insert(user, code),
            account_by_referral: v.account_by_referral.insert(code, user),
            ..v
        };
        (
            log_spec(v1, now, "ReferralRegistered"@, referral_registered_details(user, code)),
            Some(
                "User registered with 200 "@ + v.meta.symbol + ". Your referral code is: "@ + code,
            ),
        )
    }
}

/// What `claim_referral` does.
pub open spec fn claim_spec(v: LedgerView, caller: Seq<u8>, code: Seq<char>, now: u64) -> (LedgerView, Result<Seq<char>, LedgerError>) {
    let referee = AccountView { owner: caller, subaccount: None };
    let reward = referral_reward(v);
    let c = community_pool(v);
    if !v.account_by_referral.contains_key(code) {
        (v, Err(LedgerError::InvalidReferral))
    } else if v.claimed.contains(referee) {
        (v, Err(LedgerError::InvalidReferral))
    } else if balance_of(v, c) < reward {
        (v, Err(LedgerError::InsufficientPoolFunds))
    } else {
        let referrer = v.account_by_referral[code];
        let v1 = with_balance(v, c, (balance_of(v, c) - reward) as u128);
        let rb = balance_of(v1, referrer);
        if rb + reward > u128::MAX {
            (v1, Err(LedgerError::ArithmeticError))
        } else {
            let v2 = with_balance(v1, referrer, (rb + reward) as u128);
            let v3 = LedgerView { claimed: v2.claimed.insert(referee), ..v2 };
            (
                log_spec(
                    v3,
                    now,
                    "ReferralClaimed"@,
                    referral_claimed_details(referrer, referee, reward),
                ),
                Ok("Referral reward of 20 "@ + v.meta.symbol + " credited"@),
            )
        }
    }
}

/// The characters of referral codes.
pub open spec fn code_charset() -> Seq<char> {
    "ABCDEFGHIJKLMNOPQRSTUVWXYZabcdefghijklmnopqrstuvwxyz0123456789"@
}

/// The referral code drawn from random bytes: one character per byte, for the
/// first twelve bytes.
pub open spec fn referral_code(random_bytes: Seq<u8>) -> Seq<char> {
    let n = if random_bytes.len() < 12 {
        random_bytes.len()
    } else {
        12
    };
    Seq::new(n, |i: int| code_charset()[random_bytes[i] as int % 62])
}

/// A referral code from random bytes (`generate_random_referral_code`).
pub fn generate_random_referral_code(random_bytes: &[u8]) -> (r: String)
    ensures
        r@ == referral_code(random_bytes@),
{
    let charset = "ABCDEFGHIJKLMNOPQRSTUVWXYZabcdefghijklmnopqrstuvwxyz0123456789";
    proof {
        reveal_strlit("ABCDEFGHIJKLMNOPQRSTUVWXYZabcdefghijklmnopqrstuvwxyz0123456789");
    }
    let n: usize = if random_bytes.len() < 12 {
        random_bytes.len()
    } else {
        12
    };
    let mut code = String::new();
    let mut i: usize = 0;
    while i < n
        invariant
            i <= n <= random_bytes@.len(),
            n == (if random_bytes@.len() < 12 {
                random_bytes@.len()
            } else {
                12
            }),
            charset@ == code_charset(),
            charset@.len() == 62,
            code@ == referral_code(random_bytes@).subrange(0, i as int),
        decreases n - i,
    {
        let idx = (random_bytes[i] as usize) % 62;
        let c = charset.substring_char(idx, idx + 1);
        code.append(c);
        i = i + 1;
        assert(code@ =~= referral_code(random_bytes@).subrange(0, i as int));
    }
    assert(referral_code(random_bytes@).subrange(0, n as int) =~= referral_code(random_bytes@));
    code
}

pub fn push_sub_text(out: &mut String, sub: &Option<[u8; 32]>)
    ensures
        final(out)@ == old(out)@ + sub_text(sub_view(*sub)),
{
    match sub {
        None => {
            push_str(out, "None");
        },
        Some(s) => {
            let mut end: usize = 32;
            assert(s@.subrange(0, 32) =~= s@);
            while end > 0 && s[end - 1] == 0
                invariant
                    end <= 32,
                    trim_zeros(s@) == trim_zeros(s@.subrange(0, end as int)),
                decreases end,
            {
                proof {
                    assert(s@.subrange(0, end as int).drop_last() =~= s@.subrange(0, end - 1));
                }
                end = end - 1;
            }
            proof {
                let t = s@.subrange(0, end as int);
                assert(trim_zeros(t) == t);
                assert(s@.subrange(0, 32) =~= s@);
            }
            if end == 0 {
                push_str(out, "[0]");
            } else {
                push_str(out, "len: ");
                push_decimal(out, 32);
                push_str(out, ", value: ");
                let head = crate::codec::prefix(s.as_slice(), end);
                crate::text::push_byte_list(out, head.as_slice());
            }
        },
    }
    assert(out@ =~= old(out)@ + sub_text(sub_view(*sub)));
}

pub fn push_principal(out: &mut String, p: &Vec<u8>)
    requires
        p@.len() <= 29,
    ensures
        final(out)@ == old(out)@ + principal_text(p@),
{
    let t = principal_to_text(p.as_slice());
    push_str(out, t.as_str());
}

impl Ledger {
    fn set_claimed(&mut self, a: &Account)
        requires
            account_ok(a@),
        ensures
            final(self)@ == (LedgerView { claimed: old(self)@.claimed.insert(a@), ..old(self)@ }),
            old(self).wf() ==> final(self).wf(),
    {
        let key = account_key_of(a);
        let mut val: Vec<u8> = Vec::new();
        val.push(1u8);
        byte_table_insert(&mut self.claimed, key, val);
        proof {
            lemma_keys_injective();
            lemma_decoded_insert(
                byte_table_contents(old(self).claimed),
                acct_ok(),
                acct_key(),
                as_unit(),
                a@,
                val@,
            );
            assert(self@.claimed =~= old(self)@.claimed.insert(a@));
        }
    }

    fn is_claimed(&self, a: &Account) -> (r: bool)
        requires
            account_ok(a@),
        ensures
            r == self@.claimed.contains(a@),
    {
        let key = account_key_of(a);
        byte_table_contains(&self.claimed, &key)
    }

    /// Whether `a` has a balance entry (is registered).
    pub fn has_balance_entry(&self, a: &Account) -> (r: bool)
        requires
            account_ok(a@),
        ensures
            r == self@.balances.contains_key(a@),
    {
        let key = account_key_of(a);
        byte_table_contains(&self.balances, &key)
    }

    /// Whether `a` has a referral code.
    pub fn has_referral_code(&self, a: &Account) -> (r: bool)
        requires
            account_ok(a@),
        ensures
            r == self@.referral_by_account.contains_key(a@),
    {
        let key = account_key_of(a);
        byte_table_contains(&self.referral_by_account, &key)
    }

    /// The referral code of `user` (`get_referral_code`).
    pub fn get_referral_code(&self, user: &Account) -> (r: Option<String>)
        requires
            account_ok(user@),
        ensures
            match r {
                Some(c) => self@.referral_by_account.contains_key(user@)
                    && c@ == self@.referral_by_account[user@],
                None => !self@.referral_by_account.contains_key(user@),
            },
    {
        let key = account_key_of(user);
        match byte_table_get(&self.referral_by_account, &key) {
            Some(b) => Some(decode_string(b.as_slice())),
            None => None,
        }
    }

    /// The account that owns a referral code.
    pub fn referrer_of(&self, code: &str) -> (r: Option<Account>)
        ensures
            match r {
                Some(a) => self@.account_by_referral.contains_key(code@)
                    && a@ == self@.account_by_referral[code@] && account_ok(a@),
                None => !self@.account_by_referral.contains_key(code@),
            },
    {
        let key = string_bytes(code);
        match byte_table_get(&self.account_by_referral, &key) {
            Some(b) => Some(account_from_key(b.as_slice())),
            None => None,
        }
    }

    /// Registers a user (`register_user`, up to drawing a referral code): the
    /// result says whether the user needs a code (see `assign_referral_code`).
    pub fn register_user(&mut self, user: &Account, now: u64) -> (r: Result<bool, LedgerError>)
        requires
            old(self).wf(),
            account_ok(user@),
            log_room(old(self)@, now, 1),
        ensures
            (final(self)@, r) == register_spec(old(self)@, user@, now),
            final(self).wf(),
    {
        proof {
            lemma_pow10_bound(self.metadata.decimals as nat);
        }
        let welcome_amount = 200 * pow10_exec(self.metadata.decimals);
        if self.has_balance_entry(user) {
            return Err(LedgerError::AlreadyRegistered);
        }
        let community = self.pool_account(1);
        let pool_balance = self.balance(&community);
        if pool_balance < welcome_amount {
            return Err(LedgerError::InsufficientPoolFunds);
        }
        self.set_balance(&community, pool_balance - welcome_amount);
        self.set_balance(user, welcome_amount);
        let mut details = String::new();
        push_str(&mut details, "Account: ");
        push_principal(&mut details, &user.owner);
        push_str(&mut details, ", Subaccount: ");
        push_sub_text(&mut details, &user.subaccount);
        push_str(&mut details, ", Amount: ");
        push_decimal(&mut details, welcome_amount);
        assert(details@ =~= user_registered_details(user@, welcome_amount));
        self.log_event("UserRegistered", details, now);
        Ok(!self.has_referral_code(user))
    }

    /// Gives `user` the drawn referral code (`register_user`, after drawing):
    /// `None` where the code is in use, else the reply.
    pub fn assign_referral_code(&mut self, user: &Account, code: &String, now: u64) -> (r: Option<String>)
        requires
            old(self).wf(),
            account_ok(user@),
            log_room(old(self)@, now, 1),
        ensures
            ({
                let (v, o) = assign_code_spec(old(self)@, user@, code@, now);
                final(self)@ == v && match r {
                    Some(m) => o == Some(m@),
                    None => o is None,
                }
            }),
            final(self).wf(),
    {
        let code_bytes = string_bytes(code.as_str());
        if byte_table_contains(&self.account_by_referral, &code_bytes) {
            return None;
        }
        let user_key = account_key_of(user);
        let code_val = string_bytes(code.as_str());
        byte_table_insert(&mut self.referral_by_account, user_key, code_val);
        let user_val = account_key_of(user);
        byte_table_insert(&mut self.account_by_referral, code_bytes, user_val);
        proof {
            lemma_keys_injective();
            lemma_string_roundtrip(code@);
            lemma_account_roundtrip(user@);
            lemma_decoded_insert(
                byte_table_contents(old(self).referral_by_account),
                acct_ok(),
                acct_key(),
                as_string(),
                user@,
                encode_utf8(code@),
            );
            lemma_decoded_insert(
                byte_table_contents(old(self).account_by_referral),
                code_ok(),
                code_key(),
                as_account(),
                code@,
                account_key(user@),
            );
            assert(self@.referral_by_account =~= old(self)@.referral_by_account.insert(
                user@,
                code@,
            ));
            assert(self@.account_by_referral =~= old(self)@.account_by_referral.insert(
                code@,
                user@,
            ));
        }
        let mut details = String::new();
        push_str(&mut details, "User: ");
        push_principal(&mut details, &user.owner);
        push_str(&mut details, ", Subaccount: ");
        push_sub_text(&mut details, &user.subaccount);
        push_str(&mut details, ", Referral_Code: ");
        push_str(&mut details, code.as_str());
        assert(details@ =~= referral_registered_details(user@, code@));
        self.log_event("ReferralRegistered", details, now);
        let mut reply = String::new();
        push_str(&mut reply, "User registered with 200 ");
        push_str(&mut reply, self.metadata.symbol.as_str());
        push_str(&mut reply, ". Your referral code is: ");
        push_str(&mut reply, code.as_str());
        assert(reply@ =~= "User registered with 200 "@ + old(self)@.meta.symbol
            + ". Your referral code is: "@ + code@);
        Some(reply)
    }

    /// The reply to a registration that needs no referral code.
    pub fn registered_reply(&self) -> (r: String)
        ensures
            r@ == "User registered with 200 "@ + self@.meta.symbol,
    {
        let mut reply = String::new();
        push_str(&mut reply, "User registered with 200 ");
        push_str(&mut reply, self.metadata.symbol.as_str());
        reply
    }

    /// Claims a referral reward for the referrer whose code the caller gives
    /// (`claim_referral`).
    pub fn claim_referral(&mut self, caller: &Vec<u8>, referral_code: &String, now: u64) -> (r: Result<String, LedgerError>)
        requires
            old(self).wf(),
            caller@.len() <= 29,
            log_room(old(self)@, now, 1),
        ensures
            ({
                let (v, o) = claim_spec(old(self)@, caller@, referral_code@, now);
                final(self)@ == v && match r {
                    Ok(m) => o == Ok::<Seq<char>, LedgerError>(m@),
                    Err(e) => o == Err::<Seq<char>, LedgerError>(e),
                }
            }),
            final(self).wf(),
    {
        let referee = Account { owner: to_vec(caller.as_slice()), subaccount: None };
        let referrer = match self.referrer_of(referral_code.as_str()) {
            None => {
                return Err(LedgerError::InvalidReferral);
            },
            Some(a) => a,
        };
        if self.is_claimed(&referee) {
            return Err(LedgerError::InvalidReferral);
        }
        proof {
            lemma_pow10_bound(self.metadata.decimals as nat);
        }
        let reward = 20 * pow10_exec(self.metadata.decimals);
        let community = self.pool_account(1);
        let pool_balance = self.balance(&community);
        if pool_balance < reward {
            return Err(LedgerError::InsufficientPoolFunds);
        }
        self.set_balance(&community, pool_balance - reward);
        let referrer_balance = self.balance(&referrer);
        if referrer_balance > u128::MAX - reward {
            return Err(LedgerError::ArithmeticError);
        }
        self.set_balance(&referrer, referrer_balance + reward);
        self.set_claimed(&referee);
        let mut details = String::new();
        push_str(&mut details, "Referrer: ");
        push_principal(&mut details, &referrer.owner);
        push_str(&mut details, ", Referee: ");
        push_principal(&mut details, &referee.owner);
        push_str(&mut details, ", Reward: ");
        push_decimal(&mut details, reward);
        assert(details@ =~= referral_claimed_details(referrer@, referee@, reward));
        self.log_event("ReferralClaimed", details, now);
        let mut reply = String::new();
        push_str(&mut reply, "Referral reward of 20 ");
        push_str(&mut reply, self.metadata.symbol.as_str());
        push_str(&mut reply, " credited");
        assert(reply@ =~= "Referral reward of 20 "@ + old(self)@.meta.symbol + " credited"@);
        Ok(reply)
    }
}

/// The account whose key `b` is (the default account where `b` is not a key).
pub fn account_from_key(b: &[u8]) -> (r: Account)
    ensures
        r@ == account_of(b@),
        account_ok(r@),
{
    assert(b@.subrange(0, b@.len() as int) =~= b@);
    match read_account(b, 0) {
        Some((a, _)) => a,
        None => Account { owner: Vec::new(), subaccount: None },
    }
}


// ---------------------------------------------------------------------------
// Chronolock fees and settings
// ---------------------------------------------------------------------------

/// The fee for creating a media chronolock: 20 tokens.
pub open spec fn media_creation_fee() -> u128 {
    2_000_000_000
}

/// What `create_media_chronolock` does: the caller pays the creation fee,
/// which is split like a transfer fee, and the creation is logged.
pub open spec fn media_chronolock_spec(v: LedgerView, caller: Seq<u8>, now: u64) -> (LedgerView, Result<Seq<char>, LedgerError>) {
    let account = AccountView { owner: caller, subaccount: None };
    let fee = media_creation_fee();
    if balance_of(v, account) < fee {
        (v, Err(LedgerError::InsufficientBalance))
    } else {
        let v1 = with_balance(v, account, (balance_of(v, account) - fee) as u128);
        let (v2, r) = process_fee_spec(v1, fee);
        match r {
            Err(e) => (v2, Err(e)),
            Ok(_) => (
                log_spec(
                    v2,
                    now,
                    "MediaChronoLockCreated"@,
                    "Caller: "@ + principal_text(caller) + ", Fee: "@ + decimal(fee as nat),
                ),
                Ok("Media ChronoLock created for 20 CRNL"@),
            ),
        }
    }
}

/// What `set_transfer_fee` does: only the admin may set the fee.
pub open spec fn set_fee_spec(v: LedgerView, caller: Seq<u8>, new_fee: u128, now: u64) -> (LedgerView, Result<(), LedgerError>) {
    if caller != v.admin {
        (v, Err(LedgerError::AdminRequired))
    } else {
        (
            log_spec(
                LedgerView { meta: MetaView { transfer_fee: new_fee, ..v.meta }, ..v },
                now,
                "SetTransferFee"@,
                "New fee: "@ + decimal(new_fee as nat),
            ),
            Ok(()),
        )
    }
}

impl Ledger {
    /// Charges the caller the fee for a media chronolock
    /// (`create_media_chronolock`).
    pub fn create_media_chronolock(&mut self, caller: &Vec<u8>, now: u64) -> (r: Result<String, LedgerError>)
        requires
            old(self).wf(),
            caller@.len() <= 29,
            log_room(old(self)@, now, 1),
        ensures
            ({
                let (v, o) = media_chronolock_spec(old(self)@, caller@, now);
                final(self)@ == v && match r {
                    Ok(m) => o == Ok::<Seq<char>, LedgerError>(m@),
                    Err(e) => o == Err::<Seq<char>, LedgerError>(e),
                }
            }),
            final(self).wf(),
    {
        let account = Account { owner: to_vec(caller.as_slice()), subaccount: None };
        let creation_fee: u128 = 2_000_000_000;
        let balance = self.balance(&account);
        if balance < creation_fee {
            return Err(LedgerError::InsufficientBalance);
        }
        self.set_balance(&account, balance - creation_fee);
        match self.process_fee(creation_fee) {
            Err(e) => {
                return Err(e);
            },
            Ok(_) => {},
        }
        let mut details = String::new();
        push_str(&mut details, "Caller: ");
        push_principal(&mut details, caller);
        push_str(&mut details, ", Fee: ");
        push_decimal(&mut details, creation_fee);
        self.log_event("MediaChronoLockCreated", details, now);
        Ok(String::from_str("Media ChronoLock created for 20 CRNL"))
    }

    /// Logs the creation of a text chronolock, which is free
    /// (`create_text_chronolock`).
    pub fn create_text_chronolock(&mut self, caller: &Account, now: u64) -> (r: Result<String, LedgerError>)
        requires
            account_ok(caller@),
            log_room(old(self)@, now, 1),
        ensures
            final(self)@ == log_spec(
                old(self)@,
                now,
                "TextChronoLockCreated"@,
                "Caller: "@ + principal_text(caller@.owner),
            ),
            r matches Ok(m) && m@ == "Text ChronoLock created for free"@,
            old(self).wf() ==> final(self).wf(),
    {
        let mut details = String::new();
        push_str(&mut details, "Caller: ");
        push_principal(&mut details, &caller.owner);
        self.log_event("TextChronoLockCreated", details, now);
        Ok(String::from_str("Text ChronoLock created for free"))
    }

    /// Sets the transfer fee; admin only (`set_transfer_fee`).
    pub fn set_transfer_fee(&mut self, caller: &Vec<u8>, new_fee: u128, now: u64) -> (r: Result<(), LedgerError>)
        requires
            old(self).wf(),
            log_room(old(self)@, now, 1),
        ensures
            (final(self)@, r) == set_fee_spec(old(self)@, caller@, new_fee, now),
            final(self).wf(),
    {
        if !crate::codec::bytes_eq(caller.as_slice(), self.admin.as_slice()) {
            return Err(LedgerError::AdminRequired);
        }
        self.metadata.transfer_fee = new_fee;
        let mut details = String::new();
        push_str(&mut details, "New fee: ");
        push_decimal(&mut details, new_fee);
        self.log_event("SetTransferFee", details, now);
        Ok(())
    }

    /// Admin only; logs the conversion of the dapp funds to cycles
    /// (`convert_dapp_funds_to_cycles`).
    pub fn convert_dapp_funds_to_cycles(&mut self, caller: &Vec<u8>, now: u64) -> (r: Result<(), LedgerError>)
        requires
            log_room(old(self)@, now, 1),
        ensures
            caller@ != old(self)@.admin ==> final(self)@ == old(self)@ && r == Err::<
                (),
                LedgerError,
            >(LedgerError::AdminRequired),
            caller@ == old(self)@.admin ==> final(self)@ == log_spec(
                old(self)@,
                now,
                "DappFundsConverted"@,
                "Converted dapp funds to cycles"@,
            ) && r == Ok::<(), LedgerError>(()),
            old(self).wf() ==> final(self).wf(),
    {
        if !crate::codec::bytes_eq(caller.as_slice(), self.admin.as_slice()) {
            return Err(LedgerError::AdminRequired);
        }
        self.log_event("DappFundsConverted", String::from_str("Converted dapp funds to cycles"), now);
        Ok(())
    }
}

// ---------------------------------------------------------------------------
// Queries
// ---------------------------------------------------------------------------

impl Ledger {
    /// The admin principal (`get_admin`).
    pub fn get_admin(&self) -> (r: Vec<u8>)
        ensures
            r@ == self@.admin,
    {
        to_vec(self.admin.as_slice())
    }

    /// The standards the ledger follows (`icrc1_supported_standards`).
    pub fn icrc1_supported_standards(&self) -> (r: Vec<String>)
        ensures
            r@.len() == 2,
            r@[0]@ == "ICRC-1"@,
            r@[1]@ == "ICRC-2"@,
    {
        let mut v: Vec<String> = Vec::new();
        v.push(String::from_str("ICRC-1"));
        v.push(String::from_str("ICRC-2"));
        v
    }

    /// The token's metadata as ICRC-1 entries (`icrc1_metadata`).
    pub fn icrc1_metadata(&self) -> (r: Vec<(String, String)>)
        ensures
            r@.len() == 5,
            r@[0].0@ == "icrc1:name"@ && r@[0].1@ == self@.meta.name,
            r@[1].0@ == "icrc1:symbol"@ && r@[1].1@ == self@.meta.symbol,
            r@[2].0@ == "icrc1:decimals"@ && r@[2].1@ == decimal(self@.meta.decimals as nat),
            r@[3].0@ == "icrc1:fee"@ && r@[3].1@ == decimal(self@.meta.transfer_fee as nat),
            r@[4].0@ == "icrc1:logo"@ && r@[4].1@ == "https://your-logo-url.com/token.png"@,
    {
        let mut v: Vec<(String, String)> = Vec::new();
        v.push((String::from_str("icrc1:name"), self.metadata.name.clone()));
        v.push((String::from_str("icrc1:symbol"), self.metadata.symbol.clone()));
        v.push(
            (
                String::from_str("icrc1:decimals"),
                crate::text::decimal_string(self.metadata.decimals as u128),
            ),
        );
        v.push(
            (
                String::from_str("icrc1:fee"),
                crate::text::decimal_string(self.metadata.transfer_fee),
            ),
        );
        v.push(
            (
                String::from_str("icrc1:logo"),
                String::from_str("https://your-logo-url.com/token.png"),
            ),
        );
        v
    }

    /// The allowance of `spender` over `owner` (`icrc1_allowance`).
    pub fn icrc1_allowance(&self, owner: &Account, spender: &Account) -> (r: u128)
        requires
            account_ok(owner@),
            account_ok(spender@),
        ensures
            r == allowance_of(self@, owner@, spender@),
    {
        self.allowance(owner, spender)
    }

    /// The token's name (`icrc1_name`).
    pub fn icrc1_name(&self) -> (r: String)
        ensures
            r@ == self@.meta.name,
    {
        self.metadata.name.clone()
    }

    /// The token's symbol (`icrc1_symbol`).
    pub fn icrc1_symbol(&self) -> (r: String)
        ensures
            r@ == self@.meta.symbol,
    {
        self.metadata.symbol.clone()
    }

    /// The token's decimals (`icrc1_decimals`).
    pub fn icrc1_decimals(&self) -> (r: u8)
        ensures
            r == self@.meta.decimals,
    {
        self.metadata.decimals
    }

    /// The total supply (`icrc1_total_supply`).
    pub fn icrc1_total_supply(&self) -> (r: u128)
        ensures
            r == self@.meta.total_supply,
    {
        self.metadata.total_supply
    }

    /// The transfer fee (`icrc1_fee`).
    pub fn icrc1_fee(&self) -> (r: u128)
        ensures
            r == self@.meta.transfer_fee,
    {
        self.metadata.transfer_fee
    }

    /// The balance of an account (`icrc1_balance_of`).
    pub fn icrc1_balance_of(&self, account: &Account) -> (r: u128)
        requires
            account_ok(account@),
        ensures
            r == balance_of(self@, account@),
    {
        self.balance(account)
    }

    /// The community pool's balance (`get_community_pool_balance`).
    pub fn get_community_pool_balance(&self) -> (r: u128)
        requires
            self.wf(),
        ensures
            r == balance_of(self@, community_pool(self@)),
    {
        let a = self.pool_account(1);
        self.balance(&a)
    }

    /// The team vesting pool's balance (`get_team_pool_balance`).
    pub fn get_team_pool_balance(&self) -> (r: u128)
        requires
            self.wf(),
        ensures
            r == balance_of(self@, team_pool(self@)),
    {
        let a = self.pool_account(2);
        self.balance(&a)
    }

    /// The reserve's balance (`get_reserve_pool_balance`).
    pub fn get_reserve_pool_balance(&self) -> (r: u128)
        requires
            self.wf(),
        ensures
            r == balance_of(self@, reserve_pool(self@)),
    {
        let a = self.pool_account(3);
        self.balance(&a)
    }

    /// The dapp funds' balance (`get_dapp_funds`).
    pub fn get_dapp_funds(&self) -> (r: u128)
        requires
            self.wf(),
        ensures
            r == balance_of(self@, dapp_pool(self@)),
    {
        let a = self.pool_account(4);
        self.balance(&a)
    }

    /// Tokens burned so far (`get_total_burned`).
    pub fn get_total_burned(&self) -> (r: u128)
        ensures
            r == self@.meta.total_burned,
    {
        self.metadata.total_burned
    }

    /// How the current fee would be split: burned, to the community pool, to
    /// the dapp funds (`get_fee_distribution`).
    pub fn get_fee_distribution(&self) -> (r: (u128, u128, u128))
        ensures
            r == fee_split(self@.meta.transfer_fee),
    {
        let fee = self.metadata.transfer_fee;
        (percent_of(fee, 20), percent_of(fee, 10), percent_of(fee, 70))
    }
}


// ---------------------------------------------------------------------------
// Reading the logs and the transactions
// ---------------------------------------------------------------------------

/// `r` lists the entries of `m` by increasing key, the keys being `ks`.
pub open spec fn lists_by_key<V>(r: Seq<V>, m: Map<u64, V>, ks: Seq<u64>) -> bool {
    &&& ks.len() == r.len()
    &&& forall|i: int, j: int| 0 <= i < j < ks.len() ==> ks[i] < ks[j]
    &&& forall|i: int| 0 <= i < ks.len() ==> m.contains_key(#[trigger] ks[i]) && r[i] == m[ks[i]]
    &&& forall|k: u64| m.contains_key(k) ==> ks.contains(k)
}

/// The entries of `m` with keys from `start` to `end`, both included.
pub open spec fn key_range<V>(m: Map<u64, V>, start: u64, end: u64) -> Map<u64, V> {
    Map::new(|k: u64| m.contains_key(k) && start <= k <= end, |k: u64| m[k])
}

pub open spec fn log_views(r: Seq<LogEntry>) -> Seq<LogView> {
    r.map_values(|e: LogEntry| e@)
}

pub fn logs_in_range(logs: &NumberTable, start: u64, end: u64) -> (r: Vec<LogEntry>)
    ensures
        exists|ks: Seq<u64>| lists_by_key(log_views(r@), key_range(logs_view(number_table_contents(*logs)), start, end), ks),
        start == 0 && end == u64::MAX ==> exists|ks: Seq<u64>|
            lists_by_key(log_views(r@), logs_view(number_table_contents(*logs)), ks),
{
    let entries = number_table_entries(logs);
    let ghost raw = number_table_contents(*logs);
    let ghost m = key_range(logs_view(number_table_contents(*logs)), start, end);
    let mut out: Vec<LogEntry> = Vec::new();
    let ghost mut ks: Seq<u64> = Seq::empty();
    let ghost mut idx: Seq<int> = Seq::empty();
    let mut i: usize = 0;
    while i < entries.len()
        invariant
            i <= entries@.len(),
            raw == number_table_contents(*logs),
            m == key_range(logs_view(number_table_contents(*logs)), start, end),
            forall|a: int|
                0 <= a < entries@.len() ==> raw.contains_key(#[trigger] entries@[a].0)
                    && raw[entries@[a].0] == entries@[a].1@,
            forall|a: int, b: int|
                0 <= a < b < entries@.len() ==> entries@[a].0 < entries@[b].0,
            ks.len() == out@.len(),
            idx.len() == ks.len(),
            forall|j: int|
                0 <= j < ks.len() ==> 0 <= #[trigger] idx[j] < i && ks[j] == entries@[idx[j]].0,
            forall|j: int, l: int| 0 <= j < l < idx.len() ==> idx[j] < idx[l],
            forall|j: int|
                0 <= j < ks.len() ==> m.contains_key(#[trigger] ks[j]) && log_views(out@)[j]
                    == m[ks[j]],
            forall|a: int|
                0 <= a < i && start <= #[trigger] entries@[a].0 <= end ==> ks.contains(
                    entries@[a].0,
                ),
        decreases entries@.len() - i,
    {
        let k = entries[i].0;
        if start <= k && k <= end {
            let e = decode_log(entries[i].1.as_slice());
            let ghost prev = out@;
            let ghost prev_ks = ks;
            out.push(e);
            proof {
                ks = ks.push(k);
                idx = idx.push(i as int);
                assert(log_views(out@) =~= log_views(prev).push(e@)) by {
                    assert(out@ =~= prev.push(e));
                }
                assert(ks.last() == k);
                assert forall|a: int|
                    0 <= a < i + 1 && start <= #[trigger] entries@[a].0 <= end implies ks.contains(
                    entries@[a].0,
                ) by {
                    if a == i {
                        assert(ks[ks.len() - 1] == entries@[a].0);
                    } else {
                        let w = choose|w: int|
                            0 <= w < prev_ks.len() && prev_ks[w] == entries@[a].0;
                        assert(ks[w] == entries@[a].0);
                    }
                }
            }
        }
        i = i + 1;
    }
    proof {
        assert forall|j: int, l: int| 0 <= j < l < ks.len() implies ks[j] < ks[l] by {
            assert(idx[j] < idx[l]);
        }
        assert forall|k: u64| m.contains_key(k) implies ks.contains(k) by {
            assert(raw.contains_key(k));
            let a = choose|a: int| 0 <= a < entries@.len() && #[trigger] entries@[a].0 == k;
            assert(start <= entries@[a].0 <= end);
        }
        assert(lists_by_key(log_views(out@), m, ks));
        if start == 0 && end == u64::MAX {
            assert(m =~= logs_view(number_table_contents(*logs)));
        }
    }
    out
}

pub fn decode_log(b: &[u8]) -> (r: LogEntry)
    ensures
        r@ == log_of(b@),
{
    match decode_fields(b) {
        Some(l) => {
            if l.len() == 3 {
                assert(views(l@)[0] == l@[0]@ && views(l@)[1] == l@[1]@ && views(l@)[2] == l@[2]@);
                LogEntry {
                    timestamp: decode_u64(l[0].as_slice()),
                    event_type: decode_string(l[1].as_slice()),
                    details: decode_string(l[2].as_slice()),
                }
            } else {
                LogEntry { timestamp: 0, event_type: String::new(), details: String::new() }
            }
        },
        None => LogEntry { timestamp: 0, event_type: String::new(), details: String::new() },
    }
}

/// Whether a transaction involves the principal, as sender, receiver or
/// spender.
pub open spec fn involves(t: TxView, p: Seq<u8>) -> bool {
    ||| t.from.owner == p
    ||| (t.to matches Some(a) && a.owner == p)
    ||| (t.spender matches Some(a) && a.owner == p)
}

pub proof fn lemma_bytes_lt_asym(a: Seq<u8>, b: Seq<u8>)
    ensures
        !(crate::codec::bytes_lt(a, b) && crate::codec::bytes_lt(b, a)),
    decreases a.len(),
{
    if a.len() > 0 && b.len() > 0 && a[0] == b[0] {
        lemma_bytes_lt_asym(a.drop_first(), b.drop_first());
    }
}

/// Whether `a` comes before `b` (`bytes_lt`).
pub fn bytes_less(a: &[u8], b: &[u8]) -> (r: bool)
    ensures
        r == crate::codec::bytes_lt(a@, b@),
{
    let mut i: usize = 0;
    assert(a@.subrange(0, a@.len() as int) =~= a@);
    assert(b@.subrange(0, b@.len() as int) =~= b@);
    while i < a.len() && i < b.len() && a[i] == b[i]
        invariant
            i <= a@.len(),
            i <= b@.len(),
            forall|j: int| 0 <= j < i ==> a@[j] == b@[j],
            crate::codec::bytes_lt(a@, b@) == crate::codec::bytes_lt(
                a@.subrange(i as int, a@.len() as int),
                b@.subrange(i as int, b@.len() as int),
            ),
        decreases a@.len() - i,
    {
        proof {
            let x = a@.subrange(i as int, a@.len() as int);
            let y = b@.subrange(i as int, b@.len() as int);
            assert(x.drop_first() =~= a@.subrange(i + 1, a@.len() as int));
            assert(y.drop_first() =~= b@.subrange(i + 1, b@.len() as int));
        }
        i = i + 1;
    }
    if i == a.len() {
        i < b.len()
    } else if i == b.len() {
        false
    } else {
        a[i] < b[i]
    }
}

pub(crate) fn decode_tx(b: &[u8]) -> (r: TransactionEvent)
    ensures
        r@ == tx_of(b@),
        account_ok(r.from@),
        r.to matches Some(a) ==> account_ok(a@),
        r.spender matches Some(a) ==> account_ok(a@),
{
    let ghost dflt = default_tx();
    match decode_fields(b) {
        Some(l) => {
            if l.len() == 8 {
                proof {
                    assert forall|i: int| 0 <= i < 8 implies views(l@)[i] == l@[i]@ by {}
                }
                let mut id = [0u8; 32];
                let src = &l[0];
                let mut i: usize = 0;
                while i < 32
                    invariant
                        i <= 32,
                        forall|j: int| 0 <= j < i ==> id@[j] == id32(src@)[j],
                    decreases 32 - i,
                {
                    if i < src.len() {
                        id[i] = src[i];
                    } else {
                        id[i] = 0;
                    }
                    i = i + 1;
                }
                assert(id@ =~= id32(src@));
                let to = if l[4].len() == 0 {
                    None
                } else {
                    Some(account_from_key(l[4].as_slice()))
                };
                let spender = if l[5].len() == 0 {
                    None
                } else {
                    Some(account_from_key(l[5].as_slice()))
                };
                let fee = if l[7].len() == 0 {
                    None
                } else {
                    Some(decode_u128(l[7].as_slice()))
                };
                TransactionEvent {
                    tx_id: id,
                    timestamp: decode_u64(l[1].as_slice()),
                    event_type: decode_string(l[2].as_slice()),
                    from: account_from_key(l[3].as_slice()),
                    to,
                    spender,
                    amount: decode_u128(l[6].as_slice()),
                    fee,
                }
            } else {
                assert(Seq::new(32, |i: int| 0u8) =~= id32(Seq::<u8>::empty()));
                let r = TransactionEvent {
                    tx_id: [0u8; 32],
                    timestamp: 0,
                    event_type: String::new(),
                    from: Account { owner: Vec::new(), subaccount: None },
                    to: None,
                    spender: None,
                    amount: 0,
                    fee: None,
                };
                assert(r.tx_id@ =~= id32(Seq::<u8>::empty()));
                r
            }
        },
        None => {
            let r = TransactionEvent {
                tx_id: [0u8; 32],
                timestamp: 0,
                event_type: String::new(),
                from: Account { owner: Vec::new(), subaccount: None },
                to: None,
                spender: None,
                amount: 0,
                fee: None,
            };
            assert(r.tx_id@ =~= id32(Seq::<u8>::empty()));
            r
        },
    }
}


impl Ledger {
    /// The log, by increasing key (`get_logs`).
    pub fn get_logs(&self) -> (r: Vec<LogEntry>)
        ensures
            exists|ks: Seq<u64>| lists_by_key(log_views(r@), self@.logs, ks),
    {
        self.logs_between(0, u64::MAX)
    }

    /// The log entries with keys from `start_time` to `end_time`, both
    /// included, by increasing key (`get_logs_by_range`).
    pub fn get_logs_by_range(&self, start_time: u64, end_time: u64) -> (r: Vec<LogEntry>)
        ensures
            exists|ks: Seq<u64>|
                lists_by_key(log_views(r@), key_range(self@.logs, start_time, end_time), ks),
    {
        self.logs_between(start_time, end_time)
    }

    fn logs_between(&self, start: u64, end: u64) -> (r: Vec<LogEntry>)
        ensures
            exists|ks: Seq<u64>| lists_by_key(log_views(r@), key_range(self@.logs, start, end), ks),
            start == 0 && end == u64::MAX ==> exists|ks: Seq<u64>|
                lists_by_key(log_views(r@), self@.logs, ks),
    {
        let r = logs_in_range(&self.logs, start, end);
        assert(self@.logs == logs_view(number_table_contents(self.logs)));
        r
    }

    /// The transaction with this id, if any (`get_transaction_by_id`).
    pub fn get_transaction_by_id(&self, tx_id: &[u8; 32]) -> (r: Option<TransactionEvent>)
        ensures
            match r {
                Some(t) => self@.transactions.contains_key(tx_id@) && t@
                    == self@.transactions[tx_id@],
                None => !self@.transactions.contains_key(tx_id@),
            },
    {
        let key = to_vec(tx_id.as_slice());
        match byte_table_get(&self.transactions, &key) {
            Some(b) => Some(decode_tx(b.as_slice())),
            None => None,
        }
    }

    /// Up to `limit` transactions that involve `principal`, from
    /// `start_tx_id` on, by increasing id (`get_transactions_by_principal`).
    pub fn get_transactions_by_principal(&self, principal: &Vec<u8>, start_tx_id: &[u8; 32], limit: u64) -> (r: Vec<TransactionEvent>)
        requires
            self.wf(),
        ensures
            r@.len() <= limit,
            forall|i: int|
                0 <= i < r@.len() ==> self@.transactions.contains_key(#[trigger] r@[i].tx_id@)
                    && self@.transactions[r@[i].tx_id@] == r@[i]@ && !crate::codec::bytes_lt(
                    r@[i].tx_id@,
                    start_tx_id@,
                ) && involves(r@[i]@, principal@),
            forall|i: int, j: int|
                0 <= i < j < r@.len() ==> crate::codec::bytes_lt(r@[i].tx_id@, r@[j].tx_id@),
            forall|k: Seq<u8>|
                self@.transactions.contains_key(k) && !crate::codec::bytes_lt(k, start_tx_id@)
                    && involves(#[trigger] self@.transactions[k], principal@) && (r@.len() < limit
                    || (r@.len() > 0 && crate::codec::bytes_lt(k, r@[r@.len() - 1].tx_id@)))
                    ==> exists|i: int| 0 <= i < r@.len() && r@[i].tx_id@ == k,
            forall|k: Seq<u8>|
                #![trigger self@.transactions[k]]
                self@.transactions.contains_key(k) && !crate::codec::bytes_lt(k, start_tx_id@) && (
                self@.transactions[k].from.owner == principal@ || (self@.transactions[k].to matches Some(
                    a,
                ) && a.owner == principal@) || (self@.transactions[k].spender matches Some(a) && a.owner
                    == principal@)) && (r@.len() < limit || (r@.len() > 0 && crate::codec::bytes_lt(
                    k,
                    r@[r@.len() - 1].tx_id@,
                ))) ==> exists|i: int| 0 <= i < r@.len() && r@[i].tx_id@ == k,
    {
        let r = self.select_transactions(principal, true, start_tx_id, start_tx_id, false, Some(limit));
        assert forall|k: Seq<u8>|
            #![trigger self@.transactions[k]]
            self@.transactions.contains_key(k) && !crate::codec::bytes_lt(k, start_tx_id@) && (
            self@.transactions[k].from.owner == principal@ || (self@.transactions[k].to matches Some(a)
                && a.owner == principal@) || (self@.transactions[k].spender matches Some(a) && a.owner
                == principal@)) && (r@.len() < limit || (r@.len() > 0 && crate::codec::bytes_lt(
                k,
                r@[r@.len() - 1].tx_id@,
            ))) implies exists|i: int| 0 <= i < r@.len() && r@[i].tx_id@ == k by {
            assert(involves(self@.transactions[k], principal@));
        }
        r
    }

    /// The transactions with ids from `start` to `end`, both included, by
    /// increasing id (`get_transactions`).
    pub fn get_transactions(&self, start: &[u8; 32], end: &[u8; 32]) -> (r: Vec<TransactionEvent>)
        requires
            self.wf(),
        ensures
            forall|i: int|
                0 <= i < r@.len() ==> self@.transactions.contains_key(#[trigger] r@[i].tx_id@)
                    && self@.transactions[r@[i].tx_id@] == r@[i]@ && !crate::codec::bytes_lt(
                    r@[i].tx_id@,
                    start@,
                ) && !crate::codec::bytes_lt(end@, r@[i].tx_id@),
            forall|i: int, j: int|
                0 <= i < j < r@.len() ==> crate::codec::bytes_lt(r@[i].tx_id@, r@[j].tx_id@),
            forall|k: Seq<u8>|
                #[trigger] self@.transactions.contains_key(k) && !crate::codec::bytes_lt(k, start@)
                    && !crate::codec::bytes_lt(end@, k) ==> exists|i: int|
                    0 <= i < r@.len() && r@[i].tx_id@ == k,
    {
        let empty: Vec<u8> = Vec::new();
        self.select_transactions(&empty, false, start, end, true, None)
    }

    /// The transactions from `start` on (up to `end` where `bounded`), that
    /// involve `principal` where `filter`, at most `limit` of them where a
    /// limit is given.
    fn select_transactions(
        &self,
        principal: &Vec<u8>,
        filter: bool,
        start: &[u8; 32],
        end: &[u8; 32],
        bounded: bool,
        limit: Option<u64>,
    ) -> (r: Vec<TransactionEvent>)
        requires
            self.wf(),
        ensures
            limit matches Some(l) ==> r@.len() <= l,
            forall|i: int|
                0 <= i < r@.len() ==> self@.transactions.contains_key(#[trigger] r@[i].tx_id@)
                    && self@.transactions[r@[i].tx_id@] == r@[i]@ && !crate::codec::bytes_lt(
                    r@[i].tx_id@,
                    start@,
                ) && (bounded ==> !crate::codec::bytes_lt(end@, r@[i].tx_id@)) && (filter
                    ==> involves(r@[i]@, principal@)),
            forall|i: int, j: int|
                0 <= i < j < r@.len() ==> crate::codec::bytes_lt(r@[i].tx_id@, r@[j].tx_id@),
            forall|k: Seq<u8>|
                self@.transactions.contains_key(k) && !crate::codec::bytes_lt(k, start@) && (
                bounded ==> !crate::codec::bytes_lt(end@, k)) && (filter ==> involves(
                    #[trigger] self@.transactions[k],
                    principal@,
                )) && (limit is None || r@.len() < limit->0 || (r@.len() > 0
                    && crate::codec::bytes_lt(k, r@[r@.len() - 1].tx_id@))) ==> exists|i: int|
                    0 <= i < r@.len() && r@[i].tx_id@ == k,
    {
        let entries = byte_table_entries(&self.transactions);
        let ghost raw = byte_table_contents(self.transactions);
        let ghost txs = self@.transactions;
        let mut out: Vec<TransactionEvent> = Vec::new();
        let ghost mut idx: Seq<int> = Seq::empty();
        let mut count: u64 = 0;
        let mut i: usize = 0;
        proof {
            lemma_keys_injective();
        }
        while i < entries.len()
            invariant
                i <= entries@.len(),
                self.wf(),
                raw == byte_table_contents(self.transactions),
                txs == self@.transactions,
                forall|a: int|
                    0 <= a < entries@.len() ==> raw.contains_key(#[trigger] entries@[a].0@)
                        && raw[entries@[a].0@] == entries@[a].1@,
                forall|a: int, b: int|
                    0 <= a < b < entries@.len() ==> crate::codec::bytes_lt(
                        entries@[a].0@,
                        entries@[b].0@,
                    ),
                count == out@.len(),
                count <= i,
                limit matches Some(l) ==> count <= l,
                idx.len() == out@.len(),
                forall|j: int|
                    0 <= j < idx.len() ==> 0 <= #[trigger] idx[j] < i && out@[j].tx_id@
                        == entries@[idx[j]].0@,
                forall|j: int, l: int| 0 <= j < l < idx.len() ==> idx[j] < idx[l],
                forall|j: int|
                    0 <= j < out@.len() ==> tx_selected(txs, #[trigger] out@[j].tx_id@, start@, end@, bounded, filter, principal@) && txs[out@[j].tx_id@]
                        == out@[j]@,
                forall|a: int|
                    0 <= a < i && #[trigger] tx_selected(txs, entries@[a].0@, start@, end@, bounded, filter, principal@) ==> exists|j: int|
                        0 <= j < out@.len() && out@[j].tx_id@ == entries@[a].0@,
            ensures
                i == entries@.len() || (limit matches Some(l) && count >= l),
            decreases entries@.len() - i,
        {
            match limit {
                Some(l) => {
                    if count >= l {
                        break;
                    }
                },
                None => {},
            }
            let ghost prev = out@;
            let key = &entries[i].0;
            let ghost k = key@;
            assert(txs.contains_key(k));
            assert(txs[k] == tx_of(raw[k]));
            let after_start = !bytes_less(key.as_slice(), start.as_slice());
            let before_end = !bounded || !bytes_less(end.as_slice(), key.as_slice());
            let mut pushed = false;
            if after_start && before_end {
                let t = decode_tx(entries[i].1.as_slice());
                assert(t@ == txs[k]);
                assert(t.tx_id@ == k);
                if !filter || tx_involves(&t, principal) {
                    out.push(t);
                    count = count + 1;
                    pushed = true;
                    proof {
                        idx = idx.push(i as int);
                        assert(out@[out@.len() - 1] == t);
                    }
                }
            }
            assert(tx_selected(txs, k, start@, end@, bounded, filter, principal@) == (txs.contains_key(k) && !crate::codec::bytes_lt(k, start@) && (bounded
                ==> !crate::codec::bytes_lt(end@, k)) && (filter ==> involves(txs[k], principal@))));
            assert(pushed == tx_selected(txs, k, start@, end@, bounded, filter, principal@));
            proof {
                assert forall|a: int|
                    0 <= a < i + 1 && #[trigger] tx_selected(txs, entries@[a].0@, start@, end@, bounded, filter, principal@) implies exists|j: int|
                    0 <= j < out@.len() && out@[j].tx_id@ == entries@[a].0@ by {
                    if a == i {
                        assert(out@[out@.len() - 1].tx_id@ == entries@[a].0@);
                    } else {
                        let j = choose|j: int|
                            0 <= j < prev.len() && prev[j].tx_id@ == entries@[a].0@;
                        assert(out@[j] == prev[j]);
                    }
                }
            }
            i = i + 1;
        }
        proof {
            assert forall|j: int, l: int| 0 <= j < l < out@.len() implies crate::codec::bytes_lt(
                out@[j].tx_id@,
                out@[l].tx_id@,
            ) by {
                assert(idx[j] < idx[l]);
            }
            assert forall|k: Seq<u8>|
                self@.transactions.contains_key(k) && !crate::codec::bytes_lt(k, start@) && (
                bounded ==> !crate::codec::bytes_lt(end@, k)) && (filter ==> involves(
                    #[trigger] self@.transactions[k],
                    principal@,
                )) && (limit is None || out@.len() < limit->0 || (out@.len() > 0
                    && crate::codec::bytes_lt(
                    k,
                    out@[out@.len() - 1].tx_id@,
                ))) implies exists|j: int| 0 <= j < out@.len() && out@[j].tx_id@ == k by {
                assert(tx_selected(txs, k, start@, end@, bounded, filter, principal@));
                assert(raw.contains_key(k));
                let a = choose|a: int| 0 <= a < entries@.len() && #[trigger] entries@[a].0@ == k;
                if a >= i {
                    let last = idx[out@.len() - 1];
                    assert(last < i);
                    assert(crate::codec::bytes_lt(entries@[last].0@, entries@[a].0@));
                    lemma_bytes_lt_asym(entries@[last].0@, entries@[a].0@);
                }
            }
        }
        out
    }
}

/// The transaction under `k` is one that `select_transactions` keeps.
pub open spec fn tx_selected(
    txs: Map<Seq<u8>, TxView>,
    k: Seq<u8>,
    start: Seq<u8>,
    end: Seq<u8>,
    bounded: bool,
    filter: bool,
    principal: Seq<u8>,
) -> bool {
    &&& txs.contains_key(k)
    &&& !crate::codec::bytes_lt(k, start)
    &&& bounded ==> !crate::codec::bytes_lt(end, k)
    &&& filter ==> involves(txs[k], principal)
}

/// Whether the transaction involves the principal.
fn tx_involves(t: &TransactionEvent, p: &Vec<u8>) -> (r: bool)
    ensures
        r == involves(t@, p@),
{
    if crate::codec::bytes_eq(t.from.owner.as_slice(), p.as_slice()) {
        return true;
    }
    match &t.to {
        Some(a) => {
            if crate::codec::bytes_eq(a.owner.as_slice(), p.as_slice()) {
                return true;
            }
        },
        None => {},
    }
    match &t.spender {
        Some(a) => crate::codec::bytes_eq(a.owner.as_slice(), p.as_slice()),
        None => false,
    }
}

} // verus!
