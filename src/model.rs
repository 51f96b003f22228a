use crate::errors::MyError;
use vstd::prelude::*;

verus! {

pub type ClientId = u16;

pub type TransactionId = u32;

/// Amounts are fixed-point numbers: one unit of currency is this many units of
/// the integer that holds an amount, so amounts carry four decimal places.
pub const AMOUNT_SCALE: i64 = 10000;

/// Whether an account is frozen. `Invalid` stands for a code that names no
/// state, and counts as frozen.
#[derive(Clone, Copy, Debug, PartialEq, Eq, Structural)]
pub enum LockedState {
    Invalid,
    Locked,
    Unlocked,
}

impl LockedState {
    pub open spec fn code(self) -> u8 {
        match self {
            LockedState::Invalid => 0,
            LockedState::Locked => 1,
            LockedState::Unlocked => 2,
        }
    }

    pub open spec fn from_code(val: u8) -> LockedState {
        if val == 1 {
            LockedState::Locked
        } else if val == 2 {
            LockedState::Unlocked
        } else {
            LockedState::Invalid
        }
    }

    pub fn to_u8(&self) -> (r: u8)
        ensures
            r == self.code(),
    {
        match self {
            LockedState::Invalid => 0,
            LockedState::Locked => 1,
            LockedState::Unlocked => 2,
        }
    }

    /// The text that an account listing shows for this state.
    pub fn as_text(&self) -> (r: &'static str)
        ensures
            r@ == (match self {
                LockedState::Invalid => "invalid"@,
                LockedState::Locked => "true"@,
                LockedState::Unlocked => "false"@,
            }),
    {
        match self {
            LockedState::Invalid => "invalid",
            LockedState::Locked => "true",
            LockedState::Unlocked => "false",
        }
    }
}

impl From<u8> for LockedState {
    fn from(val: u8) -> (r: LockedState) {
        if val == 1 {
            LockedState::Locked
        } else if val == 2 {
            LockedState::Unlocked
        } else {
            LockedState::Invalid
        }
    }
}

impl vstd::std_specs::convert::FromSpecImpl<u8> for LockedState {
    open spec fn obeys_from_spec() -> bool {
        true
    }

    open spec fn from_spec(val: u8) -> LockedState {
        LockedState::from_code(val)
    }
}

/// A client's account. `available` is liquid funds, `held` the funds under
/// dispute, and `total` their sum.
#[derive(Clone, Copy, Debug, PartialEq, Eq, Structural)]
pub struct ClientState {
    pub client_id: ClientId,
    pub available: i64,
    pub held: i64,
    pub total: i64,
    pub locked: LockedState,
}

impl ClientState {
    /// The account of a client that was never seen before.
    pub open spec fn fresh(client_id: ClientId) -> ClientState {
        ClientState { client_id, available: 0, held: 0, total: 0, locked: LockedState::Unlocked }
    }

    /// `total` is the sum of the other two balances.
    pub open spec fn balanced(self) -> bool {
        self.total == self.available + self.held
    }

    pub open spec fn frozen(self) -> bool {
        self.locked != LockedState::Unlocked
    }

    pub fn init(client_id: ClientId) -> (r: ClientState)
        ensures
            r == ClientState::fresh(client_id),
    {
        ClientState {
            client_id,
            available: 0,
            held: 0,
            total: 0,
            locked: LockedState::Unlocked,
        }
    }

    pub fn is_locked(&self) -> (r: bool)
        ensures
            r == self.frozen(),
    {
        match self.locked {
            LockedState::Unlocked => false,
            _ => true,
        }
    }
}

/// All kinds of transaction record.
#[derive(Clone, Copy, Debug, PartialEq, Eq, Structural)]
pub enum TxnType {
    Invalid,
    Deposit,
    Withdrawal,
    Dispute,
    Resolve,
    Chargeback,
}

/// The name under which each kind of record appears in the input, if any.
pub open spec fn txn_type_of_name(s: Seq<char>) -> Option<TxnType> {
    if s == "deposit"@ {
        Some(TxnType::Deposit)
    } else if s == "withdrawal"@ {
        Some(TxnType::Withdrawal)
    } else if s == "dispute"@ {
        Some(TxnType::Dispute)
    } else if s == "resolve"@ {
        Some(TxnType::Resolve)
    } else if s == "chargeback"@ {
        Some(TxnType::Chargeback)
    } else {
        None
    }
}

impl TxnType {
    pub open spec fn code(self) -> u8 {
        match self {
            TxnType::Invalid => 0,
            TxnType::Deposit => 1,
            TxnType::Withdrawal => 2,
            TxnType::Dispute => 3,
            TxnType::Resolve => 4,
            TxnType::Chargeback => 5,
        }
    }

    pub open spec fn from_code(val: u8) -> TxnType {
        if val == 1 {
            TxnType::Deposit
        } else if val == 2 {
            TxnType::Withdrawal
        } else if val == 3 {
            TxnType::Dispute
        } else if val == 4 {
            TxnType::Resolve
        } else if val == 5 {
            TxnType::Chargeback
        } else {
            TxnType::Invalid
        }
    }

    pub fn to_u8(&self) -> (r: u8)
        ensures
            r == self.code(),
    {
        match self {
            TxnType::Invalid => 0,
            TxnType::Deposit => 1,
            TxnType::Withdrawal => 2,
            TxnType::Dispute => 3,
            TxnType::Resolve => 4,
            TxnType::Chargeback => 5,
        }
    }

    /// Reads the name of a kind of record; names are lower case and exact.
    pub fn parse(s: &str) -> (r: Result<TxnType, MyError>)
        ensures
            match txn_type_of_name(s@) {
                Some(t) => r == Ok::<TxnType, MyError>(t),
                None => r matches Err(MyError::Conversion(m)) && m@ == s@,
            },
    {
        if str_equals(s, "deposit") {
            Ok(TxnType::Deposit)
        } else if str_equals(s, "withdrawal") {
            Ok(TxnType::Withdrawal)
        } else if str_equals(s, "dispute") {
            Ok(TxnType::Dispute)
        } else if str_equals(s, "resolve") {
            Ok(TxnType::Resolve)
        } else if str_equals(s, "chargeback") {
            Ok(TxnType::Chargeback)
        } else {
            Err(MyError::Conversion(String::from_str(s)))
        }
    }
}

impl std::str::FromStr for TxnType {
    type Err = MyError;

    fn from_str(s: &str) -> Result<TxnType, MyError> {
        TxnType::parse(s)
    }
}

impl From<u8> for TxnType {
    fn from(val: u8) -> (r: TxnType) {
        if val == 1 {
            TxnType::Deposit
        } else if val == 2 {
            TxnType::Withdrawal
        } else if val == 3 {
            TxnType::Dispute
        } else if val == 4 {
            TxnType::Resolve
        } else if val == 5 {
            TxnType::Chargeback
        } else {
            TxnType::Invalid
        }
    }
}

impl vstd::std_specs::convert::FromSpecImpl<u8> for TxnType {
    open spec fn obeys_from_spec() -> bool {
        true
    }

    open spec fn from_spec(val: u8) -> TxnType {
        TxnType::from_code(val)
    }
}

/// Whether two strings hold the same characters.
pub fn str_equals(a: &str, b: &str) -> (r: bool)
    ensures
        r == (a@ == b@),
{
    let n = a.unicode_len();
    if n != b.unicode_len() {
        return false;
    }
    let mut i: usize = 0;
    while i < n
        invariant
            n == a@.len(),
            n == b@.len(),
            i <= n,
            a@.subrange(0, i as int) == b@.subrange(0, i as int),
        decreases n - i,
    {
        if a.get_char(i) != b.get_char(i) {
            assert(a@[i as int] != b@[i as int]);
            return false;
        }
        assert(a@.subrange(0, i + 1) == a@.subrange(0, i as int).push(a@[i as int]));
        assert(b@.subrange(0, i + 1) == b@.subrange(0, i as int).push(b@[i as int]));
        i = i + 1;
    }
    assert(a@ == a@.subrange(0, n as int));
    assert(b@ == b@.subrange(0, n as int));
    true
}

/// A record as read from the input, before validation. `amount` is in
/// fixed-point units (see `AMOUNT_SCALE`).
#[derive(Clone, Copy, Debug, PartialEq, Eq, Structural)]
pub struct RawTxnInput {
    pub txn_type: TxnType,
    pub client_id: ClientId,
    pub txn_id: TransactionId,
    pub amount: Option<i64>,
}

/// A deposit or a withdrawal: `amount` is positive for a deposit and negative
/// for a withdrawal.
#[derive(Clone, Copy, Debug, PartialEq, Eq, Structural)]
pub struct BalanceTransfer {
    pub client_id: ClientId,
    pub txn_id: TransactionId,
    pub amount: i64,
}

/// A validated command.
#[derive(Clone, Copy, Debug, PartialEq, Eq, Structural)]
pub enum Txn {
    BalanceTransfer(BalanceTransfer),
    Dispute { client_id: ClientId, txn_id: TransactionId },
    Resolve { client_id: ClientId, txn_id: TransactionId },
    Chargeback { client_id: ClientId, txn_id: TransactionId },
}

impl Txn {
    pub open spec fn client(self) -> ClientId {
        match self {
            Txn::BalanceTransfer(b) => b.client_id,
            Txn::Dispute { client_id, .. } => client_id,
            Txn::Resolve { client_id, .. } => client_id,
            Txn::Chargeback { client_id, .. } => client_id,
        }
    }
}

/// Where a dispute stands: it opens, then ends resolved or charged back.
#[derive(Clone, Copy, Debug, PartialEq, Eq, Structural)]
pub enum DisputeStatus {
    Invalid,
    Open,
    Resolved,
    Chargeback,
}

impl DisputeStatus {
    pub open spec fn code(self) -> u8 {
        match self {
            DisputeStatus::Invalid => 0,
            DisputeStatus::Open => 1,
            DisputeStatus::Resolved => 2,
            DisputeStatus::Chargeback => 3,
        }
    }

    pub open spec fn from_code(val: u8) -> DisputeStatus {
        if val == 1 {
            DisputeStatus::Open
        } else if val == 2 {
            DisputeStatus::Resolved
        } else if val == 3 {
            DisputeStatus::Chargeback
        } else {
            DisputeStatus::Invalid
        }
    }

    pub fn to_u8(&self) -> (r: u8)
        ensures
            r == self.code(),
    {
        match self {
            DisputeStatus::Invalid => 0,
            DisputeStatus::Open => 1,
            DisputeStatus::Resolved => 2,
            DisputeStatus::Chargeback => 3,
        }
    }
}

impl From<u8> for DisputeStatus {
    fn from(val: u8) -> (r: DisputeStatus) {
        if val == 1 {
            DisputeStatus::Open
        } else if val == 2 {
            DisputeStatus::Resolved
        } else if val == 3 {
            DisputeStatus::Chargeback
        } else {
            DisputeStatus::Invalid
        }
    }
}

impl vstd::std_specs::convert::FromSpecImpl<u8> for DisputeStatus {
    open spec fn obeys_from_spec() -> bool {
        true
    }

    open spec fn from_spec(val: u8) -> DisputeStatus {
        DisputeStatus::from_code(val)
    }
}

/// A dispute against the balance transfer `txn_id` of client `client_id`.
#[derive(Clone, Copy, Debug, PartialEq, Eq, Structural)]
pub struct Dispute {
    pub client_id: ClientId,
    pub txn_id: TransactionId,
    pub status: DisputeStatus,
}

/// The character of a decimal digit.
pub open spec fn digit_char(d: int) -> char {
    if d == 0 {
        '0'
    } else if d == 1 {
        '1'
    } else if d == 2 {
        '2'
    } else if d == 3 {
        '3'
    } else if d == 4 {
        '4'
    } else if d == 5 {
        '5'
    } else if d == 6 {
        '6'
    } else if d == 7 {
        '7'
    } else if d == 8 {
        '8'
    } else {
        '9'
    }
}

/// `n` in decimal, without leading zeros.
pub open spec fn decimal_text(n: nat) -> Seq<char>
    decreases n,
{
    if n < 10 {
        seq![digit_char(n as int)]
    } else {
        decimal_text(n / 10).push(digit_char((n % 10) as int))
    }
}

/// The last `w` decimal digits of `n`, with leading zeros.
pub open spec fn padded_digits(n: nat, w: nat) -> Seq<char>
    decreases w,
{
    if w == 0 {
        Seq::empty()
    } else {
        padded_digits(n / 10, (w - 1) as nat).push(digit_char((n % 10) as int))
    }
}

/// The `w` digits of the fraction `f / 10^w` without its trailing zeros.
pub open spec fn fraction_text(f: nat, w: nat) -> Seq<char>
    decreases w,
{
    if w == 0 {
        Seq::empty()
    } else if f % 10 == 0 {
        fraction_text(f / 10, (w - 1) as nat)
    } else {
        padded_digits(f, w)
    }
}

/// An amount of fixed-point units as a decimal: a sign if negative, the
/// whole part, then, if the fraction is not zero, a point and its digits
/// without trailing zeros (`2`, `1.7`, `-0.25`).
pub open spec fn amount_text(units: int) -> Seq<char> {
    let m = if units < 0 {
        -units
    } else {
        units
    };
    let sign = if units < 0 {
        seq!['-']
    } else {
        Seq::empty()
    };
    let frac = m % AMOUNT_SCALE as int;
    let point = if frac == 0 {
        Seq::empty()
    } else {
        seq!['.'] + fraction_text(frac as nat, 4)
    };
    sign + decimal_text((m / AMOUNT_SCALE as int) as nat) + point
}

/// An account as a line of the account listing: `available,held,total,locked`.
pub open spec fn account_text(a: ClientState) -> Seq<char> {
    amount_text(a.available as int) + ","@ + amount_text(a.held as int) + ","@ + amount_text(
        a.total as int,
    ) + ","@ + (match a.locked {
        LockedState::Invalid => "invalid"@,
        LockedState::Locked => "true"@,
        LockedState::Unlocked => "false"@,
    })
}

fn digit_text(d: u64) -> (r: &'static str)
    requires
        d < 10,
    ensures
        r@ == seq![digit_char(d as int)],
{
    proof {
        reveal_strlit("0");
        reveal_strlit("1");
        reveal_strlit("2");
        reveal_strlit("3");
        reveal_strlit("4");
        reveal_strlit("5");
        reveal_strlit("6");
        reveal_strlit("7");
        reveal_strlit("8");
        reveal_strlit("9");
    }
    if d == 0 {
        "0"
    } else if d == 1 {
        "1"
    } else if d == 2 {
        "2"
    } else if d == 3 {
        "3"
    } else if d == 4 {
        "4"
    } else if d == 5 {
        "5"
    } else if d == 6 {
        "6"
    } else if d == 7 {
        "7"
    } else if d == 8 {
        "8"
    } else {
        "9"
    }
}

fn push_decimal(s: &mut String, n: u64)
    ensures
        final(s)@ == old(s)@ + decimal_text(n as nat),
    decreases n,
{
    if n >= 10 {
        push_decimal(s, n / 10);
    }
    s.append(digit_text(n % 10));
}

fn push_padded(s: &mut String, n: u64, w: u64)
    ensures
        final(s)@ == old(s)@ + padded_digits(n as nat, w as nat),
    decreases w,
{
    if w > 0 {
        push_padded(s, n / 10, w - 1);
        s.append(digit_text(n % 10));
    }
}

/// The text of an amount, see `amount_text`.
pub fn format_amount(units: i64) -> (r: String)
    ensures
        r@ == amount_text(units as int),
{
    let m: u64 = if units < 0 {
        (-(units as i128)) as u64
    } else {
        units as u64
    };
    let mut s = String::new();
    if units < 0 {
        s.append("-");
    }
    push_decimal(&mut s, m / 10000);
    let frac = m % 10000;
    if frac != 0 {
        s.append(".");
        let mut f = frac;
        let mut w: u64 = 4;
        while f % 10 == 0
            invariant
                0 < f,
                w <= 4,
                fraction_text(frac as nat, 4) == fraction_text(f as nat, w as nat),
                f < 10000,
                w == 0 ==> f == 0,
                (w == 1 ==> f < 10) && (w == 2 ==> f < 100) && (w == 3 ==> f < 1000),
            decreases w,
        {
            f = f / 10;
            w = w - 1;
        }
        push_padded(&mut s, f, w);
    }
    proof {
        reveal_strlit("-");
        reveal_strlit(".");
    }
    s
}

impl ClientState {
    /// The account as a line of the account listing, see `account_text`.
    pub fn display_text(&self) -> (r: String)
        ensures
            r@ == account_text(*self),
    {
        let mut s = format_amount(self.available);
        s.append(",");
        s.append(format_amount(self.held).as_str());
        s.append(",");
        s.append(format_amount(self.total).as_str());
        s.append(",");
        s.append(self.locked.as_text());
        s
    }
}

} // verus!
