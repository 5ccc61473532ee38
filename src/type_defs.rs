use rust_decimal::Decimal;
use vstd::prelude::*;

verus! {

/// Identifier of a client account.
#[derive(Debug, PartialEq, Eq, Structural, Hash, Copy, Clone)]
pub struct ClientId(pub u16);

/// Identifier of a transaction, unique over the whole input stream.
#[derive(Debug, PartialEq, Eq, Structural, Hash, Copy, Clone)]
pub struct TransactionId(pub u32);

/// Number of fractional decimal digits an amount may carry.
pub const PRECISION: u32 = 4;

/// Largest magnitude of a decimal mantissa (96 bits).
pub const MAX_UNITS: i128 = 79228162514264337593543950335;

/// Errors reported while parsing or applying a transaction.
#[derive(Debug, PartialEq, Eq, Structural, Copy, Clone)]
pub enum LedgerError {
    InvalidPrecision,
    InvalidFormat,
    DuplicateTransaction,
    InsufficientFunds,
    AccountLocked,
    AlreadyDisputed,
    TransactionNotFound,
    WrongTransactionType,
    UnrecognizedTransactionType,
    StoreIoError,
    AmountOverflow,
}

/// An exact monetary amount, counted in ten-thousandths.
#[derive(Debug, PartialEq, Eq, Structural, Copy, Clone)]
pub struct Amount(i128);

/// Whether `v` lies in the range that a decimal with a 96-bit mantissa holds.
pub open spec fn in_range(v: int) -> bool {
    -(MAX_UNITS as int) <= v <= MAX_UNITS as int
}

/// Ten to the power `n`.
pub open spec fn pow10(n: nat) -> int
    decreases n,
{
    if n == 0 {
        1
    } else {
        10 * pow10((n - 1) as nat)
    }
}

/// What parsing a decimal text gives, as (mantissa, scale): the value is
/// `mantissa / 10^scale`. `None` where the text is not a decimal number.
pub uninterp spec fn decimal_parse(s: Seq<char>) -> Option<(int, nat)>;

/// The character of decimal digit `d`.
pub open spec fn digit_char(d: int) -> char {
    if d == 0 {
        '0'
    } else if d == 1 {
        '1'
    } else if d == 2 {
        '2'
    } else if d == 3 {
        '3'
    } else if d == 4 {
        '4'
    } else if d == 5 {
        '5'
    } else if d == 6 {
        '6'
    } else if d == 7 {
        '7'
    } else if d == 8 {
        '8'
    } else {
        '9'
    }
}

/// The decimal digits of `n`, without leading zeros (`0` for zero).
pub open spec fn nat_digits(n: nat) -> Seq<char>
    decreases n,
{
    if n < 10 {
        seq![digit_char(n as int)]
    } else {
        nat_digits(n / 10).push(digit_char((n % 10) as int))
    }
}

/// The decimal text of `units / 10^4` with four fractional digits: a minus
/// sign for a negative value, the whole part, a point, then four digits.
pub open spec fn decimal_text(units: int) -> Seq<char> {
    let a: nat = (if units < 0 {
        -units
    } else {
        units
    }) as nat;
    let f: nat = a % 10000;
    let sign = if units < 0 {
        seq!['-']
    } else {
        Seq::<char>::empty()
    };
    sign + nat_digits(a / 10000) + seq![
        '.',
        digit_char((f / 1000) as int),
        digit_char((f / 100 % 10) as int),
        digit_char((f / 10 % 10) as int),
        digit_char((f % 10) as int),
    ]
}

/// Relies on `Decimal::from_str_exact`, `Decimal::mantissa` and
/// `Decimal::scale`: the parse depends on the text alone, fails rather than
/// rounds, and a mantissa is held in 96 bits.
#[verifier::external_body]
fn parse_decimal(s: &str) -> (r: Option<(i128, u32)>)
    ensures
        r.is_some() == decimal_parse(s@).is_some(),
        r matches Some(p) ==> decimal_parse(s@) == Some((p.0 as int, p.1 as nat)),
        r matches Some(p) ==> in_range(p.0 as int),
{
    match Decimal::from_str_exact(s) {
        Ok(d) => Some((d.mantissa(), d.scale())),
        Err(_) => None,
    }
}

/// Relies on `Decimal::from_i128_with_scale` (which panics only outside the
/// 96-bit range) and on `Decimal`'s `Display`, which at scale 4 writes the
/// sign, the whole part, a point and four fractional digits.
#[verifier::external_body]
fn format_units(units: i128) -> (r: String)
    requires
        in_range(units as int),
    ensures
        r@ == decimal_text(units as int),
{
    Decimal::from_i128_with_scale(units, PRECISION).to_string()
}

impl Amount {
    /// The value in ten-thousandths.
    pub closed spec fn units(self) -> int {
        self.0 as int
    }

    pub open spec fn wf(self) -> bool {
        in_range(self.units())
    }

    /// What `from_parts` gives, in ten-thousandths.
    pub open spec fn from_parts_spec(mantissa: int, scale: nat) -> Result<int, LedgerError> {
        if scale > PRECISION {
            Err(LedgerError::InvalidPrecision)
        } else if !in_range(mantissa * pow10((PRECISION - scale) as nat)) {
            Err(LedgerError::AmountOverflow)
        } else {
            Ok(mantissa * pow10((PRECISION - scale) as nat))
        }
    }

    /// What `from_str` gives, in ten-thousandths.
    pub open spec fn parse_spec(s: Seq<char>) -> Result<int, LedgerError> {
        match decimal_parse(s) {
            None => Err(LedgerError::InvalidFormat),
            Some(p) => Self::from_parts_spec(p.0, p.1),
        }
    }

    /// Zero.
    pub fn new() -> (r: Self)
        ensures
            r.units() == 0,
            r.wf(),
    {
        Amount(0)
    }

    /// The amount `mantissa / 10^scale`, refused when `scale` exceeds the
    /// precision.
    pub fn from_parts(mantissa: i128, scale: u32) -> (r: Result<Self, LedgerError>)
        requires
            in_range(mantissa as int),
        ensures
            match (r, Self::from_parts_spec(mantissa as int, scale as nat)) {
                (Ok(a), Ok(u)) => a.units() == u && a.wf(),
                (Err(e), Err(f)) => e == f,
                _ => false,
            },
    {
        if scale > PRECISION {
            return Err(LedgerError::InvalidPrecision);
        }
        let factor: i128 = if scale == 4 {
            1
        } else if scale == 3 {
            10
        } else if scale == 2 {
            100
        } else if scale == 1 {
            1000
        } else {
            10000
        };
        proof {
            reveal_with_fuel(pow10, 5);
            assert(factor as int == pow10((PRECISION - scale) as nat));
            assert(-(MAX_UNITS as int) * 10000 <= mantissa as int * factor as int <= (
            MAX_UNITS as int) * 10000) by (nonlinear_arith)
                requires
                    in_range(mantissa as int),
                    1 <= factor <= 10000,
            ;
        }
        let units = mantissa * factor;
        if units < -MAX_UNITS || units > MAX_UNITS {
            return Err(LedgerError::AmountOverflow);
        }
        Ok(Amount(units))
    }

    /// Parses a decimal text, refusing more than four fractional digits.
    pub fn from_str(fixed_value: String) -> (r: Result<Self, LedgerError>)
        ensures
            match (r, Self::parse_spec(fixed_value@)) {
                (Ok(a), Ok(u)) => a.units() == u && a.wf(),
                (Err(e), Err(f)) => e == f,
                _ => false,
            },
    {
        match parse_decimal(fixed_value.as_str()) {
            None => Err(LedgerError::InvalidFormat),
            Some(p) => Self::from_parts(p.0, p.1),
        }
    }

    /// The exact decimal text of the amount, with four fractional digits.
    pub fn to_text(&self) -> (r: String)
        requires
            self.wf(),
        ensures
            r@ == decimal_text(self.units()),
    {
        format_units(self.0)
    }

    /// `self + other`, or `None` when the sum leaves the representable range.
    pub fn checked_add(self, other: Self) -> (r: Option<Self>)
        requires
            self.wf(),
            other.wf(),
        ensures
            r matches Some(a) ==> a.units() == self.units() + other.units() && a.wf(),
            r is None <==> !in_range(self.units() + other.units()),
    {
        let s = self.0 + other.0;
        if s < -MAX_UNITS || s > MAX_UNITS {
            None
        } else {
            Some(Amount(s))
        }
    }

    /// `self - other`, or `None` when the difference leaves the representable
    /// range.
    pub fn checked_sub(self, other: Self) -> (r: Option<Self>)
        requires
            self.wf(),
            other.wf(),
        ensures
            r matches Some(a) ==> a.units() == self.units() - other.units() && a.wf(),
            r is None <==> !in_range(self.units() - other.units()),
    {
        let s = self.0 - other.0;
        if s < -MAX_UNITS || s > MAX_UNITS {
            None
        } else {
            Some(Amount(s))
        }
    }

    /// Whether the amount lies in the representable range.
    pub fn is_valid(&self) -> (r: bool)
        ensures
            r == self.wf(),
    {
        -MAX_UNITS <= self.0 && self.0 <= MAX_UNITS
    }

    /// Whether `self <= other`.
    pub fn le(self, other: Self) -> (r: bool)
        ensures
            r == (self.units() <= other.units()),
    {
        self.0 <= other.0
    }
}

/// One input record as decoded by the reader.
#[derive(Debug, Clone)]
pub struct TransactionRecord {
    pub transaction_type: String,
    pub client: u16,
    pub tx: u32,
    pub amount: Option<String>,
}

/// A transaction, applied to the account it names.
#[derive(Debug, PartialEq, Eq, Structural, Copy, Clone)]
pub enum Transaction {
    Deposit(ClientId, TransactionId, Amount),
    Withdrawal(ClientId, TransactionId, Amount),
    Dispute(ClientId, TransactionId),
    Resolve(ClientId, TransactionId),
    ChargeBack(ClientId, TransactionId),
    Unknown,
}

/// The kinds of record that the reader may name.
pub enum RecordKind {
    Deposit,
    Withdrawal,
    Dispute,
    Resolve,
    ChargeBack,
    Unknown,
}

/// The kind that a record's type text names.
pub open spec fn record_kind(s: Seq<char>) -> RecordKind {
    if s == "deposit"@ {
        RecordKind::Deposit
    } else if s == "withdrawal"@ {
        RecordKind::Withdrawal
    } else if s == "dispute"@ {
        RecordKind::Dispute
    } else if s == "resolve"@ {
        RecordKind::Resolve
    } else if s == "chargeback"@ {
        RecordKind::ChargeBack
    } else {
        RecordKind::Unknown
    }
}

/// The amount a deposit or withdrawal record carries: zero when absent.
pub open spec fn record_amount(amount: Option<Seq<char>>) -> Result<int, LedgerError> {
    match amount {
        None => Ok(0),
        Some(t) => Amount::parse_spec(t),
    }
}

impl Transaction {
    /// The account a transaction names, if any.
    pub open spec fn client_of(self) -> Option<ClientId> {
        match self {
            Transaction::Deposit(c, _, _) => Some(c),
            Transaction::Withdrawal(c, _, _) => Some(c),
            Transaction::Dispute(c, _) => Some(c),
            Transaction::Resolve(c, _) => Some(c),
            Transaction::ChargeBack(c, _) => Some(c),
            Transaction::Unknown => None,
        }
    }

    /// Whether every amount the transaction carries is in range.
    pub open spec fn wf(self) -> bool {
        match self {
            Transaction::Deposit(_, _, a) => a.wf(),
            Transaction::Withdrawal(_, _, a) => a.wf(),
            _ => true,
        }
    }

    /// What building a transaction from `record` gives.
    pub open spec fn from_record_post(record: TransactionRecord, r: Result<Self, LedgerError>) -> bool {
        &&& r matches Ok(t) ==> t.wf()
        &&& {
            let c = ClientId(record.client);
            let id = TransactionId(record.tx);
            let amt = record_amount(
                match record.amount {
                    None => None,
                    Some(t) => Some(t@),
                },
            );
            match record_kind(record.transaction_type@) {
                RecordKind::Deposit => match (r, amt) {
                    (Ok(Transaction::Deposit(c2, id2, a)), Ok(u)) => c2 == c && id2 == id
                        && a.units() == u,
                    (Err(e), Err(f)) => e == f,
                    _ => false,
                },
                RecordKind::Withdrawal => match (r, amt) {
                    (Ok(Transaction::Withdrawal(c2, id2, a)), Ok(u)) => c2 == c && id2 == id
                        && a.units() == u,
                    (Err(e), Err(f)) => e == f,
                    _ => false,
                },
                RecordKind::Dispute => r == Ok::<Transaction, LedgerError>(
                    Transaction::Dispute(c, id),
                ),
                RecordKind::Resolve => r == Ok::<Transaction, LedgerError>(
                    Transaction::Resolve(c, id),
                ),
                RecordKind::ChargeBack => r == Ok::<Transaction, LedgerError>(
                    Transaction::ChargeBack(c, id),
                ),
                RecordKind::Unknown => r == Ok::<Transaction, LedgerError>(Transaction::Unknown),
            }
        }
    }

    /// Builds a transaction from a decoded record. An unknown type text gives
    /// `Unknown`; an amount that fails to parse gives the parse error.
    pub fn from_record(record: TransactionRecord) -> (r: Result<Self, LedgerError>)
        ensures
            Self::from_record_post(record, r),
    {
        let c = ClientId(record.client);
        let id = TransactionId(record.tx);
        let kind = record.transaction_type;
        proof {
            reveal_strlit("deposit");
            reveal_strlit("withdrawal");
            reveal_strlit("dispute");
            reveal_strlit("resolve");
            reveal_strlit("chargeback");
        }
        if kind == "deposit".to_owned() {
            let a = Self::record_amount(record.amount)?;
            Ok(Transaction::Deposit(c, id, a))
        } else if kind == "withdrawal".to_owned() {
            let a = Self::record_amount(record.amount)?;
            Ok(Transaction::Withdrawal(c, id, a))
        } else if kind == "dispute".to_owned() {
            Ok(Transaction::Dispute(c, id))
        } else if kind == "resolve".to_owned() {
            Ok(Transaction::Resolve(c, id))
        } else if kind == "chargeback".to_owned() {
            Ok(Transaction::ChargeBack(c, id))
        } else {
            Ok(Transaction::Unknown)
        }
    }

    fn record_amount(amount: Option<String>) -> (r: Result<Amount, LedgerError>)
        ensures
            match (
                r,
                record_amount(
                    match amount {
                        None => None,
                        Some(t) => Some(t@),
                    },
                ),
            ) {
                (Ok(a), Ok(u)) => a.units() == u && a.wf(),
                (Err(e), Err(f)) => e == f,
                _ => false,
            },
    {
        match amount {
            None => Ok(Amount::new()),
            Some(t) => Amount::from_str(t),
        }
    }
}

} // verus!
