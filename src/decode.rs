use crate::ledger::Transaction;
use vstd::prelude::*;

verus! {

/// Fixed-point scale: amounts are counted in ten-thousandths.
pub const UNITS_PER_WHOLE: u64 = 10000;

/// The most fractional digits an amount may have.
pub const MAX_FRACTION_DIGITS: usize = 4;

#[derive(Clone, Copy, Debug, PartialEq, Eq, Structural)]
pub enum Kind {
    Deposit,
    Withdrawal,
    Dispute,
    Resolve,
    Chargeback,
}

/// Why a row could not be turned into a transaction.
#[derive(Clone, Copy, Debug, PartialEq, Eq, Structural)]
pub enum DecodeError {
    UnknownKind,
    BadClient,
    BadTransactionId,
    MissingAmount,
    BadAmount,
}

pub open spec fn kind_of(s: Seq<char>) -> Option<Kind> {
    if s == "deposit"@ {
        Some(Kind::Deposit)
    } else if s == "withdrawal"@ {
        Some(Kind::Withdrawal)
    } else if s == "dispute"@ {
        Some(Kind::Dispute)
    } else if s == "resolve"@ {
        Some(Kind::Resolve)
    } else if s == "chargeback"@ {
        Some(Kind::Chargeback)
    } else {
        None
    }
}

pub open spec fn is_digit(c: char) -> bool {
    '0' <= c && c <= '9'
}

pub open spec fn all_digits(s: Seq<char>) -> bool {
    forall|i: int| 0 <= i < s.len() ==> is_digit(#[trigger] s[i])
}

pub open spec fn digit_value(c: char) -> nat {
    (c as u32 - '0' as u32) as nat
}

/// The number that the decimal digits of `s` spell, most significant first.
pub open spec fn digits_value(s: Seq<char>) -> nat
    decreases s.len(),
{
    if s.len() == 0 {
        0
    } else {
        digits_value(s.drop_last()) * 10 + digit_value(s.last())
    }
}

/// The number a run of digits spells, if it is one and at most `max`.
pub open spec fn bounded_value(s: Seq<char>, max: nat) -> Option<nat> {
    if all_digits(s) && digits_value(s) <= max {
        Some(digits_value(s))
    } else {
        None
    }
}

/// A non-empty run of digits no greater than `max`.
pub open spec fn id_value(s: Seq<char>, max: nat) -> Option<nat> {
    if s.len() == 0 {
        None
    } else {
        bounded_value(s, max)
    }
}

/// Position of the last '.' in `s`, or -1.
pub open spec fn last_dot(s: Seq<char>) -> int
    decreases s.len(),
{
    if s.len() == 0 {
        -1
    } else if s.last() == '.' {
        s.len() - 1
    } else {
        last_dot(s.drop_last())
    }
}

pub open spec fn whole_part(s: Seq<char>) -> Seq<char> {
    if last_dot(s) < 0 {
        s
    } else {
        s.subrange(0, last_dot(s))
    }
}

pub open spec fn fraction_part(s: Seq<char>) -> Seq<char> {
    if last_dot(s) < 0 {
        Seq::empty()
    } else {
        s.subrange(last_dot(s) + 1, s.len() as int)
    }
}

/// Units that the number spelled by `n` fractional digits is multiplied by,
/// for `n` of at most four: 10 to the power `4 - n`.
pub open spec fn fraction_scale(n: nat) -> nat {
    if n == 0 {
        10000
    } else if n == 1 {
        1000
    } else if n == 2 {
        100
    } else if n == 3 {
        10
    } else {
        1
    }
}

/// The value of a decimal amount in units: digits, optionally a '.' and at
/// most four more digits, with at least one digit in all; no sign; at most
/// `i64::MAX` units.
pub open spec fn amount_value(s: Seq<char>) -> Option<nat> {
    let w = whole_part(s);
    let f = fraction_part(s);
    let v = digits_value(w) * 10000 + digits_value(f) * fraction_scale(f.len());
    if all_digits(w) && all_digits(f) && w.len() + f.len() > 0 && f.len()
        <= MAX_FRACTION_DIGITS && v <= i64::MAX {
        Some(v)
    } else {
        None
    }
}

/// How a row of four text fields reads as a transaction.
pub open spec fn decoded(kind: Seq<char>, client: Seq<char>, tx: Seq<char>, amount: Seq<char>) -> Result<
    Transaction,
    DecodeError,
> {
    match kind_of(kind) {
        None => Err(DecodeError::UnknownKind),
        Some(k) => match id_value(client, u16::MAX as nat) {
            None => Err(DecodeError::BadClient),
            Some(c) => match id_value(tx, u32::MAX as nat) {
                None => Err(DecodeError::BadTransactionId),
                Some(t) => {
                    let c = c as u16;
                    let t = t as u32;
                    match k {
                        Kind::Dispute => Ok(Transaction::Dispute { client: c, tx: t }),
                        Kind::Resolve => Ok(Transaction::Resolve { client: c, tx: t }),
                        Kind::Chargeback => Ok(Transaction::Chargeback { client: c, tx: t }),
                        _ => if amount.len() == 0 {
                            Err(DecodeError::MissingAmount)
                        } else {
                            match amount_value(amount) {
                                None => Err(DecodeError::BadAmount),
                                Some(a) => if k == Kind::Deposit {
                                    Ok(Transaction::Deposit { client: c, tx: t, amount: a as u64 })
                                } else {
                                    Ok(
                                        Transaction::Withdrawal {
                                            client: c,
                                            tx: t,
                                            amount: a as u64,
                                        },
                                    )
                                },
                            }
                        },
                    }
                },
            },
        },
    }
}

proof fn lemma_prefix_value_le(s: Seq<char>, j: int)
    requires
        all_digits(s),
        0 <= j <= s.len(),
    ensures
        digits_value(s.subrange(0, j)) <= digits_value(s),
    decreases s.len(),
{
    if j < s.len() {
        let d = s.drop_last();
        assert(d.subrange(0, j) =~= s.subrange(0, j));
        lemma_prefix_value_le(d, j);
    } else {
        assert(s.subrange(0, j) =~= s);
    }
}

/// Whether `s` and `w` hold the same characters.
fn same_text(s: &str, w: &str) -> (r: bool)
    ensures
        r == (s@ == w@),
{
    let n = s.unicode_len();
    if n != w.unicode_len() {
        return false;
    }
    let mut i: usize = 0;
    while i < n
        invariant
            n == s@.len(),
            n == w@.len(),
            i <= n,
            forall|j: int| 0 <= j < i ==> s@[j] == w@[j],
        decreases n - i,
    {
        if s.get_char(i) != w.get_char(i) {
            return false;
        }
        i = i + 1;
    }
    assert(s@ =~= w@);
    true
}

/// The transaction kind that a keyword names; keywords are lower case.
pub fn parse_kind(s: &str) -> (r: Option<Kind>)
    ensures
        r == kind_of(s@),
{
    if same_text(s, "deposit") {
        Some(Kind::Deposit)
    } else if same_text(s, "withdrawal") {
        Some(Kind::Withdrawal)
    } else if same_text(s, "dispute") {
        Some(Kind::Dispute)
    } else if same_text(s, "resolve") {
        Some(Kind::Resolve)
    } else if same_text(s, "chargeback") {
        Some(Kind::Chargeback)
    } else {
        None
    }
}

/// The number that the digits of `s` spell, when `s` holds digits only
/// (the empty text spells 0) and the number is at most `max`.
pub fn parse_digits(s: &str, max: u64) -> (r: Option<u64>)
    ensures
        r == (match bounded_value(s@, max as nat) {
            Some(v) => Some(v as u64),
            None => None::<u64>,
        }),
{
    let n = s.unicode_len();
    let mut acc: u64 = 0;
    let mut i: usize = 0;
    while i < n
        invariant
            n == s@.len(),
            i <= n,
            all_digits(s@.subrange(0, i as int)),
            acc == digits_value(s@.subrange(0, i as int)),
            acc <= max,
        decreases n - i,
    {
        let c = s.get_char(i);
        let ghost pre = s@.subrange(0, i as int);
        let ghost next = s@.subrange(0, i + 1);
        assert(next.drop_last() =~= pre);
        if !('0' <= c && c <= '9') {
            assert(!all_digits(s@)) by {
                assert(!is_digit(s@[i as int]));
            }
            return None;
        }
        let d = (c as u32 - '0' as u32) as u64;
        assert(digits_value(next) == acc * 10 + d);
        if d > max || acc > (max - d) / 10 {
            assert(acc * 10 + d > max) by (nonlinear_arith)
                requires
                    d > max || acc > (max - d) / 10,
            ;
            proof {
                if all_digits(s@) {
                    lemma_prefix_value_le(s@, i + 1);
                }
            }
            return None;
        }
        acc = acc * 10 + d;
        i = i + 1;
    }
    assert(s@.subrange(0, n as int) =~= s@);
    Some(acc)
}

/// An identifier: a non-empty run of digits no greater than `max`.
pub fn parse_id(s: &str, max: u64) -> (r: Option<u64>)
    ensures
        r == (match id_value(s@, max as nat) {
            Some(v) => Some(v as u64),
            None => None::<u64>,
        }),
{
    if s.unicode_len() == 0 {
        None
    } else {
        parse_digits(s, max)
    }
}

proof fn lemma_last_dot_bounds(s: Seq<char>)
    ensures
        -1 <= last_dot(s) < s.len(),
        last_dot(s) >= 0 ==> s[last_dot(s)] == '.',
    decreases s.len(),
{
    if s.len() > 0 && s.last() != '.' {
        lemma_last_dot_bounds(s.drop_last());
    }
}

/// Position of the last '.' in `s`.
fn find_last_dot(s: &str) -> (r: Option<usize>)
    ensures
        match r {
            Some(p) => p == last_dot(s@),
            None => last_dot(s@) < 0,
        },
{
    let n = s.unicode_len();
    let mut found: Option<usize> = None;
    let mut i: usize = 0;
    while i < n
        invariant
            n == s@.len(),
            i <= n,
            match found {
                Some(p) => p == last_dot(s@.subrange(0, i as int)),
                None => last_dot(s@.subrange(0, i as int)) < 0,
            },
        decreases n - i,
    {
        assert(s@.subrange(0, i + 1).drop_last() =~= s@.subrange(0, i as int));
        if s.get_char(i) == '.' {
            found = Some(i);
        }
        i = i + 1;
    }
    assert(s@.subrange(0, n as int) =~= s@);
    found
}

/// The value in units of a decimal amount such as `5`, `2.5` or `0.0001`.
pub fn parse_amount(s: &str) -> (r: Option<u64>)
    ensures
        r == (match amount_value(s@) {
            Some(v) => Some(v as u64),
            None => None::<u64>,
        }),
{
    proof {
        reveal_strlit("");
        lemma_last_dot_bounds(s@);
    }
    let n = s.unicode_len();
    let (w, f) = match find_last_dot(s) {
        Some(p) => (s.substring_char(0, p), s.substring_char(p + 1, n)),
        None => (s, ""),
    };
    assert(w@ == whole_part(s@));
    assert(f@ =~= fraction_part(s@));
    let wl = w.unicode_len();
    let fl = f.unicode_len();
    if (wl == 0 && fl == 0) || fl > MAX_FRACTION_DIGITS {
        return None;
    }
    let ghost wd = digits_value(w@);
    let ghost fd = digits_value(f@);
    let ghost sc = fraction_scale(fl as nat);
    assert(wd * 10000 >= wd && fd * sc >= fd) by (nonlinear_arith)
        requires
            sc >= 1,
    ;
    let wv = match parse_digits(w, u64::MAX) {
        Some(v) => v,
        None => return None,
    };
    let fv = match parse_digits(f, u64::MAX) {
        Some(v) => v,
        None => return None,
    };
    let scale: u128 = if fl == 0 {
        10000
    } else if fl == 1 {
        1000
    } else if fl == 2 {
        100
    } else if fl == 3 {
        10
    } else {
        1
    };
    assert(fv as u128 * scale <= u64::MAX as u128 * 10000) by (nonlinear_arith)
        requires
            fv <= u64::MAX,
            scale <= 10000,
    ;
    let v: u128 = wv as u128 * 10000 + fv as u128 * scale;
    if v > i64::MAX as u128 {
        None
    } else {
        Some(v as u64)
    }
}

/// Reads one row of four text fields as a transaction. Disputes, resolves
/// and chargebacks ignore the amount field.
pub fn decode(kind: &str, client: &str, tx: &str, amount: &str) -> (r: Result<
    Transaction,
    DecodeError,
>)
    ensures
        r == decoded(kind@, client@, tx@, amount@),
{
    let k = match parse_kind(kind) {
        Some(k) => k,
        None => return Err(DecodeError::UnknownKind),
    };
    let c = match parse_id(client, u16::MAX as u64) {
        Some(c) => c as u16,
        None => return Err(DecodeError::BadClient),
    };
    let t = match parse_id(tx, u32::MAX as u64) {
        Some(t) => t as u32,
        None => return Err(DecodeError::BadTransactionId),
    };
    match k {
        Kind::Dispute => Ok(Transaction::Dispute { client: c, tx: t }),
        Kind::Resolve => Ok(Transaction::Resolve { client: c, tx: t }),
        Kind::Chargeback => Ok(Transaction::Chargeback { client: c, tx: t }),
        _ => {
            if amount.unicode_len() == 0 {
                return Err(DecodeError::MissingAmount);
            }
            let a = match parse_amount(amount) {
                Some(a) => a,
                None => return Err(DecodeError::BadAmount),
            };
            match k {
                Kind::Deposit => Ok(Transaction::Deposit { client: c, tx: t, amount: a }),
                _ => Ok(Transaction::Withdrawal { client: c, tx: t, amount: a }),
            }
        },
    }
}

/// Where the fields of a transaction stand in a row, as named by a header.
#[derive(Clone, Copy, Debug, PartialEq, Eq, Structural)]
pub struct Columns {
    pub kind: usize,
    pub client: usize,
    pub tx: usize,
    pub amount: Option<usize>,
}

/// The first position of `name` in `header`.
pub open spec fn first_position(header: Seq<String>, name: Seq<char>) -> Option<usize> {
    if exists|i: int| 0 <= i < header.len() && header[i]@ == name {
        Some(
            choose|i: usize|
                0 <= i < header.len() && header[i as int]@ == name && forall|j: int|
                    0 <= j < i ==> header[j]@ != name,
        )
    } else {
        None
    }
}

/// Column names: `type`, `client`, `tx` are required; `amount` may be absent.
pub open spec fn columns_of(header: Seq<String>) -> Option<Columns> {
    match (
        first_position(header, "type"@),
        first_position(header, "client"@),
        first_position(header, "tx"@),
    ) {
        (Some(k), Some(c), Some(t)) => Some(
            Columns { kind: k, client: c, tx: t, amount: first_position(header, "amount"@) },
        ),
        _ => None,
    }
}

/// The text of field `i` of a row; a field beyond the row's end reads as empty.
pub open spec fn field_text(fields: Seq<String>, i: Option<usize>) -> Seq<char> {
    match i {
        Some(i) => if i < fields.len() {
            fields[i as int]@
        } else {
            Seq::empty()
        },
        None => Seq::empty(),
    }
}

fn find_column(header: &Vec<String>, name: &str) -> (r: Option<usize>)
    ensures
        r == first_position(header@, name@),
{
    let mut i: usize = 0;
    while i < header.len()
        invariant
            i <= header@.len(),
            forall|j: int| 0 <= j < i ==> header@[j]@ != name@,
        decreases header@.len() - i,
    {
        if same_text(header[i].as_str(), name) {
            let ghost p = choose|p: usize|
                0 <= p < header@.len() && header@[p as int]@ == name@ && forall|j: int|
                    0 <= j < p ==> header@[j]@ != name@;
            assert(p == i) by {
                if p < i {
                    assert(header@[p as int]@ != name@);
                }
                if p > i {
                    assert(header@[i as int]@ != name@);
                }
            }
            return Some(i);
        }
        i = i + 1;
    }
    None
}

impl Columns {
    /// Finds the columns by name; `None` when a required one is missing.
    pub fn from_header(header: &Vec<String>) -> (r: Option<Columns>)
        ensures
            r == columns_of(header@),
    {
        let k = find_column(header, "type");
        let c = find_column(header, "client");
        let t = find_column(header, "tx");
        let a = find_column(header, "amount");
        match (k, c, t) {
            (Some(k), Some(c), Some(t)) => Some(Columns { kind: k, client: c, tx: t, amount: a }),
            _ => None,
        }
    }

    /// Reads one row under these columns.
    pub fn decode_row(&self, fields: &Vec<String>) -> (r: Result<Transaction, DecodeError>)
        ensures
            r == decoded(
                field_text(fields@, Some(self.kind)),
                field_text(fields@, Some(self.client)),
                field_text(fields@, Some(self.tx)),
                field_text(fields@, self.amount),
            ),
    {
        decode(
            field(fields, Some(self.kind)),
            field(fields, Some(self.client)),
            field(fields, Some(self.tx)),
            field(fields, self.amount),
        )
    }
}

fn field(fields: &Vec<String>, i: Option<usize>) -> (r: &str)
    ensures
        r@ == field_text(fields@, i),
{
    proof {
        reveal_strlit("");
    }
    match i {
        Some(i) => if i < fields.len() {
            fields[i].as_str()
        } else {
            ""
        },
        None => "",
    }
}

/// A signed fixed-point amount split for printing as `[-]whole.fraction`,
/// the fraction having four digits.
#[derive(Clone, Copy, Debug, PartialEq, Eq, Structural)]
pub struct DecimalParts {
    pub negative: bool,
    pub whole: u64,
    pub fraction: u64,
}

impl DecimalParts {
    /// The value in units that these parts spell.
    pub open spec fn units(self) -> int {
        let m = self.whole * 10000 + self.fraction;
        if self.negative {
            -m
        } else {
            m
        }
    }
}

/// Splits an amount in units into sign, whole part and four-digit fraction.
pub fn decimal_parts(units: i64) -> (r: DecimalParts)
    ensures
        r.negative == (units < 0),
        r.fraction < UNITS_PER_WHOLE,
        r.units() == units,
{
    let m: u64 = if units < 0 {
        (0i128 - units as i128) as u64
    } else {
        units as u64
    };
    let whole = m / UNITS_PER_WHOLE;
    let fraction = m % UNITS_PER_WHOLE;
    DecimalParts { negative: units < 0, whole, fraction }
}

} // verus!
