use vstd::prelude::*;

use rust_decimal::prelude::ToPrimitive;
use rust_decimal::Decimal;

use crate::errors::{CurrencyError, WalletError};

verus! {

/// Number of bytes in the UTF-8 encoding of `s`, as `str::len` reports it.
pub open spec fn utf8_len(s: Seq<char>) -> usize {
    vstd::utf8::encode_utf8(s).len() as usize
}

/// What a currency is: its code, the decimal places of its minor unit, its symbol.
pub struct CurrencyView {
    pub code: Seq<char>,
    pub scale: u8,
    pub symbol: Seq<char>,
}

/// A currency: a three-byte code, the number of decimal places of its minor
/// unit, and a display symbol.
#[derive(Debug)]
pub struct Currency {
    code: String,
    minor_unit_scale: u8,
    symbol: String,
}

impl View for Currency {
    type V = CurrencyView;

    closed spec fn view(&self) -> CurrencyView {
        CurrencyView { code: self.code@, scale: self.minor_unit_scale, symbol: self.symbol@ }
    }
}

pub open spec fn eur_view() -> CurrencyView {
    CurrencyView { code: "EUR"@, scale: 2, symbol: "\u{20ac}"@ }
}

pub open spec fn btc_view() -> CurrencyView {
    CurrencyView { code: "BTC"@, scale: 8, symbol: "\u{20bf}"@ }
}

/// The currency that a balance is reported in when its postings are in `code`.
pub open spec fn balance_currency_view(code: Seq<char>) -> CurrencyView {
    CurrencyView { code: code, scale: 2, symbol: "\u{20ac}"@ }
}

/// The upper-cased form of `s`, as `str::to_uppercase` returns it.
pub uninterp spec fn upper_of(s: Seq<char>) -> Seq<char>;

/// Relies on `str::to_uppercase`: the result depends on the characters alone.
#[verifier::external_body]
fn to_upper(s: &str) -> (r: String)
    ensures
        r@ == upper_of(s@),
{
    s.to_uppercase()
}

/// Whether two strings hold the same characters.
pub fn str_equal(a: &str, b: &str) -> (r: bool)
    ensures
        r == (a@ == b@),
{
    let x = a.to_owned();
    let y = b.to_owned();
    x == y
}

impl Currency {
    #[verifier::type_invariant]
    spec fn code_has_three_bytes(&self) -> bool {
        utf8_len(self.code@) == 3
    }

    pub fn new(code: &str, minor_unit_scale: u8, symbol: &str) -> (r: Result<Currency, WalletError>)
        ensures
            r is Ok <==> utf8_len(code@) == 3,
            r matches Ok(c) ==> c@ == (CurrencyView { code: code@, scale: minor_unit_scale, symbol: symbol@ }),
            r matches Err(e) ==> e matches WalletError::CurrencyError(
                CurrencyError::InvalidCurrencyCode(s),
            ) && s@ == code@,
    {
        if code.len() != 3 {
            return Err(WalletError::CurrencyError(CurrencyError::InvalidCurrencyCode(code.to_owned())));
        }
        let owned = code.to_owned();
        assert(utf8_len(owned@) == 3);
        Ok(Currency { code: owned, minor_unit_scale, symbol: symbol.to_owned() })
    }

    /// A copy of this currency.
    pub fn copied(&self) -> (r: Currency)
        ensures
            r@ == self@,
    {
        proof {
            use_type_invariant(self);
        }
        Currency {
            code: self.code.clone(),
            minor_unit_scale: self.minor_unit_scale,
            symbol: self.symbol.clone(),
        }
    }

    pub fn code(&self) -> (r: &str)
        ensures
            r@ == self@.code,
    {
        self.code.as_str()
    }

    pub fn minor_unit_scale(&self) -> (r: u8)
        ensures
            r == self@.scale,
    {
        self.minor_unit_scale
    }

    pub fn symbol(&self) -> (r: &str)
        ensures
            r@ == self@.symbol,
    {
        self.symbol.as_str()
    }

    /// The currency known under `code`, compared without regard to case.
    pub fn from_code(code: &str) -> (r: Result<Currency, WalletError>)
        ensures
            Currency::from_upper_code_result(upper_of(code@), code@, r),
    {
        let upper = to_upper(code);
        Currency::from_upper_code(upper.as_str(), code)
    }

    /// `r` is the currency known under `upper`, the upper-cased form of
    /// `code`; an unknown code is reported as `code` was given.
    pub open spec fn from_upper_code_result(
        upper: Seq<char>,
        code: Seq<char>,
        r: Result<Currency, WalletError>,
    ) -> bool {
        if upper == "EUR"@ {
            r matches Ok(c) && c@ == eur_view()
        } else if upper == "BTC"@ {
            r matches Ok(c) && c@ == btc_view()
        } else {
            r matches Err(WalletError::CurrencyError(CurrencyError::InvalidCurrencyCode(s))) && s@ == code
        }
    }

    pub fn from_upper_code(upper: &str, code: &str) -> (r: Result<Currency, WalletError>)
        ensures
            Currency::from_upper_code_result(upper@, code@, r),
    {
        if str_equal(upper, "EUR") {
            Ok(Currency::eur())
        } else if str_equal(upper, "BTC") {
            Ok(Currency::btc())
        } else {
            Err(WalletError::CurrencyError(CurrencyError::InvalidCurrencyCode(code.to_owned())))
        }
    }

    pub fn eur() -> (r: Currency)
        ensures
            r@ == eur_view(),
    {
        let code = "EUR";
        proof {
            reveal_strlit("EUR");
            vstd::string::is_ascii_spec_bytes(code);
        }
        Currency { code: code.to_owned(), minor_unit_scale: 2, symbol: "\u{20ac}".to_owned() }
    }

    pub fn btc() -> (r: Currency)
        ensures
            r@ == btc_view(),
    {
        let code = "BTC";
        proof {
            reveal_strlit("BTC");
            vstd::string::is_ascii_spec_bytes(code);
        }
        Currency { code: code.to_owned(), minor_unit_scale: 8, symbol: "\u{20bf}".to_owned() }
    }
}

/// An exact amount of money: a whole number of minor units of one currency.
#[derive(Debug)]
pub struct Money {
    amount_minor: i64,
    currency: Currency,
}

/// What an amount of money is: its minor units and its currency.
pub struct MoneyView {
    pub amount: i64,
    pub currency: CurrencyView,
}

impl View for Money {
    type V = MoneyView;

    closed spec fn view(&self) -> MoneyView {
        MoneyView { amount: self.amount_minor, currency: self.currency@ }
    }
}

/// `rust_decimal::Decimal`, carried through as an opaque value.
#[verifier::external_type_specification]
#[verifier::external_body]
pub struct ExDecimal(Decimal);

/// The decimal that `Decimal::from` makes of an integer.
pub uninterp spec fn decimal_of_int(n: int) -> Decimal;

/// The product that `Decimal::checked_mul` returns, `None` where it overflows.
pub uninterp spec fn decimal_product(a: Decimal, b: Decimal) -> Option<Decimal>;

/// The integral decimal that `Decimal::round` returns.
pub uninterp spec fn decimal_rounded(a: Decimal) -> Decimal;

/// The integer that `ToPrimitive::to_i64` returns for a decimal.
pub uninterp spec fn decimal_to_i64(a: Decimal) -> Option<i64>;

/// The decimal `num / 10^scale` that `Decimal::new` makes.
pub uninterp spec fn decimal_with_scale(num: int, scale: nat) -> Decimal;

/// Relies on `Decimal::from(i64)`.
#[verifier::external_body]
fn decimal_from_i64(n: i64) -> (r: Decimal)
    ensures
        r == decimal_of_int(n as int),
{
    Decimal::from(n)
}

/// Relies on `Decimal::checked_mul`: `None` where the product overflows.
#[verifier::external_body]
fn decimal_checked_mul(a: Decimal, b: Decimal) -> (r: Option<Decimal>)
    ensures
        r == decimal_product(a, b),
{
    a.checked_mul(b)
}

/// Relies on `Decimal::round`.
#[verifier::external_body]
fn decimal_round(a: Decimal) -> (r: Decimal)
    ensures
        r == decimal_rounded(a),
{
    a.round()
}

/// Relies on `ToPrimitive::to_i64` for `Decimal`: `None` where out of range.
#[verifier::external_body]
fn decimal_into_i64(a: Decimal) -> (r: Option<i64>)
    ensures
        r == decimal_to_i64(a),
{
    a.to_i64()
}

/// Relies on `Decimal::new`, which panics on a scale above 28.
#[verifier::external_body]
fn decimal_new(num: i64, scale: u32) -> (r: Decimal)
    requires
        scale <= 28,
    ensures
        r == decimal_with_scale(num as int, scale as nat),
{
    Decimal::new(num, scale)
}

pub open spec fn pow10(n: nat) -> int
    decreases n,
{
    if n == 0 {
        1
    } else {
        10 * pow10((n - 1) as nat)
    }
}

/// The minor units of `amount` in a currency with `scale` decimal places:
/// the amount scaled up and rounded to a whole number.
pub open spec fn minor_units_of(amount: Decimal, scale: nat) -> Option<i64> {
    match decimal_product(amount, decimal_of_int(pow10(scale))) {
        Some(p) => decimal_to_i64(decimal_rounded(p)),
        None => None,
    }
}

fn pow10_i64(n: u8) -> (r: i64)
    requires
        n <= 18,
    ensures
        r as int == pow10(n as nat),
{
    let mut r: i64 = 1;
    let mut i: u8 = 0;
    while i < n
        invariant
            i <= n <= 18,
            r as int == pow10(i as nat),
        decreases n - i,
    {
        proof {
            lemma_pow10_monotone(i as nat + 1, 18);
            assert(pow10(18) == 1000000000000000000) by {
                reveal_with_fuel(pow10, 19);
            }
            assert(pow10(i as nat + 1) == 10 * pow10(i as nat));
        }
        r = r * 10;
        i = i + 1;
    }
    r
}

proof fn lemma_pow10_monotone(a: nat, b: nat)
    requires
        a <= b,
    ensures
        0 < pow10(a) <= pow10(b),
    decreases b,
{
    if a < b {
        lemma_pow10_monotone(a, (b - 1) as nat);
    } else if a > 0 {
        lemma_pow10_monotone((a - 1) as nat, (a - 1) as nat);
    }
}

impl Money {
    /// The amount `amount` in `currency`, scaled to minor units and rounded.
    pub fn new(amount: Decimal, currency: Currency) -> (r: Money)
        requires
            currency@.scale <= 18,
            minor_units_of(amount, currency@.scale as nat) is Some,
        ensures
            r@ == (MoneyView {
                amount: minor_units_of(amount, currency@.scale as nat).unwrap(),
                currency: currency@,
            }),
    {
        let factor = pow10_i64(currency.minor_unit_scale());
        let scaled = decimal_checked_mul(amount, decimal_from_i64(factor));
        let amount_minor = match scaled {
            Some(p) => match decimal_into_i64(decimal_round(p)) {
                Some(m) => m,
                None => 0,
            },
            None => 0,
        };
        Money { amount_minor, currency }
    }

    pub fn amount_minor(&self) -> (r: i64)
        ensures
            r == self@.amount,
    {
        self.amount_minor
    }

    pub fn currency(&self) -> (r: &Currency)
        ensures
            r@ == self@.currency,
    {
        &self.currency
    }

    /// The amount as a decimal number of major units.
    pub fn to_decimal(&self) -> (r: Decimal)
        requires
            self@.currency.scale <= 28,
        ensures
            r == decimal_with_scale(self@.amount as int, self@.currency.scale as nat),
    {
        decimal_new(self.amount_minor, self.currency.minor_unit_scale() as u32)
    }

    pub fn zero(currency: Currency) -> (r: Money)
        ensures
            r@ == (MoneyView { amount: 0, currency: currency@ }),
    {
        Money { amount_minor: 0, currency }
    }

    pub fn eur(amount: Decimal) -> (r: Money)
        requires
            minor_units_of(amount, 2) is Some,
        ensures
            r@ == (MoneyView { amount: minor_units_of(amount, 2).unwrap(), currency: eur_view() }),
    {
        Money::new(amount, Currency::eur())
    }

    pub fn from_minor_units(amount_minor: i64, currency: Currency) -> (r: Money)
        ensures
            r@ == (MoneyView { amount: amount_minor, currency: currency@ }),
    {
        Money { amount_minor, currency }
    }

    /// A copy of this amount.
    pub fn copied(&self) -> (r: Money)
        ensures
            r@ == self@,
    {
        Money { amount_minor: self.amount_minor, currency: self.currency.copied() }
    }
}

} // verus!
