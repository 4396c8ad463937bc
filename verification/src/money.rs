use std::cmp::Ordering;
use std::ops::{Add, Mul, Sub};
use crate::text::push_char;
use vstd::prelude::*;
use vstd::std_specs::cmp::PartialOrdSpecImpl;
use vstd::std_specs::ops::{AddSpecImpl, MulSpecImpl, SubSpecImpl};

verus! {

/// Currencies a budget can be kept in.
#[derive(Debug, Clone, Copy, PartialEq, Eq, Structural, Hash)]
pub enum Currency {
    EUR,
    USD,
    SEK,
}

/// An amount of money, held in minor units (cents / öre) of one currency.
#[derive(Debug, Clone, Copy, PartialEq, Eq, Structural, Hash)]
pub struct Money {
    cents: i64,
    currency: Currency,
}

/// Rust's `/` on integers: the quotient rounded toward zero.
pub open spec fn div_toward_zero(a: int, b: int) -> int
    recommends
        b > 0,
{
    if a >= 0 {
        a / b
    } else {
        -((-a) / b)
    }
}

/// Rust's `%` on integers: the remainder whose sign follows the dividend.
pub open spec fn rem_toward_zero(a: int, b: int) -> int
    recommends
        b > 0,
{
    a - b * div_toward_zero(a, b)
}

impl Money {
    /// The amount in minor units.
    pub closed spec fn spec_cents(self) -> int {
        self.cents as int
    }

    /// The currency of the amount.
    pub closed spec fn spec_currency(self) -> Currency {
        self.currency
    }

    /// The amount of `cents` minor units of `currency`.
    pub closed spec fn spec_new(cents: int, currency: Currency) -> Money {
        Money { cents: cents as i64, currency }
    }

    /// Builds an amount from whole units: `dollars * 100` minor units.
    pub fn new_dollars(dollars: i64, currency: Currency) -> (m: Money)
        requires
            i64::MIN <= dollars * 100 <= i64::MAX,
        ensures
            m.spec_cents() == dollars * 100,
            m.spec_currency() == currency,
    {
        Money { cents: dollars * 100, currency }
    }

    /// Builds an amount from minor units.
    pub fn new_cents(cents: i64, currency: Currency) -> (m: Money)
        ensures
            m.spec_cents() == cents,
            m.spec_currency() == currency,
            m == Money::spec_new(cents as int, currency),
    {
        Money { cents, currency }
    }

    /// The amount in minor units.
    pub fn amount_in_cents(&self) -> (c: i64)
        ensures
            c == self.spec_cents(),
    {
        self.cents
    }

    /// The amount in whole units, truncated toward zero.
    pub fn amount_in_dollars(&self) -> (d: i64)
        ensures
            d == div_toward_zero(self.spec_cents(), 100),
    {
        self.cents / 100
    }

    /// The currency of the amount.
    pub fn currency(&self) -> (c: Currency)
        ensures
            c == self.spec_currency(),
    {
        self.currency
    }
}

/// Amounts of one currency compare by their minor units; amounts of
/// different currencies are unordered.
pub open spec fn money_partial_cmp(a: Money, b: Money) -> Option<Ordering> {
    if a.spec_currency() != b.spec_currency() {
        None
    } else if a.spec_cents() < b.spec_cents() {
        Some(Ordering::Less)
    } else if a.spec_cents() == b.spec_cents() {
        Some(Ordering::Equal)
    } else {
        Some(Ordering::Greater)
    }
}

/// An amount built from minor units that fit has those minor units and
/// that currency.
pub proof fn lemma_spec_new_parts(cents: int, currency: Currency)
    requires
        i64::MIN <= cents <= i64::MAX,
    ensures
        Money::spec_new(cents, currency).spec_cents() == cents,
        Money::spec_new(cents, currency).spec_currency() == currency,
{
}

/// Law: an amount is determined by its minor units and its currency:
/// rebuilding it from them gives the same amount.
pub proof fn law_rebuild_from_parts(m: Money)
    ensures
        Money::spec_new(m.spec_cents(), m.spec_currency()) == m,
{
}

/// Law: adding amounts of one currency adds their minor units: adding
/// zero changes nothing, addition commutes, and subtracting what was added
/// gives back the amount.
pub proof fn law_arithmetic_on_minor_units(a: Money, b: Money)
    requires
        a.spec_currency() == b.spec_currency(),
        i64::MIN <= a.spec_cents() + b.spec_cents() <= i64::MAX,
    ensures
        money_sum(a, b).spec_cents() == a.spec_cents() + b.spec_cents(),
        money_sum(a, b).spec_currency() == a.spec_currency(),
        money_sum(a, Money::spec_new(0, a.spec_currency())) == a,
        money_sum(a, b) == money_sum(b, a),
        money_difference(money_sum(a, b), b) == a,
        money_difference(a, a) == Money::spec_new(0, a.spec_currency()),
{
}

/// Law: the difference of two amounts of one currency holds the
/// difference of their minor units.
pub proof fn law_difference_on_minor_units(a: Money, b: Money)
    requires
        a.spec_currency() == b.spec_currency(),
        i64::MIN <= a.spec_cents() - b.spec_cents() <= i64::MAX,
    ensures
        money_difference(a, b).spec_cents() == a.spec_cents() - b.spec_cents(),
        money_difference(a, b).spec_currency() == a.spec_currency(),
{
}

/// Law: the product of two amounts of one currency holds the product of
/// their minor units taken as whole units, that is times 100.
pub proof fn law_product_on_minor_units(a: Money, b: Money)
    requires
        a.spec_currency() == b.spec_currency(),
        i64::MIN <= a.spec_cents() * b.spec_cents() * 100 <= i64::MAX,
    ensures
        money_product(a, b).spec_cents() == a.spec_cents() * b.spec_cents() * 100,
        money_product(a, b).spec_currency() == a.spec_currency(),
{
}

/// Law: amounts compare only within one currency, and the comparison is a
/// total order there: swapping the amounts reverses the outcome, and two
/// amounts compare equal exactly when they are the same amount.
pub proof fn law_money_order_within_currency(a: Money, b: Money)
    ensures
        money_partial_cmp(a, b) is None <==> a.spec_currency() != b.spec_currency(),
        money_partial_cmp(a, b) == Some(Ordering::Less) <==> money_partial_cmp(b, a) == Some(
            Ordering::Greater,
        ),
        money_partial_cmp(a, b) == Some(Ordering::Equal) <==> a == b,
{
}

impl PartialOrd for Money {
    fn partial_cmp(&self, other: &Self) -> (r: Option<Ordering>) {
        if self.currency != other.currency {
            None
        } else if self.cents < other.cents {
            Some(Ordering::Less)
        } else if self.cents == other.cents {
            Some(Ordering::Equal)
        } else {
            Some(Ordering::Greater)
        }
    }
}

impl PartialOrdSpecImpl for Money {
    open spec fn obeys_partial_cmp_spec() -> bool {
        true
    }

    open spec fn partial_cmp_spec(&self, other: &Self) -> Option<Ordering> {
        money_partial_cmp(*self, *other)
    }
}

/// The sum of two amounts: their minor units added, in the first one's
/// currency.
pub open spec fn money_sum(a: Money, b: Money) -> Money {
    Money::spec_new(a.spec_cents() + b.spec_cents(), a.spec_currency())
}

/// The difference of two amounts: their minor units subtracted, in the
/// first one's currency.
pub open spec fn money_difference(a: Money, b: Money) -> Money {
    Money::spec_new(a.spec_cents() - b.spec_cents(), a.spec_currency())
}

/// The product of two amounts: their minor units multiplied and the
/// product taken as whole units (`Money::new_dollars`), in the first one's
/// currency.
pub open spec fn money_product(a: Money, b: Money) -> Money {
    Money::spec_new(a.spec_cents() * b.spec_cents() * 100, a.spec_currency())
}

/// An operation on two amounts is defined when they share a currency and
/// the result, in minor units, fits the amount's range.
pub open spec fn combination_fits(a: Money, b: Money, cents: int) -> bool {
    &&& a.spec_currency() == b.spec_currency()
    &&& i64::MIN <= cents <= i64::MAX
}

impl Add for Money {
    type Output = Money;

    fn add(self, rhs: Money) -> (r: Money) {
        Money::new_cents(self.cents + rhs.cents, self.currency)
    }
}

impl AddSpecImpl for Money {
    open spec fn obeys_add_spec() -> bool {
        true
    }

    open spec fn add_req(self, rhs: Money) -> bool {
        combination_fits(self, rhs, self.spec_cents() + rhs.spec_cents())
    }

    open spec fn add_spec(self, rhs: Money) -> Money {
        money_sum(self, rhs)
    }
}

impl Sub for Money {
    type Output = Money;

    fn sub(self, rhs: Money) -> (r: Money) {
        Money::new_cents(self.cents - rhs.cents, self.currency)
    }
}

impl SubSpecImpl for Money {
    open spec fn obeys_sub_spec() -> bool {
        true
    }

    open spec fn sub_req(self, rhs: Money) -> bool {
        combination_fits(self, rhs, self.spec_cents() - rhs.spec_cents())
    }

    open spec fn sub_spec(self, rhs: Money) -> Money {
        money_difference(self, rhs)
    }
}

impl Mul for Money {
    type Output = Money;

    fn mul(self, rhs: Money) -> (r: Money) {
        Money::new_dollars(self.cents * rhs.cents, self.currency)
    }
}

impl MulSpecImpl for Money {
    open spec fn obeys_mul_spec() -> bool {
        true
    }

    open spec fn mul_req(self, rhs: Money) -> bool {
        &&& combination_fits(self, rhs, self.spec_cents() * rhs.spec_cents())
        &&& i64::MIN <= self.spec_cents() * rhs.spec_cents() * 100 <= i64::MAX
    }

    open spec fn mul_spec(self, rhs: Money) -> Money {
        money_product(self, rhs)
    }
}

/// The symbol a currency is written with.
pub open spec fn currency_symbol(c: Currency) -> Seq<char> {
    match c {
        Currency::EUR => "€"@,
        Currency::USD => "$"@,
        Currency::SEK => "kr"@,
    }
}

impl Currency {
    /// The symbol the currency is written with: "€", "$" or "kr".
    pub fn display_string(&self) -> (r: String)
        ensures
            r@ == currency_symbol(*self),
    {
        match self {
            Currency::EUR => "€".to_owned(),
            Currency::USD => "$".to_owned(),
            Currency::SEK => "kr".to_owned(),
        }
    }
}

/// The decimal digit character for `d` (0 to 9).
pub open spec fn digit_char(d: int) -> char {
    if d == 0 {
        '0'
    } else if d == 1 {
        '1'
    } else if d == 2 {
        '2'
    } else if d == 3 {
        '3'
    } else if d == 4 {
        '4'
    } else if d == 5 {
        '5'
    } else if d == 6 {
        '6'
    } else if d == 7 {
        '7'
    } else if d == 8 {
        '8'
    } else {
        '9'
    }
}

/// The decimal digits of a natural number, most significant first, with no
/// leading zeros.
pub open spec fn decimal_digits(n: nat) -> Seq<char>
    decreases n,
{
    if n < 10 {
        seq![digit_char(n as int)]
    } else {
        decimal_digits(n / 10).push(digit_char((n % 10) as int))
    }
}

/// An integer written in decimal, with a leading '-' when negative.
pub open spec fn decimal(n: int) -> Seq<char> {
    if n < 0 {
        seq!['-'] + decimal_digits((-n) as nat)
    } else {
        decimal_digits(n as nat)
    }
}

/// An integer written in decimal, zero-padded to at least two characters
/// (a sign counts toward the width).
pub open spec fn decimal_width2(n: int) -> Seq<char> {
    if 0 <= n < 10 {
        seq!['0'] + decimal(n)
    } else {
        decimal(n)
    }
}

/// How an amount is written: Swedish kronor as `units:cents kr`, other
/// currencies as ` symbol units.cents`; units and cents are the quotient and
/// remainder of the minor units by 100, both truncated toward zero.
pub open spec fn money_display(m: Money) -> Seq<char> {
    let units = div_toward_zero(m.spec_cents(), 100);
    let cents = rem_toward_zero(m.spec_cents(), 100);
    match m.spec_currency() {
        Currency::SEK => decimal(units) + seq![':'] + decimal_width2(cents) + seq![' ']
            + currency_symbol(Currency::SEK),
        c => seq![' '] + currency_symbol(c) + decimal(units) + seq!['.'] + decimal_width2(cents),
    }
}

fn digit_of(d: u64) -> (c: char)
    requires
        d < 10,
    ensures
        c == digit_char(d as int),
{
    if d == 0 {
        '0'
    } else if d == 1 {
        '1'
    } else if d == 2 {
        '2'
    } else if d == 3 {
        '3'
    } else if d == 4 {
        '4'
    } else if d == 5 {
        '5'
    } else if d == 6 {
        '6'
    } else if d == 7 {
        '7'
    } else if d == 8 {
        '8'
    } else {
        '9'
    }
}

fn push_decimal_digits(s: &mut String, n: u64)
    ensures
        final(s)@ == old(s)@ + decimal_digits(n as nat),
    decreases n,
{
    if n >= 10 {
        push_decimal_digits(s, n / 10);
    }
    push_char(s, digit_of(n % 10));
    proof {
        if n >= 10 {
            assert(decimal_digits(n as nat) == decimal_digits((n / 10) as nat).push(digit_char((n % 10) as int)));
        }
    }
}

fn push_decimal(s: &mut String, n: i64)
    ensures
        final(s)@ == old(s)@ + decimal(n as int),
{
    if n < 0 {
        let ghost before = s@;
        push_char(s, '-');
        let magnitude: u64 = if n == i64::MIN {
            9223372036854775808u64
        } else {
            (-n) as u64
        };
        push_decimal_digits(s, magnitude);
        proof {
            assert(s@ =~= before + (seq!['-'] + decimal_digits((-n) as nat)));
        }
    } else {
        push_decimal_digits(s, n as u64);
    }
}

fn push_decimal_width2(s: &mut String, n: i64)
    ensures
        final(s)@ == old(s)@ + decimal_width2(n as int),
{
    let ghost before = s@;
    if 0 <= n && n < 10 {
        push_char(s, '0');
        push_decimal(s, n);
        proof {
            assert(s@ =~= before + (seq!['0'] + decimal(n as int)));
        }
    } else {
        push_decimal(s, n);
    }
}

impl Money {
    /// The amount as it is displayed: `12:05 kr` for kronor, ` €12.05` or
    /// ` $12.05` for the others.
    pub fn to_display_string(&self) -> (r: String)
        ensures
            r@ == money_display(*self),
    {
        let units = self.cents / 100;
        let cents = self.cents % 100;
        let symbol = self.currency.display_string();
        let mut s = String::new();
        match self.currency {
            Currency::SEK => {
                push_decimal(&mut s, units);
                push_char(&mut s, ':');
                push_decimal_width2(&mut s, cents);
                push_char(&mut s, ' ');
                s.append(symbol.as_str());
            },
            _ => {
                push_char(&mut s, ' ');
                s.append(symbol.as_str());
                push_decimal(&mut s, units);
                push_char(&mut s, '.');
                push_decimal_width2(&mut s, cents);
            },
        }
        proof {
            assert(units == div_toward_zero(self.spec_cents(), 100));
            assert(cents == rem_toward_zero(self.spec_cents(), 100));
            assert(s@ =~= money_display(*self));
        }
        s
    }
}

} // verus!
