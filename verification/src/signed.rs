//! Exact signed decimals: the amounts that replies carry, and the totals
//! that are made of them.
//!
//! A reply names its amount as a JSON number: an optional minus, a decimal,
//! and optionally a power of ten behind an `e`. Every such number is read
//! exactly, with the power of ten folded into units and scale.

use crate::amount::{
    all_digits, decimal_of, is_digit, number, pow10, spelling, splits_at, Amount, Decimal,
};
use vstd::prelude::*;
use vstd::string::StringExecFns;

verus! {

/// The mathematical value of a signed amount: `units` steps of size
/// `10^-scale`, where `units` may be negative.
pub struct SignedDecimal {
    pub units: int,
    pub scale: nat,
}

impl SignedDecimal {
    /// The amount zero.
    pub open spec fn zero() -> SignedDecimal {
        SignedDecimal { units: 0, scale: 0 }
    }

    /// The amount of the size `magnitude`, below zero where `negative`.
    pub open spec fn of(negative: bool, magnitude: Decimal) -> SignedDecimal {
        SignedDecimal {
            units: if negative {
                -(magnitude.units as int)
            } else {
                magnitude.units as int
            },
            scale: magnitude.scale,
        }
    }

    /// The value counted in steps of `10^-scale`, for a `scale` that is at
    /// least as fine as the amount's own.
    pub open spec fn units_at(self, scale: nat) -> int
        recommends
            scale >= self.scale,
    {
        self.units * pow10((scale - self.scale) as nat)
    }

    /// The exact sum, expressed at the finer of the two scales.
    pub open spec fn plus(self, other: SignedDecimal) -> SignedDecimal {
        let scale = Decimal::finer(self.scale, other.scale);
        SignedDecimal { units: self.units_at(scale) + other.units_at(scale), scale }
    }
}

/// Adding zero changes nothing: the sum is the amount, at its own scale.
pub proof fn law_signed_zero_is_neutral(d: SignedDecimal)
    ensures
        SignedDecimal::zero().plus(d) == d,
        d.plus(SignedDecimal::zero()) == d,
{
    assert(pow10(0) == 1);
    assert(d.units_at(d.scale) == d.units * 1);
    assert(SignedDecimal::zero().units_at(d.scale) == 0) by (nonlinear_arith)
        requires
            SignedDecimal::zero().units_at(d.scale) == 0 * pow10(d.scale),
    ;
}

/// The order of two amounts does not matter to their sum.
pub proof fn law_signed_plus_commutes(a: SignedDecimal, b: SignedDecimal)
    ensures
        a.plus(b) == b.plus(a),
{
}

/// Whether `c` is the letter that stands before a power of ten.
pub open spec fn is_mark(c: char) -> bool {
    c == 'e' || c == 'E'
}

/// Whether the first such letter of `s` stands at `k`.
pub open spec fn mark_at(s: Seq<char>, k: int) -> bool {
    &&& 0 <= k < s.len()
    &&& is_mark(s[k])
    &&& forall|j: int| 0 <= j < k ==> !is_mark(#[trigger] s[j])
}

/// The power of ten that `s` writes: an optional sign and a run of digits.
/// The first part says whether the power is negative.
pub open spec fn power_of(s: Seq<char>) -> Option<(bool, nat)> {
    let signed = s.len() > 0 && (s[0] == '-' || s[0] == '+');
    let digits = if signed {
        s.skip(1)
    } else {
        s
    };
    if digits.len() > 0 && all_digits(digits) && number(digits) <= usize::MAX {
        Some((signed && s[0] == '-', number(digits)))
    } else {
        None
    }
}

/// The size of the number that `s` writes without a sign: a decimal, and
/// behind an `e` or `E` a power of ten that it is multiplied by. A power
/// that does not fit the machine's word, or that leaves a scale that does
/// not, writes no number.
pub open spec fn magnitude_of(s: Seq<char>) -> Option<Decimal> {
    if exists|k: int| mark_at(s, k) {
        let k = choose|k: int| mark_at(s, k);
        match (decimal_of(s.take(k)), power_of(s.skip(k + 1))) {
            (Some(d), Some(power)) => if power.0 && d.scale + power.1 > usize::MAX {
                None
            } else {
                Some(d.shifted(power.0, power.1))
            },
            _ => None,
        }
    } else {
        decimal_of(s)
    }
}

/// The number that `s` writes: a size, and a minus before it where the
/// number is below zero.
pub open spec fn signed_decimal_of(s: Seq<char>) -> Option<SignedDecimal> {
    let negative = s.len() > 0 && s[0] == '-';
    match magnitude_of(
        if negative {
            s.skip(1)
        } else {
            s
        },
    ) {
        Some(d) => Some(SignedDecimal::of(negative, d)),
        None => None,
    }
}

proof fn lemma_one_mark(s: Seq<char>, k: int)
    requires
        mark_at(s, k),
    ensures
        (choose|j: int| mark_at(s, j)) == k,
{
    let j = choose|j: int| mark_at(s, j);
    if j < k {
        assert(!is_mark(s[j]));
    } else if k < j {
        assert(!is_mark(s[k]));
    }
}

/// A decimal is not empty, and is made of digits and points.
proof fn lemma_decimal_characters(s: Seq<char>)
    requires
        decimal_of(s) is Some,
    ensures
        s.len() > 0,
        forall|k: int| 0 <= k < s.len() ==> is_digit(#[trigger] s[k]) || s[k] == '.',
{
    assert forall|k: int| 0 <= k < s.len() implies is_digit(#[trigger] s[k]) || s[k] == '.' by {
        if s.len() > 0 && all_digits(s) {
            assert(is_digit(s[k]));
        } else {
            let p = choose|p: int| splits_at(s, p);
            assert(splits_at(s, p));
            if k < p {
                assert(s.take(p)[k] == s[k]);
                assert(is_digit(s.take(p)[k]));
            } else if k > p {
                assert(s.skip(p + 1)[k - p - 1] == s[k]);
                assert(is_digit(s.skip(p + 1)[k - p - 1]));
            }
        }
    }
}

/// A decimal holds no letter.
proof fn lemma_decimal_has_no_mark(s: Seq<char>)
    requires
        decimal_of(s) is Some,
    ensures
        forall|k: int| !mark_at(s, k),
        magnitude_of(s) == decimal_of(s),
{
    lemma_decimal_characters(s);
    assert forall|k: int| !mark_at(s, k) by {
        if mark_at(s, k) {
            assert(is_digit(s[k]) || s[k] == '.');
        }
    }
}

/// The sign of a number or of a power of ten, as it is written: a minus
/// where it is negative, and nothing or, for a power, a plus where it is not.
pub open spec fn is_sign(sign: Seq<char>, negative: bool) -> bool {
    if negative {
        sign == seq!['-']
    } else {
        sign == Seq::<char>::empty() || sign == seq!['+']
    }
}

/// Every number is read: a decimal, with a minus before it or without,
/// is the amount that the decimal writes, below zero with the minus.
pub proof fn law_every_decimal_is_read(negative: bool, decimal: Seq<char>)
    requires
        decimal_of(decimal) is Some,
    ensures
        signed_decimal_of(
            if negative {
                seq!['-'] + decimal
            } else {
                decimal
            },
        ) == Some(SignedDecimal::of(negative, decimal_of(decimal)->0)),
{
    lemma_decimal_characters(decimal);
    lemma_decimal_has_no_mark(decimal);
    assert(is_digit(decimal[0]) || decimal[0] == '.');
    if negative {
        let text = seq!['-'] + decimal;
        assert(text[0] == '-');
        assert(text.skip(1) =~= decimal);
    }
}

/// Every number is read: a decimal with a power of ten behind it, and with
/// a minus before it or without, is the amount that the decimal writes,
/// multiplied by the power, or divided by it where the power is negative,
/// and below zero with the minus. The power, and the scale that it leaves,
/// must fit the machine's word.
pub proof fn law_every_power_is_read(
    negative: bool,
    decimal: Seq<char>,
    mark: char,
    sign: Seq<char>,
    down: bool,
    digits: Seq<char>,
)
    requires
        decimal_of(decimal) is Some,
        is_mark(mark),
        is_sign(sign, down),
        digits.len() > 0,
        all_digits(digits),
        number(digits) <= usize::MAX,
        down ==> decimal_of(decimal)->0.scale + number(digits) <= usize::MAX,
    ensures
        signed_decimal_of(
            (if negative {
                seq!['-']
            } else {
                Seq::<char>::empty()
            }) + decimal + seq![mark] + sign + digits,
        ) == Some(
            SignedDecimal::of(negative, decimal_of(decimal)->0.shifted(down, number(digits))),
        ),
{
    lemma_decimal_characters(decimal);
    let body = decimal + seq![mark] + sign + digits;
    let text = (if negative {
        seq!['-']
    } else {
        Seq::<char>::empty()
    }) + decimal + seq![mark] + sign + digits;
    let k = decimal.len() as int;
    assert(is_digit(decimal[0]) || decimal[0] == '.');
    if negative {
        assert(text[0] == '-');
        assert(text.skip(1) =~= body);
    } else {
        assert(text =~= body);
        assert(body[0] == decimal[0]);
    }
    assert(body[k] == mark);
    assert forall|j: int| 0 <= j < k implies !is_mark(#[trigger] body[j]) by {
        assert(body[j] == decimal[j]);
        assert(is_digit(decimal[j]) || decimal[j] == '.');
    }
    assert(mark_at(body, k));
    lemma_one_mark(body, k);
    assert(body.take(k) =~= decimal);
    let tail = body.skip(k + 1);
    assert(tail =~= sign + digits);
    assert(is_digit(digits[0]));
    if sign.len() == 0 {
        assert(tail =~= digits);
        assert(tail[0] == digits[0]);
    } else {
        assert(tail[0] == sign[0]);
        assert(tail.skip(1) =~= digits);
    }
}

/// Digits written behind a number do not make it smaller.
proof fn lemma_number_grows(s: Seq<char>, i: int)
    requires
        0 <= i <= s.len(),
    ensures
        number(s.take(i)) <= number(s),
    decreases s.len(),
{
    if i == s.len() {
        assert(s.take(i) =~= s);
    } else {
        lemma_number_grows(s.drop_last(), i);
        assert(s.drop_last().take(i) =~= s.take(i));
    }
}

/// An exact decimal amount that may be below zero.
#[derive(Debug)]
pub struct SignedAmount {
    negative: bool,
    magnitude: Amount,
}

impl View for SignedAmount {
    type V = SignedDecimal;

    closed spec fn view(&self) -> SignedDecimal {
        SignedDecimal::of(self.negative, self.magnitude@)
    }
}

impl Clone for SignedAmount {
    fn clone(&self) -> (copy: SignedAmount)
        ensures
            copy@ == self@,
    {
        SignedAmount { negative: self.negative, magnitude: self.magnitude.clone() }
    }
}

impl SignedAmount {
    /// Whether the amount is marked as below zero. Zero may be marked so.
    pub closed spec fn negative(&self) -> bool {
        self.negative
    }

    /// The size of the amount.
    pub closed spec fn magnitude(&self) -> Decimal {
        self.magnitude@
    }

    /// An amount is its size, below zero where it is marked so.
    pub proof fn lemma_view(&self)
        ensures
            self@ == SignedDecimal::of(self.negative(), self.magnitude()),
    {
    }

    /// How the amount is written: a minus where it is marked as below zero,
    /// then the canonical spelling of its size.
    pub open spec fn spelling(&self) -> Seq<char> {
        if self.negative() {
            seq!['-'] + spelling(self.magnitude())
        } else {
            spelling(self.magnitude())
        }
    }

    /// The amount zero.
    pub fn zero() -> (a: SignedAmount)
        ensures
            a@ == SignedDecimal::zero(),
            !a.negative(),
            a.magnitude() == Decimal::zero(),
    {
        SignedAmount { negative: false, magnitude: Amount::zero() }
    }

    /// The amount of the size `magnitude`, below zero where `negative`.
    pub fn new(negative: bool, magnitude: Amount) -> (a: SignedAmount)
        ensures
            a@ == SignedDecimal::of(negative, magnitude@),
            a.negative() == negative,
            a.magnitude() == magnitude@,
    {
        SignedAmount { negative, magnitude }
    }

    /// The exact sum of two amounts. It is marked as the two are where they
    /// are marked alike, and as the larger is where they are not.
    pub fn add(&self, other: &SignedAmount) -> (sum: SignedAmount)
        ensures
            sum@ == self@.plus(other@),
            sum.negative() == (if self.negative() == other.negative()
                || self.magnitude().at_least(other.magnitude()) {
                self.negative()
            } else {
                other.negative()
            }),
            sum.magnitude() == (if self.negative() == other.negative() {
                self.magnitude().plus(other.magnitude())
            } else {
                self.magnitude().distance(other.magnitude())
            }),
    {
        let ghost scale = Decimal::finer(self.magnitude@.scale, other.magnitude@.scale);
        proof {
            let p = pow10((scale - self.magnitude@.scale) as nat);
            let q = pow10((scale - other.magnitude@.scale) as nat);
            let a = self.magnitude@.units as int;
            let b = other.magnitude@.units as int;
            assert((-a) * p == -(a * p)) by (nonlinear_arith);
            assert((-b) * q == -(b * q)) by (nonlinear_arith);
        }
        if self.negative == other.negative {
            SignedAmount {
                negative: self.negative,
                magnitude: self.magnitude.add(&other.magnitude),
            }
        } else {
            let (distance, first) = self.magnitude.difference(&other.magnitude);
            SignedAmount {
                negative: if first {
                    self.negative
                } else {
                    other.negative
                },
                magnitude: distance,
            }
        }
    }

    /// Writes the amount as a number: a minus where it is marked as below
    /// zero, then the canonical spelling of its size.
    pub fn to_text(&self) -> (text: String)
        ensures
            text@ == self.spelling(),
            signed_decimal_of(text@) == Some(self@),
    {
        let size = self.magnitude.to_text();
        proof {
            lemma_decimal_has_no_mark(size@);
            assert(is_digit(size@[0]));
        }
        if self.negative {
            let mut text = String::from_str("-");
            text.append(size.as_str());
            proof {
                reveal_strlit("-");
                assert(text@[0] == '-');
                assert(text@.skip(1) =~= size@);
            }
            text
        } else {
            size
        }
    }

    /// Reads the whole number that a run of digits writes; none where there
    /// is no digit, another character, or a number beyond the machine's word.
    fn parse_count(digits: &str) -> (r: Option<usize>)
        ensures
            match r {
                Some(value) => digits@.len() > 0 && all_digits(digits@) && number(digits@)
                    == value,
                None => !(digits@.len() > 0 && all_digits(digits@) && number(digits@)
                    <= usize::MAX),
            },
    {
        if digits.unicode_len() == 0 {
            return None;
        }
        let mut value: usize = 0;
        for c in it: digits.chars()
            invariant
                it.seq() == digits@,
                all_digits(digits@.take(it.index() as int)),
                number(digits@.take(it.index() as int)) == value,
        {
            let ghost i = it.index() as int;
            assert(c == digits@[i]);
            assert(digits@.take(i + 1) =~= digits@.take(i).push(c));
            assert(digits@.take(i + 1).drop_last() =~= digits@.take(i));
            if c < '0' || c > '9' {
                return None;
            }
            let d: usize = ((c as u8) - ('0' as u8)) as usize;
            proof {
                lemma_number_grows(digits@, i + 1);
            }
            if value > (usize::MAX - d) / 10 {
                return None;
            }
            value = value * 10 + d;
        }
        assert(digits@.take(digits@.len() as int) =~= digits@);
        Some(value)
    }

    /// Reads a power of ten.
    fn parse_power(tail: &str) -> (r: Option<(bool, usize)>)
        ensures
            match r {
                Some(power) => power_of(tail@) == Some((power.0, power.1 as nat)),
                None => power_of(tail@) is None,
            },
    {
        let len = tail.unicode_len();
        if len == 0 {
            return None;
        }
        let first = tail.get_char(0);
        if first == '-' || first == '+' {
            let digits = tail.substring_char(1, len);
            assert(digits@ =~= tail@.skip(1));
            match Self::parse_count(digits) {
                Some(value) => Some((first == '-', value)),
                None => None,
            }
        } else {
            match Self::parse_count(tail) {
                Some(value) => Some((false, value)),
                None => None,
            }
        }
    }

    /// Reads the size of a number.
    fn parse_magnitude(body: &str) -> (r: Option<Amount>)
        ensures
            match r {
                Some(amount) => magnitude_of(body@) == Some(amount@),
                None => magnitude_of(body@) is None,
            },
    {
        let len = body.unicode_len();
        let mut k: usize = 0;
        let mut found = false;
        while k < len && !found
            invariant
                k <= len,
                len == body@.len(),
                found ==> k < len && is_mark(body@[k as int]),
                forall|j: int| 0 <= j < k ==> !is_mark(#[trigger] body@[j]),
            decreases len - k + (if found { 0int } else { 1int }),
        {
            let c = body.get_char(k);
            if c == 'e' || c == 'E' {
                found = true;
            } else {
                k = k + 1;
            }
        }
        if !found {
            assert forall|j: int| !mark_at(body@, j) by {
                if mark_at(body@, j) {
                    assert(!is_mark(body@[j]));
                }
            }
            return Amount::parse(body);
        }
        proof {
            assert(mark_at(body@, k as int));
            lemma_one_mark(body@, k as int);
        }
        let mantissa = body.substring_char(0, k);
        let tail = body.substring_char(k + 1, len);
        assert(mantissa@ =~= body@.take(k as int));
        assert(tail@ =~= body@.skip(k + 1));
        match Amount::parse(mantissa) {
            Some(decimal) => match Self::parse_power(tail) {
                Some(power) => decimal.shifted(power.0, power.1),
                None => None,
            },
            None => None,
        }
    }

    /// Reads a number: an optional minus, a decimal, and optionally a power
    /// of ten behind an `e` or `E`, itself with an optional sign.
    pub fn parse(text: &str) -> (r: Option<SignedAmount>)
        ensures
            match r {
                Some(amount) => signed_decimal_of(text@) == Some(amount@) && amount.negative() == (
                text@.len() > 0 && text@[0] == '-'),
                None => signed_decimal_of(text@) is None,
            },
    {
        let len = text.unicode_len();
        if len > 0 && text.get_char(0) == '-' {
            let body = text.substring_char(1, len);
            assert(body@ =~= text@.skip(1));
            match Self::parse_magnitude(body) {
                Some(magnitude) => Some(SignedAmount { negative: true, magnitude }),
                None => None,
            }
        } else {
            match Self::parse_magnitude(text) {
                Some(magnitude) => Some(SignedAmount { negative: false, magnitude }),
                None => None,
            }
        }
    }
}

} // verus!
