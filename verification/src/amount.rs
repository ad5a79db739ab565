//! Exact decimal amounts of money.
//!
//! An amount is a non-negative decimal with a fixed number of fraction digits.
//! Amounts are read from plain decimal text (`"123.45"`, `"7"`, `".5"`, `"5."`),
//! added without rounding, and written back as canonical decimal text.

use vstd::prelude::*;

verus! {

/// The mathematical value of an amount: `units` steps of size `10^-scale`.
pub struct Decimal {
    pub units: nat,
    pub scale: nat,
}

/// Ten to the power `n`.
pub open spec fn pow10(n: nat) -> nat
    decreases n,
{
    if n == 0 {
        1
    } else {
        10 * pow10((n - 1) as nat)
    }
}

impl Decimal {
    /// The amount zero.
    pub open spec fn zero() -> Decimal {
        Decimal { units: 0, scale: 0 }
    }

    /// The value counted in steps of `10^-scale`, for a `scale` that is at
    /// least as fine as the amount's own.
    pub open spec fn units_at(self, scale: nat) -> nat
        recommends
            scale >= self.scale,
    {
        self.units * pow10((scale - self.scale) as nat)
    }

    /// The finer of two scales.
    pub open spec fn finer(a: nat, b: nat) -> nat {
        if a >= b {
            a
        } else {
            b
        }
    }

    /// The exact sum, expressed at the finer of the two scales.
    pub open spec fn plus(self, other: Decimal) -> Decimal {
        let scale = Self::finer(self.scale, other.scale);
        Decimal { units: self.units_at(scale) + other.units_at(scale), scale }
    }

    /// Whether this amount is no less than `other`.
    pub open spec fn at_least(self, other: Decimal) -> bool {
        let scale = Self::finer(self.scale, other.scale);
        self.units_at(scale) >= other.units_at(scale)
    }

    /// How far two amounts are apart, expressed at the finer of the two scales.
    pub open spec fn distance(self, other: Decimal) -> Decimal {
        let scale = Self::finer(self.scale, other.scale);
        let a = self.units_at(scale);
        let b = other.units_at(scale);
        Decimal {
            units: if a >= b {
                (a - b) as nat
            } else {
                (b - a) as nat
            },
            scale,
        }
    }

    /// The amount times ten to the `by`, or, with `down`, divided by it.
    /// Dividing makes the scale finer; multiplying makes it coarser as far
    /// as there are fraction digits, and writes zeros behind the units
    /// beyond that.
    pub open spec fn shifted(self, down: bool, by: nat) -> Decimal {
        if down {
            Decimal { units: self.units, scale: self.scale + by }
        } else if by <= self.scale {
            Decimal { units: self.units, scale: (self.scale - by) as nat }
        } else {
            Decimal { units: self.units * pow10((by - self.scale) as nat), scale: 0 }
        }
    }
}

/// Adding zero changes nothing: the sum is the amount, at its own scale.
pub proof fn law_zero_is_neutral(d: Decimal)
    ensures
        Decimal::zero().plus(d) == d,
        d.plus(Decimal::zero()) == d,
{
    assert(pow10(0) == 1);
    assert(d.units_at(d.scale) == d.units * 1);
    assert(Decimal::zero().units_at(d.scale) == 0) by (nonlinear_arith)
        requires
            Decimal::zero().units_at(d.scale) == 0 * pow10(d.scale),
    ;
}

/// The order of two amounts does not matter to their sum.
pub proof fn law_plus_commutes(a: Decimal, b: Decimal)
    ensures
        a.plus(b) == b.plus(a),
{
}

/// Whether `c` is one of the ten ASCII digits.
pub open spec fn is_digit(c: char) -> bool {
    '0' <= c <= '9'
}

/// The digit that `c` stands for.
pub open spec fn digit_value(c: char) -> nat
    recommends
        is_digit(c),
{
    (c as nat - '0' as nat) as nat
}

/// Whether every character of `s` is a digit.
pub open spec fn all_digits(s: Seq<char>) -> bool {
    forall|i: int| 0 <= i < s.len() ==> is_digit(#[trigger] s[i])
}

/// The natural number written by the digit string `s` (zero for the empty string).
pub open spec fn number(s: Seq<char>) -> nat
    decreases s.len(),
{
    if s.len() == 0 {
        0
    } else {
        10 * number(s.drop_last()) + digit_value(s.last())
    }
}

/// Whether `s` is digits, a decimal point at index `p`, and digits, with at
/// least one digit in all.
pub open spec fn splits_at(s: Seq<char>, p: int) -> bool {
    &&& 0 <= p < s.len()
    &&& s.len() >= 2
    &&& s[p] == '.'
    &&& all_digits(s.take(p))
    &&& all_digits(s.skip(p + 1))
}

/// The decimal that the text `s` writes, if it writes one.
///
/// A decimal is a non-empty run of digits, optionally with one decimal point
/// before, inside or after it. Nothing else is a decimal: no sign, no
/// exponent, no blanks.
pub open spec fn decimal_of(s: Seq<char>) -> Option<Decimal> {
    if s.len() > 0 && all_digits(s) {
        Some(Decimal { units: number(s), scale: 0 })
    } else if exists|p: int| splits_at(s, p) {
        let p = choose|p: int| splits_at(s, p);
        Some(Decimal { units: number(s.take(p) + s.skip(p + 1)), scale: (s.len() - p - 1) as nat })
    } else {
        None
    }
}

/// The natural number whose decimal digits, most significant first, are `s`.
spec fn digits_value(s: Seq<u8>) -> nat
    decreases s.len(),
{
    if s.len() == 0 {
        0
    } else {
        10 * digits_value(s.drop_last()) + s.last() as nat
    }
}

/// Whether every element of `s` is a single decimal digit.
spec fn digits_in_range(s: Seq<u8>) -> bool {
    forall|i: int| 0 <= i < s.len() ==> #[trigger] s[i] < 10
}

/// The digits that the characters of `s` stand for.
spec fn digit_seq(s: Seq<char>) -> Seq<u8> {
    Seq::new(s.len(), |i: int| digit_value(s[i]) as u8)
}

proof fn lemma_number_of_digit_seq(s: Seq<char>)
    requires
        all_digits(s),
    ensures
        digits_value(digit_seq(s)) == number(s),
    decreases s.len(),
{
    if s.len() > 0 {
        let t = s.drop_last();
        assert forall|i: int| 0 <= i < t.len() implies is_digit(#[trigger] t[i]) by {
            assert(t[i] == s[i]);
        }
        lemma_number_of_digit_seq(t);
        assert(digit_seq(s).drop_last() =~= digit_seq(t));
        assert(is_digit(s[s.len() - 1]));
    }
}

proof fn lemma_split_is_unique(s: Seq<char>, p: int, q: int)
    requires
        splits_at(s, p),
        splits_at(s, q),
    ensures
        p == q,
{
    if p < q {
        assert(s.take(q)[p] == s[p]);
        assert(is_digit(s.take(q)[p]));
    } else if q < p {
        assert(s.take(p)[q] == s[q]);
        assert(is_digit(s.take(p)[q]));
    }
}

proof fn lemma_stray_character(s: Seq<char>, j: int)
    requires
        0 <= j < s.len(),
        !is_digit(s[j]),
        s[j] != '.',
    ensures
        decimal_of(s) is None,
{
    assert forall|p: int| !splits_at(s, p) by {
        if splits_at(s, p) {
            if j < p {
                assert(s.take(p)[j] == s[j]);
            } else {
                assert(s.skip(p + 1)[j - p - 1] == s[j]);
            }
        }
    }
}

proof fn lemma_second_point(s: Seq<char>, j: int, k: int)
    requires
        0 <= j < k < s.len(),
        s[j] == '.',
        s[k] == '.',
    ensures
        decimal_of(s) is None,
{
    assert(!is_digit(s[j]));
    assert forall|p: int| !splits_at(s, p) by {
        if splits_at(s, p) {
            if p == j {
                assert(s.skip(p + 1)[k - p - 1] == s[k]);
            } else if j < p {
                assert(s.take(p)[j] == s[j]);
            } else {
                assert(s.skip(p + 1)[j - p - 1] == s[j]);
            }
        }
    }
}

proof fn lemma_value_push(s: Seq<u8>, d: u8)
    ensures
        digits_value(s.push(d)) == 10 * digits_value(s) + d,
{
    assert(s.push(d).drop_last() =~= s);
}

/// `s` behind as many leading zeros as bring it to length `m`.
spec fn padded(s: Seq<u8>, m: nat) -> Seq<u8>
    recommends
        m >= s.len(),
{
    Seq::new(
        m,
        |i: int|
            if i >= m - s.len() {
                s[i - (m - s.len())]
            } else {
                0u8
            },
    )
}

/// The digit-by-digit sums of two sequences of one length, carries not yet taken.
spec fn column_sums(x: Seq<u8>, y: Seq<u8>) -> Seq<u8>
    recommends
        x.len() == y.len(),
{
    Seq::new(x.len(), |i: int| (x[i] + y[i]) as u8)
}

proof fn lemma_padded_value(s: Seq<u8>, m: nat)
    requires
        m >= s.len(),
    ensures
        digits_value(padded(s, m)) == digits_value(s),
    decreases m,
{
    if m > 0 {
        if s.len() == 0 {
            lemma_padded_value(s, (m - 1) as nat);
            assert(padded(s, m).drop_last() =~= padded(s, (m - 1) as nat));
        } else {
            lemma_padded_value(s.drop_last(), (m - 1) as nat);
            assert(padded(s, m).drop_last() =~= padded(s.drop_last(), (m - 1) as nat));
        }
    } else {
        assert(padded(s, m) =~= s);
    }
}

proof fn lemma_column_sums_value(x: Seq<u8>, y: Seq<u8>)
    requires
        x.len() == y.len(),
        forall|i: int| 0 <= i < x.len() ==> x[i] + y[i] <= 255,
    ensures
        digits_value(column_sums(x, y)) == digits_value(x) + digits_value(y),
    decreases x.len(),
{
    if x.len() > 0 {
        lemma_column_sums_value(x.drop_last(), y.drop_last());
        assert(column_sums(x, y).drop_last() =~= column_sums(x.drop_last(), y.drop_last()));
    }
}

/// Moving ten from one column into one of the column before it keeps the value.
proof fn lemma_carry_keeps_value(s: Seq<u8>, i: int)
    requires
        1 <= i < s.len(),
        s[i] >= 10,
        s[i - 1] < 255,
    ensures
        digits_value(s.update(i, (s[i] - 10) as u8).update(i - 1, (s[i - 1] + 1) as u8))
            == digits_value(s),
    decreases s.len(),
{
    let t = s.update(i, (s[i] - 10) as u8).update(i - 1, (s[i - 1] + 1) as u8);
    let front = s.drop_last();
    if i == s.len() - 1 {
        assert(t.drop_last() =~= front.update(i - 1, (s[i - 1] + 1) as u8));
        assert(t.drop_last().drop_last() =~= front.drop_last());
        assert(digits_value(t.drop_last()) == 10 * digits_value(front.drop_last()) + s[i - 1] + 1);
        assert(digits_value(front) == 10 * digits_value(front.drop_last()) + s[i - 1]);
        assert(digits_value(t) == 10 * digits_value(t.drop_last()) + s[i] - 10);
    } else {
        lemma_carry_keeps_value(front, i);
        assert(t.drop_last() =~= front.update(i, (s[i] - 10) as u8).update(
            i - 1,
            (s[i - 1] + 1) as u8,
        ));
        assert(t.last() == s.last());
    }
}

/// The character that writes the digit `d`.
spec fn digit_char(d: u8) -> char
    recommends
        d < 10,
{
    (d + 48) as char
}

/// The characters that write the digits `ds`.
spec fn digit_chars(ds: Seq<u8>) -> Seq<char> {
    Seq::new(ds.len(), |i: int| digit_char(ds[i]))
}

/// Whether `s` is a decimal in canonical spelling: a digit first and last,
/// and no zero before another digit of the integer part.
pub open spec fn is_plain_number(s: Seq<char>) -> bool {
    &&& decimal_of(s) is Some
    &&& is_digit(s.first())
    &&& is_digit(s.last())
    &&& s.len() >= 2 && s[0] == '0' ==> s[1] == '.'
}

/// Whether `s` is the canonical spelling of `d`, with all of its fraction digits.
pub open spec fn spells(s: Seq<char>, d: Decimal) -> bool {
    decimal_of(s) == Some(d) && is_plain_number(s)
}

/// The canonical spelling of `d`. Every decimal has exactly one:
/// `Amount::to_text` writes it, and `law_one_spelling` says that there is no
/// other.
pub open spec fn spelling(d: Decimal) -> Seq<char> {
    choose|s: Seq<char>| spells(s, d)
}

proof fn lemma_pow10_grows(m: nat, n: nat)
    requires
        m <= n,
    ensures
        1 <= pow10(m) <= pow10(n),
    decreases n,
{
    if n == 0 {
    } else if m == n {
        lemma_pow10_grows(0, (n - 1) as nat);
    } else {
        lemma_pow10_grows(m, (n - 1) as nat);
    }
}

proof fn lemma_front_digits(s: Seq<char>)
    requires
        all_digits(s),
        s.len() > 0,
    ensures
        all_digits(s.drop_last()),
        is_digit(s.last()),
        s.len() >= 2 ==> s.drop_last()[0] == s[0],
{
    let t = s.drop_last();
    assert forall|i: int| 0 <= i < t.len() implies is_digit(#[trigger] t[i]) by {
        assert(t[i] == s[i]);
    }
    assert(is_digit(s[s.len() - 1]));
}

/// A number of `n` digits is less than ten to the `n`.
proof fn lemma_number_below(s: Seq<char>)
    requires
        all_digits(s),
    ensures
        number(s) < pow10(s.len()),
    decreases s.len(),
{
    if s.len() > 0 {
        lemma_front_digits(s);
        lemma_number_below(s.drop_last());
    }
}

/// A number of `n` digits whose first is not zero is at least ten to the `n - 1`.
proof fn lemma_number_above(s: Seq<char>)
    requires
        all_digits(s),
        s.len() >= 1,
        s[0] != '0',
    ensures
        number(s) >= pow10((s.len() - 1) as nat),
    decreases s.len(),
{
    lemma_front_digits(s);
    if s.len() == 1 {
        assert(s.drop_last().len() == 0);
        assert(number(s.drop_last()) == 0);
        assert(is_digit(s[0]));
    } else {
        lemma_number_above(s.drop_last());
    }
}

/// Two digit strings of one length that write one number are one string.
proof fn lemma_number_is_injective(a: Seq<char>, b: Seq<char>)
    requires
        all_digits(a),
        all_digits(b),
        a.len() == b.len(),
        number(a) == number(b),
    ensures
        a == b,
    decreases a.len(),
{
    if a.len() > 0 {
        lemma_front_digits(a);
        lemma_front_digits(b);
        lemma_number_is_injective(a.drop_last(), b.drop_last());
        assert(a.last() == b.last());
        assert(a =~= a.drop_last().push(a.last()));
        assert(b =~= b.drop_last().push(b.last()));
    } else {
        assert(a =~= b);
    }
}

/// Two digit strings without a needless leading zero that write one number
/// have one length.
proof fn lemma_number_fixes_length(a: Seq<char>, b: Seq<char>, tail: nat)
    requires
        all_digits(a),
        all_digits(b),
        number(a) == number(b),
        a.len() > tail,
        b.len() > tail,
        a.len() >= tail + 2 ==> a[0] != '0',
        b.len() >= tail + 2 ==> b[0] != '0',
    ensures
        a.len() == b.len(),
{
    if a.len() < b.len() {
        lemma_number_below(a);
        lemma_number_above(b);
        lemma_pow10_grows(a.len(), (b.len() - 1) as nat);
    } else if b.len() < a.len() {
        lemma_number_below(b);
        lemma_number_above(a);
        lemma_pow10_grows(b.len(), (a.len() - 1) as nat);
    }
}

/// How a canonical spelling is built: without a point it is the digits of
/// the units; with one, the point stands `scale` digits before the end.
proof fn lemma_spelling_shape(s: Seq<char>, d: Decimal)
    requires
        spells(s, d),
    ensures
        d.scale == 0 ==> all_digits(s) && s.len() >= 1 && number(s) == d.units && (s.len() >= 2
            ==> s[0] != '0'),
        d.scale > 0 ==> ({
            let p = s.len() - 1 - d.scale;
            &&& p >= 1
            &&& splits_at(s, p)
            &&& number(s.take(p) + s.skip(p + 1)) == d.units
            &&& p >= 2 ==> s[0] != '0'
        }),
{
    if s.len() > 0 && all_digits(s) {
        if s.len() >= 2 && s[0] == '0' {
            assert(is_digit(s[1]));
        }
    } else {
        let p = choose|p: int| splits_at(s, p);
        assert(splits_at(s, p));
        if p == s.len() - 1 {
            assert(s.last() == '.');
        }
        if p == 0 {
            assert(s.first() == '.');
        }
        if p >= 2 && s[0] == '0' {
            assert(s.take(p)[1] == s[1]);
            assert(is_digit(s.take(p)[1]));
        }
    }
}

/// A decimal has one canonical spelling only.
pub proof fn law_one_spelling(a: Seq<char>, b: Seq<char>, d: Decimal)
    requires
        spells(a, d),
        spells(b, d),
    ensures
        a == b,
        a == spelling(d),
{
    lemma_one_spelling(a, b, d);
    lemma_one_spelling(a, spelling(d), d);
}

proof fn lemma_one_spelling(a: Seq<char>, b: Seq<char>, d: Decimal)
    requires
        spells(a, d),
        spells(b, d),
    ensures
        a == b,
{
    lemma_spelling_shape(a, d);
    lemma_spelling_shape(b, d);
    if d.scale == 0 {
        lemma_number_fixes_length(a, b, 0);
        lemma_number_is_injective(a, b);
    } else {
        let p = a.len() - 1 - d.scale;
        let q = b.len() - 1 - d.scale;
        let x = a.take(p) + a.skip(p + 1);
        let y = b.take(q) + b.skip(q + 1);
        assert forall|i: int| 0 <= i < x.len() implies is_digit(#[trigger] x[i]) by {
            if i < p {
                assert(x[i] == a.take(p)[i]);
            } else {
                assert(x[i] == a.skip(p + 1)[i - p]);
            }
        }
        assert forall|i: int| 0 <= i < y.len() implies is_digit(#[trigger] y[i]) by {
            if i < q {
                assert(y[i] == b.take(q)[i]);
            } else {
                assert(y[i] == b.skip(q + 1)[i - q]);
            }
        }
        assert(x[0] == a[0]);
        assert(y[0] == b[0]);
        lemma_number_fixes_length(x, y, d.scale);
        lemma_number_is_injective(x, y);
        assert(p == q);
        assert forall|i: int| 0 <= i < a.len() implies a[i] == b[i] by {
            if i < p {
                assert(a[i] == x[i] && b[i] == y[i]);
            } else if i > p {
                assert(a[i] == x[i - 1] && b[i] == y[i - 1]);
            }
        }
        assert(a =~= b);
    }
}

proof fn lemma_digit_chars(ds: Seq<u8>)
    requires
        digits_in_range(ds),
    ensures
        all_digits(digit_chars(ds)),
        digit_seq(digit_chars(ds)) == ds,
        number(digit_chars(ds)) == digits_value(ds),
{
    let cs = digit_chars(ds);
    assert forall|i: int| 0 <= i < cs.len() implies is_digit(#[trigger] cs[i]) by {
        assert(ds[i] < 10);
    }
    assert forall|i: int| 0 <= i < ds.len() implies digit_seq(cs)[i] == ds[i] by {
        assert(ds[i] < 10);
    }
    assert(digit_seq(cs) =~= ds);
    lemma_number_of_digit_seq(cs);
}

/// What the text made of an integer part and a fraction part writes.
proof fn lemma_text_of_parts(whole: Seq<u8>, fraction: Seq<u8>)
    requires
        digits_in_range(whole),
        digits_in_range(fraction),
        whole.len() >= 1,
    ensures
        fraction.len() == 0 ==> decimal_of(digit_chars(whole)) == Some(
            Decimal { units: digits_value(whole), scale: 0 },
        ),
        fraction.len() > 0 ==> decimal_of(digit_chars(whole) + seq!['.'] + digit_chars(fraction))
            == Some(Decimal { units: digits_value(whole + fraction), scale: fraction.len() }),
{
    lemma_digit_chars(whole);
    lemma_digit_chars(fraction);
    if fraction.len() > 0 {
        let text = digit_chars(whole) + seq!['.'] + digit_chars(fraction);
        let p = whole.len() as int;
        assert(text[p] == '.');
        assert(!is_digit(text[p]));
        assert(text.take(p) =~= digit_chars(whole));
        assert(text.skip(p + 1) =~= digit_chars(fraction));
        assert(splits_at(text, p));
        let q = choose|q: int| splits_at(text, q);
        lemma_split_is_unique(text, p, q);
        assert(digit_chars(whole) + digit_chars(fraction) =~= digit_chars(whole + fraction));
        assert forall|i: int| 0 <= i < (whole + fraction).len() implies #[trigger] (whole
            + fraction)[i] < 10 by {
            if i < whole.len() {
                assert((whole + fraction)[i] == whole[i]);
            } else {
                assert((whole + fraction)[i] == fraction[i - whole.len()]);
            }
        }
        lemma_digit_chars(whole + fraction);
    }
}

/// The digits written for an amount have the value of the digits it holds.
proof fn lemma_spelling(d: Seq<u8>, scale: nat, start: nat, whole: Seq<u8>, fraction: Seq<u8>)
    requires
        digits_in_range(d),
        start <= d.len() - scale || (start == 0 && d.len() <= scale),
        forall|k: int| 0 <= k < start ==> #[trigger] d[k] == 0,
        d.len() > scale && start < d.len() - scale ==> whole == d.subrange(
            start as int,
            d.len() - scale,
        ),
        !(d.len() > scale && start < d.len() - scale) ==> whole == seq![0u8],
        d.len() > scale ==> fraction == d.subrange(d.len() - scale, d.len() as int),
        d.len() <= scale ==> fraction == Seq::new((scale - d.len()) as nat, |j: int| 0u8) + d,
    ensures
        digits_in_range(whole),
        digits_in_range(fraction),
        whole.len() >= 1,
        fraction.len() == scale,
        digits_value(whole + fraction) == digits_value(d),
{
    let n = d.len();
    let written = whole + fraction;
    if n > scale {
        let whole_len = (n - scale) as int;
        if start < whole_len {
            assert(written =~= d.skip(start as int));
            assert(d =~= padded(written, n));
            lemma_padded_value(written, n);
        } else {
            let tail = d.skip(whole_len);
            assert(written =~= padded(tail, tail.len() + 1));
            assert(d =~= padded(tail, n));
            lemma_padded_value(tail, tail.len() + 1);
            lemma_padded_value(tail, n);
        }
    } else {
        assert(written =~= padded(d, scale + 1));
        lemma_padded_value(d, scale + 1);
    }
}

/// Text made of an integer part without needless zeros, and of a fraction
/// part behind a point where there is one, is a canonical spelling.
proof fn lemma_plain_spelling(whole: Seq<u8>, fraction: Seq<u8>)
    requires
        digits_in_range(whole),
        digits_in_range(fraction),
        whole.len() >= 1,
        whole[0] == 0 ==> whole.len() == 1,
    ensures
        fraction.len() == 0 ==> is_plain_number(digit_chars(whole)),
        fraction.len() > 0 ==> is_plain_number(
            digit_chars(whole) + seq!['.'] + digit_chars(fraction),
        ),
{
    lemma_text_of_parts(whole, fraction);
    lemma_digit_chars(whole);
    lemma_digit_chars(fraction);
    assert(whole[0] < 10);
    assert(whole[whole.len() - 1] < 10);
    if fraction.len() > 0 {
        let text = digit_chars(whole) + seq!['.'] + digit_chars(fraction);
        assert(text[0] == digit_chars(whole)[0]);
        assert(fraction[fraction.len() - 1] < 10);
        assert(text.last() == digit_chars(fraction)[fraction.len() - 1]);
        if whole.len() >= 2 {
            assert(text[0] != '0');
        } else {
            assert(text[1] == '.');
        }
    } else {
        let text = digit_chars(whole);
        if whole.len() >= 2 {
            assert(text[0] != '0');
        }
    }
}

/// The nines' complement of each digit.
spec fn complement(s: Seq<u8>) -> Seq<u8> {
    Seq::new(s.len(), |i: int| (9 - s[i]) as u8)
}

/// A number of `n` digits is less than ten to the `n`.
proof fn lemma_value_below(s: Seq<u8>)
    requires
        digits_in_range(s),
    ensures
        digits_value(s) < pow10(s.len()),
    decreases s.len(),
{
    if s.len() > 0 {
        let front = s.drop_last();
        assert forall|i: int| 0 <= i < front.len() implies #[trigger] front[i] < 10 by {
            assert(front[i] == s[i]);
        }
        lemma_value_below(front);
        assert(s[s.len() - 1] < 10);
    }
}

/// A number and its nines' complement add up to ten to the length, less one.
proof fn lemma_complement_value(s: Seq<u8>)
    requires
        digits_in_range(s),
    ensures
        digits_in_range(complement(s)),
        digits_value(complement(s)) + digits_value(s) + 1 == pow10(s.len()),
    decreases s.len(),
{
    assert forall|i: int| 0 <= i < s.len() implies #[trigger] complement(s)[i] < 10 by {
        assert(s[i] < 10);
    }
    if s.len() > 0 {
        let front = s.drop_last();
        assert forall|i: int| 0 <= i < front.len() implies #[trigger] front[i] < 10 by {
            assert(front[i] == s[i]);
        }
        lemma_complement_value(front);
        assert(complement(s).drop_last() =~= complement(front));
        assert(s[s.len() - 1] < 10);
    }
}

/// A number is its first digit times ten to the rest's length, and the rest.
proof fn lemma_leading_digit(s: Seq<u8>)
    requires
        s.len() >= 1,
    ensures
        digits_value(s) == s[0] * pow10((s.len() - 1) as nat) + digits_value(s.skip(1)),
    decreases s.len(),
{
    if s.len() == 1 {
        assert(s.drop_last().len() == 0);
        assert(s.skip(1).len() == 0);
        assert(digits_value(s.drop_last()) == 0);
        assert(pow10(0) == 1);
        assert(s[0] * pow10(0) == s[0]) by (nonlinear_arith)
            requires
                pow10(0) == 1,
        ;
    } else {
        let front = s.drop_last();
        lemma_leading_digit(front);
        assert(s.skip(1).drop_last() =~= front.skip(1));
        assert(s.skip(1).last() == s.last());
        let p = pow10((s.len() - 2) as nat);
        assert(pow10((s.len() - 1) as nat) == 10 * p);
        assert(front[0] == s[0]);
        assert(10 * (s[0] * p) == s[0] * (10 * p)) by (nonlinear_arith);
    }
}

/// Zeros written behind a number multiply it by ten for each.
proof fn lemma_zeros_behind(s: Seq<u8>, k: nat)
    ensures
        digits_value(s + Seq::new(k, |i: int| 0u8)) == digits_value(s) * pow10(k),
    decreases k,
{
    let zeros = Seq::new(k, |i: int| 0u8);
    if k == 0 {
        assert(s + zeros =~= s);
        assert(digits_value(s) * 1 == digits_value(s));
    } else {
        let fewer = Seq::new((k - 1) as nat, |i: int| 0u8);
        lemma_zeros_behind(s, (k - 1) as nat);
        assert((s + zeros).drop_last() =~= s + fewer);
        assert((s + zeros).last() == 0);
        let v = digits_value(s);
        let p = pow10((k - 1) as nat);
        assert(10 * (v * p) == v * (10 * p)) by (nonlinear_arith);
    }
}

/// An exact, non-negative decimal amount.
#[derive(Debug)]
pub struct Amount {
    digits: Vec<u8>,
    scale: usize,
}

impl View for Amount {
    type V = Decimal;

    closed spec fn view(&self) -> Decimal {
        Decimal { units: digits_value(self.digits@), scale: self.scale as nat }
    }
}

impl Clone for Amount {
    fn clone(&self) -> (copy: Amount)
        ensures
            copy@ == self@,
    {
        proof {
            use_type_invariant(self);
        }
        let digits = self.digits.clone();
        assert(digits@ =~= self.digits@);
        Amount { digits, scale: self.scale }
    }
}

impl Amount {
    #[verifier::type_invariant]
    spec fn well_formed(&self) -> bool {
        digits_in_range(self.digits@)
    }

    /// What the digits behind the first say of a number of `m + 1` digits
    /// that is less than twice ten to the `m`: the first digit is 0 or 1, and
    /// the rest is the number, less ten to the `m` where the first is 1.
    proof fn lemma_tail(c: Seq<u8>)
        requires
            digits_in_range(c),
            c.len() >= 1,
        ensures
            digits_in_range(c.skip(1)),
            digits_value(c.skip(1)) < pow10((c.len() - 1) as nat),
            digits_value(c) == c[0] * pow10((c.len() - 1) as nat) + digits_value(c.skip(1)),
            c[0] >= 2 ==> digits_value(c) >= 2 * pow10((c.len() - 1) as nat),
            c[0] == 1 ==> digits_value(c) == pow10((c.len() - 1) as nat) + digits_value(c.skip(1)),
            c[0] == 0 ==> digits_value(c) == digits_value(c.skip(1)),
    {
        let rest = c.skip(1);
        assert forall|i: int| 0 <= i < rest.len() implies #[trigger] rest[i] < 10 by {
            assert(rest[i] == c[i + 1]);
        }
        lemma_value_below(rest);
        lemma_leading_digit(c);
        let p = pow10((c.len() - 1) as nat);
        let d = c[0] as int;
        assert(d >= 2 ==> d * p >= 2 * p) by (nonlinear_arith)
            requires
                p >= 0,
        ;
        assert(d == 1 ==> d * p == p) by (nonlinear_arith);
        assert(d == 0 ==> d * p == 0) by (nonlinear_arith);
    }

    /// The amount zero.
    pub fn zero() -> (a: Amount)
        ensures
            a@ == Decimal::zero(),
    {
        Amount { digits: Vec::new(), scale: 0 }
    }

    /// The digits of the amount counted in steps of `10^-scale`.
    fn rescaled(&self, scale: usize) -> (r: Vec<u8>)
        requires
            scale >= self@.scale,
        ensures
            digits_in_range(r@),
            digits_value(r@) == self@.units_at(scale as nat),
    {
        proof {
            use_type_invariant(self);
        }
        let mut r: Vec<u8> = self.digits.clone();
        let mut k: usize = self.scale;
        assert(r@ =~= self.digits@);
        assert(pow10((k - self.scale) as nat) == 1);
        assert(digits_value(r@) == digits_value(self.digits@) * 1);
        while k < scale
            invariant
                self.scale <= k <= scale,
                digits_in_range(r@),
                digits_value(r@) == digits_value(self.digits@) * pow10((k - self.scale) as nat),
            decreases scale - k,
        {
            proof {
                lemma_value_push(r@, 0);
                let v = digits_value(self.digits@);
                let p = pow10((k - self.scale) as nat);
                assert(pow10((k + 1 - self.scale) as nat) == 10 * p);
                assert(10 * (v * p) == v * (10 * p)) by (nonlinear_arith);
            }
            r.push(0);
            k = k + 1;
        }
        r
    }

    /// The digits of the sum of two numbers and a carry.
    fn sum_digits(a: &Vec<u8>, b: &Vec<u8>, carry: u8) -> (c: Vec<u8>)
        requires
            digits_in_range(a@),
            digits_in_range(b@),
            carry <= 1,
        ensures
            digits_in_range(c@),
            c@.len() == (if a@.len() >= b@.len() {
                a@.len()
            } else {
                b@.len()
            }) + 1,
            digits_value(c@) == digits_value(a@) + digits_value(b@) + carry,
    {
        let m: usize = if a.len() >= b.len() {
            a.len()
        } else {
            b.len()
        };
        let lead_a: usize = m - a.len();
        let lead_b: usize = m - b.len();
        let ghost pa = padded(a@, m as nat);
        let ghost pb = padded(b@, m as nat);
        let mut c: Vec<u8> = Vec::new();
        c.push(0);
        let mut i: usize = 0;
        while i < m
            invariant
                i <= m,
                m >= a@.len(),
                m >= b@.len(),
                lead_a == m - a@.len(),
                lead_b == m - b@.len(),
                digits_in_range(a@),
                digits_in_range(b@),
                pa == padded(a@, m as nat),
                pb == padded(b@, m as nat),
                c@ == seq![0u8] + column_sums(pa, pb).take(i as int),
            decreases m - i,
        {
            let x: u8 = if i >= lead_a {
                a[i - lead_a]
            } else {
                0
            };
            let y: u8 = if i >= lead_b {
                b[i - lead_b]
            } else {
                0
            };
            assert(x == pa[i as int] && y == pb[i as int]);
            c.push(x + y);
            assert(c@ =~= seq![0u8] + column_sums(pa, pb).take(i + 1));
            i = i + 1;
        }
        proof {
            let sums = column_sums(pa, pb);
            assert(sums.take(m as int) =~= sums);
            assert forall|k: int| 0 <= k < pa.len() implies pa[k] + pb[k] <= 255 by {
                assert(pa[k] < 10 && pb[k] < 10);
            }
            lemma_column_sums_value(pa, pb);
            lemma_padded_value(a@, m as nat);
            lemma_padded_value(b@, m as nat);
            lemma_padded_value(sums, (m + 1) as nat);
            assert(c@ =~= padded(sums, (m + 1) as nat));
            assert forall|k: int| 0 < k <= m implies #[trigger] c@[k] <= 18 by {
                assert(c@[k] == sums[k - 1]);
                assert(pa[k - 1] < 10 && pb[k - 1] < 10);
            }
        }
        let last: u8 = c[m];
        proof {
            assert(c@.update(m as int, (last + carry) as u8).drop_last() =~= c@.drop_last());
        }
        c.set(m, last + carry);
        let ghost total = digits_value(c@);
        let mut j: usize = m;
        while j > 0
            invariant
                j <= m,
                c@.len() == m + 1,
                digits_value(c@) == total,
                forall|k: int| j < k <= m ==> #[trigger] c@[k] < 10,
                forall|k: int| 0 < k < j ==> #[trigger] c@[k] <= 18,
                c@[j as int] <= 19,
                c@[0] <= 1,
                j >= 1 ==> c@[0] == 0,
            decreases j,
        {
            let here: u8 = c[j];
            if here >= 10 {
                let before: u8 = c[j - 1];
                proof {
                    lemma_carry_keeps_value(c@, j as int);
                }
                c.set(j, here - 10);
                c.set(j - 1, before + 1);
            }
            j = j - 1;
        }
        c
    }

    /// The digits of ten to the `m` plus `x` less `y`, for two numbers of at
    /// most `m` digits: one digit more than `m`.
    fn complement_sum(x: &Vec<u8>, y: &Vec<u8>, m: usize) -> (c: Vec<u8>)
        requires
            digits_in_range(x@),
            digits_in_range(y@),
            x@.len() <= m,
            y@.len() <= m,
        ensures
            digits_in_range(c@),
            c@.len() == m + 1,
            digits_value(c@) + digits_value(y@) == pow10(m as nat) + digits_value(x@),
    {
        let lead: usize = m - y.len();
        let ghost py = padded(y@, m as nat);
        let mut nines: Vec<u8> = Vec::new();
        let mut i: usize = 0;
        while i < m
            invariant
                i <= m,
                lead == m - y@.len(),
                digits_in_range(y@),
                py == padded(y@, m as nat),
                nines@ == complement(py).take(i as int),
            decreases m - i,
        {
            let d: u8 = if i >= lead {
                y[i - lead]
            } else {
                0
            };
            assert(d == py[i as int]);
            nines.push(9 - d);
            assert(nines@ =~= complement(py).take(i + 1));
            i = i + 1;
        }
        proof {
            assert(complement(py).take(m as int) =~= complement(py));
            assert forall|k: int| 0 <= k < py.len() implies #[trigger] py[k] < 10 by {
                if k >= m - y@.len() {
                    assert(py[k] == y@[k - (m - y@.len())]);
                }
            }
            lemma_complement_value(py);
            lemma_padded_value(y@, m as nat);
        }
        Self::sum_digits(x, &nines, 1)
    }

    /// The exact sum of two amounts.
    pub fn add(&self, other: &Amount) -> (sum: Amount)
        ensures
            sum@ == self@.plus(other@),
    {
        let scale: usize = if self.scale >= other.scale {
            self.scale
        } else {
            other.scale
        };
        let a = self.rescaled(scale);
        let b = other.rescaled(scale);
        let c = Self::sum_digits(&a, &b, 0);
        Amount { digits: c, scale }
    }

    /// How far two amounts are apart, and whether the first is no less than
    /// the second.
    pub fn difference(&self, other: &Amount) -> (r: (Amount, bool))
        ensures
            r.0@ == self@.distance(other@),
            r.1 == self@.at_least(other@),
    {
        let scale: usize = if self.scale >= other.scale {
            self.scale
        } else {
            other.scale
        };
        let a = self.rescaled(scale);
        let b = other.rescaled(scale);
        let m: usize = if a.len() >= b.len() {
            a.len()
        } else {
            b.len()
        };
        proof {
            lemma_padded_value(a@, m as nat);
            lemma_padded_value(b@, m as nat);
            assert forall|k: int| 0 <= k < m implies #[trigger] padded(a@, m as nat)[k] < 10 by {
                if k >= m - a@.len() {
                    assert(padded(a@, m as nat)[k] == a@[k - (m - a@.len())]);
                }
            }
            assert forall|k: int| 0 <= k < m implies #[trigger] padded(b@, m as nat)[k] < 10 by {
                if k >= m - b@.len() {
                    assert(padded(b@, m as nat)[k] == b@[k - (m - b@.len())]);
                }
            }
            lemma_value_below(padded(a@, m as nat));
            lemma_value_below(padded(b@, m as nat));
        }
        let mut c = Self::complement_sum(&a, &b, m);
        let ghost whole = c@;
        proof {
            Self::lemma_tail(whole);
        }
        if c[0] >= 1 {
            let rest = c.split_off(1);
            assert(rest@ =~= whole.skip(1));
            (Amount { digits: rest, scale }, true)
        } else {
            let mut c = Self::complement_sum(&b, &a, m);
            let ghost whole = c@;
            proof {
                Self::lemma_tail(whole);
            }
            let rest = c.split_off(1);
            assert(rest@ =~= whole.skip(1));
            (Amount { digits: rest, scale }, false)
        }
    }

    /// The amount times ten to the `by`, or, with `down`, divided by it; none
    /// where the scale would not fit the machine's word.
    pub fn shifted(&self, down: bool, by: usize) -> (r: Option<Amount>)
        ensures
            match r {
                Some(amount) => amount@ == self@.shifted(down, by as nat) && !(down && self@.scale
                    + by > usize::MAX),
                None => down && self@.scale + by > usize::MAX,
            },
    {
        proof {
            use_type_invariant(self);
        }
        if down {
            match self.scale.checked_add(by) {
                Some(scale) => {
                    let digits = self.digits.clone();
                    assert(digits@ =~= self.digits@);
                    Some(Amount { digits, scale })
                },
                None => None,
            }
        } else if by <= self.scale {
            let digits = self.digits.clone();
            assert(digits@ =~= self.digits@);
            Some(Amount { digits, scale: self.scale - by })
        } else {
            let zeros: usize = by - self.scale;
            let mut digits = self.digits.clone();
            assert(digits@ =~= self.digits@);
            let mut k: usize = 0;
            while k < zeros
                invariant
                    k <= zeros,
                    digits_in_range(digits@),
                    digits@ == self.digits@ + Seq::new(k as nat, |i: int| 0u8),
                decreases zeros - k,
            {
                digits.push(0);
                assert(digits@ =~= self.digits@ + Seq::new((k + 1) as nat, |i: int| 0u8));
                k = k + 1;
            }
            proof {
                lemma_zeros_behind(self.digits@, zeros as nat);
            }
            Some(Amount { digits, scale: 0 })
        }
    }

    /// The text of one digit.
    fn digit_text(d: u8) -> (t: &'static str)
        requires
            d < 10,
        ensures
            t@ == seq![digit_char(d)],
    {
        proof {
            reveal_strlit("0");
            reveal_strlit("1");
            reveal_strlit("2");
            reveal_strlit("3");
            reveal_strlit("4");
            reveal_strlit("5");
            reveal_strlit("6");
            reveal_strlit("7");
            reveal_strlit("8");
            reveal_strlit("9");
        }
        let t = if d == 0 {
            "0"
        } else if d == 1 {
            "1"
        } else if d == 2 {
            "2"
        } else if d == 3 {
            "3"
        } else if d == 4 {
            "4"
        } else if d == 5 {
            "5"
        } else if d == 6 {
            "6"
        } else if d == 7 {
            "7"
        } else if d == 8 {
            "8"
        } else {
            "9"
        };
        assert(t@ =~= seq![digit_char(d)]);
        t
    }

    /// Writes the amount as decimal text: the integer part without needless
    /// zeros, then, where the scale is not zero, a point and exactly `scale`
    /// fraction digits.
    pub fn to_text(&self) -> (text: String)
        ensures
            spells(text@, self@),
            text@ == spelling(self@),
    {
        proof {
            use_type_invariant(self);
        }
        let n: usize = self.digits.len();
        let whole_len: usize = if n > self.scale {
            n - self.scale
        } else {
            0
        };
        let mut start: usize = 0;
        while start < whole_len && self.digits[start] == 0
            invariant
                start <= whole_len <= n,
                n == self.digits@.len(),
                forall|k: int| 0 <= k < start ==> #[trigger] self.digits@[k] == 0,
            decreases whole_len - start,
        {
            start = start + 1;
        }
        assert(start < whole_len ==> self.digits@[start as int] != 0);
        let mut text = String::new();
        let ghost mut whole: Seq<u8> = Seq::empty();
        if start == whole_len {
            text.append(Self::digit_text(0));
            proof {
                whole = seq![0u8];
            }
        }
        assert(text@ =~= digit_chars(whole));
        let mut i: usize = start;
        while i < whole_len
            invariant
                start <= i <= whole_len <= n,
                n == self.digits@.len(),
                digits_in_range(self.digits@),
                start < whole_len ==> whole == self.digits@.subrange(start as int, i as int),
                start == whole_len ==> whole == seq![0u8],
                text@ == digit_chars(whole),
            decreases whole_len - i,
        {
            text.append(Self::digit_text(self.digits[i]));
            proof {
                whole = whole.push(self.digits@[i as int]);
                assert(whole =~= self.digits@.subrange(start as int, i + 1));
                assert(text@ =~= digit_chars(whole));
            }
            i = i + 1;
        }
        let ghost mut fraction: Seq<u8> = Seq::empty();
        if self.scale > 0 {
            proof {
                reveal_strlit(".");
            }
            text.append(".");
            assert(text@ =~= digit_chars(whole) + seq!['.'] + digit_chars(fraction));
            let mut k: usize = n;
            assert(fraction =~= Seq::new((k - n) as nat, |j: int| 0u8));
            while k < self.scale
                invariant
                    n <= k,
                    k <= self.scale || k == n,
                    fraction == Seq::new((k - n) as nat, |j: int| 0u8),
                    text@ == digit_chars(whole) + seq!['.'] + digit_chars(fraction),
                decreases self.scale - k,
            {
                text.append(Self::digit_text(0));
                proof {
                    fraction = fraction.push(0u8);
                    assert(fraction =~= Seq::new((k + 1 - n) as nat, |j: int| 0u8));
                    assert(text@ =~= digit_chars(whole) + seq!['.'] + digit_chars(fraction));
                }
                k = k + 1;
            }
            let ghost zeros = fraction;
            let mut i: usize = whole_len;
            while i < n
                invariant
                    whole_len <= i <= n,
                    n == self.digits@.len(),
                    digits_in_range(self.digits@),
                    fraction == zeros + self.digits@.subrange(whole_len as int, i as int),
                    text@ == digit_chars(whole) + seq!['.'] + digit_chars(fraction),
                decreases n - i,
            {
                text.append(Self::digit_text(self.digits[i]));
                proof {
                    fraction = fraction.push(self.digits@[i as int]);
                    assert(fraction =~= zeros + self.digits@.subrange(whole_len as int, i + 1));
                    assert(text@ =~= digit_chars(whole) + seq!['.'] + digit_chars(fraction));
                }
                i = i + 1;
            }
            proof {
                if n <= self.scale {
                    assert(self.digits@.subrange(0, n as int) =~= self.digits@);
                    assert(zeros =~= Seq::new((self.scale - n) as nat, |j: int| 0u8));
                } else {
                    assert(zeros =~= Seq::<u8>::empty());
                    assert(fraction =~= self.digits@.subrange(n - self.scale, n as int));
                }
            }
        }
        proof {
            if self.scale == 0 {
                if n == 0 {
                    assert(fraction =~= Seq::new(0nat, |j: int| 0u8) + self.digits@);
                } else {
                    assert(fraction =~= self.digits@.subrange(n as int, n as int));
                }
            }
            lemma_spelling(self.digits@, self.scale as nat, start as nat, whole, fraction);
            lemma_text_of_parts(whole, fraction);
            lemma_plain_spelling(whole, fraction);
            if self.scale == 0 {
                assert(whole + fraction =~= whole);
            }
            assert(spells(text@, self@));
            lemma_one_spelling(text@, spelling(self@), self@);
        }
        text
    }

    /// Reads an amount from decimal text.
    pub fn parse(text: &str) -> (r: Option<Amount>)
        ensures
            match r {
                Some(a) => decimal_of(text@) == Some(a@),
                None => decimal_of(text@) is None,
            },
    {
        let mut digits: Vec<u8> = Vec::new();
        let mut point: Option<usize> = None;
        let ghost mut at: int = 0;
        for c in it: text.chars()
            invariant
                it.seq() == text@,
                digits_in_range(digits@),
                match point {
                    None => {
                        &&& all_digits(text@.take(it.index() as int))
                        &&& digits@ == digit_seq(text@.take(it.index() as int))
                    },
                    Some(p) => {
                        &&& 0 <= at < it.index()
                        &&& text@[at] == '.'
                        &&& p == at
                        &&& all_digits(text@.take(at))
                        &&& all_digits(text@.subrange(at + 1, it.index() as int))
                        &&& digits@ == digit_seq(
                            text@.take(at) + text@.subrange(at + 1, it.index() as int),
                        )
                    },
                },
        {
            let ghost i = it.index() as int;
            assert(c == text@[i]);
            if c >= '0' && c <= '9' {
                let d: u8 = (c as u8) - ('0' as u8);
                digits.push(d);
                proof {
                    match point {
                        None => {
                            assert(text@.take(i + 1) =~= text@.take(i).push(c));
                            assert(digits@ =~= digit_seq(text@.take(i + 1)));
                        },
                        Some(p) => {
                            assert(text@.subrange(at + 1, i + 1) =~= text@.subrange(
                                at + 1,
                                i,
                            ).push(c));
                            assert(text@.take(at) + text@.subrange(at + 1, i + 1) =~= (text@.take(
                                at,
                            ) + text@.subrange(at + 1, i)).push(c));
                            assert(digits@ =~= digit_seq(
                                text@.take(at) + text@.subrange(at + 1, i + 1),
                            ));
                        },
                    }
                }
            } else if c == '.' {
                match point {
                    None => {
                        point = Some(digits.len());
                        proof {
                            at = i;
                            assert(text@.subrange(at + 1, i + 1) =~= Seq::<char>::empty());
                            assert(text@.take(at) + text@.subrange(at + 1, i + 1) =~= text@.take(
                                at,
                            ));
                        }
                    },
                    Some(_) => {
                        proof {
                            lemma_second_point(text@, at, i);
                        }
                        return None;
                    },
                }
            } else {
                proof {
                    lemma_stray_character(text@, i);
                }
                return None;
            }
        }
        let ghost n = text@.len() as int;
        assert(text@.take(n) =~= text@);
        if digits.len() == 0 {
            proof {
                match point {
                    None => {},
                    Some(p) => {
                        assert(text@.subrange(at + 1, n) =~= text@.skip(at + 1));
                        assert((text@.take(at) + text@.skip(at + 1)).len() == 0);
                        assert(n == 1);
                        assert(!is_digit(text@[at]));
                    },
                }
            }
            return None;
        }
        match point {
            None => {
                proof {
                    lemma_number_of_digit_seq(text@);
                }
                Some(Amount { digits, scale: 0 })
            },
            Some(p) => {
                let scale = digits.len() - p;
                proof {
                    assert(text@.subrange(at + 1, n) =~= text@.skip(at + 1));
                    assert(!is_digit(text@[at]));
                    assert(splits_at(text@, at));
                    let q = choose|q: int| splits_at(text@, q);
                    lemma_split_is_unique(text@, at, q);
                    let joined = text@.take(at) + text@.skip(at + 1);
                    assert forall|k: int| 0 <= k < joined.len() implies is_digit(
                        #[trigger] joined[k],
                    ) by {
                        if k < at {
                            assert(joined[k] == text@.take(at)[k]);
                        } else {
                            assert(joined[k] == text@.skip(at + 1)[k - at]);
                        }
                    }
                    lemma_number_of_digit_seq(joined);
                }
                Some(Amount { digits, scale })
            },
        }
    }
}

} // verus!
