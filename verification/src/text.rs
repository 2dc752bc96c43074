//! Decimal text for the numbers of the domain.
//!
//! Prices, scores and amounts of money are shown with two decimal places,
//! rounded half up; quantities are shown in full, without trailing zeros.

use vstd::prelude::*;
use vstd::arithmetic::div_mod::{lemma_fundamental_div_mod, lemma_fundamental_div_mod_converse};
use crate::fixed::scaled_div_rem;

verus! {

/// How many units of a price, a score or a quantity make one hundredth.
pub const CENT: u128 = 10_000;

/// How many units of value make one hundredth of the currency.
pub const VALUE_CENT: u128 = 10_000_000_000;

/// How many hundredths of a percent make the whole: the factor between a
/// ratio and its percentage with two decimal places.
pub const PERCENT_CENTS: u64 = 10_000;

/// The contents of a list of texts.
pub open spec fn texts_view(texts: Seq<String>) -> Seq<Seq<char>> {
    texts.map_values(|t: String| t@)
}

/// No text occurs twice.
pub open spec fn spec_distinct_texts(texts: Seq<Seq<char>>) -> bool {
    forall|i: int, j: int| 0 <= i < j < texts.len() ==> #[trigger] texts[i] != #[trigger] texts[j]
}

/// The character of the decimal digit `d`.
pub open spec fn spec_digit(d: nat) -> char {
    if d == 0 {
        '0'
    } else if d == 1 {
        '1'
    } else if d == 2 {
        '2'
    } else if d == 3 {
        '3'
    } else if d == 4 {
        '4'
    } else if d == 5 {
        '5'
    } else if d == 6 {
        '6'
    } else if d == 7 {
        '7'
    } else if d == 8 {
        '8'
    } else {
        '9'
    }
}

/// The decimal digits of `n`, most significant first, without leading zeros.
pub open spec fn spec_digits(n: nat) -> Seq<char>
    decreases n,
{
    if n < 10 {
        seq![spec_digit(n)]
    } else {
        spec_digits(n / 10).push(spec_digit(n % 10))
    }
}

/// `value` in steps of `step`, rounded half up.
pub open spec fn spec_rounded(value: nat, step: nat) -> nat {
    (value + step / 2) / step
}

/// A number of hundredths with two decimal places: `1234` is `12.34`.
pub open spec fn spec_two_places(hundredths: nat) -> Seq<char> {
    spec_digits(hundredths / 100) + seq![
        '.',
        spec_digit((hundredths / 10) % 10),
        spec_digit(hundredths % 10),
    ]
}

/// The decimal places of `fraction`, a number of units of which `unit` make
/// one tenth, up to the last that is not zero.
pub open spec fn spec_places(fraction: nat, unit: nat) -> Seq<char>
    decreases unit,
{
    if fraction == 0 || unit == 0 {
        Seq::empty()
    } else {
        seq![spec_digit(fraction / unit)] + spec_places(fraction % unit, unit / 10)
    }
}

/// A number of millionths in full: `1_500_000` is `1.5`, `250_000_000` is
/// `250`.
pub open spec fn spec_exact(millionths: nat) -> Seq<char> {
    if millionths % 1_000_000 == 0 {
        spec_digits(millionths / 1_000_000)
    } else {
        spec_digits(millionths / 1_000_000) + seq!['.'] + spec_places(
            millionths % 1_000_000,
            100_000,
        )
    }
}

/// A price or a score, a number of millionths, with two decimal places.
pub open spec fn spec_amount(millionths: nat) -> Seq<char> {
    spec_two_places(spec_rounded(millionths, CENT as nat))
}

/// An amount of money, a number of units of value, with two decimal places.
pub open spec fn spec_money(value: nat) -> Seq<char> {
    spec_two_places(spec_rounded(value, VALUE_CENT as nat))
}

/// The change from `previous` to `current` as a percentage of `previous`, in
/// hundredths of a percent, rounded half up; the largest `u128` where it is
/// larger than that.
pub open spec fn spec_percent_cents(previous: nat, current: nat) -> nat
    recommends
        previous > 0,
{
    let change = if current >= previous {
        current - previous
    } else {
        previous - current
    };
    let exact = (2 * change * PERCENT_CENTS + previous) / ((2 * previous) as int);
    if exact > u128::MAX {
        u128::MAX as nat
    } else {
        exact as nat
    }
}

/// The change from `previous` to `current` as a percentage of `previous`
/// with two decimal places and a minus sign where the number fell; `inf`
/// where `previous` is nothing.
pub open spec fn spec_percent(previous: nat, current: nat) -> Seq<char> {
    let sign = if current < previous {
        seq!['-']
    } else {
        Seq::empty()
    };
    if previous == 0 {
        sign + seq!['i', 'n', 'f']
    } else {
        sign + spec_two_places(spec_percent_cents(previous, current))
    }
}

/// The difference between two numbers of millionths with two decimal places
/// and a minus sign where the number fell.
pub open spec fn spec_signed_change(previous: nat, current: nat) -> Seq<char> {
    if current < previous {
        seq!['-'] + spec_amount((previous - current) as nat)
    } else {
        spec_amount((current - previous) as nat)
    }
}

/// The text of one decimal digit.
fn digit_text(d: u8) -> (text: &'static str)
    requires
        d < 10,
    ensures
        text@ == seq![spec_digit(d as nat)],
{
    proof {
        reveal_strlit("0");
        reveal_strlit("1");
        reveal_strlit("2");
        reveal_strlit("3");
        reveal_strlit("4");
        reveal_strlit("5");
        reveal_strlit("6");
        reveal_strlit("7");
        reveal_strlit("8");
        reveal_strlit("9");
    }
    let text: &'static str = if d == 0 {
        "0"
    } else if d == 1 {
        "1"
    } else if d == 2 {
        "2"
    } else if d == 3 {
        "3"
    } else if d == 4 {
        "4"
    } else if d == 5 {
        "5"
    } else if d == 6 {
        "6"
    } else if d == 7 {
        "7"
    } else if d == 8 {
        "8"
    } else {
        "9"
    };
    assert(text@ =~= seq![spec_digit(d as nat)]);
    text
}

/// Appends the decimal digits of `n`.
pub fn push_digits(out: &mut String, n: u128)
    ensures
        final(out)@ == old(out)@ + spec_digits(n as nat),
    decreases n,
{
    if n >= 10 {
        push_digits(out, n / 10);
    }
    let last: u8 = (n % 10) as u8;
    out.append(digit_text(last));
    proof {
        if n >= 10 {
            assert(out@ =~= old(out)@ + spec_digits((n / 10) as nat).push(
                spec_digit((n % 10) as nat),
            ));
        } else {
            assert(out@ =~= old(out)@ + seq![spec_digit(n as nat)]);
        }
    }
}

/// Appends a number of hundredths with two decimal places.
pub fn push_two_places(out: &mut String, hundredths: u128)
    ensures
        final(out)@ == old(out)@ + spec_two_places(hundredths as nat),
{
    push_digits(out, hundredths / 100);
    out.append(".");
    let tenths: u8 = ((hundredths / 10) % 10) as u8;
    let last: u8 = (hundredths % 10) as u8;
    out.append(digit_text(tenths));
    out.append(digit_text(last));
    proof {
        reveal_strlit(".");
        assert("."@ =~= seq!['.']);
        assert(out@ =~= old(out)@ + spec_two_places(hundredths as nat));
    }
}

/// `value` in steps of `step`, rounded half up.
pub fn rounded(value: u128, step: u128) -> (steps: u128)
    requires
        step > 0,
    ensures
        steps == spec_rounded(value as nat, step as nat),
{
    let whole: u128 = value / step;
    let rest: u128 = value % step;
    let half: u128 = step / 2;
    let up: bool = rest >= step - half;
    proof {
        let sum: int = value + half;
        lemma_fundamental_div_mod(value as int, step as int);
        assert(step * whole == whole * step) by (nonlinear_arith);
        if up {
            assert(whole < u128::MAX) by (nonlinear_arith)
                requires
                    value == whole * step + rest,
                    value <= u128::MAX,
                    step >= 2,
                    rest >= 0,
                    whole >= 0,
            ;
            assert(sum == (whole + 1) * step + (rest + half - step)) by (nonlinear_arith)
                requires
                    sum == value + half,
                    value == whole * step + rest,
            ;
            lemma_fundamental_div_mod_converse(
                sum,
                step as int,
                whole + 1,
                rest + half - step,
            );
        } else {
            lemma_fundamental_div_mod_converse(sum, step as int, whole as int, rest + half);
        }
    }
    if up {
        whole + 1
    } else {
        whole
    }
}

/// Appends a price or a score, a number of millionths, with two decimal
/// places.
pub fn push_amount(out: &mut String, millionths: u64)
    ensures
        final(out)@ == old(out)@ + spec_amount(millionths as nat),
{
    push_two_places(out, rounded(millionths as u128, CENT));
}

/// Appends an amount of money, a number of units of value, with two decimal
/// places.
pub fn push_money(out: &mut String, value: u128)
    ensures
        final(out)@ == old(out)@ + spec_money(value as nat),
{
    push_two_places(out, rounded(value, VALUE_CENT));
}

/// Appends the decimal places of `fraction` up to the last that is not zero.
fn push_places(out: &mut String, fraction: u64, unit: u64)
    requires
        unit == 100_000 || unit == 10_000 || unit == 1_000 || unit == 100 || unit == 10 || unit
            == 1,
        fraction < 10 * unit,
    ensures
        final(out)@ == old(out)@ + spec_places(fraction as nat, unit as nat),
    decreases unit,
{
    if fraction == 0 {
        assert(out@ =~= old(out)@ + spec_places(fraction as nat, unit as nat));
    } else {
        let first: u8 = (fraction / unit) as u8;
        out.append(digit_text(first));
        if unit >= 10 {
            push_places(out, fraction % unit, unit / 10);
        } else {
            assert(fraction % unit == 0);
            assert(spec_places(0, 0) =~= Seq::<char>::empty());
        }
        assert(out@ =~= old(out)@ + (seq![spec_digit((fraction / unit) as nat)] + spec_places(
            (fraction % unit) as nat,
            (unit / 10) as nat,
        )));
    }
}

/// Appends a number of millionths in full.
pub fn push_exact(out: &mut String, millionths: u64)
    ensures
        final(out)@ == old(out)@ + spec_exact(millionths as nat),
{
    let whole: u64 = millionths / 1_000_000;
    let fraction: u64 = millionths % 1_000_000;
    push_digits(out, whole as u128);
    if fraction != 0 {
        out.append(".");
        push_places(out, fraction, 100_000);
        proof {
            reveal_strlit(".");
            assert("."@ =~= seq!['.']);
            assert(out@ =~= old(out)@ + (spec_digits(whole as nat) + seq!['.'] + spec_places(
                fraction as nat,
                100_000,
            )));
        }
    }
}

/// The change from `previous` to `current` as a percentage of `previous`, in
/// hundredths of a percent, rounded half up.
pub fn percent_cents(previous: u128, current: u128) -> (cents: u128)
    requires
        previous > 0,
    ensures
        cents == spec_percent_cents(previous as nat, current as nat),
{
    let change: u128 = if current >= previous {
        current - previous
    } else {
        previous - current
    };
    let times: u128 = change / previous;
    let rest: u128 = change % previous;
    let (more, left) = scaled_div_rem(rest, PERCENT_CENTS, previous);
    let up: u128 = if left >= previous - left {
        1
    } else {
        0
    };
    let ghost factor = PERCENT_CENTS as int;
    let ghost exact: int = (2 * change * factor + previous) / (2 * previous);
    let ghost total: int = times * factor + more + up;
    proof {
        lemma_fundamental_div_mod(change as int, previous as int);
        lemma_fundamental_div_mod(rest * factor, previous as int);
        assert(2 * change * factor + previous == total * (2 * previous) + (if up == 1 {
            2 * left - previous
        } else {
            2 * left + previous
        })) by (nonlinear_arith)
            requires
                change == previous * times + rest,
                rest * factor == previous * more + left,
                total == times * factor + more + up,
                up == 1 || up == 0,
        ;
        lemma_fundamental_div_mod_converse(
            2 * change * factor + previous,
            2 * previous,
            total,
            if up == 1 {
                2 * left - previous
            } else {
                2 * left + previous
            },
        );
        assert(exact == total);
    }
    let extra: u128 = more as u128 + up;
    if times > u128::MAX / 10_000 {
        assert(exact > u128::MAX) by (nonlinear_arith)
            requires
                exact == times * 10_000 + more + up,
                times >= u128::MAX / 10_000 + 1,
                more >= 0,
                up >= 0,
        ;
        u128::MAX
    } else if extra > u128::MAX - times * 10_000 {
        u128::MAX
    } else {
        times * 10_000 + extra
    }
}

/// Appends the change from `previous` to `current` as a percentage of
/// `previous`.
pub fn push_percent(out: &mut String, previous: u128, current: u128)
    ensures
        final(out)@ == old(out)@ + spec_percent(previous as nat, current as nat),
{
    if current < previous {
        out.append("-");
    }
    if previous == 0 {
        out.append("inf");
    } else {
        push_two_places(out, percent_cents(previous, current));
    }
    proof {
        reveal_strlit("-");
        reveal_strlit("inf");
        assert("-"@ =~= seq!['-']);
        assert("inf"@ =~= seq!['i', 'n', 'f']);
        assert(out@ =~= old(out)@ + spec_percent(previous as nat, current as nat));
    }
}

/// Appends the difference between two numbers of millionths.
pub fn push_signed_change(out: &mut String, previous: u64, current: u64)
    ensures
        final(out)@ == old(out)@ + spec_signed_change(previous as nat, current as nat),
{
    if current < previous {
        out.append("-");
        push_amount(out, previous - current);
        proof {
            reveal_strlit("-");
            assert("-"@ =~= seq!['-']);
            assert(out@ =~= old(out)@ + spec_signed_change(previous as nat, current as nat));
        }
    } else {
        push_amount(out, current - previous);
    }
}

} // verus!
