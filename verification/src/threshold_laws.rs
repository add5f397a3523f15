//! What holds of thresholds as they are written.

use vstd::prelude::*;

use crate::numbers;
use crate::text;
use crate::threshold;
use crate::threshold::ThresholdText;

verus! {

/// Ten, multiplied with itself so many times.
pub open spec fn power(k: int) -> int
    decreases k,
{
    if k <= 0 {
        1
    } else {
        10 * power(k - 1)
    }
}

/// Digits write down less than the power of ten that has one digit more.
proof fn lemma_value_bound(d: Seq<char>)
    requires
        numbers::all_digits(d),
    ensures
        0 <= numbers::value(d) < power(d.len() as int),
    decreases d.len(),
{
    if d.len() > 0 {
        let less = d.drop_last();
        assert forall|i: int| 0 <= i < less.len() implies numbers::is_digit(
            #[trigger] less[i],
        ) by {
            assert(less[i] == d[i]);
        }
        lemma_value_bound(less);
        assert(numbers::is_digit(d[d.len() - 1]));
    }
}

/// Powers of ten, multiplied.
proof fn lemma_powers(a: int, b: int)
    requires
        0 <= a,
        0 <= b,
    ensures
        power(a) * power(b) == power(a + b),
        power(a) >= 1,
    decreases a,
{
    if a > 0 {
        lemma_powers(a - 1, b);
        assert((10 * power(a - 1)) * power(b) == 10 * (power(a - 1) * power(b)))
            by (nonlinear_arith);
    } else {
        assert(1 * power(b) == power(b)) by (nonlinear_arith);
    }
}

/// A zero at the end of digits changes nothing.
proof fn lemma_last_zero(d: Seq<char>, k: int)
    requires
        d.len() > 0,
        d.last() == '0',
    ensures
        threshold::leading_value(d.drop_last(), k) == threshold::leading_value(d, k),
    decreases k,
{
    if k > 0 {
        lemma_last_zero(d, k - 1);
    }
}

/// Nor do several.
proof fn lemma_last_zeros(d: Seq<char>, k: int)
    ensures
        threshold::leading_value(threshold::without_last_zeros(d), k) == threshold::leading_value(
            d,
            k,
        ),
    decreases d.len(),
{
    if d.len() > 0 && d.last() == '0' {
        lemma_last_zero(d, k);
        lemma_last_zeros(d.drop_last(), k);
    }
}

/// A zero at the start of digits moves the others by one.
proof fn lemma_first_zero(d: Seq<char>, k: int)
    requires
        d.len() > 0,
        d[0] == '0',
    ensures
        threshold::leading_value(d.skip(1), k - 1) == threshold::leading_value(d, k),
    decreases k,
{
    if k > 1 {
        lemma_first_zero(d, k - 1);
        if k - 1 < d.len() {
            assert(d.skip(1)[k - 2] == d[k - 1]);
        }
    } else if k == 1 {
        reveal_with_fuel(threshold::leading_value, 2);
    }
}

/// Several zeros move them by as many.
proof fn lemma_first_zeros(d: Seq<char>, k: int)
    ensures
        0 <= threshold::leading_zeros(d) <= d.len(),
        threshold::leading_value(
            d.skip(threshold::leading_zeros(d)),
            k - threshold::leading_zeros(d),
        ) == threshold::leading_value(d, k),
    decreases d.len(),
{
    if d.len() > 0 && d[0] == '0' {
        lemma_first_zeros(d.skip(1), k - 1);
        lemma_first_zero(d, k);
        let n = threshold::leading_zeros(d.skip(1));
        assert(d.skip(1).skip(n) =~= d.skip(n + 1));
    } else {
        assert(d.skip(0) =~= d);
    }
}

/// As many places as there are digits say what the digits say.
proof fn lemma_leading(d: Seq<char>, k: int)
    requires
        0 <= k <= d.len(),
    ensures
        threshold::leading_value(d, k) == numbers::value(d.take(k)),
    decreases k,
{
    if k > 0 {
        lemma_leading(d, k - 1);
        assert(d.take(k).drop_last() =~= d.take(k - 1));
        assert(d.take(k).last() == d[k - 1]);
    }
}

/// More places than digits say ten times as much for each.
proof fn lemma_leading_more(d: Seq<char>, k: int)
    requires
        d.len() <= k,
    ensures
        threshold::leading_value(d, k) == numbers::value(d) * power(k - d.len()),
    decreases k,
{
    let n = d.len() as int;
    if k == n {
        lemma_leading(d, n);
        assert(d.take(n) =~= d);
        assert(numbers::value(d) * 1 == numbers::value(d)) by (nonlinear_arith);
    } else {
        lemma_leading_more(d, k - 1);
        let (v, p) = (numbers::value(d), power(k - 1 - n));
        assert(10 * (v * p) == v * (10 * p)) by (nonlinear_arith);
    }
}

/// A text without the letter of exponents has no exponent.
proof fn lemma_no_exponent(s: Seq<char>)
    requires
        forall|i: int| 0 <= i < s.len() ==> #[trigger] s[i] != 'e' && s[i] != 'E',
    ensures
        threshold::exponent_mark(s) == s.len(),
    decreases s.len(),
{
    if s.len() > 0 {
        assert(s[0] != 'e' && s[0] != 'E');
        assert forall|i: int| 0 <= i < s.skip(1).len() implies #[trigger] s.skip(1)[i] != 'e'
            && s.skip(1)[i] != 'E' by {
            assert(s.skip(1)[i] == s[i + 1]);
        }
        lemma_no_exponent(s.skip(1));
    }
}

/// A text that starts with a digit is no word for a number.
proof fn lemma_no_word(s: Seq<char>)
    requires
        s.len() > 0,
        numbers::is_digit(s[0]),
    ensures
        !threshold::is_number_word(s),
{
    reveal_strlit("inf");
    reveal_strlit("infinity");
    reveal_strlit("nan");
    let t = text::ascii_lower_text(s);
    assert(t[0] == s[0]);
}

/// A zero, a point and digits are read as the number that they write down: as many parts of the
/// whole as the digits say, up to eighteen of them.
pub proof fn law_decimal_threshold(d: Seq<char>)
    requires
        0 < d.len() <= 18,
        numbers::all_digits(d),
    ensures
        threshold::threshold_text(seq!['0', '.'] + d) matches ThresholdText::Valid(t) && t.units
            == numbers::value(d) * power(18 - d.len()),
{
    let s = seq!['0', '.'] + d;
    assert forall|i: int| 0 <= i < s.len() implies #[trigger] s[i] != 'e' && s[i] != 'E' by {
        if i >= 2 {
            assert(s[i] == d[i - 2]);
            assert(numbers::is_digit(d[i - 2]));
        }
    }
    lemma_no_exponent(s);
    lemma_no_word(s);
    assert(s.take(s.len() as int) =~= s);
    text::lemma_first_index(s, '.', 1);
    assert(s.take(1) =~= seq!['0']);
    assert(s.skip(2) =~= d);
    let all = seq!['0'] + d;
    assert(threshold::decimal_parts(s) == Some((all, 1int))) by {
        assert forall|i: int| 0 <= i < seq!['0'].len() implies numbers::is_digit(
            #[trigger] seq!['0'][i],
        ) by {}
    }
    assert(all.skip(1) =~= d);
    let z = threshold::leading_zeros(d);
    lemma_zeros(d);
    assert(threshold::leading_zeros(all) == 1 + z);
    assert(all.skip(1 + z) =~= d.skip(z));
    lemma_first_zeros(d, 18);
    lemma_last_zeros(d.skip(z), 18 - z);
    lemma_leading_more(d, 18);
    lemma_value_bound(d);
    let n = d.len() as int;
    lemma_powers(n, 18 - n);
    lemma_powers(18 - n, n);
    let (v, a, b) = (numbers::value(d), power(n), power(18 - n));
    assert(0 <= v * b < a * b) by (nonlinear_arith)
        requires
            0 <= v < a,
            b >= 1,
    ;
    assert(power(18) == 1_000_000_000_000_000_000) by {
        reveal_with_fuel(power, 19);
    }
}

/// Digits that write down two or more are out of range.
pub proof fn law_great_threshold(d: Seq<char>)
    requires
        d.len() > 0,
        numbers::all_digits(d),
        numbers::value(d) >= 2,
    ensures
        threshold::threshold_text(d) is OutOfRange,
{
    assert(numbers::is_digit(d[0]));
    assert forall|i: int| 0 <= i < d.len() implies #[trigger] d[i] != 'e' && d[i] != 'E' && d[i]
        != '.' by {
        assert(numbers::is_digit(d[i]));
    }
    lemma_no_exponent(d);
    lemma_no_word(d);
    let n = d.len() as int;
    assert(d.take(n) =~= d);
    text::lemma_first_index(d, '.', n);
    assert(d + Seq::<char>::empty() =~= d);
    assert(threshold::decimal_parts(d) == Some((d, n)));
    let z = threshold::leading_zeros(d);
    lemma_zeros(d);
    let rest = d.skip(z);
    lemma_value_behind_zeros(d);
    if z == n {
        assert(rest =~= Seq::<char>::empty());
    }
    let t = threshold::significant(d);
    lemma_stripped(rest);
    if n - z == 1 {
        assert(rest =~= seq![d[z]]);
        assert(rest.drop_last() =~= Seq::<char>::empty());
        reveal_with_fuel(numbers::value, 2);
        assert(t =~= rest);
        reveal_strlit("1000000059604644775390625");
        assert(text::text_before(threshold::NEARLY_ONE@, t, 0));
    }
}

/// The zeros at the start of digits.
proof fn lemma_zeros(d: Seq<char>)
    ensures
        0 <= threshold::leading_zeros(d) <= d.len(),
        threshold::leading_zeros(d) < d.len() ==> d[threshold::leading_zeros(d)] != '0',
    decreases d.len(),
{
    if d.len() > 0 && d[0] == '0' {
        lemma_zeros(d.skip(1));
    }
}

/// Zeros at the start say nothing.
proof fn lemma_value_behind_zeros(d: Seq<char>)
    ensures
        numbers::value(d.skip(threshold::leading_zeros(d))) == numbers::value(d),
    decreases d.len(),
{
    if d.len() > 0 && d[0] == '0' {
        lemma_value_behind_zeros(d.skip(1));
        lemma_value_behind_zero(d);
        let n = threshold::leading_zeros(d.skip(1));
        lemma_zeros(d.skip(1));
        assert(d.skip(1).skip(n) =~= d.skip(n + 1));
    } else {
        assert(d.skip(0) =~= d);
    }
}

/// A zero at the start says nothing.
proof fn lemma_value_behind_zero(d: Seq<char>)
    requires
        d.len() > 0,
        d[0] == '0',
    ensures
        numbers::value(d.skip(1)) == numbers::value(d),
    decreases d.len(),
{
    if d.len() > 1 {
        assert(d.skip(1).drop_last() =~= d.drop_last().skip(1));
        assert(d.drop_last()[0] == d[0]);
        lemma_value_behind_zero(d.drop_last());
    } else {
        assert(d.skip(1) =~= Seq::<char>::empty());
        assert(d.drop_last() =~= Seq::<char>::empty());
        reveal_with_fuel(numbers::value, 2);
    }
}

/// Digits that start with another than zero are not all zeros at their end.
proof fn lemma_stripped(d: Seq<char>)
    requires
        d.len() > 0 ==> d[0] != '0',
    ensures
        d.len() > 0 ==> threshold::without_last_zeros(d).len() > 0,
    decreases d.len(),
{
    if d.len() > 0 && d.last() == '0' {
        assert(d.drop_last()[0] == d[0]);
        lemma_stripped(d.drop_last());
    }
}

/// Digits with an exponent say what the digits behind a point say.
pub proof fn law_exponent(d: Seq<char>)
    requires
        d.len() > 0,
        numbers::all_digits(d),
    ensures
        threshold::threshold_text(d + seq!['e', '-'] + numbers::decimal(d.len()))
            == threshold::threshold_text(seq!['0', '.'] + d),
        threshold::threshold_text(d + seq!['E', '-'] + numbers::decimal(d.len()))
            == threshold::threshold_text(seq!['0', '.'] + d),
        threshold::threshold_text(seq!['+', '0', '.'] + d) == threshold::threshold_text(
            seq!['0', '.'] + d,
        ),
        threshold::threshold_text(seq!['.'] + d) == threshold::threshold_text(seq!['0', '.'] + d),
{
    let n = d.len() as int;
    let s = seq!['0', '.'] + d;
    lemma_plain_parts(d);
    lemma_exponent_parts(d, 'e');
    lemma_exponent_parts(d, 'E');
    let all = seq!['0'] + d;
    lemma_zeros(d);
    assert(all.skip(1) =~= d);
    let z = threshold::leading_zeros(d);
    assert(threshold::leading_zeros(all) == 1 + z);
    assert(all.skip(1 + z) =~= d.skip(z));
    assert(threshold::significant(all) == threshold::significant(d));
    let plus = seq!['+', '0', '.'] + d;
    assert(plus.skip(1) =~= s);
}

/// The parts of digits behind a point.
proof fn lemma_plain_parts(d: Seq<char>)
    requires
        d.len() > 0,
        numbers::all_digits(d),
    ensures
        threshold::decimal_parts(seq!['0', '.'] + d) == Some((seq!['0'] + d, 1int)),
        threshold::decimal_parts(seq!['.'] + d) == Some((d, 0int)),
        !threshold::is_number_word(seq!['0', '.'] + d),
        !threshold::is_number_word(seq!['.'] + d),
{
    let s = seq!['0', '.'] + d;
    let u = seq!['.'] + d;
    assert forall|i: int| 0 <= i < s.len() implies #[trigger] s[i] != 'e' && s[i] != 'E' by {
        if i >= 2 {
            assert(s[i] == d[i - 2]);
            assert(numbers::is_digit(d[i - 2]));
        }
    }
    assert forall|i: int| 0 <= i < u.len() implies #[trigger] u[i] != 'e' && u[i] != 'E' by {
        if i >= 1 {
            assert(u[i] == d[i - 1]);
            assert(numbers::is_digit(d[i - 1]));
        }
    }
    lemma_no_exponent(s);
    lemma_no_exponent(u);
    lemma_no_word(s);
    reveal_strlit("inf");
    reveal_strlit("infinity");
    reveal_strlit("nan");
    assert(text::ascii_lower_text(u)[0] == '.');
    assert(s.take(s.len() as int) =~= s);
    assert(u.take(u.len() as int) =~= u);
    text::lemma_first_index(s, '.', 1);
    text::lemma_first_index(u, '.', 0);
    assert(s.take(1) =~= seq!['0']);
    assert(s.skip(2) =~= d);
    assert(u.take(0) =~= Seq::<char>::empty());
    assert(u.skip(1) =~= d);
    assert(Seq::<char>::empty() + d =~= d);
    assert forall|i: int| 0 <= i < seq!['0'].len() implies numbers::is_digit(
        #[trigger] seq!['0'][i],
    ) by {}
}

/// The parts of digits with an exponent.
proof fn lemma_exponent_parts(d: Seq<char>, e: char)
    requires
        d.len() > 0,
        numbers::all_digits(d),
        e == 'e' || e == 'E',
    ensures
        ({
            let s = d + seq![e, '-'] + numbers::decimal(d.len());
            &&& threshold::decimal_parts(s) == Some((d, 0int))
            &&& !threshold::is_number_word(s)
            &&& threshold::split_sign(s) == (false, s)
        }),
{
    let n = d.len() as int;
    let k = numbers::decimal(d.len());
    let s = d + seq![e, '-'] + k;
    crate::patch_laws::law_digits(d.len());
    assert(numbers::is_digit(d[0]));
    assert(s[0] == d[0]);
    lemma_no_word(s);
    assert forall|i: int| 0 <= i < n implies #[trigger] d[i] != 'e' && d[i] != 'E' && d[i]
        != '.' by {
        assert(numbers::is_digit(d[i]));
    }
    lemma_mark_at(s, n);
    assert(s.take(n) =~= d);
    text::lemma_first_index(d, '.', n);
    assert(d.take(n) =~= d);
    let x = s.skip(n + 1);
    assert(x =~= seq!['-'] + k);
    assert(x.skip(1) =~= k);
    assert(d + Seq::<char>::empty() =~= d);
}

/// Where an exponent starts.
proof fn lemma_mark_at(s: Seq<char>, at: int)
    requires
        0 <= at < s.len(),
        s[at] == 'e' || s[at] == 'E',
        forall|i: int| 0 <= i < at ==> #[trigger] s[i] != 'e' && s[i] != 'E',
    ensures
        threshold::exponent_mark(s) == at,
    decreases at,
{
    if at > 0 {
        assert(s[0] != 'e' && s[0] != 'E');
        assert forall|i: int| 0 <= i < at - 1 implies #[trigger] s.skip(1)[i] != 'e'
            && s.skip(1)[i] != 'E' by {
            assert(s.skip(1)[i] == s[i + 1]);
        }
        lemma_mark_at(s.skip(1), at - 1);
    }
}

/// Digits behind the eighteenth are left out.
pub proof fn law_long_threshold(d: Seq<char>)
    requires
        d.len() > 18,
        numbers::all_digits(d),
    ensures
        threshold::threshold_text(seq!['0', '.'] + d) matches ThresholdText::Valid(t) && t.units
            == numbers::value(d.take(18)),
{
    lemma_plain_parts(d);
    let all = seq!['0'] + d;
    assert(all.skip(1) =~= d);
    let z = threshold::leading_zeros(d);
    lemma_zeros(d);
    assert(threshold::leading_zeros(all) == 1 + z);
    assert(all.skip(1 + z) =~= d.skip(z));
    lemma_first_zeros(d, 18);
    lemma_last_zeros(d.skip(z), 18 - z);
    lemma_leading(d, 18);
    let short = d.take(18);
    assert forall|i: int| 0 <= i < short.len() implies numbers::is_digit(#[trigger] short[i]) by {
        assert(short[i] == d[i]);
    }
    lemma_value_bound(short);
    assert(power(18) == 1_000_000_000_000_000_000) by {
        reveal_with_fuel(power, 19);
    }
}

/// One, with any number of zeros behind the point, is the whole.
pub proof fn law_whole_threshold(zeros: Seq<char>)
    requires
        forall|i: int| 0 <= i < zeros.len() ==> zeros[i] == '0',
    ensures
        threshold::threshold_text(seq!['1', '.'] + zeros) matches ThresholdText::Valid(t) && t.units
            == 1_000_000_000_000_000_000,
{
    let s = seq!['1', '.'] + zeros;
    assert forall|i: int| 0 <= i < s.len() implies #[trigger] s[i] != 'e' && s[i] != 'E' by {
        if i >= 2 {
            assert(s[i] == zeros[i - 2]);
        }
    }
    lemma_no_exponent(s);
    lemma_no_word(s);
    assert(s.take(s.len() as int) =~= s);
    text::lemma_first_index(s, '.', 1);
    assert(s.take(1) =~= seq!['1']);
    assert(s.skip(2) =~= zeros);
    let all = seq!['1'] + zeros;
    assert(threshold::decimal_parts(s) == Some((all, 1int))) by {
        assert forall|i: int| 0 <= i < zeros.len() implies numbers::is_digit(
            #[trigger] zeros[i],
        ) by {}
    }
    assert(all.skip(0) =~= all);
    lemma_zeros_go(zeros);
    reveal_strlit("1000000059604644775390625");
    reveal_with_fuel(text::text_before, 3);
    assert(threshold::at_most(seq!['1'], threshold::NEARLY_ONE@));
}

/// Zeros behind a one go.
proof fn lemma_zeros_go(zeros: Seq<char>)
    requires
        forall|i: int| 0 <= i < zeros.len() ==> zeros[i] == '0',
    ensures
        threshold::without_last_zeros(seq!['1'] + zeros) == seq!['1'],
    decreases zeros.len(),
{
    let all = seq!['1'] + zeros;
    if zeros.len() > 0 {
        assert(all.last() == zeros.last());
        assert(all.drop_last() =~= seq!['1'] + zeros.drop_last());
        lemma_zeros_go(zeros.drop_last());
    } else {
        assert(all =~= seq!['1']);
    }
}

/// A number that is less than zero, and not too small to be told from it, is out of range, and so
/// are the words for numbers that no threshold can be. What is no number is none.
pub proof fn law_no_threshold(d: Seq<char>)
    requires
        0 < d.len() <= 18,
        numbers::all_digits(d),
        numbers::value(d) > 0,
    ensures
        threshold::threshold_text(seq!['-', '0', '.'] + d) is OutOfRange,
        threshold::threshold_text("nan"@) is OutOfRange,
        threshold::threshold_text("inf"@) is OutOfRange,
        threshold::threshold_text(Seq::empty()) is Invalid,
{
    let s = seq!['-', '0', '.'] + d;
    let body = seq!['0', '.'] + d;
    assert(s.skip(1) =~= body);
    lemma_plain_parts(d);
    let all = seq!['0'] + d;
    assert(all.skip(1) =~= d);
    let z = threshold::leading_zeros(d);
    lemma_zeros(d);
    assert(threshold::leading_zeros(all) == 1 + z);
    assert(all.skip(1 + z) =~= d.skip(z));
    lemma_value_behind_zeros(d);
    if z == d.len() {
        assert(d.skip(z) =~= Seq::<char>::empty());
    }
    lemma_stripped(d.skip(z));
    reveal_strlit("nan");
    reveal_strlit("inf");
    reveal_strlit("infinity");
    assert(text::ascii_lower_text("nan"@) =~= "nan"@);
    assert(text::ascii_lower_text("inf"@) =~= "inf"@);
    let none = Seq::<char>::empty();
    assert(text::ascii_lower_text(none) =~= none);
    assert(none.take(0) =~= none);
    text::lemma_first_index(none, '.', 0);
}

} // verus!
