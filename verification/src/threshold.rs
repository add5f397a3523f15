//! Thresholds written as decimal numbers.

use vstd::prelude::*;
use vstd::string::*;

use crate::numbers;
use crate::numbers::{digit_char, value_of_digit};
use crate::similarity::{Threshold, UNITS};
use crate::text;
use crate::text::{comes_before, index_from, slice_of, string_of};

verus! {

/// What a text says about a threshold.
#[derive(Debug, Clone, Copy, PartialEq, Eq)]
pub enum ThresholdText {
    /// A number from zero to one.
    Valid(Threshold),
    /// A number, or a word for one, outside that range.
    OutOfRange,
    /// No number at all.
    Invalid,
}

/// `s` without a sign, and whether the sign was a minus.
pub open spec fn split_sign(s: Seq<char>) -> (bool, Seq<char>) {
    if s.len() > 0 && (s[0] == '-' || s[0] == '+') {
        (s[0] == '-', s.skip(1))
    } else {
        (false, s)
    }
}

/// The words that stand for numbers no threshold can be.
pub open spec fn is_number_word(s: Seq<char>) -> bool {
    let t = text::ascii_lower_text(s);
    t == "inf"@ || t == "infinity"@ || t == "nan"@
}

/// Where the exponent of a number starts.
pub open spec fn exponent_mark(s: Seq<char>) -> int
    decreases s.len(),
{
    if s.len() == 0 || s[0] == 'e' || s[0] == 'E' {
        0
    } else {
        1 + exponent_mark(s.skip(1))
    }
}

/// The exponent that `s` writes down: a sign that may be absent, then digits.
pub open spec fn exponent_value(s: Seq<char>) -> Option<int> {
    let (negative, d) = split_sign(s);
    if d.len() > 0 && numbers::all_digits(d) {
        Some(
            if negative {
                -numbers::value(d)
            } else {
                numbers::value(d)
            },
        )
    } else {
        None
    }
}

/// The parts of a decimal number without sign: digits with at most one point among them, at
/// least one digit, and an exponent that may be absent.
pub open spec fn decimal_parts(s: Seq<char>) -> Option<(Seq<char>, int)> {
    let e = exponent_mark(s);
    let mantissa = s.take(e);
    let p = text::first_index(mantissa, '.');
    let whole = mantissa.take(p);
    let fraction = if p < mantissa.len() {
        mantissa.skip(p + 1)
    } else {
        Seq::empty()
    };
    let exponent = if e < s.len() {
        exponent_value(s.skip(e + 1))
    } else {
        Some(0int)
    };
    if numbers::all_digits(whole) && numbers::all_digits(fraction) && whole.len() + fraction.len()
        > 0 {
        match exponent {
            Some(x) => Some((whole + fraction, whole.len() + x)),
            None => None,
        }
    } else {
        None
    }
}

/// How many zeros the digits start with.
pub open spec fn leading_zeros(d: Seq<char>) -> int
    decreases d.len(),
{
    if d.len() > 0 && d[0] == '0' {
        1 + leading_zeros(d.skip(1))
    } else {
        0
    }
}

/// The digits without the zeros at their end.
pub open spec fn without_last_zeros(d: Seq<char>) -> Seq<char>
    decreases d.len(),
{
    if d.len() > 0 && d.last() == '0' {
        without_last_zeros(d.drop_last())
    } else {
        d
    }
}

/// The digits without the zeros at either end.
pub open spec fn significant(d: Seq<char>) -> Seq<char> {
    without_last_zeros(d.skip(leading_zeros(d)))
}

/// The number that the first `k` digits write down, with zeros after the last digit.
pub open spec fn leading_value(d: Seq<char>, k: int) -> int
    decreases k,
{
    if k <= 0 {
        0
    } else {
        10 * leading_value(d, k - 1) + (if k - 1 < d.len() {
            numbers::digit_value(d[k - 1])
        } else {
            0
        })
    }
}

/// Whether the fraction with the digits `a` is at most that with the digits `b`, neither of them
/// ending in a zero.
pub open spec fn at_most(a: Seq<char>, b: Seq<char>) -> bool {
    !text::text_before(b, a, 0)
}

/// Whether the number with the digits `t` behind a point that is moved by `q` places is too small
/// to be told from zero: at most half of the least positive number of single precision.
pub open spec fn vanishes(t: Seq<char>, q: int) -> bool {
    t.len() == 0 || q < -45 || (q == -45 && at_most(t, LEAST_HALF@))
}

/// Whether such a number is too great for a number of single precision.
pub open spec fn overflows(t: Seq<char>, q: int) -> bool {
    q > 39 || (q == 39 && at_most(GREAT@, t))
}

/// The digits of half of the least positive number of single precision.
pub const LEAST_HALF: &'static str = "700649232162408535461864791644958065640130970938257885878534141944895541342930300743319094181060791015625";

/// The digits of the least number that is rounded to no number of single precision.
pub const GREAT: &'static str = "340282356779733661637539395458142568448";

/// The digits of the greatest number that is rounded to one in single precision.
pub const NEARLY_ONE: &'static str = "1000000059604644775390625";

/// What the digits `t`, behind a point that is moved by `q` places, say: the number in parts of
/// `UNITS`, rounded down, where it lies between zero and one in single precision.
pub open spec fn classify(negative: bool, t: Seq<char>, q: int) -> ThresholdText {
    if negative {
        if vanishes(t, q) {
            ThresholdText::Valid(Threshold { units: 0 })
        } else {
            ThresholdText::OutOfRange
        }
    } else if t.len() == 0 || q <= 0 {
        ThresholdText::Valid(Threshold { units: leading_value(t, q + 18) as u64 })
    } else if q == 1 && at_most(t, NEARLY_ONE@) {
        ThresholdText::Valid(Threshold { units: UNITS })
    } else {
        ThresholdText::OutOfRange
    }
}

/// What the text `s` says about a threshold.
pub open spec fn threshold_text(s: Seq<char>) -> ThresholdText {
    let (negative, body) = split_sign(s);
    if is_number_word(body) {
        ThresholdText::OutOfRange
    } else {
        match decimal_parts(body) {
            Some((d, point)) => classify(negative, significant(d), point - leading_zeros(d)),
            None => ThresholdText::Invalid,
        }
    }
}

/// So many zeros.
pub open spec fn zeros(n: int) -> Seq<char> {
    Seq::new(
        if n > 0 {
            n as nat
        } else {
            0
        },
        |i: int| '0',
    )
}

/// The digits `t`, with the point moved by `q` places, as a number without exponent.
pub open spec fn plain_number(t: Seq<char>, q: int) -> Seq<char> {
    if vanishes(t, q) {
        "0"@
    } else if overflows(t, q) {
        "inf"@
    } else if q <= 0 {
        "0."@ + zeros(-q) + t
    } else if q >= t.len() {
        t + zeros(q - t.len())
    } else {
        t.take(q) + "."@ + t.skip(q)
    }
}

/// A number as it is shown: without a plus sign, an exponent, and zeros that say nothing. It keeps
/// all of its other digits.
pub open spec fn number_text(s: Seq<char>) -> Seq<char> {
    let (negative, body) = split_sign(s);
    let sign = if negative {
        "-"@
    } else {
        Seq::empty()
    };
    if text::ascii_lower_text(body) == "nan"@ {
        "NaN"@
    } else if is_number_word(body) {
        sign + "inf"@
    } else {
        match decimal_parts(body) {
            Some((d, point)) => sign + plain_number(significant(d), point - leading_zeros(d)),
            None => s,
        }
    }
}

/// Ten, so many times.
spec fn ten(k: int) -> int
    decreases k,
{
    if k <= 0 {
        1
    } else {
        10 * ten(k - 1)
    }
}

/// More factors make no smaller number.
proof fn lemma_ten_grows(j: int, k: int)
    requires
        0 <= j <= k,
    ensures
        1 <= ten(j) <= ten(k),
    decreases k,
{
    if j < k {
        lemma_ten_grows(j, k - 1);
    } else if j > 0 {
        lemma_ten_grows(j - 1, j - 1);
    }
}

/// Digits write down a number below the power of ten of their count.
proof fn lemma_leading_bound(d: Seq<char>, k: int)
    requires
        numbers::all_digits(d),
        0 <= k,
    ensures
        0 <= leading_value(d, k) < ten(k),
    decreases k,
{
    if k > 0 {
        lemma_leading_bound(d, k - 1);
        if k - 1 < d.len() {
            assert(numbers::is_digit(d[k - 1]));
        }
    }
}

/// No digits write down zero.
proof fn lemma_leading_of_nothing(d: Seq<char>, k: int)
    requires
        d.len() == 0,
    ensures
        leading_value(d, k) == 0,
    decreases k,
{
    if k > 0 {
        lemma_leading_of_nothing(d, k - 1);
    }
}

/// Whether the fraction with the digits `a` is at most that with the digits `b`.
fn is_at_most(a: &Vec<char>, b: &Vec<char>) -> (r: bool)
    ensures
        r == at_most(a@, b@),
{
    !comes_before(string_of(b).as_str(), string_of(a).as_str())
}

/// Whether a number is too small to be told from zero.
fn is_vanishing(t: &Vec<char>, q: i128) -> (r: bool)
    ensures
        r == vanishes(t@, q as int),
{
    t.len() == 0 || q < -45 || (q == -45 && is_at_most(t, &text::chars_of(LEAST_HALF)))
}

/// What the digits with the given point say about a threshold.
fn classified(negative: bool, t: &Vec<char>, q: i128) -> (r: ThresholdText)
    requires
        numbers::all_digits(t@),
        -0x1_0000_0000_0000_0000_0000 <= q <= 0x1_0000_0000_0000_0000_0000,
    ensures
        r == classify(negative, t@, q as int),
        r matches ThresholdText::Valid(v) ==> v.wf(),
{
    if negative {
        return if is_vanishing(t, q) {
            ThresholdText::Valid(Threshold { units: 0 })
        } else {
            ThresholdText::OutOfRange
        };
    }
    if t.len() == 0 {
        proof {
            lemma_leading_of_nothing(t@, q + 18);
        }
        return ThresholdText::Valid(Threshold { units: 0 });
    }
    if q > 0 {
        return if q == 1 && is_at_most(t, &text::chars_of(NEARLY_ONE)) {
            ThresholdText::Valid(Threshold { units: UNITS })
        } else {
            ThresholdText::OutOfRange
        };
    }
    let k: i128 = q + 18;
    let mut u: u64 = 0;
    let mut j: i128 = 0;
    proof {
        assert(ten(18) == 1_000_000_000_000_000_000) by {
            reveal_with_fuel(ten, 19);
        }
    }
    while j < k
        invariant
            k <= 18,
            0 <= j,
            j <= k || j == 0,
            numbers::all_digits(t@),
            ten(18) == 1_000_000_000_000_000_000,
            u == leading_value(t@, j as int),
            u <= UNITS,
        decreases k - j,
    {
        proof {
            lemma_leading_bound(t@, j as int + 1);
            lemma_leading_bound(t@, j as int);
            lemma_ten_grows(j as int + 1, 18);
        }
        let x: u64 = if j < t.len() as i128 {
            assert(numbers::is_digit(t@[j as int]));
            value_of_digit(t[j as usize]) as u64
        } else {
            0
        };
        u = 10 * u + x;
        j += 1;
    }
    ThresholdText::Valid(Threshold { units: u })
}

/// An exponent beyond this decides by its sign alone.
pub const EXPONENT_CAP: i128 = 0x40_0000_0000_0000_0000;

/// `x`, brought within the cap on either side.
pub open spec fn capped(x: int) -> int {
    if x > EXPONENT_CAP {
        EXPONENT_CAP as int
    } else if x < -EXPONENT_CAP {
        -EXPONENT_CAP
    } else {
        x
    }
}

/// Whether two places of the point are the same, or both too far to either side to matter.
spec fn alike(p: int, q: int) -> bool {
    p == q || (p > 100 && q > 100) || (p < -100 && q < -100)
}

/// Places of the point that are alike say the same.
proof fn lemma_alike(negative: bool, t: Seq<char>, p: int, q: int)
    requires
        alike(p, q),
    ensures
        classify(negative, t, p) == classify(negative, t, q),
        plain_number(t, p) == plain_number(t, q),
{
    if t.len() == 0 {
        lemma_leading_of_nothing(t, p + 18);
        lemma_leading_of_nothing(t, q + 18);
    }
}

/// The exponent that `v` writes down, brought within the cap.
fn exponent_of(v: &Vec<char>) -> (r: Option<i128>)
    ensures
        match r {
            Some(n) => exponent_value(v@) matches Some(x) && n == capped(x),
            None => exponent_value(v@) is None,
        },
{
    let signed = v.len() > 0 && (v[0] == '-' || v[0] == '+');
    let negative = signed && v[0] == '-';
    let from: usize = if signed {
        1
    } else {
        0
    };
    let ghost d = split_sign(v@).1;
    assert(d =~= v@.skip(from as int));
    if v.len() == from {
        return None;
    }
    let mut n: i128 = 0;
    let mut i: usize = from;
    assert(d.take(0) =~= Seq::empty());
    while i < v.len()
        invariant
            from <= i <= v@.len(),
            d == v@.skip(from as int),
            d == split_sign(v@).1,
            forall|j: int| 0 <= j < i - from ==> numbers::is_digit(#[trigger] d[j]),
            0 <= numbers::value(d.take(i - from)),
            n == capped(numbers::value(d.take(i - from))),
        decreases v@.len() - i,
    {
        let c: char = v[i];
        assert(c == d[i - from]);
        if !digit_char(c) {
            return None;
        }
        let ghost k = i - from;
        assert(d.take(k + 1).drop_last() =~= d.take(k));
        assert(d.take(k + 1).last() == c);
        n = 10 * n + value_of_digit(c) as i128;
        if n > EXPONENT_CAP {
            n = EXPONENT_CAP;
        }
        i += 1;
    }
    assert(d.take(i - from) =~= d);
    if negative {
        Some(-n)
    } else {
        Some(n)
    }
}

/// Where the exponent of a number starts.
fn exponent_mark_of(v: &Vec<char>) -> (r: usize)
    ensures
        r <= v@.len(),
        r == exponent_mark(v@),
{
    let mut i: usize = 0;
    assert(v@.skip(0) =~= v@);
    while i < v.len() && v[i] != 'e' && v[i] != 'E'
        invariant
            0 <= i <= v@.len(),
            exponent_mark(v@) == i + exponent_mark(v@.skip(i as int)),
        decreases v@.len() - i,
    {
        assert(v@.skip(i as int).skip(1) =~= v@.skip(i + 1));
        assert(v@.skip(i as int)[0] == v@[i as int]);
        i += 1;
    }
    assert(i < v@.len() ==> v@.skip(i as int)[0] == v@[i as int]);
    i
}

/// Whether `v` holds digits alone.
fn digits_only(v: &Vec<char>) -> (r: bool)
    ensures
        r == numbers::all_digits(v@),
{
    let mut i: usize = 0;
    while i < v.len()
        invariant
            0 <= i <= v@.len(),
            forall|j: int| 0 <= j < i ==> numbers::is_digit(#[trigger] v@[j]),
        decreases v@.len() - i,
    {
        if !digit_char(v[i]) {
            return false;
        }
        i += 1;
    }
    true
}

/// Whether `v` is `word`, small and capital letters alike.
fn is_word(v: &Vec<char>, word: &str) -> (r: bool)
    ensures
        r == (text::ascii_lower_text(v@) == word@),
{
    let mut low: Vec<char> = Vec::new();
    let mut i: usize = 0;
    while i < v.len()
        invariant
            0 <= i <= v@.len(),
            low@ == text::ascii_lower_text(v@).take(i as int),
        decreases v@.len() - i,
    {
        let c: char = v[i];
        let l: char = if 'A' <= c && c <= 'Z' {
            ((c as u8) + 32) as char
        } else {
            c
        };
        low.push(l);
        i += 1;
        assert(low@ =~= text::ascii_lower_text(v@).take(i as int));
    }
    assert(low@ =~= text::ascii_lower_text(v@));
    text::same_chars(&low, &text::chars_of(word))
}

/// How many zeros the digits start with.
fn count_leading_zeros(d: &Vec<char>) -> (r: usize)
    ensures
        r == leading_zeros(d@),
        r <= d@.len(),
{
    let mut i: usize = 0;
    assert(d@.skip(0) =~= d@);
    while i < d.len() && d[i] == '0'
        invariant
            0 <= i <= d@.len(),
            leading_zeros(d@) == i + leading_zeros(d@.skip(i as int)),
        decreases d@.len() - i,
    {
        assert(d@.skip(i as int).skip(1) =~= d@.skip(i + 1));
        i += 1;
    }
    i
}

/// The digits without the zeros at either end, the first `from` of them being zeros.
fn significant_digits(d: &Vec<char>, from: usize) -> (r: Vec<char>)
    requires
        from == leading_zeros(d@),
        from <= d@.len(),
        numbers::all_digits(d@),
    ensures
        r@ == significant(d@),
        numbers::all_digits(r@),
{
    let ghost rest = d@.skip(from as int);
    let mut n: usize = d.len();
    assert(d@.subrange(from as int, n as int) =~= rest);
    while n > from && d[n - 1] == '0'
        invariant
            from <= n <= d@.len(),
            rest == d@.skip(from as int),
            without_last_zeros(rest) == without_last_zeros(d@.subrange(from as int, n as int)),
        decreases n,
    {
        assert(d@.subrange(from as int, n as int).drop_last() =~= d@.subrange(
            from as int,
            n - 1,
        ));
        n -= 1;
    }
    let r = slice_of(d, from, n);
    proof {
        let last = d@.subrange(from as int, n as int);
        assert(without_last_zeros(last) == last);
        assert forall|i: int| 0 <= i < r@.len() implies numbers::is_digit(#[trigger] r@[i]) by {
            assert(r@[i] == d@[from + i]);
        }
    }
    r
}

/// A number in its parts: its digits without zeros at either end, and how far the point is moved.
struct Number {
    digits: Vec<char>,
    places: i128,
}

/// Whether a number is the one that a text without sign writes down.
spec fn is_number(n: Number, body: Seq<char>) -> bool {
    &&& decimal_parts(body) matches Some((d, point)) && n.digits@ == significant(d) && alike(
        n.places as int,
        point - leading_zeros(d),
    )
    &&& numbers::all_digits(n.digits@)
    &&& -0x1_0000_0000_0000_0000_0000 <= n.places <= 0x1_0000_0000_0000_0000_0000
}

/// The number that a text without sign writes down.
fn read_number(body: &Vec<char>) -> (r: Option<Number>)
    ensures
        match r {
            Some(n) => is_number(n, body@),
            None => decimal_parts(body@) is None,
        },
{
    let e: usize = exponent_mark_of(body);
    let mantissa = slice_of(body, 0, e);
    assert(mantissa@ =~= body@.take(e as int));
    assert(mantissa@.skip(0) =~= mantissa@);
    let p: usize = index_from(&mantissa, 0, '.');
    let whole = slice_of(&mantissa, 0, p);
    assert(whole@ =~= mantissa@.take(p as int));
    let fraction = if p < mantissa.len() {
        slice_of(&mantissa, p + 1, mantissa.len())
    } else {
        Vec::new()
    };
    assert(fraction@ =~= if p < mantissa@.len() {
        mantissa@.skip(p + 1)
    } else {
        Seq::empty()
    });
    let exponent: Option<i128> = if e < body.len() {
        let tail = slice_of(body, e + 1, body.len());
        assert(tail@ =~= body@.skip(e + 1));
        exponent_of(&tail)
    } else {
        Some(0)
    };
    if !digits_only(&whole) || !digits_only(&fraction) || (whole.len() == 0 && fraction.len() == 0) {
        return None;
    }
    match exponent {
        None => None,
        Some(x) => {
            let w: usize = whole.len();
            let mut all = whole;
            text::push_all(&mut all, &fraction);
            assert forall|i: int| 0 <= i < all@.len() implies numbers::is_digit(
                #[trigger] all@[i],
            ) by {
                if i >= w {
                    assert(all@[i] == fraction@[i - w]);
                }
            }
            let z: usize = count_leading_zeros(&all);
            let digits = significant_digits(&all, z);
            Some(Number { digits, places: w as i128 + x - z as i128 })
        },
    }
}

/// What the text `v` says about a threshold.
pub fn read_threshold(v: &Vec<char>) -> (r: ThresholdText)
    ensures
        r == threshold_text(v@),
        r matches ThresholdText::Valid(t) ==> t.wf(),
{
    let signed = v.len() > 0 && (v[0] == '-' || v[0] == '+');
    let negative = signed && v[0] == '-';
    let from: usize = if signed {
        1
    } else {
        0
    };
    let body = slice_of(v, from, v.len());
    assert(body@ =~= split_sign(v@).1);
    if is_word(&body, "inf") || is_word(&body, "infinity") || is_word(&body, "nan") {
        return ThresholdText::OutOfRange;
    }
    match read_number(&body) {
        None => ThresholdText::Invalid,
        Some(n) => {
            proof {
                let (d, point) = decimal_parts(body@)->0;
                lemma_alike(negative, n.digits@, n.places as int, point - leading_zeros(d));
            }
            classified(negative, &n.digits, n.places)
        },
    }
}

/// So many zeros at the end.
fn push_zeros(out: &mut Vec<char>, n: usize)
    ensures
        final(out)@ == old(out)@ + zeros(n as int),
{
    let ghost before = out@;
    let mut i: usize = 0;
    assert(out@ =~= before + zeros(0));
    while i < n
        invariant
            0 <= i <= n,
            out@ == before + zeros(i as int),
        decreases n - i,
    {
        out.push('0');
        i += 1;
        assert(out@ =~= before + zeros(i as int));
    }
}

/// The digits with the given point as a number without exponent.
fn show_plain(t: &Vec<char>, q: i128) -> (r: Vec<char>)
    ensures
        r@ == plain_number(t@, q as int),
{
    let n: usize = t.len();
    if is_vanishing(t, q) {
        return text::chars_of("0");
    }
    if q > 39 || (q == 39 && is_at_most(&text::chars_of(GREAT), t)) {
        return text::chars_of("inf");
    }
    if q <= 0 {
        let mut out = text::chars_of("0.");
        push_zeros(&mut out, (-q) as usize);
        text::push_all(&mut out, t);
        return out;
    }
    let place: usize = q as usize;
    if place >= n {
        let mut out = slice_of(t, 0, n);
        assert(out@ =~= t@);
        push_zeros(&mut out, place - n);
        out
    } else {
        let mut out = slice_of(t, 0, place);
        assert(out@ =~= t@.take(place as int));
        text::push_all(&mut out, &text::chars_of("."));
        let rest = slice_of(t, place, n);
        assert(rest@ =~= t@.skip(place as int));
        text::push_all(&mut out, &rest);
        out
    }
}

/// A number as it is shown.
pub fn show_number(v: &Vec<char>) -> (r: String)
    ensures
        r@ == number_text(v@),
{
    let signed = v.len() > 0 && (v[0] == '-' || v[0] == '+');
    let negative = signed && v[0] == '-';
    let from: usize = if signed {
        1
    } else {
        0
    };
    let body = slice_of(v, from, v.len());
    assert(body@ =~= split_sign(v@).1);
    if is_word(&body, "nan") {
        return "NaN".to_owned();
    }
    let mut out: Vec<char> = Vec::new();
    if negative {
        out.push('-');
    }
    proof {
        reveal_strlit("-");
        assert(out@ =~= if negative {
            "-"@
        } else {
            Seq::empty()
        });
    }
    if is_word(&body, "inf") || is_word(&body, "infinity") {
        text::push_all(&mut out, &text::chars_of("inf"));
        return string_of(&out);
    }
    match read_number(&body) {
        None => string_of(v),
        Some(n) => {
            proof {
                let (d, point) = decimal_parts(body@)->0;
                lemma_alike(negative, n.digits@, n.places as int, point - leading_zeros(d));
            }
            text::push_all(&mut out, &show_plain(&n.digits, n.places));
            string_of(&out)
        },
    }
}

} // verus!
