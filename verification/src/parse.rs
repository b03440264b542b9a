use vstd::prelude::*;
use vstd::string::*;

verus! {

/// How many microhertz make one hertz.
pub const MICROHERTZ_PER_HERTZ: u64 = 1_000_000;

/// The largest whole number of hertz whose microhertz may fit in 64 bits.
pub const WHOLE_HERTZ_LIMIT: u64 = 18_446_744_073_709;

/// The value of a decimal digit, and -1 for every other character.
pub open spec fn digit_value(c: char) -> int {
    if c == '0' {
        0
    } else if c == '1' {
        1
    } else if c == '2' {
        2
    } else if c == '3' {
        3
    } else if c == '4' {
        4
    } else if c == '5' {
        5
    } else if c == '6' {
        6
    } else if c == '7' {
        7
    } else if c == '8' {
        8
    } else if c == '9' {
        9
    } else {
        -1
    }
}

/// Whether a character is a decimal digit.
pub open spec fn is_digit(c: char) -> bool {
    digit_value(c) >= 0
}

/// The number that a run of digits writes, the empty run writing zero.
pub open spec fn digits_value(digits: Seq<char>) -> nat
    decreases digits.len(),
{
    if digits.len() == 0 {
        0
    } else {
        let last = digit_value(digits.last());
        digits_value(digits.drop_last()) * 10 + if last >= 0 {
            last as nat
        } else {
            0
        }
    }
}

/// Whether `text` is digits up to `point`, and from there either nothing or a
/// decimal point and digits to the end, with a digit somewhere.
pub open spec fn decimal_split(text: Seq<char>, point: int) -> bool {
    &&& 0 <= point <= text.len()
    &&& forall|i: int| 0 <= i < point ==> is_digit(#[trigger] text[i])
    &&& point < text.len() ==> text[point] == '.'
    &&& forall|i: int| point < i < text.len() ==> is_digit(#[trigger] text[i])
    &&& (text.len() > point + 1 || point > 0)
}

/// The digits after the decimal point, where there is one.
pub open spec fn fraction_digits(text: Seq<char>, point: int) -> Seq<char> {
    if point < text.len() {
        text.subrange(point + 1, text.len() as int)
    } else {
        Seq::empty()
    }
}

/// Ten to the power `6 - places`, for up to six places.
pub open spec fn micro_scale(places: nat) -> nat {
    if places == 0 {
        1_000_000
    } else if places == 1 {
        100_000
    } else if places == 2 {
        10_000
    } else if places == 3 {
        1_000
    } else if places == 4 {
        100
    } else if places == 5 {
        10
    } else {
        1
    }
}

/// Ten to the power `places`, for up to six places.
pub open spec fn places_bound(places: nat) -> nat {
    if places == 0 {
        1
    } else if places == 1 {
        10
    } else if places == 2 {
        100
    } else if places == 3 {
        1_000
    } else if places == 4 {
        10_000
    } else if places == 5 {
        100_000
    } else {
        1_000_000
    }
}

/// The millionths that the digits after the point write. Digits past the sixth
/// are below the resolution and count for nothing.
pub open spec fn fraction_micro(fraction: Seq<char>) -> nat {
    let places = if fraction.len() < 6 {
        fraction.len()
    } else {
        6
    };
    digits_value(fraction.subrange(0, places as int)) * micro_scale(places)
}

/// The microhertz that `text` writes, split at `point`.
pub open spec fn decimal_value(text: Seq<char>, point: int) -> nat {
    digits_value(text.subrange(0, point)) * 1_000_000 + fraction_micro(
        fraction_digits(text, point),
    )
}

/// The frequency that a text in plain decimal notation writes, in microhertz:
/// digits, with at most one decimal point among them or at either end. There
/// is none where the text is anything else, or where the value does not fit in
/// 64 bits.
pub open spec fn parsed_frequency(text: Seq<char>) -> Option<nat> {
    if exists|point: int| decimal_split(text, point) {
        let value = decimal_value(text, choose|point: int| decimal_split(text, point));
        if value <= u64::MAX {
            Some(value)
        } else {
            None
        }
    } else {
        None
    }
}

/// A text splits at one place at most.
pub proof fn lemma_decimal_split_unique(text: Seq<char>, first: int, second: int)
    requires
        decimal_split(text, first),
        decimal_split(text, second),
    ensures
        first == second,
{
    if first < second {
        assert(is_digit(text[first]));
    } else if second < first {
        assert(is_digit(text[second]));
    }
}

/// The value of a text that splits at `point`.
pub proof fn lemma_parsed_frequency_at(text: Seq<char>, point: int)
    requires
        decimal_split(text, point),
    ensures
        parsed_frequency(text) == if decimal_value(text, point) <= u64::MAX {
            Some(decimal_value(text, point))
        } else {
            None
        },
{
    let chosen = choose|point: int| decimal_split(text, point);
    lemma_decimal_split_unique(text, point, chosen);
}

/// A text with a character at `at` that stops every split writes no frequency.
proof fn lemma_no_split(text: Seq<char>, digits: int, at: int)
    requires
        0 <= digits <= at < text.len(),
        forall|i: int| 0 <= i < digits ==> is_digit(#[trigger] text[i]),
        !is_digit(text[at]),
        at == digits ==> text[at] != '.',
        at > digits ==> !is_digit(text[digits]),
    ensures
        parsed_frequency(text) is None,
{
    assert forall|point: int| !decimal_split(text, point) by {
        if decimal_split(text, point) {
            if point < digits {
                assert(is_digit(text[point]));
            } else if point > digits {
                assert(is_digit(text[digits]));
            } else {
                assert(is_digit(text[at]));
            }
        }
    }
}

/// A longer run of digits writes no smaller number than its beginning.
proof fn lemma_digits_value_grows(digits: Seq<char>, shorter: int, longer: int)
    requires
        0 <= shorter <= longer <= digits.len(),
    ensures
        digits_value(digits.subrange(0, shorter)) <= digits_value(digits.subrange(0, longer)),
    decreases longer - shorter,
{
    if shorter < longer {
        lemma_digits_value_grows(digits, shorter, longer - 1);
        assert(digits.subrange(0, longer).drop_last() =~= digits.subrange(0, longer - 1));
    }
}

proof fn lemma_digits_value_step(digits: Seq<char>, count: int)
    requires
        0 <= count < digits.len(),
        is_digit(digits[count]),
    ensures
        digits_value(digits.subrange(0, count + 1)) == digits_value(digits.subrange(0, count))
            * 10 + digit_value(digits[count]),
{
    assert(digits.subrange(0, count + 1).drop_last() =~= digits.subrange(0, count));
}

/// The value of a decimal digit.
pub fn digit_of(c: char) -> (digit: Option<u8>)
    ensures
        match digit {
            Some(d) => d as int == digit_value(c),
            None => !is_digit(c),
        },
{
    if c == '0' {
        Some(0)
    } else if c == '1' {
        Some(1)
    } else if c == '2' {
        Some(2)
    } else if c == '3' {
        Some(3)
    } else if c == '4' {
        Some(4)
    } else if c == '5' {
        Some(5)
    } else if c == '6' {
        Some(6)
    } else if c == '7' {
        Some(7)
    } else if c == '8' {
        Some(8)
    } else if c == '9' {
        Some(9)
    } else {
        None
    }
}

/// The value of the digit that stands at `at`.
fn digit_at(text: &str, at: usize) -> (digit: u64)
    requires
        at < text@.len(),
        is_digit(text@[at as int]),
    ensures
        digit as int == digit_value(text@[at as int]),
        digit <= 9,
{
    match digit_of(text.get_char(at)) {
        Some(d) => d as u64,
        None => 0,
    }
}

/// The length of the run of digits from `start` on.
fn digits_from(text: &str, start: usize) -> (end: usize)
    requires
        start <= text@.len(),
    ensures
        start <= end <= text@.len(),
        forall|i: int| start <= i < end ==> is_digit(#[trigger] text@[i]),
        end < text@.len() ==> !is_digit(text@[end as int]),
{
    let len = text.unicode_len();
    let mut end = start;
    while end < len
        invariant
            start <= end <= len,
            len == text@.len(),
            forall|i: int| start <= i < end ==> is_digit(#[trigger] text@[i]),
        decreases len - end,
    {
        if digit_of(text.get_char(end)).is_none() {
            return end;
        }
        end = end + 1;
    }
    end
}

/// The number that the first `end` characters of `text` write, all of them
/// digits, as long as it stays within the limit for whole hertz.
fn whole_number(text: &str, end: usize) -> (number: Option<u64>)
    requires
        end <= text@.len(),
        forall|i: int| 0 <= i < end ==> is_digit(#[trigger] text@[i]),
    ensures
        match number {
            Some(n) => n == digits_value(text@.subrange(0, end as int)) && n <= WHOLE_HERTZ_LIMIT,
            None => digits_value(text@.subrange(0, end as int)) > WHOLE_HERTZ_LIMIT,
        },
{
    let ghost digits = text@.subrange(0, end as int);
    let mut number: u64 = 0;
    let mut at: usize = 0;
    assert(digits.subrange(0, 0) =~= Seq::<char>::empty());
    while at < end
        invariant
            at <= end <= text@.len(),
            digits == text@.subrange(0, end as int),
            forall|i: int| 0 <= i < end ==> is_digit(#[trigger] text@[i]),
            number == digits_value(digits.subrange(0, at as int)),
            number <= WHOLE_HERTZ_LIMIT,
        decreases end - at,
    {
        assert(digits[at as int] == text@[at as int]);
        proof {
            lemma_digits_value_step(digits, at as int);
        }
        let next: u64 = number * 10 + digit_at(text, at);
        if next > WHOLE_HERTZ_LIMIT {
            proof {
                lemma_digits_value_grows(digits, at + 1, digits.len() as int);
                assert(digits.subrange(0, digits.len() as int) =~= digits);
            }
            return None;
        }
        number = next;
        at = at + 1;
    }
    assert(digits.subrange(0, at as int) =~= digits);
    Some(number)
}

/// The number that `places` characters of `text` from `start` on write, all of
/// them digits and no more than six.
fn places_number(text: &str, start: usize, places: usize) -> (number: u64)
    requires
        places <= 6,
        start + places <= text@.len(),
        start + places <= usize::MAX,
        forall|i: int| start <= i < start + places ==> is_digit(#[trigger] text@[i]),
    ensures
        number == digits_value(text@.subrange(start as int, start + places)),
        number < places_bound(places as nat),
{
    let ghost digits = text@.subrange(start as int, start + places);
    let mut number: u64 = 0;
    let mut count: usize = 0;
    assert(digits.subrange(0, 0) =~= Seq::<char>::empty());
    while count < places
        invariant
            count <= places <= 6,
            start + places <= text@.len(),
            start + places <= usize::MAX,
            digits == text@.subrange(start as int, start + places),
            forall|i: int| start <= i < start + places ==> is_digit(#[trigger] text@[i]),
            number == digits_value(digits.subrange(0, count as int)),
            number < places_bound(count as nat),
        decreases places - count,
    {
        assert(digits[count as int] == text@[start + count]);
        proof {
            lemma_digits_value_step(digits, count as int);
        }
        number = number * 10 + digit_at(text, start + count);
        count = count + 1;
    }
    assert(digits.subrange(0, count as int) =~= digits);
    number
}

fn micro_scale_of(places: usize) -> (scale: u64)
    requires
        places <= 6,
    ensures
        scale == micro_scale(places as nat),
{
    if places == 0 {
        1_000_000
    } else if places == 1 {
        100_000
    } else if places == 2 {
        10_000
    } else if places == 3 {
        1_000
    } else if places == 4 {
        100
    } else if places == 5 {
        10
    } else {
        1
    }
}

/// Reads a frequency in plain decimal notation and gives it in microhertz.
/// `523.25` gives 523250000; `5.` and `.5` are read as `5` and `0.5`; digits
/// past the sixth decimal place are dropped. Nothing is given for a text that
/// holds anything but digits and one decimal point, for one without a digit,
/// or for a value that does not fit in 64 bits.
pub fn parse_frequency(text: &str) -> (freq: Option<u64>)
    ensures
        match freq {
            Some(f) => parsed_frequency(text@) == Some(f as nat),
            None => parsed_frequency(text@) is None,
        },
{
    let len = text.unicode_len();
    let point = digits_from(text, 0);
    let mut fraction_start = len;
    if point < len {
        if text.get_char(point) != '.' {
            proof {
                lemma_no_split(text@, point as int, point as int);
            }
            return None;
        }
        fraction_start = point + 1;
        let end = digits_from(text, fraction_start);
        if end < len {
            proof {
                lemma_no_split(text@, point as int, end as int);
            }
            return None;
        }
    }
    if point == 0 && fraction_start >= len {
        assert forall|at: int| !decimal_split(text@, at) by {
            if decimal_split(text@, at) {
                if at < point {
                    assert(is_digit(text@[at]));
                } else if at > point {
                    assert(is_digit(text@[point as int]));
                }
            }
        }
        return None;
    }
    assert(decimal_split(text@, point as int));
    proof {
        lemma_parsed_frequency_at(text@, point as int);
    }
    let ghost fraction = fraction_digits(text@, point as int);
    let places: usize = if len - fraction_start < 6 {
        len - fraction_start
    } else {
        6
    };
    assert(fraction.subrange(0, places as int) =~= text@.subrange(
        fraction_start as int,
        fraction_start + places,
    ));
    let whole = match whole_number(text, point) {
        Some(n) => n,
        None => {
            assert(decimal_value(text@, point as int) > u64::MAX) by (nonlinear_arith)
                requires
                    digits_value(text@.subrange(0, point as int)) > 18_446_744_073_709,
                    decimal_value(text@, point as int) == digits_value(
                        text@.subrange(0, point as int),
                    ) * 1_000_000 + fraction_micro(fraction_digits(text@, point as int)),
            ;
            return None;
        },
    };
    let shown = places_number(text, fraction_start, places);
    proof {
        lemma_micro_below(shown as nat, places as nat);
    }
    let scale = micro_scale_of(places);
    let micro: u64 = shown * scale;
    let value: u128 = whole as u128 * MICROHERTZ_PER_HERTZ as u128 + micro as u128;
    if value > u64::MAX as u128 {
        None
    } else {
        Some(value as u64)
    }
}

/// A number of so many places, scaled to millionths, stays below one million.
proof fn lemma_micro_below(value: nat, places: nat)
    requires
        places <= 6,
        value < places_bound(places),
    ensures
        value * micro_scale(places) < 1_000_000,
{
    let scale = micro_scale(places);
    let bound = places_bound(places);
    assert(bound * scale == 1_000_000);
    assert(value * scale < 1_000_000) by (nonlinear_arith)
        requires
            value < bound,
            bound * scale == 1_000_000,
            scale >= 1,
    ;
}

} // verus!
