//! Durations in texts such as `30s`, `2m`, or `1h 30m`.

use vstd::prelude::*;

use crate::number;
use crate::terminal::progress;
use crate::terminal::progress::Elapsed;
use crate::text;

verus! {

/// Most digits of a fraction that is read.
pub const MAX_FRACTION_DIGITS: usize = 19;

/// The first number of nanoseconds that is no duration: one second more than the seconds that a
/// `u64` holds.
pub const LIMIT: u128 = 18_446_744_073_709_551_616_000_000_000;

/// Whether a character can stand in the name of a unit.
pub open spec fn is_unit_letter(character: char) -> bool {
    'a' <= character <= 'z' || 'A' <= character <= 'Z' || character == 'µ'
}

/// The nanoseconds of a unit; a name that is that of no unit stands for nothing.
pub open spec fn unit_nanos(name: Seq<char>) -> nat {
    if name == "nanos"@ || name == "nsec"@ || name == "ns"@ {
        1
    } else if name == "usec"@ || name == "us"@ || name == "µs"@ {
        1_000
    } else if name == "millis"@ || name == "msec"@ || name == "ms"@ {
        1_000_000
    } else if name == "seconds"@ || name == "second"@ || name == "secs"@ || name == "sec"@ || name
        == "s"@ {
        1_000_000_000
    } else if name == "minutes"@ || name == "minute"@ || name == "min"@ || name == "mins"@ || name
        == "m"@ {
        60_000_000_000
    } else if name == "hours"@ || name == "hour"@ || name == "hr"@ || name == "hrs"@ || name
        == "h"@ {
        3_600_000_000_000
    } else if name == "days"@ || name == "day"@ || name == "d"@ {
        86_400_000_000_000
    } else if name == "weeks"@ || name == "week"@ || name == "wk"@ || name == "wks"@ || name
        == "w"@ {
        604_800_000_000_000
    } else if name == "months"@ || name == "month"@ || name == "M"@ {
        2_630_016_000_000_000
    } else if name == "years"@ || name == "year"@ || name == "yr"@ || name == "yrs"@ || name
        == "y"@ {
        31_557_600_000_000_000
    } else {
        0
    }
}

/// How many characters at the start of a text belong to a number: digits, with white space between
/// and behind them.
pub open spec fn number_len(text: Seq<char>) -> nat
    decreases text.len(),
{
    if text.len() > 0 && (number::is_digit(text[0]) || text::is_space(text[0])) {
        1 + number_len(text.skip(1))
    } else {
        0
    }
}

/// How many characters at the start of a text belong to the name of a unit.
pub open spec fn unit_len(text: Seq<char>) -> nat
    decreases text.len(),
{
    if text.len() > 0 && is_unit_letter(text[0]) {
        1 + unit_len(text.skip(1))
    } else {
        0
    }
}

/// The number of digits in a text.
pub open spec fn digit_count(text: Seq<char>) -> nat
    decreases text.len(),
{
    if text.len() == 0 {
        0
    } else if number::is_digit(text.last()) {
        digit_count(text.drop_last()) + 1
    } else {
        digit_count(text.drop_last())
    }
}

/// The value of the digits in a text.
pub open spec fn digits_value(text: Seq<char>) -> nat
    decreases text.len(),
{
    if text.len() == 0 {
        0
    } else if number::is_digit(text.last()) {
        digits_value(text.drop_last()) * 10 + (text.last() as int - '0' as int) as nat
    } else {
        digits_value(text.drop_last())
    }
}

/// A power of ten.
pub open spec fn power_of_ten(exponent: nat) -> nat
    decreases exponent,
{
    if exponent == 0 {
        1
    } else {
        10 * power_of_ten((exponent - 1) as nat)
    }
}

/// One span of time at the start of a text: a number, its fraction, and the name of a unit.
pub ghost struct TimeSpan {
    pub whole: Seq<char>,
    pub fraction: Seq<char>,
    pub unit: Seq<char>,
    pub len: nat,
}

/// The span of time at the start of a text.
pub open spec fn first_span(text: Seq<char>) -> TimeSpan {
    let whole = number_len(text) as int;
    let has_fraction = 0 <= whole < text.len() && text[whole] == '.';
    let from = if has_fraction {
        whole + 1
    } else {
        whole
    };
    let unit = if has_fraction {
        from + number_len(text.skip(from))
    } else {
        from
    };
    let end = unit + unit_len(text.skip(unit));
    TimeSpan {
        whole: text.take(whole),
        fraction: text.subrange(from, unit),
        unit: text.subrange(unit, end),
        len: end as nat,
    }
}

/// The nanoseconds of a fraction of a unit; one of more digits than are read stands for nothing.
pub open spec fn fraction_nanos(fraction: Seq<char>, unit: nat) -> nat {
    if digit_count(fraction) <= MAX_FRACTION_DIGITS {
        digits_value(fraction) * unit / power_of_ten(digit_count(fraction))
    } else {
        0
    }
}

/// The nanoseconds of a span of time.
pub open spec fn span_nanos(span: TimeSpan) -> nat {
    digits_value(span.whole) * unit_nanos(span.unit) + fraction_nanos(
        span.fraction,
        unit_nanos(span.unit),
    )
}

/// The nanoseconds of all spans of time in a text.
pub open spec fn total_nanos(text: Seq<char>) -> nat
    decreases text.len(),
{
    if text.len() == 0 {
        0
    } else if number::is_digit(text[0]) && 0 < first_span(text).len <= text.len() {
        span_nanos(first_span(text)) + total_nanos(text.skip(first_span(text).len as int))
    } else {
        total_nanos(text.skip(1))
    }
}

/// Whether all digits of a text stand at its start, so that it holds one number at most.
pub open spec fn digits_lead(text: Seq<char>) -> bool {
    forall|i: int, j: int|
        0 <= i < j < text.len() && number::is_digit(#[trigger] text[j]) ==> number::is_digit(
            #[trigger] text[i],
        )
}

/// Whether reading a text as a duration cannot overflow: it holds one whole number at most, or its
/// spans of time add up to a duration.
pub open spec fn cannot_overflow(text: Seq<char>) -> bool {
    digits_lead(text) || total_nanos(text) < LIMIT
}

/// Why humantime reads a text as no duration, if it does not.
pub uninterp spec fn duration_fault(text: Seq<char>) -> Option<Seq<char>>;

/// [`humantime::parse_duration`], with its error as text: a duration is what the spans of time in
/// the text add up to. Whether the text is one, and why not, depends on the text alone and is
/// named. The call panics only where the spans add up to a second more than the seconds that a
/// `u64` holds, and reads no text whose spans add up to that or more.
#[verifier::external_body]
fn human_duration(value: &str) -> (result: Result<(u64, u32), String>)
    requires
        cannot_overflow(value@),
    ensures
        match result {
            Ok((secs, nanos)) => duration_fault(value@) is None && nanos
                < progress::NANOS_PER_SECOND && secs * progress::NANOS_PER_SECOND + nanos
                == total_nanos(value@),
            Err(reason) => duration_fault(value@) == Some(reason@),
        },
{
    humantime::parse_duration(value).map(|found| (found.as_secs(), found.subsec_nanos())).map_err(
        |reason| reason.to_string(),
    )
}

/// A number, or the limit where it is larger.
pub open spec fn capped(value: nat) -> nat {
    if value < LIMIT {
        value
    } else {
        LIMIT as nat
    }
}

/// The nanoseconds of a unit.
fn nanos_of_unit(name: &str) -> (nanos: u128)
    ensures
        nanos == unit_nanos(name@),
        nanos <= 31_557_600_000_000_000,
{
    if text::same_text(name, "nanos") || text::same_text(name, "nsec") || text::same_text(
        name,
        "ns",
    ) {
        1
    } else if text::same_text(name, "usec") || text::same_text(name, "us") || text::same_text(
        name,
        "µs",
    ) {
        1_000
    } else if text::same_text(name, "millis") || text::same_text(name, "msec") || text::same_text(
        name,
        "ms",
    ) {
        1_000_000
    } else if text::same_text(name, "seconds") || text::same_text(name, "second")
        || text::same_text(name, "secs") || text::same_text(name, "sec") || text::same_text(
        name,
        "s",
    ) {
        1_000_000_000
    } else if text::same_text(name, "minutes") || text::same_text(name, "minute")
        || text::same_text(name, "min") || text::same_text(name, "mins") || text::same_text(
        name,
        "m",
    ) {
        60_000_000_000
    } else if text::same_text(name, "hours") || text::same_text(name, "hour") || text::same_text(
        name,
        "hr",
    ) || text::same_text(name, "hrs") || text::same_text(name, "h") {
        3_600_000_000_000
    } else if text::same_text(name, "days") || text::same_text(name, "day") || text::same_text(
        name,
        "d",
    ) {
        86_400_000_000_000
    } else if text::same_text(name, "weeks") || text::same_text(name, "week") || text::same_text(
        name,
        "wk",
    ) || text::same_text(name, "wks") || text::same_text(name, "w") {
        604_800_000_000_000
    } else if text::same_text(name, "months") || text::same_text(name, "month") || text::same_text(
        name,
        "M",
    ) {
        2_630_016_000_000_000
    } else if text::same_text(name, "years") || text::same_text(name, "year") || text::same_text(
        name,
        "yr",
    ) || text::same_text(name, "yrs") || text::same_text(name, "y") {
        31_557_600_000_000_000
    } else {
        0
    }
}

/// Index past the number that starts at an index.
fn number_end(chars: &[char], from: usize) -> (end: usize)
    requires
        from <= chars@.len(),
    ensures
        from <= end <= chars@.len(),
        end == from + number_len(chars@.skip(from as int)),
{
    let mut end = from;
    while end < chars.len() && (('0' <= chars[end] && chars[end] <= '9') || text::space(chars[end]))
        invariant
            from <= end <= chars@.len(),
            from + number_len(chars@.skip(from as int)) == end + number_len(
                chars@.skip(end as int),
            ),
        decreases chars.len() - end,
    {
        assert(chars@.skip(end as int).skip(1) =~= chars@.skip(end + 1));
        end = end + 1;
    }
    end
}

/// Index past the name of a unit that starts at an index.
fn unit_end(chars: &[char], from: usize) -> (end: usize)
    requires
        from <= chars@.len(),
    ensures
        from <= end <= chars@.len(),
        end == from + unit_len(chars@.skip(from as int)),
{
    let mut end = from;
    while end < chars.len() && (('a' <= chars[end] && chars[end] <= 'z') || ('A' <= chars[end]
        && chars[end] <= 'Z') || chars[end] == 'µ')
        invariant
            from <= end <= chars@.len(),
            from + unit_len(chars@.skip(from as int)) == end + unit_len(chars@.skip(end as int)),
        decreases chars.len() - end,
    {
        assert(chars@.skip(end as int).skip(1) =~= chars@.skip(end + 1));
        end = end + 1;
    }
    end
}

/// The value of digits, capped, and how many there are.
fn read_digits(chars: &[char], from: usize, to: usize) -> (read: (u128, usize))
    requires
        from <= to <= chars@.len(),
    ensures
        read.0 == capped(digits_value(chars@.subrange(from as int, to as int))),
        read.1 == digit_count(chars@.subrange(from as int, to as int)),
{
    let mut value: u128 = 0;
    let mut count: usize = 0;
    for i in from..to
        invariant
            from <= i <= to <= chars@.len(),
            count <= i - from,
            value == capped(digits_value(chars@.subrange(from as int, i as int))),
            count == digit_count(chars@.subrange(from as int, i as int)),
    {
        let ghost after = chars@.subrange(from as int, i + 1);
        assert(after.drop_last() =~= chars@.subrange(from as int, i as int));
        assert(after.last() == chars@[i as int]);
        let c = chars[i];
        if '0' <= c && c <= '9' {
            let next = value * 10 + (c as u32 - '0' as u32) as u128;
            value = if next < LIMIT {
                next
            } else {
                LIMIT
            };
            count = count + 1;
        }
    }
    (value, count)
}

/// A power of ten.
fn ten_to_the(exponent: usize) -> (power: u128)
    requires
        exponent <= MAX_FRACTION_DIGITS,
    ensures
        power == power_of_ten(exponent as nat),
        0 < power <= 10_000_000_000_000_000_000,
{
    let mut power: u128 = 1;
    proof {
        lemma_powers_of_ten();
    }
    for i in 0..exponent
        invariant
            exponent <= MAX_FRACTION_DIGITS,
            power == power_of_ten(i as nat),
            power_of_ten(19) == 10_000_000_000_000_000_000,
    {
        proof {
            lemma_power_of_ten_grows((i + 1) as nat, 19);
        }
        power = power * 10;
    }
    proof {
        lemma_power_of_ten_grows(exponent as nat, 19);
        lemma_power_of_ten_grows(0, exponent as nat);
    }
    power
}

proof fn lemma_powers_of_ten()
    ensures
        power_of_ten(19) == 10_000_000_000_000_000_000,
{
    reveal_with_fuel(power_of_ten, 20);
}

proof fn lemma_power_of_ten_grows(low: nat, high: nat)
    requires
        low <= high,
    ensures
        power_of_ten(low) <= power_of_ten(high),
    decreases high,
{
    if low < high {
        lemma_power_of_ten_grows(low, (high - 1) as nat);
    }
}

proof fn lemma_digits_are_below_their_power(text: Seq<char>)
    ensures
        digits_value(text) < power_of_ten(digit_count(text)),
    decreases text.len(),
{
    if text.len() > 0 {
        lemma_digits_are_below_their_power(text.drop_last());
    }
}

/// A product, capped.
fn capped_product(value: u128, unit: u128, Ghost(exact): Ghost<nat>) -> (product: u128)
    requires
        value == capped(exact),
        unit <= 31_557_600_000_000_000,
    ensures
        product == capped(exact * unit as nat),
{
    if unit == 0 {
        assert(exact * unit as nat == 0) by (nonlinear_arith)
            requires
                unit == 0,
        ;
        return 0;
    }
    if value > LIMIT / unit {
        assert(exact * unit as nat >= LIMIT) by (nonlinear_arith)
            requires
                unit > 0,
                value > LIMIT as nat / unit as nat,
                exact >= value,
        ;
        LIMIT
    } else {
        assert(value * unit <= LIMIT) by (nonlinear_arith)
            requires
                unit > 0,
                value <= LIMIT as nat / unit as nat,
        ;
        if value == LIMIT {
            assert(exact * unit as nat >= LIMIT) by (nonlinear_arith)
                requires
                    unit > 0,
                    exact >= LIMIT,
            ;
            assert(value * unit >= LIMIT) by (nonlinear_arith)
                requires
                    unit > 0,
                    value == LIMIT,
            ;
        }
        value * unit
    }
}

/// The nanoseconds of a fraction of a unit.
fn nanos_of_fraction(chars: &[char], from: usize, to: usize, unit: u128) -> (nanos: u128)
    requires
        from <= to <= chars@.len(),
        unit <= 31_557_600_000_000_000,
    ensures
        nanos == fraction_nanos(chars@.subrange(from as int, to as int), unit as nat),
        nanos <= unit,
{
    let ghost fraction = chars@.subrange(from as int, to as int);
    let (value, count) = read_digits(chars, from, to);
    if count > MAX_FRACTION_DIGITS {
        return 0;
    }
    let power = ten_to_the(count);
    proof {
        lemma_digits_are_below_their_power(fraction);
    }
    assert(value == digits_value(fraction));
    assert(value * unit <= 10_000_000_000_000_000_000 * 31_557_600_000_000_000) by (nonlinear_arith)
        requires
            value <= 10_000_000_000_000_000_000,
            unit <= 31_557_600_000_000_000,
    ;
    assert(value as nat * unit as nat / power as nat <= unit) by (nonlinear_arith)
        requires
            0 < power,
            value <= power,
    ;
    value * unit / power
}

/// The nanoseconds of all spans of time in a text, capped.
fn add_spans(chars: &[char]) -> (total: u128)
    ensures
        total == capped(total_nanos(chars@)),
{
    let mut total: u128 = 0;
    let mut at: usize = 0;
    assert(chars@.skip(0) =~= chars@);
    while at < chars.len()
        invariant
            at <= chars@.len(),
            total <= LIMIT,
            capped(total_nanos(chars@)) == capped(total as nat + total_nanos(chars@.skip(at as int))),
        decreases chars.len() - at,
    {
        let ghost rest = chars@.skip(at as int);
        if '0' <= chars[at] && chars[at] <= '9' {
            let whole_end = number_end(chars, at);
            let has_fraction = whole_end < chars.len() && chars[whole_end] == '.';
            let fraction = if has_fraction {
                whole_end + 1
            } else {
                whole_end
            };
            let unit = if has_fraction {
                number_end(chars, fraction)
            } else {
                fraction
            };
            let end = unit_end(chars, unit);
            let ghost span = first_span(rest);
            assert(rest.skip(fraction - at) =~= chars@.skip(fraction as int));
            assert(rest.skip(unit - at) =~= chars@.skip(unit as int));
            assert(span.len == end - at);
            assert(span.whole =~= chars@.subrange(at as int, whole_end as int));
            assert(span.fraction =~= chars@.subrange(fraction as int, unit as int));
            assert(span.unit =~= chars@.subrange(unit as int, end as int));
            let nanos = nanos_of_unit(&text::text_between(chars, unit, end));
            let (whole, _) = read_digits(chars, at, whole_end);
            let product = capped_product(whole, nanos, Ghost(digits_value(span.whole)));
            let part = nanos_of_fraction(chars, fraction, unit, nanos);
            let sum = total + product + part;
            assert(capped(sum as nat) == capped(total as nat + span_nanos(span)));
            assert(rest.skip(end - at) =~= chars@.skip(end as int));
            assert(number_len(rest) > 0);
            assert(total_nanos(rest) == span_nanos(span) + total_nanos(chars@.skip(end as int)));
            total = if sum < LIMIT {
                sum
            } else {
                LIMIT
            };
            at = end;
        } else {
            assert(rest.skip(1) =~= chars@.skip(at + 1));
            at = at + 1;
        }
    }
    assert(chars@.skip(at as int) =~= seq![]);
    total
}

/// Whether all digits of a text stand at its start.
fn check_digits_lead(chars: &[char]) -> (result: bool)
    ensures
        result == digits_lead(chars@),
{
    let mut only_digits = true;
    for i in 0..chars.len()
        invariant
            only_digits ==> forall|j: int| 0 <= j < i ==> number::is_digit(#[trigger] chars@[j]),
            !only_digits ==> exists|j: int| 0 <= j < i && !number::is_digit(#[trigger] chars@[j]),
            digits_lead(chars@.take(i as int)),
    {
        let ghost after = chars@.take(i + 1);
        assert(forall|j: int| 0 <= j <= i ==> after[j] == #[trigger] chars@[j]);
        assert(forall|j: int| 0 <= j < i ==> chars@.take(i as int)[j] == #[trigger] chars@[j]);
        if '0' <= chars[i] && chars[i] <= '9' {
            if !only_digits {
                proof {
                    let j = choose|j: int| 0 <= j < i && !number::is_digit(#[trigger] chars@[j]);
                    assert(!number::is_digit(chars@[j]) && number::is_digit(chars@[i as int]));
                }
                return false;
            }
        } else {
            assert(!number::is_digit(chars@[i as int]));
            only_digits = false;
        }
        assert(digits_lead(after));
    }
    assert(chars@.take(chars@.len() as int) =~= chars@);
    true
}

/// What is said of a text whose spans of time add up to more than a duration can be.
pub const TOO_LONG: &'static str = "duration is too long";

/// The nanoseconds of the duration in a text, or the reason why it is none: those of its spans of
/// time, unless they are too many or the text is no duration.
pub open spec fn duration_nanos(value: Seq<char>) -> Result<nat, Seq<char>> {
    if !cannot_overflow(value) {
        Err(TOO_LONG@)
    } else {
        match duration_fault(value) {
            Some(reason) => Err(reason),
            None => Ok(total_nanos(value)),
        }
    }
}

/// What a result holds.
pub open spec fn nanos_read(result: Result<Elapsed, String>) -> Result<nat, Seq<char>> {
    match result {
        Ok(elapsed) => Ok(elapsed@),
        Err(reason) => Err(reason@),
    }
}

/// Read a duration such as `30s`, `2m`, or `1h`.
pub fn parse_duration(value: &str) -> (result: Result<Elapsed, String>)
    ensures
        nanos_read(result) == duration_nanos(value@),
{
    let chars = text::chars_of(value);
    if !check_digits_lead(&chars) && add_spans(&chars) >= LIMIT {
        return Err(TOO_LONG.to_owned());
    }
    match human_duration(value) {
        Ok((secs, nanos)) => Ok(Elapsed::new(secs, nanos)),
        Err(reason) => Err(reason),
    }
}

} // verus!
