//! Time spans, and the notation settings use for them.

use crate::error::ConfigError;
use crate::text::{chars_of, join2, strip_suffix, suffix_off_is_suffix_on, without_suffix};
use vstd::prelude::*;

verus! {

/// A span of time, to the nanosecond.
#[derive(Clone, Copy, Debug, Eq, PartialEq, Structural)]
pub struct Duration {
    secs: u64,
    nanos: u32,
}

impl View for Duration {
    type V = nat;

    /// The length in nanoseconds.
    closed spec fn view(&self) -> nat {
        self.secs as nat * 1_000_000_000 + self.nanos as nat
    }
}

impl Duration {
    #[verifier::type_invariant]
    closed spec fn well_formed(self) -> bool {
        self.nanos < 1_000_000_000
    }

    pub fn from_secs(secs: u64) -> (duration: Duration)
        ensures
            duration@ == secs as nat * 1_000_000_000,
    {
        Duration { secs, nanos: 0 }
    }

    pub fn from_millis(millis: u64) -> (duration: Duration)
        ensures
            duration@ == millis as nat * 1_000_000,
    {
        Duration { secs: millis / 1000, nanos: (millis % 1000) as u32 * 1_000_000 }
    }

    /// A span from whole seconds and a fraction of a second in nanoseconds.
    pub fn from_parts(secs: u64, nanos: u32) -> (duration: Option<Duration>)
        ensures
            match duration {
                Some(duration) => nanos < 1_000_000_000 && duration@ == secs as nat * 1_000_000_000
                    + nanos as nat,
                None => nanos >= 1_000_000_000,
            },
    {
        if nanos < 1_000_000_000 {
            Some(Duration { secs, nanos })
        } else {
            None
        }
    }

    /// The length in nanoseconds, which leaves ample room in 128 bits.
    pub fn as_nanos(&self) -> (nanos: u128)
        ensures
            nanos == self@,
            self@ < 0x1_0000_0000_0000_0000 * 1_000_000_000,
    {
        proof {
            use_type_invariant(self);
        }
        self.secs as u128 * 1_000_000_000 + self.nanos as u128
    }

    pub fn is_zero(&self) -> (zero: bool)
        ensures
            zero == (self@ == 0),
    {
        self.secs == 0 && self.nanos == 0
    }
}

/// Why a text is no unsigned 64-bit number.
#[derive(Clone, Copy, Debug, Eq, PartialEq, Structural)]
pub enum NumberError {
    Empty,
    InvalidDigit,
    Overflow,
}

impl NumberError {
    /// The message of the error.
    pub open spec fn text(self) -> Seq<char> {
        match self {
            NumberError::Empty => "cannot parse integer from empty string"@,
            NumberError::InvalidDigit => "invalid digit found in string"@,
            NumberError::Overflow => "number too large to fit in target type"@,
        }
    }

    pub fn message(&self) -> (message: String)
        ensures
            message@ == self.text(),
    {
        match self {
            NumberError::Empty => "cannot parse integer from empty string".to_owned(),
            NumberError::InvalidDigit => "invalid digit found in string".to_owned(),
            NumberError::Overflow => "number too large to fit in target type".to_owned(),
        }
    }
}

/// The value of decimal digits, read from the left until the first digit that is none or that
/// leaves the range of 64 bits.
pub open spec fn digits_value(digits: Seq<char>) -> Result<nat, NumberError>
    decreases digits.len(),
{
    if digits.len() == 0 {
        Ok(0)
    } else {
        match digits_value(digits.drop_last()) {
            Err(error) => Err(error),
            Ok(value) => {
                let c = digits.last();
                if !('0' <= c <= '9') {
                    Err(NumberError::InvalidDigit)
                } else if value * 10 + (c as int - '0' as int) > u64::MAX {
                    Err(NumberError::Overflow)
                } else {
                    Ok((value * 10 + (c as int - '0' as int)) as nat)
                }
            },
        }
    }
}

/// The value of an unsigned number: decimal digits, optionally after a plus sign.
pub open spec fn number_value(text: Seq<char>) -> Result<nat, NumberError> {
    if text.len() == 0 {
        Err(NumberError::Empty)
    } else if text[0] != '+' {
        digits_value(text)
    } else if text.len() == 1 {
        Err(NumberError::InvalidDigit)
    } else {
        digits_value(text.skip(1))
    }
}

/// The digits read so far decide where they end in an error.
proof fn lemma_digits_prefix(digits: Seq<char>, n: int)
    requires
        0 <= n <= digits.len(),
        digits_value(digits.take(n)) is Err,
    ensures
        digits_value(digits) == digits_value(digits.take(n)),
    decreases digits.len() - n,
{
    if n == digits.len() {
        assert(digits.take(n) =~= digits);
    } else {
        assert(digits.take(n + 1).drop_last() =~= digits.take(n));
        lemma_digits_prefix(digits, n + 1);
    }
}

/// Reads an unsigned number.
pub fn parse_number(text: &str) -> (number: Result<u64, NumberError>)
    ensures
        match number {
            Ok(number) => number_value(text@) == Ok::<nat, NumberError>(number as nat),
            Err(error) => number_value(text@) == Err::<nat, NumberError>(error),
        },
{
    let chars: Vec<char> = chars_of(text);
    if chars.len() == 0 {
        return Err(NumberError::Empty);
    }
    let start: usize = if chars[0] == '+' {
        1
    } else {
        0
    };
    if start == chars.len() {
        return Err(NumberError::InvalidDigit);
    }
    let ghost digits = chars@.skip(start as int);
    assert(chars@.skip(0) =~= chars@);
    let mut value: u64 = 0;
    for i in start..chars.len()
        invariant
            digits == chars@.skip(start as int),
            start <= i <= chars@.len(),
            number_value(text@) == digits_value(digits),
            digits_value(digits.take(i - start)) == Ok::<nat, NumberError>(value as nat),
    {
        let c: char = chars[i];
        proof {
            assert(digits.take(i - start + 1).drop_last() =~= digits.take(i - start));
            assert(digits.take(i - start + 1).last() == c);
        }
        if !('0' <= c && c <= '9') {
            proof {
                lemma_digits_prefix(digits, i - start + 1);
            }
            return Err(NumberError::InvalidDigit);
        }
        let digit: u64 = c as u64 - '0' as u64;
        let next: Option<u64> = match value.checked_mul(10) {
            Some(tens) => tens.checked_add(digit),
            None => None,
        };
        match next {
            Some(next) => {
                value = next;
            },
            None => {
                proof {
                    lemma_digits_prefix(digits, i - start + 1);
                }
                return Err(NumberError::Overflow);
            },
        }
    }
    assert(digits.take(digits.len() as int) =~= digits);
    Ok(value)
}

/// A duration's number text and the milliseconds of its unit. `ms` is told from `s` and `m`.
pub open spec fn number_and_unit(text: Seq<char>) -> Option<(Seq<char>, u64)> {
    match without_suffix(text, "ms"@) {
        Some(number) => Some((number, 1)),
        None => match without_suffix(text, "s"@) {
            Some(number) => Some((number, 1_000)),
            None => match without_suffix(text, "m"@) {
                Some(number) => Some((number, 60_000)),
                None => match without_suffix(text, "h"@) {
                    Some(number) => Some((number, 3_600_000)),
                    None => None,
                },
            },
        },
    }
}

/// `number` units of `unit` milliseconds in milliseconds, at most what 64 bits hold.
pub open spec fn saturated_millis(number: nat, unit: u64) -> nat {
    if number * unit as nat > u64::MAX {
        u64::MAX as nat
    } else {
        number * unit as nat
    }
}

/// What a duration setting means: its length in nanoseconds, or the messages of its refusal.
pub open spec fn duration_setting(name: Seq<char>, value: Seq<char>) -> Result<
    nat,
    Seq<Seq<char>>,
> {
    match number_and_unit(value) {
        None => Err(seq![name + " must use ms, s, m, or h units"@]),
        Some((number, unit)) => match number_value(number) {
            Err(error) => Err(seq!["invalid "@ + name, error.text()]),
            Ok(number) => if saturated_millis(number, unit) == 0 {
                Err(seq![name + " must be greater than zero"@])
            } else {
                Ok(saturated_millis(number, unit) * 1_000_000)
            },
        },
    }
}

/// A duration setting that is accepted has a unit and is greater than zero.
pub proof fn accepted_durations_are_positive(name: Seq<char>, value: Seq<char>)
    ensures
        duration_setting(name, value) matches Ok(duration) ==> number_and_unit(value) is Some
            && duration > 0,
{
}

/// Reads the duration setting `name`: a positive number with its unit, one of `ms`, `s`, `m` and
/// `h`. Spans beyond what 64 bits of milliseconds hold count as that much.
pub fn parse_duration(name: &str, value: &str) -> (duration: Result<Duration, ConfigError>)
    ensures
        match duration {
            Ok(duration) => duration_setting(name@, value@) == Ok::<nat, Seq<Seq<char>>>(duration@),
            Err(error) => duration_setting(name@, value@) == Err::<nat, Seq<Seq<char>>>(error@),
        },
{
    let (number, unit): (&str, u64) = if let Some(number) = strip_suffix(value, "ms") {
        (number, 1)
    } else if let Some(number) = strip_suffix(value, "s") {
        (number, 1_000)
    } else if let Some(number) = strip_suffix(value, "m") {
        (number, 60_000)
    } else if let Some(number) = strip_suffix(value, "h") {
        (number, 3_600_000)
    } else {
        return Err(ConfigError::msg(join2(name, " must use ms, s, m, or h units")));
    };
    let number: u64 = match parse_number(number) {
        Ok(number) => number,
        Err(error) => {
            let cause = ConfigError::msg(error.message());
            let error_chain = cause.context(join2("invalid ", name));
            assert(error_chain@ =~= seq!["invalid "@ + name@, error.text()]);
            return Err(error_chain);
        },
    };
    let millis: u64 = match number.checked_mul(unit) {
        Some(millis) => millis,
        None => u64::MAX,
    };
    let duration = Duration::from_millis(millis);
    if duration.is_zero() {
        return Err(ConfigError::msg(join2(name, " must be greater than zero")));
    }
    Ok(duration)
}

// ---------------------------------------------------------------------------------------------
// Laws
// ---------------------------------------------------------------------------------------------

/// Digits are read from the left: each one multiplies what was read by ten and adds itself. What
/// leaves the range of 64 bits, or is no digit, is an error, and the first error stays.
pub proof fn digits_are_decimal(digits: Seq<char>, c: char)
    ensures
        digits_value(Seq::<char>::empty()) == Ok::<nat, NumberError>(0),
        digits_value(digits) matches Err(error) ==> digits_value(digits.push(c)) == Err::<
            nat,
            NumberError,
        >(error),
        digits_value(digits) matches Ok(value) ==> {
            let code = c as int;
            let next = 10 * value + (code - 0x30);
            &&& !(0x30 <= code <= 0x39) ==> digits_value(digits.push(c)) == Err::<nat, NumberError>(
                NumberError::InvalidDigit,
            )
            &&& 0x30 <= code <= 0x39 && next >= 0x1_0000_0000_0000_0000 ==> digits_value(
                digits.push(c),
            ) == Err::<nat, NumberError>(NumberError::Overflow)
            &&& 0x30 <= code <= 0x39 && next < 0x1_0000_0000_0000_0000 ==> digits_value(
                digits.push(c),
            ) == Ok::<nat, NumberError>(next as nat)
        },
{
    assert(digits.push(c).drop_last() =~= digits);
}

/// A number is digits, at least one, with or without a plus sign in front.
pub proof fn numbers_are_digits(digits: Seq<char>, sign: char)
    ensures
        number_value(Seq::<char>::empty()) == Err::<nat, NumberError>(NumberError::Empty),
        sign as int == 0x2b ==> number_value(seq![sign]) == Err::<nat, NumberError>(
            NumberError::InvalidDigit,
        ),
        sign as int == 0x2b && digits.len() > 0 ==> number_value(seq![sign] + digits)
            == digits_value(digits),
        digits.len() > 0 && digits[0] as int != 0x2b ==> number_value(digits) == digits_value(digits),
{
    assert((seq![sign] + digits).skip(1) =~= digits);
}

/// The errors of numbers, in words.
pub proof fn number_errors_in_words()
    ensures
        NumberError::Empty.text() == "cannot parse integer from empty string"@,
        NumberError::InvalidDigit.text() == "invalid digit found in string"@,
        NumberError::Overflow.text() == "number too large to fit in target type"@,
{
}

/// The unit of a duration is what it ends in: milliseconds in `ms`, seconds in `s`, minutes in `m`,
/// hours in `h`. What ends in none of these has no unit.
pub proof fn durations_end_in_their_unit(number: Seq<char>, text: Seq<char>)
    ensures
        number_and_unit(number + "ms"@) == Some((number, 1u64)),
        number.len() == 0 || number.last() != 'm' ==> number_and_unit(number + "s"@) == Some(
            (number, 1_000u64),
        ),
        number_and_unit(number + "m"@) == Some((number, 60_000u64)),
        number_and_unit(number + "h"@) == Some((number, 3_600_000u64)),
        text.len() == 0 || (text.last() != 's' && text.last() != 'm' && text.last() != 'h')
            ==> number_and_unit(text) is None,
{
    reveal_strlit("ms");
    reveal_strlit("s");
    reveal_strlit("m");
    reveal_strlit("h");
    lemma_unit(number + "ms"@);
    lemma_unit(number + "s"@);
    lemma_unit(number + "m"@);
    lemma_unit(number + "h"@);
    lemma_unit(text);
    suffix_off_is_suffix_on(number + "ms"@, "ms"@, number);
    suffix_off_is_suffix_on(number + "s"@, "s"@, number);
    suffix_off_is_suffix_on(number + "m"@, "m"@, number);
    suffix_off_is_suffix_on(number + "h"@, "h"@, number);
    assert((number + "ms"@).last() == 's');
    assert((number + "s"@).last() == 's');
    assert((number + "m"@).last() == 'm');
    assert((number + "h"@).last() == 'h');
    if number.len() > 0 {
        assert((number + "s"@)[number.len() - 1] == number.last());
    }
}

/// Taking a unit off takes its characters off the end.
proof fn lemma_unit(text: Seq<char>)
    ensures
        without_suffix(text, "ms"@) is Some ==> text.len() >= 2 && text.last() == 's' && text[text.len()
            - 2] == 'm',
        without_suffix(text, "s"@) is Some ==> text.len() >= 1 && text.last() == 's',
        without_suffix(text, "m"@) is Some ==> text.len() >= 1 && text.last() == 'm',
        without_suffix(text, "h"@) is Some ==> text.len() >= 1 && text.last() == 'h',
{
    reveal_strlit("ms");
    reveal_strlit("s");
    reveal_strlit("m");
    reveal_strlit("h");
    if let Some(rest) = without_suffix(text, "ms"@) {
        suffix_off_is_suffix_on(text, "ms"@, rest);
    }
    if let Some(rest) = without_suffix(text, "s"@) {
        suffix_off_is_suffix_on(text, "s"@, rest);
    }
    if let Some(rest) = without_suffix(text, "m"@) {
        suffix_off_is_suffix_on(text, "m"@, rest);
    }
    if let Some(rest) = without_suffix(text, "h"@) {
        suffix_off_is_suffix_on(text, "h"@, rest);
    }
}

/// Whether `duration`, in nanoseconds, is `number` units of `unit` milliseconds, or the longest span
/// if that is longer.
pub open spec fn lasts(number: nat, unit: u64, duration: nat) -> bool {
    if number * (unit as nat) < 0x1_0000_0000_0000_0000 {
        duration == number * (unit as nat) * 1_000_000
    } else {
        duration == 0xffff_ffff_ffff_ffff * 1_000_000
    }
}

/// A duration setting is its number of its units; zero is refused, and so is what has no unit or no
/// number, in words that give the name of the setting.
pub proof fn durations_are_numbers_of_units(name: Seq<char>, value: Seq<char>)
    ensures
        number_and_unit(value) is None ==> duration_setting(name, value) == Err::<
            nat,
            Seq<Seq<char>>,
        >(seq![name + " must use ms, s, m, or h units"@]),
        number_and_unit(value) matches Some((number, unit)) ==> {
            &&& number_value(number) matches Err(error) ==> duration_setting(name, value) == Err::<
                nat,
                Seq<Seq<char>>,
            >(seq!["invalid "@ + name, error.text()])
            &&& number_value(number) == Ok::<nat, NumberError>(0) ==> duration_setting(name, value)
                == Err::<nat, Seq<Seq<char>>>(seq![name + " must be greater than zero"@])
            &&& number_value(number) matches Ok(count) ==> count > 0 && unit > 0 ==> (
            duration_setting(name, value) matches Ok(duration) && lasts(count, unit, duration))
        },
{
    if let Some((number, unit)) = number_and_unit(value) {
        if let Ok(count) = number_value(number) {
            if count > 0 && unit > 0 {
                assert(count * (unit as nat) > 0) by (nonlinear_arith)
                    requires
                        count > 0,
                        unit > 0,
                ;
            } else if count == 0 {
                assert(count * (unit as nat) == 0) by (nonlinear_arith)
                    requires
                        count == 0,
                ;
            }
        }
    }
}

} // verus!
