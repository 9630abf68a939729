//! The textual form of moments and events.
use crate::clock::{Duration, SECS_PER_HOUR, SECS_PER_MINUTE};
use crate::event::DailyEvent;
use crate::moment::Moment;
use vstd::prelude::*;
use vstd::string::StringExecFns;

verus! {

/// The character of a decimal digit.
pub open spec fn digit(d: int) -> char {
    if d == 0 {
        '0'
    } else if d == 1 {
        '1'
    } else if d == 2 {
        '2'
    } else if d == 3 {
        '3'
    } else if d == 4 {
        '4'
    } else if d == 5 {
        '5'
    } else if d == 6 {
        '6'
    } else if d == 7 {
        '7'
    } else if d == 8 {
        '8'
    } else {
        '9'
    }
}

/// The decimal digits of a number that is not negative, without leading
/// zeros.
pub open spec fn decimal(n: int) -> Seq<char>
    decreases n,
{
    if n < 10 {
        seq![digit(n)]
    } else {
        decimal(n / 10).push(digit(n % 10))
    }
}

/// The decimal form of a number, with a minus sign where it is negative.
pub open spec fn integer_text(n: int) -> Seq<char> {
    if n < 0 {
        seq!['-'] + decimal(-n)
    } else {
        decimal(n)
    }
}

/// The decimal form of a number, filled up with a zero in front to two
/// characters.
pub open spec fn two_digit_text(n: int) -> Seq<char> {
    if 0 <= n < 10 {
        seq!['0'] + decimal(n)
    } else {
        integer_text(n)
    }
}

/// The quotient of `a` by a positive `b`, rounded towards zero.
pub open spec fn quotient(a: int, b: int) -> int {
    if a < 0 {
        -((-a) / b)
    } else {
        a / b
    }
}

/// What is left of `a` after the quotient by a positive `b`; negative
/// where `a` is.
pub open spec fn remainder(a: int, b: int) -> int {
    a - b * quotient(a, b)
}

/// The text of a span as a reading of a clock: the whole hours, then the
/// minutes beyond them and the seconds beyond these, each with two digits
/// at least and with colons in between.
pub open spec fn clock_text(d: Duration) -> Seq<char> {
    let seconds = d.whole_seconds();
    two_digit_text(quotient(seconds, SECS_PER_HOUR as int)) + seq![':'] + two_digit_text(
        remainder(quotient(seconds, SECS_PER_MINUTE as int), 60),
    ) + seq![':'] + two_digit_text(remainder(seconds, 60))
}

/// The text of a moment: the reading of the clock, marked where it is one
/// of UTC.
pub open spec fn moment_text(moment: Moment) -> Seq<char> {
    match moment {
        Moment::LocalTime(offset) => clock_text(offset),
        Moment::UtcTime(offset) => clock_text(offset) + " (UTC)"@,
    }
}

/// The text of an event: its kind, then its moments, or the width of its
/// window in seconds.
pub open spec fn event_text<F>(event: DailyEvent<F>) -> Seq<char> {
    match event {
        DailyEvent::Fixed(_, t) => "Fixed "@ + moment_text(t),
        DailyEvent::Fuzzy(_, b, a) => "Fuzzy "@ + moment_text(b) + " ~ "@ + moment_text(a),
        DailyEvent::ByClosure(_, _, variance) => "ByClosure ~"@ + integer_text(
            variance.whole_seconds(),
        ) + "s"@,
    }
}

/// Appends the character of the digit `d`.
fn push_digit(text: &mut String, d: u64)
    requires
        d < 10,
    ensures
        final(text)@ == old(text)@.push(digit(d as int)),
{
    proof {
        reveal_strlit("0");
        reveal_strlit("1");
        reveal_strlit("2");
        reveal_strlit("3");
        reveal_strlit("4");
        reveal_strlit("5");
        reveal_strlit("6");
        reveal_strlit("7");
        reveal_strlit("8");
        reveal_strlit("9");
    }
    let ghost before = text@;
    if d == 0 {
        text.append("0");
    } else if d == 1 {
        text.append("1");
    } else if d == 2 {
        text.append("2");
    } else if d == 3 {
        text.append("3");
    } else if d == 4 {
        text.append("4");
    } else if d == 5 {
        text.append("5");
    } else if d == 6 {
        text.append("6");
    } else if d == 7 {
        text.append("7");
    } else if d == 8 {
        text.append("8");
    } else {
        text.append("9");
    }
    assert(text@ =~= before.push(digit(d as int)));
}

/// Appends the decimal digits of `n`.
fn push_decimal(text: &mut String, n: u64)
    ensures
        final(text)@ == old(text)@ + decimal(n as int),
    decreases n,
{
    let ghost before = text@;
    if n < 10 {
        push_digit(text, n);
    } else {
        push_decimal(text, n / 10);
        push_digit(text, n % 10);
    }
    assert(text@ =~= before + decimal(n as int));
}

/// Appends the decimal form of `n`.
fn push_integer(text: &mut String, n: i64)
    ensures
        final(text)@ == old(text)@ + integer_text(n as int),
{
    let ghost before = text@;
    if n < 0 {
        proof {
            reveal_strlit("-");
        }
        text.append("-");
        assert(text@ =~= before + seq!['-']);
        let magnitude: u64 = (-(n + 1)) as u64 + 1;
        push_decimal(text, magnitude);
    } else {
        push_decimal(text, n as u64);
    }
    assert(text@ =~= before + integer_text(n as int));
}

/// Appends the decimal form of `n`, filled up to two characters.
fn push_two_digits(text: &mut String, n: i64)
    ensures
        final(text)@ == old(text)@ + two_digit_text(n as int),
{
    let ghost before = text@;
    if 0 <= n && n < 10 {
        proof {
            reveal_strlit("0");
        }
        text.append("0");
        assert(text@ =~= before + seq!['0']);
        push_decimal(text, n as u64);
    } else {
        push_integer(text, n);
    }
    assert(text@ =~= before + two_digit_text(n as int));
}

/// The hours, the minutes beyond them and the seconds beyond these in a
/// number of seconds.
fn clock_fields(seconds: i64) -> (fields: (i64, i64, i64))
    ensures
        fields.0 == quotient(seconds as int, SECS_PER_HOUR as int),
        fields.1 == remainder(quotient(seconds as int, SECS_PER_MINUTE as int), 60),
        fields.2 == remainder(seconds as int, 60),
{
    (seconds / SECS_PER_HOUR, (seconds / SECS_PER_MINUTE) % 60, seconds % 60)
}

/// Appends the text of a span as a reading of a clock.
fn push_clock(text: &mut String, duration: &Duration)
    ensures
        final(text)@ == old(text)@ + clock_text(*duration),
{
    let ghost before = text@;
    let (hours, minutes, seconds) = clock_fields(duration.num_seconds());
    proof {
        reveal_strlit(":");
    }
    push_two_digits(text, hours);
    text.append(":");
    push_two_digits(text, minutes);
    text.append(":");
    push_two_digits(text, seconds);
    assert(text@ =~= before + clock_text(*duration));
}

/// Appends the text of a moment.
fn push_moment(text: &mut String, moment: &Moment)
    ensures
        final(text)@ == old(text)@ + moment_text(*moment),
{
    let ghost before = text@;
    match moment {
        Moment::LocalTime(d) => {
            push_clock(text, d);
        },
        Moment::UtcTime(d) => {
            push_clock(text, d);
            text.append(" (UTC)");
        },
    }
    assert(text@ =~= before + moment_text(*moment));
}

impl Moment {
    /// The moment as text: the reading of the clock, marked where it is
    /// one of UTC.
    pub fn describe(&self) -> (text: String)
        ensures
            text@ == moment_text(*self),
    {
        let mut text = String::new();
        push_moment(&mut text, self);
        assert(text@ =~= moment_text(*self));
        text
    }
}

impl<F> DailyEvent<F> {
    /// The event as text: its kind, then its moments, or the width of its
    /// window in seconds.
    pub fn describe(&self) -> (text: String)
        ensures
            text@ == event_text(*self),
    {
        let mut text = String::new();
        match self {
            DailyEvent::Fixed(_, t) => {
                text.append("Fixed ");
                push_moment(&mut text, t);
            },
            DailyEvent::Fuzzy(_, b, a) => {
                text.append("Fuzzy ");
                push_moment(&mut text, b);
                text.append(" ~ ");
                push_moment(&mut text, a);
            },
            DailyEvent::ByClosure(_, _, variance) => {
                text.append("ByClosure ~");
                push_integer(&mut text, variance.num_seconds());
                text.append("s");
            },
        }
        assert(text@ =~= event_text(*self));
        text
    }
}

} // verus!
