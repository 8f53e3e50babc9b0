//! Text for durations, memory sizes and CPU figures.

use std::time::Duration;
use vstd::prelude::*;
use vstd::string::StringExecFns;

verus! {

/// The character of a decimal digit.
pub open spec fn digit(d: nat) -> char
    recommends
        d < 10,
{
    if d == 0 {
        '0'
    } else if d == 1 {
        '1'
    } else if d == 2 {
        '2'
    } else if d == 3 {
        '3'
    } else if d == 4 {
        '4'
    } else if d == 5 {
        '5'
    } else if d == 6 {
        '6'
    } else if d == 7 {
        '7'
    } else if d == 8 {
        '8'
    } else {
        '9'
    }
}

/// The decimal numeral of `n`, without leading zeros.
pub open spec fn decimal(n: nat) -> Seq<char>
    decreases n,
{
    if n < 10 {
        seq![digit(n)]
    } else {
        decimal(n / 10).push(digit(n % 10))
    }
}

/// The numeral of `n` with at least two digits.
pub open spec fn two_digits(n: nat) -> Seq<char> {
    if n < 10 {
        seq!['0', digit(n)]
    } else {
        decimal(n)
    }
}

/// A size in bytes in the largest unit, of B, KB, MB and GB, in which it is
/// under 9999; whole units only, rounded down.
pub open spec fn memory_text(bytes: nat) -> Seq<char> {
    if bytes < 9999 {
        decimal(bytes) + seq!['B']
    } else if bytes / 1024 < 9999 {
        decimal(bytes / 1024) + seq!['K', 'B']
    } else if bytes / 1048576 < 9999 {
        decimal(bytes / 1048576) + seq!['M', 'B']
    } else {
        decimal(bytes / 1073741824) + seq!['G', 'B']
    }
}

/// A time: in milliseconds while it is under 9999 of them, then in whole
/// seconds, with the minutes apart once there is one.
pub open spec fn duration_text(millis: nat) -> Seq<char> {
    let secs = millis / 1000;
    if millis < 9999 {
        decimal(millis) + seq!['m', 's']
    } else if secs / 60 > 0 {
        decimal(secs / 60) + seq!['m', ' '] + decimal(secs % 60) + seq!['s']
    } else {
        decimal(secs % 60) + seq!['s']
    }
}

/// The whole milliseconds in a `Duration`, as `Duration::as_millis` gives them.
pub uninterp spec fn duration_millis(dur: Duration) -> u128;

/// Calls `Duration::as_millis`, which gives the number of whole milliseconds
/// that the duration holds.
#[verifier::external_body]
pub(crate) fn as_millis(dur: &Duration) -> (millis: u128)
    ensures
        millis == duration_millis(*dur),
{
    dur.as_millis()
}

fn digit_str(d: u8) -> (s: &'static str)
    requires
        d < 10,
    ensures
        s@ == seq![digit(d as nat)],
{
    proof {
        reveal_strlit("0");
        reveal_strlit("1");
        reveal_strlit("2");
        reveal_strlit("3");
        reveal_strlit("4");
        reveal_strlit("5");
        reveal_strlit("6");
        reveal_strlit("7");
        reveal_strlit("8");
        reveal_strlit("9");
    }
    let s = match d {
        0 => "0",
        1 => "1",
        2 => "2",
        3 => "3",
        4 => "4",
        5 => "5",
        6 => "6",
        7 => "7",
        8 => "8",
        _ => "9",
    };
    assert(s@ =~= seq![digit(d as nat)]);
    s
}

/// Writes the decimal numeral of `n` at the end of `text`.
pub fn push_decimal(text: &mut String, n: u128)
    ensures
        final(text)@ == old(text)@ + decimal(n as nat),
    decreases n,
{
    if n >= 10 {
        push_decimal(text, n / 10);
    }
    text.append(digit_str((n % 10) as u8));
    assert(text@ =~= old(text)@ + decimal(n as nat));
}

/// Writes the numeral of `n` at the end of `text`, with at least two digits.
pub fn push_two_digits(text: &mut String, n: u128)
    ensures
        final(text)@ == old(text)@ + two_digits(n as nat),
{
    if n < 10 {
        text.append(digit_str(0));
    }
    push_decimal(text, n);
    assert(text@ =~= old(text)@ + two_digits(n as nat));
}

/// The text of a size in bytes.
pub fn format_memory(bytes: u64) -> (text: String)
    ensures
        text@ == memory_text(bytes as nat),
{
    proof {
        reveal_strlit("B");
        reveal_strlit("KB");
        reveal_strlit("MB");
        reveal_strlit("GB");
    }
    let mut text = String::new();
    if bytes < 9999 {
        push_decimal(&mut text, bytes as u128);
        text.append("B");
    } else if bytes / 1024 < 9999 {
        push_decimal(&mut text, (bytes / 1024) as u128);
        text.append("KB");
    } else if bytes / (1024 * 1024) < 9999 {
        push_decimal(&mut text, (bytes / (1024 * 1024)) as u128);
        text.append("MB");
    } else {
        push_decimal(&mut text, (bytes / (1024 * 1024 * 1024)) as u128);
        text.append("GB");
    }
    assert(text@ =~= memory_text(bytes as nat));
    text
}

/// The text of a time of `millis` milliseconds.
pub fn format_millis(millis: u128) -> (text: String)
    ensures
        text@ == duration_text(millis as nat),
{
    proof {
        reveal_strlit("ms");
        reveal_strlit("m ");
        reveal_strlit("s");
    }
    let mut text = String::new();
    if millis < 9999 {
        push_decimal(&mut text, millis);
        text.append("ms");
    } else {
        let secs = millis / 1000;
        let minutes = secs / 60;
        let seconds = secs % 60;
        if minutes > 0 {
            push_decimal(&mut text, minutes);
            text.append("m ");
            push_decimal(&mut text, seconds);
            text.append("s");
        } else {
            push_decimal(&mut text, seconds);
            text.append("s");
        }
    }
    assert(text@ =~= duration_text(millis as nat));
    text
}

/// The text of a time.
pub fn format_duration(dur: Duration) -> (text: String)
    ensures
        text@ == duration_text(duration_millis(dur) as nat),
{
    format_millis(as_millis(&dur))
}

} // verus!
