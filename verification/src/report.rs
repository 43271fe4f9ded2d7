//! The lines that the monitor prints.
//!
//! Every function here only builds text; printing it is the caller's
//! business. A device name that is not valid UTF-8 is shown as `ERROR`.

use vstd::prelude::*;
use vstd::utf8::{decode_utf8, encode_utf8, encode_utf8_decode_utf8, valid_utf8};

verus! {

/// The character of a decimal digit.
pub open spec fn digit(d: nat) -> char {
    if d == 0 {
        '0'
    } else if d == 1 {
        '1'
    } else if d == 2 {
        '2'
    } else if d == 3 {
        '3'
    } else if d == 4 {
        '4'
    } else if d == 5 {
        '5'
    } else if d == 6 {
        '6'
    } else if d == 7 {
        '7'
    } else if d == 8 {
        '8'
    } else {
        '9'
    }
}

/// Decimal digits of a natural number, without leading zeros.
pub open spec fn digits(n: nat) -> Seq<char>
    decreases n,
{
    if n < 10 {
        seq![digit(n)]
    } else {
        digits(n / 10).push(digit(n % 10))
    }
}

/// Decimal text of an integer, with a minus sign where it is negative.
pub open spec fn decimal(value: int) -> Seq<char> {
    if value < 0 {
        seq!['-'] + digits((-value) as nat)
    } else {
        digits(value as nat)
    }
}

/// What a device name is shown as: its text where the bytes are valid
/// UTF-8, the word `ERROR` where they are not.
pub open spec fn name_text(name: Seq<u8>) -> Seq<char> {
    if valid_utf8(name) {
        decode_utf8(name)
    } else {
        "ERROR"@
    }
}

/// Text of the line that announces a discovered device.
pub open spec fn discovery_text(index: nat, name: Seq<u8>) -> Seq<char> {
    "device "@ + digits(index) + ": "@ + name_text(name)
}

/// Text of the line that reports one accepted event.
pub open spec fn live_text(name: Seq<u8>, latest: int, average: int) -> Seq<char> {
    name_text(name) + ": latest "@ + decimal(latest) + " Hz, average "@ + decimal(average) + " Hz"@
}

/// Text of the line that sums a device up at shutdown.
pub open spec fn summary_text(name: Seq<u8>, average: int) -> Seq<char> {
    "average for "@ + name_text(name) + ": "@ + decimal(average) + " Hz"@
}

/// Trusted: `core::str::from_utf8`, which returns the bytes as a string
/// slice exactly when they are valid UTF-8, and an error otherwise. The
/// slice, where there is one, is made of the given bytes: they are the
/// UTF-8 encoding of its text.
#[verifier::external_body]
fn utf8_text(bytes: &[u8]) -> (text: Option<&str>)
    ensures
        text is Some <==> valid_utf8(bytes@),
        text matches Some(s) ==> encode_utf8(s@) == bytes@,
{
    core::str::from_utf8(bytes).ok()
}

/// The one-character text of a decimal digit.
fn digit_str(d: u64) -> (text: &'static str)
    requires
        d < 10,
    ensures
        text@ == seq![digit(d as nat)],
{
    proof {
        reveal_strlit("0");
        reveal_strlit("1");
        reveal_strlit("2");
        reveal_strlit("3");
        reveal_strlit("4");
        reveal_strlit("5");
        reveal_strlit("6");
        reveal_strlit("7");
        reveal_strlit("8");
        reveal_strlit("9");
    }
    let text = if d == 0 {
        "0"
    } else if d == 1 {
        "1"
    } else if d == 2 {
        "2"
    } else if d == 3 {
        "3"
    } else if d == 4 {
        "4"
    } else if d == 5 {
        "5"
    } else if d == 6 {
        "6"
    } else if d == 7 {
        "7"
    } else if d == 8 {
        "8"
    } else {
        "9"
    };
    text
}

/// Appends the decimal digits of `n` to `out`.
pub fn push_digits(out: &mut String, n: u64)
    ensures
        final(out)@ == old(out)@ + digits(n as nat),
    decreases n,
{
    if n >= 10 {
        push_digits(out, n / 10);
    }
    out.append(digit_str(n % 10));
}

/// Appends the decimal text of `value` to `out`.
pub fn push_decimal(out: &mut String, value: i64)
    ensures
        final(out)@ == old(out)@ + decimal(value as int),
{
    if value < 0 {
        proof {
            reveal_strlit("-");
        }
        out.append("-");
        let magnitude = (-(value as i128)) as u64;
        push_digits(out, magnitude);
    } else {
        push_digits(out, value as u64);
    }
}

/// Appends what the device name is shown as to `out`.
pub fn push_name(out: &mut String, name: &[u8])
    ensures
        final(out)@ == old(out)@ + name_text(name@),
{
    match utf8_text(name) {
        Some(text) => {
            proof {
                encode_utf8_decode_utf8(text@);
            }
            out.append(text)
        },
        None => out.append("ERROR"),
    }
}

/// What a device name is shown as.
pub fn render_name(name: &[u8]) -> (text: String)
    ensures
        text@ == name_text(name@),
{
    let mut text = String::new();
    push_name(&mut text, name);
    text
}

/// The line that announces the device found at candidate `index`:
/// `device <index>: <name>`.
pub fn discovery_line(index: usize, name: &[u8]) -> (line: String)
    ensures
        line@ == discovery_text(index as nat, name@),
{
    let mut line = String::from_str("device ");
    push_digits(&mut line, index as u64);
    line.append(": ");
    push_name(&mut line, name);
    line
}

/// The line that reports one accepted event:
/// `<name>: latest <latest> Hz, average <average> Hz`.
pub fn live_line(name: &[u8], latest: i32, average: i32) -> (line: String)
    ensures
        line@ == live_text(name@, latest as int, average as int),
{
    let mut line = String::new();
    push_name(&mut line, name);
    line.append(": latest ");
    push_decimal(&mut line, latest as i64);
    line.append(" Hz, average ");
    push_decimal(&mut line, average as i64);
    line.append(" Hz");
    line
}

/// The line that sums a device up at shutdown:
/// `average for <name>: <average> Hz`.
pub fn summary_line(name: &[u8], average: i32) -> (line: String)
    ensures
        line@ == summary_text(name@, average as int),
{
    let mut line = String::from_str("average for ");
    push_name(&mut line, name);
    line.append(": ");
    push_decimal(&mut line, average as i64);
    line.append(" Hz");
    line
}

} // verus!
