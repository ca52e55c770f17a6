//! What the bridge forwards to the message bus.

use crate::logger::hex_char;
use crate::protocol::{PFPRequest, RequestView};
use crate::protocol_parser::{push_reading, push_reading_of};
use vstd::prelude::*;
use vstd::string::StringExecFns;

verus! {

/// A number in decimal, without leading zeros.
pub open spec fn decimal(n: nat) -> Seq<char>
    decreases n,
{
    if n < 10 {
        seq![hex_char(n as int)]
    } else {
        decimal(n / 10).push(hex_char((n % 10) as int))
    }
}

/// The line that reports a reading.
pub open spec fn reading_line(device_serial: u32, intensity: u32) -> Seq<char> {
    "telegraf serial="@ + decimal(device_serial as nat) + ",intensity="@ + decimal(
        intensity as nat,
    )
}

/// What a request makes the bridge publish: the line of its reading where
/// it is a data push, nothing otherwise.
pub open spec fn publication_of(request: RequestView) -> Option<Seq<char>> {
    match push_reading_of(request) {
        Some((device_serial, intensity)) => Some(reading_line(device_serial, intensity)),
        None => None,
    }
}

/// The digits of a number, least significant first, read as a text from the
/// last to the first.
spec fn digits_text(digits: Seq<u8>) -> Seq<char> {
    Seq::new(digits.len(), |i: int| hex_char(digits[digits.len() - 1 - i] as int))
}

/// The decimal digit of a value below ten as a string.
fn decimal_digit(digit: u8) -> (text: &'static str)
    requires
        digit < 10,
    ensures
        text@ == seq![hex_char(digit as int)],
{
    proof {
        reveal_strlit("0");
        reveal_strlit("1");
        reveal_strlit("2");
        reveal_strlit("3");
        reveal_strlit("4");
        reveal_strlit("5");
        reveal_strlit("6");
        reveal_strlit("7");
        reveal_strlit("8");
        reveal_strlit("9");
    }
    let text = match digit {
        0 => "0",
        1 => "1",
        2 => "2",
        3 => "3",
        4 => "4",
        5 => "5",
        6 => "6",
        7 => "7",
        8 => "8",
        _ => "9",
    };
    assert(text@ =~= seq![hex_char(digit as int)]);
    text
}

/// Appends `n` in decimal to `text`.
fn append_decimal(text: &mut String, n: u32)
    ensures
        final(text)@ == old(text)@ + decimal(n as nat),
{
    let mut digits: Vec<u8> = Vec::new();
    let mut rest: u32 = n;
    while rest >= 10
        invariant
            decimal(n as nat) == decimal(rest as nat) + digits_text(digits@),
            forall|k: int| 0 <= k < digits@.len() ==> digits@[k] < 10,
        decreases rest,
    {
        let ghost before = digits@;
        digits.push((rest % 10) as u8);
        proof {
            assert(decimal(rest as nat) == decimal((rest / 10) as nat).push(
                hex_char((rest % 10) as int),
            ));
            assert(decimal((rest / 10) as nat).push(hex_char((rest % 10) as int)) + digits_text(
                before,
            ) =~= decimal((rest / 10) as nat) + digits_text(digits@));
        }
        rest = rest / 10;
    }
    let ghost before = digits@;
    digits.push(rest as u8);
    assert(decimal(n as nat) =~= digits_text(digits@)) by {
        assert(decimal(rest as nat) =~= seq![hex_char(rest as int)]);
        assert(seq![hex_char(rest as int)] + digits_text(before) =~= digits_text(digits@));
    }
    let mut i: usize = digits.len();
    while i > 0
        invariant
            i <= digits@.len(),
            forall|k: int| 0 <= k < digits@.len() ==> digits@[k] < 10,
            text@ == old(text)@ + digits_text(digits@).take(digits@.len() - i),
        decreases i,
    {
        i -= 1;
        let ghost so_far = text@;
        text.append(decimal_digit(digits[i]));
        assert(text@ =~= old(text)@ + digits_text(digits@).take(digits@.len() - i)) by {
            let all = digits_text(digits@);
            assert(all.take(digits@.len() - i) =~= all.take(digits@.len() - i - 1).push(
                hex_char(digits@[i as int] as int),
            ));
        }
    }
    assert(digits_text(digits@).take(digits@.len() as int) =~= digits_text(digits@));
}

/// The line that reports that the device `device_serial` measured
/// `intensity`.
pub fn telegraf_line(device_serial: u32, intensity: u32) -> (line: String)
    ensures
        line@ == reading_line(device_serial, intensity),
{
    let mut line = String::from_str("telegraf serial=");
    append_decimal(&mut line, device_serial);
    line.append(",intensity=");
    append_decimal(&mut line, intensity);
    line
}

/// What the bridge publishes for a request: the line of its reading where
/// it is a data push, nothing otherwise.
pub fn publication(request: &PFPRequest) -> (line: Option<String>)
    ensures
        line is Some <==> publication_of(request@) is Some,
        line matches Some(text) ==> publication_of(request@) == Some(text@),
{
    match push_reading(request) {
        Some((device_serial, intensity)) => Some(telegraf_line(device_serial, intensity)),
        None => None,
    }
}

} // verus!
