//! Rendering of byte strings for log lines.

use vstd::prelude::*;
use vstd::string::StringExecFns;

verus! {

/// The lower-case hexadecimal digit of a value below sixteen.
pub open spec fn hex_char(nibble: int) -> char {
    if nibble == 0 {
        '0'
    } else if nibble == 1 {
        '1'
    } else if nibble == 2 {
        '2'
    } else if nibble == 3 {
        '3'
    } else if nibble == 4 {
        '4'
    } else if nibble == 5 {
        '5'
    } else if nibble == 6 {
        '6'
    } else if nibble == 7 {
        '7'
    } else if nibble == 8 {
        '8'
    } else if nibble == 9 {
        '9'
    } else if nibble == 10 {
        'a'
    } else if nibble == 11 {
        'b'
    } else if nibble == 12 {
        'c'
    } else if nibble == 13 {
        'd'
    } else if nibble == 14 {
        'e'
    } else {
        'f'
    }
}

/// One byte as `0x` and two hexadecimal digits.
pub open spec fn hex_of_byte(byte: u8) -> Seq<char> {
    seq!['0', 'x', hex_char(byte as int / 16), hex_char(byte as int % 16)]
}

/// A byte string as its bytes in hexadecimal, separated by commas.
pub open spec fn hex_of(bytes: Seq<u8>) -> Seq<char>
    decreases bytes.len(),
{
    if bytes.len() == 0 {
        Seq::empty()
    } else if bytes.len() == 1 {
        hex_of_byte(bytes[0])
    } else {
        hex_of(bytes.drop_last()) + seq![','] + hex_of_byte(bytes.last())
    }
}

/// The hexadecimal digit of `nibble` as a string.
fn hex_digit(nibble: u8) -> (digit: &'static str)
    requires
        nibble < 16,
    ensures
        digit@ == seq![hex_char(nibble as int)],
{
    proof {
        reveal_strlit("0");
        reveal_strlit("1");
        reveal_strlit("2");
        reveal_strlit("3");
        reveal_strlit("4");
        reveal_strlit("5");
        reveal_strlit("6");
        reveal_strlit("7");
        reveal_strlit("8");
        reveal_strlit("9");
        reveal_strlit("a");
        reveal_strlit("b");
        reveal_strlit("c");
        reveal_strlit("d");
        reveal_strlit("e");
        reveal_strlit("f");
    }
    let digit = match nibble {
        0 => "0",
        1 => "1",
        2 => "2",
        3 => "3",
        4 => "4",
        5 => "5",
        6 => "6",
        7 => "7",
        8 => "8",
        9 => "9",
        10 => "a",
        11 => "b",
        12 => "c",
        13 => "d",
        14 => "e",
        _ => "f",
    };
    assert(digit@ =~= seq![hex_char(nibble as int)]);
    digit
}

/// Renders a byte string for a log line: each byte as `0x` and two
/// lower-case hexadecimal digits, the bytes separated by commas.
pub fn slice_to_hex(slice: &[u8]) -> (text: String)
    ensures
        text@ == hex_of(slice@),
{
    let mut text = String::new();
    let mut i: usize = 0;
    while i < slice.len()
        invariant
            i <= slice@.len(),
            text@ == hex_of(slice@.take(i as int)),
        decreases slice@.len() - i,
    {
        let byte = slice[i];
        let ghost before = text@;
        if i > 0 {
            text.append(",");
        }
        text.append("0x");
        text.append(hex_digit(byte / 16));
        text.append(hex_digit(byte % 16));
        proof {
            reveal_strlit(",");
            reveal_strlit("0x");
            let done = slice@.take(i + 1);
            assert(done.drop_last() =~= slice@.take(i as int));
            assert(done.last() == byte);
            if i > 0 {
                assert(text@ =~= before + seq![','] + hex_of_byte(byte));
            } else {
                assert(text@ =~= hex_of_byte(byte));
                assert(done[0] == byte);
            }
        }
        i += 1;
    }
    assert(slice@.take(slice@.len() as int) =~= slice@);
    text
}

} // verus!
