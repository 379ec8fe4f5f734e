//! One color sample per zone: the LED index that fixes its place on the
//! strip and the averaged RGB triple, plus the hex rendering the LED sink
//! protocol uses.

use vstd::prelude::*;
use vstd::string::StringExecFns;

verus! {

/// An averaged color bound for the LED at `led_index`.
#[derive(Debug, Clone, Copy, PartialEq, Eq, Structural)]
pub struct Color {
    pub led_index: i32,
    pub r: u8,
    pub g: u8,
    pub b: u8,
}

/// The uppercase hex digit for a value below sixteen.
pub open spec fn hex_digit(n: int) -> char {
    if n == 0 {
        '0'
    } else if n == 1 {
        '1'
    } else if n == 2 {
        '2'
    } else if n == 3 {
        '3'
    } else if n == 4 {
        '4'
    } else if n == 5 {
        '5'
    } else if n == 6 {
        '6'
    } else if n == 7 {
        '7'
    } else if n == 8 {
        '8'
    } else if n == 9 {
        '9'
    } else if n == 10 {
        'A'
    } else if n == 11 {
        'B'
    } else if n == 12 {
        'C'
    } else if n == 13 {
        'D'
    } else if n == 14 {
        'E'
    } else {
        'F'
    }
}

/// Two uppercase hex digits for one byte, high nibble first.
pub open spec fn hex_pair(b: int) -> Seq<char> {
    seq![hex_digit(b / 16), hex_digit(b % 16)]
}

fn hex_digit_str(n: u8) -> (s: &'static str)
    requires
        n < 16,
    ensures
        s@ == seq![hex_digit(n as int)],
{
    proof {
        reveal_strlit("0");
        reveal_strlit("1");
        reveal_strlit("2");
        reveal_strlit("3");
        reveal_strlit("4");
        reveal_strlit("5");
        reveal_strlit("6");
        reveal_strlit("7");
        reveal_strlit("8");
        reveal_strlit("9");
        reveal_strlit("A");
        reveal_strlit("B");
        reveal_strlit("C");
        reveal_strlit("D");
        reveal_strlit("E");
        reveal_strlit("F");
    }
    match n {
        0 => "0",
        1 => "1",
        2 => "2",
        3 => "3",
        4 => "4",
        5 => "5",
        6 => "6",
        7 => "7",
        8 => "8",
        9 => "9",
        10 => "A",
        11 => "B",
        12 => "C",
        13 => "D",
        14 => "E",
        _ => "F",
    }
}

impl Color {
    pub fn new(led_index: i32, r: u8, g: u8, b: u8) -> (c: Self)
        ensures
            c == (Color { led_index, r, g, b }),
    {
        Color { led_index, r, g, b }
    }

    /// The six uppercase hex digits "RRGGBB" of this color.
    pub fn to_hex(&self) -> (s: String)
        ensures
            s@ == hex_pair(self.r as int) + hex_pair(self.g as int) + hex_pair(self.b as int),
            s@.len() == 6,
    {
        let mut s = String::new();
        s.append(hex_digit_str(self.r / 16));
        s.append(hex_digit_str(self.r % 16));
        s.append(hex_digit_str(self.g / 16));
        s.append(hex_digit_str(self.g % 16));
        s.append(hex_digit_str(self.b / 16));
        s.append(hex_digit_str(self.b % 16));
        proof {
            assert(s@ =~= hex_pair(self.r as int) + hex_pair(self.g as int) + hex_pair(
                self.b as int,
            ));
        }
        s
    }
}

} // verus!
