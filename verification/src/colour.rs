//! Colours, and the text that names them.

use vstd::prelude::*;
use vstd::string::*;

verus! {

/// A colour of three eight-bit channels. Two colours are equal when all
/// three channels are.
#[derive(Clone, Copy, Debug, PartialEq, Eq, Structural)]
pub struct Colour {
    pub red: u8,
    pub green: u8,
    pub blue: u8,
}

/// Whether `c` is one of `0-9`, `a-f`, `A-F`.
pub open spec fn is_hex_digit(c: char) -> bool {
    ('0' <= c && c <= '9') || ('a' <= c && c <= 'f') || ('A' <= c && c <= 'F')
}

/// The number that the hexadecimal digit `c` stands for.
pub open spec fn hex_value(c: char) -> int
    recommends
        is_hex_digit(c),
{
    if '0' <= c && c <= '9' {
        c as int - '0' as int
    } else if 'a' <= c && c <= 'f' {
        c as int - 'a' as int + 10
    } else {
        c as int - 'A' as int + 10
    }
}

/// The lower-case hexadecimal digit for `d`.
pub open spec fn hex_char(d: int) -> char
    recommends
        0 <= d < 16,
{
    if d < 10 {
        ('0' as int + d) as char
    } else {
        ('a' as int + d - 10) as char
    }
}

/// The number written by the two hexadecimal digits `hi` and `lo`.
pub open spec fn channel_value(hi: char, lo: char) -> int {
    16 * hex_value(hi) + hex_value(lo)
}

/// Whether `s` is, from its first character to its last, a `#` followed by
/// exactly six hexadecimal digits of either case.
pub open spec fn is_color_name(s: Seq<char>) -> bool {
    &&& s.len() == 7
    &&& s[0] == '#'
    &&& forall|i: int| 1 <= i < 7 ==> is_hex_digit(#[trigger] s[i])
}

/// The colour that a colour name spells.
pub open spec fn named_colour(s: Seq<char>) -> Colour
    recommends
        is_color_name(s),
{
    Colour {
        red: channel_value(s[1], s[2]) as u8,
        green: channel_value(s[3], s[4]) as u8,
        blue: channel_value(s[5], s[6]) as u8,
    }
}

/// What a text is read as: the colour it names, or nothing.
pub open spec fn parsed(s: Seq<char>) -> Option<Colour> {
    if is_color_name(s) {
        Some(named_colour(s))
    } else {
        None
    }
}

impl Colour {
    /// The canonical name of the colour: `#`, then red, green and blue, each
    /// as two lower-case hexadecimal digits.
    pub open spec fn name_spec(self) -> Seq<char> {
        seq![
            '#',
            hex_char(self.red as int / 16),
            hex_char(self.red as int % 16),
            hex_char(self.green as int / 16),
            hex_char(self.green as int % 16),
            hex_char(self.blue as int / 16),
            hex_char(self.blue as int % 16),
        ]
    }

    /// The colour as one number, red in the highest of its three bytes.
    pub open spec fn value_spec(self) -> int {
        self.red as int * 65536 + self.green as int * 256 + self.blue as int
    }

    /// The colour with the given channels.
    pub fn from_rgb(red: u8, green: u8, blue: u8) -> (c: Colour)
        ensures
            c == (Colour { red, green, blue }),
    {
        Colour { red, green, blue }
    }

    /// The colour against which contrast is measured: `0x36393E`.
    pub fn background() -> (c: Colour)
        ensures
            c == (Colour { red: 0x36, green: 0x39, blue: 0x3E }),
    {
        Colour::from_value(0x36393E)
    }

    /// The colour as one number.
    pub fn value(&self) -> (v: u32)
        ensures
            v == self.value_spec(),
            v <= 0xFF_FFFF,
    {
        let r: u32 = self.red as u32;
        let g: u32 = self.green as u32;
        let b: u32 = self.blue as u32;
        r * 65536 + g * 256 + b
    }

    /// The colour whose number is the low three bytes of `v`.
    pub fn from_value(v: u32) -> (c: Colour)
        ensures
            c.red == (v as int / 65536) % 256,
            c.green == (v as int / 256) % 256,
            c.blue == v as int % 256,
    {
        Colour {
            red: ((v / 65536) % 256) as u8,
            green: ((v / 256) % 256) as u8,
            blue: (v % 256) as u8,
        }
    }

    /// The canonical name of the colour.
    pub fn name(&self) -> (s: String)
        ensures
            s@ == self.name_spec(),
    {
        proof {
            reveal_strlit("#");
        }
        let mut s = String::from_str("#");
        s.append(digit_text(self.red / 16));
        s.append(digit_text(self.red % 16));
        s.append(digit_text(self.green / 16));
        s.append(digit_text(self.green % 16));
        s.append(digit_text(self.blue / 16));
        s.append(digit_text(self.blue % 16));
        assert(s@ =~= self.name_spec());
        s
    }

    /// Reads a text as a colour. Only a colour name is read, and it must be
    /// the whole text.
    pub fn parse(text: &str) -> (r: Option<Colour>)
        ensures
            r == parsed(text@),
    {
        if text.unicode_len() != 7 {
            return None;
        }
        if text.get_char(0) != '#' {
            return None;
        }
        let red = match channel(text, 1) {
            Some(v) => v,
            None => {
                return None;
            },
        };
        let green = match channel(text, 3) {
            Some(v) => v,
            None => {
                return None;
            },
        };
        let blue = match channel(text, 5) {
            Some(v) => v,
            None => {
                return None;
            },
        };
        Some(Colour::from_rgb(red, green, blue))
    }
}

/// Whether `text` is a colour name.
pub fn is_color_name_text(text: &str) -> (b: bool)
    ensures
        b == is_color_name(text@),
{
    Colour::parse(text).is_some()
}

/// The value of a hexadecimal digit, if `c` is one.
fn digit(c: char) -> (r: Option<u8>)
    ensures
        match r {
            Some(v) => is_hex_digit(c) && v == hex_value(c) && v < 16,
            None => !is_hex_digit(c),
        },
{
    let v: u32 = c as u32;
    if '0' <= c && c <= '9' {
        Some((v - 48) as u8)
    } else if 'a' <= c && c <= 'f' {
        Some((v - 87) as u8)
    } else if 'A' <= c && c <= 'F' {
        Some((v - 55) as u8)
    } else {
        None
    }
}

/// The channel written by the two characters of `text` from `at` on, if both
/// are hexadecimal digits.
fn channel(text: &str, at: usize) -> (r: Option<u8>)
    requires
        text@.len() == 7,
        at < 6,
    ensures
        match r {
            Some(v) => is_hex_digit(text@[at as int]) && is_hex_digit(text@[at + 1]) && v
                == channel_value(text@[at as int], text@[at + 1]),
            None => !is_hex_digit(text@[at as int]) || !is_hex_digit(text@[at + 1]),
        },
{
    let hi = match digit(text.get_char(at)) {
        Some(v) => v,
        None => {
            return None;
        },
    };
    let lo = match digit(text.get_char(at + 1)) {
        Some(v) => v,
        None => {
            return None;
        },
    };
    Some(hi * 16 + lo)
}

/// The lower-case hexadecimal digit for `d`, as a text of one character.
fn digit_text(d: u8) -> (s: &'static str)
    requires
        d < 16,
    ensures
        s@ == seq![hex_char(d as int)],
{
    proof {
        reveal_strlit("0");
        reveal_strlit("1");
        reveal_strlit("2");
        reveal_strlit("3");
        reveal_strlit("4");
        reveal_strlit("5");
        reveal_strlit("6");
        reveal_strlit("7");
        reveal_strlit("8");
        reveal_strlit("9");
        reveal_strlit("a");
        reveal_strlit("b");
        reveal_strlit("c");
        reveal_strlit("d");
        reveal_strlit("e");
        reveal_strlit("f");
    }
    let s = match d {
        0 => "0",
        1 => "1",
        2 => "2",
        3 => "3",
        4 => "4",
        5 => "5",
        6 => "6",
        7 => "7",
        8 => "8",
        9 => "9",
        10 => "a",
        11 => "b",
        12 => "c",
        13 => "d",
        14 => "e",
        _ => "f",
    };
    assert(s@ =~= seq![hex_char(d as int)]);
    s
}

} // verus!
