//! ANSI colour escape sequences for terminal output.

use vstd::prelude::*;
use vstd::string::StringExecFns;

verus! {

/// The eight basic terminal colours.
#[derive(Clone, Copy, Debug, PartialEq, Eq, Structural)]
pub enum Color {
    Black,
    Red,
    Green,
    Yellow,
    Blue,
    Magenta,
    Cyan,
    White,
}

impl Color {
    /// The colour's offset within an ANSI colour block, 0 for black up to 7 for white.
    pub open spec fn offset(self) -> nat {
        match self {
            Color::Black => 0,
            Color::Red => 1,
            Color::Green => 2,
            Color::Yellow => 3,
            Color::Blue => 4,
            Color::Magenta => 5,
            Color::Cyan => 6,
            Color::White => 7,
        }
    }

    fn offset_code(self) -> (n: u32)
        ensures
            n == self.offset(),
    {
        match self {
            Color::Black => 0,
            Color::Red => 1,
            Color::Green => 2,
            Color::Yellow => 3,
            Color::Blue => 4,
            Color::Magenta => 5,
            Color::Cyan => 6,
            Color::White => 7,
        }
    }
}

/// The character that writes the decimal digit `d`.
pub open spec fn digit_char(d: nat) -> char
    recommends
        d < 10,
{
    (48 + d) as char
}

/// The two decimal digits of `n`, most significant first.
pub open spec fn two_digits(n: nat) -> Seq<char>
    recommends
        10 <= n < 100,
{
    seq![digit_char(n / 10), digit_char(n % 10)]
}

/// The text of the sequence that selects bold, foreground `fg` and background `bg`:
/// `ESC [ 1 ; <30 + fg> ; <40 + bg> m`.
pub open spec fn escape_code_text(fg: Color, bg: Color) -> Seq<char> {
    seq!['\x1b', '[', '1', ';'] + two_digits(30 + fg.offset()) + seq![';'] + two_digits(
        40 + bg.offset(),
    ) + seq!['m']
}

/// The text of the sequence that resets all attributes: `ESC [ 0 m`.
pub open spec fn reset_code_text() -> Seq<char> {
    seq!['\x1b', '[', '0', 'm']
}

/// The text of the decimal digit `d`.
pub(crate) fn digit_text(d: u32) -> (s: &'static str)
    requires
        d < 10,
    ensures
        s@ == seq![digit_char(d as nat)],
{
    proof {
        reveal_strlit("0");
        reveal_strlit("1");
        reveal_strlit("2");
        reveal_strlit("3");
        reveal_strlit("4");
        reveal_strlit("5");
        reveal_strlit("6");
        reveal_strlit("7");
        reveal_strlit("8");
        reveal_strlit("9");
    }
    let s = match d {
        0 => "0",
        1 => "1",
        2 => "2",
        3 => "3",
        4 => "4",
        5 => "5",
        6 => "6",
        7 => "7",
        8 => "8",
        _ => "9",
    };
    assert(s@ =~= seq![digit_char(d as nat)]);
    s
}

fn append_two_digits(text: &mut String, n: u32)
    requires
        10 <= n < 100,
    ensures
        final(text)@ == old(text)@ + two_digits(n as nat),
{
    text.append(digit_text(n / 10));
    text.append(digit_text(n % 10));
    assert(text@ =~= old(text)@ + two_digits(n as nat));
}

/// The ANSI code of `color` as a foreground colour: 30 to 37.
pub fn get_foreground_color_code(color: Color) -> (code: u32)
    ensures
        code == 30 + color.offset(),
{
    30 + color.offset_code()
}

/// The ANSI code of `color` as a background colour: 40 to 47.
pub fn get_background_color_code(color: Color) -> (code: u32)
    ensures
        code == 40 + color.offset(),
{
    40 + color.offset_code()
}

/// The escape sequence that switches the terminal to bold text in
/// `foreground_color` on `background_color`.
pub fn get_color_escape_code(foreground_color: Color, background_color: Color) -> (code: String)
    ensures
        code@ == escape_code_text(foreground_color, background_color),
{
    proof {
        reveal_strlit("\x1b[1;");
        reveal_strlit(";");
        reveal_strlit("m");
    }
    let mut code = String::from_str("\x1b[1;");
    append_two_digits(&mut code, get_foreground_color_code(foreground_color));
    code.append(";");
    append_two_digits(&mut code, get_background_color_code(background_color));
    code.append("m");
    assert(code@ =~= escape_code_text(foreground_color, background_color));
    code
}

/// The escape sequence that resets the terminal's colours and attributes.
pub fn get_color_reset_code() -> (code: String)
    ensures
        code@ == reset_code_text(),
{
    proof {
        reveal_strlit("\x1b[0m");
    }
    let code = String::from_str("\x1b[0m");
    assert(code@ =~= reset_code_text());
    code
}

} // verus!
