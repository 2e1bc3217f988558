//! The error model: a value carrying a source line, an optional "where"
//! annotation, and a message, rendered in the fixed format
//! `[line {line}] Error{place}: {message}`.

use vstd::prelude::*;

verus! {

/// The decimal digit character for `d`.
pub open spec fn digit_char(d: nat) -> char {
    if d == 0 {
        '0'
    } else if d == 1 {
        '1'
    } else if d == 2 {
        '2'
    } else if d == 3 {
        '3'
    } else if d == 4 {
        '4'
    } else if d == 5 {
        '5'
    } else if d == 6 {
        '6'
    } else if d == 7 {
        '7'
    } else if d == 8 {
        '8'
    } else {
        '9'
    }
}

/// The usual decimal numeral for `n`: no sign, no leading zero except for
/// `n == 0` itself.
pub open spec fn dec_str(n: nat) -> Seq<char>
    decreases n,
{
    if n < 10 {
        seq![digit_char(n)]
    } else {
        dec_str(n / 10).push(digit_char(n % 10))
    }
}

/// The one-character string for a decimal digit.
fn digit_str(d: usize) -> (r: &'static str)
    requires
        d < 10,
    ensures
        r@ == seq![digit_char(d as nat)],
{
    if d == 0 {
        proof {
            reveal_strlit("0");
            assert("0"@ =~= seq![digit_char(0)]);
        }
        "0"
    } else if d == 1 {
        proof {
            reveal_strlit("1");
            assert("1"@ =~= seq![digit_char(1)]);
        }
        "1"
    } else if d == 2 {
        proof {
            reveal_strlit("2");
            assert("2"@ =~= seq![digit_char(2)]);
        }
        "2"
    } else if d == 3 {
        proof {
            reveal_strlit("3");
            assert("3"@ =~= seq![digit_char(3)]);
        }
        "3"
    } else if d == 4 {
        proof {
            reveal_strlit("4");
            assert("4"@ =~= seq![digit_char(4)]);
        }
        "4"
    } else if d == 5 {
        proof {
            reveal_strlit("5");
            assert("5"@ =~= seq![digit_char(5)]);
        }
        "5"
    } else if d == 6 {
        proof {
            reveal_strlit("6");
            assert("6"@ =~= seq![digit_char(6)]);
        }
        "6"
    } else if d == 7 {
        proof {
            reveal_strlit("7");
            assert("7"@ =~= seq![digit_char(7)]);
        }
        "7"
    } else if d == 8 {
        proof {
            reveal_strlit("8");
            assert("8"@ =~= seq![digit_char(8)]);
        }
        "8"
    } else {
        proof {
            reveal_strlit("9");
            assert("9"@ =~= seq![digit_char(9)]);
        }
        "9"
    }
}

/// The decimal numeral of `n` as a `String`.
pub fn usize_to_string(n: usize) -> (r: String)
    ensures
        r@ == dec_str(n as nat),
    decreases n,
{
    if n < 10 {
        String::from_str(digit_str(n))
    } else {
        let mut s = usize_to_string(n / 10);
        s.append(digit_str(n % 10));
        proof {
            assert(dec_str((n as nat) / 10).push(digit_char((n as nat) % 10)) =~= dec_str(
                (n as nat) / 10,
            ) + seq![digit_char((n as nat) % 10)]);
        }
        s
    }
}

/// A lexical error: the line it was detected on, an optional annotation of
/// where in the line, and a human-readable message.
#[derive(Debug)]
pub struct LoxError {
    line: usize,
    place: String,
    message: String,
}

/// The mathematical value of a `LoxError`.
pub ghost struct LoxErrorView {
    pub line: nat,
    pub place: Seq<char>,
    pub message: Seq<char>,
}

/// The fixed rendering format: `[line {line}] Error{place}: {message}`,
/// with `place` concatenated directly after `Error` with no separator.
pub open spec fn error_display(e: LoxErrorView) -> Seq<char> {
    "[line "@ + dec_str(e.line) + "] Error"@ + e.place + ": "@ + e.message
}

impl View for LoxError {
    type V = LoxErrorView;

    closed spec fn view(&self) -> LoxErrorView {
        LoxErrorView { line: self.line as nat, place: self.place@, message: self.message@ }
    }
}

impl LoxError {
    /// Constructs an error; the annotation defaults to empty text when not
    /// supplied.
    pub fn new(line: usize, place: Option<&str>, message: &str) -> (r: LoxError)
        ensures
            r@.line == line as nat,
            r@.place == (match place {
                Some(p) => p@,
                None => Seq::<char>::empty(),
            }),
            r@.message == message@,
    {
        LoxError {
            line,
            place: match place {
                Some(p) => String::from_str(p),
                None => String::new(),
            },
            message: String::from_str(message),
        }
    }

    /// Renders the error in the fixed reporting format.
    pub fn render(&self) -> (r: String)
        ensures
            r@ == error_display(self@),
    {
        let mut s = String::from_str("[line ");
        let line_str = usize_to_string(self.line);
        s.append(line_str.as_str());
        s.append("] Error");
        s.append(self.place.as_str());
        s.append(": ");
        s.append(self.message.as_str());
        s
    }
}

} // verus!
