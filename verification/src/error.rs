use vstd::prelude::*;
use vstd::string::*;

verus! {

/// The character of a decimal digit.
pub open spec fn digit_char(d: nat) -> char {
    if d == 0 {
        '0'
    } else if d == 1 {
        '1'
    } else if d == 2 {
        '2'
    } else if d == 3 {
        '3'
    } else if d == 4 {
        '4'
    } else if d == 5 {
        '5'
    } else if d == 6 {
        '6'
    } else if d == 7 {
        '7'
    } else if d == 8 {
        '8'
    } else {
        '9'
    }
}

/// The decimal digits of a number, most significant first.
pub open spec fn decimal_chars(n: nat) -> Seq<char>
    decreases n,
{
    if n < 10 {
        seq![digit_char(n)]
    } else {
        decimal_chars(n / 10).push(digit_char(n % 10))
    }
}

/// The text of one decimal digit.
fn digit_text(d: usize) -> (r: &'static str)
    requires
        d < 10,
    ensures
        r@ == seq![digit_char(d as nat)],
{
    proof {
        reveal_strlit("0");
        reveal_strlit("1");
        reveal_strlit("2");
        reveal_strlit("3");
        reveal_strlit("4");
        reveal_strlit("5");
        reveal_strlit("6");
        reveal_strlit("7");
        reveal_strlit("8");
        reveal_strlit("9");
    }
    let r = if d == 0 {
        "0"
    } else if d == 1 {
        "1"
    } else if d == 2 {
        "2"
    } else if d == 3 {
        "3"
    } else if d == 4 {
        "4"
    } else if d == 5 {
        "5"
    } else if d == 6 {
        "6"
    } else if d == 7 {
        "7"
    } else if d == 8 {
        "8"
    } else {
        "9"
    };
    assert(r@ =~= seq![digit_char(d as nat)]);
    r
}

/// Writes a number in decimal.
pub fn decimal_string(n: usize) -> (r: String)
    ensures
        r@ == decimal_chars(n as nat),
    decreases n,
{
    if n < 10 {
        String::from_str(digit_text(n))
    } else {
        let mut r = decimal_string(n / 10);
        r.append(digit_text(n % 10));
        proof {
            assert(r@ =~= decimal_chars((n / 10) as nat).push(digit_char((n % 10) as nat)));
        }
        r
    }
}

/// An error of the tree-building front end: a message, the line it was found on, and
/// the name of the source it was found in.
#[derive(Debug)]
pub struct LinenError {
    pub message: String,
    pub line: usize,
    pub source: String,
}

impl LinenError {
    /// An error with the given message, line and source.
    pub fn new(message: String, line: usize, source: String) -> (r: Self)
        ensures
            r.message@ == message@,
            r.line == line,
            r.source@ == source@,
    {
        Self { message, line, source }
    }

    /// The text of the report of an error.
    pub open spec fn report_text(&self) -> Seq<char> {
        "[line "@ + decimal_chars(self.line as nat) + "] Error at "@ + self.source@ + ": "@
            + self.message@
    }

    /// The report of the error, as one line of text.
    pub fn report(&self) -> (r: String)
        ensures
            r@ == self.report_text(),
    {
        let mut r = String::from_str("[line ");
        let digits = decimal_string(self.line);
        r.append(digits.as_str());
        r.append("] Error at ");
        r.append(self.source.as_str());
        r.append(": ");
        r.append(self.message.as_str());
        r
    }
}

} // verus!
