//! Error values and small text-building helpers shared by the lexer, the
//! interpreter and the compiler.

use vstd::prelude::*;

verus! {

/// Mathematical value of an error: the kind together with the message text.
pub enum ErrV {
    SyntaxError(Seq<char>),
    Generic(Seq<char>),
}

/// The two error kinds of the whole core: `SyntaxError` for lexing and
/// parsing failures (and an undefined variable), `Generic` for semantic and
/// runtime failures. Each carries a human-readable message.
#[derive(Debug)]
pub enum ErrorType {
    SyntaxError(String),
    Generic(String),
}

impl View for ErrorType {
    type V = ErrV;

    open spec fn view(&self) -> ErrV {
        match self {
            ErrorType::SyntaxError(m) => ErrV::SyntaxError(m@),
            ErrorType::Generic(m) => ErrV::Generic(m@),
        }
    }
}

impl PartialEq for ErrorType {
    fn eq(&self, other: &ErrorType) -> (r: bool) {
        match (self, other) {
            (ErrorType::SyntaxError(a), ErrorType::SyntaxError(b)) => *a == *b,
            (ErrorType::Generic(a), ErrorType::Generic(b)) => *a == *b,
            _ => false,
        }
    }
}

impl vstd::std_specs::cmp::PartialEqSpecImpl for ErrorType {
    open spec fn obeys_eq_spec() -> bool {
        true
    }

    open spec fn eq_spec(&self, other: &ErrorType) -> bool {
        self@ == other@
    }
}

/// The character for a single decimal digit.
pub open spec fn digit_char(d: int) -> char {
    if d == 0 {
        '0'
    } else if d == 1 {
        '1'
    } else if d == 2 {
        '2'
    } else if d == 3 {
        '3'
    } else if d == 4 {
        '4'
    } else if d == 5 {
        '5'
    } else if d == 6 {
        '6'
    } else if d == 7 {
        '7'
    } else if d == 8 {
        '8'
    } else {
        '9'
    }
}

/// Decimal digit sequence of a natural number, without leading zeros
/// (a single `'0'` for zero).
pub open spec fn dec_digits(n: nat) -> Seq<char>
    decreases n,
{
    if n < 10 {
        seq![digit_char(n as int)]
    } else {
        dec_digits((n / 10) as nat).push(digit_char((n % 10) as int))
    }
}

/// Decimal text of a signed 64-bit value: a leading `'-'` for negatives.
pub open spec fn dec_i64(n: int) -> Seq<char> {
    if n < 0 {
        seq!['-'] + dec_digits((-n) as nat)
    } else {
        dec_digits(n as nat)
    }
}

fn digit_str(d: u64) -> (r: &'static str)
    requires
        d < 10,
    ensures
        r@ == seq![digit_char(d as int)],
{
    let r: &'static str = match d {
        0 => "0",
        1 => "1",
        2 => "2",
        3 => "3",
        4 => "4",
        5 => "5",
        6 => "6",
        7 => "7",
        8 => "8",
        _ => "9",
    };
    proof {
        reveal_strlit("0");
        reveal_strlit("1");
        reveal_strlit("2");
        reveal_strlit("3");
        reveal_strlit("4");
        reveal_strlit("5");
        reveal_strlit("6");
        reveal_strlit("7");
        reveal_strlit("8");
        reveal_strlit("9");
        assert(r@ =~= seq![digit_char(d as int)]);
    }
    r
}

/// Decimal text of an unsigned 64-bit value.
pub fn u64_to_string(n: u64) -> (s: String)
    ensures
        s@ == dec_digits(n as nat),
    decreases n,
{
    if n < 10 {
        String::from_str(digit_str(n))
    } else {
        let mut s = u64_to_string(n / 10);
        s.append(digit_str(n % 10));
        proof {
            assert(s@ =~= dec_digits(n as nat));
        }
        s
    }
}

/// Decimal text of a signed 64-bit value.
pub fn i64_to_string(n: i64) -> (s: String)
    ensures
        s@ == dec_i64(n as int),
{
    if n >= 0 {
        u64_to_string(n as u64)
    } else {
        let mag: u64 = if n == i64::MIN {
            9223372036854775808u64
        } else {
            (-n) as u64
        };
        let mut s = String::from_str("-");
        let digits = u64_to_string(mag);
        s.append(digits.as_str());
        proof {
            reveal_strlit("-");
            assert(s@ =~= dec_i64(n as int));
        }
        s
    }
}

/// Decimal text of a `usize` counter value.
pub fn usize_to_string(n: usize) -> (s: String)
    ensures
        s@ == dec_digits(n as nat),
{
    u64_to_string(n as u64)
}

/// How one character is escaped for inclusion in a quoted string literal:
/// backslashes and double quotes get a leading backslash.
pub open spec fn escape_char(c: char) -> Seq<char> {
    if c == '\\' {
        seq!['\\', '\\']
    } else if c == '"' {
        seq!['\\', '"']
    } else {
        seq![c]
    }
}

/// The whole text with every backslash and double quote escaped.
pub open spec fn escape_v(s: Seq<char>) -> Seq<char>
    decreases s.len(),
{
    if s.len() == 0 {
        Seq::empty()
    } else {
        escape_char(s[0]) + escape_v(s.skip(1))
    }
}

/// Escapes backslashes and double quotes in a string for safe inclusion in
/// string literals.
pub fn escape_string(s: &str) -> (r: String)
    ensures
        r@ == escape_v(s@),
{
    let n = s.unicode_len();
    let mut out = String::new();
    let mut i: usize = 0;
    proof {
        assert(s@.skip(0) =~= s@);
        assert(out@ + escape_v(s@) =~= escape_v(s@));
    }
    while i < n
        invariant
            i <= n,
            n == s@.len(),
            escape_v(s@) == out@ + escape_v(s@.skip(i as int)),
        decreases n - i,
    {
        let c = s.get_char(i);
        if c == '\\' {
            out.append("\\\\");
        } else if c == '"' {
            out.append("\\\"");
        } else {
            out.append(s.substring_char(i, i + 1));
        }
        proof {
            reveal_strlit("\\\\");
            reveal_strlit("\\\"");
            let t = s@.skip(i as int);
            assert(t[0] == s@[i as int]);
            assert(t.skip(1) =~= s@.skip(i + 1));
            assert(escape_v(s@) =~= out@ + escape_v(s@.skip(i + 1)));
        }
        i = i + 1;
    }
    proof {
        assert(s@.skip(n as int) =~= Seq::<char>::empty());
        assert(out@ =~= escape_v(s@));
    }
    out
}

} // verus!
