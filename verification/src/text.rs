//! Text with holes for numbers.
//!
//! Everything the machine shows of itself is a sequence of pieces: runs of
//! text, and numbers still in bits. The host writes each number out in decimal
//! and joins the pieces; nothing else is left to it.
use crate::num::Double;
use vstd::prelude::*;
use vstd::string::*;

verus! {

/// One piece of rendered output.
#[derive(Debug, Clone, PartialEq, Eq)]
pub enum Piece {
    /// Text to be shown as it is.
    Text(String),
    /// One character to be shown as it is.
    Char(char),
    /// A number, to be shown in decimal.
    Num(Double),
}

/// What a piece stands for: its characters, or its number.
pub enum Token {
    Text(Seq<char>),
    Num(Double),
}

impl View for Piece {
    type V = Token;

    open spec fn view(&self) -> Token {
        match self {
            Piece::Text(s) => Token::Text(s@),
            Piece::Char(c) => Token::Text(seq![*c]),
            Piece::Num(d) => Token::Num(*d),
        }
    }
}

/// The tokens of a sequence of pieces.
pub open spec fn tokens(pieces: Seq<Piece>) -> Seq<Token> {
    pieces.map_values(|p: Piece| p@)
}

/// The character of a decimal digit.
pub open spec fn digit(d: nat) -> char {
    if d == 0 {
        '0'
    } else if d == 1 {
        '1'
    } else if d == 2 {
        '2'
    } else if d == 3 {
        '3'
    } else if d == 4 {
        '4'
    } else if d == 5 {
        '5'
    } else if d == 6 {
        '6'
    } else if d == 7 {
        '7'
    } else if d == 8 {
        '8'
    } else {
        '9'
    }
}

/// `n` in decimal, without leading zeros.
pub open spec fn digits(n: nat) -> Seq<char>
    decreases n,
{
    if n < 10 {
        seq![digit(n)]
    } else {
        digits(n / 10).push(digit(n % 10))
    }
}

/// `n` in decimal, with spaces in front up to a width of three.
pub open spec fn padded(n: nat) -> Seq<char> {
    if n < 10 {
        "  "@ + digits(n)
    } else if n < 100 {
        " "@ + digits(n)
    } else {
        digits(n)
    }
}

/// The decimal digit `d` as a string.
fn digit_str(d: usize) -> (r: &'static str)
    requires
        d < 10,
    ensures
        r@ == seq![digit(d as nat)],
{
    proof {
        reveal_strlit("0");
        reveal_strlit("1");
        reveal_strlit("2");
        reveal_strlit("3");
        reveal_strlit("4");
        reveal_strlit("5");
        reveal_strlit("6");
        reveal_strlit("7");
        reveal_strlit("8");
        reveal_strlit("9");
    }
    let r = if d == 0 {
        "0"
    } else if d == 1 {
        "1"
    } else if d == 2 {
        "2"
    } else if d == 3 {
        "3"
    } else if d == 4 {
        "4"
    } else if d == 5 {
        "5"
    } else if d == 6 {
        "6"
    } else if d == 7 {
        "7"
    } else if d == 8 {
        "8"
    } else {
        "9"
    };
    assert(r@ =~= seq![digit(d as nat)]);
    r
}

/// Appends `n` in decimal.
pub fn put_decimal(s: &mut String, n: usize)
    ensures
        final(s)@ == old(s)@ + digits(n as nat),
    decreases n,
{
    if n >= 10 {
        put_decimal(s, n / 10);
    }
    s.append(digit_str(n % 10));
    assert(s@ =~= old(s)@ + digits(n as nat));
}

/// Appends `n` in decimal, right-aligned in a width of three.
pub fn put_padded(s: &mut String, n: usize)
    ensures
        final(s)@ == old(s)@ + padded(n as nat),
{
    if n < 10 {
        s.append("  ");
    } else if n < 100 {
        s.append(" ");
    }
    put_decimal(s, n);
    assert(s@ =~= old(s)@ + padded(n as nat));
}

/// `n` in decimal.
pub fn decimal(n: usize) -> (s: String)
    ensures
        s@ == digits(n as nat),
{
    let mut s = String::new();
    put_decimal(&mut s, n);
    assert(s@ =~= digits(n as nat));
    s
}

/// A text piece that holds a copy of `s`.
pub fn text(s: &str) -> (p: Piece)
    ensures
        p@ == Token::Text(s@),
{
    Piece::Text(String::from_str(s))
}

/// Appends one piece.
pub fn put(out: &mut Vec<Piece>, p: Piece)
    ensures
        tokens(final(out)@) == tokens(old(out)@).push(p@),
{
    out.push(p);
    assert(tokens(out@) =~= tokens(old(out)@).push(p@));
}

/// Appends a piece of text.
pub fn put_text(out: &mut Vec<Piece>, s: &str)
    ensures
        tokens(final(out)@) == tokens(old(out)@).push(Token::Text(s@)),
{
    put(out, text(s));
}

/// One piece by itself.
pub fn single(p: Piece) -> (r: Vec<Piece>)
    ensures
        tokens(r@) == seq![p@],
{
    let mut r: Vec<Piece> = Vec::new();
    r.push(p);
    assert(tokens(r@) =~= seq![p@]);
    r
}

/// No piece.
pub fn no_piece() -> (r: Vec<Piece>)
    ensures
        tokens(r@) == Seq::<Token>::empty(),
{
    let r: Vec<Piece> = Vec::new();
    assert(tokens(r@) =~= Seq::<Token>::empty());
    r
}

/// Whether two strings hold the same characters.
pub fn same(a: &str, b: &str) -> (r: bool)
    ensures
        r == (a@ == b@),
{
    a.to_owned() == b.to_owned()
}

/// Appends the pieces of `more` to `out`.
pub fn put_all(out: &mut Vec<Piece>, more: Vec<Piece>)
    ensures
        tokens(final(out)@) == tokens(old(out)@) + tokens(more@),
{
    let mut more = more;
    let ghost before = out@;
    let ghost added = more@;
    out.append(&mut more);
    assert(tokens(out@) =~= tokens(before) + tokens(added));
}

} // verus!
