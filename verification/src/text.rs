//! Text: what is taken on trust of the standard library's strings and
//! characters, and the decimal writing of line numbers.

use vstd::prelude::*;
use vstd::string::*;

verus! {

/// `String::push` appends one character to the end of the string.
pub assume_specification[ std::string::String::push ](text: &mut std::string::String, c: char)
    ensures
        final(text)@ == old(text)@.push(c),
;

/// Whether a character is a letter or a number, as the Unicode tables of the
/// standard library have it.
pub uninterp spec fn alphanumeric(c: char) -> bool;

/// `char::is_alphanumeric` looks the character up in the standard library's
/// Unicode tables; the tables are not spelled out here, their answer has a
/// name.
pub assume_specification[ char::is_alphanumeric ](c: char) -> (yes: bool)
    ensures
        yes == alphanumeric(c),
;

/// The contents of a list of strings.
pub open spec fn texts(lines: Seq<String>) -> Seq<Seq<char>> {
    lines.map_values(|line: String| line@)
}

/// One of the ten decimal digits.
pub open spec fn is_digit(c: char) -> bool {
    '0' <= c && c <= '9'
}

/// Whether `c` is one of the ten decimal digits.
pub fn digit(c: char) -> (yes: bool)
    ensures
        yes == is_digit(c),
{
    c >= '0' && c <= '9'
}

/// The character that writes the digit `d`.
pub open spec fn digit_char(d: nat) -> char
    recommends
        d < 10,
{
    (48 + d) as u8 as char
}

/// The decimal numeral of `n`, without leading zeros.
pub open spec fn decimal(n: nat) -> Seq<char>
    decreases n,
{
    if n < 10 {
        seq![digit_char(n)]
    } else {
        decimal(n / 10).push(digit_char(n % 10))
    }
}

/// The characters of `digits`, last one first.
pub open spec fn reversed(digits: Seq<char>) -> Seq<char> {
    Seq::new(digits.len(), |i: int| digits[digits.len() - 1 - i])
}

/// Writes `n` as a decimal numeral.
pub fn decimal_text(n: usize) -> (text: String)
    ensures
        text@ == decimal(n as nat),
{
    let mut low: Vec<char> = Vec::new();
    let mut rest: usize = n;
    while rest >= 10
        invariant
            decimal(n as nat) == decimal(rest as nat) + reversed(low@),
        decreases rest,
    {
        let d: u8 = (rest % 10) as u8;
        let ghost before = low@;
        low.push((48 + d) as char);
        proof {
            assert(decimal(rest as nat) == decimal((rest / 10) as nat).push(
                digit_char((rest % 10) as nat),
            ));
            assert(decimal((rest / 10) as nat).push(digit_char((rest % 10) as nat)) + reversed(
                before,
            ) =~= decimal((rest / 10) as nat) + reversed(low@));
        }
        rest = rest / 10;
    }
    let mut text = String::new();
    text.push((48 + (rest as u8)) as char);
    let mut i: usize = low.len();
    while i > 0
        invariant
            i <= low.len(),
            rest < 10,
            decimal(n as nat) == decimal(rest as nat) + reversed(low@),
            text@ == decimal(rest as nat) + reversed(low@).subrange(0, low.len() - i),
        decreases i,
    {
        i = i - 1;
        let ghost before = text@;
        text.push(low[i]);
        assert(text@ =~= decimal(rest as nat) + reversed(low@).subrange(0, low.len() - i));
    }
    assert(text@ =~= decimal(n as nat));
    text
}

} // verus!
