use vstd::prelude::*;

verus! {

/// Pieces joined back with `sep` between each two.
pub open spec fn joined_by(pieces: Seq<Seq<char>>, sep: char) -> Seq<char>
    decreases pieces.len(),
{
    if pieces.len() <= 1 {
        if pieces.len() == 0 {
            Seq::empty()
        } else {
            pieces[0]
        }
    } else {
        joined_by(pieces.drop_last(), sep) + seq![sep] + pieces.last()
    }
}

/// The pieces of `s` between occurrences of `sep`, in order: one more
/// piece than there are separators.
pub open spec fn split_by(s: Seq<char>, sep: char) -> Seq<Seq<char>>
    decreases s.len(),
{
    if s.len() == 0 {
        seq![Seq::empty()]
    } else {
        let p = split_by(s.drop_last(), sep);
        if s.last() == sep {
            p.push(Seq::empty())
        } else {
            p.update(p.len() - 1, p.last().push(s.last()))
        }
    }
}

pub open spec fn strings_view(v: Seq<String>) -> Seq<Seq<char>> {
    v.map_values(|s: String| s@)
}

/// Relies on str::split with a char pattern: the pieces between the
/// separators, in order, none holding one.
#[verifier::external_body]
pub fn split_on(s: &String, sep: char) -> (r: Vec<String>)
    ensures
        r@.len() >= 1,
        strings_view(r@) == split_by(s@, sep),
        joined_by(strings_view(r@), sep) == s@,
        forall|i: int| 0 <= i < r@.len() ==> !(#[trigger] r@[i])@.contains(sep),
{
    s.split(sep).map(|p| p.to_string()).collect()
}

pub open spec fn is_digit(c: char) -> bool {
    '0' <= c <= '9'
}

/// The value of a string of decimal digits.
pub open spec fn digits_value(s: Seq<char>) -> int
    decreases s.len(),
{
    if s.len() == 0 {
        0
    } else {
        digits_value(s.drop_last()) * 10 + (s.last() as int - '0' as int)
    }
}

pub open spec fn all_digits(s: Seq<char>) -> bool {
    s.len() > 0 && forall|i: int| 0 <= i < s.len() ==> is_digit(#[trigger] s[i])
}

/// The integer a string spells: an optional sign, then decimal digits.
pub open spec fn int_text_value(s: Seq<char>) -> Option<int> {
    if s.len() > 0 && s[0] == '-' && all_digits(s.drop_first()) {
        Some(-digits_value(s.drop_first()))
    } else if s.len() > 0 && s[0] == '+' && all_digits(s.drop_first()) {
        Some(digits_value(s.drop_first()))
    } else if all_digits(s) {
        Some(digits_value(s))
    } else {
        None
    }
}

/// Relies on str::parse::<i32>: an optional sign and decimal digits whose
/// value fits in an `i32`; anything else is an error.
#[verifier::external_body]
pub fn parse_i32(s: &String) -> (r: Option<i32>)
    ensures
        match r {
            Some(n) => int_text_value(s@) == Some(n as int),
            None => match int_text_value(s@) {
                Some(v) => v < i32::MIN || v > i32::MAX,
                None => true,
            },
        },
{
    s.parse::<i32>().ok()
}

/// The decimal digits of a natural number, without leading zeros.
pub open spec fn nat_text(n: nat) -> Seq<char>
    decreases n,
{
    if n < 10 {
        seq![(n + '0' as nat) as char]
    } else {
        nat_text(n / 10) + seq![((n % 10) + '0' as nat) as char]
    }
}

/// An integer as `Display` writes it: a minus sign where it is negative.
pub open spec fn int_text(n: int) -> Seq<char> {
    if n < 0 {
        seq!['-'] + nat_text((-n) as nat)
    } else {
        nat_text(n as nat)
    }
}

/// Relies on i32's `Display`: decimal digits, a minus sign where negative.
#[verifier::external_body]
pub fn i32_text(n: i32) -> (r: String)
    ensures
        r@ == int_text(n as int),
{
    n.to_string()
}

/// A line without one carriage return at its end.
pub open spec fn without_cr(s: Seq<char>) -> Seq<char> {
    if s.len() > 0 && s.last() == '\r' {
        s.drop_last()
    } else {
        s
    }
}

/// Relies on str::strip_suffix with a char pattern: the string without
/// that one character at its end, where it ends with it.
#[verifier::external_body]
pub fn strip_cr(s: &String) -> (r: String)
    ensures
        r@ == without_cr(s@),
{
    s.strip_suffix('\r').unwrap_or(s).to_string()
}

/// Unicode's `White_Space` characters.
pub open spec fn is_white_space(c: char) -> bool {
    ('\u{9}' <= c <= '\u{d}') || c == ' ' || c == '\u{85}' || c == '\u{a0}' || c == '\u{1680}'
        || ('\u{2000}' <= c <= '\u{200a}') || c == '\u{2028}' || c == '\u{2029}' || c == '\u{202f}'
        || c == '\u{205f}' || c == '\u{3000}'
}

pub open spec fn trim_start(s: Seq<char>) -> Seq<char>
    decreases s.len(),
{
    if s.len() > 0 && is_white_space(s[0]) {
        trim_start(s.drop_first())
    } else {
        s
    }
}

pub open spec fn trim_end(s: Seq<char>) -> Seq<char>
    decreases s.len(),
{
    if s.len() > 0 && is_white_space(s.last()) {
        trim_end(s.drop_last())
    } else {
        s
    }
}

/// A string without its leading and trailing white space.
pub open spec fn trimmed_of(s: Seq<char>) -> Seq<char> {
    trim_end(trim_start(s))
}

/// Relies on str::trim: leading and trailing `White_Space` removed.
#[verifier::external_body]
pub fn trimmed(s: &String) -> (r: String)
    ensures
        r@ == trimmed_of(s@),
{
    s.trim().to_string()
}

} // verus!
