//! Operations on text that the lexer and the renderer share.
use vstd::prelude::*;
use substring::Substring;

verus! {

/// The characters of `text` from index `start` up to, not including, `end`,
/// as far as `text` has them.
pub open spec fn char_range(text: Seq<char>, start: int, end: int) -> Seq<char> {
    if end <= start || start < 0 || start >= text.len() {
        Seq::empty()
    } else if end <= text.len() {
        text.subrange(start, end)
    } else {
        text.subrange(start, text.len() as int)
    }
}

/// `substring::Substring::substring` on a `str`, copied into a `String`:
/// the characters from index `start` up to `end`, counted in characters, not
/// bytes; an index past the end counts as the end, and the result is empty
/// where `end` is not after `start`.
#[verifier::external_body]
pub(crate) fn slice_chars(text: &str, start: usize, end: usize) -> (part: String)
    ensures
        part@ == char_range(text@, start as int, end as int),
{
    text.substring(start, end).to_string()
}

/// What stands for one character in escaped text.
pub open spec fn escape_char(c: char) -> Seq<char> {
    if c == '&' {
        "&amp;"@
    } else if c == '<' {
        "&lt;"@
    } else if c == '>' {
        "&gt;"@
    } else if c == '"' {
        "&quot;"@
    } else if c == '\'' {
        "&#x27;"@
    } else {
        seq![c]
    }
}

/// `text` with each of `&`, `<`, `>`, `"` and `'` replaced by its entity.
pub open spec fn escape_html(text: Seq<char>) -> Seq<char>
    decreases text.len(),
{
    if text.len() == 0 {
        Seq::empty()
    } else {
        escape_html(text.drop_last()) + escape_char(text.last())
    }
}

/// `html_escape::encode_quoted_attribute`, copied into a `String`: it
/// replaces `&`, `<`, `>`, `"` and `'` by `&amp;`, `&lt;`, `&gt;`, `&quot;`
/// and `&#x27;` and leaves every other character as it is.
#[verifier::external_body]
pub(crate) fn encode_html(text: &str) -> (escaped: String)
    ensures
        escaped@ == escape_html(text@),
{
    html_escape::encode_quoted_attribute(text).into_owned()
}

} // verus!

verus! {

/// What `char::is_alphanumeric` gives for `c`.
pub uninterp spec fn is_alphanumeric(c: char) -> bool;

/// `char::is_alphanumeric`: whether `c` is a letter or a number of any
/// script.
#[verifier::external_body]
pub(crate) fn alphanumeric(c: char) -> (result: bool)
    ensures
        result == is_alphanumeric(c),
{
    c.is_alphanumeric()
}

/// `String::from` on a `char`: the string that holds that one character.
#[verifier::external_body]
pub(crate) fn char_string(c: char) -> (text: String)
    ensures
        text@ == seq![c],
{
    String::from(c)
}

} // verus!

verus! {

/// The character of a decimal digit.
pub open spec fn digit(d: nat) -> char {
    if d == 0 {
        '0'
    } else if d == 1 {
        '1'
    } else if d == 2 {
        '2'
    } else if d == 3 {
        '3'
    } else if d == 4 {
        '4'
    } else if d == 5 {
        '5'
    } else if d == 6 {
        '6'
    } else if d == 7 {
        '7'
    } else if d == 8 {
        '8'
    } else {
        '9'
    }
}

/// The decimal digits of `n`, without leading zeros.
pub open spec fn decimal(n: nat) -> Seq<char>
    decreases n,
{
    if n < 10 {
        seq![digit(n)]
    } else {
        decimal(n / 10).push(digit(n % 10))
    }
}

/// The decimal form of `n`, with `-` before the digits where `n` is
/// negative.
pub open spec fn signed_decimal(n: int) -> Seq<char> {
    if n < 0 {
        seq!['-'] + decimal((-n) as nat)
    } else {
        decimal(n as nat)
    }
}

/// The character of the decimal digit `d`.
fn digit_char(d: u8) -> (c: char)
    requires
        d < 10,
    ensures
        c == digit(d as nat),
{
    if d == 0 {
        '0'
    } else if d == 1 {
        '1'
    } else if d == 2 {
        '2'
    } else if d == 3 {
        '3'
    } else if d == 4 {
        '4'
    } else if d == 5 {
        '5'
    } else if d == 6 {
        '6'
    } else if d == 7 {
        '7'
    } else if d == 8 {
        '8'
    } else {
        '9'
    }
}

/// The decimal form of `n`.
pub fn decimal_string(n: u64) -> (text: String)
    ensures
        text@ == decimal(n as nat),
    decreases n,
{
    if n < 10 {
        char_string(digit_char(n as u8))
    } else {
        let last = char_string(digit_char((n % 10) as u8));
        let text = decimal_string(n / 10).concat(last.as_str());
        assert(text@ =~= decimal((n / 10) as nat).push(digit((n % 10) as nat)));
        text
    }
}

/// The decimal form of `n`.
pub fn signed_decimal_string(n: i64) -> (text: String)
    ensures
        text@ == signed_decimal(n as int),
{
    if n >= 0 {
        decimal_string(n as u64)
    } else {
        let size: u64 = if n == i64::MIN {
            9223372036854775808
        } else {
            (-n) as u64
        };
        let digits = decimal_string(size);
        let text = char_string('-').concat(digits.as_str());
        text
    }
}

} // verus!

verus! {

/// The characters of `text`, one by one.
pub fn chars_of(text: &str) -> (chars: Vec<char>)
    ensures
        chars@ == text@,
{
    let mut chars: Vec<char> = Vec::new();
    for c in it: text.chars()
        invariant
            it.seq() == text@,
            chars@ == it.seq().take(it.index() as int),
    {
        chars.push(c);
        assert(chars@ =~= it.seq().take(it.index() + 1));
    }
    assert(chars@ =~= text@);
    chars
}

} // verus!
