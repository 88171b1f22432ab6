use vstd::prelude::*;

verus! {

/// The Unicode `White_Space` property, which `char::is_whitespace` tests:
/// the controls from tab to carriage return, the space, next line, no-break
/// space, Ogham space mark, the spaces from en quad to hair space, the line
/// and paragraph separators, narrow no-break space, medium mathematical space
/// and ideographic space.
pub open spec fn unicode_whitespace(c: char) -> bool {
    ||| '\u{9}' <= c <= '\u{d}'
    ||| c == ' '
    ||| c == '\u{85}'
    ||| c == '\u{a0}'
    ||| c == '\u{1680}'
    ||| '\u{2000}' <= c <= '\u{200a}'
    ||| c == '\u{2028}'
    ||| c == '\u{2029}'
    ||| c == '\u{202f}'
    ||| c == '\u{205f}'
    ||| c == '\u{3000}'
}

/// Name for `char::is_alphabetic`: the Unicode `Alphabetic` property.
pub uninterp spec fn unicode_alphabetic(c: char) -> bool;

/// Name for `char::is_numeric`: the Unicode general categories `Nd`, `Nl`, `No`.
pub uninterp spec fn unicode_numeric(c: char) -> bool;

/// `char::is_whitespace`, whose whole behaviour is the property above.
pub fn is_whitespace(c: char) -> (r: bool)
    ensures
        r == unicode_whitespace(c),
{
    ('\u{9}' <= c && c <= '\u{d}') || c == ' ' || c == '\u{85}' || c == '\u{a0}' || c == '\u{1680}'
        || ('\u{2000}' <= c && c <= '\u{200a}') || c == '\u{2028}' || c == '\u{2029}' || c == '\u{202f}'
        || c == '\u{205f}' || c == '\u{3000}'
}

/// Whether `c` is an ASCII letter.
pub open spec fn ascii_letter(c: char) -> bool {
    ('a' <= c && c <= 'z') || ('A' <= c && c <= 'Z')
}

/// Calls `char::is_alphabetic`; its result is a fixed Unicode property of `c`.
/// Among ASCII characters, the documented `Alphabetic` ones are the letters.
#[verifier::external_body]
pub(crate) fn is_alphabetic(c: char) -> (r: bool)
    ensures
        r == unicode_alphabetic(c),
        (c as u32) < 128 ==> (r == ascii_letter(c)),
{
    c.is_alphabetic()
}

/// Calls `char::is_alphanumeric`, which its documentation defines as
/// `is_alphabetic() || is_numeric()`.
#[verifier::external_body]
pub(crate) fn is_alphanumeric(c: char) -> (r: bool)
    ensures
        r == (unicode_alphabetic(c) || unicode_numeric(c)),
        (c as u32) < 128 ==> (r == (ascii_letter(c) || is_digit_spec(c))),
{
    c.is_alphanumeric()
}

/// Calls `char::is_numeric`; its result is a fixed Unicode property of `c`.
#[verifier::external_body]
pub(crate) fn is_numeric(c: char) -> (r: bool)
    ensures
        r == unicode_numeric(c),
        (c as u32) < 128 ==> (r == is_digit_spec(c)),
{
    c.is_numeric()
}

/// Whether `c` is one of the ASCII digits `0` to `9`.
pub open spec fn is_digit_spec(c: char) -> bool {
    '0' <= c && c <= '9'
}

/// `char::is_ascii_digit`, whose whole behaviour is the range check above.
pub fn is_ascii_digit(c: char) -> (r: bool)
    ensures
        r == is_digit_spec(c),
{
    '0' <= c && c <= '9'
}

/// Builds a `String` from its characters with `String::from_iter`; the
/// string holds exactly those characters in order.
#[verifier::external_body]
pub(crate) fn string_from_chars(chars: &Vec<char>) -> (s: String)
    ensures
        s@ == chars@,
{
    chars.iter().collect()
}

/// The characters of a string slice, through `str::chars` and `collect`.
#[verifier::external_body]
pub(crate) fn chars_of_str(s: &str) -> (chars: Vec<char>)
    ensures
        chars@ == s@,
{
    s.chars().collect()
}

/// Appends one character with `String::push`.
#[verifier::external_body]
pub(crate) fn push_char(s: &mut String, c: char)
    ensures
        final(s)@ == old(s)@.push(c),
{
    s.push(c)
}

/// Appends a string slice with `String::push_str`.
#[verifier::external_body]
pub(crate) fn push_str(s: &mut String, t: &str)
    ensures
        final(s)@ == old(s)@ + t@,
{
    s.push_str(t)
}

/// Name for what `<str as Debug>::fmt` writes for a string: the text in
/// double quotes, with quotes, backslashes and unprintable characters escaped.
pub uninterp spec fn str_debug(s: Seq<char>) -> Seq<char>;

/// Writes `s` as `{:?}` does, through `<str as Debug>::fmt`.
#[verifier::external_body]
pub(crate) fn debug_str(s: &str) -> (r: String)
    ensures
        r@ == str_debug(s@),
{
    format!("{:?}", s)
}

/// `n` copies of `c`.
pub open spec fn repeat_char(c: char, n: nat) -> Seq<char> {
    Seq::new(n, |i: int| c)
}

/// Appends `n` copies of `c`.
pub fn push_repeat(s: &mut String, c: char, n: usize)
    ensures
        final(s)@ == old(s)@ + repeat_char(c, n as nat),
{
    let mut k: usize = 0;
    while k < n
        invariant
            k <= n,
            s@ == old(s)@ + repeat_char(c, k as nat),
        decreases n - k,
    {
        push_char(s, c);
        k += 1;
        assert(s@ =~= old(s)@ + repeat_char(c, k as nat));
    }
}

/// Whether a character vector spells exactly the characters of `word`.
pub fn chars_equal(v: &Vec<char>, word: &[char]) -> (r: bool)
    ensures
        r == (v@ == word@),
{
    if v.len() != word.len() {
        return false;
    }
    let mut i: usize = 0;
    while i < v.len()
        invariant
            i <= v.len(),
            v.len() == word.len(),
            forall|j: int| 0 <= j < i ==> v@[j] == word@[j],
        decreases v.len() - i,
    {
        if v[i] != word[i] {
            return false;
        }
        i += 1;
    }
    assert(v@ =~= word@);
    true
}

/// Whether a string spells exactly the characters of `word`.
pub fn string_is(s: &String, word: &[char]) -> (r: bool)
    ensures
        r == (s@ == word@),
{
    let chars = chars_of_str(s.as_str());
    chars_equal(&chars, word)
}

/// The decimal digit for `d`, which is below ten.
pub open spec fn digit_char(d: nat) -> char {
    ('0' as u32 + d) as char
}

/// The decimal digits of `n`, most significant first, without leading zeros.
pub open spec fn decimal_digits(n: nat) -> Seq<char>
    decreases n,
{
    if n < 10 {
        seq![digit_char(n)]
    } else {
        decimal_digits(n / 10).push(digit_char(n % 10))
    }
}

/// How `x` is written in decimal: a minus sign before negative numbers.
pub open spec fn decimal(x: int) -> Seq<char> {
    if x < 0 {
        seq!['-'] + decimal_digits((-x) as nat)
    } else {
        decimal_digits(x as nat)
    }
}

/// Writes `n` in decimal.
pub fn u64_to_string(n: u64) -> (r: String)
    ensures
        r@ == decimal_digits(n as nat),
{
    let chars = u64_digits(n);
    string_from_chars(&chars)
}

/// Writes `n` in decimal.
pub fn usize_to_string(n: usize) -> (r: String)
    ensures
        r@ == decimal(n as int),
{
    u64_to_string(n as u64)
}

/// The decimal digits of `n`.
fn u64_digits(n: u64) -> (chars: Vec<char>)
    ensures
        chars@ == decimal_digits(n as nat),
{
    let ghost total: nat = n as nat;
    let mut n = n;
    // digits of the part of the number already written, least significant first
    let mut rev: Vec<char> = Vec::new();
    let ghost mut written: Seq<char> = Seq::empty();
    loop
        invariant_except_break
            n as nat <= total,
            written.len() == rev@.len(),
            forall|i: int| 0 <= i < rev@.len() ==> rev@[i] == written[written.len() - 1 - i],
            decimal_digits(total) == decimal_digits(n as nat) + written,
        ensures
            written.len() == rev@.len(),
            forall|i: int| 0 <= i < rev@.len() ==> rev@[i] == written[written.len() - 1 - i],
            decimal_digits(total) == written,
        decreases n,
    {
        let d = n % 10;
        let c = char_of_digit(d);
        if n < 10 {
            rev.push(c);
            proof {
                assert(decimal_digits(n as nat) == seq![digit_char(n as nat)]);
                written = seq![c] + written;
                assert(decimal_digits(total) =~= written);
            }
            break;
        }
        rev.push(c);
        proof {
            assert(decimal_digits(n as nat) == decimal_digits((n / 10) as nat).push(digit_char((n % 10) as nat)));
            let w0 = written;
            written = seq![c] + written;
            assert(decimal_digits((n / 10) as nat) + written =~= decimal_digits(n as nat) + w0);
        }
        n = n / 10;
    }
    let mut chars: Vec<char> = Vec::new();
    let mut i = rev.len();
    while i > 0
        invariant
            i <= rev@.len(),
            written.len() == rev@.len(),
            forall|j: int| 0 <= j < rev@.len() ==> rev@[j] == written[written.len() - 1 - j],
            chars@ == written.subrange(0, rev@.len() - i),
        decreases i,
    {
        i -= 1;
        chars.push(rev[i]);
        assert(chars@ =~= written.subrange(0, rev@.len() - i));
    }
    assert(written.subrange(0, rev@.len() as int) =~= written);
    chars
}

/// Writes `x` in decimal.
pub fn int_to_string(x: i64) -> (r: String)
    ensures
        r@ == decimal(x as int),
{
    if x < 0 {
        let magnitude: u64 = if x == i64::MIN {
            9223372036854775808u64
        } else {
            (-x) as u64
        };
        let mut chars: Vec<char> = Vec::new();
        chars.push('-');
        let mut digits = u64_digits(magnitude);
        chars.append(&mut digits);
        assert(chars@ =~= decimal(x as int));
        string_from_chars(&chars)
    } else {
        u64_to_string(x as u64)
    }
}

fn char_of_digit(d: u64) -> (c: char)
    requires
        d < 10,
    ensures
        c == digit_char(d as nat),
{
    if d == 0 {
        '0'
    } else if d == 1 {
        '1'
    } else if d == 2 {
        '2'
    } else if d == 3 {
        '3'
    } else if d == 4 {
        '4'
    } else if d == 5 {
        '5'
    } else if d == 6 {
        '6'
    } else if d == 7 {
        '7'
    } else if d == 8 {
        '8'
    } else {
        '9'
    }
}

} // verus!
