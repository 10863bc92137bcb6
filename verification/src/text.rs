//! Texts: what the standard library does to strings, under the contracts
//! that the library relies on, and the rendering of numbers in decimal.

use vstd::prelude::*;

verus! {

/// Whether `a` comes strictly before `b` when both are compared element by
/// element by the code point of each character, a proper prefix coming first.
pub open spec fn text_lt(a: Seq<char>, b: Seq<char>) -> bool
    decreases a.len(),
{
    if b.len() == 0 {
        false
    } else if a.len() == 0 {
        true
    } else if a[0] != b[0] {
        (a[0] as int) < (b[0] as int)
    } else {
        text_lt(a.drop_first(), b.drop_first())
    }
}

/// Equality of two string slices, by `str`'s `==` of the standard library.
/// The result is taken to be equality of the two character sequences.
#[verifier::external_body]
pub(crate) fn str_eq(a: &str, b: &str) -> (r: bool)
    ensures
        r == (a@ == b@),
{
    a == b
}

/// Ordering of two string slices, by `str`'s `<` of the standard library,
/// which is documented to order strings lexicographically by their bytes
/// and thereby by code point. The result is taken to be [`text_lt`].
#[verifier::external_body]
pub(crate) fn str_lt(a: &str, b: &str) -> (r: bool)
    ensures
        r == text_lt(a@, b@),
{
    a < b
}

/// The lower-case form of a text, as `str::to_lowercase` of the standard
/// library gives it. The Unicode rules behind it are not restated here.
pub uninterp spec fn lowercase(s: Seq<char>) -> Seq<char>;

/// The lower-case form of a string slice, by `str::to_lowercase` of the
/// standard library. The result is a function of the characters alone and
/// is named [`lowercase`].
#[verifier::external_body]
pub(crate) fn to_lowercase(s: &str) -> (r: String)
    ensures
        r@ == lowercase(s@),
{
    s.to_lowercase()
}

/// Whether `needle` occurs in `hay` as a run of consecutive characters.
pub open spec fn occurs_in(needle: Seq<char>, hay: Seq<char>) -> bool {
    exists|i: int|
        0 <= i <= hay.len() - needle.len() && #[trigger] hay.subrange(i, i + needle.len())
            == needle
}

/// Whether a string slice contains another, by `str::contains` of the
/// standard library with a string pattern. The result is taken to be
/// [`occurs_in`].
#[verifier::external_body]
pub(crate) fn str_contains(hay: &str, needle: &str) -> (r: bool)
    ensures
        r == occurs_in(needle@, hay@),
{
    hay.contains(needle)
}

/// The parts of a text between the occurrences of a separator: the empty
/// text has one empty part, a separator begins a new part, and any other
/// character goes to the end of the last part.
pub open spec fn split_text(s: Seq<char>, separator: char) -> Seq<Seq<char>>
    decreases s.len(),
{
    if s.len() == 0 {
        seq![Seq::<char>::empty()]
    } else {
        let parts = split_text(s.drop_last(), separator);
        if s.last() == separator {
            parts.push(Seq::empty())
        } else {
            parts.update(parts.len() - 1, parts.last().push(s.last()))
        }
    }
}

/// The parts of a string slice between the occurrences of a separator, by
/// `str::split` of the standard library with a `char` pattern, which is
/// documented to give the parts between the matches, empty parts
/// included. The result is taken to be [`split_text`].
#[verifier::external_body]
pub(crate) fn split_on(s: &str, separator: char) -> (r: Vec<String>)
    ensures
        r@.map_values(|part: String| part@) == split_text(s@, separator),
{
    s.split(separator).map(|part| part.to_string()).collect()
}

/// A text without the white space at its two ends, as `str::trim` of the
/// standard library gives it. The Unicode rules behind it are not restated
/// here.
pub uninterp spec fn trimmed(s: Seq<char>) -> Seq<char>;

/// A string slice without the white space at its two ends, by `str::trim`
/// of the standard library. The result is a function of the characters
/// alone and is named [`trimmed`].
#[verifier::external_body]
pub(crate) fn trim(s: &str) -> (r: String)
    ensures
        r@ == trimmed(s@),
{
    s.trim().to_string()
}

/// The number that a text states in decimal digits with an optional sign
/// before them, as `str::parse::<i64>` of the standard library reads it;
/// `None` for a text that states no number of 64 bits.
pub uninterp spec fn parsed_i64(s: Seq<char>) -> Option<i64>;

/// The number that a string slice states, by `str::parse::<i64>` of the
/// standard library. The result is a function of the characters alone and
/// is named [`parsed_i64`].
#[verifier::external_body]
pub(crate) fn parse_i64(s: &str) -> (r: Option<i64>)
    ensures
        r == parsed_i64(s@),
{
    s.parse::<i64>().ok()
}

/// Whether a string slice begins with another, by `str::starts_with` of
/// the standard library with a string pattern. The result is taken to say
/// whether the one is a prefix of the other.
#[verifier::external_body]
pub(crate) fn str_starts_with(s: &str, prefix: &str) -> (r: bool)
    ensures
        r == prefix@.is_prefix_of(s@),
{
    s.starts_with(prefix)
}

/// The lines of a text, as `str::lines` of the standard library gives
/// them: the parts between line feeds, each without a carriage return at
/// its end, and without an empty part after the last line feed.
pub uninterp spec fn text_lines(s: Seq<char>) -> Seq<Seq<char>>;

/// The lines of a string slice, by `str::lines` of the standard library.
/// The result is a function of the characters alone and is named
/// [`text_lines`].
#[verifier::external_body]
pub(crate) fn split_lines(s: &str) -> (r: Vec<String>)
    ensures
        r@.map_values(|line: String| line@) == text_lines(s@),
{
    s.lines().map(|line| line.to_string()).collect()
}

/// Whether the first occurrence of `needle` in `hay` begins at `i`.
pub open spec fn first_occurs_at(needle: Seq<char>, hay: Seq<char>, i: int) -> bool {
    &&& 0 <= i <= hay.len() - needle.len()
    &&& hay.subrange(i, i + needle.len()) == needle
    &&& forall|j: int| 0 <= j < i ==> #[trigger] hay.subrange(j, j + needle.len()) != needle
}

/// The parts of a text before and after the first occurrence of a
/// separator; `None` where the separator does not occur.
pub open spec fn split_once_text(s: Seq<char>, separator: Seq<char>) -> Option<
    (Seq<char>, Seq<char>),
> {
    if occurs_in(separator, s) {
        let i = choose|i: int| first_occurs_at(separator, s, i);
        Some((s.subrange(0, i), s.subrange(i + separator.len(), s.len() as int)))
    } else {
        None
    }
}

/// The parts of a string slice before and after the first occurrence of
/// a separator, by `str::split_once` of the standard library with a
/// string pattern, which is documented to split on the first occurrence
/// and to give what stands before it and what stands after it. The
/// result is taken to be [`split_once_text`].
#[verifier::external_body]
pub(crate) fn split_once(s: &str, separator: &str) -> (r: Option<(String, String)>)
    ensures
        match r {
            Some((before, after)) => split_once_text(s@, separator@) == Some((before@, after@)),
            None => split_once_text(s@, separator@) is None,
        },
{
    s.split_once(separator).map(|(before, after)| (before.to_string(), after.to_string()))
}

/// Collects characters into a `String`, by `String`'s `FromIterator<char>`
/// of the standard library. The result is taken to hold exactly the given
/// characters in their order.
#[verifier::external_body]
pub(crate) fn string_from_chars(chars: &Vec<char>) -> (r: String)
    ensures
        r@ == chars@,
{
    chars.iter().collect()
}

/// The character of a decimal digit.
pub open spec fn digit_char(d: int) -> char
    recommends
        0 <= d <= 9,
{
    if d == 0 {
        '0'
    } else if d == 1 {
        '1'
    } else if d == 2 {
        '2'
    } else if d == 3 {
        '3'
    } else if d == 4 {
        '4'
    } else if d == 5 {
        '5'
    } else if d == 6 {
        '6'
    } else if d == 7 {
        '7'
    } else if d == 8 {
        '8'
    } else {
        '9'
    }
}

/// Decimal digits of a natural number, most significant first, without
/// leading zeros; zero is written `0`.
pub open spec fn decimal_digits(n: nat) -> Seq<char>
    decreases n,
{
    if n < 10 {
        seq![digit_char(n as int)]
    } else {
        decimal_digits(n / 10).push(digit_char((n % 10) as int))
    }
}

/// The decimal digits of a number are digits.
pub proof fn lemma_decimal_digits(n: nat)
    ensures
        forall|i: int|
            0 <= i < decimal_digits(n).len() ==> '0' <= (#[trigger] decimal_digits(n)[i]) <= '9',
    decreases n,
{
    let d = digit_char((n % 10) as int);
    assert('0' <= d <= '9');
    if n >= 10 {
        lemma_decimal_digits(n / 10);
        let before = decimal_digits(n / 10);
        assert forall|i: int| 0 <= i < decimal_digits(n).len() implies '0' <= (
        #[trigger] decimal_digits(n)[i]) <= '9' by {
            if i < before.len() {
                assert(decimal_digits(n)[i] == before[i]);
            }
        }
    } else {
        assert(decimal_digits(n) =~= seq![digit_char(n as int)]);
    }
}

/// Decimal rendering of an integer: a minus sign for negative numbers,
/// then the digits of its magnitude.
pub open spec fn decimal(n: int) -> Seq<char> {
    if n < 0 {
        seq!['-'] + decimal_digits((-n) as nat)
    } else {
        decimal_digits(n as nat)
    }
}

fn digit_of(d: u8) -> (c: char)
    requires
        d <= 9,
    ensures
        c == digit_char(d as int),
{
    if d == 0 {
        '0'
    } else if d == 1 {
        '1'
    } else if d == 2 {
        '2'
    } else if d == 3 {
        '3'
    } else if d == 4 {
        '4'
    } else if d == 5 {
        '5'
    } else if d == 6 {
        '6'
    } else if d == 7 {
        '7'
    } else if d == 8 {
        '8'
    } else {
        '9'
    }
}

/// Appends the decimal digits of `n` to `out`.
pub fn push_decimal_digits(out: &mut Vec<char>, n: u128)
    ensures
        final(out)@ == old(out)@ + decimal_digits(n as nat),
    decreases n,
{
    if n < 10 {
        let d: u8 = n as u8;
        out.push(digit_of(d));
        assert(final(out)@ =~= old(out)@ + decimal_digits(n as nat));
    } else {
        push_decimal_digits(out, n / 10);
        let d: u8 = (n % 10) as u8;
        out.push(digit_of(d));
        assert(final(out)@ =~= old(out)@ + decimal_digits(n as nat));
    }
}

/// Appends the decimal rendering of `n` to `out`.
pub fn push_decimal(out: &mut Vec<char>, n: i128)
    ensures
        final(out)@ == old(out)@ + decimal(n as int),
{
    if n < 0 {
        out.push('-');
        let magnitude: u128 = if n == i128::MIN {
            0x8000_0000_0000_0000_0000_0000_0000_0000u128
        } else {
            (-n) as u128
        };
        push_decimal_digits(out, magnitude);
        assert(final(out)@ =~= old(out)@ + decimal(n as int));
    } else {
        push_decimal_digits(out, n as u128);
    }
}

/// Decimal rendering of `n` as a string.
pub fn decimal_string(n: i128) -> (r: String)
    ensures
        r@ == decimal(n as int),
{
    let mut chars: Vec<char> = Vec::new();
    push_decimal(&mut chars, n);
    string_from_chars(&chars)
}

} // verus!
