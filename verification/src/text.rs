//! Scanning, trimming and decimal numbers on sequences of characters.

use vstd::prelude::*;

verus! {

/// The first index at or after `from` at which `s` holds `x`; the length of
/// `s` (or `from`, if that is larger) where it holds none.
pub open spec fn position<T>(s: Seq<T>, x: T, from: int) -> int
    decreases s.len() - from,
{
    if 0 <= from < s.len() && s[from] != x {
        position(s, x, from + 1)
    } else {
        from
    }
}

/// The first index at or after `from` whose element is not in `strip`.
pub open spec fn skip_while(s: Seq<char>, strip: spec_fn(char) -> bool, from: int) -> int
    decreases s.len() - from,
{
    if 0 <= from < s.len() && strip(s[from]) {
        skip_while(s, strip, from + 1)
    } else {
        from
    }
}

/// The end of `s[from..to]` once its trailing elements in `strip` are cut.
pub open spec fn drop_while(s: Seq<char>, strip: spec_fn(char) -> bool, from: int, to: int) -> int
    decreases to - from,
{
    if 0 <= from < to <= s.len() && strip(s[to - 1]) {
        drop_while(s, strip, from, to - 1)
    } else {
        to
    }
}

/// `s` without its leading and trailing elements in `strip`.
pub open spec fn trim_matching(s: Seq<char>, strip: spec_fn(char) -> bool) -> Seq<char> {
    let start = skip_while(s, strip, 0);
    s.subrange(start, drop_while(s, strip, start, s.len() as int))
}

/// `s` without its trailing elements in `strip`.
pub open spec fn trim_end_matching(s: Seq<char>, strip: spec_fn(char) -> bool) -> Seq<char> {
    s.subrange(0, drop_while(s, strip, 0, s.len() as int))
}

/// White space as Unicode defines it (the property `White_Space`).
pub open spec fn is_whitespace(c: char) -> bool {
    let code = c as u32;
    ||| 0x09 <= code <= 0x0D
    ||| code == 0x20
    ||| code == 0x85
    ||| code == 0xA0
    ||| code == 0x1680
    ||| 0x2000 <= code <= 0x200A
    ||| code == 0x2028
    ||| code == 0x2029
    ||| code == 0x202F
    ||| code == 0x205F
    ||| code == 0x3000
}

/// The characters that are cut from the ends of a text: double quotes
/// (`quotes`), or white space.
pub open spec fn stripped(quotes: bool) -> spec_fn(char) -> bool {
    |c: char|
        if quotes {
            c == '"'
        } else {
            is_whitespace(c)
        }
}

/// `s` without leading and trailing white space.
pub open spec fn trim(s: Seq<char>) -> Seq<char> {
    trim_matching(s, stripped(false))
}

/// `s` without trailing white space.
pub open spec fn trim_end(s: Seq<char>) -> Seq<char> {
    trim_end_matching(s, stripped(false))
}

/// `s` without leading and trailing double quotes, however many.
pub open spec fn strip_quotes(s: Seq<char>) -> Seq<char> {
    trim_matching(s, stripped(true))
}

/// Whether `s` begins with `prefix`.
pub open spec fn starts_with(s: Seq<char>, prefix: Seq<char>) -> bool {
    prefix.len() <= s.len() && s.subrange(0, prefix.len() as int) == prefix
}

/// Whether `c` is a decimal digit.
pub open spec fn is_digit(c: char) -> bool {
    '0' <= c <= '9'
}

/// The value of the decimal digit `c`.
pub open spec fn digit_value(c: char) -> nat {
    (c as u32 - '0' as u32) as nat
}

/// The number that the decimal digits `s` write, most significant first.
pub open spec fn decimal_value(s: Seq<char>) -> nat
    decreases s.len(),
{
    if s.len() == 0 {
        0
    } else {
        decimal_value(s.drop_last()) * 10 + digit_value(s.last())
    }
}

/// Whether `s` holds decimal digits only.
pub open spec fn all_digits(s: Seq<char>) -> bool {
    forall|i: int| 0 <= i < s.len() ==> is_digit(#[trigger] s[i])
}

/// What `s` denotes as a `u16`: one or more decimal digits whose value fits.
/// Anything else, a sign included, denotes nothing.
pub open spec fn parse_u16(s: Seq<char>) -> Option<u16> {
    if s.len() > 0 && all_digits(s) && decimal_value(s) <= u16::MAX {
        Some(decimal_value(s) as u16)
    } else {
        None
    }
}

/// The character of the decimal digit `d`.
pub open spec fn digit_char(d: nat) -> char {
    "0123456789"@[d as int]
}

/// `n` written in decimal, without leading zeros.
pub open spec fn decimal_text(n: nat) -> Seq<char>
    decreases n,
{
    if n < 10 {
        seq![digit_char(n)]
    } else {
        decimal_text(n / 10).push(digit_char(n % 10))
    }
}

/// `n` written in decimal, with a minus sign where it is negative.
pub open spec fn signed_decimal_text(n: int) -> Seq<char> {
    if n < 0 {
        seq!['-'] + decimal_text((-n) as nat)
    } else {
        decimal_text(n as nat)
    }
}

/// Where `position` points: at the first `x` from `from` on, or at the end.
pub proof fn lemma_position_bounds<T>(s: Seq<T>, x: T, from: int)
    requires
        0 <= from <= s.len(),
    ensures
        from <= position(s, x, from) <= s.len(),
        position(s, x, from) < s.len() ==> s[position(s, x, from)] == x,
        forall|i: int| from <= i < position(s, x, from) ==> s[i] != x,
    decreases s.len() - from,
{
    if from < s.len() && s[from] != x {
        lemma_position_bounds(s, x, from + 1);
    }
}

/// A longer run of digits is worth no less than its beginning.
proof fn lemma_decimal_value_grows(s: Seq<char>, n: int)
    requires
        0 <= n <= s.len(),
    ensures
        decimal_value(s.take(n)) <= decimal_value(s),
    decreases s.len() - n,
{
    if n == s.len() {
        assert(s.take(n) == s);
    } else {
        lemma_decimal_value_grows(s, n + 1);
        assert(s.take(n + 1).drop_last() == s.take(n));
    }
}

/// The characters of `s`, one by one.
pub fn chars_of(s: &str) -> (chars: Vec<char>)
    ensures
        chars@ == s@,
{
    let mut chars: Vec<char> = Vec::new();
    for c in it: s.chars()
        invariant
            chars@ == it.seq().take(it.index() as int),
            it.seq() == s@,
    {
        chars.push(c);
    }
    chars
}

/// Whether `c` is white space.
pub fn is_whitespace_char(c: char) -> (b: bool)
    ensures
        b == is_whitespace(c),
{
    let code: u32 = c as u32;
    (0x09 <= code && code <= 0x0D) || code == 0x20 || code == 0x85 || code == 0xA0 || code
        == 0x1680 || (0x2000 <= code && code <= 0x200A) || code == 0x2028 || code == 0x2029 || code
        == 0x202F || code == 0x205F || code == 0x3000
}

fn is_stripped(c: char, quotes: bool) -> (b: bool)
    ensures
        b == stripped(quotes)(c),
{
    if quotes {
        c == '"'
    } else {
        is_whitespace_char(c)
    }
}

/// The first index of `c` in `chars`, or their number where there is none.
pub fn find_char(chars: &Vec<char>, c: char) -> (index: usize)
    ensures
        index == position(chars@, c, 0),
        index <= chars.len(),
{
    let mut index: usize = 0;
    while index < chars.len() && chars[index] != c
        invariant
            index <= chars.len(),
            position(chars@, c, 0) == position(chars@, c, index as int),
        decreases chars.len() - index,
    {
        index += 1;
    }
    index
}

/// The bounds of `chars` without its leading and trailing double quotes
/// (`quotes`) or white space.
fn trim_bounds(chars: &Vec<char>, quotes: bool) -> (bounds: (usize, usize))
    ensures
        bounds.0 == skip_while(chars@, stripped(quotes), 0),
        bounds.1 == drop_while(chars@, stripped(quotes), bounds.0 as int, chars.len() as int),
        bounds.0 <= bounds.1 <= chars.len(),
{
    let mut start: usize = 0;
    while start < chars.len() && is_stripped(chars[start], quotes)
        invariant
            start <= chars.len(),
            skip_while(chars@, stripped(quotes), 0) == skip_while(
                chars@,
                stripped(quotes),
                start as int,
            ),
        decreases chars.len() - start,
    {
        start += 1;
    }
    let mut end: usize = chars.len();
    while start < end && is_stripped(chars[end - 1], quotes)
        invariant
            start <= end <= chars.len(),
            drop_while(chars@, stripped(quotes), start as int, chars.len() as int) == drop_while(
                chars@,
                stripped(quotes),
                start as int,
                end as int,
            ),
        decreases end - start,
    {
        end -= 1;
    }
    (start, end)
}

/// `s` without leading and trailing white space.
pub fn trimmed(s: &str) -> (t: &str)
    ensures
        t@ == trim(s@),
{
    let chars = chars_of(s);
    let (start, end) = trim_bounds(&chars, false);
    s.substring_char(start, end)
}

/// `s` without trailing white space.
pub fn trimmed_end(s: &str) -> (t: &str)
    ensures
        t@ == trim_end(s@),
{
    let chars = chars_of(s);
    let mut end: usize = chars.len();
    while 0 < end && is_whitespace_char(chars[end - 1])
        invariant
            end <= chars.len(),
            drop_while(chars@, stripped(false), 0, chars.len() as int) == drop_while(
                chars@,
                stripped(false),
                0,
                end as int,
            ),
        decreases end,
    {
        end -= 1;
    }
    s.substring_char(0, end)
}

/// `s` without leading and trailing double quotes.
pub fn unquoted(s: &str) -> (t: &str)
    ensures
        t@ == strip_quotes(s@),
{
    let chars = chars_of(s);
    let (start, end) = trim_bounds(&chars, true);
    s.substring_char(start, end)
}

/// Reads `chars` as a `u16`.
pub fn parse_u16_chars(chars: &Vec<char>) -> (value: Option<u16>)
    ensures
        value == parse_u16(chars@),
{
    if chars.len() == 0 {
        return None;
    }
    let mut value: u32 = 0;
    let mut index: usize = 0;
    while index < chars.len()
        invariant
            index <= chars.len(),
            all_digits(chars@.take(index as int)),
            value == decimal_value(chars@.take(index as int)),
            value <= u16::MAX,
        decreases chars.len() - index,
    {
        let c = chars[index];
        let ghost longer = chars@.take(index + 1);
        assert(longer.drop_last() == chars@.take(index as int));
        assert(longer.last() == c);
        if !('0' <= c && c <= '9') {
            assert(!is_digit(chars@[index as int]));
            return None;
        }
        let digit: u32 = c as u32 - '0' as u32;
        value = value * 10 + digit;
        if value > 65535 {
            proof {
                lemma_decimal_value_grows(chars@, index + 1);
            }
            return None;
        }
        assert forall|i: int| 0 <= i < longer.len() implies is_digit(#[trigger] longer[i]) by {
            if i < index {
                assert(longer[i] == chars@.take(index as int)[i]);
            }
        }
        index += 1;
    }
    assert(chars@.take(index as int) == chars@);
    Some(value as u16)
}

/// Appends `n` in decimal to `out`.
pub fn append_decimal(out: &mut String, n: u128)
    ensures
        final(out)@ == old(out)@ + decimal_text(n as nat),
    decreases n,
{
    if n >= 10 {
        append_decimal(out, n / 10);
    }
    let digit: usize = (n % 10) as usize;
    proof {
        reveal_strlit("0123456789");
    }
    let text = "0123456789".substring_char(digit, digit + 1);
    assert(text@ == seq![digit_char((n % 10) as nat)]);
    out.append(text);
    assert(final(out)@ == old(out)@ + decimal_text(n as nat)) by {
        if n >= 10 {
            assert(decimal_text(n as nat) == decimal_text((n / 10) as nat).push(
                digit_char((n % 10) as nat),
            ));
        }
    }
}

/// Appends `n` in decimal to `out`, with a minus sign where it is negative.
pub fn append_signed_decimal(out: &mut String, n: i32)
    ensures
        final(out)@ == old(out)@ + signed_decimal_text(n as int),
{
    if n < 0 {
        proof {
            reveal_strlit("-");
        }
        out.append("-");
        let magnitude: u128 = (-(n as i64)) as u128;
        append_decimal(out, magnitude);
        assert(old(out)@ + seq!['-'] + decimal_text((-n) as nat) == old(out)@ + (seq!['-']
            + decimal_text((-n) as nat)));
    } else {
        append_decimal(out, n as u128);
    }
}

} // verus!
