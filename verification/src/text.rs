//! Text helpers: the keys under which control values are stored, numbers
//! written in digits, and white space.

use vstd::prelude::*;
use vstd::string::{StrSliceExecFns, StringExecFns};

verus! {

/// The lowercase form of a text, as the standard library's Unicode case
/// mapping gives it.
pub uninterp spec fn lowercase(s: Seq<char>) -> Seq<char>;

/// A text with every occurrence of the character `from` replaced by the
/// text `to`.
pub open spec fn replaced(s: Seq<char>, from: char, to: Seq<char>) -> Seq<char>
    decreases s.len(),
{
    if s.len() == 0 {
        s
    } else if s.last() == from {
        replaced(s.drop_last(), from, to) + to
    } else {
        replaced(s.drop_last(), from, to).push(s.last())
    }
}

/// `str::to_lowercase`: the result is the lowercase form of the argument,
/// a function of the argument alone.
#[verifier::external_body]
pub(crate) fn to_lowercase(s: &str) -> (r: String)
    ensures
        r@ == lowercase(s@),
{
    s.to_lowercase()
}

/// Replaces every occurrence of a character in a text by another text.
pub fn replace_char(s: &str, from: char, to: &str) -> (r: String)
    ensures
        r@ == replaced(s@, from, to@),
{
    let n: usize = s.unicode_len();
    let mut out = String::new();
    let mut i: usize = 0;
    assert(s@.take(0) =~= Seq::<char>::empty());
    while i < n
        invariant
            i <= n,
            n == s@.len(),
            out@ == replaced(s@.take(i as int), from, to@),
        decreases n - i,
    {
        let ghost upto = s@.take(i + 1);
        assert(upto.drop_last() =~= s@.take(i as int));
        assert(upto.last() == s@[i as int]);
        if s.get_char(i) == from {
            out.append(to);
        } else {
            let one = s.substring_char(i, i + 1);
            assert(one@ =~= seq![s@[i as int]]);
            out.append(one);
            assert(out@ =~= replaced(s@.take(i as int), from, to@).push(s@[i as int]));
        }
        i += 1;
    }
    assert(s@.take(n as int) =~= s@);
    out
}

/// The key under which a control's value is stored in a configuration:
/// its name in lowercase, with underscores for spaces.
pub open spec fn settings_key_of(name: Seq<char>) -> Seq<char> {
    replaced(lowercase(name), ' ', seq!['_'])
}

/// The lowercase control name that a settings key stands for: the key in
/// lowercase, with spaces for underscores.
pub open spec fn control_name_of(key: Seq<char>) -> Seq<char> {
    replaced(lowercase(key), '_', seq![' '])
}

/// The settings key of a control name.
pub fn settings_key(name: &str) -> (key: String)
    ensures
        key@ == settings_key_of(name@),
{
    proof {
        reveal_strlit("_");
        assert("_"@ =~= seq!['_']);
    }
    let lower = to_lowercase(name);
    replace_char(lower.as_str(), ' ', "_")
}

/// The lowercase control name of a settings key.
pub fn control_name(key: &str) -> (name: String)
    ensures
        name@ == control_name_of(key@),
{
    proof {
        reveal_strlit(" ");
        assert(" "@ =~= seq![' ']);
    }
    let lower = to_lowercase(key);
    replace_char(lower.as_str(), '_', " ")
}

/// The character of a decimal digit.
pub open spec fn digit_char(d: nat) -> char
    recommends
        d < 10,
{
    if d == 0 {
        '0'
    } else if d == 1 {
        '1'
    } else if d == 2 {
        '2'
    } else if d == 3 {
        '3'
    } else if d == 4 {
        '4'
    } else if d == 5 {
        '5'
    } else if d == 6 {
        '6'
    } else if d == 7 {
        '7'
    } else if d == 8 {
        '8'
    } else {
        '9'
    }
}

/// A number written in decimal, without a sign or leading zeros.
pub open spec fn decimal(n: nat) -> Seq<char>
    decreases n,
{
    if n < 10 {
        seq![digit_char(n)]
    } else {
        decimal(n / 10).push(digit_char(n % 10))
    }
}

fn digit_text(d: u32) -> (r: &'static str)
    requires
        d < 10,
    ensures
        r@ == seq![digit_char(d as nat)],
{
    proof {
        reveal_strlit("0");
        reveal_strlit("1");
        reveal_strlit("2");
        reveal_strlit("3");
        reveal_strlit("4");
        reveal_strlit("5");
        reveal_strlit("6");
        reveal_strlit("7");
        reveal_strlit("8");
        reveal_strlit("9");
    }
    let r = if d == 0 {
        "0"
    } else if d == 1 {
        "1"
    } else if d == 2 {
        "2"
    } else if d == 3 {
        "3"
    } else if d == 4 {
        "4"
    } else if d == 5 {
        "5"
    } else if d == 6 {
        "6"
    } else if d == 7 {
        "7"
    } else if d == 8 {
        "8"
    } else {
        "9"
    };
    assert(r@ =~= seq![digit_char(d as nat)]);
    r
}

/// Writes a number in decimal.
pub fn decimal_string(n: u32) -> (r: String)
    ensures
        r@ == decimal(n as nat),
    decreases n,
{
    if n < 10 {
        String::from_str(digit_text(n))
    } else {
        let mut r = decimal_string(n / 10);
        r.append(digit_text(n % 10));
        assert(r@ =~= decimal((n / 10) as nat).push(digit_char((n % 10) as nat)));
        r
    }
}

/// The value of a decimal digit, if the character is one.
pub open spec fn digit_of(c: char) -> Option<nat> {
    let n = c as u32;
    if 0x30 <= n <= 0x39 {
        Some((n - 0x30) as nat)
    } else {
        None
    }
}

/// The number that a text of decimal digits writes; a text that is empty
/// or holds anything else writes none.
pub open spec fn digits_value(t: Seq<char>) -> Option<nat>
    decreases t.len(),
{
    if t.len() == 0 {
        None
    } else if t.len() == 1 {
        digit_of(t[0])
    } else {
        match (digits_value(t.drop_last()), digit_of(t.last())) {
            (Some(high), Some(low)) => Some(high * 10 + low),
            _ => None,
        }
    }
}

/// The number that a text of digits writes, if it is no more than
/// `limit`.
pub open spec fn bounded_digits(digits: Seq<char>, limit: u64) -> Option<u64> {
    match digits_value(digits) {
        Some(v) => if v <= limit {
            Some(v as u64)
        } else {
            None
        },
        None => None,
    }
}

/// A text of digits writes at least what any shorter beginning of it
/// writes, and it writes nothing where a beginning does not.
pub proof fn lemma_digits_grow(t: Seq<char>, n: int)
    requires
        1 <= n <= t.len(),
    ensures
        digits_value(t.take(n)).is_none() ==> digits_value(t).is_none(),
        digits_value(t) matches Some(v) ==> digits_value(t.take(n)).unwrap() <= v,
    decreases t.len() - n,
{
    if n < t.len() {
        lemma_digits_grow(t, n + 1);
        assert(t.take(n + 1).drop_last() =~= t.take(n));
    } else {
        assert(t.take(n) =~= t);
    }
}

/// Reads the number that the characters from `start` to `end` of a text
/// write in decimal digits, if it is no more than `limit`.
pub fn parse_digits(text: &str, start: usize, end: usize, limit: u64) -> (r: Option<u64>)
    requires
        start <= end <= text@.len(),
    ensures
        r == bounded_digits(text@.subrange(start as int, end as int), limit),
{
    let ghost digits = text@.subrange(start as int, end as int);
    let mut value: u64 = 0;
    let mut i: usize = start;
    while i < end
        invariant
            start <= i <= end,
            end <= text@.len(),
            digits == text@.subrange(start as int, end as int),
            i > start ==> digits_value(digits.take(i - start)) == Some(value as nat),
            i == start ==> value == 0,
            value <= limit,
        decreases end - i,
    {
        let c = text.get_char(i);
        let n: u32 = c as u32;
        let ghost upto = digits.take(i - start + 1);
        proof {
            assert(upto.last() == c);
            assert(upto.drop_last() =~= digits.take(i - start));
            lemma_digits_grow(digits, i - start + 1);
        }
        if n < 0x30 || n > 0x39 {
            assert(digits_value(upto).is_none());
            return None;
        }
        let d: u64 = (n - 0x30) as u64;
        if d > limit || value > (limit - d) / 10 {
            assert(digits_value(upto).unwrap() > limit);
            return None;
        }
        value = value * 10 + d;
        i += 1;
    }
    if start == end {
        return None;
    }
    assert(digits.take(end - start) =~= digits);
    Some(value)
}

/// The signed 64-bit number that a text writes: decimal digits with one
/// `+` or `-` before them allowed, and a value within the range.
pub open spec fn signed_value(text: Seq<char>) -> Option<i64> {
    if text.len() > 0 && text[0] == '-' {
        match bounded_digits(text.skip(1), 0x8000_0000_0000_0000) {
            Some(v) => Some((-(v as int)) as i64),
            None => None,
        }
    } else if text.len() > 0 && text[0] == '+' {
        match bounded_digits(text.skip(1), 0x7fff_ffff_ffff_ffff) {
            Some(v) => Some(v as i64),
            None => None,
        }
    } else {
        match bounded_digits(text, 0x7fff_ffff_ffff_ffff) {
            Some(v) => Some(v as i64),
            None => None,
        }
    }
}

/// Reads the signed 64-bit number that the characters from `start` to
/// `end` of a text write in decimal.
pub fn parse_i64_in(text: &str, start: usize, end: usize) -> (r: Option<i64>)
    requires
        start <= end <= text@.len(),
    ensures
        r == signed_value(text@.subrange(start as int, end as int)),
{
    let ghost word = text@.subrange(start as int, end as int);
    if start == end {
        return match parse_digits(text, start, end, 0x7fff_ffff_ffff_ffff) {
            Some(v) => Some(v as i64),
            None => None,
        };
    }
    let first = text.get_char(start);
    assert(first == word[0]);
    if first == '-' {
        assert(text@.subrange(start + 1, end as int) =~= word.skip(1));
        match parse_digits(text, start + 1, end, 0x8000_0000_0000_0000) {
            Some(v) => {
                if v == 0x8000_0000_0000_0000 {
                    Some(i64::MIN)
                } else {
                    Some(-(v as i64))
                }
            },
            None => None,
        }
    } else if first == '+' {
        assert(text@.subrange(start + 1, end as int) =~= word.skip(1));
        match parse_digits(text, start + 1, end, 0x7fff_ffff_ffff_ffff) {
            Some(v) => Some(v as i64),
            None => None,
        }
    } else {
        match parse_digits(text, start, end, 0x7fff_ffff_ffff_ffff) {
            Some(v) => Some(v as i64),
            None => None,
        }
    }
}

/// Reads a signed 64-bit number written in decimal.
pub fn parse_i64(text: &str) -> (r: Option<i64>)
    ensures
        r == signed_value(text@),
{
    let len: usize = text.unicode_len();
    assert(text@.subrange(0, len as int) =~= text@);
    parse_i64_in(text, 0, len)
}

/// Whether a character is white space as Unicode defines it.
pub open spec fn is_space(c: char) -> bool {
    let n = c as u32;
    (0x09 <= n <= 0x0d) || n == 0x20 || n == 0x85 || n == 0xa0 || n == 0x1680 || (0x2000 <= n
        <= 0x200a) || n == 0x2028 || n == 0x2029 || n == 0x202f || n == 0x205f || n == 0x3000
}

/// Tells white space from other characters.
pub fn char_is_space(c: char) -> (r: bool)
    ensures
        r == is_space(c),
{
    let n: u32 = c as u32;
    (0x09 <= n && n <= 0x0d) || n == 0x20 || n == 0x85 || n == 0xa0 || n == 0x1680 || (0x2000 <= n
        && n <= 0x200a) || n == 0x2028 || n == 0x2029 || n == 0x202f || n == 0x205f || n == 0x3000
}

/// The first position from `from` on that holds no white space, or the
/// length of the text.
pub open spec fn after_spaces(s: Seq<char>, from: int) -> int
    decreases s.len() - from,
{
    if 0 <= from < s.len() && is_space(s[from]) {
        after_spaces(s, from + 1)
    } else {
        from
    }
}

/// The first position from `from` on that holds white space, or the
/// length of the text.
pub open spec fn after_word(s: Seq<char>, from: int) -> int
    decreases s.len() - from,
{
    if 0 <= from < s.len() && !is_space(s[from]) {
        after_word(s, from + 1)
    } else {
        from
    }
}

/// Where the white space at the end of a text starts, looking no
/// further back than `floor`.
pub open spec fn before_spaces(s: Seq<char>, floor: int, end: int) -> int
    decreases end - floor,
{
    if floor < end <= s.len() && is_space(s[end - 1]) {
        before_spaces(s, floor, end - 1)
    } else {
        end
    }
}

/// A text without the white space at its start and at its end.
pub open spec fn trimmed(s: Seq<char>) -> Seq<char> {
    let start = after_spaces(s, 0);
    s.subrange(start, before_spaces(s, start, s.len() as int))
}

/// Finds the end of the white space that starts at `from`.
pub fn skip_spaces(text: &str, len: usize, from: usize) -> (at: usize)
    requires
        len == text@.len(),
        from <= len,
    ensures
        at as int == after_spaces(text@, from as int),
        from <= at <= len,
{
    let mut i: usize = from;
    while i < len
        invariant
            from <= i <= len,
            len == text@.len(),
            after_spaces(text@, i as int) == after_spaces(text@, from as int),
        decreases len - i,
    {
        if !char_is_space(text.get_char(i)) {
            return i;
        }
        i += 1;
    }
    i
}

/// Finds the end of the word that starts at `from`.
pub fn skip_word(text: &str, len: usize, from: usize) -> (at: usize)
    requires
        len == text@.len(),
        from <= len,
    ensures
        at as int == after_word(text@, from as int),
        from <= at <= len,
{
    let mut i: usize = from;
    while i < len
        invariant
            from <= i <= len,
            len == text@.len(),
            after_word(text@, i as int) == after_word(text@, from as int),
        decreases len - i,
    {
        if char_is_space(text.get_char(i)) {
            return i;
        }
        i += 1;
    }
    i
}

/// Finds where a text starts and ends once white space is trimmed from
/// both ends.
pub fn trim_span(text: &str) -> (span: (usize, usize))
    ensures
        span.0 <= span.1 <= text@.len(),
        text@.subrange(span.0 as int, span.1 as int) == trimmed(text@),
{
    let len: usize = text.unicode_len();
    let start = skip_spaces(text, len, 0);
    let mut end: usize = len;
    while end > start
        invariant
            start <= end <= len,
            len == text@.len(),
            start as int == after_spaces(text@, 0),
            before_spaces(text@, start as int, end as int) == before_spaces(
                text@,
                start as int,
                len as int,
            ),
        decreases end - start,
    {
        if !char_is_space(text.get_char(end - 1)) {
            return (start, end);
        }
        end -= 1;
    }
    (start, end)
}

} // verus!
