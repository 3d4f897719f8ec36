//! Reading of the figures that the operating system reports as text.

use vstd::prelude::*;
use vstd::string::StrSliceExecFns;
use crate::text::{
    after_spaces, after_word, bounded_digits, parse_digits, parse_i64_in, signed_value, skip_spaces,
    skip_word, trim_span, trimmed,
};

verus! {

/// Where the second word of a text starts and ends. Words are what white
/// space separates; a text with fewer words gives an empty range.
pub open spec fn second_word_span(s: Seq<char>) -> (int, int) {
    let first_start = after_spaces(s, 0);
    let first_end = after_word(s, first_start);
    let start = after_spaces(s, first_end);
    (start, after_word(s, start))
}

/// The unsigned 64-bit number that a word writes: decimal digits, with
/// one `+` before them allowed, and a value within the range.
pub open spec fn word_value(word: Seq<char>) -> Option<u64> {
    if word.len() > 0 && word[0] == '+' {
        bounded_digits(word.skip(1), u64::MAX)
    } else {
        bounded_digits(word, u64::MAX)
    }
}

/// The figure of a line such as `MemTotal:  4028416 kB`: the number that
/// its second word writes, and 0 where there is none.
pub open spec fn meminfo_value(line: Seq<char>) -> u64 {
    let span = second_word_span(line);
    match word_value(line.subrange(span.0, span.1)) {
        Some(v) => v,
        None => 0,
    }
}

/// Reads the figure of a line such as `MemTotal:  4028416 kB`.
pub fn parse_meminfo_kb(line: &str) -> (kb: u64)
    ensures
        kb == meminfo_value(line@),
{
    let len: usize = line.unicode_len();
    let first_start = skip_spaces(line, len, 0);
    let first_end = skip_word(line, len, first_start);
    let start = skip_spaces(line, len, first_end);
    let end = skip_word(line, len, start);
    let ghost word = line@.subrange(start as int, end as int);
    if start == end {
        return 0;
    }
    let mut digits_start: usize = start;
    if line.get_char(start) == '+' {
        digits_start = start + 1;
    }
    assert(line@.subrange(digits_start as int, end as int) =~= if word.len() > 0 && word[0] == '+' {
        word.skip(1)
    } else {
        word
    });
    match parse_digits(line, digits_start, end, u64::MAX) {
        Some(v) => v,
        None => 0,
    }
}

/// Throttling state of a Raspberry Pi, as its firmware reports it.
#[derive(Debug, Clone, Copy, PartialEq, Eq, Structural)]
pub struct ThrottleStatus {
    /// Under-voltage now.
    pub under_voltage: bool,
    /// Frequency capped now.
    pub freq_capped: bool,
    /// Throttled now.
    pub throttled: bool,
    /// Soft temperature limit reached now.
    pub soft_temp_limit: bool,
    /// Under-voltage since boot.
    pub under_voltage_occurred: bool,
    /// Frequency capped since boot.
    pub freq_capped_occurred: bool,
    /// Throttled since boot.
    pub throttled_occurred: bool,
    /// Soft temperature limit reached since boot.
    pub soft_temp_limit_occurred: bool,
}

impl ThrottleStatus {
    /// The state that a word of flags stands for: bits 0 to 3 are the
    /// present state, bits 16 to 19 what has occurred since boot.
    pub open spec fn of_flags(flags: u32) -> ThrottleStatus {
        ThrottleStatus {
            under_voltage: flags & 0x1 != 0,
            freq_capped: flags & 0x2 != 0,
            throttled: flags & 0x4 != 0,
            soft_temp_limit: flags & 0x8 != 0,
            under_voltage_occurred: flags & 0x1_0000 != 0,
            freq_capped_occurred: flags & 0x2_0000 != 0,
            throttled_occurred: flags & 0x4_0000 != 0,
            soft_temp_limit_occurred: flags & 0x8_0000 != 0,
        }
    }

    /// The state that a word of flags stands for.
    pub fn from_flags(flags: u32) -> (status: Self)
        ensures
            status == Self::of_flags(flags),
    {
        ThrottleStatus {
            under_voltage: flags & 0x1 != 0,
            freq_capped: flags & 0x2 != 0,
            throttled: flags & 0x4 != 0,
            soft_temp_limit: flags & 0x8 != 0,
            under_voltage_occurred: flags & 0x1_0000 != 0,
            freq_capped_occurred: flags & 0x2_0000 != 0,
            throttled_occurred: flags & 0x4_0000 != 0,
            soft_temp_limit_occurred: flags & 0x8_0000 != 0,
        }
    }
}

/// The temperature, in thousandths of a degree, that a thermal zone
/// reports: the signed 32-bit number that the text writes once white
/// space is trimmed from it.
pub open spec fn millidegrees_of(content: Seq<char>) -> Option<i32> {
    match signed_value(trimmed(content)) {
        Some(v) => if i32::MIN <= v <= i32::MAX {
            Some(v as i32)
        } else {
            None
        },
        None => None,
    }
}

/// Reads the temperature that a thermal zone reports.
pub fn parse_millidegrees(content: &str) -> (r: Option<i32>)
    ensures
        r == millidegrees_of(content@),
{
    let span = trim_span(content);
    match parse_i64_in(content, span.0, span.1) {
        Some(v) => {
            if v >= -2147483648 && v <= 2147483647 {
                Some(v as i32)
            } else {
                None
            }
        },
        None => None,
    }
}

/// The value of a hexadecimal digit, if the character is one.
pub open spec fn hex_digit_of(c: char) -> Option<nat> {
    let n = c as u32;
    if 0x30 <= n <= 0x39 {
        Some((n - 0x30) as nat)
    } else if 0x61 <= n <= 0x66 {
        Some((n - 0x61 + 10) as nat)
    } else if 0x41 <= n <= 0x46 {
        Some((n - 0x41 + 10) as nat)
    } else {
        None
    }
}

/// The number that a text of hexadecimal digits writes; a text that is
/// empty or holds anything else writes none.
pub open spec fn hex_value(t: Seq<char>) -> Option<nat>
    decreases t.len(),
{
    if t.len() == 0 {
        None
    } else if t.len() == 1 {
        hex_digit_of(t[0])
    } else {
        match (hex_value(t.drop_last()), hex_digit_of(t.last())) {
            (Some(high), Some(low)) => Some(high * 16 + low),
            _ => None,
        }
    }
}

/// The unsigned 32-bit number that a word writes in hexadecimal digits,
/// with one `+` before them allowed.
pub open spec fn hex_u32(word: Seq<char>) -> Option<u32> {
    let digits = if word.len() > 0 && word[0] == '+' {
        word.skip(1)
    } else {
        word
    };
    match hex_value(digits) {
        Some(v) => if v <= u32::MAX {
            Some(v as u32)
        } else {
            None
        },
        None => None,
    }
}

/// A text of hexadecimal digits writes at least what any shorter
/// beginning of it writes, and nothing where a beginning writes nothing.
pub proof fn lemma_hex_grows(t: Seq<char>, n: int)
    requires
        1 <= n <= t.len(),
    ensures
        hex_value(t.take(n)).is_none() ==> hex_value(t).is_none(),
        hex_value(t) matches Some(v) ==> hex_value(t.take(n)).unwrap() <= v,
    decreases t.len() - n,
{
    if n < t.len() {
        lemma_hex_grows(t, n + 1);
        assert(t.take(n + 1).drop_last() =~= t.take(n));
    } else {
        assert(t.take(n) =~= t);
    }
}

fn hex_digit(c: char) -> (r: Option<u32>)
    ensures
        match r {
            Some(d) => hex_digit_of(c) == Some(d as nat) && d < 16,
            None => hex_digit_of(c).is_none(),
        },
{
    let n: u32 = c as u32;
    if 0x30 <= n && n <= 0x39 {
        Some(n - 0x30)
    } else if 0x61 <= n && n <= 0x66 {
        Some(n - 0x61 + 10)
    } else if 0x41 <= n && n <= 0x46 {
        Some(n - 0x41 + 10)
    } else {
        None
    }
}

/// Reads the unsigned 32-bit number that the characters from `start` to
/// `end` of a text write in hexadecimal.
pub fn parse_hex_u32_in(text: &str, start: usize, end: usize) -> (r: Option<u32>)
    requires
        start <= end <= text@.len(),
    ensures
        r == hex_u32(text@.subrange(start as int, end as int)),
{
    let ghost word = text@.subrange(start as int, end as int);
    if start == end {
        return None;
    }
    let mut first: usize = start;
    if text.get_char(start) == '+' {
        first = start + 1;
    }
    let ghost digits = text@.subrange(first as int, end as int);
    assert(digits =~= if word.len() > 0 && word[0] == '+' {
        word.skip(1)
    } else {
        word
    });
    if first == end {
        return None;
    }
    let mut value: u32 = 0;
    let mut i: usize = first;
    while i < end
        invariant
            start <= first <= i <= end,
            first < end,
            end <= text@.len(),
            word == text@.subrange(start as int, end as int),
            digits == text@.subrange(first as int, end as int),
            hex_u32(word) == match hex_value(digits) {
                Some(v) => if v <= u32::MAX {
                    Some(v as u32)
                } else {
                    None
                },
                None => None,
            },
            i > first ==> hex_value(digits.take(i - first)) == Some(value as nat),
            i == first ==> value == 0,
        decreases end - i,
    {
        let c = text.get_char(i);
        let ghost upto = digits.take(i - first + 1);
        proof {
            assert(upto.last() == c);
            assert(upto.drop_last() =~= digits.take(i - first));
            lemma_hex_grows(digits, i - first + 1);
        }
        match hex_digit(c) {
            None => {
                assert(hex_value(upto).is_none());
                return None;
            },
            Some(d) => {
                if value > (u32::MAX - d) / 16 {
                    assert(hex_value(upto).unwrap() > u32::MAX);
                    return None;
                }
                value = value * 16 + d;
            },
        }
        i += 1;
    }
    assert(digits.take(end - first) =~= digits);
    Some(value)
}

/// What the firmware's answer on throttling starts with.
pub open spec fn throttled_prefix() -> Seq<char> {
    "throttled=0x"@
}

/// The throttling state that the firmware's answer reports: after the
/// prefix `throttled=0x`, the flags in hexadecimal. White space round the
/// answer is ignored; any other answer reports nothing.
pub open spec fn throttled_of(output: Seq<char>) -> Option<ThrottleStatus> {
    let answer = trimmed(output);
    let prefix = throttled_prefix();
    if answer.len() >= prefix.len() && answer.subrange(0, prefix.len() as int) == prefix {
        match hex_u32(answer.skip(prefix.len() as int)) {
            Some(flags) => Some(ThrottleStatus::of_flags(flags)),
            None => None,
        }
    } else {
        None
    }
}

/// Whether the characters of `text` from `start` on begin with `prefix`.
pub fn has_prefix_at(text: &str, start: usize, end: usize, prefix: &str) -> (r: bool)
    requires
        start <= end <= text@.len(),
    ensures
        r == (end - start >= prefix@.len() && text@.subrange(start as int, start + prefix@.len())
            == prefix@),
{
    let n: usize = prefix.unicode_len();
    if end - start < n {
        return false;
    }
    let mut k: usize = 0;
    while k < n
        invariant
            k <= n,
            n == prefix@.len(),
            start + n <= end,
            end <= text@.len(),
            forall|j: int| 0 <= j < k ==> text@[start + j] == #[trigger] prefix@[j],
        decreases n - k,
    {
        if text.get_char(start + k) != prefix.get_char(k) {
            assert(text@.subrange(start as int, start + n)[k as int] != prefix@[k as int]);
            return false;
        }
        k += 1;
    }
    assert(text@.subrange(start as int, start + n) =~= prefix@);
    true
}

/// Reads the throttling state from the firmware's answer.
pub fn parse_throttled(output: &str) -> (r: Option<ThrottleStatus>)
    ensures
        r == throttled_of(output@),
{
    proof {
        reveal_strlit("throttled=0x");
    }
    let span = trim_span(output);
    let ghost answer = output@.subrange(span.0 as int, span.1 as int);
    if !has_prefix_at(output, span.0, span.1, "throttled=0x") {
        assert(answer.len() >= 12 ==> answer.subrange(0, 12) =~= output@.subrange(
            span.0 as int,
            span.0 + 12,
        ));
        return None;
    }
    assert(answer.subrange(0, 12) =~= output@.subrange(span.0 as int, span.0 + 12));
    assert(answer.skip(12) =~= output@.subrange(span.0 + 12, span.1 as int));
    match parse_hex_u32_in(output, span.0 + 12, span.1) {
        Some(flags) => Some(ThrottleStatus::from_flags(flags)),
        None => None,
    }
}

/// Where the line that starts at `from` ends: at the next line feed, or
/// at the end of the text.
pub open spec fn line_end(s: Seq<char>, from: int) -> int
    decreases s.len() - from,
{
    if 0 <= from < s.len() && s[from] != '\n' {
        line_end(s, from + 1)
    } else {
        from
    }
}

/// A line ends at or after its start, within the text.
pub proof fn lemma_line_end(s: Seq<char>, from: int)
    requires
        0 <= from <= s.len(),
    ensures
        from <= line_end(s, from) <= s.len(),
    decreases s.len() - from,
{
    if from < s.len() && s[from] != '\n' {
        lemma_line_end(s, from + 1);
    }
}

/// Whether a line begins with a prefix.
pub open spec fn begins_with(line: Seq<char>, prefix: Seq<char>) -> bool {
    line.len() >= prefix.len() && line.subrange(0, prefix.len() as int) == prefix
}

/// A figure in kilobytes as bytes; one too large to hold counts as the
/// largest number there is.
pub open spec fn kb_as_bytes(kb: u64) -> u64 {
    if kb * 1024 > u64::MAX {
        u64::MAX
    } else {
        (kb * 1024) as u64
    }
}

/// Total and available memory, in bytes, as a memory report states them
/// from position `from` on, given what was found before. Each line that
/// begins with `MemTotal:` or `MemAvailable:` sets the figure it names;
/// reading stops once both figures are above zero.
pub open spec fn memory_from(s: Seq<char>, from: int, total: u64, available: u64) -> (u64, u64)
    decreases s.len() + 1 - from,
{
    if 0 <= from < s.len() {
        let end = line_end(s, from);
        let line = s.subrange(from, end);
        let total_here = if begins_with(line, "MemTotal:"@) {
            kb_as_bytes(meminfo_value(line))
        } else {
            total
        };
        let available_here = if !begins_with(line, "MemTotal:"@) && begins_with(line, "MemAvailable:"@) {
            kb_as_bytes(meminfo_value(line))
        } else {
            available
        };
        if total_here > 0 && available_here > 0 {
            (total_here, available_here)
        } else if from <= end <= s.len() {
            memory_from(s, end + 1, total_here, available_here)
        } else {
            (total_here, available_here)
        }
    } else {
        (total, available)
    }
}

fn find_line_end(text: &str, len: usize, from: usize) -> (end: usize)
    requires
        len == text@.len(),
        from <= len,
    ensures
        end as int == line_end(text@, from as int),
        from <= end <= len,
{
    let mut i: usize = from;
    while i < len
        invariant
            from <= i <= len,
            len == text@.len(),
            line_end(text@, i as int) == line_end(text@, from as int),
        decreases len - i,
    {
        if text.get_char(i) == '\n' {
            return i;
        }
        i += 1;
    }
    i
}

fn bytes_of_kb(kb: u64) -> (bytes: u64)
    ensures
        bytes == kb_as_bytes(kb),
{
    match kb.checked_mul(1024) {
        Some(bytes) => bytes,
        None => u64::MAX,
    }
}

/// Reads total and available memory, in bytes, from a memory report of
/// lines such as `MemTotal:  4028416 kB`. A figure that the report lacks
/// is 0.
pub fn parse_memory_info(content: &str) -> (r: (u64, u64))
    ensures
        r == memory_from(content@, 0, 0, 0),
{
    let len: usize = content.unicode_len();
    let mut total: u64 = 0;
    let mut available: u64 = 0;
    let mut from: usize = 0;
    while from < len
        invariant
            from <= len,
            len == content@.len(),
            memory_from(content@, from as int, total, available) == memory_from(content@, 0, 0, 0),
        decreases len - from,
    {
        let end = find_line_end(content, len, from);
        let line = content.substring_char(from, end);
        if has_prefix_at(content, from, end, "MemTotal:") {
            assert(line@.subrange(0, "MemTotal:"@.len() as int) =~= content@.subrange(
                from as int,
                from + "MemTotal:"@.len(),
            ));
            total = bytes_of_kb(parse_meminfo_kb(line));
        } else {
            assert(line@.len() >= "MemTotal:"@.len() ==> line@.subrange(0, "MemTotal:"@.len() as int)
                =~= content@.subrange(from as int, from + "MemTotal:"@.len()));
            if has_prefix_at(content, from, end, "MemAvailable:") {
                assert(line@.subrange(0, "MemAvailable:"@.len() as int) =~= content@.subrange(
                    from as int,
                    from + "MemAvailable:"@.len(),
                ));
                available = bytes_of_kb(parse_meminfo_kb(line));
            } else {
                assert(line@.len() >= "MemAvailable:"@.len() ==> line@.subrange(
                    0,
                    "MemAvailable:"@.len() as int,
                ) =~= content@.subrange(from as int, from + "MemAvailable:"@.len()));
            }
        }
        if total > 0 && available > 0 {
            return (total, available);
        }
        if end >= len {
            // the last line has been read
            assert(memory_from(content@, end + 1, total, available) == (total, available));
            return (total, available);
        }
        from = end + 1;
    }
    (total, available)
}

} // verus!
