//! Text as a sequence of characters: conversion, trimming, splitting, numbers.
use vstd::prelude::*;

verus! {

/// Describes `String::push`: the character is put behind the text.
pub assume_specification[ String::push ](receiver: &mut String, ch: char)
    ensures
        final(receiver)@ == old(receiver)@.push(ch),
;

/// The characters of a text, in order.
pub fn chars_of(text: &str) -> (chars: Vec<char>)
    ensures
        chars@ == text@,
{
    let mut chars: Vec<char> = Vec::new();
    for ch in iter: text.chars()
        invariant
            iter.seq() == text@,
            chars@ == text@.take(iter.index()),
    {
        chars.push(ch);
    }
    assert(text@.take(text@.len() as int) == text@);
    chars
}

/// The text that a slice of characters spells.
pub fn text_of(chars: &[char]) -> (text: String)
    ensures
        text@ == chars@,
{
    let mut text: String = String::new();
    let mut i: usize = 0;
    while i < chars.len()
        invariant
            i <= chars@.len(),
            text@ == chars@.take(i as int),
        decreases chars@.len() - i,
    {
        text.push(chars[i]);
        i = i + 1;
    }
    assert(chars@.take(chars@.len() as int) == chars@);
    text
}

/// Whether two texts hold the same characters.
pub fn same_text(left: &str, right: &str) -> (same: bool)
    ensures
        same == (left@ == right@),
{
    let left_chars: Vec<char> = chars_of(left);
    let right_chars: Vec<char> = chars_of(right);
    same_chars(left_chars.as_slice(), right_chars.as_slice())
}

/// Whether two slices of characters are equal.
pub fn same_chars(left: &[char], right: &[char]) -> (same: bool)
    ensures
        same == (left@ == right@),
{
    if left.len() != right.len() {
        return false;
    }
    let mut i: usize = 0;
    while i < left.len()
        invariant
            i <= left@.len(),
            left@.len() == right@.len(),
            forall|j: int| 0 <= j < i ==> left@[j] == right@[j],
        decreases left@.len() - i,
    {
        if left[i] != right[i] {
            assert(left@[i as int] != right@[i as int]);
            return false;
        }
        i = i + 1;
    }
    assert(left@ =~= right@);
    true
}

/// The texts that strings hold.
pub open spec fn texts(strings: Seq<String>) -> Seq<Seq<char>> {
    strings.map_values(|string: String| string@)
}

/// What an optional text holds.
pub open spec fn optional(value: Option<String>) -> Option<Seq<char>> {
    match value {
        Some(text) => Some(text@),
        None => None,
    }
}

/// A copy of an optional text.
pub fn copy_optional(value: &Option<String>) -> (copy: Option<String>)
    ensures
        optional(copy) == optional(*value),
{
    match value {
        Some(text) => Some(text.clone()),
        None => None,
    }
}

/// The characters with the Unicode property `White_Space`.
pub open spec fn is_white_space(ch: char) -> bool {
    ||| 0x9 <= ch as u32 <= 0xd
    ||| ch as u32 == 0x20
    ||| ch as u32 == 0x85
    ||| ch as u32 == 0xa0
    ||| ch as u32 == 0x1680
    ||| 0x2000 <= ch as u32 <= 0x200a
    ||| ch as u32 == 0x2028
    ||| ch as u32 == 0x2029
    ||| ch as u32 == 0x202f
    ||| ch as u32 == 0x205f
    ||| ch as u32 == 0x3000
}

/// Whether a character is white space.
pub fn white_space(ch: char) -> (yes: bool)
    ensures
        yes == is_white_space(ch),
{
    let code: u32 = ch as u32;
    (0x9 <= code && code <= 0xd) || code == 0x20 || code == 0x85 || code == 0xa0 || code == 0x1680
        || (0x2000 <= code && code <= 0x200a) || code == 0x2028 || code == 0x2029 || code == 0x202f
        || code == 0x205f || code == 0x3000
}

/// A text without the white space at its start.
pub open spec fn trimmed_start(s: Seq<char>) -> Seq<char>
    decreases s.len(),
{
    if s.len() > 0 && is_white_space(s[0]) {
        trimmed_start(s.skip(1))
    } else {
        s
    }
}

/// A text without the white space at its end.
pub open spec fn trimmed_end(s: Seq<char>) -> Seq<char>
    decreases s.len(),
{
    if s.len() > 0 && is_white_space(s.last()) {
        trimmed_end(s.drop_last())
    } else {
        s
    }
}

/// A text without the white space around it.
pub open spec fn trimmed(s: Seq<char>) -> Seq<char> {
    trimmed_end(trimmed_start(s))
}

/// Removes the white space around a text.
pub fn trim(chars: &[char]) -> (kept: &[char])
    ensures
        kept@ == trimmed(chars@),
{
    let mut start: usize = 0;
    assert(chars@.skip(0) == chars@);
    while start < chars.len() && white_space(chars[start])
        invariant
            start <= chars@.len(),
            trimmed_start(chars@) == trimmed_start(chars@.skip(start as int)),
        decreases chars@.len() - start,
    {
        assert(chars@.skip(start as int).skip(1) == chars@.skip(start + 1));
        start = start + 1;
    }
    let ghost tail = chars@.skip(start as int);
    assert(tail == trimmed_start(chars@));
    let mut end: usize = chars.len();
    assert(chars@.subrange(start as int, end as int) == tail);
    while start < end && white_space(chars[end - 1])
        invariant
            start <= end <= chars@.len(),
            trimmed_end(tail) == trimmed_end(chars@.subrange(start as int, end as int)),
        decreases end,
    {
        assert(chars@.subrange(start as int, end as int).drop_last() == chars@.subrange(
            start as int,
            end - 1,
        ));
        end = end - 1;
    }
    vstd::slice::slice_subrange(chars, start, end)
}

/// A text without the copies of `ch` at its end.
pub open spec fn without_trailing(s: Seq<char>, ch: char) -> Seq<char>
    decreases s.len(),
{
    if s.len() > 0 && s.last() == ch {
        without_trailing(s.drop_last(), ch)
    } else {
        s
    }
}

/// Removes the copies of `ch` at the end of a text.
pub fn strip_trailing(chars: &[char], ch: char) -> (kept: &[char])
    ensures
        kept@ == without_trailing(chars@, ch),
{
    let mut end: usize = chars.len();
    assert(chars@.subrange(0, end as int) == chars@);
    while end > 0 && chars[end - 1] == ch
        invariant
            end <= chars@.len(),
            without_trailing(chars@, ch) == without_trailing(chars@.subrange(0, end as int), ch),
        decreases end,
    {
        assert(chars@.subrange(0, end as int).drop_last() == chars@.subrange(0, end - 1));
        end = end - 1;
    }
    vstd::slice::slice_subrange(chars, 0, end)
}

/// Whether `s` begins with `head`.
pub open spec fn begins_with(s: Seq<char>, head: Seq<char>) -> bool {
    head.len() <= s.len() && s.take(head.len() as int) == head
}

/// Whether `s` ends with `tail`.
pub open spec fn ends_with(s: Seq<char>, tail: Seq<char>) -> bool {
    tail.len() <= s.len() && s.skip(s.len() - tail.len()) == tail
}

/// What stands behind `head` at the start of `s`.
pub open spec fn after_head(s: Seq<char>, head: Seq<char>) -> Option<Seq<char>> {
    if begins_with(s, head) {
        Some(s.skip(head.len() as int))
    } else {
        None
    }
}

/// Takes `head` off the start of a text, if it is there.
pub fn strip_head<'a>(chars: &'a [char], head: &[char]) -> (rest: Option<&'a [char]>)
    ensures
        match rest {
            Some(tail) => after_head(chars@, head@) == Some(tail@),
            None => after_head(chars@, head@) is None,
        },
{
    if head.len() <= chars.len() {
        if same_chars(vstd::slice::slice_subrange(chars, 0, head.len()), head) {
            assert(chars@.subrange(0, head@.len() as int) == chars@.take(head@.len() as int));
            let tail: &[char] = vstd::slice::slice_subrange(chars, head.len(), chars.len());
            assert(tail@ == chars@.skip(head@.len() as int));
            return Some(tail);
        }
        assert(chars@.subrange(0, head@.len() as int) == chars@.take(head@.len() as int));
    }
    None
}

/// Whether a text begins with another.
pub fn starts_with(text: &str, head: &str) -> (yes: bool)
    ensures
        yes == begins_with(text@, head@),
{
    let chars: Vec<char> = chars_of(text);
    let head_chars: Vec<char> = chars_of(head);
    strip_head(chars.as_slice(), head_chars.as_slice()).is_some()
}

/// Whether a text ends with another.
pub fn has_tail(text: &str, tail: &str) -> (yes: bool)
    ensures
        yes == ends_with(text@, tail@),
{
    let chars: Vec<char> = chars_of(text);
    let tail_chars: Vec<char> = chars_of(tail);
    if tail_chars.len() > chars.len() {
        return false;
    }
    let start: usize = chars.len() - tail_chars.len();
    let last: &[char] = vstd::slice::slice_subrange(chars.as_slice(), start, chars.len());
    assert(last@ == chars@.skip(start as int));
    same_chars(last, tail_chars.as_slice())
}

/// Whether `pattern` stands in `s` at `at`.
pub open spec fn stands_at(s: Seq<char>, pattern: Seq<char>, at: int) -> bool {
    0 <= at && at + pattern.len() <= s.len() && s.subrange(at, at + pattern.len()) == pattern
}

/// Whether `pattern` stands anywhere in `s`.
pub open spec fn occurs_in(s: Seq<char>, pattern: Seq<char>) -> bool {
    exists|at: int| stands_at(s, pattern, at)
}

/// A part of a text stands in it.
pub proof fn lemma_part_stands(before: Seq<char>, part: Seq<char>, behind: Seq<char>)
    ensures
        stands_at(before + part + behind, part, before.len() as int),
        occurs_in(before + part + behind, part),
{
    let whole = before + part + behind;
    assert(whole.subrange(before.len() as int, (before.len() + part.len()) as int) =~= part);
    assert(stands_at(whole, part, before.len() as int));
}

/// What stands in a part of a text stands in the text.
pub proof fn lemma_occurrence_in_part(s: Seq<char>, part: Seq<char>, pattern: Seq<char>)
    requires
        occurs_in(s, part),
        occurs_in(part, pattern),
    ensures
        occurs_in(s, pattern),
{
    let outer = choose|at: int| stands_at(s, part, at);
    let inner = choose|at: int| stands_at(part, pattern, at);
    assert(s.subrange(outer + inner, outer + inner + pattern.len()) =~= part.subrange(
        inner,
        inner + pattern.len(),
    )) by {
        assert(part == s.subrange(outer, outer + part.len()));
    }
    assert(stands_at(s, pattern, outer + inner));
}

/// The first position from `from` on at which `pattern` stands in `s`.
pub open spec fn position_from(s: Seq<char>, pattern: Seq<char>, from: int) -> Option<int>
    decreases s.len() + 1 - from,
{
    if from < 0 || from + pattern.len() > s.len() {
        None
    } else if stands_at(s, pattern, from) {
        Some(from)
    } else {
        position_from(s, pattern, from + 1)
    }
}

/// The parts of `s` before and behind the first `pattern` in it.
pub open spec fn split_at_first(s: Seq<char>, pattern: Seq<char>) -> Option<(
    Seq<char>,
    Seq<char>,
)> {
    match position_from(s, pattern, 0) {
        Some(at) => Some((s.take(at), s.skip(at + pattern.len()))),
        None => None,
    }
}

/// Parts a text at the first occurrence of a pattern.
pub fn split_once<'a>(chars: &'a [char], pattern: &[char]) -> (parts: Option<
    (&'a [char], &'a [char]),
>)
    ensures
        match parts {
            Some((before, behind)) => split_at_first(chars@, pattern@) == Some((before@, behind@)),
            None => split_at_first(chars@, pattern@) is None,
        },
{
    let mut at: usize = 0;
    while at <= chars.len() && pattern.len() <= chars.len() - at
        invariant
            at <= chars@.len() + 1,
            position_from(chars@, pattern@, 0) == position_from(chars@, pattern@, at as int),
        decreases chars@.len() + 1 - at,
    {
        if same_chars(vstd::slice::slice_subrange(chars, at, at + pattern.len()), pattern) {
            let before: &[char] = vstd::slice::slice_subrange(chars, 0, at);
            let behind: &[char] = vstd::slice::slice_subrange(
                chars,
                at + pattern.len(),
                chars.len(),
            );
            assert(before@ == chars@.take(at as int));
            assert(behind@ == chars@.skip(at + pattern@.len()));
            return Some((before, behind));
        }
        if at == chars.len() {
            assert(chars@.subrange(at as int, at as int) == pattern@);
            return None;
        }
        at = at + 1;
    }
    None
}

/// The parts of a text between its separators; the empty text has one part.
pub open spec fn split_on(s: Seq<char>, separator: char) -> Seq<Seq<char>>
    decreases s.len(),
{
    if s.len() == 0 {
        seq![Seq::<char>::empty()]
    } else {
        let before = split_on(s.drop_last(), separator);
        if s.last() == separator {
            before.push(Seq::empty())
        } else {
            before.drop_last().push(before.last().push(s.last()))
        }
    }
}

/// There is at least one part.
pub proof fn lemma_split_on_is_not_empty(s: Seq<char>, separator: char)
    ensures
        split_on(s, separator).len() > 0,
    decreases s.len(),
{
    if s.len() > 0 {
        lemma_split_on_is_not_empty(s.drop_last(), separator);
    }
}

/// Cuts a text at every separator.
pub fn split(chars: &[char], separator: char) -> (parts: Vec<Vec<char>>)
    ensures
        parts@.len() == split_on(chars@, separator).len(),
        forall|i: int| 0 <= i < parts@.len() ==> (#[trigger] parts@[i])@ == split_on(
            chars@,
            separator,
        )[i],
{
    let mut done: Vec<Vec<char>> = Vec::new();
    let mut current: Vec<char> = Vec::new();
    let mut i: usize = 0;
    while i < chars.len()
        invariant
            i <= chars@.len(),
            split_on(chars@.take(i as int), separator).len() == done@.len() + 1,
            forall|j: int|
                0 <= j < done@.len() ==> (#[trigger] done@[j])@ == split_on(
                    chars@.take(i as int),
                    separator,
                )[j],
            current@ == split_on(chars@.take(i as int), separator).last(),
        decreases chars@.len() - i,
    {
        let ghost before = split_on(chars@.take(i as int), separator);
        assert(chars@.take(i + 1).drop_last() == chars@.take(i as int));
        let ghost finished = done@;
        if chars[i] == separator {
            let mut fresh: Vec<char> = Vec::new();
            core::mem::swap(&mut fresh, &mut current);
            done.push(fresh);
        } else {
            current.push(chars[i]);
        }
        i = i + 1;
    }
    assert(chars@.take(chars@.len() as int) == chars@);
    done.push(current);
    done
}

/// Whether a character is one of the digits 0 to 9.
pub open spec fn is_digit(ch: char) -> bool {
    '0' <= ch <= '9'
}

/// The number that a run of digits writes in base ten.
pub open spec fn digits_value(s: Seq<char>) -> nat
    decreases s.len(),
{
    if s.len() == 0 {
        0
    } else {
        digits_value(s.drop_last()) * 10 + ((s.last() as u32 - '0' as u32) as nat)
    }
}

/// Whether a text holds digits only.
pub open spec fn all_digits(s: Seq<char>) -> bool {
    forall|i: int| 0 <= i < s.len() ==> is_digit(#[trigger] s[i])
}

/// A text without the `+` at its start.
pub open spec fn without_plus(s: Seq<char>) -> Seq<char> {
    if s.len() > 0 && s[0] == '+' {
        s.skip(1)
    } else {
        s
    }
}

/// The number that a text writes: digits only, behind at most one `+`, no
/// larger than a `u64` can be.
pub open spec fn unsigned_value(s: Seq<char>) -> Option<u64> {
    let digits = without_plus(s);
    if digits.len() > 0 && all_digits(digits) && digits_value(digits) <= u64::MAX {
        Some(digits_value(digits) as u64)
    } else {
        None
    }
}

/// Reads an unsigned number.
pub fn parse_unsigned(chars: &[char]) -> (value: Option<u64>)
    ensures
        value == unsigned_value(chars@),
{
    let digits: &[char] = if chars.len() > 0 && chars[0] == '+' {
        vstd::slice::slice_subrange(chars, 1, chars.len())
    } else {
        chars
    };
    assert(digits@ == without_plus(chars@));
    if digits.len() == 0 {
        return None;
    }
    let mut value: u64 = 0;
    let mut fits: bool = true;
    let mut i: usize = 0;
    while i < digits.len()
        invariant
            i <= digits@.len(),
            digits@ == without_plus(chars@),
            forall|j: int| 0 <= j < i ==> is_digit(#[trigger] digits@[j]),
            fits ==> value == digits_value(digits@.take(i as int)),
            !fits ==> digits_value(digits@.take(i as int)) > u64::MAX,
        decreases digits@.len() - i,
    {
        let ch: char = digits[i];
        if !('0' <= ch && ch <= '9') {
            assert(!is_digit(digits@[i as int]));
            return None;
        }
        assert(digits@.take(i + 1).drop_last() == digits@.take(i as int));
        let digit: u64 = (ch as u32 - '0' as u32) as u64;
        if fits {
            match value.checked_mul(10) {
                Some(tens) => match tens.checked_add(digit) {
                    Some(sum) => {
                        value = sum;
                    },
                    None => {
                        fits = false;
                    },
                },
                None => {
                    fits = false;
                },
            }
        }
        i = i + 1;
    }
    assert(digits@.take(digits@.len() as int) == digits@);
    if fits {
        Some(value)
    } else {
        None
    }
}

/// The character that writes a digit.
pub open spec fn digit_char(digit: nat) -> char {
    ('0' as u32 + digit) as char
}

/// A number in base ten, without leading zeros.
pub open spec fn decimal_text(n: nat) -> Seq<char>
    decreases n,
{
    if n < 10 {
        seq![digit_char(n)]
    } else {
        decimal_text(n / 10).push(digit_char(n % 10))
    }
}

fn decimal_chars(n: u64) -> (chars: Vec<char>)
    ensures
        chars@ == decimal_text(n as nat),
    decreases n,
{
    let last: char = (48u8 + (n % 10) as u8) as char;
    if n < 10 {
        let mut chars: Vec<char> = Vec::new();
        chars.push(last);
        chars
    } else {
        let mut chars: Vec<char> = decimal_chars(n / 10);
        chars.push(last);
        chars
    }
}

/// Writes a number in base ten.
pub fn decimal(n: u64) -> (text: String)
    ensures
        text@ == decimal_text(n as nat),
{
    let chars: Vec<char> = decimal_chars(n);
    text_of(chars.as_slice())
}

/// A number in base ten is one or more digits, which have its value.
pub proof fn lemma_decimal_digits(n: nat)
    ensures
        decimal_text(n).len() > 0,
        all_digits(decimal_text(n)),
        digits_value(decimal_text(n)) == n,
    decreases n,
{
    if n < 10 {
        assert(decimal_text(n).drop_last() == Seq::<char>::empty());
        assert(digits_value(Seq::<char>::empty()) == 0);
    } else {
        lemma_decimal_digits(n / 10);
        assert(decimal_text(n).drop_last() == decimal_text(n / 10));
    }
}

/// What is written in base ten reads back as the same number.
pub proof fn lemma_decimal_reads_back(n: u64)
    ensures
        unsigned_value(decimal_text(n as nat)) == Some(n),
{
    lemma_decimal_digits(n as nat);
    assert(is_digit(decimal_text(n as nat)[0]));
}

/// A letter A to Z in lower case; any other character unchanged.
pub open spec fn ascii_lower(ch: char) -> char {
    if 'A' <= ch <= 'Z' {
        (ch as u32 + 32) as char
    } else {
        ch
    }
}

/// A text with its letters A to Z in lower case.
pub fn ascii_lowercase(chars: &[char]) -> (lower: Vec<char>)
    ensures
        lower@ == chars@.map_values(|ch: char| ascii_lower(ch)),
{
    let mut lower: Vec<char> = Vec::new();
    let mut i: usize = 0;
    while i < chars.len()
        invariant
            i <= chars@.len(),
            lower@ == chars@.take(i as int).map_values(|ch: char| ascii_lower(ch)),
        decreases chars@.len() - i,
    {
        let ch: char = chars[i];
        if 'A' <= ch && ch <= 'Z' {
            let code: u8 = ch as u8;
            lower.push((code + 32) as char);
        } else {
            lower.push(ch);
        }
        i = i + 1;
    }
    assert(chars@.take(chars@.len() as int) == chars@);
    lower
}

/// What is left of a text without the white space around it: nothing but white
/// space was taken away, and what is left neither begins nor ends with any.
pub proof fn lemma_only_white_space_is_trimmed(s: Seq<char>) -> (around: (Seq<char>, Seq<char>))
    ensures
        s == around.0 + trimmed(s) + around.1,
        forall|i: int| 0 <= i < around.0.len() ==> is_white_space(#[trigger] around.0[i]),
        forall|i: int| 0 <= i < around.1.len() ==> is_white_space(#[trigger] around.1[i]),
        trimmed(s).len() > 0 ==> !is_white_space(trimmed(s)[0]) && !is_white_space(
            trimmed(s).last(),
        ),
    decreases s.len(),
{
    if s.len() > 0 && is_white_space(s[0]) {
        let around = lemma_only_white_space_is_trimmed(s.skip(1));
        let before = seq![s[0]] + around.0;
        assert(s =~= seq![s[0]] + s.skip(1));
        assert(s =~= before + trimmed(s) + around.1);
        (before, around.1)
    } else {
        let behind = lemma_only_white_space_is_trimmed_behind(s);
        assert(s =~= Seq::<char>::empty() + trimmed(s) + behind);
        if trimmed(s).len() > 0 {
            assert(trimmed(s)[0] == s[0]);
        }
        (Seq::empty(), behind)
    }
}

proof fn lemma_only_white_space_is_trimmed_behind(s: Seq<char>) -> (behind: Seq<char>)
    ensures
        s == trimmed_end(s) + behind,
        forall|i: int| 0 <= i < behind.len() ==> is_white_space(#[trigger] behind[i]),
        trimmed_end(s).len() > 0 ==> !is_white_space(trimmed_end(s).last()),
    decreases s.len(),
{
    if s.len() > 0 && is_white_space(s.last()) {
        let front = lemma_only_white_space_is_trimmed_behind(s.drop_last());
        let behind = front.push(s.last());
        assert(s =~= s.drop_last().push(s.last()));
        assert(s =~= trimmed_end(s) + behind);
        behind
    } else {
        assert(s =~= trimmed_end(s) + Seq::<char>::empty());
        Seq::empty()
    }
}

/// Spaces, tabs and line ends are white space; what is visible in ASCII is not.
pub proof fn lemma_ascii_white_space(ch: char)
    requires
        ch as u32 <= 0x7e,
    ensures
        is_white_space(ch) <==> ch == ' ' || ch == '\t' || ch == '\n' || ch == '\r' || ch as u32
            == 0xb || ch as u32 == 0xc,
{
}

/// A text that neither begins nor ends with white space is left as it is.
pub proof fn lemma_tight_text_is_not_trimmed(s: Seq<char>)
    requires
        s.len() > 0 ==> !is_white_space(s[0]) && !is_white_space(s.last()),
    ensures
        trimmed(s) == s,
{
}

/// Where copies of a character are taken off the end of a text, nothing else is,
/// and none is left there.
pub proof fn lemma_only_trailing_is_stripped(s: Seq<char>, ch: char) -> (count: nat)
    ensures
        s == without_trailing(s, ch) + Seq::new(count, |i: int| ch),
        without_trailing(s, ch).len() > 0 ==> without_trailing(s, ch).last() != ch,
    decreases s.len(),
{
    if s.len() > 0 && s.last() == ch {
        let count = lemma_only_trailing_is_stripped(s.drop_last(), ch);
        assert(s =~= s.drop_last().push(ch));
        assert(Seq::new(count + 1, |i: int| ch) =~= Seq::new(count, |i: int| ch).push(ch));
        assert(s =~= without_trailing(s, ch) + Seq::new(count + 1, |i: int| ch));
        count + 1
    } else {
        assert(s =~= without_trailing(s, ch) + Seq::new(0, |i: int| ch));
        0
    }
}

/// Texts with a separator between each two.
pub open spec fn joined_by(parts: Seq<Seq<char>>, separator: char) -> Seq<char>
    decreases parts.len(),
{
    if parts.len() == 0 {
        Seq::empty()
    } else if parts.len() == 1 {
        parts[0]
    } else {
        joined_by(parts.drop_last(), separator).push(separator) + parts.last()
    }
}

proof fn lemma_joined_grows(parts: Seq<Seq<char>>, separator: char, ch: char)
    requires
        parts.len() > 0,
    ensures
        joined_by(parts.drop_last().push(parts.last().push(ch)), separator) == joined_by(
            parts,
            separator,
        ).push(ch),
{
    let grown = parts.drop_last().push(parts.last().push(ch));
    assert(grown.drop_last() == parts.drop_last());
    assert(joined_by(grown, separator) =~= joined_by(parts, separator).push(ch));
}

/// The parts of a text hold no separator, and with separators between them they
/// are the text again.
pub proof fn lemma_parts_join_back(s: Seq<char>, separator: char)
    ensures
        split_on(s, separator).len() > 0,
        joined_by(split_on(s, separator), separator) == s,
        forall|i: int|
            0 <= i < split_on(s, separator).len() ==> !(#[trigger] split_on(
                s,
                separator,
            )[i]).contains(separator),
    decreases s.len(),
{
    let parts = split_on(s, separator);
    if s.len() > 0 {
        let before = split_on(s.drop_last(), separator);
        lemma_parts_join_back(s.drop_last(), separator);
        if s.last() == separator {
            assert(parts.drop_last() == before);
            assert(joined_by(parts, separator) =~= s);
        } else {
            lemma_joined_grows(before, separator, s.last());
            assert(joined_by(parts, separator) =~= s);
            assert forall|i: int| 0 <= i < parts.len() implies !(#[trigger] parts[i]).contains(
                separator,
            ) by {
                if i == parts.len() - 1 {
                    let last = before.last();
                    assert(!before[before.len() - 1].contains(separator));
                    assert forall|k: int| 0 <= k < parts[i].len() implies parts[i][k]
                        != separator by {
                        if k < last.len() {
                            assert(last[k] != separator) by {
                                if last[k] == separator {
                                    assert(last.contains(separator));
                                }
                            }
                        }
                    }
                } else {
                    assert(parts[i] == before[i]);
                }
            }
        }
    }
}

proof fn lemma_split_of_more(front: Seq<char>, part: Seq<char>, separator: char)
    requires
        !part.contains(separator),
    ensures
        split_on(front.push(separator) + part, separator) == split_on(front, separator).push(part),
    decreases part.len(),
{
    let whole = front.push(separator) + part;
    if part.len() == 0 {
        assert(whole.drop_last() == front);
        assert(part =~= Seq::<char>::empty());
    } else {
        assert(part[part.len() - 1] != separator);
        assert(!part.drop_last().contains(separator)) by {
            if part.drop_last().contains(separator) {
                let k = choose|k: int|
                    0 <= k < part.drop_last().len() && part.drop_last()[k] == separator;
                assert(part[k] == separator);
            }
        }
        lemma_split_of_more(front, part.drop_last(), separator);
        assert(whole.drop_last() == front.push(separator) + part.drop_last());
        assert(part.drop_last().push(part.last()) == part);
        assert(split_on(whole, separator) =~= split_on(front, separator).push(part));
    }
}

proof fn lemma_split_of_one(part: Seq<char>, separator: char)
    requires
        !part.contains(separator),
    ensures
        split_on(part, separator) == seq![part],
    decreases part.len(),
{
    if part.len() > 0 {
        assert(part[part.len() - 1] != separator);
        assert(!part.drop_last().contains(separator)) by {
            if part.drop_last().contains(separator) {
                let k = choose|k: int|
                    0 <= k < part.drop_last().len() && part.drop_last()[k] == separator;
                assert(part[k] == separator);
            }
        }
        lemma_split_of_one(part.drop_last(), separator);
        assert(part.drop_last().push(part.last()) == part);
        assert(split_on(part, separator) =~= seq![part]);
    } else {
        assert(part =~= Seq::<char>::empty());
    }
}

/// Texts that hold no separator are, with separators between them, the parts of
/// the whole.
pub proof fn lemma_joined_parts_split_back(parts: Seq<Seq<char>>, separator: char)
    requires
        parts.len() > 0,
        forall|i: int| 0 <= i < parts.len() ==> !(#[trigger] parts[i]).contains(separator),
    ensures
        split_on(joined_by(parts, separator), separator) == parts,
    decreases parts.len(),
{
    if parts.len() == 1 {
        lemma_split_of_one(parts[0], separator);
        assert(parts =~= seq![parts[0]]);
    } else {
        let front = parts.drop_last();
        assert forall|i: int| 0 <= i < front.len() implies !(#[trigger] front[i]).contains(
            separator,
        ) by {
            assert(front[i] == parts[i]);
        }
        lemma_joined_parts_split_back(front, separator);
        assert(!parts[parts.len() - 1].contains(separator));
        lemma_split_of_more(joined_by(front, separator), parts.last(), separator);
        assert(front.push(parts.last()) == parts);
    }
}

/// The first part of a text is what stands before the first separator.
pub proof fn lemma_first_part(part: Seq<char>, behind: Seq<char>, separator: char)
    requires
        !part.contains(separator),
        behind.len() > 0 ==> behind[0] == separator,
    ensures
        split_on(part + behind, separator).first() == part,
    decreases behind.len(),
{
    let whole = part + behind;
    if behind.len() == 0 {
        assert(whole =~= part);
        lemma_split_of_one(part, separator);
    } else {
        lemma_first_part(part, behind.drop_last(), separator);
        lemma_split_on_is_not_empty(whole.drop_last(), separator);
        assert(whole.drop_last() == part + behind.drop_last());
        if behind.len() == 1 {
            assert(whole.last() == separator);
        } else if split_on(whole.drop_last(), separator).len() == 1 {
            lemma_parts_join_back(whole.drop_last(), separator);
            let parts = split_on(whole.drop_last(), separator);
            assert(parts =~= seq![parts[0]]);
            assert(joined_by(parts, separator) == part);
            assert(whole.drop_last().len() > part.len());
        }
    }
}

/// The last part of a text is what stands behind the last separator.
pub proof fn lemma_last_part(before: Seq<char>, part: Seq<char>, separator: char)
    requires
        !part.contains(separator),
        before.len() > 0 ==> before.last() == separator,
    ensures
        split_on(before + part, separator).last() == part,
{
    if before.len() == 0 {
        assert(before + part =~= part);
        lemma_split_of_one(part, separator);
    } else {
        lemma_split_of_more(before.drop_last(), part, separator);
        assert(before.drop_last().push(separator) == before);
    }
}

proof fn lemma_pattern_is_found(before: Seq<char>, pattern: Seq<char>, behind: Seq<char>, from: int)
    requires
        pattern.len() > 0,
        !before.contains(pattern[0]),
        0 <= from <= before.len(),
    ensures
        position_from(before + pattern + behind, pattern, from) == Some(before.len() as int),
    decreases before.len() - from,
{
    let whole = before + pattern + behind;
    if from == before.len() {
        lemma_part_stands(before, pattern, behind);
    } else {
        assert(whole.subrange(from, from + pattern.len())[0] == before[from]);
        assert(before.contains(before[from]));
        lemma_pattern_is_found(before, pattern, behind, from + 1);
    }
}

/// A text is parted at a pattern into what stands before and behind it, where the
/// pattern cannot begin any earlier.
pub proof fn lemma_parts_around_pattern(before: Seq<char>, pattern: Seq<char>, behind: Seq<char>)
    requires
        pattern.len() > 0,
        !before.contains(pattern[0]),
    ensures
        split_at_first(before + pattern + behind, pattern) == Some((before, behind)),
{
    let whole = before + pattern + behind;
    lemma_pattern_is_found(before, pattern, behind, 0);
    assert(whole.take(before.len() as int) =~= before);
    assert(whole.skip((before.len() + pattern.len()) as int) =~= behind);
}

proof fn lemma_position_is_first(s: Seq<char>, pattern: Seq<char>, from: int)
    requires
        0 <= from,
    ensures
        match position_from(s, pattern, from) {
            Some(at) => from <= at && stands_at(s, pattern, at) && forall|k: int|
                from <= k < at ==> !#[trigger] stands_at(s, pattern, k),
            None => forall|k: int| from <= k ==> !#[trigger] stands_at(s, pattern, k),
        },
    decreases s.len() + 1 - from,
{
    if from + pattern.len() <= s.len() && !stands_at(s, pattern, from) {
        lemma_position_is_first(s, pattern, from + 1);
    }
}

/// The parts around the first pattern in a text make the text again, and the
/// pattern stands nowhere before; a text that is not parted holds no such pattern.
pub proof fn lemma_first_pattern_parts(s: Seq<char>, pattern: Seq<char>)
    ensures
        match split_at_first(s, pattern) {
            Some((before, behind)) => {
                &&& s == before + pattern + behind
                &&& forall|k: int| 0 <= k < before.len() ==> !#[trigger] stands_at(s, pattern, k)
            },
            None => !occurs_in(s, pattern),
        },
{
    lemma_position_is_first(s, pattern, 0);
    match split_at_first(s, pattern) {
        Some((before, behind)) => {
            let at = position_from(s, pattern, 0)->0;
            assert(s.subrange(at, at + pattern.len()) == pattern);
            assert(s =~= s.take(at) + s.subrange(at, at + pattern.len()) + s.skip(
                at + pattern.len(),
            ));
        },
        None => {},
    }
}

/// What stands behind a head is what the head must be followed by to make the
/// text again.
pub proof fn lemma_behind_head(s: Seq<char>, head: Seq<char>, tail: Seq<char>)
    ensures
        after_head(s, head) == Some(tail) <==> s == head + tail,
        after_head(s, head) is None <==> !begins_with(s, head),
        begins_with(head + tail, head),
        ends_with(head + tail, tail),
{
    if after_head(s, head) == Some(tail) {
        assert(s =~= s.take(head.len() as int) + s.skip(head.len() as int));
    }
    assert((head + tail).take(head.len() as int) =~= head);
    assert((head + tail).skip(head.len() as int) =~= tail);
}

/// The digits behind others count as they do alone, and each digit before them
/// ten times as much as it would in the place behind it.
pub proof fn lemma_digits_have_places(left: Seq<char>, right: Seq<char>)
    ensures
        digits_value(left + right) == digits_value(left) * vstd::arithmetic::power::pow(
            10,
            right.len(),
        ) + digits_value(right),
    decreases right.len(),
{
    vstd::arithmetic::power::lemma_pow0(10);
    if right.len() == 0 {
        assert(left + right =~= left);
    } else {
        let front = right.drop_last();
        lemma_digits_have_places(left, front);
        assert((left + right).drop_last() == left + front);
        reveal(vstd::arithmetic::power::pow);
        let place = vstd::arithmetic::power::pow(10, front.len());
        let value = digits_value(left) as int;
        assert(vstd::arithmetic::power::pow(10, right.len()) == 10 * place);
        assert((value * place) * 10 == value * (10 * place)) by (nonlinear_arith);
    }
}

/// The digits 0 to 9 count as much as they say, in order; a number of more than
/// one digit does not begin with 0.
pub proof fn lemma_digit_counts(ch: char, n: nat)
    ensures
        is_digit(ch) ==> digits_value(seq![ch]) == ch as u32 - 48,
        is_digit(ch) <==> 48 <= ch as u32 <= 57,
        n > 0 ==> decimal_text(n)[0] != '0',
    decreases n,
{
    assert(seq![ch].drop_last() =~= Seq::<char>::empty());
    assert(digits_value(Seq::<char>::empty()) == 0);
    if n >= 10 {
        lemma_digit_counts(ch, n / 10);
        lemma_decimal_digits(n / 10);
    }
}

/// A number is read with or without a plus before it, and from nothing else than
/// digits.
pub proof fn lemma_numbers_are_digits(s: Seq<char>)
    ensures
        s.len() > 0 && s[0] != '+' ==> unsigned_value(seq!['+'] + s) == unsigned_value(s),
        unsigned_value(s) is Some ==> s.len() > 0 && forall|i: int|
            0 < i < s.len() ==> is_digit(#[trigger] s[i]),
        unsigned_value(s) is Some ==> is_digit(s[0]) || s[0] == '+' && s.len() > 1,
{
    assert((seq!['+'] + s).skip(1) =~= s);
    if unsigned_value(s) is Some {
        let digits = without_plus(s);
        assert(is_digit(digits[0]));
        assert forall|i: int| 0 < i < s.len() implies is_digit(#[trigger] s[i]) by {
            if s[0] == '+' {
                assert(is_digit(digits[i - 1]));
            } else {
                assert(is_digit(digits[i]));
            }
        }
    }
}

/// A character in lower case is no letter A to Z, and is the same letter: each of
/// A to Z stands as far behind A as its lower case behind a. Nothing else changes.
pub proof fn lemma_lower_case(ch: char)
    ensures
        !('A' <= ascii_lower(ch) <= 'Z'),
        'A' <= ch <= 'Z' ==> ascii_lower(ch) as u32 - 'a' as u32 == ch as u32 - 'A' as u32,
        !('A' <= ch <= 'Z') ==> ascii_lower(ch) == ch,
{
}

/// White space around a text that has none at its ends is what is trimmed.
pub proof fn lemma_padding_is_trimmed(before: Seq<char>, word: Seq<char>, behind: Seq<char>)
    requires
        forall|i: int| 0 <= i < before.len() ==> is_white_space(#[trigger] before[i]),
        forall|i: int| 0 <= i < behind.len() ==> is_white_space(#[trigger] behind[i]),
        word.len() > 0,
        !is_white_space(word[0]),
        !is_white_space(word.last()),
    ensures
        trimmed(before + word + behind) == word,
    decreases before.len() + behind.len(),
{
    let whole = before + word + behind;
    if before.len() > 0 {
        assert(is_white_space(before[0]));
        assert(whole[0] == before[0]);
        assert(whole.skip(1) =~= before.skip(1) + word + behind);
        assert forall|i: int| 0 <= i < before.skip(1).len() implies is_white_space(
            #[trigger] before.skip(1)[i],
        ) by {
            assert(is_white_space(before[i + 1]));
        }
        lemma_padding_is_trimmed(before.skip(1), word, behind);
    } else {
        assert(whole[0] == word[0]);
        lemma_padding_behind_is_trimmed(word, behind);
        assert(whole =~= word + behind);
    }
}

proof fn lemma_padding_behind_is_trimmed(word: Seq<char>, behind: Seq<char>)
    requires
        forall|i: int| 0 <= i < behind.len() ==> is_white_space(#[trigger] behind[i]),
        word.len() > 0,
        !is_white_space(word.last()),
    ensures
        trimmed_end(word + behind) == word,
    decreases behind.len(),
{
    let whole = word + behind;
    if behind.len() > 0 {
        assert(is_white_space(behind[behind.len() - 1]));
        assert(whole.drop_last() =~= word + behind.drop_last());
        assert forall|i: int| 0 <= i < behind.drop_last().len() implies is_white_space(
            #[trigger] behind.drop_last()[i],
        ) by {
            assert(is_white_space(behind[i]));
        }
        lemma_padding_behind_is_trimmed(word, behind.drop_last());
    } else {
        assert(whole =~= word);
    }
}

/// Texts one behind the other.
pub open spec fn concatenated(parts: Seq<Seq<char>>) -> Seq<char>
    decreases parts.len(),
{
    if parts.len() == 0 {
        Seq::empty()
    } else {
        concatenated(parts.drop_last()) + parts.last()
    }
}

/// One more text stands behind those before it, and the first stands alone.
pub proof fn lemma_concatenated_grows(parts: Seq<Seq<char>>, k: int)
    requires
        0 <= k < parts.len(),
    ensures
        concatenated(parts.take(k + 1)) == concatenated(parts.take(k)) + parts[k],
        k == 0 ==> concatenated(parts.take(1)) == parts[0],
        parts.take(parts.len() as int) == parts,
{
    assert(parts.take(k + 1).drop_last() =~= parts.take(k));
    if k == 0 {
        assert(concatenated(parts.take(0)) =~= Seq::<char>::empty());
        assert(Seq::<char>::empty() + parts[0] =~= parts[0]);
    }
}

proof fn lemma_concatenated_splits(parts: Seq<Seq<char>>, at: int)
    requires
        0 <= at <= parts.len(),
    ensures
        concatenated(parts) == concatenated(parts.take(at)) + concatenated(parts.skip(at)),
    decreases parts.len(),
{
    let whole = concatenated(parts);
    if at == parts.len() {
        assert(parts.take(at) =~= parts);
        assert(concatenated(parts.skip(at)) =~= Seq::<char>::empty());
        assert(whole =~= whole + Seq::<char>::empty());
    } else {
        let front = parts.drop_last();
        lemma_concatenated_splits(front, at);
        assert(front.take(at) =~= parts.take(at));
        assert(front.skip(at) =~= parts.skip(at).drop_last());
        let (a, b, c) = (
            concatenated(parts.take(at)),
            concatenated(front.skip(at)),
            parts.last(),
        );
        assert(a + b + c =~= a + (b + c));
    }
}

/// Some texts that follow one another stand in the whole.
pub proof fn lemma_parts_stand_together(parts: Seq<Seq<char>>, from: int, to: int)
    requires
        0 <= from <= to <= parts.len(),
    ensures
        occurs_in(concatenated(parts), concatenated(parts.subrange(from, to))),
{
    let behind = parts.skip(from);
    lemma_concatenated_splits(parts, from);
    lemma_concatenated_splits(behind, to - from);
    assert(behind.take(to - from) =~= parts.subrange(from, to));
    let (a, b, c) = (
        concatenated(parts.take(from)),
        concatenated(parts.subrange(from, to)),
        concatenated(behind.skip(to - from)),
    );
    lemma_part_stands(a, b, c);
    assert(a + b + c =~= a + (b + c));
}

} // verus!
