//! Plain text handling for the notations: whitespace, words, decimal
//! numbers and ASCII letters, over sequences of characters.

use vstd::prelude::*;

verus! {

/// Whether a character is white space (the Unicode property).
pub open spec fn is_space(c: char) -> bool {
    let code = c as u32;
    (0x09 <= code <= 0x0D) || code == 0x20 || code == 0x85 || code == 0xA0 || code == 0x1680
        || (0x2000 <= code <= 0x200A) || code == 0x2028 || code == 0x2029 || code == 0x202F
        || code == 0x205F || code == 0x3000
}

/// The first place at or after `from` that holds no white space, or the
/// length of `s` if there is none.
pub open spec fn skip_spaces(s: Seq<char>, from: int) -> int
    decreases s.len() - from,
{
    if from < 0 || from >= s.len() {
        s.len() as int
    } else if is_space(s[from]) {
        skip_spaces(s, from + 1)
    } else {
        from
    }
}

/// The first place at or after `from` that holds white space, or the length
/// of `s` if there is none.
pub open spec fn skip_word(s: Seq<char>, from: int) -> int
    decreases s.len() - from,
{
    if from < 0 || from >= s.len() {
        s.len() as int
    } else if is_space(s[from]) {
        from
    } else {
        skip_word(s, from + 1)
    }
}

/// The words of `s` from `from` on: the longest runs of characters that are
/// not white space, in their order.
pub open spec fn words_from(s: Seq<char>, from: int) -> Seq<Seq<char>>
    decreases s.len() - from,
{
    let start = skip_spaces(s, from);
    if from < 0 || start >= s.len() {
        Seq::empty()
    } else {
        let end = skip_word(s, start);
        proof {
            lemma_skip_bounds(s, from);
            lemma_skip_bounds(s, start);
        }
        seq![s.subrange(start, end)] + words_from(s, end)
    }
}

/// The words of `s`.
pub open spec fn words(s: Seq<char>) -> Seq<Seq<char>> {
    words_from(s, 0)
}

/// Where the skips end: not before they start and not beyond the text;
/// a word that starts on a character that is no white space is not empty.
pub proof fn lemma_skip_bounds(s: Seq<char>, from: int)
    requires
        0 <= from,
    ensures
        from <= s.len() ==> from <= skip_spaces(s, from) <= s.len(),
        from <= s.len() ==> from <= skip_word(s, from) <= s.len(),
        from < s.len() && !is_space(s[from]) ==> from < skip_word(s, from),
        skip_spaces(s, from) < s.len() ==> !is_space(s[skip_spaces(s, from)]),
        forall|i: int| from <= i < skip_word(s, from) ==> !is_space(#[trigger] s[i]),
    decreases s.len() - from,
{
    if from < s.len() {
        lemma_skip_bounds(s, from + 1);
    }
}

/// Tells whether a character is white space.
pub fn is_whitespace(c: char) -> (space: bool)
    ensures
        space == is_space(c),
{
    let code = c as u32;
    (0x09 <= code && code <= 0x0D) || code == 0x20 || code == 0x85 || code == 0xA0 || code
        == 0x1680 || (0x2000 <= code && code <= 0x200A) || code == 0x2028 || code == 0x2029
        || code == 0x202F || code == 0x205F || code == 0x3000
}

/// Collects the characters of a string.
pub fn chars_of(s: &str) -> (chars: Vec<char>)
    ensures
        chars@ == s@,
{
    let mut chars: Vec<char> = Vec::new();
    for c in it: s.chars()
        invariant
            it.seq() == s@,
            chars@ == it.seq().take(it.index() as int),
    {
        chars.push(c);
        assert(it.seq().take(it.index() + 1) =~= it.seq().take(it.index() as int).push(c));
    }
    assert(s@.take(s@.len() as int) =~= s@);
    chars
}

/// Copies the characters from `start` up to `end`.
pub fn copy_range(chars: &Vec<char>, start: usize, end: usize) -> (part: Vec<char>)
    requires
        start <= end <= chars@.len(),
    ensures
        part@ == chars@.subrange(start as int, end as int),
{
    let mut part: Vec<char> = Vec::new();
    for i in start..end
        invariant
            start <= end <= chars@.len(),
            part@ == chars@.subrange(start as int, i as int),
    {
        part.push(chars[i]);
        assert(chars@.subrange(start as int, i + 1) =~= chars@.subrange(
            start as int,
            i as int,
        ).push(chars@[i as int]));
    }
    part
}

/// The views of a list of words.
pub open spec fn views(list: Seq<Vec<char>>) -> Seq<Seq<char>> {
    Seq::new(list.len(), |i: int| list[i]@)
}

/// Splits a text into its words.
pub fn split_words(chars: &Vec<char>) -> (list: Vec<Vec<char>>)
    ensures
        views(list@) == words(chars@),
{
    let mut list: Vec<Vec<char>> = Vec::new();
    let ghost s = chars@;
    let mut at: usize = 0;
    while at < chars.len()
        invariant
            s == chars@,
            0 <= at <= s.len(),
            views(list@) + words_from(s, at as int) == words(s),
        decreases s.len() - at,
    {
        proof {
            lemma_skip_bounds(s, at as int);
        }
        if is_whitespace(chars[at]) {
            at += 1;
        } else {
            let start = at;
            while at < chars.len() && !is_whitespace(chars[at])
                invariant
                    s == chars@,
                    start <= at <= s.len(),
                    skip_word(s, start as int) == skip_word(s, at as int),
                decreases s.len() - at,
            {
                at += 1;
            }
            let word = copy_range(chars, start, at);
            let ghost before = list@;
            list.push(word);
            proof {
                assert(skip_word(s, start as int) == at);
                assert(skip_spaces(s, start as int) == start);
                assert(views(list@) =~= views(before) + seq![s.subrange(start as int, at as int)]);
                assert(words_from(s, start as int) == seq![s.subrange(start as int, at as int)]
                    + words_from(s, at as int));
                assert(views(before) + words_from(s, start as int) =~= views(list@) + words_from(
                    s,
                    at as int,
                ));
            }
        }
    }
    proof {
        assert(words_from(s, s.len() as int) =~= Seq::<Seq<char>>::empty());
        assert(views(list@) + Seq::<Seq<char>>::empty() =~= views(list@));
    }
    list
}

/// Tells whether `word` spells `text`.
pub fn word_is(word: &Vec<char>, text: &str) -> (same: bool)
    ensures
        same == (word@ == text@),
{
    let n = text.unicode_len();
    if word.len() != n {
        return false;
    }
    for i in 0..n
        invariant
            n == text@.len(),
            word@.len() == n,
            forall|j: int| 0 <= j < i ==> word@[j] == text@[j],
    {
        if word[i] != text.get_char(i) {
            return false;
        }
    }
    assert(word@ =~= text@);
    true
}

/// How often `c` occurs in `s`.
pub open spec fn char_count(s: Seq<char>, c: char) -> nat
    decreases s.len(),
{
    if s.len() == 0 {
        0
    } else {
        char_count(s.drop_last(), c) + if s.last() == c {
            1nat
        } else {
            0nat
        }
    }
}

/// Counts how often `c` occurs in `chars`.
pub fn count_char(chars: &Vec<char>, c: char) -> (count: usize)
    ensures
        count == char_count(chars@, c),
{
    let mut count: usize = 0;
    for i in 0..chars.len()
        invariant
            count <= i,
            count == char_count(chars@.take(i as int), c),
    {
        assert(chars@.take(i + 1).drop_last() =~= chars@.take(i as int));
        if chars[i] == c {
            count += 1;
        }
    }
    assert(chars@.take(chars@.len() as int) =~= chars@);
    count
}

/// Whether a character is a decimal digit.
pub open spec fn is_digit(c: char) -> bool {
    '0' <= c <= '9'
}

/// Whether every character is a decimal digit.
pub open spec fn all_digits(s: Seq<char>) -> bool {
    forall|i: int| 0 <= i < s.len() ==> is_digit(#[trigger] s[i])
}

/// The number that a sequence of decimal digits spells.
pub open spec fn digits_value(s: Seq<char>) -> int
    decreases s.len(),
{
    if s.len() == 0 {
        0
    } else {
        digits_value(s.drop_last()) * 10 + (s.last() as u32 - '0' as u32)
    }
}

/// The digits of a decimal number: the word without its sign.
pub open spec fn unsigned_part(word: Seq<char>) -> Seq<char> {
    if word.len() > 0 && (word[0] == '-' || word[0] == '+') {
        word.subrange(1, word.len() as int)
    } else {
        word
    }
}

/// The 32-bit number that a word spells in decimal: a `+` or `-` at most,
/// then at least one digit and nothing but digits. A number out of range
/// is no number.
pub open spec fn decimal_i32(word: Seq<char>) -> Option<i32> {
    let digits = unsigned_part(word);
    let value = if word.len() > 0 && word[0] == '-' {
        -digits_value(digits)
    } else {
        digits_value(digits)
    };
    if digits.len() == 0 || !all_digits(digits) || value < i32::MIN || value > i32::MAX {
        None
    } else {
        Some(value as i32)
    }
}

/// More digits never spell less.
pub proof fn lemma_digits_value_grows(s: Seq<char>, n: int)
    requires
        0 <= n <= s.len(),
        all_digits(s),
    ensures
        0 <= digits_value(s.take(n)) <= digits_value(s),
    decreases s.len() - n,
{
    if n == 0 {
        assert(s.take(0).len() == 0);
    }
    if n < s.len() {
        lemma_digits_value_grows(s, n + 1);
        assert(s.take(n + 1).drop_last() =~= s.take(n));
        assert(s.take(n + 1).last() == s[n]);
        assert(is_digit(s[n]));
        if n > 0 {
            lemma_digits_value_grows_prefix(s.take(n));
        }
    } else {
        assert(s.take(n) =~= s);
        lemma_digits_value_grows_prefix(s);
    }
}

/// Digits spell no negative number.
pub proof fn lemma_digits_value_grows_prefix(s: Seq<char>)
    requires
        all_digits(s),
    ensures
        0 <= digits_value(s),
    decreases s.len(),
{
    if s.len() > 0 {
        assert(is_digit(s[s.len() - 1]));
        lemma_digits_value_grows_prefix(s.drop_last());
    }
}

/// Reads a 32-bit number in decimal.
pub fn parse_i32(word: &Vec<char>) -> (value: Option<i32>)
    ensures
        value == decimal_i32(word@),
{
    let n = word.len();
    if n == 0 {
        return None;
    }
    let negative = word[0] == '-';
    let start: usize = if word[0] == '-' || word[0] == '+' {
        1
    } else {
        0
    };
    if start == n {
        return None;
    }
    let ghost digits = unsigned_part(word@);
    assert(digits =~= word@.subrange(start as int, n as int));
    let mut total: i64 = 0;
    for i in start..n
        invariant
            n == word@.len(),
            start <= n,
            digits == word@.subrange(start as int, n as int),
            digits == unsigned_part(word@),
            digits.len() > 0,
            forall|j: int| 0 <= j < i - start ==> is_digit(#[trigger] digits[j]),
            total == digits_value(digits.take(i - start)),
            0 <= total <= 2147483648,
    {
        let c = word[i];
        assert(c == digits[i - start]);
        if !('0' <= c && c <= '9') {
            assert(!is_digit(digits[i - start]));
            return None;
        }
        proof {
            assert(digits.take(i + 1 - start).drop_last() =~= digits.take(i - start));
            assert(digits.take(i + 1 - start).last() == c);
        }
        total = total * 10 + (c as u32 - '0' as u32) as i64;
        if total > 2147483648 {
            proof {
                // The digits read so far already spell too much.
                if all_digits(digits) {
                    lemma_digits_value_grows(digits, i + 1 - start);
                    assert(digits_value(digits) > 2147483648);
                }
            }
            return None;
        }
    }
    assert(digits.take(n - start) =~= digits);
    if negative {
        Some((-total) as i32)
    } else if total > 2147483647 {
        None
    } else {
        Some(total as i32)
    }
}

/// The lower-case form of an ASCII letter; any other character is its own.
pub open spec fn ascii_lower(c: char) -> u32 {
    if 'A' <= c <= 'Z' {
        (c as u32 + 32) as u32
    } else {
        c as u32
    }
}

/// Whether `word` spells `text` when the case of ASCII letters is left
/// aside.
pub open spec fn spells_ignoring_case(word: Seq<char>, text: Seq<char>) -> bool {
    word.len() == text.len() && forall|i: int|
        0 <= i < word.len() ==> ascii_lower(#[trigger] word[i]) == ascii_lower(text[i])
}

/// Tells whether `word` spells `text` when the case of ASCII letters is left
/// aside.
pub fn word_is_ignoring_case(word: &Vec<char>, text: &str) -> (same: bool)
    ensures
        same == spells_ignoring_case(word@, text@),
{
    let n = text.unicode_len();
    if word.len() != n {
        return false;
    }
    for i in 0..n
        invariant
            n == text@.len(),
            word@.len() == n,
            forall|j: int| 0 <= j < i ==> ascii_lower(#[trigger] word@[j]) == ascii_lower(text@[j]),
    {
        if lower_code(word[i]) != lower_code(text.get_char(i)) {
            return false;
        }
    }
    true
}

/// The code of the lower-case form of a character.
pub fn lower_code(c: char) -> (code: u32)
    ensures
        code == ascii_lower(c),
{
    if 'A' <= c && c <= 'Z' {
        c as u32 + 32
    } else {
        c as u32
    }
}

/// The text without the white space at its two ends.
pub open spec fn trimmed(s: Seq<char>) -> Seq<char> {
    let start = skip_spaces(s, 0);
    s.subrange(start, trim_end(s, start, s.len() as int))
}

/// The place behind the last character before `end` that is no white
/// space, not going back beyond `start`.
pub open spec fn trim_end(s: Seq<char>, start: int, end: int) -> int
    decreases end,
{
    if end <= start || end > s.len() || end <= 0 {
        start
    } else if is_space(s[end - 1]) {
        trim_end(s, start, end - 1)
    } else {
        end
    }
}

/// Copies a text without the white space at its two ends.
pub fn trim(chars: &Vec<char>) -> (part: Vec<char>)
    ensures
        part@ == trimmed(chars@),
{
    let ghost s = chars@;
    let mut start: usize = 0;
    while start < chars.len() && is_whitespace(chars[start])
        invariant
            s == chars@,
            0 <= start <= s.len(),
            skip_spaces(s, start as int) == skip_spaces(s, 0),
        decreases s.len() - start,
    {
        start += 1;
    }
    let mut end: usize = chars.len();
    while end > start && is_whitespace(chars[end - 1])
        invariant
            s == chars@,
            start <= end <= s.len(),
            trim_end(s, start as int, end as int) == trim_end(s, start as int, s.len() as int),
        decreases end,
    {
        end -= 1;
    }
    copy_range(chars, start, end)
}

} // verus!
