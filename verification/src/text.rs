//! Text handling: whitespace-separated words and unsigned decimal numbers.
use vstd::prelude::*;

verus! {

/// Whether `c` has the Unicode `White_Space` property, as `char::is_whitespace` tells: the
/// ASCII tab, line feed, vertical tab, form feed, carriage return and space, the next line and
/// no-break space characters, the Ogham space mark, the spaces U+2000 to U+200A, the line and
/// paragraph separators, the narrow no-break and medium mathematical spaces, and the ideographic
/// space.
pub open spec fn char_is_whitespace(c: char) -> bool {
    let n = c as u32;
    ||| 0x09 <= n <= 0x0d
    ||| n == 0x20
    ||| n == 0x85
    ||| n == 0xa0
    ||| n == 0x1680
    ||| 0x2000 <= n <= 0x200a
    ||| n == 0x2028
    ||| n == 0x2029
    ||| n == 0x202f
    ||| n == 0x205f
    ||| n == 0x3000
}

/// Whether `c` is whitespace (see `char_is_whitespace`).
pub fn is_whitespace(c: char) -> (r: bool)
    ensures
        r == char_is_whitespace(c),
{
    let n = c as u32;
    (0x09 <= n && n <= 0x0d) || n == 0x20 || n == 0x85 || n == 0xa0 || n == 0x1680 || (0x2000 <= n
        && n <= 0x200a) || n == 0x2028 || n == 0x2029 || n == 0x202f || n == 0x205f || n == 0x3000
}

/// The first position at or after `i` that holds no whitespace (or the end of `s`).
pub open spec fn skip_space(s: Seq<char>, i: int) -> int
    decreases s.len() - i,
{
    if 0 <= i < s.len() && char_is_whitespace(s[i]) {
        skip_space(s, i + 1)
    } else {
        i
    }
}

/// The first position at or after `i` that holds whitespace (or the end of `s`).
pub open spec fn skip_word(s: Seq<char>, i: int) -> int
    decreases s.len() - i,
{
    if 0 <= i < s.len() && !char_is_whitespace(s[i]) {
        skip_word(s, i + 1)
    } else {
        i
    }
}

/// The first word of `s` at or after position `from`, with the position just past it: words are
/// the maximal runs of characters that are not whitespace, as `str::split_whitespace` yields
/// them.
pub open spec fn next_word(s: Seq<char>, from: int) -> Option<(Seq<char>, int)> {
    let start = skip_space(s, from);
    if start >= s.len() {
        None
    } else {
        let end = skip_word(s, start);
        Some((s.subrange(start, end), end))
    }
}

proof fn lemma_skip_space_bounds(s: Seq<char>, i: int)
    requires
        0 <= i <= s.len(),
    ensures
        i <= skip_space(s, i) <= s.len(),
    decreases s.len() - i,
{
    if i < s.len() && char_is_whitespace(s[i]) {
        lemma_skip_space_bounds(s, i + 1);
    }
}

proof fn lemma_skip_word_bounds(s: Seq<char>, i: int)
    requires
        0 <= i <= s.len(),
    ensures
        i <= skip_word(s, i) <= s.len(),
    decreases s.len() - i,
{
    if i < s.len() && !char_is_whitespace(s[i]) {
        lemma_skip_word_bounds(s, i + 1);
    }
}

/// A word found at or after `from` ends within the text.
pub proof fn lemma_next_word_end(s: Seq<char>, from: int)
    requires
        0 <= from <= s.len(),
    ensures
        next_word(s, from) matches Some((_, end)) ==> from < end <= s.len(),
{
    lemma_skip_space_bounds(s, from);
    let start = skip_space(s, from);
    if start < s.len() {
        lemma_skip_space_stops(s, from);
        lemma_skip_word_bounds(s, start + 1);
    }
}

proof fn lemma_skip_space_stops(s: Seq<char>, i: int)
    requires
        0 <= i <= s.len(),
    ensures
        skip_space(s, i) < s.len() ==> !char_is_whitespace(s[skip_space(s, i)]),
    decreases s.len() - i,
{
    if i < s.len() && char_is_whitespace(s[i]) {
        lemma_skip_space_stops(s, i + 1);
    }
}

/// Every character of `w` is whitespace.
pub open spec fn all_space(w: Seq<char>) -> bool {
    forall|i: int| 0 <= i < w.len() ==> char_is_whitespace(#[trigger] w[i])
}

/// No character of `w` is whitespace.
pub open spec fn no_space(w: Seq<char>) -> bool {
    forall|i: int| 0 <= i < w.len() ==> !char_is_whitespace(#[trigger] w[i])
}

/// Skipping whitespace from `i` stops at `j` where `[i, j)` is whitespace and `j` is not.
pub proof fn lemma_skip_space_run(s: Seq<char>, i: int, j: int)
    requires
        0 <= i <= j <= s.len(),
        forall|k: int| i <= k < j ==> char_is_whitespace(#[trigger] s[k]),
        j == s.len() || !char_is_whitespace(s[j]),
    ensures
        skip_space(s, i) == j,
    decreases j - i,
{
    if i < j {
        lemma_skip_space_run(s, i + 1, j);
    }
}

/// Skipping a word from `i` stops at `j` where `[i, j)` holds no whitespace and `j` does.
pub proof fn lemma_skip_word_run(s: Seq<char>, i: int, j: int)
    requires
        0 <= i <= j <= s.len(),
        forall|k: int| i <= k < j ==> !char_is_whitespace(#[trigger] s[k]),
        j == s.len() || char_is_whitespace(s[j]),
    ensures
        skip_word(s, i) == j,
    decreases j - i,
{
    if i < j {
        lemma_skip_word_run(s, i + 1, j);
    }
}

/// The first word of `s` at or after the character position `from`, and the position just past
/// it; `None` where only whitespace is left.
pub fn next_word_of<'a>(s: &'a str, from: usize) -> (r: Option<(&'a str, usize)>)
    requires
        from <= s@.len(),
    ensures
        match r {
            Some((w, end)) => next_word(s@, from as int) == Some((w@, end as int)),
            None => next_word(s@, from as int) is None,
        },
{
    let len = s.unicode_len();
    let mut start = from;
    while start < len && is_whitespace(s.get_char(start))
        invariant
            len == s@.len(),
            from <= start <= len,
            skip_space(s@, from as int) == skip_space(s@, start as int),
        decreases len - start,
    {
        start = start + 1;
    }
    if start >= len {
        return None;
    }
    let mut end = start;
    while end < len && !is_whitespace(s.get_char(end))
        invariant
            len == s@.len(),
            start <= end <= len,
            skip_word(s@, start as int) == skip_word(s@, end as int),
        decreases len - end,
    {
        end = end + 1;
    }
    let w = s.substring_char(start, end);
    Some((w, end))
}

/// Whether `c` is an ASCII decimal digit.
pub open spec fn is_decimal_digit(c: char) -> bool {
    '0' <= c && c <= '9'
}

/// The number that a string of decimal digits writes.
pub open spec fn digits_value(d: Seq<char>) -> nat
    decreases d.len(),
{
    if d.len() == 0 {
        0
    } else {
        digits_value(d.drop_last()) * 10 + (d.last() as nat - '0' as nat) as nat
    }
}

/// The digits of an unsigned number's text: a leading `+` is dropped where more follows.
pub open spec fn unsigned_digits(s: Seq<char>) -> Seq<char> {
    if s.len() > 1 && s[0] == '+' {
        s.drop_first()
    } else {
        s
    }
}

/// What `str::parse` gives for an unsigned integer type whose largest value is `max`: the number
/// written by one or more decimal digits, after an optional `+`, where it is at most `max`.
pub open spec fn parse_unsigned_spec(s: Seq<char>, max: nat) -> Option<nat> {
    let d = unsigned_digits(s);
    if d.len() > 0 && (forall|i: int| 0 <= i < d.len() ==> is_decimal_digit(#[trigger] d[i]))
        && digits_value(d) <= max {
        Some(digits_value(d))
    } else {
        None
    }
}

/// The decimal digit character for `d` (below ten).
pub open spec fn decimal_digit(d: nat) -> char {
    (48 + d) as char
}

/// The decimal text of `n`, without leading zeros: how `n` is written.
pub open spec fn decimal_text(n: nat) -> Seq<char>
    decreases n,
{
    if n < 10 {
        seq![decimal_digit(n)]
    } else {
        decimal_text(n / 10).push(decimal_digit(n % 10))
    }
}

proof fn lemma_decimal_text(n: nat)
    ensures
        decimal_text(n).len() > 0,
        forall|i: int|
            0 <= i < decimal_text(n).len() ==> is_decimal_digit(#[trigger] decimal_text(n)[i]),
        digits_value(decimal_text(n)) == n,
    decreases n,
{
    if n < 10 {
        assert(decimal_text(n).drop_last() =~= Seq::<char>::empty());
        assert(decimal_text(n).last() as nat == 48 + n);
        assert('0' as nat == 48);
        assert(digits_value(decimal_text(n)) == digits_value(decimal_text(n).drop_last()) * 10 + (
        decimal_text(n).last() as nat - '0' as nat) as nat);
    } else {
        lemma_decimal_text(n / 10);
        let t = decimal_text(n / 10);
        assert(decimal_text(n).drop_last() =~= t);
        assert(decimal_text(n).last() as nat == 48 + n % 10);
        assert('0' as nat == 48);
        assert(digits_value(decimal_text(n)) == digits_value(t) * 10 + (decimal_text(n).last() as nat
            - '0' as nat) as nat);
        assert(n == (n / 10) * 10 + n % 10);
    }
}

/// Unsigned parsing reads back how a number is written: the decimal text of `n`, with or
/// without a leading `+`, reads as `n` exactly where `n` fits, and as nothing otherwise.
pub proof fn lemma_parse_unsigned_reads_decimal_text(n: nat, max: nat)
    ensures
        parse_unsigned_spec(decimal_text(n), max) == (if n <= max {
            Some(n)
        } else {
            None::<nat>
        }),
        parse_unsigned_spec(seq!['+'] + decimal_text(n), max) == (if n <= max {
            Some(n)
        } else {
            None::<nat>
        }),
{
    lemma_decimal_text(n);
    let t = decimal_text(n);
    assert(t[0] != '+');
    assert(unsigned_digits(t) == t);
    assert((seq!['+'] + t).drop_first() =~= t);
    assert(unsigned_digits(seq!['+'] + t) == t);
}

/// Text that holds a character other than a decimal digit, beyond a single leading `+` that
/// more follows, reads as no number.
pub proof fn lemma_parse_unsigned_refuses_other_characters(s: Seq<char>, max: nat, i: int)
    requires
        0 <= i < s.len(),
        !is_decimal_digit(s[i]),
        !(i == 0 && s[0] == '+' && s.len() > 1),
    ensures
        parse_unsigned_spec(s, max) is None,
{
    let d = unsigned_digits(s);
    if s.len() > 1 && s[0] == '+' {
        assert(d[i - 1] == s[i]);
    } else {
        assert(d[i] == s[i]);
    }
}

proof fn lemma_digits_value_prefix(d: Seq<char>, k: int)
    requires
        0 <= k <= d.len(),
        forall|i: int| 0 <= i < d.len() ==> is_decimal_digit(#[trigger] d[i]),
    ensures
        digits_value(d.take(k)) <= digits_value(d),
    decreases d.len(),
{
    if k < d.len() {
        assert(d.drop_last().take(k) == d.take(k));
        assert forall|i: int| 0 <= i < d.drop_last().len() implies is_decimal_digit(
            #[trigger] d.drop_last()[i],
        ) by {
            assert(d.drop_last()[i] == d[i]);
        }
        lemma_digits_value_prefix(d.drop_last(), k);
    } else {
        assert(d.take(k) == d);
    }
}

/// The unsigned number that `s` writes in decimal, as `str::parse` reads it for an unsigned
/// integer type whose largest value is `max`; `None` where `s` is no such number.
pub fn parse_unsigned(s: &str, max: u64) -> (r: Option<u64>)
    requires
        max <= u32::MAX,
    ensures
        match r {
            Some(v) => parse_unsigned_spec(s@, max as nat) == Some(v as nat),
            None => parse_unsigned_spec(s@, max as nat) is None,
        },
{
    let len = s.unicode_len();
    let ghost d = unsigned_digits(s@);
    let mut i: usize = 0;
    if len > 1 && s.get_char(0) == '+' {
        i = 1;
    }
    if i >= len {
        return None;
    }
    let ghost first = i as int;
    assert(d == s@.subrange(first, len as int));
    let mut acc: u64 = 0;
    while i < len
        invariant
            len == s@.len(),
            d == s@.subrange(first, len as int),
            d == unsigned_digits(s@),
            0 <= first <= i <= len,
            first < len,
            max <= u32::MAX,
            acc <= max,
            forall|j: int| first <= j < i ==> is_decimal_digit(#[trigger] s@[j]),
            acc == digits_value(s@.subrange(first, i as int)),
        decreases len - i,
    {
        let c = s.get_char(i);
        if !('0' <= c && c <= '9') {
            assert(d[i - first] == c);
            assert(!is_decimal_digit(d[i - first]));
            return None;
        }
        let digit = (c as u32 - '0' as u32) as u64;
        proof {
            let p = s@.subrange(first, i + 1);
            assert(p.drop_last() == s@.subrange(first, i as int));
            assert(p.last() == c);
        }
        acc = acc * 10 + digit;
        assert(acc == digits_value(s@.subrange(first, i + 1)));
        if acc > max {
            proof {
                if forall|j: int| 0 <= j < d.len() ==> is_decimal_digit(#[trigger] d[j]) {
                    assert(d.take(i + 1 - first) == s@.subrange(first, i + 1));
                    lemma_digits_value_prefix(d, i + 1 - first);
                }
            }
            return None;
        }
        i = i + 1;
    }
    proof {
        assert forall|j: int| 0 <= j < d.len() implies is_decimal_digit(#[trigger] d[j]) by {
            assert(d[j] == s@[first + j]);
        }
    }
    Some(acc)
}

} // verus!
