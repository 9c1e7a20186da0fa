//! Texts as sequences of characters.
use vstd::prelude::*;

verus! {

/// Whether two texts are the same.
pub fn same_text(a: &str, b: &str) -> (r: bool)
    ensures
        r == (a@ == b@),
{
    let n = a.unicode_len();
    if n != b.unicode_len() {
        return false;
    }
    let mut i: usize = 0;
    while i < n
        invariant
            n == a@.len(),
            n == b@.len(),
            i <= n,
            forall|k: int| 0 <= k < i ==> a@[k] == b@[k],
        decreases n - i,
    {
        if a.get_char(i) != b.get_char(i) {
            return false;
        }
        i = i + 1;
    }
    assert(a@ =~= b@);
    true
}

/// Whether a text starts with another.
pub fn has_prefix(s: &str, prefix: &str) -> (r: bool)
    ensures
        r == prefix@.is_prefix_of(s@),
{
    let n = prefix.unicode_len();
    if n > s.unicode_len() {
        return false;
    }
    let mut i: usize = 0;
    while i < n
        invariant
            n == prefix@.len(),
            n <= s@.len(),
            i <= n,
            forall|k: int| 0 <= k < i ==> prefix@[k] == s@[k],
        decreases n - i,
    {
        if prefix.get_char(i) != s.get_char(i) {
            assert(s@.subrange(0, n as int)[i as int] != prefix@[i as int]);
            return false;
        }
        i = i + 1;
    }
    assert(prefix@ =~= s@.subrange(0, n as int));
    true
}

/// Whether a character is a decimal digit.
pub open spec fn is_digit(c: char) -> bool {
    '0' <= c <= '9'
}

/// The number that a text of digits stands for.
pub open spec fn digits_value(s: Seq<char>) -> nat
    decreases s.len(),
{
    if s.len() == 0 {
        0
    } else {
        digits_value(s.drop_last()) * 10 + (s.last() as int - '0' as int) as nat
    }
}

/// The digits of an index, which one plus sign may precede.
pub open spec fn index_digits(s: Seq<char>) -> Seq<char> {
    if s.len() > 0 && s[0] == '+' {
        s.skip(1)
    } else {
        s
    }
}

/// Whether a text is a number in digits.
pub open spec fn is_number(s: Seq<char>) -> bool {
    s.len() > 0 && forall|i: int| 0 <= i < s.len() ==> is_digit(#[trigger] s[i])
}

/// The machine number that a text stands for, if it stands for one.
pub open spec fn index_value(s: Seq<char>) -> Option<usize> {
    let digits = index_digits(s);
    if is_number(digits) && digits_value(digits) <= usize::MAX {
        Some(digits_value(digits) as usize)
    } else {
        None
    }
}

/// A longer run of digits stands for no lesser number.
proof fn lemma_digits_grow(s: Seq<char>, n: int)
    requires
        0 <= n <= s.len(),
    ensures
        digits_value(s.take(n)) <= digits_value(s),
    decreases s.len() - n,
{
    if n < s.len() {
        lemma_digits_grow(s, n + 1);
        assert(s.take(n + 1).drop_last() =~= s.take(n));
    } else {
        assert(s.take(n) =~= s);
    }
}

/// The machine number that stands behind the first `from` characters.
pub fn parse_index(s: &str, from: usize) -> (r: Option<usize>)
    requires
        from <= s@.len(),
    ensures
        r == index_value(s@.skip(from as int)),
{
    let n = s.unicode_len();
    let mut start = from;
    let ghost tail = s@.skip(from as int);
    if from < n && s.get_char(from) == '+' {
        start = from + 1;
    }
    let ghost digits = index_digits(tail);
    assert(digits =~= s@.skip(start as int));
    if start == n {
        return None;
    }
    let mut value: usize = 0;
    let mut i = start;
    while i < n
        invariant
            n == s@.len(),
            start <= i <= n,
            digits == s@.skip(start as int),
            digits == index_digits(tail),
            tail == s@.skip(from as int),
            forall|k: int| 0 <= k < i - start ==> is_digit(#[trigger] digits[k]),
            value == digits_value(digits.take(i - start)),
        decreases n - i,
    {
        let c = s.get_char(i);
        let ghost k = i - start;
        assert(digits[k] == c);
        if c < '0' || c > '9' {
            assert(!is_digit(digits[k]));
            return None;
        }
        let d = (c as u32 - '0' as u32) as usize;
        proof {
            assert(digits.take(k + 1).drop_last() =~= digits.take(k));
            assert(digits.take(k + 1).last() == c);
            lemma_digits_grow(digits, k + 1);
            assert(digits_value(digits.take(k + 1)) == value * 10 + d);
        }
        match value.checked_mul(10) {
            Some(tens) => match tens.checked_add(d) {
                Some(v) => {
                    value = v;
                },
                None => {
                    return None;
                },
            },
            None => {
                return None;
            },
        }
        i = i + 1;
    }
    assert(digits.take(digits.len() as int) =~= digits);
    Some(value)
}

/// A text with what precedes and what follows a user's instruction to the model.
pub open spec fn framed(instruct: Seq<char>) -> Seq<char> {
    "<|im_start|>user\n"@ + instruct + "<|im_end|>\n"@
}

/// Frame a voice description as a user's turn.
pub fn frame_instruct(instruct: &str) -> (r: String)
    ensures
        r@ == framed(instruct@),
{
    let mut text = "<|im_start|>user\n".to_owned();
    text.append(instruct);
    text.append("<|im_end|>\n");
    text
}

/// Whether a character stands between words.
pub open spec fn is_space(c: char) -> bool {
    c == ' ' || '\t' <= c <= '\r' || c == '\u{a0}' || c == '\u{3000}'
}

/// Whether a character is an ideograph or a kana. These are written without spaces
/// between words, and each counts as a word.
pub open spec fn is_unspaced(c: char) -> bool {
    ||| '\u{2e80}' <= c <= '\u{2fdf}'
    ||| '\u{3005}' <= c <= '\u{3007}'
    ||| '\u{3041}' <= c <= '\u{312f}'
    ||| '\u{31a0}' <= c <= '\u{31ff}'
    ||| '\u{3400}' <= c <= '\u{4dbf}'
    ||| '\u{4e00}' <= c <= '\u{9fff}'
    ||| '\u{f900}' <= c <= '\u{faff}'
    ||| '\u{ff66}' <= c <= '\u{ff9f}'
    ||| '\u{20000}' <= c <= '\u{3ffff}'
}

/// Whether a word starts at this position.
pub open spec fn starts_word(s: Seq<char>, i: int) -> bool {
    &&& !is_space(s[i])
    &&& i == 0 || is_space(s[i - 1]) || is_unspaced(s[i - 1]) || is_unspaced(s[i])
}

/// The number of words of a text.
pub open spec fn words(s: Seq<char>) -> nat
    decreases s.len(),
{
    if s.len() == 0 {
        0
    } else {
        words(s.drop_last()) + if starts_word(s, s.len() - 1) {
            1nat
        } else {
            0
        }
    }
}

/// The number of words of a text.
pub fn count_words(s: &str) -> (r: usize)
    ensures
        r == words(s@),
{
    let n = s.unicode_len();
    let mut count: usize = 0;
    let mut apart = true;
    let mut i: usize = 0;
    while i < n
        invariant
            n == s@.len(),
            i <= n,
            count == words(s@.take(i as int)),
            count <= i,
            apart == (i == 0 || is_space(s@[i - 1]) || is_unspaced(s@[i - 1])),
        decreases n - i,
    {
        let c = s.get_char(i);
        let space = c == ' ' || ('\t' <= c && c <= '\r') || c == '\u{a0}' || c == '\u{3000}';
        let unspaced = ('\u{2e80}' <= c && c <= '\u{2fdf}') || ('\u{3005}' <= c && c <= '\u{3007}')
            || ('\u{3041}' <= c && c <= '\u{312f}') || ('\u{31a0}' <= c && c <= '\u{31ff}') || (
        '\u{3400}' <= c && c <= '\u{4dbf}') || ('\u{4e00}' <= c && c <= '\u{9fff}') || ('\u{f900}'
            <= c && c <= '\u{faff}') || ('\u{ff66}' <= c && c <= '\u{ff9f}') || ('\u{20000}' <= c
            && c <= '\u{3ffff}');
        proof {
            let now = s@.take(i + 1);
            assert(now.drop_last() =~= s@.take(i as int));
            assert(now.last() == c);
            assert(i > 0 ==> now[i - 1] == s@[i - 1]);
        }
        if !space && (apart || unspaced) {
            count = count + 1;
        }
        apart = space || unspaced;
        i = i + 1;
    }
    assert(s@.take(n as int) =~= s@);
    count
}

} // verus!
