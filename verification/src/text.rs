//! Searching, comparing and counting in text, character by character.

use vstd::prelude::*;
use vstd::string::StringExecFns;

verus! {

/// `needle` occurs in `hay` at position `i`.
pub open spec fn occurs_at(needle: Seq<char>, hay: Seq<char>, i: int) -> bool {
    0 <= i && i + needle.len() <= hay.len() && hay.subrange(i, i + needle.len()) == needle
}

/// `needle` occurs in `hay` as a run of consecutive characters.
pub open spec fn is_substring(needle: Seq<char>, hay: Seq<char>) -> bool {
    exists|i: int| occurs_at(needle, hay, i)
}

/// `suffix` is what `text` ends with.
pub open spec fn is_suffix(suffix: Seq<char>, text: Seq<char>) -> bool {
    suffix.len() <= text.len() && text.subrange(text.len() - suffix.len(), text.len() as int)
        == suffix
}

/// `a` comes no later than `b` in the order of strings: at the first place
/// where they differ `a` has the character with the smaller code, or `a`
/// ends there.
pub open spec fn text_le(a: Seq<char>, b: Seq<char>) -> bool
    decreases a.len(),
{
    if a.len() == 0 {
        true
    } else if b.len() == 0 {
        false
    } else if a[0] != b[0] {
        (a[0] as u32) < (b[0] as u32)
    } else {
        text_le(a.drop_first(), b.drop_first())
    }
}

/// Whether the character is white space: one of the characters that
/// Unicode gives the property `White_Space`.
pub open spec fn is_whitespace(c: char) -> bool {
    let code = c as u32;
    ||| 0x09 <= code <= 0x0D
    ||| code == 0x20
    ||| code == 0x85
    ||| code == 0xA0
    ||| code == 0x1680
    ||| 0x2000 <= code <= 0x200A
    ||| code == 0x2028
    ||| code == 0x2029
    ||| code == 0x202F
    ||| code == 0x205F
    ||| code == 0x3000
}

/// Number of words among the first `upto` characters: of runs of
/// characters that are not white space. A word counts where it begins.
pub open spec fn word_count(text: Seq<char>, upto: nat) -> nat
    decreases upto,
{
    if upto == 0 || upto > text.len() {
        0
    } else {
        word_count(text, (upto - 1) as nat) + if !is_whitespace(text[upto - 1]) && (upto == 1
            || is_whitespace(text[upto - 2])) {
            1nat
        } else {
            0nat
        }
    }
}

/// What follows the last `separator` in the text; the whole text where
/// there is none.
pub open spec fn after_last(text: Seq<char>, separator: char) -> Seq<char>
    decreases text.len(),
{
    if text.len() == 0 {
        text
    } else if text.last() == separator {
        Seq::empty()
    } else {
        after_last(text.drop_last(), separator).push(text.last())
    }
}

/// The order of strings is total.
pub proof fn lemma_text_le_total(a: Seq<char>, b: Seq<char>)
    ensures
        text_le(a, b) || text_le(b, a),
    decreases a.len(),
{
    if a.len() == 0 {
        assert(text_le(a, b));
    } else if b.len() == 0 {
        assert(text_le(b, a));
    } else if a[0] == b[0] {
        lemma_text_le_total(a.drop_first(), b.drop_first());
        assert(text_le(a, b) == text_le(a.drop_first(), b.drop_first()));
        assert(text_le(b, a) == text_le(b.drop_first(), a.drop_first()));
    } else {
        let first: char = a[0];
        let second: char = b[0];
        vstd::utf8::char_u32_cast(first, first as u32);
        vstd::utf8::char_u32_cast(second, second as u32);
        assert(text_le(a, b) == ((first as u32) < (second as u32)));
        assert(text_le(b, a) == ((second as u32) < (first as u32)));
    }
}

/// The order of strings is transitive.
pub proof fn lemma_text_le_transitive(a: Seq<char>, b: Seq<char>, c: Seq<char>)
    requires
        text_le(a, b),
        text_le(b, c),
    ensures
        text_le(a, c),
    decreases a.len(),
{
    if a.len() > 0 && b.len() > 0 && c.len() > 0 {
        if a[0] == b[0] && b[0] == c[0] {
            lemma_text_le_transitive(a.drop_first(), b.drop_first(), c.drop_first());
        }
    }
}

/// What follows the last separator is behind it and holds none.
pub proof fn lemma_after_last(text: Seq<char>, separator: char, start: int)
    requires
        0 <= start <= text.len(),
        start > 0 ==> text[start - 1] == separator,
        forall|i: int| start <= i < text.len() ==> text[i] != separator,
    ensures
        after_last(text, separator) == text.skip(start),
    decreases text.len(),
{
    if text.len() == 0 {
        assert(text.skip(start) =~= text);
    } else if text.last() == separator {
        assert(start == text.len());
        assert(text.skip(start) =~= Seq::<char>::empty());
    } else {
        let shorter = text.drop_last();
        assert forall|i: int| start <= i < shorter.len() implies shorter[i] != separator by {
            assert(shorter[i] == text[i]);
        }
        if start > 0 {
            assert(shorter[start - 1] == text[start - 1]);
        }
        lemma_after_last(shorter, separator, start);
        assert(shorter.skip(start).push(text.last()) =~= text.skip(start));
    }
}

/// The characters of a string.
pub fn chars_of(text: &str) -> (chars: Vec<char>)
    ensures
        chars@ == text@,
{
    let mut chars: Vec<char> = Vec::new();
    for c in it: text.chars()
        invariant
            chars@ == it.seq().take(it.index() as int),
            it.seq() == text@,
    {
        chars.push(c);
    }
    chars
}

/// Tells whether `needle` occurs in `hay` at position `at`.
pub fn matches_at(needle: &Vec<char>, hay: &Vec<char>, at: usize) -> (found: bool)
    requires
        at + needle@.len() <= hay@.len(),
    ensures
        found == occurs_at(needle@, hay@, at as int),
{
    let n: usize = needle.len();
    let m: usize = hay.len();
    let mut k: usize = 0;
    while k < n
        invariant
            n == needle@.len(),
            m == hay@.len(),
            at + n <= m,
            k <= n,
            forall|j: int| 0 <= j < k ==> hay@[at + j] == needle@[j],
        decreases n - k,
    {
        if hay[at + k] != needle[k] {
            assert(hay@.subrange(at as int, at + n)[k as int] != needle@[k as int]);
            return false;
        }
        k = k + 1;
    }
    assert(hay@.subrange(at as int, at + n) =~= needle@);
    true
}

/// Tells whether `needle` occurs in `hay`.
pub fn contains(hay: &str, needle: &str) -> (found: bool)
    ensures
        found == is_substring(needle@, hay@),
{
    let hay_chars = chars_of(hay);
    let needle_chars = chars_of(needle);
    if needle_chars.len() > hay_chars.len() {
        return false;
    }
    if needle_chars.len() == 0 {
        assert(hay@.subrange(0, 0) =~= needle@);
        assert(occurs_at(needle@, hay@, 0));
        return true;
    }
    let places: usize = hay_chars.len() - needle_chars.len() + 1;
    let mut i: usize = 0;
    while i < places
        invariant
            places == hay_chars@.len() - needle_chars@.len() + 1,
            needle_chars@.len() >= 1,
            i <= places,
            hay_chars@ == hay@,
            needle_chars@ == needle@,
            forall|j: int| 0 <= j < i ==> !occurs_at(needle@, hay@, j),
        decreases places - i,
    {
        if matches_at(&needle_chars, &hay_chars, i) {
            return true;
        }
        i = i + 1;
    }
    false
}

/// Tells whether `text` ends with `suffix`.
pub fn ends_with(text: &str, suffix: &str) -> (found: bool)
    ensures
        found == is_suffix(suffix@, text@),
{
    let text_chars = chars_of(text);
    let suffix_chars = chars_of(suffix);
    if suffix_chars.len() > text_chars.len() {
        return false;
    }
    matches_at(&suffix_chars, &text_chars, text_chars.len() - suffix_chars.len())
}

/// Tells whether the characters of `a` from `from` on come no later than
/// those of `b`.
pub fn chars_le(a: &Vec<char>, b: &Vec<char>) -> (le: bool)
    ensures
        le == text_le(a@, b@),
{
    let mut i: usize = 0;
    assert(a@.skip(0) =~= a@ && b@.skip(0) =~= b@);
    while i < a.len() && i < b.len()
        invariant
            i <= a@.len(),
            i <= b@.len(),
            text_le(a@, b@) == text_le(a@.skip(i as int), b@.skip(i as int)),
        decreases a@.len() - i,
    {
        let x: char = a[i];
        let y: char = b[i];
        let ghost rest_a = a@.skip(i as int);
        let ghost rest_b = b@.skip(i as int);
        assert(rest_a[0] == x && rest_b[0] == y);
        if x != y {
            return (x as u32) < (y as u32);
        }
        assert(rest_a.drop_first() =~= a@.skip(i + 1));
        assert(rest_b.drop_first() =~= b@.skip(i + 1));
        i = i + 1;
    }
    assert(a@.skip(i as int).len() == a@.len() - i);
    assert(b@.skip(i as int).len() == b@.len() - i);
    i == a.len()
}

/// Tells whether `a` comes no later than `b` in the order of strings.
pub fn le(a: &str, b: &str) -> (le: bool)
    ensures
        le == text_le(a@, b@),
{
    let a_chars = chars_of(a);
    let b_chars = chars_of(b);
    chars_le(&a_chars, &b_chars)
}

/// Tells whether the character is white space.
pub fn is_white(c: char) -> (white: bool)
    ensures
        white == is_whitespace(c),
{
    let code: u32 = c as u32;
    (0x09 <= code && code <= 0x0D) || code == 0x20 || code == 0x85 || code == 0xA0 || code
        == 0x1680 || (0x2000 <= code && code <= 0x200A) || code == 0x2028 || code == 0x2029
        || code == 0x202F || code == 0x205F || code == 0x3000
}

/// Counts the words of a text: the runs of characters that are not white
/// space.
pub fn count_words(text: &str) -> (count: usize)
    ensures
        count == word_count(text@, text@.len()),
{
    let chars = chars_of(text);
    let n: usize = chars.len();
    let mut count: usize = 0;
    let mut in_word: bool = false;
    let mut i: usize = 0;
    while i < n
        invariant
            n == chars@.len(),
            chars@ == text@,
            i <= n,
            count == word_count(text@, i as nat),
            count <= i,
            in_word == (i > 0 && !is_whitespace(text@[i - 1])),
        decreases n - i,
    {
        let white: bool = is_white(chars[i]);
        if !white && !in_word {
            count = count + 1;
        }
        in_word = !white;
        i = i + 1;
    }
    count
}

/// The character of a decimal digit.
pub open spec fn digit_char(d: nat) -> char {
    if d == 0 {
        '0'
    } else if d == 1 {
        '1'
    } else if d == 2 {
        '2'
    } else if d == 3 {
        '3'
    } else if d == 4 {
        '4'
    } else if d == 5 {
        '5'
    } else if d == 6 {
        '6'
    } else if d == 7 {
        '7'
    } else if d == 8 {
        '8'
    } else {
        '9'
    }
}

/// The decimal digits of a number, without leading zeros.
pub open spec fn decimal_digits(n: nat) -> Seq<char>
    decreases n,
{
    if n < 10 {
        seq![digit_char(n)]
    } else {
        decimal_digits(n / 10).push(digit_char(n % 10))
    }
}

/// The text of a decimal digit.
pub fn digit_text(d: u64) -> (text: &'static str)
    requires
        d < 10,
    ensures
        text@ == seq![digit_char(d as nat)],
{
    proof {
        reveal_strlit("0");
        reveal_strlit("1");
        reveal_strlit("2");
        reveal_strlit("3");
        reveal_strlit("4");
        reveal_strlit("5");
        reveal_strlit("6");
        reveal_strlit("7");
        reveal_strlit("8");
        reveal_strlit("9");
    }
    let text = if d == 0 {
        "0"
    } else if d == 1 {
        "1"
    } else if d == 2 {
        "2"
    } else if d == 3 {
        "3"
    } else if d == 4 {
        "4"
    } else if d == 5 {
        "5"
    } else if d == 6 {
        "6"
    } else if d == 7 {
        "7"
    } else if d == 8 {
        "8"
    } else {
        "9"
    };
    assert(text@ =~= seq![digit_char(d as nat)]);
    text
}

/// The number in decimal digits.
pub fn decimal_text(n: u64) -> (text: String)
    ensures
        text@ == decimal_digits(n as nat),
    decreases n,
{
    if n < 10 {
        String::from_str(digit_text(n))
    } else {
        let mut text = decimal_text(n / 10);
        text.append(digit_text(n % 10));
        text
    }
}

/// What follows the last `separator` in the text; the whole text where
/// there is none.
pub fn text_after_last(text: &str, separator: char) -> (rest: String)
    ensures
        rest@ == after_last(text@, separator),
{
    let chars = chars_of(text);
    let n: usize = chars.len();
    let mut start: usize = n;
    while start > 0 && chars[start - 1] != separator
        invariant
            n == chars@.len(),
            start <= n,
            forall|i: int| start <= i < n ==> chars@[i] != separator,
        decreases start,
    {
        start = start - 1;
    }
    proof {
        lemma_after_last(text@, separator, start as int);
        assert(text@.skip(start as int) =~= text@.subrange(start as int, n as int));
    }
    String::from_str(text.substring_char(start, n))
}

} // verus!
