//! Counting the lines, words and bytes of a text, as `wc` reports them.
//!
//! The text comes as its sequence of characters. Lines end at a newline (a
//! last line needs none); words are maximal runs of characters that are not
//! Unicode white space; bytes are those of the text's UTF-8 encoding.
use vstd::prelude::*;

verus! {

/// Unicode white space: the characters with the `White_Space` property.
pub open spec fn is_whitespace(c: char) -> bool {
    let u = c as u32;
    (0x9 <= u <= 0xD) || u == 0x20 || u == 0x85 || u == 0xA0 || u == 0x1680 || (0x2000 <= u <= 0x200A) || u
        == 0x2028 || u == 0x2029 || u == 0x202F || u == 0x205F || u == 0x3000
}

/// Bytes of the UTF-8 encoding of `c`.
pub open spec fn utf8_len(c: char) -> nat {
    let u = c as u32;
    if u < 0x80 {
        1
    } else if u < 0x800 {
        2
    } else if u < 0x10000 {
        3
    } else {
        4
    }
}

/// Newline characters in `s`.
pub open spec fn newlines(s: Seq<char>) -> nat
    decreases s.len(),
{
    if s.len() == 0 {
        0
    } else {
        newlines(s.drop_last()) + if s.last() == '\n' {
            1nat
        } else {
            0nat
        }
    }
}

/// Lines of `s`: one per newline, and one more for text after the last.
pub open spec fn line_count(s: Seq<char>) -> nat {
    newlines(s) + if s.len() > 0 && s.last() != '\n' {
        1nat
    } else {
        0nat
    }
}

/// Words of `s`: characters other than white space that begin the text or
/// follow white space.
pub open spec fn word_count(s: Seq<char>) -> nat
    decreases s.len(),
{
    if s.len() == 0 {
        0
    } else {
        word_count(s.drop_last()) + if !is_whitespace(s.last()) && (s.len() == 1 || is_whitespace(
            s[s.len() - 2],
        )) {
            1nat
        } else {
            0nat
        }
    }
}

/// Bytes of the UTF-8 encoding of `s`.
pub open spec fn byte_count(s: Seq<char>) -> nat
    decreases s.len(),
{
    if s.len() == 0 {
        0
    } else {
        byte_count(s.drop_last()) + utf8_len(s.last())
    }
}

/// A final newline is optional: a text not ending in one has as many lines
/// as the same text with one added.
pub proof fn lemma_final_newline_optional(s: Seq<char>)
    requires
        s.len() > 0,
        s.last() != '\n',
    ensures
        line_count(s.push('\n')) == line_count(s),
{
    assert(s.push('\n').drop_last() =~= s);
}

/// Any run of white space separates words: joining two texts with white
/// space between them adds up their words.
pub proof fn lemma_words_join(a: Seq<char>, sep: char, b: Seq<char>)
    requires
        is_whitespace(sep),
    ensures
        word_count(a.push(sep) + b) == word_count(a) + word_count(b),
    decreases b.len(),
{
    if b.len() == 0 {
        assert(a.push(sep) + b =~= a.push(sep));
        assert(a.push(sep).drop_last() =~= a);
    } else {
        let j = a.push(sep) + b;
        assert(j.drop_last() =~= a.push(sep) + b.drop_last());
        lemma_words_join(a, sep, b.drop_last());
        if b.len() == 1 {
            assert(j[j.len() - 2] == sep);
        } else {
            assert(j[j.len() - 2] == b[b.len() - 2]);
        }
    }
}

/// A nonempty text without white space is one word.
pub proof fn lemma_one_word_without_white_space(s: Seq<char>)
    requires
        s.len() > 0,
        forall|i: int| 0 <= i < s.len() ==> !is_whitespace(#[trigger] s[i]),
    ensures
        word_count(s) == 1,
    decreases s.len(),
{
    assert(!is_whitespace(s[s.len() - 1]));
    if s.len() == 1 {
        assert(word_count(s.drop_last()) == 0);
    } else {
        let t = s.drop_last();
        assert forall|i: int| 0 <= i < t.len() implies !is_whitespace(#[trigger] t[i]) by {
            assert(t[i] == s[i]);
        }
        lemma_one_word_without_white_space(t);
        assert(!is_whitespace(s[s.len() - 2]));
    }
}

/// A text of white space only has no word.
pub proof fn lemma_no_word_in_white_space(s: Seq<char>)
    requires
        forall|i: int| 0 <= i < s.len() ==> is_whitespace(#[trigger] s[i]),
    ensures
        word_count(s) == 0,
    decreases s.len(),
{
    if s.len() > 0 {
        let t = s.drop_last();
        assert forall|i: int| 0 <= i < t.len() implies is_whitespace(#[trigger] t[i]) by {
            assert(t[i] == s[i]);
        }
        lemma_no_word_in_white_space(t);
    }
}

/// The word count depends on a character only through whether it is white
/// space: texts that have white space at the same places have as many words.
pub proof fn lemma_words_depend_on_white_space_only(s: Seq<char>, t: Seq<char>)
    requires
        s.len() == t.len(),
        forall|i: int| 0 <= i < s.len() ==> is_whitespace(#[trigger] s[i]) == is_whitespace(t[i]),
    ensures
        word_count(s) == word_count(t),
    decreases s.len(),
{
    if s.len() > 0 {
        let s1 = s.drop_last();
        let t1 = t.drop_last();
        assert forall|i: int| 0 <= i < s1.len() implies is_whitespace(#[trigger] s1[i]) == is_whitespace(t1[i]) by {
            assert(s1[i] == s[i] && t1[i] == t[i]);
        }
        lemma_words_depend_on_white_space_only(s1, t1);
        assert(is_whitespace(s[s.len() - 1]) == is_whitespace(t[t.len() - 1]));
        if s.len() >= 2 {
            assert(is_whitespace(s[s.len() - 2]) == is_whitespace(t[t.len() - 2]));
        }
    }
}

/// Space, tab, newline and carriage return are white space; letters,
/// digits and punctuation such as '-' are not.
pub proof fn lemma_white_space_examples(c: char)
    ensures
        c == ' ' || c == '\t' || c == '\n' || c == '\r' ==> is_whitespace(c),
        ('a' <= c <= 'z') || ('A' <= c <= 'Z') || ('0' <= c <= '9') || c == '-' || c == '.' || c == ',' ==> !is_whitespace(c),
{
}

/// Whether `c` is Unicode white space.
pub fn is_whitespace_char(c: char) -> (b: bool)
    ensures
        b == is_whitespace(c),
{
    let u = c as u32;
    (0x9 <= u && u <= 0xD) || u == 0x20 || u == 0x85 || u == 0xA0 || u == 0x1680 || (0x2000 <= u && u <= 0x200A)
        || u == 0x2028 || u == 0x2029 || u == 0x202F || u == 0x205F || u == 0x3000
}

/// Bytes of the UTF-8 encoding of `c`.
pub fn utf8_width(c: char) -> (n: usize)
    ensures
        n == utf8_len(c),
{
    let u = c as u32;
    if u < 0x80 {
        1
    } else if u < 0x800 {
        2
    } else if u < 0x10000 {
        3
    } else {
        4
    }
}

proof fn lemma_prefix_step(s: Seq<char>, i: int)
    requires
        0 <= i < s.len(),
    ensures
        s.subrange(0, i + 1).drop_last() == s.subrange(0, i),
        s.subrange(0, i + 1).last() == s[i],
        i >= 1 ==> s.subrange(0, i + 1)[i - 1] == s[i - 1],
{
    assert(s.subrange(0, i + 1).drop_last() =~= s.subrange(0, i));
}

proof fn lemma_counts_bounded(s: Seq<char>)
    ensures
        newlines(s) <= s.len(),
        word_count(s) <= s.len(),
    decreases s.len(),
{
    if s.len() > 0 {
        lemma_counts_bounded(s.drop_last());
    }
}

/// Lines of `text`.
pub fn count_lines(text: &[char]) -> (n: usize)
    ensures
        n == line_count(text@),
{
    let mut count: usize = 0;
    let mut i: usize = 0;
    while i < text.len()
        invariant
            i <= text@.len(),
            count == newlines(text@.subrange(0, i as int)),
        decreases text@.len() - i,
    {
        proof {
            lemma_prefix_step(text@, i as int);
            lemma_counts_bounded(text@.subrange(0, i as int));
        }
        if text[i] == '\n' {
            count = count + 1;
        }
        i = i + 1;
    }
    assert(text@.subrange(0, i as int) =~= text@);
    if text.len() > 0 && text[text.len() - 1] != '\n' {
        proof {
            lemma_counts_bounded(text@.drop_last());
        }
        count = count + 1;
    }
    count
}

/// Words of `text`.
pub fn count_words(text: &[char]) -> (n: usize)
    ensures
        n == word_count(text@),
{
    let mut count: usize = 0;
    let mut i: usize = 0;
    while i < text.len()
        invariant
            i <= text@.len(),
            count == word_count(text@.subrange(0, i as int)),
        decreases text@.len() - i,
    {
        proof {
            lemma_prefix_step(text@, i as int);
            lemma_counts_bounded(text@.subrange(0, i as int));
        }
        if !is_whitespace_char(text[i]) && (i == 0 || is_whitespace_char(text[i - 1])) {
            count = count + 1;
        }
        i = i + 1;
    }
    assert(text@.subrange(0, i as int) =~= text@);
    count
}

/// Bytes of the UTF-8 encoding of `text`; the encoding must fit in memory.
pub fn count_bytes(text: &[char]) -> (n: usize)
    requires
        byte_count(text@) <= usize::MAX,
    ensures
        n == byte_count(text@),
{
    let mut count: usize = 0;
    let mut i: usize = 0;
    while i < text.len()
        invariant
            i <= text@.len(),
            count == byte_count(text@.subrange(0, i as int)),
            byte_count(text@) <= usize::MAX,
        decreases text@.len() - i,
    {
        proof {
            lemma_prefix_step(text@, i as int);
            lemma_byte_count_prefix(text@, i as int + 1);
        }
        count = count + utf8_width(text[i]);
        i = i + 1;
    }
    assert(text@.subrange(0, i as int) =~= text@);
    count
}

/// A prefix never has more bytes than the whole.
proof fn lemma_byte_count_prefix(s: Seq<char>, i: int)
    requires
        0 <= i <= s.len(),
    ensures
        byte_count(s.subrange(0, i)) <= byte_count(s),
    decreases s.len() - i,
{
    if i < s.len() {
        lemma_byte_count_prefix(s, i + 1);
        lemma_prefix_step(s, i);
    } else {
        assert(s.subrange(0, i) =~= s);
    }
}

/// The three counts of `wc`: lines, words and bytes.
pub fn wc_counts(text: &[char]) -> (r: (usize, usize, usize))
    requires
        byte_count(text@) <= usize::MAX,
    ensures
        r == (line_count(text@) as usize, word_count(text@) as usize, byte_count(text@) as usize),
{
    (count_lines(text), count_words(text), count_bytes(text))
}

} // verus!
