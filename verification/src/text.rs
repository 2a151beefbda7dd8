//! Character-level text helpers: Unicode white space, trimming, and the
//! SentencePiece word-boundary mark.
use vstd::prelude::*;
use vstd::string::{StrSliceExecFns, StringExecFns};

verus! {

/// The mark that SentencePiece puts at the start of a word (U+2581).
pub const WORD_BOUNDARY: char = '\u{2581}';

/// Whether `c` has the Unicode `White_Space` property.
pub open spec fn is_white_space(c: char) -> bool {
    let v = c as u32;
    ||| 0x9 <= v <= 0xd
    ||| v == 0x20
    ||| v == 0x85
    ||| v == 0xa0
    ||| v == 0x1680
    ||| 0x2000 <= v <= 0x200a
    ||| v == 0x2028
    ||| v == 0x2029
    ||| v == 0x202f
    ||| v == 0x205f
    ||| v == 0x3000
}

/// Whether `c` has the Unicode `White_Space` property.
pub fn white_space(c: char) -> (r: bool)
    ensures
        r == is_white_space(c),
{
    let v = c as u32;
    (0x9 <= v && v <= 0xd) || v == 0x20 || v == 0x85 || v == 0xa0 || v == 0x1680 || (0x2000 <= v
        && v <= 0x200a) || v == 0x2028 || v == 0x2029 || v == 0x202f || v == 0x205f || v == 0x3000
}

/// Index of the first character at or after `i` that is not white space
/// (the length if there is none).
pub open spec fn first_kept(s: Seq<char>, i: int) -> int
    decreases s.len() - i,
{
    if i >= s.len() {
        s.len() as int
    } else if is_white_space(s[i]) {
        first_kept(s, i + 1)
    } else {
        i
    }
}

/// End of `s[lo..j]` once trailing white space is dropped.
pub open spec fn kept_end(s: Seq<char>, lo: int, j: int) -> int
    decreases j - lo,
{
    if j <= lo {
        lo
    } else if is_white_space(s[j - 1]) {
        kept_end(s, lo, j - 1)
    } else {
        j
    }
}

/// `s` without its leading and trailing white space.
pub open spec fn trimmed(s: Seq<char>) -> Seq<char> {
    let a = first_kept(s, 0);
    s.subrange(a, kept_end(s, a, s.len() as int))
}

/// White space is exactly the characters with the Unicode `White_Space`
/// property: tab, line feed, line tabulation, form feed, carriage return,
/// space, next line, no-break space, ogham space mark, the spaces from en
/// quad to hair space, line separator, paragraph separator, narrow no-break
/// space, medium mathematical space and ideographic space.
pub proof fn law_white_space_is_unicode_white_space(c: char)
    ensures
        is_white_space(c) <==> (c == '\t' || c == '\n' || c == '\u{0B}' || c == '\u{0C}' || c == '\r' || c
            == ' ' || c == '\u{85}' || c == '\u{A0}' || c == '\u{1680}' || c == '\u{2000}' || c == '\u{2001}'
            || c == '\u{2002}' || c == '\u{2003}' || c == '\u{2004}' || c == '\u{2005}' || c == '\u{2006}' || c
            == '\u{2007}' || c == '\u{2008}' || c == '\u{2009}' || c == '\u{200A}' || c == '\u{2028}' || c
            == '\u{2029}' || c == '\u{202F}' || c == '\u{205F}' || c == '\u{3000}'),
{
}

proof fn lemma_first_kept(s: Seq<char>, i: int)
    requires
        0 <= i <= s.len(),
    ensures
        i <= first_kept(s, i) <= s.len(),
        forall|k: int| i <= k < first_kept(s, i) ==> is_white_space(#[trigger] s[k]),
        first_kept(s, i) < s.len() ==> !is_white_space(s[first_kept(s, i)]),
    decreases s.len() - i,
{
    if i < s.len() && is_white_space(s[i]) {
        lemma_first_kept(s, i + 1);
    }
}

proof fn lemma_kept_end(s: Seq<char>, lo: int, j: int)
    requires
        0 <= lo <= j <= s.len(),
    ensures
        lo <= kept_end(s, lo, j) <= j,
        forall|k: int| kept_end(s, lo, j) <= k < j ==> is_white_space(#[trigger] s[k]),
        kept_end(s, lo, j) > lo ==> !is_white_space(s[kept_end(s, lo, j) - 1]),
    decreases j - lo,
{
    if j > lo && is_white_space(s[j - 1]) {
        lemma_kept_end(s, lo, j - 1);
    }
}

/// Trimming keeps one unbroken stretch of the text: everything before it
/// and everything after it is white space, and what is kept neither starts
/// nor ends with white space.
pub proof fn law_trim_strips_white_space(s: Seq<char>)
    ensures
        exists|a: int, b: int|
            {
                &&& 0 <= a <= b <= s.len()
                &&& trimmed(s) == s.subrange(a, b)
                &&& forall|k: int| 0 <= k < a ==> is_white_space(#[trigger] s[k])
                &&& forall|k: int| b <= k < s.len() ==> is_white_space(#[trigger] s[k])
                &&& a < b ==> !is_white_space(s[a]) && !is_white_space(s[b - 1])
            },
        trimmed(s).len() > 0 ==> !is_white_space(trimmed(s)[0]) && !is_white_space(trimmed(s).last()),
{
    lemma_first_kept(s, 0);
    let a = first_kept(s, 0);
    lemma_kept_end(s, a, s.len() as int);
    let b = kept_end(s, a, s.len() as int);
    if a < b {
        assert(a < s.len());
    }
    assert(trimmed(s) == s.subrange(a, b));
}

/// Whether `s` begins with the word-boundary mark.
pub open spec fn starts_with_boundary(s: Seq<char>) -> bool {
    s.len() > 0 && s[0] == WORD_BOUNDARY
}

/// Whether `s` is the word-boundary mark alone.
pub open spec fn is_boundary_mark(s: Seq<char>) -> bool {
    s.len() == 1 && s[0] == WORD_BOUNDARY
}

/// `text` without its leading and trailing white space.
pub fn trim(text: &str) -> (r: &str)
    ensures
        r@ == trimmed(text@),
{
    let n = text.unicode_len();
    let mut i: usize = 0;
    while i < n && white_space(text.get_char(i))
        invariant
            n == text@.len(),
            i <= n,
            first_kept(text@, 0) == first_kept(text@, i as int),
        decreases n - i,
    {
        i = i + 1;
    }
    let mut j: usize = n;
    while j > i && white_space(text.get_char(j - 1))
        invariant
            n == text@.len(),
            i <= j <= n,
            first_kept(text@, 0) == i,
            kept_end(text@, i as int, n as int) == kept_end(text@, i as int, j as int),
        decreases j - i,
    {
        j = j - 1;
    }
    text.substring_char(i, j)
}

/// Whether `text` begins with the word-boundary mark.
pub fn has_boundary_prefix(text: &str) -> (r: bool)
    ensures
        r == starts_with_boundary(text@),
{
    !text.is_empty() && text.get_char(0) == WORD_BOUNDARY
}

/// Whether `text` is the word-boundary mark alone.
pub fn is_boundary_piece(text: &str) -> (r: bool)
    ensures
        r == is_boundary_mark(text@),
{
    text.unicode_len() == 1 && text.get_char(0) == WORD_BOUNDARY
}

/// `text` with the word-boundary mark put in front.
pub fn with_boundary_prefix(text: &str) -> (r: String)
    ensures
        r@ == seq![WORD_BOUNDARY] + text@,
{
    let mut r = String::from_str("\u{2581}");
    proof {
        reveal_strlit("\u{2581}");
    }
    r.append(text);
    r
}

} // verus!
