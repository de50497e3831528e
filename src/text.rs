//! The character-level model of the input: character classes, runs of
//! characters, line and column positions, and trimming.

use vstd::prelude::*;
use vstd::std_specs::iter::IteratorSpec;

verus! {

/// Whether `c` has the Unicode `White_Space` property, as `char::is_whitespace`
/// decides it.
pub uninterp spec fn is_white_space(c: char) -> bool;

/// Relies on `char::is_whitespace`: true exactly for characters with the
/// Unicode `White_Space` property, which depends on the character alone.
#[verifier::external_body]
pub(crate) fn white_space(c: char) -> (r: bool)
    ensures
        r == is_white_space(c),
{
    c.is_whitespace()
}

/// The classes of characters that the scanner consumes in runs.
#[derive(Clone, Copy)]
pub enum CharClass {
    /// Unicode white space.
    Whitespace,
    /// Anything but `=`, `/`, `>` and white space: tag and attribute names.
    Identifier,
    /// Anything but `<`: text between tags.
    Text,
    /// Anything but `>`, `/` and white space: an attribute value without quotes.
    UnquotedValue,
    /// Anything but the given character: the inside of a quoted value.
    Except(char),
}

/// Whether `c` belongs to `class`, given whether it is white space.
pub open spec fn admits(c: char, class: CharClass, white: bool) -> bool {
    match class {
        CharClass::Whitespace => white,
        CharClass::Identifier => c != '=' && c != '/' && c != '>' && !white,
        CharClass::Text => c != '<',
        CharClass::UnquotedValue => c != '>' && c != '/' && !white,
        CharClass::Except(q) => c != q,
    }
}

pub open spec fn in_class(c: char, class: CharClass) -> bool {
    admits(c, class, is_white_space(c))
}

/// Whether `c` belongs to `class`, where `white` says whether `c` is white
/// space.
pub fn class_admits(c: char, class: CharClass, white: bool) -> (r: bool)
    ensures
        r == admits(c, class, white),
{
    match class {
        CharClass::Whitespace => white,
        CharClass::Identifier => c != '=' && c != '/' && c != '>' && !white,
        CharClass::Text => c != '<',
        CharClass::UnquotedValue => c != '>' && c != '/' && !white,
        CharClass::Except(q) => c != q,
    }
}

pub fn char_in_class(c: char, class: CharClass) -> (r: bool)
    ensures
        r == in_class(c, class),
{
    class_admits(c, class, white_space(c))
}

/// The index just past the longest run of `class` characters of `s` that
/// starts at `i`.
pub open spec fn run_end(s: Seq<char>, i: int, class: CharClass) -> int
    decreases s.len() - i,
{
    if 0 <= i < s.len() && in_class(s[i], class) {
        run_end(s, i + 1, class)
    } else {
        i
    }
}

pub proof fn lemma_run_end(s: Seq<char>, i: int, class: CharClass)
    requires
        0 <= i <= s.len(),
    ensures
        i <= run_end(s, i, class) <= s.len(),
        forall|k: int| i <= k < run_end(s, i, class) ==> in_class(#[trigger] s[k], class),
        run_end(s, i, class) < s.len() ==> !in_class(s[run_end(s, i, class)], class),
    decreases s.len() - i,
{
    if i < s.len() && in_class(s[i], class) {
        lemma_run_end(s, i + 1, class);
    }
}

/// Characters that the scanner may pass over without putting them in a token:
/// markup punctuation and white space.
pub open spec fn is_markup(c: char) -> bool {
    c == '<' || c == '/' || c == '>' || c == '=' || c == '"' || c == '\'' || is_white_space(c)
}

pub open spec fn only_markup(s: Seq<char>, a: int, b: int) -> bool {
    forall|k: int| a <= k < b ==> is_markup(#[trigger] s[k])
}

/// The line of the position just before index `n`: the number of line
/// breaks among the first `n` characters.
pub open spec fn line_at(s: Seq<char>, n: int) -> nat {
    s.subrange(0, n).filter(|c: char| c == '\n').len()
}

/// The column of the position just before index `n`: the number of
/// characters since the last line break.
pub open spec fn column_at(s: Seq<char>, n: int) -> nat
    decreases n,
{
    if n <= 0 {
        0
    } else if s[n - 1] == '\n' {
        0
    } else {
        column_at(s, n - 1) + 1
    }
}

pub proof fn lemma_position_step(s: Seq<char>, n: int)
    requires
        0 <= n < s.len(),
    ensures
        line_at(s, n + 1) == line_at(s, n) + (if s[n] == '\n' { 1int } else { 0int }),
        line_at(s, n) <= n,
        column_at(s, n) <= n,
    decreases n,
{
    reveal(Seq::filter);
    assert(s.subrange(0, n + 1).drop_last() =~= s.subrange(0, n));
    s.subrange(0, n).lemma_filter_len(|c: char| c == '\n');
    if n > 0 {
        lemma_position_step(s, n - 1);
    } else {
        assert(s.subrange(0, 0) =~= Seq::<char>::empty());
    }
}

/// The index of the first character of `s` that is not white space.
pub open spec fn trim_start(s: Seq<char>) -> int {
    run_end(s, 0, CharClass::Whitespace)
}

/// The index just past the last character of `s[..j]` that is not white space.
pub open spec fn trim_end_from(s: Seq<char>, j: int) -> int
    decreases j,
{
    if 0 < j <= s.len() && is_white_space(s[j - 1]) {
        trim_end_from(s, j - 1)
    } else {
        j
    }
}

/// `s` without its leading and trailing white space.
pub open spec fn trimmed(s: Seq<char>) -> Seq<char> {
    if trim_start(s) == s.len() {
        Seq::empty()
    } else {
        s.subrange(trim_start(s), trim_end_from(s, s.len() as int))
    }
}

/// Collects the characters of `s`, in order.
pub fn chars_of(s: &str) -> (v: Vec<char>)
    ensures
        v@ == s@,
{
    let mut it = s.chars();
    let mut v: Vec<char> = Vec::new();
    loop
        invariant
            v@ + it.remaining() == s@,
            it.decrease() is Some,
        decreases it.decrease()->0,
    {
        match it.next() {
            Some(c) => {
                v.push(c);
            },
            None => {
                return v;
            },
        }
    }
}

/// `s` without leading and trailing white space; a slice of `s` itself.
pub fn trim<'a>(s: &'a str) -> (r: &'a str)
    ensures
        r@ == trimmed(s@),
{
    let chars = chars_of(s);
    let n = chars.len();
    let mut start: usize = 0;
    while start < n && white_space(chars[start])
        invariant
            chars@ == s@,
            n == chars@.len(),
            start <= n,
            run_end(s@, 0, CharClass::Whitespace) == run_end(s@, start as int, CharClass::Whitespace),
        decreases n - start,
    {
        start += 1;
    }
    if start == n {
        return s.substring_char(n, n);
    }
    let mut end: usize = n;
    while end > start && white_space(chars[end - 1])
        invariant
            chars@ == s@,
            n == chars@.len(),
            start < end <= n,
            !is_white_space(s@[start as int]),
            trim_end_from(s@, n as int) == trim_end_from(s@, end as int),
        decreases end,
    {
        end -= 1;
    }
    assert(run_end(s@, start as int, CharClass::Whitespace) == start);
    assert(trim_end_from(s@, end as int) == end);
    s.substring_char(start, end)
}

} // verus!
