//! What is done to a text before it is decoded: the white space around it is
//! dropped and its letters are upper-cased. Both are left to std; this module
//! says what they yield.

use vstd::prelude::*;

verus! {

/// What `str::to_uppercase` makes of a text that holds at least one character
/// outside the ASCII range.
pub uninterp spec fn unicode_uppercase(s: Seq<char>) -> Seq<char>;

/// Whether a character lies in the ASCII range.
pub open spec fn is_ascii_char(c: char) -> bool {
    c as u32 <= 0x7f
}

/// Whether a text holds ASCII characters only.
pub open spec fn is_ascii_text(s: Seq<char>) -> bool {
    forall|i: int| 0 <= i < s.len() ==> is_ascii_char(#[trigger] s[i])
}

/// Whether a character is white space as Unicode lists it under
/// `White_Space`, by which `str::trim` goes.
pub open spec fn is_white_space(c: char) -> bool {
    ||| '\t' <= c <= '\r'
    ||| c == ' '
    ||| c == '\u{85}'
    ||| c == '\u{a0}'
    ||| c == '\u{1680}'
    ||| '\u{2000}' <= c <= '\u{200a}'
    ||| c == '\u{2028}'
    ||| c == '\u{2029}'
    ||| c == '\u{202f}'
    ||| c == '\u{205f}'
    ||| c == '\u{3000}'
}

/// A text without the white space that it begins with.
pub open spec fn trimmed_start(s: Seq<char>) -> Seq<char>
    decreases s.len(),
{
    if s.len() > 0 && is_white_space(s[0]) {
        trimmed_start(s.drop_first())
    } else {
        s
    }
}

/// A text without the white space that it ends with.
pub open spec fn trimmed_end(s: Seq<char>) -> Seq<char>
    decreases s.len(),
{
    if s.len() > 0 && is_white_space(s.last()) {
        trimmed_end(s.drop_last())
    } else {
        s
    }
}

/// A text without the white space around it.
pub open spec fn trimmed(s: Seq<char>) -> Seq<char> {
    trimmed_end(trimmed_start(s))
}

/// The capital of a small ASCII letter; every other character is kept.
pub open spec fn ascii_upper(c: char) -> char {
    if 'a' <= c <= 'z' {
        ((c as u32) - 32) as char
    } else {
        c
    }
}

/// A text with each of its characters put through `ascii_upper`.
pub open spec fn ascii_uppercased(s: Seq<char>) -> Seq<char> {
    Seq::new(s.len(), |i: int| ascii_upper(s[i]))
}

/// A text in upper case: an ASCII text changes letter by letter; of any other
/// text only the name of the result is known.
pub open spec fn uppercased(s: Seq<char>) -> Seq<char> {
    if is_ascii_text(s) {
        ascii_uppercased(s)
    } else {
        unicode_uppercase(s)
    }
}

/// A text as the decoder takes it: trimmed, then upper-cased.
pub open spec fn normalized(s: Seq<char>) -> Seq<char> {
    uppercased(trimmed(s))
}

/// Calls `str::trim`. The contract restates its documentation: the slice
/// that is returned is the text without its leading and trailing white space,
/// where white space is what Unicode lists under `White_Space`.
#[verifier::external_body]
pub(crate) fn trim(s: &str) -> (t: &str)
    ensures
        t@ == trimmed(s@),
{
    s.trim()
}

/// Calls `str::to_uppercase`. The contract claims two things of it. In an
/// ASCII text the letters `a` to `z` become `A` to `Z` and nothing else
/// changes, which is how Unicode maps the ASCII range to upper case. Of a text
/// with any other character the result is only named: it depends on the text
/// alone, and a single character may become several.
#[verifier::external_body]
pub(crate) fn to_uppercase(s: &str) -> (u: String)
    ensures
        is_ascii_text(s@) ==> u@ == ascii_uppercased(s@),
        !is_ascii_text(s@) ==> u@ == unicode_uppercase(s@),
{
    s.to_uppercase()
}

/// Trims a text and puts it in upper case.
pub fn normalize(s: &str) -> (u: String)
    ensures
        u@ == normalized(s@),
{
    to_uppercase(trim(s))
}

/// The characters of a text, in reading order.
pub fn characters(s: &str) -> (v: Vec<char>)
    ensures
        v@ == s@,
{
    let mut v: Vec<char> = Vec::new();
    for c in it: s.chars()
        invariant
            v@ == it.seq().take(it.index()),
            it.seq() == s@,
    {
        v.push(c);
    }
    v
}

/// Trimming an ASCII text leaves an ASCII text.
pub proof fn lemma_trimmed_ascii(s: Seq<char>)
    requires
        is_ascii_text(s),
    ensures
        is_ascii_text(trimmed(s)),
{
    lemma_trimmed_start_ascii(s);
    lemma_trimmed_end_ascii(trimmed_start(s));
}

proof fn lemma_trimmed_start_ascii(s: Seq<char>)
    requires
        is_ascii_text(s),
    ensures
        is_ascii_text(trimmed_start(s)),
    decreases s.len(),
{
    if s.len() > 0 {
        let rest = s.drop_first();
        assert forall|i: int| 0 <= i < rest.len() implies is_ascii_char(#[trigger] rest[i]) by {
            assert(rest[i] == s[i + 1]);
        }
        lemma_trimmed_start_ascii(rest);
    }
}

proof fn lemma_trimmed_end_ascii(s: Seq<char>)
    requires
        is_ascii_text(s),
    ensures
        is_ascii_text(trimmed_end(s)),
    decreases s.len(),
{
    if s.len() > 0 {
        let front = s.drop_last();
        assert forall|i: int| 0 <= i < front.len() implies is_ascii_char(#[trigger] front[i]) by {
            assert(front[i] == s[i]);
        }
        lemma_trimmed_end_ascii(front);
    }
}

/// Trimming and ASCII upper-casing can be done in either order: no letter is
/// white space, and no other character changes.
pub proof fn lemma_trimmed_uppercased(s: Seq<char>)
    ensures
        trimmed(ascii_uppercased(s)) == ascii_uppercased(trimmed(s)),
{
    lemma_trimmed_start_uppercased(s);
    lemma_trimmed_end_uppercased(trimmed_start(s));
}

proof fn lemma_trimmed_start_uppercased(s: Seq<char>)
    ensures
        trimmed_start(ascii_uppercased(s)) == ascii_uppercased(trimmed_start(s)),
    decreases s.len(),
{
    let upper = ascii_uppercased(s);
    if s.len() > 0 {
        assert(is_white_space(upper[0]) == is_white_space(s[0]));
        assert(upper.drop_first() =~= ascii_uppercased(s.drop_first()));
        lemma_trimmed_start_uppercased(s.drop_first());
    }
}

proof fn lemma_trimmed_end_uppercased(s: Seq<char>)
    ensures
        trimmed_end(ascii_uppercased(s)) == ascii_uppercased(trimmed_end(s)),
    decreases s.len(),
{
    let upper = ascii_uppercased(s);
    if s.len() > 0 {
        assert(is_white_space(upper.last()) == is_white_space(s.last()));
        assert(upper.drop_last() =~= ascii_uppercased(s.drop_last()));
        lemma_trimmed_end_uppercased(s.drop_last());
    }
}

/// ASCII upper-casing keeps an ASCII text ASCII, and a second pass changes
/// nothing.
pub proof fn lemma_uppercased_twice(s: Seq<char>)
    ensures
        is_ascii_text(s) ==> is_ascii_text(ascii_uppercased(s)),
        ascii_uppercased(ascii_uppercased(s)) == ascii_uppercased(s),
{
    assert(ascii_uppercased(ascii_uppercased(s)) =~= ascii_uppercased(s));
}

/// Upper-casing an ASCII text before it is normalized changes nothing of
/// what normalizing makes of it.
pub proof fn lemma_normalized_uppercased(s: Seq<char>)
    requires
        is_ascii_text(s),
    ensures
        normalized(uppercased(s)) == normalized(s),
{
    lemma_uppercased_twice(s);
    lemma_trimmed_uppercased(s);
    lemma_trimmed_ascii(s);
    lemma_uppercased_twice(trimmed(s));
}

} // verus!
