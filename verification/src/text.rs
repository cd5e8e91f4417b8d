//! Moving between strings and their characters.
use vstd::prelude::*;
use vstd::utf8::{decode_utf8, valid_utf8};

verus! {

/// `String::push` appends one character to the end of the string.
pub assume_specification[ String::push ](text: &mut String, ch: char)
    ensures
        final(text)@ == old(text)@.push(ch),
;

/// `String::from_utf8` gives the string that the bytes encode in UTF-8, and
/// fails exactly where they are no valid UTF-8.
#[verifier::external_body]
pub(crate) fn string_from_utf8(bytes: Vec<u8>) -> (text: Option<String>)
    ensures
        text is Some <==> valid_utf8(bytes@),
        text matches Some(t) ==> t@ == decode_utf8(bytes@),
{
    match String::from_utf8(bytes) {
        Ok(text) => Some(text),
        Err(_) => None,
    }
}

/// The characters of `text`, in order.
pub fn chars_of(text: &str) -> (out: Vec<char>)
    ensures
        out@ == text@,
{
    let mut out: Vec<char> = Vec::new();
    for c in it: text.chars()
        invariant
            it.seq() == text@,
            out@ == text@.take(it.index() as int),
    {
        out.push(c);
    }
    out
}

/// The string made of `chars[from..to]`.
pub(crate) fn string_of(chars: &Vec<char>, from: usize, to: usize) -> (out: String)
    requires
        from <= to <= chars.len(),
    ensures
        out@ == chars@.subrange(from as int, to as int),
{
    let mut out = String::new();
    let mut i: usize = from;
    while i < to
        invariant
            from <= i <= to <= chars.len(),
            out@ == chars@.subrange(from as int, i as int),
        decreases to - i,
    {
        out.push(chars[i]);
        i += 1;
    }
    out
}

/// The first character of `text`, if it has one.
pub fn first_char(text: &str) -> (first: Option<char>)
    ensures
        first == if text@.len() > 0 {
            Some(text@[0])
        } else {
            None
        },
{
    for c in it: text.chars()
        invariant
            it.seq() == text@,
            it.index() == 0,
    {
        return Some(c);
    }
    None
}

/// The last character of `text`, if it has one.
pub fn last_char(text: &str) -> (last: Option<char>)
    ensures
        last == if text@.len() > 0 {
            Some(text@.last())
        } else {
            None
        },
{
    let mut last: Option<char> = None;
    for c in it: text.chars()
        invariant
            it.seq() == text@,
            last == if it.index() > 0 {
                Some(text@[it.index() - 1])
            } else {
                None
            },
    {
        last = Some(c);
    }
    last
}

/// The view of an optional string.
pub open spec fn text_of(text: Option<String>) -> Option<Seq<char>> {
    match text {
        Some(text) => Some(text@),
        None => None,
    }
}

/// The views of a vector of strings.
pub open spec fn views(strings: Seq<String>) -> Seq<Seq<char>> {
    strings.map_values(|s: String| s@)
}

/// The views of a vector with one more string are the views with one more
/// view.
pub proof fn lemma_views_push(strings: Seq<String>, last: String)
    ensures
        views(strings.push(last)) == views(strings).push(last@),
{
}

/// The views of two vectors put together are their views put together.
pub proof fn lemma_views_concat(left: Seq<String>, right: Seq<String>)
    ensures
        views(left + right) == views(left) + views(right),
{
}

} // verus!
