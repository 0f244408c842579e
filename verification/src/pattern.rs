//! Route patterns: finding the parameter tokens of a pattern such as
//! `/files/:filename`.
//!
//! The tokens are found by the `regex` crate. What it reports is not proved
//! here; the three functions that call it say only which search they stand
//! for. From its report this module computes, in verified code, the
//! character offset at which each parameter's value is expected in a
//! request path.

use crate::string_map::StringMap;
use regex::Regex;
use vstd::prelude::*;
use vstd::utf8::{char_is_scalar, encode_utf8};

verus! {

/// `regex::Regex`, a compiled expression. Nothing inside it is visible here.
#[verifier::external_type_specification]
#[verifier::external_body]
pub struct ExRegex(Regex);

/// `regex::Error`, the reason why a pattern did not compile. Nothing inside
/// it is visible here.
#[verifier::external_type_specification]
#[verifier::external_body]
pub struct ExRegexError(regex::Error);

/// Whether `pattern` is an expression that compiles.
pub uninterp spec fn regex_compiles(pattern: Seq<char>) -> bool;

/// The pattern text that a compiled expression was made from.
pub uninterp spec fn regex_source(re: Regex) -> Seq<char>;

/// For each of the successive non-overlapping matches of `pattern` in
/// `text`, in order: the text that capture group 1 matched and the byte
/// offset in `text` at which it begins, or `None` where group 1 took no part
/// in the match.
pub uninterp spec fn regex_first_groups(pattern: Seq<char>, text: Seq<char>) -> Seq<
    Option<(Seq<char>, int)>,
>;

/// `text` with every non-overlapping match of `pattern` replaced by
/// `replacement`, a `$` in the replacement referring to a capture group.
pub uninterp spec fn regex_replaced(
    pattern: Seq<char>,
    text: Seq<char>,
    replacement: Seq<char>,
) -> Seq<char>;

/// What capture group 1 matched in one match: its text, and the byte offset
/// in the searched text at which it begins.
pub struct Capture {
    pub text: String,
    pub start: usize,
}

/// The captures as plain values.
pub open spec fn captures_view(found: Seq<Option<Capture>>) -> Seq<Option<(Seq<char>, int)>> {
    Seq::new(
        found.len(),
        |i: int|
            match found[i] {
                Some(capture) => Some((capture.text@, capture.start as int)),
                None => None,
            },
    )
}

/// `Regex::new`: compiles `pattern`. Whether a pattern compiles depends on
/// the pattern alone; which patterns do is not said here. A compiled
/// expression remembers the text it was made from (`Regex::as_str`).
#[verifier::external_body]
pub(crate) fn regex_new(pattern: &str) -> (compiled: Result<Regex, regex::Error>)
    ensures
        compiled is Ok == regex_compiles(pattern@),
        compiled matches Ok(re) ==> regex_source(re) == pattern@,
{
    Regex::new(pattern)
}

/// `Regex::captures_iter`, and of each match `Captures::get(1)` with
/// `Match::as_str` and `Match::start`: the result is the search named
/// [`regex_first_groups`], for the expression's pattern and `text`.
#[verifier::external_body]
pub(crate) fn regex_captures(re: &Regex, text: &str) -> (found: Vec<Option<Capture>>)
    ensures
        captures_view(found@) == regex_first_groups(regex_source(*re), text@),
{
    re.captures_iter(text).map(
        |caps|
            caps.get(1).map(|m| Capture { text: m.as_str().to_string(), start: m.start() }),
    ).collect()
}

/// `Regex::replace_all`: the result is the text named [`regex_replaced`].
/// Where the expression matches nowhere in `text`, which is where
/// `captures_iter` yields nothing, the text comes back unchanged.
#[verifier::external_body]
pub(crate) fn regex_replace_all(re: &Regex, text: &str, replacement: &str) -> (out: String)
    ensures
        out@ == regex_replaced(regex_source(*re), text@, replacement@),
        regex_first_groups(regex_source(*re), text@).len() == 0 ==> out@ == text@,
{
    re.replace_all(text, replacement).into_owned()
}

// ---------------------------------------------------------------------------
// From byte offsets to character offsets
// ---------------------------------------------------------------------------

/// The number of bytes that `c` takes in UTF-8.
pub open spec fn utf8_width(c: char) -> int {
    if (c as u32) < 0x80 {
        1
    } else if (c as u32) < 0x800 {
        2
    } else if (c as u32) < 0x10000 {
        3
    } else {
        4
    }
}

/// The index of the first character of `text[i..]` that begins `remaining`
/// bytes or more after the beginning of `text[i]`, or the length of `text`.
pub open spec fn char_offset_scan(text: Seq<char>, i: int, remaining: int) -> int
    decreases text.len() - i,
{
    if i < 0 || i >= text.len() || remaining <= 0 {
        i
    } else {
        char_offset_scan(text, i + 1, remaining - utf8_width(text[i]))
    }
}

/// The character offset that belongs to a byte offset into the UTF-8 form
/// of `text`: the number of characters that begin before that byte.
pub open spec fn char_offset(text: Seq<char>, byte_offset: int) -> int {
    char_offset_scan(text, 0, byte_offset)
}

/// The number of bytes that `text` takes in UTF-8.
pub open spec fn utf8_len(text: Seq<char>) -> int
    decreases text.len(),
{
    if text.len() == 0 {
        0
    } else {
        utf8_len(text.drop_last()) + utf8_width(text.last())
    }
}

proof fn lemma_encoded_length_of_push(text: Seq<char>, c: char)
    ensures
        encode_utf8(text.push(c)).len() == encode_utf8(text).len() + utf8_width(c),
    decreases text.len(),
{
    char_is_scalar(c);
    if text.len() == 0 {
        assert(text.push(c).drop_first() =~= Seq::<char>::empty());
        assert(encode_utf8(Seq::<char>::empty()).len() == 0);
    } else {
        assert(text.push(c).drop_first() =~= text.drop_first().push(c));
        lemma_encoded_length_of_push(text.drop_first(), c);
    }
}

/// The bytes counted here are those of the UTF-8 encoding: [`utf8_len`] of
/// a text is the length of its encoding.
pub proof fn law_utf8_len_is_encoded_length(text: Seq<char>)
    ensures
        utf8_len(text) == encode_utf8(text).len(),
    decreases text.len(),
{
    if text.len() > 0 {
        law_utf8_len_is_encoded_length(text.drop_last());
        lemma_encoded_length_of_push(text.drop_last(), text.last());
        assert(text.drop_last().push(text.last()) =~= text);
    }
}

/// A longer prefix takes no fewer bytes, and one more character takes its
/// width more.
pub proof fn lemma_utf8_len_of_prefixes(text: Seq<char>, i: int, k: int)
    requires
        0 <= i <= k <= text.len(),
    ensures
        utf8_len(text.take(i)) <= utf8_len(text.take(k)),
        k < text.len() ==> utf8_len(text.take(k + 1)) == utf8_len(text.take(k)) + utf8_width(
            text[k],
        ),
    decreases k - i,
{
    if k < text.len() {
        assert(text.take(k + 1).drop_last() =~= text.take(k));
    }
    if i < k {
        lemma_utf8_len_of_prefixes(text, i, k - 1);
        assert(text.take(k).drop_last() =~= text.take(k - 1));
    }
}

proof fn lemma_char_offset_scan_to_boundary(text: Seq<char>, i: int, k: int)
    requires
        0 <= i <= k <= text.len(),
    ensures
        char_offset_scan(text, i, utf8_len(text.take(k)) - utf8_len(text.take(i))) == k,
    decreases k - i,
{
    if i < k {
        lemma_utf8_len_of_prefixes(text, i, i);
        lemma_utf8_len_of_prefixes(text, i + 1, k);
        lemma_char_offset_scan_to_boundary(text, i + 1, k);
    }
}

/// Byte offsets and character offsets agree at the boundaries of
/// characters: the byte offset at which the character with index `k`
/// begins has the character offset `k`.
pub proof fn law_char_offset_at_boundary(text: Seq<char>, k: int)
    requires
        0 <= k <= text.len(),
    ensures
        char_offset(text, utf8_len(text.take(k))) == k,
{
    lemma_char_offset_scan_to_boundary(text, 0, k);
    assert(text.take(0) =~= Seq::<char>::empty());
}

/// A parameter's offset is the character index of its colon: where a
/// pattern has a colon at the character index `k` and a capture begins at
/// the byte right after that colon, which is the byte offset
/// `utf8_len(path.take(k + 1))`, the offset recorded for the capture's name
/// is `k`. It is neither the index of the name's first character nor the
/// number of a segment.
pub proof fn law_offset_is_index_of_colon(
    path: Seq<char>,
    k: int,
    name: Seq<char>,
    found: Map<Seq<char>, usize>,
)
    requires
        0 <= k < path.len() <= usize::MAX,
        path[k] == ':',
    ensures
        scan_offsets(
            path,
            seq![Some((name, utf8_len(path.take(k + 1))))],
            0,
            found,
        ) == Some(found.insert(name, k as usize)),
{
    lemma_utf8_len_of_prefixes(path, 0, k);
    law_char_offset_at_boundary(path, k);
    let groups = seq![Some((name, utf8_len(path.take(k + 1))))];
    assert(groups[0] == Some((name, utf8_len(path.take(k + 1)))));
    assert(scan_offsets(path, groups, 1, found.insert(name, k as usize)) == Some(
        found.insert(name, k as usize),
    ));
}

/// Computes [`char_offset`].
pub fn char_offset_of(text: &Vec<char>, byte_offset: usize) -> (offset: usize)
    ensures
        offset == char_offset(text@, byte_offset as int),
        offset <= text.len(),
{
    let mut i: usize = 0;
    let mut remaining: usize = byte_offset;
    while i < text.len() && remaining > 0
        invariant
            i <= text.len(),
            char_offset(text@, byte_offset as int) == char_offset_scan(
                text@,
                i as int,
                remaining as int,
            ),
        decreases text.len() - i,
    {
        let code: u32 = text[i] as u32;
        let width: usize = if code < 0x80 {
            1
        } else if code < 0x800 {
            2
        } else if code < 0x10000 {
            3
        } else {
            4
        };
        // once nothing remains the scan stops, whether at zero or below it
        assert(remaining < width ==> char_offset_scan(text@, i + 1, remaining - width)
            == char_offset_scan(text@, i + 1, 0));
        remaining = if remaining >= width {
            remaining - width
        } else {
            0
        };
        i += 1;
    }
    i
}

// ---------------------------------------------------------------------------
// Parameter offsets
// ---------------------------------------------------------------------------

/// The parameter offsets of `groups[i..]` added to `found`. A capture gives
/// the parameter's name; the token begins one byte before it, at the colon,
/// and the parameter's offset is the character offset of that byte in
/// `path`. A later capture overwrites an earlier one with the same name; a
/// match without group 1 gives nothing. A capture that begins at byte 0 has
/// no room for a colon before it: then there is no result.
pub open spec fn scan_offsets(
    path: Seq<char>,
    groups: Seq<Option<(Seq<char>, int)>>,
    i: int,
    found: Map<Seq<char>, usize>,
) -> Option<Map<Seq<char>, usize>>
    decreases groups.len() - i,
{
    if i < 0 || i >= groups.len() {
        Some(found)
    } else {
        match groups[i] {
            None => scan_offsets(path, groups, i + 1, found),
            Some((name, start)) => if start >= 1 {
                scan_offsets(
                    path,
                    groups,
                    i + 1,
                    found.insert(name, char_offset(path, start - 1) as usize),
                )
            } else {
                None
            },
        }
    }
}

/// The parameter offsets that a list of captures gives for `path`.
pub open spec fn param_offsets(path: Seq<char>, groups: Seq<Option<(Seq<char>, int)>>) -> Option<
    Map<Seq<char>, usize>,
> {
    scan_offsets(path, groups, 0, Map::empty())
}

/// Computes [`param_offsets`].
pub fn collect_offsets(path: &Vec<char>, groups: &Vec<Option<Capture>>) -> (offsets: Option<
    StringMap<usize>,
>)
    ensures
        match offsets {
            Some(found) => param_offsets(path@, captures_view(groups@)) == Some(found@),
            None => param_offsets(path@, captures_view(groups@)) is None,
        },
{
    let mut found: StringMap<usize> = StringMap::new();
    let mut i: usize = 0;
    while i < groups.len()
        invariant
            i <= groups.len(),
            param_offsets(path@, captures_view(groups@)) == scan_offsets(
                path@,
                captures_view(groups@),
                i as int,
                found@,
            ),
        decreases groups.len() - i,
    {
        match &groups[i] {
            Some(capture) => {
                if capture.start >= 1 {
                    let offset = char_offset_of(path, capture.start - 1);
                    found.insert(capture.text.clone(), offset);
                } else {
                    return None;
                }
            },
            None => {},
        }
        i += 1;
    }
    Some(found)
}

} // verus!
