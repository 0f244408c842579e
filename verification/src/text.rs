//! Text primitives shared by the request parser, the router and the
//! response builder.
//!
//! Every string is modelled by its sequence of characters. The spec functions
//! in this module define how text is cut into pieces (`split`, `words`,
//! `trim`) and how numbers are written (`decimal`); the executable functions
//! compute the same values on `Vec<char>` buffers.

use vstd::prelude::*;

verus! {

/// `String::push` appends one character to the end of the string.
pub assume_specification[ String::push ](s: &mut String, c: char)
    ensures
        final(s)@ == old(s)@.push(c),
;

/// The characters of `s`, in order.
pub fn to_chars(s: &str) -> (chars: Vec<char>)
    ensures
        chars@ == s@,
{
    let mut chars: Vec<char> = Vec::new();
    for c in it: s.chars()
        invariant
            it.seq() == s@,
            chars@ == it.seq().take(it.index()),
    {
        chars.push(c);
    }
    chars
}

/// The string made of `chars[from..to]`.
pub fn substring(chars: &Vec<char>, from: usize, to: usize) -> (s: String)
    requires
        from <= to <= chars.len(),
    ensures
        s@ == chars@.subrange(from as int, to as int),
{
    let mut s = String::new();
    let mut i: usize = from;
    while i < to
        invariant
            from <= i <= to <= chars.len(),
            s@ == chars@.subrange(from as int, i as int),
        decreases to - i,
    {
        s.push(chars[i]);
        i += 1;
    }
    s
}

/// The string made of all of `chars`.
pub fn from_chars(chars: &Vec<char>) -> (s: String)
    ensures
        s@ == chars@,
{
    substring(chars, 0, chars.len())
}

/// A copy of `chars[from..to]`.
pub fn slice_chars(chars: &Vec<char>, from: usize, to: usize) -> (piece: Vec<char>)
    requires
        from <= to <= chars.len(),
    ensures
        piece@ == chars@.subrange(from as int, to as int),
{
    let mut piece: Vec<char> = Vec::new();
    let mut i: usize = from;
    while i < to
        invariant
            from <= i <= to <= chars.len(),
            piece@ == chars@.subrange(from as int, i as int),
        decreases to - i,
    {
        piece.push(chars[i]);
        i += 1;
    }
    piece
}

/// Whether two buffers hold the same characters.
pub fn chars_eq(a: &Vec<char>, b: &Vec<char>) -> (same: bool)
    ensures
        same == (a@ == b@),
{
    if a.len() != b.len() {
        return false;
    }
    let mut i: usize = 0;
    while i < a.len()
        invariant
            a.len() == b.len(),
            i <= a.len(),
            a@.take(i as int) == b@.take(i as int),
        decreases a.len() - i,
    {
        if a[i] != b[i] {
            return false;
        }
        i += 1;
    }
    assert(a@.take(a.len() as int) == a@);
    assert(b@.take(b.len() as int) == b@);
    true
}

// ---------------------------------------------------------------------------
// Occurrences of a pattern
// ---------------------------------------------------------------------------

/// `pat` occurs in `text` at index `i`.
pub open spec fn occurs_at(text: Seq<char>, pat: Seq<char>, i: int) -> bool {
    0 <= i && i + pat.len() <= text.len() && text.subrange(i, i + pat.len()) == pat
}

/// `pat` occurs somewhere in `text`.
pub open spec fn contains(text: Seq<char>, pat: Seq<char>) -> bool {
    exists|i: int| occurs_at(text, pat, i)
}

/// Decides [`occurs_at`].
pub fn matches_at(text: &Vec<char>, pat: &Vec<char>, i: usize) -> (hit: bool)
    ensures
        hit == occurs_at(text@, pat@, i as int),
{
    if pat.len() > text.len() || i > text.len() - pat.len() {
        return false;
    }
    let mut k: usize = 0;
    while k < pat.len()
        invariant
            k <= pat.len(),
            i + pat.len() <= text.len(),
            forall|j: int| 0 <= j < k ==> text@[i + j] == pat@[j],
        decreases pat.len() - k,
    {
        if text[i + k] != pat[k] {
            return false;
        }
        k += 1;
    }
    assert(text@.subrange(i as int, i + pat.len()) =~= pat@);
    true
}

/// Decides [`contains`].
pub fn contains_chars(text: &Vec<char>, pat: &Vec<char>) -> (found: bool)
    ensures
        found == contains(text@, pat@),
{
    let mut i: usize = 0;
    while i < text.len()
        invariant
            i <= text.len(),
            forall|j: int| 0 <= j < i ==> !occurs_at(text@, pat@, j),
        decreases text.len() - i,
    {
        if matches_at(text, pat, i) {
            return true;
        }
        i += 1;
    }
    matches_at(text, pat, i)
}

/// The least index at or after `i` at which `pat` occurs in `text`.
pub open spec fn first_occurrence(text: Seq<char>, pat: Seq<char>, i: int) -> Option<int>
    decreases text.len() - i,
{
    if i < 0 || i + pat.len() > text.len() {
        None
    } else if occurs_at(text, pat, i) {
        Some(i)
    } else if i < text.len() {
        first_occurrence(text, pat, i + 1)
    } else {
        None
    }
}

/// Computes [`first_occurrence`].
pub fn find_chars(text: &Vec<char>, pat: &Vec<char>, from: usize) -> (found: Option<usize>)
    ensures
        match found {
            Some(i) => first_occurrence(text@, pat@, from as int) == Some(i as int) && from <= i
                && i + pat.len() <= text.len(),
            None => first_occurrence(text@, pat@, from as int) is None,
        },
{
    let mut i: usize = from;
    while i < text.len()
        invariant
            from <= i,
            first_occurrence(text@, pat@, from as int) == first_occurrence(text@, pat@, i as int),
        decreases text.len() - i,
    {
        if matches_at(text, pat, i) {
            return Some(i);
        }
        i += 1;
    }
    if matches_at(text, pat, i) {
        Some(i)
    } else {
        None
    }
}

// ---------------------------------------------------------------------------
// Splitting on a separator
// ---------------------------------------------------------------------------

/// The pieces of `text[start..]` around the occurrences of `sep`, given that
/// no occurrence begins in `text[start..i]`. Occurrences are taken leftmost
/// first and do not overlap.
pub open spec fn split_scan(text: Seq<char>, sep: Seq<char>, start: int, i: int) -> Seq<Seq<char>>
    decreases text.len() - i,
{
    if sep.len() == 0 || i < start || start < 0 || i + sep.len() > text.len() {
        seq![text.subrange(start, text.len() as int)]
    } else if occurs_at(text, sep, i) {
        seq![text.subrange(start, i)] + split_scan(text, sep, i + sep.len(), i + sep.len())
    } else {
        split_scan(text, sep, start, i + 1)
    }
}

/// The pieces of `text` between the occurrences of the non-empty separator
/// `sep`. A text without any occurrence is a single piece; `n` occurrences
/// give `n + 1` pieces, some of which may be empty.
pub open spec fn split(text: Seq<char>, sep: Seq<char>) -> Seq<Seq<char>> {
    split_scan(text, sep, 0, 0)
}

/// The views of the buffers in `pieces`.
pub open spec fn views(pieces: Seq<Vec<char>>) -> Seq<Seq<char>> {
    pieces.map_values(|piece: Vec<char>| piece@)
}

/// Computes [`split`].
pub fn split_chars(text: &Vec<char>, sep: &Vec<char>) -> (pieces: Vec<Vec<char>>)
    ensures
        views(pieces@) == split(text@, sep@),
        pieces.len() >= 1,
{
    let mut pieces: Vec<Vec<char>> = Vec::new();
    let mut start: usize = 0;
    let mut i: usize = 0;
    if sep.len() > 0 {
        while sep.len() <= text.len() && i <= text.len() - sep.len()
            invariant
                sep.len() > 0,
                0 <= start <= i <= text.len(),
                split(text@, sep@) == views(pieces@) + split_scan(
                    text@,
                    sep@,
                    start as int,
                    i as int,
                ),
            decreases text.len() - i,
        {
            if matches_at(text, sep, i) {
                let piece = slice_chars(text, start, i);
                pieces.push(piece);
                i += sep.len();
                start = i;
            } else {
                i += 1;
            }
        }
    }
    let last = slice_chars(text, start, text.len());
    pieces.push(last);
    pieces
}

// ---------------------------------------------------------------------------
// White space
// ---------------------------------------------------------------------------

/// The characters with the Unicode property `White_Space`.
pub open spec fn is_space(c: char) -> bool {
    let u = c as u32;
    ||| 0x09 <= u <= 0x0D
    ||| u == 0x20
    ||| u == 0x85
    ||| u == 0xA0
    ||| u == 0x1680
    ||| 0x2000 <= u <= 0x200A
    ||| u == 0x2028
    ||| u == 0x2029
    ||| u == 0x202F
    ||| u == 0x205F
    ||| u == 0x3000
}

/// Decides [`is_space`].
pub fn is_space_char(c: char) -> (space: bool)
    ensures
        space == is_space(c),
{
    let u: u32 = c as u32;
    (0x09 <= u && u <= 0x0D) || u == 0x20 || u == 0x85 || u == 0xA0 || u == 0x1680 || (0x2000 <= u
        && u <= 0x200A) || u == 0x2028 || u == 0x2029 || u == 0x202F || u == 0x205F || u == 0x3000
}

/// The first index at or after `i` that holds no white space, or the length
/// of `text` when only white space follows.
pub open spec fn skip_spaces(text: Seq<char>, i: int) -> int
    decreases text.len() - i,
{
    if 0 <= i < text.len() && is_space(text[i]) {
        skip_spaces(text, i + 1)
    } else {
        i
    }
}

/// The end of `text[lo..j]` once the white space at its end is cut off.
pub open spec fn trim_end(text: Seq<char>, lo: int, j: int) -> int
    decreases j,
{
    if 0 <= lo < j <= text.len() && is_space(text[j - 1]) {
        trim_end(text, lo, j - 1)
    } else {
        j
    }
}

/// `text` without the white space at its start and at its end.
pub open spec fn trim(text: Seq<char>) -> Seq<char> {
    let lo = skip_spaces(text, 0);
    text.subrange(lo, trim_end(text, lo, text.len() as int))
}

/// Computes [`trim`].
pub fn trim_chars(text: &Vec<char>) -> (trimmed: Vec<char>)
    ensures
        trimmed@ == trim(text@),
{
    let mut lo: usize = 0;
    while lo < text.len() && is_space_char(text[lo])
        invariant
            lo <= text.len(),
            skip_spaces(text@, 0) == skip_spaces(text@, lo as int),
        decreases text.len() - lo,
    {
        lo += 1;
    }
    let mut hi: usize = text.len();
    while lo < hi && is_space_char(text[hi - 1])
        invariant
            lo <= hi <= text.len(),
            trim_end(text@, lo as int, text.len() as int) == trim_end(text@, lo as int, hi as int),
        decreases hi,
    {
        hi -= 1;
    }
    slice_chars(text, lo, hi)
}

/// The words of `text[i..]`, where `open` is the start of a word that has
/// begun before `i` and has not ended yet.
pub open spec fn words_scan(text: Seq<char>, open: Option<int>, i: int) -> Seq<Seq<char>>
    decreases text.len() - i,
{
    if i < 0 || i >= text.len() {
        match open {
            Some(s) => seq![text.subrange(s, text.len() as int)],
            None => seq![],
        }
    } else if is_space(text[i]) {
        match open {
            Some(s) => seq![text.subrange(s, i)] + words_scan(text, None, i + 1),
            None => words_scan(text, None, i + 1),
        }
    } else {
        match open {
            Some(s) => words_scan(text, open, i + 1),
            None => words_scan(text, Some(i), i + 1),
        }
    }
}

/// The maximal runs of characters of `text` that hold no white space, in
/// order.
pub open spec fn words(text: Seq<char>) -> Seq<Seq<char>> {
    words_scan(text, None, 0)
}

/// Computes [`words`].
pub fn split_words(text: &Vec<char>) -> (pieces: Vec<Vec<char>>)
    ensures
        views(pieces@) == words(text@),
{
    let mut pieces: Vec<Vec<char>> = Vec::new();
    let mut open: Option<usize> = None;
    let mut i: usize = 0;
    while i < text.len()
        invariant
            i <= text.len(),
            open matches Some(s) ==> s <= i,
            words(text@) == views(pieces@) + words_scan(
                text@,
                match open {
                    Some(s) => Some(s as int),
                    None => None,
                },
                i as int,
            ),
        decreases text.len() - i,
    {
        if is_space_char(text[i]) {
            if let Some(s) = open {
                pieces.push(slice_chars(text, s, i));
                open = None;
            }
        } else if open.is_none() {
            open = Some(i);
        }
        i += 1;
    }
    if let Some(s) = open {
        pieces.push(slice_chars(text, s, text.len()));
    }
    pieces
}

// ---------------------------------------------------------------------------
// Decimal numbers
// ---------------------------------------------------------------------------

/// The character that stands for the digit `d`.
pub open spec fn digit(d: int) -> char {
    if d == 0 {
        '0'
    } else if d == 1 {
        '1'
    } else if d == 2 {
        '2'
    } else if d == 3 {
        '3'
    } else if d == 4 {
        '4'
    } else if d == 5 {
        '5'
    } else if d == 6 {
        '6'
    } else if d == 7 {
        '7'
    } else if d == 8 {
        '8'
    } else {
        '9'
    }
}

/// `n` written in base ten, without leading zeros.
pub open spec fn decimal(n: nat) -> Seq<char>
    decreases n,
{
    if n < 10 {
        seq![digit(n as int)]
    } else {
        decimal(n / 10).push(digit((n % 10) as int))
    }
}

/// The number that a digit character stands for.
pub open spec fn digit_value(c: char) -> nat {
    if c == '1' {
        1
    } else if c == '2' {
        2
    } else if c == '3' {
        3
    } else if c == '4' {
        4
    } else if c == '5' {
        5
    } else if c == '6' {
        6
    } else if c == '7' {
        7
    } else if c == '8' {
        8
    } else if c == '9' {
        9
    } else {
        0
    }
}

/// The number that a sequence of digits stands for in base ten.
pub open spec fn decimal_value(digits: Seq<char>) -> nat
    decreases digits.len(),
{
    if digits.len() == 0 {
        0
    } else {
        decimal_value(digits.drop_last()) * 10 + digit_value(digits.last())
    }
}

/// Reading back what [`decimal`] wrote gives the number again, so two
/// different numbers are never written alike.
pub proof fn lemma_decimal_value(n: nat)
    ensures
        decimal_value(decimal(n)) == n,
        decimal(n).len() >= 1,
    decreases n,
{
    if n < 10 {
        let s = decimal(n);
        assert(decimal_value(s.drop_last()) == 0);
    } else {
        lemma_decimal_value(n / 10);
        let s = decimal(n);
        assert(s.drop_last() =~= decimal(n / 10));
    }
}

fn digit_char(d: usize) -> (c: char)
    requires
        d < 10,
    ensures
        c == digit(d as int),
{
    match d {
        0 => '0',
        1 => '1',
        2 => '2',
        3 => '3',
        4 => '4',
        5 => '5',
        6 => '6',
        7 => '7',
        8 => '8',
        _ => '9',
    }
}

/// Appends [`decimal`] of `n` to `out`.
pub fn push_decimal(out: &mut String, n: usize)
    ensures
        final(out)@ == old(out)@ + decimal(n as nat),
    decreases n,
{
    if n < 10 {
        out.push(digit_char(n));
    } else {
        push_decimal(out, n / 10);
        out.push(digit_char(n % 10));
    }
}

/// [`decimal`] of `n` as a string.
pub fn decimal_string(n: usize) -> (s: String)
    ensures
        s@ == decimal(n as nat),
{
    let mut s = String::new();
    push_decimal(&mut s, n);
    s
}

} // verus!
