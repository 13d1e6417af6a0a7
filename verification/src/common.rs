//! Shared scanning primitives: whitespace search over a byte slice, and the
//! lexer error type shared by the tag-body tokenizers.

use vstd::prelude::*;

verus! {

/// An error produced while lexing a tag body.  Each variant carries the
/// exact byte span at which the problem was detected.
#[derive(Debug, PartialEq, Eq, Clone, Copy)]
pub enum LexerError {
    /// A quoted text literal opened but the input ended before an unescaped
    /// matching closing quote was found.
    IncompleteString { at: (usize, usize) },
    /// A `_(...)` translation wrapper opened but its inner quoted literal or
    /// its closing parenthesis is missing before the input ends.
    IncompleteTranslatedString { at: (usize, usize) },
    /// Non-whitespace characters immediately trail a just-lexed atom token
    /// with no separating whitespace.
    InvalidRemainder { at: (usize, usize) },
}

/// The byte value of `\\`, the escape character inside quoted text.
pub const BACKSLASH: u8 = 92;

/// The byte value of `'`.
pub const SINGLE_QUOTE: u8 = 39;

/// The byte value of `\"`.
pub const DOUBLE_QUOTE: u8 = 34;

/// The byte value of `_`, the translation-wrapper sigil (and a legal
/// leading character of a variable name).
pub const UNDERSCORE: u8 = 95;

/// The byte value of `(`.
pub const OPEN_PAREN: u8 = 40;

/// The byte value of `)`.
pub const CLOSE_PAREN: u8 = 41;

/// The byte value of `-`, a legal leading character of a numeric literal.
pub const MINUS: u8 = 45;

/// Whether a byte is an ASCII whitespace character (space, tab, line feed,
/// vertical tab, form feed or carriage return).
pub open spec fn is_ws(b: u8) -> bool {
    b == 32 || (9 <= b && b <= 13)
}

/// The first index in `[i, end)` holding a whitespace byte, or `end` if
/// there is none.
pub open spec fn find_ws(s: Seq<u8>, i: int, end: int) -> int
    recommends
        0 <= i <= end <= s.len(),
    decreases end - i,
{
    if i >= end {
        end
    } else if is_ws(s[i]) {
        i
    } else {
        find_ws(s, i + 1, end)
    }
}

/// The first index in `[i, end)` holding a non-whitespace byte, or `end` if
/// there is none.
pub open spec fn find_non_ws(s: Seq<u8>, i: int, end: int) -> int
    recommends
        0 <= i <= end <= s.len(),
    decreases end - i,
{
    if i >= end {
        end
    } else if !is_ws(s[i]) {
        i
    } else {
        find_non_ws(s, i + 1, end)
    }
}

/// `find_ws` returns an index between `i` and `end`; everything before it is
/// non-whitespace and, if it is short of `end`, it lands on whitespace.
pub proof fn lemma_find_ws(s: Seq<u8>, i: int, end: int)
    requires
        0 <= i <= end <= s.len(),
    ensures
        i <= find_ws(s, i, end) <= end,
        forall|k: int| i <= k < find_ws(s, i, end) ==> !is_ws(s[k]),
        find_ws(s, i, end) < end ==> is_ws(s[find_ws(s, i, end)]),
    decreases end - i,
{
    if i < end && !is_ws(s[i]) {
        lemma_find_ws(s, i + 1, end);
    }
}

/// `find_non_ws` returns an index between `i` and `end`; everything before
/// it is whitespace and, if it is short of `end`, it lands on
/// non-whitespace.
pub proof fn lemma_find_non_ws(s: Seq<u8>, i: int, end: int)
    requires
        0 <= i <= end <= s.len(),
    ensures
        i <= find_non_ws(s, i, end) <= end,
        forall|k: int| i <= k < find_non_ws(s, i, end) ==> is_ws(s[k]),
        find_non_ws(s, i, end) < end ==> !is_ws(s[find_non_ws(s, i, end)]),
    decreases end - i,
{
    if i < end && is_ws(s[i]) {
        lemma_find_non_ws(s, i + 1, end);
    }
}

/// Whether a byte may be part of a numeric literal: an ASCII digit, a
/// decimal point or a minus sign.
pub open spec fn is_num_byte(b: u8) -> bool {
    (48 <= b && b <= 57) || b == 46 || b == MINUS  // digits, `.` and `-`
}

/// The first index in `[i, end)` holding a byte that cannot be part of a
/// numeric literal, or `end` if there is none.
pub open spec fn find_non_num(s: Seq<u8>, i: int, end: int) -> int
    recommends
        0 <= i <= end <= s.len(),
    decreases end - i,
{
    if i >= end {
        end
    } else if !is_num_byte(s[i]) {
        i
    } else {
        find_non_num(s, i + 1, end)
    }
}

/// `find_non_num` returns an index between `i` and `end`; everything before
/// it belongs to a numeric literal.
pub proof fn lemma_find_non_num(s: Seq<u8>, i: int, end: int)
    requires
        0 <= i <= end <= s.len(),
    ensures
        i <= find_non_num(s, i, end) <= end,
        forall|k: int| i <= k < find_non_num(s, i, end) ==> is_num_byte(s[k]),
        find_non_num(s, i, end) < end ==> !is_num_byte(s[find_non_num(s, i, end)]),
    decreases end - i,
{
    if i < end && is_num_byte(s[i]) {
        lemma_find_non_num(s, i + 1, end);
    }
}

/// The index of the closing quote of a quoted literal scanned from `i`,
/// honouring backslash-escaping of the quote character and of the
/// backslash itself, or `None` if the input ends first.  `escaped` says
/// whether the byte at `i` is preceded by an unconsumed backslash escape.
pub open spec fn scan_text_end(s: Seq<u8>, i: int, end: int, quote: u8, escaped: bool) -> Option<
    int,
>
    recommends
        0 <= i <= end <= s.len(),
    decreases end - i,
{
    if i >= end {
        None
    } else if escaped {
        scan_text_end(s, i + 1, end, quote, false)
    } else if s[i] == BACKSLASH {
        scan_text_end(s, i + 1, end, quote, true)
    } else if s[i] == quote {
        Some(i)
    } else {
        scan_text_end(s, i + 1, end, quote, false)
    }
}

/// When `scan_text_end` finds a closing quote, that quote lies in
/// `[i, end)` and really is the quote character.
pub proof fn lemma_scan_text_end(s: Seq<u8>, i: int, end: int, quote: u8, escaped: bool)
    requires
        0 <= i <= end <= s.len(),
    ensures
        scan_text_end(s, i, end, quote, escaped) matches Some(c) ==> i <= c < end && s[c]
            == quote,
    decreases end - i,
{
    if i >= end {
    } else if escaped {
        lemma_scan_text_end(s, i + 1, end, quote, false);
    } else if s[i] == BACKSLASH {
        lemma_scan_text_end(s, i + 1, end, quote, true);
    } else if s[i] == quote {
    } else {
        lemma_scan_text_end(s, i + 1, end, quote, false);
    }
}

/// Whether a byte may be part of a whitespace-delimited word: the exec
/// counterpart of `is_ws`.
pub fn byte_is_ws(b: u8) -> (r: bool)
    ensures
        r == is_ws(b),
{
    b == 32 || (9 <= b && b <= 13)
}

/// The byte offset of the first whitespace character in `[from, end)` of
/// `text`, or `end` if there is none.
pub fn next_whitespace(text: &[u8], from: usize, end: usize) -> (r: usize)
    requires
        from <= end <= text@.len(),
    ensures
        r == find_ws(text@, from as int, end as int),
{
    let mut i: usize = from;
    while i < end && !byte_is_ws(text[i])
        invariant
            from <= i <= end <= text@.len(),
            find_ws(text@, from as int, end as int) == find_ws(text@, i as int, end as int),
        decreases end - i,
    {
        i = i + 1;
    }
    i
}

/// The byte offset of the first non-whitespace character in `[from, end)`
/// of `text`, or `end` if the range is all whitespace.
pub fn next_non_whitespace(text: &[u8], from: usize, end: usize) -> (r: usize)
    requires
        from <= end <= text@.len(),
    ensures
        r == find_non_ws(text@, from as int, end as int),
{
    let mut i: usize = from;
    while i < end && byte_is_ws(text[i])
        invariant
            from <= i <= end <= text@.len(),
            find_non_ws(text@, from as int, end as int) == find_non_ws(text@, i as int, end as int),
        decreases end - i,
    {
        i = i + 1;
    }
    i
}

/// Whether a byte may be part of a numeric literal: the exec counterpart
/// of `is_num_byte`.
pub fn byte_is_num(b: u8) -> (r: bool)
    ensures
        r == is_num_byte(b),
{
    (48 <= b && b <= 57) || b == 46 || b == MINUS
}

/// The byte offset of the first character in `[from, end)` of `text` that
/// cannot belong to a numeric literal, or `end` if there is none.
pub fn next_non_numeric(text: &[u8], from: usize, end: usize) -> (r: usize)
    requires
        from <= end <= text@.len(),
    ensures
        r == find_non_num(text@, from as int, end as int),
{
    let mut i: usize = from;
    while i < end && byte_is_num(text[i])
        invariant
            from <= i <= end <= text@.len(),
            find_non_num(text@, from as int, end as int) == find_non_num(
                text@,
                i as int,
                end as int,
            ),
        decreases end - i,
    {
        i = i + 1;
    }
    i
}

/// The index of the closing quote of a quoted literal, scanning `text`
/// from `from` (the first byte after the opening quote) up to `end`, or
/// `None` if the input ends before an unescaped `quote` is found.
pub fn scan_text(text: &[u8], from: usize, end: usize, quote: u8) -> (r: Option<usize>)
    requires
        from <= end <= text@.len(),
    ensures
        match r {
            Some(c) => scan_text_end(text@, from as int, end as int, quote, false) == Some(
                c as int,
            ),
            None => scan_text_end(text@, from as int, end as int, quote, false) is None,
        },
{
    let mut i: usize = from;
    let mut escaped: bool = false;
    while i < end
        invariant
            from <= i <= end <= text@.len(),
            scan_text_end(text@, from as int, end as int, quote, false) == scan_text_end(
                text@,
                i as int,
                end as int,
                quote,
                escaped,
            ),
        decreases end - i,
    {
        let b = text[i];
        if escaped {
            escaped = false;
        } else if b == BACKSLASH {
            escaped = true;
        } else if b == quote {
            return Some(i);
        }
        i = i + 1;
    }
    None
}

/// The content span of a quoted text token: the raw span with one quote
/// stripped from each end.
pub fn text_content_at(at: (usize, usize)) -> (r: (usize, usize))
    requires
        at.1 >= 2 * crate::QUOTE_LEN,
        at.0 + at.1 <= usize::MAX,
    ensures
        r.0 == at.0 + crate::QUOTE_LEN,
        r.1 == at.1 - 2 * crate::QUOTE_LEN,
{
    (at.0 + crate::QUOTE_LEN, at.1 - 2 * crate::QUOTE_LEN)
}

/// The content span of a translated text token: the raw span with the
/// `_('` prefix and the `')` suffix stripped, recovering the innermost
/// literal text.
pub fn translated_text_content_at(at: (usize, usize)) -> (r: (usize, usize))
    requires
        at.1 >= crate::START_TRANSLATE_LEN + crate::END_TRANSLATE_LEN + 2 * crate::QUOTE_LEN,
        at.0 + at.1 <= usize::MAX,
    ensures
        r.0 == at.0 + crate::START_TRANSLATE_LEN + crate::QUOTE_LEN,
        r.1 == at.1 - crate::START_TRANSLATE_LEN - crate::END_TRANSLATE_LEN - 2 * crate::QUOTE_LEN,
{
    (
        at.0 + crate::START_TRANSLATE_LEN + crate::QUOTE_LEN,
        at.1 - crate::START_TRANSLATE_LEN - crate::END_TRANSLATE_LEN - 2 * crate::QUOTE_LEN,
    )
}

} // verus!
