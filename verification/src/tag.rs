//! Tag-boundary extraction: locating the argument content of a block tag,
//! the region between the tag keyword and the closing marker, that a
//! tag-body tokenizer should scan.

use vstd::prelude::*;

use crate::common::{find_non_ws, is_ws, lemma_find_non_ws, next_non_whitespace};
use crate::{END_TAG_LEN, START_TAG_LEN, TemplateString};

verus! {

/// The argument span of a block tag: the byte span of the content between
/// the tag keyword and the closing marker.
#[derive(Debug, PartialEq, Eq, Clone, Copy)]
pub struct TagParts {
    pub at: (usize, usize),
}

/// The largest index `e` in `[c, end]` such that every byte of `[e, end)`
/// is whitespace and `s[e - 1]` is not; put otherwise, `end` with the
/// trailing whitespace of `[c, end)` stripped.
pub open spec fn trim_ws_end(s: Seq<u8>, c: int, end: int) -> int
    recommends
        0 <= c <= end <= s.len(),
    decreases end - c,
{
    if end <= c {
        c
    } else if is_ws(s[end - 1]) {
        trim_ws_end(s, c, end - 1)
    } else {
        end
    }
}

/// `trim_ws_end` stays within `[c, end]`, leaves only whitespace behind it,
/// and never ends on a whitespace byte.
pub proof fn lemma_trim_ws_end(s: Seq<u8>, c: int, end: int)
    requires
        0 <= c <= end <= s.len(),
    ensures
        c <= trim_ws_end(s, c, end) <= end,
        forall|k: int| trim_ws_end(s, c, end) <= k < end ==> is_ws(s[k]),
        trim_ws_end(s, c, end) > c ==> !is_ws(s[trim_ws_end(s, c, end) - 1]),
    decreases end - c,
{
    if end > c && is_ws(s[end - 1]) {
        lemma_trim_ws_end(s, c, end - 1);
    }
}

/// Where the keyword of a tag begins: the first non-whitespace byte after
/// the opening marker.
pub open spec fn spec_keyword_start(s: Seq<u8>, tag_at: (usize, usize)) -> int {
    find_non_ws(s, tag_at.0 + START_TAG_LEN, tag_at.0 + tag_at.1 - END_TAG_LEN)
}

/// Where the argument content of a tag begins: skip the opening marker,
/// the whitespace before the keyword, the keyword itself, and the
/// whitespace after it.
pub open spec fn spec_content_start(s: Seq<u8>, tag_at: (usize, usize), keyword_len: usize) -> int {
    find_non_ws(
        s,
        spec_keyword_start(s, tag_at) + keyword_len,
        tag_at.0 + tag_at.1 - END_TAG_LEN,
    )
}

/// Given the span of a whole tag (`{% keyword argument %}`) and the length
/// of its keyword, locate the span of the argument content: the region
/// after the keyword and before the closing marker, with surrounding
/// whitespace stripped.  The content itself is not validated.
pub fn tag_parts(template: TemplateString<'_>, tag_at: (usize, usize), keyword_len: usize) -> (r:
    TagParts)
    requires
        tag_at.0 + tag_at.1 <= template.0@.len(),
        tag_at.1 >= START_TAG_LEN + END_TAG_LEN,
        spec_keyword_start(template.0@, tag_at) + keyword_len <= tag_at.0 + tag_at.1 - END_TAG_LEN,
    ensures
        ({
            let start = spec_content_start(template.0@, tag_at, keyword_len);
            let stop = trim_ws_end(template.0@, start, tag_at.0 + tag_at.1 - END_TAG_LEN);
            r.at == ((start as usize, (stop - start) as usize))
        }),
        r.at.0 + r.at.1 <= template.0@.len(),
{
    let text = template.0;
    let ghost s = text@;
    proof {
        vstd::slice::axiom_spec_len(text);
    }
    let inner_end = tag_at.0 + tag_at.1 - END_TAG_LEN;
    let keyword_start = next_non_whitespace(text, tag_at.0 + START_TAG_LEN, inner_end);
    proof {
        lemma_find_non_ws(s, tag_at.0 + START_TAG_LEN as int, inner_end as int);
    }
    let start = next_non_whitespace(text, keyword_start + keyword_len, inner_end);
    proof {
        lemma_find_non_ws(s, keyword_start + keyword_len as int, inner_end as int);
    }
    let mut stop = inner_end;
    while stop > start && byte_is_ws_at(text, stop - 1)
        invariant
            s == text@,
            start <= stop <= inner_end <= s.len(),
            trim_ws_end(s, start as int, inner_end as int) == trim_ws_end(
                s,
                start as int,
                stop as int,
            ),
        decreases stop,
    {
        proof {
            assert(trim_ws_end(s, start as int, stop as int) == trim_ws_end(
                s,
                start as int,
                stop as int - 1,
            ));
        }
        stop = stop - 1;
    }
    TagParts { at: (start, stop - start) }
}

/// Whether the byte at `i` is whitespace; a bounds-checked read.
fn byte_is_ws_at(text: &[u8], i: usize) -> (r: bool)
    requires
        i < text@.len(),
    ensures
        r == is_ws(text@[i as int]),
{
    crate::common::byte_is_ws(text[i])
}

} // verus!
