//! The import-list tokenizer: it splits a tag's argument span into
//! whitespace-delimited word tokens, each carrying only its byte span.
//! Unlike the conditional-expression tokenizer it cannot fail: any
//! non-whitespace content is a valid word.

use vstd::prelude::*;

use crate::TemplateString;
use crate::common::{find_non_ws, find_ws, lemma_find_non_ws, lemma_find_ws, next_non_whitespace, next_whitespace};
use crate::tag::TagParts;

verus! {

/// A word of an import-list tag, located by its byte span in the original
/// source.  Words carry no classification: downstream code interprets
/// them by position and content.
#[derive(Debug, PartialEq, Eq, Clone, Copy)]
pub struct LoadToken {
    pub at: (usize, usize),
}

/// One step of the import-list tokenizer over `[b, end)` of `s`: `None`
/// when no text remains, otherwise the maximal non-whitespace run at the
/// cursor as a word token, together with the cursor position for the
/// following step (past the word and the whitespace after it).
pub open spec fn load_step(s: Seq<u8>, b: int, end: int) -> (Option<LoadToken>, int)
    recommends
        0 <= b <= end <= s.len(),
{
    if b >= end {
        (None, end)
    } else {
        let w = find_ws(s, b, end);
        (Some(LoadToken { at: ((b as usize, (w - b) as usize)) }), find_non_ws(s, w, end))
    }
}

/// The whole word stream from the cursor `b`: one `load_step` after
/// another until no text remains.
pub open spec fn load_tokens(s: Seq<u8>, b: int, end: int) -> Seq<LoadToken>
    recommends
        0 <= b <= end <= s.len(),
    decreases end - b,
{
    let step = load_step(s, b, end);
    match step.0 {
        None => Seq::empty(),
        Some(token) => if b < step.1 <= end {
            seq![token] + load_tokens(s, step.1, end)
        } else {
            seq![token]
        },
    }
}

/// A step short of the end always yields a word and strictly advances the
/// cursor within bounds; at the end it yields nothing.  Every word starts
/// exactly at the cursor and ends no later than the next cursor.
pub proof fn lemma_load_step_progress(s: Seq<u8>, b: int, end: int)
    requires
        0 <= b <= end <= s.len(),
        end <= usize::MAX,
    ensures
        b < end ==> load_step(s, b, end).0 is Some && b < load_step(s, b, end).1 <= end,
        b >= end ==> load_step(s, b, end).0 is None && load_step(s, b, end).1 == end,
        load_step(s, b, end).0 matches Some(t) ==> t.at.0 == b && b <= t.at.0 + t.at.1
            <= load_step(s, b, end).1,
{
    if b < end {
        let w = find_ws(s, b, end);
        lemma_find_ws(s, b, end);
        lemma_find_non_ws(s, w, end);
        lemma_find_non_ws(s, b, end);
    }
}

/// The tokenizer of import-list tag bodies: it scans the tag-argument
/// span of the template text, one word token per `next` call.
pub struct LoadLexer<'t> {
    text: &'t [u8],
    byte: usize,
    end: usize,
}

impl<'t> LoadLexer<'t> {
    /// The template text this lexer scans.
    pub closed spec fn src(self) -> Seq<u8> {
        self.text@
    }

    /// The current cursor: the absolute byte offset of the next scan.
    pub closed spec fn cursor(self) -> int {
        self.byte as int
    }

    /// The absolute byte offset at which the scanned span ends.
    pub closed spec fn limit(self) -> int {
        self.end as int
    }

    /// The cursor never passes the end of the scanned span, which lies
    /// within the template text.
    pub open spec fn wf(self) -> bool {
        0 <= self.cursor() <= self.limit() <= self.src().len()
    }

    /// A lexer over the argument span of an import-list tag.
    pub fn new(template: TemplateString<'t>, parts: TagParts) -> (r: Self)
        requires
            parts.at.0 + parts.at.1 <= template.0@.len(),
        ensures
            r.wf(),
            r.src() == template.0@,
            r.cursor() == parts.at.0,
            r.limit() == parts.at.0 + parts.at.1,
    {
        proof {
            vstd::slice::axiom_spec_len(template.0);
        }
        LoadLexer { text: template.0, byte: parts.at.0, end: parts.at.0 + parts.at.1 }
    }

    /// One pull on the word stream: `None` when the scanned span is
    /// exhausted, otherwise the next whitespace-delimited word.
    pub fn next(&mut self) -> (r: Option<LoadToken>)
        requires
            old(self).wf(),
        ensures
            final(self).wf(),
            final(self).src() == old(self).src(),
            final(self).limit() == old(self).limit(),
            r == load_step(old(self).src(), old(self).cursor(), old(self).limit()).0,
            final(self).cursor() == load_step(
                old(self).src(),
                old(self).cursor(),
                old(self).limit(),
            ).1,
    {
        if self.byte >= self.end {
            return None;
        }
        proof {
            vstd::slice::axiom_spec_len(self.text);
            lemma_find_ws(self.text@, self.byte as int, self.end as int);
        }
        let start = self.byte;
        let word_end = next_whitespace(self.text, self.byte, self.end);
        proof {
            lemma_find_non_ws(self.text@, word_end as int, self.end as int);
        }
        self.byte = next_non_whitespace(self.text, word_end, self.end);
        Some(LoadToken { at: (start, word_end - start) })
    }

    /// Pull the whole remaining word stream into a vector: the words of
    /// the import list in source order.  The result is a pure function of
    /// the scanned text and span.
    pub fn collect_tokens(&mut self) -> (r: Vec<LoadToken>)
        requires
            old(self).wf(),
        ensures
            final(self).wf(),
            final(self).src() == old(self).src(),
            final(self).limit() == old(self).limit(),
            r@ == load_tokens(old(self).src(), old(self).cursor(), old(self).limit()),
    {
        let ghost s = self.src();
        let ghost b0 = self.cursor();
        let ghost e0 = self.limit();
        let mut r: Vec<LoadToken> = Vec::new();
        loop
            invariant
                self.wf(),
                self.src() == s,
                self.limit() == e0,
                load_tokens(s, b0, e0) == r@ + load_tokens(s, self.cursor(), e0),
            ensures
                r@ == load_tokens(s, b0, e0),
                self.wf(),
                self.src() == s,
                self.limit() == e0,
            decreases e0 - self.cursor(),
        {
            let ghost b = self.cursor();
            proof {
                lemma_load_step_progress(s, b, e0);
            }
            match self.next() {
                None => {
                    proof {
                        assert(load_tokens(s, self.cursor(), e0) =~= Seq::empty());
                        assert(r@ =~= r@ + load_tokens(s, self.cursor(), e0));
                    }
                    break ;
                },
                Some(token) => {
                    proof {
                        assert(load_tokens(s, b, e0) =~= seq![token] + load_tokens(
                            s,
                            self.cursor(),
                            e0,
                        ));
                        assert(r@ + load_tokens(s, b, e0) =~= (r@ + seq![token]) + load_tokens(
                            s,
                            self.cursor(),
                            e0,
                        ));
                    }
                    r.push(token);
                },
            }
        }
        r
    }
}

/// Whether a word token covers exactly a maximal non-whitespace run: no
/// byte of its span is whitespace, and the byte right after it (if any
/// before `end`) is whitespace.
pub open spec fn word_exact(s: Seq<u8>, t: LoadToken, end: int) -> bool {
    &&& forall|k: int| t.at.0 <= k < t.at.0 + t.at.1 ==> !crate::common::is_ws(s[k])
    &&& (t.at.0 + t.at.1 < end ==> crate::common::is_ws(s[t.at.0 + t.at.1]))
}

/// Every word the import-list tokenizer yields is exactly a maximal
/// non-whitespace run of the source: it holds no whitespace and runs up
/// to the next whitespace byte or the end of the span.
pub proof fn lemma_load_words_exact(s: Seq<u8>, b: int, end: int)
    requires
        0 <= b <= end <= s.len(),
        end <= usize::MAX,
    ensures
        forall|i: int|
            0 <= i < load_tokens(s, b, end).len() ==> word_exact(
                s,
                #[trigger] load_tokens(s, b, end)[i],
                end,
            ),
    decreases end - b,
{
    lemma_load_step_progress(s, b, end);
    let step = load_step(s, b, end);
    let whole = load_tokens(s, b, end);
    match step.0 {
        None => {},
        Some(token) => {
            lemma_find_ws(s, b, end);
            assert(word_exact(s, token, end));
            if b < step.1 <= end {
                lemma_load_words_exact(s, step.1, end);
                let rest = load_tokens(s, step.1, end);
                assert(whole == seq![token] + rest);
                assert forall|i: int| 0 <= i < whole.len() implies word_exact(
                    s,
                    #[trigger] whole[i],
                    end,
                ) by {
                    if i > 0 {
                        assert(whole[i] == rest[i - 1]);
                    }
                }
            }
        },
    }
}

/// Words come out in source order: each word after the first begins at or
/// after the end of the one before it.
pub proof fn lemma_load_words_in_source_order(s: Seq<u8>, b: int, end: int)
    requires
        0 <= b <= end <= s.len(),
        end <= usize::MAX,
    ensures
        forall|i: int|
            0 <= i < load_tokens(s, b, end).len() ==> b <= (#[trigger] load_tokens(s, b, end)[i]).at.0
                && load_tokens(s, b, end)[i].at.0 + load_tokens(s, b, end)[i].at.1 <= end,
        forall|i: int, j: int|
            0 <= i < j < load_tokens(s, b, end).len() ==> (#[trigger] load_tokens(s, b, end)[i]).at.0
                + load_tokens(s, b, end)[i].at.1 <= (#[trigger] load_tokens(s, b, end)[j]).at.0,
    decreases end - b,
{
    lemma_load_step_progress(s, b, end);
    let step = load_step(s, b, end);
    let whole = load_tokens(s, b, end);
    match step.0 {
        None => {},
        Some(token) => {
            if b < step.1 <= end {
                lemma_load_words_in_source_order(s, step.1, end);
                let rest = load_tokens(s, step.1, end);
                assert(whole == seq![token] + rest);
                assert forall|i: int| 0 <= i < whole.len() implies b <= (#[trigger] whole[i]).at.0
                    && whole[i].at.0 + whole[i].at.1 <= end by {
                    if i > 0 {
                        assert(whole[i] == rest[i - 1]);
                        assert(step.1 <= rest[i - 1].at.0);
                    }
                }
                assert forall|i: int, j: int| 0 <= i < j < whole.len() implies (
                #[trigger] whole[i]).at.0 + whole[i].at.1 <= (#[trigger] whole[j]).at.0 by {
                    assert(whole[j] == rest[j - 1]);
                    if i == 0 {
                        assert(step.1 <= rest[j - 1].at.0);
                    } else {
                        assert(whole[i] == rest[i - 1]);
                        assert(rest[i - 1].at.0 + rest[i - 1].at.1 <= rest[j - 1].at.0);
                    }
                }
            }
        },
    }
}

/// Re-running the import-list tokenizer over an unmodified span of the
/// same source always yields an identical word sequence: the stream is a
/// pure function of the text and the span, so two runs cannot disagree.
pub proof fn lemma_load_relex_identical(
    s: Seq<u8>,
    b: int,
    end: int,
    first: Seq<LoadToken>,
    second: Seq<LoadToken>,
)
    requires
        first == load_tokens(s, b, end),
        second == load_tokens(s, b, end),
    ensures
        first == second,
{
}

} // verus!
