//! The boolean-expression tokenizer for conditional tags: it turns the
//! argument span of a conditional tag into an ordered sequence of
//! atom/operator tokens, or a lexing error with an exact byte span.

use vstd::prelude::*;

use crate::common::{
    CLOSE_PAREN, DOUBLE_QUOTE, LexerError, MINUS, OPEN_PAREN, SINGLE_QUOTE, UNDERSCORE,
    find_non_num, find_non_ws, find_ws, lemma_find_non_num, lemma_find_non_ws, lemma_find_ws,
    lemma_scan_text_end, next_non_numeric, next_non_whitespace, next_whitespace, scan_text,
    scan_text_end, text_content_at, translated_text_content_at,
};
use crate::tag::TagParts;
use crate::{END_TRANSLATE_LEN, QUOTE_LEN, START_TRANSLATE_LEN, TemplateString};

verus! {

/// The kind of a literal or variable-reference token.
#[derive(Debug, PartialEq, Eq, Clone, Copy)]
pub enum IfConditionAtom {
    Numeric,
    Text,
    TranslatedText,
    Variable,
}

/// A boolean or comparison connective within a conditional expression.
#[derive(Debug, PartialEq, Eq, Clone, Copy)]
pub enum IfConditionOperator {
    And,
    Or,
    Equal,
    NotEqual,
    LessThan,
    GreaterThan,
    LessThanEqual,
    GreaterThanEqual,
    In,
    NotIn,
    Is,
    IsNot,
}

/// What a condition token is: an atom, an operator, or the unary `not`
/// marker.
#[derive(Debug, PartialEq, Eq, Clone, Copy)]
pub enum IfConditionTokenType {
    Atom(IfConditionAtom),
    Operator(IfConditionOperator),
    Not,
}

/// A token of a conditional expression, located by its raw byte span in
/// the original source (delimiters included).
#[derive(Debug, PartialEq, Eq, Clone, Copy)]
pub struct IfConditionToken {
    pub at: (usize, usize),
    pub token_type: IfConditionTokenType,
}

impl IfConditionToken {
    /// The spans a lexer hands out are small enough for the content-span
    /// arithmetic of each kind of token.
    pub open spec fn wf(self) -> bool {
        &&& self.at.0 + self.at.1 <= usize::MAX
        &&& (self.token_type == IfConditionTokenType::Atom(IfConditionAtom::Text) ==> self.at.1
            >= 2 * QUOTE_LEN)
        &&& (self.token_type == IfConditionTokenType::Atom(IfConditionAtom::TranslatedText)
            ==> self.at.1 >= START_TRANSLATE_LEN + END_TRANSLATE_LEN + 2 * QUOTE_LEN)
    }

    /// The content span of the token: its raw span with the delimiters of
    /// its kind stripped (quotes for text, the translation wrapper and the
    /// inner quotes for translated text, nothing for the rest).
    pub open spec fn spec_content_at(self) -> (usize, usize) {
        if self.token_type == IfConditionTokenType::Atom(IfConditionAtom::Text) {
            (
                (self.at.0 + QUOTE_LEN) as usize,
                (self.at.1 - 2 * QUOTE_LEN) as usize,
            )
        } else if self.token_type == IfConditionTokenType::Atom(IfConditionAtom::TranslatedText) {
            (
                (self.at.0 + START_TRANSLATE_LEN + QUOTE_LEN) as usize,
                (self.at.1 - START_TRANSLATE_LEN - END_TRANSLATE_LEN - 2 * QUOTE_LEN) as usize,
            )
        } else {
            self.at
        }
    }

    /// The content span of the token, derived from its kind and raw span
    /// alone.
    pub fn content_at(&self) -> (r: (usize, usize))
        requires
            self.wf(),
        ensures
            r == self.spec_content_at(),
    {
        match self.token_type {
            IfConditionTokenType::Atom(IfConditionAtom::Text) => text_content_at(self.at),
            IfConditionTokenType::Atom(IfConditionAtom::TranslatedText) => {
                translated_text_content_at(self.at)
            },
            _ => self.at,
        }
    }
}

/// Whether `[i, j)` of `s` is the single byte `b0`.
pub open spec fn word_is1(s: Seq<u8>, i: int, j: int, b0: u8) -> bool {
    j - i == 1 && s[i] == b0
}

/// Whether `[i, j)` of `s` is exactly the two bytes `b0 b1`.
pub open spec fn word_is2(s: Seq<u8>, i: int, j: int, b0: u8, b1: u8) -> bool {
    j - i == 2 && s[i] == b0 && s[i + 1] == b1
}

/// Whether `[i, j)` of `s` is exactly the three bytes `b0 b1 b2`.
pub open spec fn word_is3(s: Seq<u8>, i: int, j: int, b0: u8, b1: u8, b2: u8) -> bool {
    j - i == 3 && s[i] == b0 && s[i + 1] == b1 && s[i + 2] == b2
}

/// The token for a recognised operator keyword: its span runs from the
/// cursor `b` to the end `j` of the matched keyword (for a two-word
/// operator, of its second word).
pub open spec fn op_token(b: int, j: int, token_type: IfConditionTokenType) -> IfConditionToken {
    IfConditionToken { at: ((b as usize, (j - b) as usize)), token_type }
}

/// The token for an atom of kind `kind` spanning `[b, j)`.
pub open spec fn atom_token(b: int, j: int, kind: IfConditionAtom) -> IfConditionToken {
    IfConditionToken {
        at: ((b as usize, (j - b) as usize)),
        token_type: IfConditionTokenType::Atom(kind),
    }
}

/// What happens right after an atom token ending at `j`: if whitespace or
/// the end of input follows, the token stands and the cursor skips the
/// whitespace; if stray characters follow, the step fails with
/// `InvalidRemainder` over exactly that trailing run and the stream is
/// exhausted.
pub open spec fn after_atom(s: Seq<u8>, j: int, end: int, token: IfConditionToken) -> (Option<
    Result<IfConditionToken, LexerError>,
>, int) {
    let n = find_ws(s, j, end);
    if n == j {
        (Some(Ok(token)), find_non_ws(s, j, end))
    } else {
        (
            Some(Err(LexerError::InvalidRemainder { at: ((j as usize, (n - j) as usize)) })),
            end,
        )
    }
}

/// One step of the variable sub-lexer: the maximal non-whitespace run from
/// the cursor is the token.
pub open spec fn variable_step(s: Seq<u8>, b: int, end: int) -> (Option<
    Result<IfConditionToken, LexerError>,
>, int) {
    after_atom(s, find_ws(s, b, end), end, atom_token(b, find_ws(s, b, end), IfConditionAtom::Variable))
}

/// One step of the numeric sub-lexer: the maximal run of digits, decimal
/// points and minus signs from the cursor is the token.
pub open spec fn numeric_step(s: Seq<u8>, b: int, end: int) -> (Option<
    Result<IfConditionToken, LexerError>,
>, int) {
    after_atom(
        s,
        find_non_num(s, b, end),
        end,
        atom_token(b, find_non_num(s, b, end), IfConditionAtom::Numeric),
    )
}

/// One step of the quoted-text sub-lexer: from an opening `quote` at the
/// cursor, the token runs to the matching unescaped closing quote; if the
/// input ends first, the step fails with `IncompleteString` over the
/// scanned region and the stream is exhausted.
pub open spec fn text_step(s: Seq<u8>, b: int, end: int, quote: u8) -> (Option<
    Result<IfConditionToken, LexerError>,
>, int) {
    match scan_text_end(s, b + 1, end, quote, false) {
        Some(c) => after_atom(s, c + 1, end, atom_token(b, c + 1, IfConditionAtom::Text)),
        None => (
            Some(Err(LexerError::IncompleteString { at: ((b as usize, (end - b) as usize)) })),
            end,
        ),
    }
}

/// The failing outcome of the translated-text sub-lexer: the error spans
/// the whole remaining input and the stream is exhausted.
pub open spec fn incomplete_translated(b: int, end: int) -> (Option<
    Result<IfConditionToken, LexerError>,
>, int) {
    (
        Some(
            Err(LexerError::IncompleteTranslatedString { at: ((b as usize, (end - b) as usize)) }),
        ),
        end,
    )
}

/// Where the token of a well-formed `_('...')` construct starting at `b`
/// ends (exclusive), or `None` if the inner quoted literal or the closing
/// parenthesis is missing before the input ends.
pub open spec fn translated_token_end(s: Seq<u8>, b: int, end: int) -> Option<int> {
    if b + 2 < end && (s[b + 2] == SINGLE_QUOTE || s[b + 2] == DOUBLE_QUOTE) {
        match scan_text_end(s, b + 3, end, s[b + 2], false) {
            Some(c) => if c + 1 < end && s[c + 1] == CLOSE_PAREN {
                Some(c + 2)
            } else {
                None
            },
            None => None,
        }
    } else {
        None
    }
}

/// One step of the translated-text sub-lexer: `_(` at the cursor must be
/// followed by a quoted literal and a closing parenthesis; any piece
/// missing before the input ends fails with `IncompleteTranslatedString`.
pub open spec fn translated_step(s: Seq<u8>, b: int, end: int) -> (Option<
    Result<IfConditionToken, LexerError>,
>, int) {
    match translated_token_end(s, b, end) {
        Some(j) => after_atom(s, j, end, atom_token(b, j, IfConditionAtom::TranslatedText)),
        None => incomplete_translated(b, end),
    }
}

/// Which atom sub-lexer applies at the cursor, decided by the first byte:
/// `_` followed by `(` selects translated text, a quote selects text, an
/// ASCII digit or `-` selects numeric, anything else (including a bare
/// leading underscore) selects variable.
pub open spec fn atom_step(s: Seq<u8>, b: int, end: int) -> (Option<
    Result<IfConditionToken, LexerError>,
>, int)
    recommends
        0 <= b < end <= s.len(),
{
    if s[b] == UNDERSCORE {
        if b + 1 < end && s[b + 1] == OPEN_PAREN {
            translated_step(s, b, end)
        } else {
            variable_step(s, b, end)
        }
    } else if s[b] == DOUBLE_QUOTE {
        text_step(s, b, end, DOUBLE_QUOTE)
    } else if s[b] == SINGLE_QUOTE {
        text_step(s, b, end, SINGLE_QUOTE)
    } else if (48 <= s[b] && s[b] <= 57) || s[b] == MINUS {
        numeric_step(s, b, end)
    } else {
        variable_step(s, b, end)
    }
}

/// One step of the conditional-expression tokenizer over `[b, end)` of
/// `s`: `None` when no text remains, otherwise the next token or error
/// together with the cursor position for the following step.  The run of
/// characters up to the next whitespace is first compared verbatim against
/// the operator keywords (`not` and `is` peek one further word to
/// recognise `not in` and `is not`); a word matching none of them falls
/// through to the atom sub-lexers.
pub open spec fn cond_step(s: Seq<u8>, b: int, end: int) -> (Option<
    Result<IfConditionToken, LexerError>,
>, int)
    recommends
        0 <= b <= end <= s.len(),
{
    if b >= end {
        (None, end)
    } else {
        let w = find_ws(s, b, end);
        if word_is3(s, b, w, 97, 110, 100) {  // `and`
            (
                Some(
                    Ok(op_token(b, w, IfConditionTokenType::Operator(IfConditionOperator::And))),
                ),
                find_non_ws(s, w, end),
            )
        } else if word_is2(s, b, w, 111, 114) {  // `or`
            (
                Some(Ok(op_token(b, w, IfConditionTokenType::Operator(IfConditionOperator::Or)))),
                find_non_ws(s, w, end),
            )
        } else if word_is3(s, b, w, 110, 111, 116) {  // `not`
            let s2 = find_non_ws(s, w, end);
            let w2 = find_ws(s, s2, end);
            if word_is2(s, s2, w2, 105, 110) {  // `in`
                (
                    Some(
                        Ok(
                            op_token(
                                b,
                                w2,
                                IfConditionTokenType::Operator(IfConditionOperator::NotIn),
                            ),
                        ),
                    ),
                    find_non_ws(s, w2, end),
                )
            } else {
                (Some(Ok(op_token(b, w, IfConditionTokenType::Not))), find_non_ws(s, w, end))
            }
        } else if word_is2(s, b, w, 61, 61) {  // `==`
            (
                Some(
                    Ok(op_token(b, w, IfConditionTokenType::Operator(IfConditionOperator::Equal))),
                ),
                find_non_ws(s, w, end),
            )
        } else if word_is2(s, b, w, 33, 61) {  // `!=`
            (
                Some(
                    Ok(
                        op_token(
                            b,
                            w,
                            IfConditionTokenType::Operator(IfConditionOperator::NotEqual),
                        ),
                    ),
                ),
                find_non_ws(s, w, end),
            )
        } else if word_is1(s, b, w, 60) {  // `<`
            (
                Some(
                    Ok(
                        op_token(
                            b,
                            w,
                            IfConditionTokenType::Operator(IfConditionOperator::LessThan),
                        ),
                    ),
                ),
                find_non_ws(s, w, end),
            )
        } else if word_is1(s, b, w, 62) {  // `>`
            (
                Some(
                    Ok(
                        op_token(
                            b,
                            w,
                            IfConditionTokenType::Operator(IfConditionOperator::GreaterThan),
                        ),
                    ),
                ),
                find_non_ws(s, w, end),
            )
        } else if word_is2(s, b, w, 60, 61) {  // `<=`
            (
                Some(
                    Ok(
                        op_token(
                            b,
                            w,
                            IfConditionTokenType::Operator(IfConditionOperator::LessThanEqual),
                        ),
                    ),
                ),
                find_non_ws(s, w, end),
            )
        } else if word_is2(s, b, w, 62, 61) {  // `>=`
            (
                Some(
                    Ok(
                        op_token(
                            b,
                            w,
                            IfConditionTokenType::Operator(IfConditionOperator::GreaterThanEqual),
                        ),
                    ),
                ),
                find_non_ws(s, w, end),
            )
        } else if word_is2(s, b, w, 105, 110) {  // `in`
            (
                Some(Ok(op_token(b, w, IfConditionTokenType::Operator(IfConditionOperator::In)))),
                find_non_ws(s, w, end),
            )
        } else if word_is2(s, b, w, 105, 115) {  // `is`
            let s2 = find_non_ws(s, w, end);
            let w2 = find_ws(s, s2, end);
            if word_is3(s, s2, w2, 110, 111, 116) {  // `not`
                (
                    Some(
                        Ok(
                            op_token(
                                b,
                                w2,
                                IfConditionTokenType::Operator(IfConditionOperator::IsNot),
                            ),
                        ),
                    ),
                    find_non_ws(s, w2, end),
                )
            } else {
                (
                    Some(
                        Ok(
                            op_token(b, w, IfConditionTokenType::Operator(IfConditionOperator::Is)),
                        ),
                    ),
                    find_non_ws(s, w, end),
                )
            }
        } else {
            atom_step(s, b, end)
        }
    }
}

/// The whole token stream from the cursor `b`: one `cond_step` after
/// another, stopping after the first error (an error exhausts the stream)
/// or when no text remains.
pub open spec fn cond_tokens(s: Seq<u8>, b: int, end: int) -> Seq<
    Result<IfConditionToken, LexerError>,
>
    recommends
        0 <= b <= end <= s.len(),
    decreases end - b,
{
    let step = cond_step(s, b, end);
    match step.0 {
        None => Seq::empty(),
        Some(item) => if item is Ok && b < step.1 <= end {
            seq![item] + cond_tokens(s, step.1, end)
        } else {
            seq![item]
        },
    }
}

/// A step short of the end always yields an item and strictly advances
/// the cursor within bounds; at the end it yields nothing.  An error
/// leaves the cursor at the end, so the stream is exhausted.  Every token
/// starts exactly at the cursor, ends no later than the next cursor, and
/// is well formed.
pub proof fn lemma_cond_step_progress(s: Seq<u8>, b: int, end: int)
    requires
        0 <= b <= end <= s.len(),
        end <= usize::MAX,
    ensures
        b < end ==> cond_step(s, b, end).0 is Some && b < cond_step(s, b, end).1 <= end,
        b >= end ==> cond_step(s, b, end).0 is None && cond_step(s, b, end).1 == end,
        cond_step(s, b, end).0 matches Some(item) && item is Err ==> cond_step(s, b, end).1
            == end,
        cond_step(s, b, end).0 matches Some(Ok(t)) ==> t.at.0 == b && b <= t.at.0 + t.at.1
            <= cond_step(s, b, end).1 && t.wf(),
{
    if b < end {
        let w = find_ws(s, b, end);
        lemma_find_ws(s, b, end);
        lemma_find_non_ws(s, w, end);
        let s2 = find_non_ws(s, w, end);
        lemma_find_ws(s, s2, end);
        let w2 = find_ws(s, s2, end);
        lemma_find_non_ws(s, w2, end);
        lemma_find_non_ws(s, b, end);
        let jn = find_non_num(s, b, end);
        lemma_find_non_num(s, b, end);
        lemma_find_ws(s, jn, end);
        lemma_find_non_ws(s, jn, end);
        lemma_find_ws(s, w, end);
        if s[b] == DOUBLE_QUOTE || s[b] == SINGLE_QUOTE {
            let quote = s[b];
            lemma_scan_text_end(s, b + 1, end, quote, false);
            match scan_text_end(s, b + 1, end, quote, false) {
                Some(c) => {
                    lemma_find_ws(s, c + 1, end);
                    lemma_find_non_ws(s, c + 1, end);
                },
                None => {},
            }
        }
        if b + 2 < end && (s[b + 2] == SINGLE_QUOTE || s[b + 2] == DOUBLE_QUOTE) {
            lemma_scan_text_end(s, b + 3, end, s[b + 2], false);
            match scan_text_end(s, b + 3, end, s[b + 2], false) {
                Some(c) => {
                    if c + 1 < end && s[c + 1] == CLOSE_PAREN {
                        lemma_find_ws(s, c + 2, end);
                        lemma_find_non_ws(s, c + 2, end);
                    }
                },
                None => {},
            }
        }
    }
}

/// The tokenizer of conditional-tag bodies.  It scans the tag-argument
/// span of the template text, one token per `next` call, and exhausts
/// itself on the first error.
pub struct IfConditionLexer<'t> {
    text: &'t [u8],
    byte: usize,
    end: usize,
}

impl<'t> IfConditionLexer<'t> {
    /// The template text this lexer scans.
    pub closed spec fn src(self) -> Seq<u8> {
        self.text@
    }

    /// The current cursor: the absolute byte offset of the next scan.
    pub closed spec fn cursor(self) -> int {
        self.byte as int
    }

    /// The absolute byte offset at which the scanned span ends.
    pub closed spec fn limit(self) -> int {
        self.end as int
    }

    /// The cursor never passes the end of the scanned span, which lies
    /// within the template text.
    pub open spec fn wf(self) -> bool {
        0 <= self.cursor() <= self.limit() <= self.src().len()
    }

    /// A lexer over the argument span of a conditional tag.
    pub fn new(template: TemplateString<'t>, parts: TagParts) -> (r: Self)
        requires
            parts.at.0 + parts.at.1 <= template.0@.len(),
        ensures
            r.wf(),
            r.src() == template.0@,
            r.cursor() == parts.at.0,
            r.limit() == parts.at.0 + parts.at.1,
    {
        proof {
            vstd::slice::axiom_spec_len(template.0);
        }
        IfConditionLexer { text: template.0, byte: parts.at.0, end: parts.at.0 + parts.at.1 }
    }

    /// The variable sub-lexer: consumes the maximal non-whitespace run at
    /// the cursor as one variable token (a dotted path with its filter
    /// chain stays one token when no whitespace appears inside it).
    fn lex_variable(&mut self) -> (t: IfConditionToken)
        requires
            old(self).wf(),
        ensures
            final(self).wf(),
            final(self).src() == old(self).src(),
            final(self).limit() == old(self).limit(),
            final(self).cursor() == find_ws(old(self).src(), old(self).cursor(), old(self).limit()),
            t == atom_token(
                old(self).cursor(),
                find_ws(old(self).src(), old(self).cursor(), old(self).limit()),
                IfConditionAtom::Variable,
            ),
            t.wf(),
    {
        proof {
            vstd::slice::axiom_spec_len(self.text);
            lemma_find_ws(self.text@, self.byte as int, self.end as int);
        }
        let w = next_whitespace(self.text, self.byte, self.end);
        let t = IfConditionToken {
            at: (self.byte, w - self.byte),
            token_type: IfConditionTokenType::Atom(IfConditionAtom::Variable),
        };
        self.byte = w;
        t
    }

    /// The numeric sub-lexer: consumes the maximal run of digits, decimal
    /// points and minus signs at the cursor as one numeric token; numeric
    /// well-formedness is not checked here.
    fn lex_numeric(&mut self) -> (t: IfConditionToken)
        requires
            old(self).wf(),
        ensures
            final(self).wf(),
            final(self).src() == old(self).src(),
            final(self).limit() == old(self).limit(),
            final(self).cursor() == find_non_num(
                old(self).src(),
                old(self).cursor(),
                old(self).limit(),
            ),
            t == atom_token(
                old(self).cursor(),
                find_non_num(old(self).src(), old(self).cursor(), old(self).limit()),
                IfConditionAtom::Numeric,
            ),
            t.wf(),
    {
        proof {
            vstd::slice::axiom_spec_len(self.text);
            lemma_find_non_num(self.text@, self.byte as int, self.end as int);
        }
        let w = next_non_numeric(self.text, self.byte, self.end);
        let t = IfConditionToken {
            at: (self.byte, w - self.byte),
            token_type: IfConditionTokenType::Atom(IfConditionAtom::Numeric),
        };
        self.byte = w;
        t
    }

    /// The quoted-text sub-lexer: from the opening `quote` at the cursor,
    /// consumes up to the matching unescaped closing quote.  If the input
    /// ends first, fails with `IncompleteString` and exhausts the lexer.
    fn lex_text(&mut self, quote: u8) -> (r: Result<IfConditionToken, LexerError>)
        requires
            old(self).wf(),
            old(self).cursor() < old(self).limit(),
        ensures
            final(self).wf(),
            final(self).src() == old(self).src(),
            final(self).limit() == old(self).limit(),
            match scan_text_end(
                old(self).src(),
                old(self).cursor() + 1,
                old(self).limit(),
                quote,
                false,
            ) {
                Some(c) => r == Ok::<IfConditionToken, LexerError>(
                    atom_token(old(self).cursor(), c + 1, IfConditionAtom::Text),
                ) && final(self).cursor() == c + 1,
                None => r == Err::<IfConditionToken, LexerError>(
                    LexerError::IncompleteString {
                        at: (
                            old(self).cursor() as usize,
                            (old(self).limit() - old(self).cursor()) as usize,
                        ),
                    },
                ) && final(self).cursor() == old(self).limit(),
            },
            r matches Ok(t) ==> t.wf(),
    {
        let b = self.byte;
        proof {
            vstd::slice::axiom_spec_len(self.text);
            lemma_scan_text_end(self.text@, b + 1 as int, self.end as int, quote, false);
        }
        match scan_text(self.text, b + 1, self.end, quote) {
            Some(c) => {
                self.byte = c + 1;
                Ok(
                    IfConditionToken {
                        at: (b, c + 1 - b),
                        token_type: IfConditionTokenType::Atom(IfConditionAtom::Text),
                    },
                )
            },
            None => {
                let at = (b, self.end - b);
                self.byte = self.end;
                Err(LexerError::IncompleteString { at })
            },
        }
    }

    /// The translated-text sub-lexer: consumes a whole `_('...')`
    /// construct.  If the inner quoted literal or the closing parenthesis
    /// is missing before the input ends, fails with
    /// `IncompleteTranslatedString` and exhausts the lexer.
    fn lex_translated(&mut self) -> (r: Result<IfConditionToken, LexerError>)
        requires
            old(self).wf(),
            old(self).cursor() < old(self).limit(),
        ensures
            final(self).wf(),
            final(self).src() == old(self).src(),
            final(self).limit() == old(self).limit(),
            match translated_token_end(old(self).src(), old(self).cursor(), old(self).limit()) {
                Some(j) => r == Ok::<IfConditionToken, LexerError>(
                    atom_token(old(self).cursor(), j, IfConditionAtom::TranslatedText),
                ) && final(self).cursor() == j,
                None => r == Err::<IfConditionToken, LexerError>(
                    LexerError::IncompleteTranslatedString {
                        at: (
                            old(self).cursor() as usize,
                            (old(self).limit() - old(self).cursor()) as usize,
                        ),
                    },
                ) && final(self).cursor() == old(self).limit(),
            },
            r matches Ok(t) ==> t.wf(),
    {
        let b = self.byte;
        let e = self.end;
        proof {
            vstd::slice::axiom_spec_len(self.text);
        }
        if e - b > 2 {
            let quote = self.text[b + 2];
            if quote == SINGLE_QUOTE || quote == DOUBLE_QUOTE {
                proof {
                    lemma_scan_text_end(self.text@, b + 3 as int, e as int, quote, false);
                }
                match scan_text(self.text, b + 3, e, quote) {
                    Some(c) => {
                        if c + 1 < e && self.text[c + 1] == CLOSE_PAREN {
                            self.byte = c + 2;
                            return Ok(
                                IfConditionToken {
                                    at: (b, c + 2 - b),
                                    token_type: IfConditionTokenType::Atom(
                                        IfConditionAtom::TranslatedText,
                                    ),
                                },
                            );
                        }
                        self.byte = e;
                        Err(LexerError::IncompleteTranslatedString { at: (b, e - b) })
                    },
                    None => {
                        self.byte = e;
                        Err(LexerError::IncompleteTranslatedString { at: (b, e - b) })
                    },
                }
            } else {
                self.byte = e;
                Err(LexerError::IncompleteTranslatedString { at: (b, e - b) })
            }
        } else {
            self.byte = e;
            Err(LexerError::IncompleteTranslatedString { at: (b, e - b) })
        }
    }

    /// After an atom token, the remainder of the input must begin with
    /// whitespace or be empty: the whitespace is skipped; a run of stray
    /// characters fails with `InvalidRemainder` over exactly that run and
    /// exhausts the lexer.
    fn lex_remainder(&mut self) -> (r: Result<(), LexerError>)
        requires
            old(self).wf(),
        ensures
            final(self).wf(),
            final(self).src() == old(self).src(),
            final(self).limit() == old(self).limit(),
            ({
                let n = find_ws(old(self).src(), old(self).cursor(), old(self).limit());
                if n == old(self).cursor() {
                    r is Ok && final(self).cursor() == find_non_ws(
                        old(self).src(),
                        old(self).cursor(),
                        old(self).limit(),
                    )
                } else {
                    r == Err::<(), LexerError>(
                        LexerError::InvalidRemainder {
                            at: (
                                old(self).cursor() as usize,
                                (n - old(self).cursor()) as usize,
                            ),
                        },
                    ) && final(self).cursor() == old(self).limit()
                }
            }),
    {
        proof {
            vstd::slice::axiom_spec_len(self.text);
            lemma_find_ws(self.text@, self.byte as int, self.end as int);
            lemma_find_non_ws(self.text@, self.byte as int, self.end as int);
        }
        let n = next_whitespace(self.text, self.byte, self.end);
        if n == self.byte {
            self.byte = next_non_whitespace(self.text, self.byte, self.end);
            Ok(())
        } else {
            let at = (self.byte, n - self.byte);
            self.byte = self.end;
            Err(LexerError::InvalidRemainder { at })
        }
    }

    /// Lex one atom at the cursor: the first byte selects the sub-lexer
    /// (`_(` translated text, a quote text, a digit or `-` numeric,
    /// anything else a variable), and the remainder of the input after the
    /// atom is then checked for stray characters.
    fn lex_condition(&mut self) -> (r: Result<IfConditionToken, LexerError>)
        requires
            old(self).wf(),
            old(self).cursor() < old(self).limit(),
        ensures
            final(self).wf(),
            final(self).src() == old(self).src(),
            final(self).limit() == old(self).limit(),
            Some(r) == atom_step(old(self).src(), old(self).cursor(), old(self).limit()).0,
            final(self).cursor() == atom_step(
                old(self).src(),
                old(self).cursor(),
                old(self).limit(),
            ).1,
            r matches Ok(t) ==> t.wf(),
    {
        proof {
            vstd::slice::axiom_spec_len(self.text);
        }
        let first = self.text[self.byte];
        let token = if first == UNDERSCORE {
            let paren = self.byte + 1 < self.end && self.text[self.byte + 1] == OPEN_PAREN;
            if paren {
                match self.lex_translated() {
                    Ok(t) => t,
                    Err(e) => {
                        return Err(e);
                    },
                }
            } else {
                self.lex_variable()
            }
        } else if first == DOUBLE_QUOTE {
            match self.lex_text(DOUBLE_QUOTE) {
                Ok(t) => t,
                Err(e) => {
                    return Err(e);
                },
            }
        } else if first == SINGLE_QUOTE {
            match self.lex_text(SINGLE_QUOTE) {
                Ok(t) => t,
                Err(e) => {
                    return Err(e);
                },
            }
        } else if (48 <= first && first <= 57) || first == MINUS {
            self.lex_numeric()
        } else {
            self.lex_variable()
        };
        match self.lex_remainder() {
            Ok(_) => Ok(token),
            Err(e) => Err(e),
        }
    }

    /// One pull on the token stream: `None` when the scanned span is
    /// exhausted, otherwise the next token or error of the conditional
    /// expression.  After an error the lexer reports no more tokens.
    pub fn next(&mut self) -> (r: Option<Result<IfConditionToken, LexerError>>)
        requires
            old(self).wf(),
        ensures
            final(self).wf(),
            final(self).src() == old(self).src(),
            final(self).limit() == old(self).limit(),
            r == cond_step(old(self).src(), old(self).cursor(), old(self).limit()).0,
            final(self).cursor() == cond_step(
                old(self).src(),
                old(self).cursor(),
                old(self).limit(),
            ).1,
            r matches Some(Ok(t)) ==> t.wf(),
    {
        if self.byte >= self.end {
            return None;
        }
        proof {
            vstd::slice::axiom_spec_len(self.text);
            lemma_cond_step_progress(self.text@, self.byte as int, self.end as int);
        }
        let text = self.text;
        let b = self.byte;
        let e = self.end;
        let w = next_whitespace(text, b, e);
        proof {
            lemma_find_ws(text@, b as int, e as int);
        }
        if word_eq3(text, b, w, 97, 110, 100) {
            // and
            Some(Ok(self.take_operator(IfConditionTokenType::Operator(IfConditionOperator::And), w)))
        } else if word_eq2(text, b, w, 111, 114) {
            // or
            Some(Ok(self.take_operator(IfConditionTokenType::Operator(IfConditionOperator::Or), w)))
        } else if word_eq3(text, b, w, 110, 111, 116) {
            // not: peek one word further for `not in`
            let s2 = next_non_whitespace(text, w, e);
            proof {
                lemma_find_non_ws(text@, w as int, e as int);
            }
            let w2 = next_whitespace(text, s2, e);
            proof {
                lemma_find_ws(text@, s2 as int, e as int);
            }
            if word_eq2(text, s2, w2, 105, 110) {
                Some(
                    Ok(
                        self.take_operator(
                            IfConditionTokenType::Operator(IfConditionOperator::NotIn),
                            w2,
                        ),
                    ),
                )
            } else {
                Some(Ok(self.take_operator(IfConditionTokenType::Not, w)))
            }
        } else if word_eq2(text, b, w, 61, 61) {
            // ==
            Some(
                Ok(
                    self.take_operator(
                        IfConditionTokenType::Operator(IfConditionOperator::Equal),
                        w,
                    ),
                ),
            )
        } else if word_eq2(text, b, w, 33, 61) {
            // !=
            Some(
                Ok(
                    self.take_operator(
                        IfConditionTokenType::Operator(IfConditionOperator::NotEqual),
                        w,
                    ),
                ),
            )
        } else if word_eq1(text, b, w, 60) {
            // <
            Some(
                Ok(
                    self.take_operator(
                        IfConditionTokenType::Operator(IfConditionOperator::LessThan),
                        w,
                    ),
                ),
            )
        } else if word_eq1(text, b, w, 62) {
            // >
            Some(
                Ok(
                    self.take_operator(
                        IfConditionTokenType::Operator(IfConditionOperator::GreaterThan),
                        w,
                    ),
                ),
            )
        } else if word_eq2(text, b, w, 60, 61) {
            // <=
            Some(
                Ok(
                    self.take_operator(
                        IfConditionTokenType::Operator(IfConditionOperator::LessThanEqual),
                        w,
                    ),
                ),
            )
        } else if word_eq2(text, b, w, 62, 61) {
            // >=
            Some(
                Ok(
                    self.take_operator(
                        IfConditionTokenType::Operator(IfConditionOperator::GreaterThanEqual),
                        w,
                    ),
                ),
            )
        } else if word_eq2(text, b, w, 105, 110) {
            // in
            Some(
                Ok(self.take_operator(IfConditionTokenType::Operator(IfConditionOperator::In), w)),
            )
        } else if word_eq2(text, b, w, 105, 115) {
            // is: peek one word further for `is not`
            let s2 = next_non_whitespace(text, w, e);
            proof {
                lemma_find_non_ws(text@, w as int, e as int);
            }
            let w2 = next_whitespace(text, s2, e);
            proof {
                lemma_find_ws(text@, s2 as int, e as int);
            }
            if word_eq3(text, s2, w2, 110, 111, 116) {
                Some(
                    Ok(
                        self.take_operator(
                            IfConditionTokenType::Operator(IfConditionOperator::IsNot),
                            w2,
                        ),
                    ),
                )
            } else {
                Some(
                    Ok(
                        self.take_operator(
                            IfConditionTokenType::Operator(IfConditionOperator::Is),
                            w,
                        ),
                    ),
                )
            }
        } else {
            Some(self.lex_condition())
        }
    }

    /// Emit an operator or `not` token spanning from the cursor to `j`,
    /// and skip the whitespace that follows it.
    fn take_operator(&mut self, token_type: IfConditionTokenType, j: usize) -> (t: IfConditionToken)
        requires
            old(self).wf(),
            old(self).cursor() <= j <= old(self).limit(),
            !(token_type matches IfConditionTokenType::Atom(_)),
        ensures
            final(self).wf(),
            final(self).src() == old(self).src(),
            final(self).limit() == old(self).limit(),
            final(self).cursor() == find_non_ws(old(self).src(), j as int, old(self).limit()),
            t == op_token(old(self).cursor(), j as int, token_type),
            t.wf(),
    {
        proof {
            vstd::slice::axiom_spec_len(self.text);
            lemma_find_non_ws(self.text@, j as int, self.end as int);
        }
        let t = IfConditionToken { at: (self.byte, j - self.byte), token_type };
        self.byte = next_non_whitespace(self.text, j, self.end);
        t
    }

    /// Pull the whole remaining token stream into a vector: the tokens of
    /// the conditional expression in source order, ended by the first
    /// error if there is one.  The result is a pure function of the
    /// scanned text and span.
    pub fn collect_tokens(&mut self) -> (r: Vec<Result<IfConditionToken, LexerError>>)
        requires
            old(self).wf(),
        ensures
            final(self).wf(),
            final(self).src() == old(self).src(),
            final(self).limit() == old(self).limit(),
            r@ == cond_tokens(old(self).src(), old(self).cursor(), old(self).limit()),
    {
        let ghost s = self.src();
        let ghost b0 = self.cursor();
        let ghost e0 = self.limit();
        let mut r: Vec<Result<IfConditionToken, LexerError>> = Vec::new();
        loop
            invariant
                self.wf(),
                self.src() == s,
                self.limit() == e0,
                cond_tokens(s, b0, e0) == r@ + cond_tokens(s, self.cursor(), e0),
            ensures
                r@ == cond_tokens(s, b0, e0),
                self.wf(),
                self.src() == s,
                self.limit() == e0,
            decreases e0 - self.cursor(),
        {
            let ghost b = self.cursor();
            proof {
                vstd::slice::axiom_spec_len(self.text);
                lemma_cond_step_progress(s, b, e0);
            }
            match self.next() {
                None => {
                    proof {
                        assert(cond_tokens(s, self.cursor(), e0) =~= Seq::empty());
                        assert(r@ =~= r@ + cond_tokens(s, self.cursor(), e0));
                    }
                    break ;
                },
                Some(item) => {
                    proof {
                        if item is Err {
                            assert(cond_tokens(s, e0, e0) =~= Seq::empty());
                        }
                        assert(cond_tokens(s, b, e0) =~= seq![item] + cond_tokens(
                            s,
                            self.cursor(),
                            e0,
                        ));
                        assert(r@ + cond_tokens(s, b, e0) =~= (r@ + seq![item]) + cond_tokens(
                            s,
                            self.cursor(),
                            e0,
                        ));
                    }
                    r.push(item);
                },
            }
        }
        r
    }
}

/// Re-running a tokenizer over an unmodified span of the same source
/// always yields an identical token sequence: the stream is a pure
/// function of the text and the span, so two runs cannot disagree.
pub proof fn lemma_relex_identical(
    s: Seq<u8>,
    b: int,
    end: int,
    first: Seq<Result<IfConditionToken, LexerError>>,
    second: Seq<Result<IfConditionToken, LexerError>>,
)
    requires
        first == cond_tokens(s, b, end),
        second == cond_tokens(s, b, end),
    ensures
        first == second,
{
}

/// An error is terminal: once the stream holds an error, it is its last
/// item — no token follows an error.
pub proof fn lemma_error_is_terminal(s: Seq<u8>, b: int, end: int)
    requires
        0 <= b <= end <= s.len(),
        end <= usize::MAX,
    ensures
        forall|i: int|
            0 <= i < cond_tokens(s, b, end).len() && cond_tokens(s, b, end)[i] is Err ==> i
                == cond_tokens(s, b, end).len() - 1,
    decreases end - b,
{
    lemma_cond_step_progress(s, b, end);
    let step = cond_step(s, b, end);
    match step.0 {
        None => {},
        Some(item) => {
            if item is Ok && b < step.1 <= end {
                lemma_error_is_terminal(s, step.1, end);
            }
        },
    }
}

/// A whole span of non-whitespace text that is none of the operator
/// keywords and whose first byte selects the variable sub-lexer lexes to
/// exactly one variable token whose raw span covers the span exactly.
pub proof fn lemma_single_variable_token(s: Seq<u8>, b: int, end: int)
    requires
        0 <= b < end <= s.len(),
        end <= usize::MAX,
        forall|k: int| b <= k < end ==> !crate::common::is_ws(s[k]),
        !word_is3(s, b, end, 97, 110, 100),  // `and`
        !word_is2(s, b, end, 111, 114),  // `or`
        !word_is3(s, b, end, 110, 111, 116),  // `not`
        !word_is2(s, b, end, 61, 61),  // `==`
        !word_is2(s, b, end, 33, 61),  // `!=`
        !word_is1(s, b, end, 60),  // `<`
        !word_is1(s, b, end, 62),  // `>`
        !word_is2(s, b, end, 60, 61),  // `<=`
        !word_is2(s, b, end, 62, 61),  // `>=`
        !word_is2(s, b, end, 105, 110),  // `in`
        !word_is2(s, b, end, 105, 115),  // `is`
        s[b] != SINGLE_QUOTE,
        s[b] != DOUBLE_QUOTE,
        !(48 <= s[b] <= 57),
        s[b] != MINUS,
        s[b] == UNDERSCORE ==> !(b + 1 < end && s[b + 1] == OPEN_PAREN),
    ensures
        cond_tokens(s, b, end) == seq![
            Ok::<IfConditionToken, LexerError>(atom_token(b, end, IfConditionAtom::Variable)),
        ],
{
    lemma_find_ws(s, b, end);
    assert(find_ws(s, b, end) == end);
    lemma_find_non_ws(s, end, end);
    let item = Ok::<IfConditionToken, LexerError>(atom_token(b, end, IfConditionAtom::Variable));
    assert(cond_step(s, b, end) == (Some(item), end));
    assert(cond_tokens(s, end, end) =~= Seq::empty());
    assert(cond_tokens(s, b, end) =~= seq![item]);
}

/// Whether an `Ok` token begins at or after `lo` (an error constrains
/// nothing here).
pub open spec fn starts_at_or_after(item: Result<IfConditionToken, LexerError>, lo: int) -> bool {
    item matches Ok(t) ==> lo <= t.at.0
}

/// Whether an `Ok` token ends no later than `hi`.
pub open spec fn ends_by(item: Result<IfConditionToken, LexerError>, hi: int) -> bool {
    item matches Ok(t) ==> t.at.0 + t.at.1 <= hi
}

/// Whether the span of one `Ok` token ends no later than the span of a
/// second one begins.
pub open spec fn precedes(
    a: Result<IfConditionToken, LexerError>,
    b: Result<IfConditionToken, LexerError>,
) -> bool {
    a matches Ok(t1) && b matches Ok(t2) ==> t1.at.0 + t1.at.1 <= t2.at.0
}

/// Tokens come out in source order: every token's span lies inside the
/// scanned region, and each token's span ends no later than the span of
/// any later token begins -- the stream never reorders or overlaps.
pub proof fn lemma_tokens_in_source_order(s: Seq<u8>, b: int, end: int)
    requires
        0 <= b <= end <= s.len(),
        end <= usize::MAX,
    ensures
        forall|i: int|
            0 <= i < cond_tokens(s, b, end).len() ==> starts_at_or_after(
                #[trigger] cond_tokens(s, b, end)[i],
                b,
            ) && ends_by(cond_tokens(s, b, end)[i], end),
        forall|i: int, j: int|
            0 <= i < j < cond_tokens(s, b, end).len() ==> precedes(
                #[trigger] cond_tokens(s, b, end)[i],
                #[trigger] cond_tokens(s, b, end)[j],
            ),
    decreases end - b,
{
    lemma_cond_step_progress(s, b, end);
    let step = cond_step(s, b, end);
    let whole = cond_tokens(s, b, end);
    match step.0 {
        None => {},
        Some(item) => {
            if item is Ok && b < step.1 <= end {
                lemma_tokens_in_source_order(s, step.1, end);
                let rest = cond_tokens(s, step.1, end);
                assert(whole == seq![item] + rest);
                assert forall|i: int| 0 <= i < whole.len() implies starts_at_or_after(
                    #[trigger] whole[i],
                    b,
                ) && ends_by(whole[i], end) by {
                    if i == 0 {
                        assert(whole[0] == item);
                    } else {
                        assert(whole[i] == rest[i - 1]);
                        assert(starts_at_or_after(rest[i - 1], step.1));
                        assert(ends_by(rest[i - 1], end));
                    }
                }
                assert forall|i: int, j: int| 0 <= i < j < whole.len() implies precedes(
                    #[trigger] whole[i],
                    #[trigger] whole[j],
                ) by {
                    assert(whole[j] == rest[j - 1]);
                    if i == 0 {
                        assert(whole[0] == item);
                        assert(starts_at_or_after(rest[j - 1], step.1));
                    } else {
                        assert(whole[i] == rest[i - 1]);
                        assert(precedes(rest[i - 1], rest[j - 1]));
                    }
                }
            } else {
                assert(whole == seq![item]);
            }
        },
    }
}

/// Whether `[i, j)` of `text` is the single byte `b0`.
fn word_eq1(text: &[u8], i: usize, j: usize, b0: u8) -> (r: bool)
    requires
        i <= j <= text@.len(),
    ensures
        r == word_is1(text@, i as int, j as int, b0),
{
    j - i == 1 && text[i] == b0
}

/// Whether `[i, j)` of `text` is exactly the two bytes `b0 b1`.
fn word_eq2(text: &[u8], i: usize, j: usize, b0: u8, b1: u8) -> (r: bool)
    requires
        i <= j <= text@.len(),
    ensures
        r == word_is2(text@, i as int, j as int, b0, b1),
{
    j - i == 2 && text[i] == b0 && text[i + 1] == b1
}

/// Whether `[i, j)` of `text` is exactly the three bytes `b0 b1 b2`.
fn word_eq3(text: &[u8], i: usize, j: usize, b0: u8, b1: u8, b2: u8) -> (r: bool)
    requires
        i <= j <= text@.len(),
    ensures
        r == word_is3(text@, i as int, j as int, b0, b1, b2),
{
    j - i == 3 && text[i] == b0 && text[i + 1] == b1 && text[i + 2] == b2
}

} // verus!
