use template_lex::common::LexerError;
use template_lex::ifcondition::{
    IfConditionAtom, IfConditionLexer, IfConditionOperator, IfConditionToken, IfConditionTokenType,
};
use template_lex::tag::{TagParts, tag_parts};
use template_lex::TemplateString;

fn lex(template: &str, at: (usize, usize)) -> Vec<Result<IfConditionToken, LexerError>> {
    let parts = TagParts { at };
    let mut lexer = IfConditionLexer::new(TemplateString(template.as_bytes()), parts);
    lexer.collect_tokens()
}

#[test]
fn test_content_at_variable_is_raw_span() {
    let tokens = lex("{% if foo %}", (6, 3));
    let token = tokens[0].as_ref().unwrap();
    assert_eq!(token.at, (6, 3));
    assert_eq!(token.content_at(), (6, 3));
}

#[test]
fn test_content_at_text_strips_quotes() {
    let tokens = lex("{% if 'foo' %}", (6, 5));
    let token = tokens[0].as_ref().unwrap();
    assert_eq!(token.at, (6, 5));
    assert_eq!(token.content_at(), (7, 3));
}

#[test]
fn test_content_at_translated_strips_wrapper_and_quotes() {
    let template = "{% if _('foo') %}";
    let tokens = lex(template, (6, 8));
    let token = tokens[0].as_ref().unwrap();
    assert_eq!(token.at, (6, 8));
    let content = token.content_at();
    assert_eq!(content, (9, 3));
    let text = TemplateString(template.as_bytes());
    assert_eq!(text.content(content), "foo".as_bytes());
}

#[test]
fn test_template_string_content() {
    let text = TemplateString("{% if foo %}".as_bytes());
    assert_eq!(text.content((6, 3)), "foo".as_bytes());
    assert_eq!(text.content((0, 0)), "".as_bytes());
}

#[test]
fn test_text_escaped_quote_stays_one_token() {
    // 'fo\'o' is a single text literal: the escaped quote does not close it.
    let template = "{% if 'fo\\'o' %}";
    let tokens = lex(template, (6, 7));
    let text = IfConditionToken {
        at: (6, 7),
        token_type: IfConditionTokenType::Atom(IfConditionAtom::Text),
    };
    assert_eq!(tokens, vec![Ok(text)]);
}

#[test]
fn test_text_escaped_backslash_then_quote_closes() {
    // 'fo\\' ends at the quote: the backslash escapes the backslash.
    let template = "{% if 'fo\\\\' %}";
    let tokens = lex(template, (6, 6));
    let text = IfConditionToken {
        at: (6, 6),
        token_type: IfConditionTokenType::Atom(IfConditionAtom::Text),
    };
    assert_eq!(tokens, vec![Ok(text)]);
}

#[test]
fn test_incomplete_string_error() {
    let tokens = lex("{% if 'foo %}", (6, 4));
    let error = LexerError::IncompleteString { at: (6, 4) };
    assert_eq!(tokens, vec![Err(error)]);
}

#[test]
fn test_numeric_trailing_garbage() {
    let tokens = lex("{% if 1.5x %}", (6, 4));
    let numeric = IfConditionToken {
        at: (6, 3),
        token_type: IfConditionTokenType::Atom(IfConditionAtom::Numeric),
    };
    // The numeric atom itself lexes, then the glued-on run fails.
    assert_eq!(
        tokens,
        vec![Err(LexerError::InvalidRemainder { at: (9, 1) })]
    );
    assert_ne!(tokens, vec![Ok(numeric)]);
}

#[test]
fn test_negative_numeric() {
    let tokens = lex("{% if -1.5 %}", (6, 4));
    let numeric = IfConditionToken {
        at: (6, 4),
        token_type: IfConditionTokenType::Atom(IfConditionAtom::Numeric),
    };
    assert_eq!(tokens, vec![Ok(numeric)]);
}

#[test]
fn test_not_before_variable_stays_standalone() {
    let tokens = lex("{% if not foo %}", (6, 7));
    let not = IfConditionToken {
        at: (6, 3),
        token_type: IfConditionTokenType::Not,
    };
    let foo = IfConditionToken {
        at: (10, 3),
        token_type: IfConditionTokenType::Atom(IfConditionAtom::Variable),
    };
    assert_eq!(tokens, vec![Ok(not), Ok(foo)]);
}

#[test]
fn test_is_before_variable_stays_standalone() {
    let tokens = lex("{% if is foo %}", (6, 6));
    let is = IfConditionToken {
        at: (6, 2),
        token_type: IfConditionTokenType::Operator(IfConditionOperator::Is),
    };
    let foo = IfConditionToken {
        at: (9, 3),
        token_type: IfConditionTokenType::Atom(IfConditionAtom::Variable),
    };
    assert_eq!(tokens, vec![Ok(is), Ok(foo)]);
}

#[test]
fn test_empty_span_yields_no_tokens() {
    let tokens = lex("{% if %}", (6, 0));
    assert_eq!(tokens, vec![]);
}

#[test]
fn test_error_exhausts_the_stream() {
    let template = "{% if 'foo'remainder and count %}";
    let parts = TagParts { at: (6, 24) };
    let mut lexer = IfConditionLexer::new(TemplateString(template.as_bytes()), parts);
    let first = lexer.next().unwrap();
    assert_eq!(
        first,
        Err(LexerError::InvalidRemainder { at: (11, 9) })
    );
    assert_eq!(lexer.next(), None);
    assert_eq!(lexer.next(), None);
}

#[test]
fn test_relex_is_identical() {
    let template = "{% if foo.bar|default:'spam' and count >= 1.5 or enabled is not False %}";
    let first = lex(template, (6, 63));
    let second = lex(template, (6, 63));
    assert_eq!(first, second);
}

#[test]
fn test_tag_parts_if_tag() {
    let template = TemplateString("{% if foo %}".as_bytes());
    let parts = tag_parts(template, (0, 12), 2);
    assert_eq!(parts, TagParts { at: (6, 3) });
}

#[test]
fn test_tag_parts_load_tag() {
    let template = TemplateString("{% load foo bar from library %}".as_bytes());
    let parts = tag_parts(template, (0, 31), 4);
    assert_eq!(parts, TagParts { at: (8, 20) });
}

#[test]
fn test_tag_parts_trims_extra_whitespace() {
    let template = TemplateString("{%  if   foo   %}".as_bytes());
    let parts = tag_parts(template, (0, 17), 2);
    assert_eq!(parts, TagParts { at: (9, 3) });
}
