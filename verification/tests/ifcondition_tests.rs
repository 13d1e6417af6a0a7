use template_lex::TemplateString;
use template_lex::common::LexerError;
use template_lex::ifcondition::{
    IfConditionAtom, IfConditionLexer, IfConditionOperator, IfConditionToken, IfConditionTokenType,
};
use template_lex::tag::TagParts;

fn lex(template: &str, at: (usize, usize)) -> Vec<Result<IfConditionToken, LexerError>> {
    let parts = TagParts { at };
    let mut lexer = IfConditionLexer::new(TemplateString(template.as_bytes()), parts);
    lexer.collect_tokens()
}

#[test]
fn test_lex_variable() {
    let tokens = lex("{% if foo %}", (6, 3));

    let foo = IfConditionToken {
        at: (6, 3),
        token_type: IfConditionTokenType::Atom(IfConditionAtom::Variable),
    };
    assert_eq!(tokens, vec![Ok(foo)]);
}

#[test]
fn test_lex_variable_leading_underscorej() {
    let tokens = lex("{% if _foo %}", (6, 4));

    let foo = IfConditionToken {
        at: (6, 4),
        token_type: IfConditionTokenType::Atom(IfConditionAtom::Variable),
    };
    assert_eq!(tokens, vec![Ok(foo)]);
}

#[test]
fn test_lex_numeric() {
    let tokens = lex("{% if 5.3 %}", (6, 3));

    let numeric = IfConditionToken {
        at: (6, 3),
        token_type: IfConditionTokenType::Atom(IfConditionAtom::Numeric),
    };
    assert_eq!(tokens, vec![Ok(numeric)]);
}

#[test]
fn test_lex_text() {
    let tokens = lex("{% if 'foo' %}", (6, 5));

    let text = IfConditionToken {
        at: (6, 5),
        token_type: IfConditionTokenType::Atom(IfConditionAtom::Text),
    };
    assert_eq!(tokens, vec![Ok(text)]);
}

#[test]
fn test_lex_text_double_quotes() {
    let tokens = lex("{% if \"foo\" %}", (6, 5));

    let text = IfConditionToken {
        at: (6, 5),
        token_type: IfConditionTokenType::Atom(IfConditionAtom::Text),
    };
    assert_eq!(tokens, vec![Ok(text)]);
}

#[test]
fn test_lex_translated() {
    let tokens = lex("{% if _('foo') %}", (6, 8));

    let text = IfConditionToken {
        at: (6, 8),
        token_type: IfConditionTokenType::Atom(IfConditionAtom::TranslatedText),
    };
    assert_eq!(tokens, vec![Ok(text)]);
}

#[test]
fn test_lex_translated_error() {
    let tokens = lex("{% if _('foo' %}", (6, 7));

    let error = LexerError::IncompleteTranslatedString { at: (6, 7) };
    assert_eq!(tokens, vec![Err(error)]);
}

#[test]
fn test_lex_and() {
    let tokens = lex("{% if and %}", (6, 3));

    let and = IfConditionToken {
        at: (6, 3),
        token_type: IfConditionTokenType::Operator(IfConditionOperator::And),
    };
    assert_eq!(tokens, vec![Ok(and)]);
}

#[test]
fn test_lex_or() {
    let tokens = lex("{% if or %}", (6, 2));

    let or = IfConditionToken {
        at: (6, 2),
        token_type: IfConditionTokenType::Operator(IfConditionOperator::Or),
    };
    assert_eq!(tokens, vec![Ok(or)]);
}

#[test]
fn test_lex_not() {
    let tokens = lex("{% if not %}", (6, 3));

    let not = IfConditionToken {
        at: (6, 3),
        token_type: IfConditionTokenType::Not,
    };
    assert_eq!(tokens, vec![Ok(not)]);
}

#[test]
fn test_lex_equal() {
    let tokens = lex("{% if == %}", (6, 2));

    let equal = IfConditionToken {
        at: (6, 2),
        token_type: IfConditionTokenType::Operator(IfConditionOperator::Equal),
    };
    assert_eq!(tokens, vec![Ok(equal)]);
}

#[test]
fn test_lex_not_equal() {
    let tokens = lex("{% if != %}", (6, 2));

    let not_equal = IfConditionToken {
        at: (6, 2),
        token_type: IfConditionTokenType::Operator(IfConditionOperator::NotEqual),
    };
    assert_eq!(tokens, vec![Ok(not_equal)]);
}

#[test]
fn test_lex_less_than() {
    let tokens = lex("{% if < %}", (6, 1));

    let less_than = IfConditionToken {
        at: (6, 1),
        token_type: IfConditionTokenType::Operator(IfConditionOperator::LessThan),
    };
    assert_eq!(tokens, vec![Ok(less_than)]);
}

#[test]
fn test_lex_greater_than() {
    let tokens = lex("{% if > %}", (6, 1));

    let greater_than = IfConditionToken {
        at: (6, 1),
        token_type: IfConditionTokenType::Operator(IfConditionOperator::GreaterThan),
    };
    assert_eq!(tokens, vec![Ok(greater_than)]);
}

#[test]
fn test_lex_less_equal() {
    let tokens = lex("{% if <= %}", (6, 2));

    let less_equal = IfConditionToken {
        at: (6, 2),
        token_type: IfConditionTokenType::Operator(IfConditionOperator::LessThanEqual),
    };
    assert_eq!(tokens, vec![Ok(less_equal)]);
}

#[test]
fn test_lex_greater_equal() {
    let tokens = lex("{% if >= %}", (6, 2));

    let greater_equal = IfConditionToken {
        at: (6, 2),
        token_type: IfConditionTokenType::Operator(IfConditionOperator::GreaterThanEqual),
    };
    assert_eq!(tokens, vec![Ok(greater_equal)]);
}

#[test]
fn test_lex_in() {
    let tokens = lex("{% if in %}", (6, 2));

    let in_ = IfConditionToken {
        at: (6, 2),
        token_type: IfConditionTokenType::Operator(IfConditionOperator::In),
    };
    assert_eq!(tokens, vec![Ok(in_)]);
}

#[test]
fn test_lex_not_in() {
    let tokens = lex("{% if not in %}", (6, 6));

    let not_in = IfConditionToken {
        at: (6, 6),
        token_type: IfConditionTokenType::Operator(IfConditionOperator::NotIn),
    };
    assert_eq!(tokens, vec![Ok(not_in)]);
}

#[test]
fn test_lex_is() {
    let tokens = lex("{% if is %}", (6, 2));

    let is = IfConditionToken {
        at: (6, 2),
        token_type: IfConditionTokenType::Operator(IfConditionOperator::Is),
    };
    assert_eq!(tokens, vec![Ok(is)]);
}

#[test]
fn test_lex_is_not() {
    let tokens = lex("{% if is not %}", (6, 6));

    let is_not = IfConditionToken {
        at: (6, 6),
        token_type: IfConditionTokenType::Operator(IfConditionOperator::IsNot),
    };
    assert_eq!(tokens, vec![Ok(is_not)]);
}

#[test]
fn test_lex_complex_condition() {
    let tokens = lex(
        "{% if foo.bar|default:'spam' and count >= 1.5 or enabled is not False %}",
        (6, 63),
    );

    let foobar = IfConditionToken {
        at: (6, 22),
        token_type: IfConditionTokenType::Atom(IfConditionAtom::Variable),
    };
    let and = IfConditionToken {
        at: (29, 3),
        token_type: IfConditionTokenType::Operator(IfConditionOperator::And),
    };
    let count = IfConditionToken {
        at: (33, 5),
        token_type: IfConditionTokenType::Atom(IfConditionAtom::Variable),
    };
    let greater_equal = IfConditionToken {
        at: (39, 2),
        token_type: IfConditionTokenType::Operator(IfConditionOperator::GreaterThanEqual),
    };
    let numeric = IfConditionToken {
        at: (42, 3),
        token_type: IfConditionTokenType::Atom(IfConditionAtom::Numeric),
    };
    let or = IfConditionToken {
        at: (46, 2),
        token_type: IfConditionTokenType::Operator(IfConditionOperator::Or),
    };
    let enabled = IfConditionToken {
        at: (49, 7),
        token_type: IfConditionTokenType::Atom(IfConditionAtom::Variable),
    };
    let is_not = IfConditionToken {
        at: (57, 6),
        token_type: IfConditionTokenType::Operator(IfConditionOperator::IsNot),
    };
    let falsey = IfConditionToken {
        at: (64, 5),
        token_type: IfConditionTokenType::Atom(IfConditionAtom::Variable),
    };
    let condition = vec![
        Ok(foobar),
        Ok(and),
        Ok(count),
        Ok(greater_equal),
        Ok(numeric),
        Ok(or),
        Ok(enabled),
        Ok(is_not),
        Ok(falsey),
    ];
    assert_eq!(tokens, condition);
}

#[test]
fn test_lex_invalid_remainder() {
    let template = "{% if 'foo'remainder %}";
    let parts = TagParts { at: (6, 14) };
    let mut lexer = IfConditionLexer::new(TemplateString(template.as_bytes()), parts);
    let error = lexer.next().unwrap().unwrap_err();
    assert_eq!(error, LexerError::InvalidRemainder { at: (11, 9) });
}
