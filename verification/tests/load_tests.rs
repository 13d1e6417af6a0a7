use template_lex::TemplateString;
use template_lex::load::{LoadLexer, LoadToken};
use template_lex::tag::TagParts;

fn lex(template: &str, at: (usize, usize)) -> Vec<LoadToken> {
    let parts = TagParts { at };
    let mut lexer = LoadLexer::new(TemplateString(template.as_bytes()), parts);
    lexer.collect_tokens()
}

#[test]
fn test_lex_library() {
    let tokens = lex("{% load foo %}", (8, 3));
    let foo = LoadToken { at: (8, 3) };
    assert_eq!(tokens, [foo]);
}

#[test]
fn test_lex_libraries() {
    let tokens = lex("{% load foo bar.eggs %}", (8, 12));
    let foo = LoadToken { at: (8, 3) };
    let bar_eggs = LoadToken { at: (12, 8) };
    assert_eq!(tokens, [foo, bar_eggs]);
}

#[test]
fn test_lex_individual() {
    let tokens = lex("{% load foo bar from library %}", (8, 20));
    let foo = LoadToken { at: (8, 3) };
    let bar = LoadToken { at: (12, 3) };
    let from = LoadToken { at: (16, 4) };
    let library = LoadToken { at: (21, 7) };
    assert_eq!(tokens, [foo, bar, from, library]);
}

#[test]
fn test_lex_load_empty_span() {
    let tokens = lex("{% load %}", (8, 0));
    assert!(tokens.is_empty());
}

#[test]
fn test_lex_load_one_pull_at_a_time() {
    let template = "{% load foo bar %}";
    let parts = TagParts { at: (8, 7) };
    let mut lexer = LoadLexer::new(TemplateString(template.as_bytes()), parts);
    assert_eq!(lexer.next(), Some(LoadToken { at: (8, 3) }));
    assert_eq!(lexer.next(), Some(LoadToken { at: (12, 3) }));
    assert_eq!(lexer.next(), None);
    assert_eq!(lexer.next(), None);
}

#[test]
fn test_lex_load_never_fails_on_arbitrary_content() {
    // Content that would be an error for the condition lexer is plain
    // words here.
    let tokens = lex("{% load 'foo %}", (8, 4));
    assert_eq!(tokens, [LoadToken { at: (8, 4) }]);
}

#[test]
fn test_lex_load_rerun_is_identical() {
    let template = "{% load foo bar from library %}";
    let first = lex(template, (8, 20));
    let second = lex(template, (8, 20));
    assert_eq!(first, second);
}
