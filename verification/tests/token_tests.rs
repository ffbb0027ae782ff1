use scribe::{Lexeme, Position, Token, TokenIterator};
use syntect::parsing::{Scope, ScopeStack, SyntaxSet};

fn collect(mut iterator: TokenIterator) -> Vec<Token> {
    let mut tokens = Vec::new();
    while let Ok(Some(token)) = iterator.next_token() {
        tokens.push(token);
    }
    tokens
}

#[test]
fn token_iterator_returns_correct_tokens() {
    let syntax_set = SyntaxSet::load_defaults_newlines();
    let syntax_ref = syntax_set.find_syntax_by_extension("rs").unwrap();
    let iterator = TokenIterator::new(
        "struct Buffer {\n// comment\n  data: String\n}garbage\n\n",
        syntax_ref,
        &syntax_set,
    )
    .unwrap();
    let mut scope_stack = ScopeStack::new();
    let mut expected_tokens = Vec::new();
    scope_stack.push(Scope::new("source.rust").unwrap());
    scope_stack.push(Scope::new("meta.struct.rust").unwrap());
    scope_stack.push(Scope::new("storage.type.struct.rust").unwrap());
    expected_tokens.push(Token::Lexeme(Lexeme {
        value: "struct".to_string(),
        scope: scope_stack.clone(),
        position: Position { line: 0, offset: 0 },
    }));
    scope_stack.pop();
    expected_tokens.push(Token::Lexeme(Lexeme {
        value: " ".to_string(),
        scope: scope_stack.clone(),
        position: Position { line: 0, offset: 6 },
    }));
    scope_stack.push(Scope::new("entity.name.struct.rust").unwrap());
    expected_tokens.push(Token::Lexeme(Lexeme {
        value: "Buffer".to_string(),
        scope: scope_stack.clone(),
        position: Position { line: 0, offset: 7 },
    }));
    scope_stack.pop();
    expected_tokens.push(Token::Lexeme(Lexeme {
        value: " ".to_string(),
        scope: scope_stack.clone(),
        position: Position { line: 0, offset: 13 },
    }));
    scope_stack.push(Scope::new("meta.block.rust").unwrap());
    scope_stack.push(Scope::new("punctuation.section.block.begin.rust").unwrap());
    expected_tokens.push(Token::Lexeme(Lexeme {
        value: "{".to_string(),
        scope: scope_stack.clone(),
        position: Position { line: 0, offset: 14 },
    }));
    expected_tokens.push(Token::Newline);
    scope_stack.pop();
    scope_stack.push(Scope::new("comment.line.double-slash.rust").unwrap());
    scope_stack.push(Scope::new("punctuation.definition.comment.rust").unwrap());
    expected_tokens.push(Token::Lexeme(Lexeme {
        value: "//".to_string(),
        scope: scope_stack.clone(),
        position: Position { line: 1, offset: 0 },
    }));
    scope_stack.pop();
    expected_tokens.push(Token::Lexeme(Lexeme {
        value: " comment".to_string(),
        scope: scope_stack.clone(),
        position: Position { line: 1, offset: 2 },
    }));
    expected_tokens.push(Token::Newline);
    scope_stack.pop();
    expected_tokens.push(Token::Lexeme(Lexeme {
        value: "  ".to_string(),
        scope: scope_stack.clone(),
        position: Position { line: 2, offset: 0 },
    }));
    scope_stack.push(Scope::new("variable.other.member.rust").unwrap());
    expected_tokens.push(Token::Lexeme(Lexeme {
        value: "data".to_string(),
        scope: scope_stack.clone(),
        position: Position { line: 2, offset: 2 },
    }));
    scope_stack.pop();
    scope_stack.push(Scope::new("punctuation.separator.rust").unwrap());
    expected_tokens.push(Token::Lexeme(Lexeme {
        value: ":".to_string(),
        scope: scope_stack.clone(),
        position: Position { line: 2, offset: 6 },
    }));
    scope_stack.pop();
    expected_tokens.push(Token::Lexeme(Lexeme {
        value: " String".to_string(),
        scope: scope_stack.clone(),
        position: Position { line: 2, offset: 7 },
    }));
    expected_tokens.push(Token::Newline);
    scope_stack.push(Scope::new("punctuation.section.block.end.rust").unwrap());
    expected_tokens.push(Token::Lexeme(Lexeme {
        value: "}".to_string(),
        scope: scope_stack.clone(),
        position: Position { line: 3, offset: 0 },
    }));
    scope_stack.pop();
    scope_stack.pop();
    scope_stack.pop();
    expected_tokens.push(Token::Lexeme(Lexeme {
        value: "garbage".to_string(),
        scope: scope_stack.clone(),
        position: Position { line: 3, offset: 1 },
    }));
    expected_tokens.push(Token::Newline);
    expected_tokens.push(Token::Newline);
    let actual_tokens = collect(iterator);
    for (index, token) in expected_tokens.into_iter().enumerate() {
        assert_eq!(token, actual_tokens[index]);
    }
}

#[test]
fn token_iterator_handles_content_without_trailing_newline() {
    let syntax_set = SyntaxSet::load_defaults_newlines();

    // It's important to use a plain text lexer so that the last token
    // doesn't introduce a scope change, forcing the EOL handling logic.
    let syntax_ref = syntax_set.find_syntax_plain_text();
    let iterator = TokenIterator::new("struct", syntax_ref, &syntax_set).unwrap();
    let mut expected_tokens = Vec::new();
    expected_tokens.push(Token::Lexeme(Lexeme {
        value: "struct".to_string(),
        scope: ScopeStack::from_vec(vec![Scope::new("text.plain").unwrap()]),
        position: Position { line: 0, offset: 0 },
    }));
    let actual_tokens = collect(iterator);
    for (index, token) in expected_tokens.into_iter().enumerate() {
        assert_eq!(token, actual_tokens[index]);
    }
}

#[test]
fn token_iterator_handles_unicode_characters() {
    let syntax_set = SyntaxSet::load_defaults_newlines();
    let syntax_ref = syntax_set.find_syntax_by_extension("rs").unwrap();
    let iterator = TokenIterator::new("€16", syntax_ref, &syntax_set).unwrap();
    let mut scope_stack = ScopeStack::new();
    let mut expected_tokens = Vec::new();
    scope_stack.push(Scope::new("source.rust").unwrap());
    expected_tokens.push(Token::Lexeme(Lexeme {
        value: "€".to_string(),
        scope: scope_stack.clone(),
        position: Position { line: 0, offset: 0 },
    }));
    scope_stack.push(Scope::new("constant.numeric.integer.decimal.rust").unwrap());
    expected_tokens.push(Token::Lexeme(Lexeme {
        value: "16".to_string(),
        scope: scope_stack.clone(),
        position: Position { line: 0, offset: 1 },
    }));

    let actual_tokens = collect(iterator);
    for (index, token) in expected_tokens.into_iter().enumerate() {
        assert_eq!(token, actual_tokens[index]);
    }
}

#[test]
fn token_iterator_rejects_a_reference_from_another_set() {
    let full_set = SyntaxSet::load_defaults_newlines();
    let foreign_ref = full_set.find_syntax_by_extension("rs").unwrap();
    let empty_set = SyntaxSet::new();

    // The reference names no definition of the empty set, so no stream is
    // built (and nothing panics).
    let result = TokenIterator::new("fn main() {}", foreign_ref, &empty_set);
    assert_eq!(result.err(), Some(scribe::Error::MissingSyntax));
}
