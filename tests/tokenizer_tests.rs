use owolang::tokenizer::{tokenize, LexError};
use owolang::tokens::{create_token, keywords, Token, TokenType};

fn kinds_and_texts(tokens: &[Token]) -> Vec<(TokenType, String)> {
    tokens.iter().map(|t| (t.token_type, t.value.clone())).collect()
}

#[test]
fn tokenizes_styled_print_call() {
    let tokens = tokenize("owo(1+2)").unwrap();
    assert_eq!(
        kinds_and_texts(&tokens),
        vec![
            (TokenType::OwO, "owo".to_string()),
            (TokenType::Parenthesis, "(".to_string()),
            (TokenType::Number, "1".to_string()),
            (TokenType::Operator, "+".to_string()),
            (TokenType::Number, "2".to_string()),
            (TokenType::Parenthesis, ")".to_string()),
        ]
    );
}

#[test]
fn token_texts_rebuild_the_source_without_whitespace() {
    let source = "sparkle add(a, b) {\n  bb a + b\n}\nmeow( add(3,4) )\tnyan x = 2.5";
    let tokens = tokenize(source).unwrap();
    let joined: String = tokens.iter().map(|t| t.value.as_str()).collect();
    let expected: String = source.chars().filter(|c| !c.is_whitespace()).collect();
    assert_eq!(joined, expected);
}

#[test]
fn keywords_are_recognised() {
    let tokens = tokenize("meow sparkle nyan bringback bb kindOf twue fawse owo other_1").unwrap();
    let kinds: Vec<TokenType> = tokens.iter().map(|t| t.token_type).collect();
    assert_eq!(
        kinds,
        vec![
            TokenType::Print,
            TokenType::FunctionDef,
            TokenType::VarDecl,
            TokenType::Return,
            TokenType::Return,
            TokenType::KindOf,
            TokenType::Bool,
            TokenType::Bool,
            TokenType::OwO,
            TokenType::Identifier,
        ]
    );
}

#[test]
fn string_literal_keeps_its_text_verbatim() {
    let tokens = tokenize("meow(\"hi  there\\n\")").unwrap();
    assert_eq!(tokens[2], create_token(TokenType::String, "hi  there\\n"));
}

#[test]
fn unterminated_string_runs_to_the_end() {
    let tokens = tokenize("\"abc def").unwrap();
    assert_eq!(tokens.len(), 1);
    assert_eq!(tokens[0], create_token(TokenType::String, "abc def"));
}

#[test]
fn number_run_takes_every_dot() {
    let tokens = tokenize("1.2.3").unwrap();
    assert_eq!(tokens, vec![create_token(TokenType::Number, "1.2.3")]);
}

#[test]
fn unexpected_character_is_an_error() {
    assert_eq!(tokenize("meow(1 @ 2)"), Err(LexError::UnexpectedCharacter('@')));
}

#[test]
fn empty_source_has_no_tokens() {
    assert_eq!(tokenize("  \n\t ").unwrap(), Vec::<Token>::new());
}

#[test]
fn keyword_table_lists_every_spelling() {
    let table = keywords();
    assert_eq!(table.len(), 9);
    assert!(table.contains(&("bb".to_string(), TokenType::Return)));
    assert!(table.contains(&("owo".to_string(), TokenType::OwO)));
    assert!(table.contains(&("kindOf".to_string(), TokenType::KindOf)));
}
