use tokenizer::input::Input;
use tokenizer::lexer::{Lexer, Token, TokenType};

fn lex(text: &str) -> Vec<Token> {
    let mut lexer = Lexer::new(Input::_from_string(String::from(text)));
    let mut tokens = Vec::new();
    while let Some(token) = lexer.next_token() {
        tokens.push(token);
    }
    tokens
}

fn kinds_and_texts(tokens: &[Token]) -> Vec<(TokenType, String)> {
    tokens.iter().map(|t| (t.token_type, t.content.clone())).collect()
}

fn pair(kind: TokenType, text: &str) -> (TokenType, String) {
    (kind, String::from(text))
}

#[test]
fn whitespace_only_gives_no_tokens() {
    assert!(lex("").is_empty());
    assert!(lex(" ").is_empty());
    assert!(lex(" \t\n  \n\t").is_empty());
}

#[test]
fn exhausted_lexer_stays_exhausted() {
    let mut lexer = Lexer::new(Input::_from_string(String::from("a  ")));
    assert!(lexer.next_token().is_some());
    assert!(lexer.next_token().is_none());
    assert!(lexer.next_token().is_none());
}

#[test]
fn identifier_text_is_exact_slice() {
    let tokens = lex("  abc123_X;");
    assert_eq!(
        kinds_and_texts(&tokens),
        vec![pair(TokenType::Name, "abc123_X"), pair(TokenType::Semicolon, ";")]
    );
    assert_eq!((tokens[0].line, tokens[0].column), (1, 3));
}

#[test]
fn near_keywords_are_names() {
    let tokens = lex("functions _return cons");
    assert_eq!(
        kinds_and_texts(&tokens),
        vec![
            pair(TokenType::Name, "functions"),
            pair(TokenType::Name, "_return"),
            pair(TokenType::Name, "cons"),
        ]
    );
}

#[test]
fn keywords_get_their_kinds() {
    let tokens = lex("\tfunction\nreturn  const");
    assert_eq!(
        kinds_and_texts(&tokens),
        vec![
            pair(TokenType::Function, "function"),
            pair(TokenType::Return, "return"),
            pair(TokenType::Const, "const"),
        ]
    );
    assert_eq!(kinds_and_texts(&lex("return;")), vec![pair(TokenType::Return, "return"), pair(TokenType::Semicolon, ";")]);
}

#[test]
fn integer_stops_at_first_non_digit() {
    let tokens = lex("123abc");
    assert_eq!(
        kinds_and_texts(&tokens),
        vec![pair(TokenType::Int, "123"), pair(TokenType::Name, "abc")]
    );
    assert_eq!((tokens[1].line, tokens[1].column), (1, 4));
}

#[test]
fn single_integer_literal() {
    let tokens = lex("42");
    assert_eq!(tokens.len(), 1);
    assert_eq!(tokens[0].token_type, TokenType::Int);
    assert_eq!(tokens[0].content, "42");
    assert_eq!(tokens[0].line, 1);
    assert_eq!(tokens[0].column, 1);
}

#[test]
fn string_literal_drops_quotes() {
    let tokens = lex("\"a b\" 'c' \"\"");
    assert_eq!(
        kinds_and_texts(&tokens),
        vec![
            pair(TokenType::String, "a b"),
            pair(TokenType::String, "c"),
            pair(TokenType::String, ""),
        ]
    );
    assert_eq!((tokens[1].line, tokens[1].column), (1, 7));
}

#[test]
fn string_literal_closes_on_either_quote() {
    let tokens = lex("\"it'x");
    assert_eq!(
        kinds_and_texts(&tokens),
        vec![pair(TokenType::String, "it"), pair(TokenType::Name, "x")]
    );
}

#[test]
fn unterminated_string_runs_to_end() {
    let tokens = lex("x = \"abc");
    assert_eq!(
        kinds_and_texts(&tokens),
        vec![
            pair(TokenType::Name, "x"),
            pair(TokenType::Equal, "="),
            pair(TokenType::String, "abc"),
        ]
    );
}

#[test]
fn punctuation_table() {
    let tokens = lex(".,;=+(){}");
    assert_eq!(
        kinds_and_texts(&tokens),
        vec![
            pair(TokenType::Dot, "."),
            pair(TokenType::Comma, ","),
            pair(TokenType::Semicolon, ";"),
            pair(TokenType::Equal, "="),
            pair(TokenType::Plus, "+"),
            pair(TokenType::RoundBraceOpen, "("),
            pair(TokenType::RoundBraceClose, ")"),
            pair(TokenType::CurlyBraceOpen, "{"),
            pair(TokenType::CurlyBraceClose, "}"),
        ]
    );
}

#[test]
fn unknown_character_falls_back_to_name() {
    let tokens = lex("a-b");
    assert_eq!(
        kinds_and_texts(&tokens),
        vec![
            pair(TokenType::Name, "a"),
            pair(TokenType::Name, "-"),
            pair(TokenType::Name, "b"),
        ]
    );
}

#[test]
fn function_definition_round_trip() {
    let tokens = lex("function foo(x) { return x; }");
    assert_eq!(
        kinds_and_texts(&tokens),
        vec![
            pair(TokenType::Function, "function"),
            pair(TokenType::Name, "foo"),
            pair(TokenType::RoundBraceOpen, "("),
            pair(TokenType::Name, "x"),
            pair(TokenType::RoundBraceClose, ")"),
            pair(TokenType::CurlyBraceOpen, "{"),
            pair(TokenType::Return, "return"),
            pair(TokenType::Name, "x"),
            pair(TokenType::Semicolon, ";"),
            pair(TokenType::CurlyBraceClose, "}"),
        ]
    );
}

#[test]
fn const_declaration() {
    let tokens = lex("const s = \"hi\";");
    assert_eq!(
        kinds_and_texts(&tokens),
        vec![
            pair(TokenType::Const, "const"),
            pair(TokenType::Name, "s"),
            pair(TokenType::Equal, "="),
            pair(TokenType::String, "hi"),
            pair(TokenType::Semicolon, ";"),
        ]
    );
}

#[test]
fn positions_strictly_increase() {
    let tokens = lex("a bc\n  d;\n\n\"x\ny\" 7");
    let positions: Vec<(u32, u32)> = tokens.iter().map(|t| (t.line, t.column)).collect();
    assert_eq!(positions, vec![(1, 1), (1, 3), (2, 3), (2, 4), (4, 1), (5, 4)]);
    for w in positions.windows(2) {
        assert!(w[0] < w[1]);
    }
}

#[test]
fn newline_moves_to_next_line_column_one() {
    let tokens = lex("abc def\nghi");
    assert_eq!((tokens[1].line, tokens[1].column), (1, 5));
    assert_eq!((tokens[2].line, tokens[2].column), (2, 1));
}

#[test]
fn pretty_format_of_tokens() {
    let mut lexer = Lexer::new(Input::_from_string(String::from("\n\n   const\n    12345")));
    let first = lexer.next_token().unwrap();
    assert_eq!(lexer.pretty_format_token(&first), "<input>:3:4 Const \"const\"");
    let second = lexer.next_token().unwrap();
    assert_eq!(lexer.pretty_format_token(&second), "<input>:4:5 Int \"12345\"");
}

#[test]
fn pretty_format_with_file_label_and_large_numbers() {
    let lexer = Lexer::new(Input { file: String::from("dir/a.src"), content: String::new() });
    let token = Token { token_type: TokenType::String, line: 4294967295, column: 10, content: String::from("q") };
    assert_eq!(lexer.pretty_format_token(&token), "dir/a.src:4294967295:10 String \"q\"");
}

#[test]
fn kind_names() {
    assert_eq!(TokenType::RoundBraceOpen.to_string(), "RoundBraceOpen");
    assert_eq!(TokenType::CurlyBraceClose.to_string(), "CurlyBraceClose");
    assert_eq!(TokenType::SingleQuote.to_string(), "SingleQuote");
    assert_eq!(TokenType::Name.to_string(), "Name");
}

#[test]
fn input_from_string_has_placeholder_label() {
    let input = Input::_from_string(String::from("abc"));
    assert_eq!(input.file, "<input>");
    assert_eq!(input.content, "abc");
}
