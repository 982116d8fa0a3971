use lox::scanner::{is_new_line, run_with_scanner, scan, Scan, Scanner};
use lox::lox::Lox;
use lox::token::{Token, TokenBuilder, TokenType, Tokens};

fn kinds(tokens: &Tokens) -> Vec<TokenType> {
    tokens.0.iter().map(|t| t.token_type).collect()
}

#[test]
fn comment_then_number_is_on_line_two() {
    let (tokens, errors) = scan("// c\n1");
    assert_eq!(kinds(&tokens), vec![TokenType::Number, TokenType::EOF]);
    assert_eq!(tokens.0[0].lexeme, "1");
    assert_eq!(tokens.0[0].line, 2);
    assert!(!errors.had_error);
}

#[test]
fn unterminated_string_runs_to_end() {
    let (tokens, errors) = scan("\"abc");
    assert_eq!(kinds(&tokens), vec![TokenType::String, TokenType::EOF]);
    assert_eq!(tokens.0[0].lexeme, "\"abc");
    assert!(!errors.had_error);
}

#[test]
fn empty_source_gives_only_end_of_input() {
    let (tokens, _) = scan("");
    assert_eq!(kinds(&tokens), vec![TokenType::EOF]);
    assert_eq!(tokens.0[0].line, 1);
    assert_eq!(tokens.0[0].lexeme, "");
}

#[test]
fn one_end_token_and_lines_never_go_down() {
    let (tokens, _) = scan("1\n+ \"a\nb\" /* x\n*/ 2;\n");
    let n = tokens.len();
    assert_eq!(tokens.0[n - 1].token_type, TokenType::EOF);
    assert!(tokens.0[..n - 1].iter().all(|t| t.token_type != TokenType::EOF));
    assert!(tokens.0.windows(2).all(|w| w[0].line <= w[1].line));
    assert_eq!(tokens.0[n - 1].line, 5);
}

#[test]
fn two_character_operators_and_fallbacks() {
    let (tokens, _) = scan("!= == <= >= ! = < > /");
    assert_eq!(
        kinds(&tokens),
        vec![
            TokenType::BangEqual,
            TokenType::EqualEqual,
            TokenType::LessEqual,
            TokenType::GreaterEqual,
            TokenType::Bang,
            TokenType::Equal,
            TokenType::Less,
            TokenType::Greater,
            TokenType::Slash,
            TokenType::EOF,
        ]
    );
}

#[test]
fn punctuation() {
    let (tokens, _) = scan("(){},.-+;*");
    assert_eq!(
        kinds(&tokens),
        vec![
            TokenType::LeftParen,
            TokenType::RightParen,
            TokenType::LeftBrace,
            TokenType::RightBrace,
            TokenType::Comma,
            TokenType::Dot,
            TokenType::Minus,
            TokenType::Plus,
            TokenType::Semicolon,
            TokenType::Star,
            TokenType::EOF,
        ]
    );
}

#[test]
fn keywords_and_identifiers() {
    let (tokens, _) = scan("and class else false fn for if nil or print return super this true var while orchid");
    assert_eq!(
        kinds(&tokens),
        vec![
            TokenType::And,
            TokenType::Class,
            TokenType::Else,
            TokenType::False,
            TokenType::Fn,
            TokenType::For,
            TokenType::If,
            TokenType::Nil,
            TokenType::Or,
            TokenType::Print,
            TokenType::Return,
            TokenType::Super,
            TokenType::This,
            TokenType::True,
            TokenType::Var,
            TokenType::While,
            TokenType::Identifier,
            TokenType::EOF,
        ]
    );
    assert_eq!(tokens.0[16].lexeme, "orchid");
}

#[test]
fn identifiers_are_letters_only() {
    let (tokens, errors) = scan("ab_c d1");
    assert_eq!(
        kinds(&tokens),
        vec![
            TokenType::Identifier,
            TokenType::Error,
            TokenType::Identifier,
            TokenType::Identifier,
            TokenType::Number,
            TokenType::EOF,
        ]
    );
    assert_eq!(tokens.0[0].lexeme, "ab");
    assert_eq!(tokens.0[2].lexeme, "c");
    assert_eq!(errors.errors.len(), 1);
}

#[test]
fn numbers_take_a_fraction_only_with_digits_after_the_dot() {
    let (tokens, _) = scan("12.5 7. 3");
    assert_eq!(
        kinds(&tokens),
        vec![TokenType::Number, TokenType::Number, TokenType::Dot, TokenType::Number, TokenType::EOF]
    );
    assert_eq!(tokens.0[0].lexeme, "12.5");
    assert_eq!(tokens.0[1].lexeme, "7");
    assert_eq!(tokens.0[3].lexeme, "3");
}

#[test]
fn string_token_keeps_quotes_and_counts_lines() {
    let (tokens, _) = scan("\"a\nb\" x");
    assert_eq!(tokens.0[0].token_type, TokenType::String);
    assert_eq!(tokens.0[0].lexeme, "\"a\nb\"");
    assert_eq!(tokens.0[0].line, 2);
    assert_eq!(tokens.0[1].line, 2);
}

#[test]
fn block_comment_is_skipped_and_counts_lines() {
    let (tokens, _) = scan("/* a\nb\n*/ 1 /* open");
    assert_eq!(kinds(&tokens), vec![TokenType::Number, TokenType::EOF]);
    assert_eq!(tokens.0[0].line, 3);
}

#[test]
fn invalid_character_gives_error_token_and_record() {
    let (tokens, errors) = scan("1\n@ é");
    assert_eq!(
        kinds(&tokens),
        vec![TokenType::Number, TokenType::Error, TokenType::Error, TokenType::EOF]
    );
    assert_eq!(tokens.0[2].lexeme, "é");
    assert!(errors.had_error);
    assert_eq!(errors.errors.len(), 2);
    assert_eq!(errors.errors[0].line, 2);
    assert_eq!(errors.errors[0].message, "Invalid character");
    assert_eq!(errors.errors[0].place, "");
}

#[test]
fn scanner_object_scans_and_keeps_errors() {
    let mut scanner = Scanner::new("1 $".to_string(), Lox::new());
    let tokens = scanner.scan_tokens();
    assert_eq!(kinds(&tokens), vec![TokenType::Number, TokenType::Error, TokenType::EOF]);
    assert_eq!(scanner.get_errors().errors.len(), 1);
}

#[test]
fn run_with_scanner_ok_and_err() {
    let ok = run_with_scanner(Scanner::new("1 + 2".to_string(), Lox::new()));
    assert_eq!(kinds(&ok.ok().unwrap()).len(), 4);
    let err = run_with_scanner(Scanner::new("1 #\n2 @".to_string(), Lox::new()));
    assert_eq!(
        err.err(),
        Some("[line 1] Error: Invalid character\n[line 2] Error: Invalid character\n".to_string())
    );
    let mut earlier = Lox::new();
    earlier.error(7, "before".to_string());
    let held = run_with_scanner(Scanner::new("1".to_string(), earlier));
    assert_eq!(held.err(), Some("[line 7] Error: before\n".to_string()));
}

#[test]
fn character_classes() {
    assert!(is_new_line('\n'));
    assert!(!is_new_line('\r'));
}

#[test]
fn token_builder_and_tokens() {
    let token: Token = TokenBuilder::new()
        .token_type(TokenType::Plus)
        .lexeme("+".to_string())
        .line(3)
        .build();
    assert_eq!(token, Token::new(TokenType::Plus, "+".to_string(), 3));
    assert_eq!(token.get_lexeme(), "+");
    let default = TokenBuilder::new().build();
    assert_eq!(default.token_type, TokenType::Error);
    assert_eq!(default.line, 0);
    let mut tokens = Tokens::new();
    tokens.push(token);
    let copy = tokens.clone();
    assert_eq!(copy.len(), 1);
    assert_eq!(copy.get(0).lexeme, "+");
}
