use plum::lexer::tokenize;
use plum::parser::{parse_declaration, parse_expression, parse_statement, Decl, Expr, Stmt};
use plum::token::{LexError, LexErrorKind, Token};

fn ident(s: &str) -> Token {
    Token::Identifier(s.to_string())
}

fn all_ok(src: &str) -> Vec<Token> {
    tokenize(src)
        .into_iter()
        .map(|r| r.expect("every lexeme is accepted"))
        .collect()
}

#[test]
fn latin_let_statement() {
    assert_eq!(
        all_ok("turi x = 5."),
        vec![Token::Let, ident("x"), Token::Assignment, Token::Integer(5), Token::Dot]
    );
}

#[test]
fn cyrillic_let_statement() {
    assert_eq!(
        all_ok("тури x = 5."),
        vec![Token::Let, ident("x"), Token::Assignment, Token::Integer(5), Token::Dot]
    );
}

#[test]
fn scripts_mix_between_tokens() {
    assert_eq!(
        all_ok("ako (x == бунар) { }"),
        vec![
            Token::If,
            Token::LtParen,
            ident("x"),
            Token::Equals,
            Token::Null,
            Token::RtParen,
            Token::LtBrace,
            Token::RtBrace,
        ]
    );
}

#[test]
fn every_keyword_spelling() {
    let table: Vec<(&str, Token)> = vec![
        ("ако", Token::If),
        ("ako", Token::If),
        ("иначе", Token::Else),
        ("inače", Token::Else),
        ("inace", Token::Else),
        ("тури", Token::Let),
        ("turi", Token::Let),
        ("посо", Token::Function),
        ("poso", Token::Function),
        ("бекни", Token::Print),
        ("bekni", Token::Print),
        ("углоби", Token::Import),
        ("uglobi", Token::Import),
        ("врни", Token::Return),
        ("vrni", Token::Return),
        ("сорта", Token::Class),
        ("sorta", Token::Class),
        ("или", Token::Or),
        ("ili", Token::Or),
        ("и", Token::And),
        ("i", Token::And),
        ("терај", Token::For),
        ("teraj", Token::For),
        ("док", Token::While),
        ("dok", Token::While),
        ("ја", Token::This),
        ("ja", Token::This),
        ("татко", Token::Super),
        ("tatko", Token::Super),
        ("газда", Token::Main),
        ("gazda", Token::Main),
        ("дабоме", Token::Bool(true)),
        ("dabome", Token::Bool(true)),
        ("јок", Token::Bool(false)),
        ("jok", Token::Bool(false)),
        ("бунар", Token::Null),
        ("bunar", Token::Null),
    ];
    for (spelling, token) in table {
        assert_eq!(all_ok(spelling), vec![token], "{}", spelling);
    }
}

#[test]
fn identifiers_keep_their_spelling() {
    for w in ["x", "Doručak", "isprži", "_tmp9", "Доручак", "испржи", "а-б", "_", "akox", "ијао"] {
        assert_eq!(all_ok(w), vec![ident(w)], "{}", w);
    }
}

#[test]
fn latin_capitals_with_diacritics() {
    assert_eq!(all_ok("Čvor Ćevap Đak Žaba Šuma"), vec![
        ident("Čvor"),
        ident("Ćevap"),
        ident("Đak"),
        ident("Žaba"),
        ident("Šuma"),
    ]);
}

#[test]
fn longer_word_beats_keyword() {
    assert_eq!(all_ok("ako1 turix"), vec![ident("ako1"), ident("turix")]);
}

#[test]
fn round_trip_of_spellings() {
    let tokens = vec![
        Token::Let,
        ident("broj"),
        Token::Assignment,
        Token::Integer(42),
        Token::Plus,
        Token::Float("3.25".to_string()),
        Token::Dot,
        Token::Print,
        Token::String("zdravo #{broj}".to_string()),
        Token::GreaterOrEqualThan,
        Token::Bool(false),
        Token::Divide,
        Token::LesserOrEqualThan,
        Token::Minus,
        ident("ђак"),
    ];
    let text = "turi broj = 42 + 3.25 . bekni \"zdravo #{broj}\" >= jok / <= - ђак";
    assert_eq!(all_ok(text), tokens);
}

#[test]
fn comment_line_gives_no_tokens() {
    assert_eq!(all_ok("// turi x = 5."), vec![]);
    assert_eq!(all_ok("// turi x = 5.\nvrni 0."), vec![Token::Return, Token::Integer(0), Token::Dot]);
    assert_eq!(all_ok("a / b"), vec![ident("a"), Token::Divide, ident("b")]);
}

#[test]
fn largest_integer_is_accepted() {
    assert_eq!(all_ok("9223372036854775807"), vec![Token::Integer(i64::MAX)]);
}

#[test]
fn integer_with_one_more_digit_overflows() {
    assert_eq!(
        tokenize("92233720368547758070"),
        vec![Err(LexError { kind: LexErrorKind::NumericOverflow, start: 0, end: 20 })]
    );
    assert_eq!(
        tokenize("x 9223372036854775808."),
        vec![
            Ok(ident("x")),
            Err(LexError { kind: LexErrorKind::NumericOverflow, start: 2, end: 21 }),
            Ok(Token::Dot),
        ]
    );
}

#[test]
fn float_keeps_its_spelling() {
    let toks = all_ok("3.14 5. 0.5");
    assert_eq!(
        toks,
        vec![
            Token::Float("3.14".to_string()),
            Token::Integer(5),
            Token::Dot,
            Token::Float("0.5".to_string()),
        ]
    );
    if let Token::Float(text) = &toks[0] {
        let value: f64 = text.parse().unwrap();
        assert!((value - 3.14).abs() < 1e-12);
    }
}

#[test]
fn string_drops_its_quotes() {
    assert_eq!(all_ok("\"\""), vec![Token::String(String::new())]);
    assert_eq!(all_ok("\"a // b\""), vec![Token::String("a // b".to_string())]);
}

#[test]
fn unterminated_string_is_unrecognized() {
    assert_eq!(
        tokenize("\"abc"),
        vec![
            Err(LexError { kind: LexErrorKind::Unrecognized, start: 0, end: 1 }),
            Ok(ident("abc")),
        ]
    );
}

#[test]
fn unknown_character_is_reported_with_its_place() {
    assert_eq!(
        tokenize("x @ y"),
        vec![
            Ok(ident("x")),
            Err(LexError { kind: LexErrorKind::Unrecognized, start: 2, end: 3 }),
            Ok(ident("y")),
        ]
    );
}

#[test]
fn mixed_script_word_splits() {
    assert_eq!(all_ok("akoб"), vec![Token::If, ident("б")]);
}

#[test]
fn peek_does_not_advance_and_end_stays_empty() {
    let mut lex = Token::lexer("ja:x  ");
    assert_eq!(lex.peek(), Some(Ok(Token::This)));
    assert_eq!(lex.next(), Some(Ok(Token::This)));
    assert_eq!(lex.peek(), Some(Ok(Token::ScopeResolution)));
    assert_eq!(lex.next(), Some(Ok(Token::ScopeResolution)));
    assert_eq!(lex.next(), Some(Ok(ident("x"))));
    assert_eq!(lex.next(), None);
    assert_eq!(lex.peek(), None);
    assert_eq!(lex.next(), None);
}

#[test]
fn blank_input_has_no_tokens() {
    assert_eq!(tokenize(""), vec![]);
    assert_eq!(tokenize(" \t\r\n\u{c}"), vec![]);
}

#[test]
fn grammar_placeholders() {
    assert_eq!(parse_statement(), Stmt::ExprStmt);
    assert_eq!(parse_declaration(), Decl::ClassDecl);
    assert_eq!(parse_expression(), Expr::Assign);
}
