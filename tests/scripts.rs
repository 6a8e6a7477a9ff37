use plum::token::Token;

#[test]
fn parser_test_lat() {
    let src = r#"
    uglobi "zadruga/sorte".

    sorta Doručak {
        turi jaja = bunar.

        (jaja) {
            ja:jaja = jaja.
        }

        poso isprži komada {
            ako (komada == 0 ili komada == bunar) {
                bekni "Isprženo #{jaja} komada".
            } inače {
                bekni "Isprženo #{komada} komada".
            }
        }
    }

    poso gazda {
        turi obrok = Doručak(5).
        obrok:isprži(5).

        vrni 0.
    }
    "#;

    let mut lex = Token::lexer(src);

    assert_eq!(lex.next(), Some(Ok(Token::Import)));
    assert_eq!(
        lex.next(),
        Some(Ok(Token::String("zadruga/sorte".to_string())))
    );
    assert_eq!(lex.next(), Some(Ok(Token::Dot)));
    assert_eq!(lex.next(), Some(Ok(Token::Class)));
    assert_eq!(
        lex.next(),
        Some(Ok(Token::Identifier("Doručak".to_string())))
    );
    assert_eq!(lex.next(), Some(Ok(Token::LtBrace)));
    assert_eq!(lex.next(), Some(Ok(Token::Let)));
    assert_eq!(lex.next(), Some(Ok(Token::Identifier("jaja".to_string()))));
    assert_eq!(lex.next(), Some(Ok(Token::Assignment)));
    assert_eq!(lex.next(), Some(Ok(Token::Null)));
    assert_eq!(lex.next(), Some(Ok(Token::Dot)));
    assert_eq!(lex.next(), Some(Ok(Token::LtParen)));
    assert_eq!(lex.next(), Some(Ok(Token::Identifier("jaja".to_string()))));
    assert_eq!(lex.next(), Some(Ok(Token::RtParen)));
    assert_eq!(lex.next(), Some(Ok(Token::LtBrace)));
    assert_eq!(lex.next(), Some(Ok(Token::This)));
    assert_eq!(lex.next(), Some(Ok(Token::ScopeResolution)));
    assert_eq!(lex.next(), Some(Ok(Token::Identifier("jaja".to_string()))));
    assert_eq!(lex.next(), Some(Ok(Token::Assignment)));
    assert_eq!(lex.next(), Some(Ok(Token::Identifier("jaja".to_string()))));
    assert_eq!(lex.next(), Some(Ok(Token::Dot)));
    assert_eq!(lex.next(), Some(Ok(Token::RtBrace)));
    assert_eq!(lex.next(), Some(Ok(Token::Function)));
    assert_eq!(
        lex.next(),
        Some(Ok(Token::Identifier("isprži".to_string())))
    );
    assert_eq!(
        lex.next(),
        Some(Ok(Token::Identifier("komada".to_string())))
    );
    assert_eq!(lex.next(), Some(Ok(Token::LtBrace)));
    assert_eq!(lex.next(), Some(Ok(Token::If)));
    assert_eq!(lex.next(), Some(Ok(Token::LtParen)));
    assert_eq!(
        lex.next(),
        Some(Ok(Token::Identifier("komada".to_string())))
    );
    assert_eq!(lex.next(), Some(Ok(Token::Equals)));
    assert_eq!(lex.next(), Some(Ok(Token::Integer(0))));
    assert_eq!(lex.next(), Some(Ok(Token::Or)));
    assert_eq!(
        lex.next(),
        Some(Ok(Token::Identifier("komada".to_string())))
    );
    assert_eq!(lex.next(), Some(Ok(Token::Equals)));
    assert_eq!(lex.next(), Some(Ok(Token::Null)));
    assert_eq!(lex.next(), Some(Ok(Token::RtParen)));
    assert_eq!(lex.next(), Some(Ok(Token::LtBrace)));
    assert_eq!(lex.next(), Some(Ok(Token::Print)));
    assert_eq!(
        lex.next(),
        Some(Ok(Token::String("Isprženo #{jaja} komada".to_string())))
    );
    assert_eq!(lex.next(), Some(Ok(Token::Dot)));
    assert_eq!(lex.next(), Some(Ok(Token::RtBrace)));
    assert_eq!(lex.next(), Some(Ok(Token::Else)));
    assert_eq!(lex.next(), Some(Ok(Token::LtBrace)));
    assert_eq!(lex.next(), Some(Ok(Token::Print)));
    assert_eq!(
        lex.next(),
        Some(Ok(Token::String("Isprženo #{komada} komada".to_string())))
    );
    assert_eq!(lex.next(), Some(Ok(Token::Dot)));
    assert_eq!(lex.next(), Some(Ok(Token::RtBrace)));
    assert_eq!(lex.next(), Some(Ok(Token::RtBrace)));
    assert_eq!(lex.next(), Some(Ok(Token::RtBrace)));
    assert_eq!(lex.next(), Some(Ok(Token::Function)));
    assert_eq!(lex.next(), Some(Ok(Token::Main)));
    assert_eq!(lex.next(), Some(Ok(Token::LtBrace)));
    assert_eq!(lex.next(), Some(Ok(Token::Let)));
    assert_eq!(lex.next(), Some(Ok(Token::Identifier("obrok".to_string()))));
    assert_eq!(lex.next(), Some(Ok(Token::Assignment)));
    assert_eq!(
        lex.next(),
        Some(Ok(Token::Identifier("Doručak".to_string())))
    );
    assert_eq!(lex.next(), Some(Ok(Token::LtParen)));
    assert_eq!(lex.next(), Some(Ok(Token::Integer(5))));
    assert_eq!(lex.next(), Some(Ok(Token::RtParen)));
    assert_eq!(lex.next(), Some(Ok(Token::Dot)));
    assert_eq!(lex.next(), Some(Ok(Token::Identifier("obrok".to_string()))));
    assert_eq!(lex.next(), Some(Ok(Token::ScopeResolution)));
    assert_eq!(
        lex.next(),
        Some(Ok(Token::Identifier("isprži".to_string())))
    );
    assert_eq!(lex.next(), Some(Ok(Token::LtParen)));
    assert_eq!(lex.next(), Some(Ok(Token::Integer(5))));
    assert_eq!(lex.next(), Some(Ok(Token::RtParen)));
    assert_eq!(lex.next(), Some(Ok(Token::Dot)));
    assert_eq!(lex.next(), Some(Ok(Token::Return)));
    assert_eq!(lex.next(), Some(Ok(Token::Integer(0))));
    assert_eq!(lex.next(), Some(Ok(Token::Dot)));
    assert_eq!(lex.next(), Some(Ok(Token::RtBrace)));
}

#[test]
fn parser_test_cyr() {
    let src = r#"
    углоби "zadruga/sorte".

    сорта Доручак {
        тури јаја = бунар.

        (јаја) {
            ја:јаја = јаја.
        }

        посо испржи комада {
            ако (комада == 0 или комада == бунар) {
                бекни "Испржено #{јаја} комада".
            } иначе {
                бекни "Испржено #{комада} комада".
            }
        }
    }

    посо газда {
        тури оброк = Доручак(5).
        оброк:испржи(5).

        врни 0.
    }
    "#;

    let mut lex = Token::lexer(src);

    assert_eq!(lex.next(), Some(Ok(Token::Import)));
    assert_eq!(
        lex.next(),
        Some(Ok(Token::String("zadruga/sorte".to_string())))
    );
    assert_eq!(lex.next(), Some(Ok(Token::Dot)));
    assert_eq!(lex.next(), Some(Ok(Token::Class)));
    assert_eq!(
        lex.next(),
        Some(Ok(Token::Identifier("Доручак".to_string())))
    );
    assert_eq!(lex.next(), Some(Ok(Token::LtBrace)));
    assert_eq!(lex.next(), Some(Ok(Token::Let)));
    assert_eq!(lex.next(), Some(Ok(Token::Identifier("јаја".to_string()))));
    assert_eq!(lex.next(), Some(Ok(Token::Assignment)));
    assert_eq!(lex.next(), Some(Ok(Token::Null)));
    assert_eq!(lex.next(), Some(Ok(Token::Dot)));
    assert_eq!(lex.next(), Some(Ok(Token::LtParen)));
    assert_eq!(lex.next(), Some(Ok(Token::Identifier("јаја".to_string()))));
    assert_eq!(lex.next(), Some(Ok(Token::RtParen)));
    assert_eq!(lex.next(), Some(Ok(Token::LtBrace)));
    assert_eq!(lex.next(), Some(Ok(Token::This)));
    assert_eq!(lex.next(), Some(Ok(Token::ScopeResolution)));
    assert_eq!(lex.next(), Some(Ok(Token::Identifier("јаја".to_string()))));
    assert_eq!(lex.next(), Some(Ok(Token::Assignment)));
    assert_eq!(lex.next(), Some(Ok(Token::Identifier("јаја".to_string()))));
    assert_eq!(lex.next(), Some(Ok(Token::Dot)));
    assert_eq!(lex.next(), Some(Ok(Token::RtBrace)));
    assert_eq!(lex.next(), Some(Ok(Token::Function)));
    assert_eq!(
        lex.next(),
        Some(Ok(Token::Identifier("испржи".to_string())))
    );
    assert_eq!(
        lex.next(),
        Some(Ok(Token::Identifier("комада".to_string())))
    );
    assert_eq!(lex.next(), Some(Ok(Token::LtBrace)));
    assert_eq!(lex.next(), Some(Ok(Token::If)));
    assert_eq!(lex.next(), Some(Ok(Token::LtParen)));
    assert_eq!(
        lex.next(),
        Some(Ok(Token::Identifier("комада".to_string())))
    );
    assert_eq!(lex.next(), Some(Ok(Token::Equals)));
    assert_eq!(lex.next(), Some(Ok(Token::Integer(0))));
    assert_eq!(lex.next(), Some(Ok(Token::Or)));
    assert_eq!(
        lex.next(),
        Some(Ok(Token::Identifier("комада".to_string())))
    );
    assert_eq!(lex.next(), Some(Ok(Token::Equals)));
    assert_eq!(lex.next(), Some(Ok(Token::Null)));
    assert_eq!(lex.next(), Some(Ok(Token::RtParen)));
    assert_eq!(lex.next(), Some(Ok(Token::LtBrace)));
    assert_eq!(lex.next(), Some(Ok(Token::Print)));
    assert_eq!(
        lex.next(),
        Some(Ok(Token::String("Испржено #{јаја} комада".to_string())))
    );
    assert_eq!(lex.next(), Some(Ok(Token::Dot)));
    assert_eq!(lex.next(), Some(Ok(Token::RtBrace)));
    assert_eq!(lex.next(), Some(Ok(Token::Else)));
    assert_eq!(lex.next(), Some(Ok(Token::LtBrace)));
    assert_eq!(lex.next(), Some(Ok(Token::Print)));
    assert_eq!(
        lex.next(),
        Some(Ok(Token::String("Испржено #{комада} комада".to_string())))
    );
    assert_eq!(lex.next(), Some(Ok(Token::Dot)));
    assert_eq!(lex.next(), Some(Ok(Token::RtBrace)));
    assert_eq!(lex.next(), Some(Ok(Token::RtBrace)));
    assert_eq!(lex.next(), Some(Ok(Token::RtBrace)));
    assert_eq!(lex.next(), Some(Ok(Token::Function)));
    assert_eq!(lex.next(), Some(Ok(Token::Main)));
    assert_eq!(lex.next(), Some(Ok(Token::LtBrace)));
    assert_eq!(lex.next(), Some(Ok(Token::Let)));
    assert_eq!(lex.next(), Some(Ok(Token::Identifier("оброк".to_string()))));
    assert_eq!(lex.next(), Some(Ok(Token::Assignment)));
    assert_eq!(
        lex.next(),
        Some(Ok(Token::Identifier("Доручак".to_string())))
    );
    assert_eq!(lex.next(), Some(Ok(Token::LtParen)));
    assert_eq!(lex.next(), Some(Ok(Token::Integer(5))));
    assert_eq!(lex.next(), Some(Ok(Token::RtParen)));
    assert_eq!(lex.next(), Some(Ok(Token::Dot)));
    assert_eq!(lex.next(), Some(Ok(Token::Identifier("оброк".to_string()))));
    assert_eq!(lex.next(), Some(Ok(Token::ScopeResolution)));
    assert_eq!(
        lex.next(),
        Some(Ok(Token::Identifier("испржи".to_string())))
    );
    assert_eq!(lex.next(), Some(Ok(Token::LtParen)));
    assert_eq!(lex.next(), Some(Ok(Token::Integer(5))));
    assert_eq!(lex.next(), Some(Ok(Token::RtParen)));
    assert_eq!(lex.next(), Some(Ok(Token::Dot)));
    assert_eq!(lex.next(), Some(Ok(Token::Return)));
    assert_eq!(lex.next(), Some(Ok(Token::Integer(0))));
    assert_eq!(lex.next(), Some(Ok(Token::Dot)));
    assert_eq!(lex.next(), Some(Ok(Token::RtBrace)));
}
