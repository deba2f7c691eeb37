use roca::template::lexer::Lexer;
use roca::template::token::Tokens;

#[test]
fn generate_token_complex() {
    let mut lex = Lexer::new(
        r#"
            name = toto
	p1 = "it's a\\nfirst string"

	p2=12
	SUNSTONE = [
    DEFAULT_VIEW = "cloud",
GROUP_ADMIN_DEFAULT_VIEW="groupadmin",
    group_admin_views="\\"12\\"", VIEWS=cloud,

	p3 = v3
]"#,
    );

    assert_eq!(lex.next_token(), Tokens::Ident("name".to_string()));
    assert_eq!(lex.next_token(), Tokens::Assign);
    assert_eq!(lex.next_token(), Tokens::Ident("toto".to_string()));
    assert_eq!(lex.next_token(), Tokens::Ident("p1".to_string()));
    assert_eq!(lex.next_token(), Tokens::Assign);
    assert_eq!(
        lex.next_token(),
        Tokens::String("it's a\\\\nfirst string".to_string())
    );
    assert_eq!(lex.next_token(), Tokens::Ident("p2".to_string()));
    assert_eq!(lex.next_token(), Tokens::Assign);
    assert_eq!(lex.next_token(), Tokens::Number("12".to_string()));
    assert_eq!(lex.next_token(), Tokens::Ident("SUNSTONE".to_string()));
    assert_eq!(lex.next_token(), Tokens::Assign);
    assert_eq!(lex.next_token(), Tokens::LSBracket);
    assert_eq!(lex.next_token(), Tokens::Ident("DEFAULT_VIEW".to_string()));
    assert_eq!(lex.next_token(), Tokens::Assign);
    assert_eq!(lex.next_token(), Tokens::String("cloud".to_string()));
    assert_eq!(lex.next_token(), Tokens::Comma);
    assert_eq!(
        lex.next_token(),
        Tokens::Ident("GROUP_ADMIN_DEFAULT_VIEW".to_string())
    );
    assert_eq!(lex.next_token(), Tokens::Assign);
    assert_eq!(lex.next_token(), Tokens::String("groupadmin".to_string()));
    assert_eq!(lex.next_token(), Tokens::Comma);
    assert_eq!(
        lex.next_token(),
        Tokens::Ident("group_admin_views".to_string())
    );
    assert_eq!(lex.next_token(), Tokens::Assign);
    assert_eq!(
        lex.next_token(),
        Tokens::String("\\\\\"12\\\\\"".to_string())
    );
    assert_eq!(lex.next_token(), Tokens::Comma);
    assert_eq!(lex.next_token(), Tokens::Ident("VIEWS".to_string()));
    assert_eq!(lex.next_token(), Tokens::Assign);
    assert_eq!(lex.next_token(), Tokens::Ident("cloud".to_string()));
    assert_eq!(lex.next_token(), Tokens::Comma);
    assert_eq!(lex.next_token(), Tokens::Ident("p3".to_string()));
    assert_eq!(lex.next_token(), Tokens::Assign);
    assert_eq!(lex.next_token(), Tokens::Ident("v3".to_string()));
    assert_eq!(lex.next_token(), Tokens::RSBracket);

    assert_eq!(lex.next_token(), Tokens::Eof);
}

#[test]
fn generate_token() {
    let mut lex = Lexer::new(
        r#"
            name = toto
	p1 = "it's a\\nfirst string"

	p2=12
	SUNSTONE = [
    DEFAULT_VIEW = "cloud",
GROUP_ADMIN_DEFAULT_VIEW="groupadmin",
    group_admin_views="\\"12\\"", VIEWS=cloud,

	p3 = v3
]"#,
    );

    println!("lexing...");

    assert_eq!(lex.next_token(), Tokens::Ident("name".to_string()));
    assert_eq!(lex.next_token(), Tokens::Assign);
    assert_eq!(lex.next_token(), Tokens::Ident("toto".to_string()));
    assert_eq!(lex.next_token(), Tokens::Ident("p1".to_string()));
    assert_eq!(lex.next_token(), Tokens::Assign);
    assert_eq!(
        lex.next_token(),
        Tokens::String("it's a\\\\nfirst string".to_string())
    );
    assert_eq!(lex.next_token(), Tokens::Ident("p2".to_string()));
    assert_eq!(lex.next_token(), Tokens::Assign);
    assert_eq!(lex.next_token(), Tokens::Number("12".to_string()));
    assert_eq!(lex.next_token(), Tokens::Ident("SUNSTONE".to_string()));
    assert_eq!(lex.next_token(), Tokens::Assign);
    assert_eq!(lex.next_token(), Tokens::LSBracket);
    assert_eq!(lex.next_token(), Tokens::Ident("DEFAULT_VIEW".to_string()));
    assert_eq!(lex.next_token(), Tokens::Assign);
    assert_eq!(lex.next_token(), Tokens::String("cloud".to_string()));
    assert_eq!(lex.next_token(), Tokens::Comma);
    assert_eq!(
        lex.next_token(),
        Tokens::Ident("GROUP_ADMIN_DEFAULT_VIEW".to_string())
    );
    assert_eq!(lex.next_token(), Tokens::Assign);
    assert_eq!(lex.next_token(), Tokens::String("groupadmin".to_string()));
    assert_eq!(lex.next_token(), Tokens::Comma);
    assert_eq!(
        lex.next_token(),
        Tokens::Ident("group_admin_views".to_string())
    );
    assert_eq!(lex.next_token(), Tokens::Assign);
    assert_eq!(
        lex.next_token(),
        Tokens::String("\\\\\"12\\\\\"".to_string())
    );
    assert_eq!(lex.next_token(), Tokens::Comma);
    assert_eq!(lex.next_token(), Tokens::Ident("VIEWS".to_string()));
    assert_eq!(lex.next_token(), Tokens::Assign);
    assert_eq!(lex.next_token(), Tokens::Ident("cloud".to_string()));
    assert_eq!(lex.next_token(), Tokens::Comma);
    assert_eq!(lex.next_token(), Tokens::Ident("p3".to_string()));
    assert_eq!(lex.next_token(), Tokens::Assign);
    assert_eq!(lex.next_token(), Tokens::Ident("v3".to_string()));
    assert_eq!(lex.next_token(), Tokens::RSBracket);

    assert_eq!(lex.next_token(), Tokens::Eof);
}

#[test]
fn lexer_reports_eof_forever() {
    let mut lex = Lexer::new("   ");
    assert_eq!(lex.next_token(), Tokens::Eof);
    assert_eq!(lex.next_token(), Tokens::Eof);
}

#[test]
fn lexer_reports_illegal_characters() {
    let mut lex = Lexer::new("?");
    assert_eq!(lex.next_token(), Tokens::Illegal('?'));
    assert_eq!(lex.next_token(), Tokens::Illegal('?'));
}

#[test]
fn lexer_reports_comments() {
    let mut lex = Lexer::new("# a note\nx");
    assert_eq!(lex.next_token(), Tokens::Comment);
    assert_eq!(lex.next_token(), Tokens::Ident("x".to_string()));
    assert_eq!(lex.next_token(), Tokens::Eof);
}

#[test]
fn lexer_preserves_string_escapes() {
    let mut lex = Lexer::new(r#""it's a\\nfirst string""#);
    assert_eq!(
        lex.next_token(),
        Tokens::String("it's a\\\\nfirst string".to_string())
    );
    assert_eq!(lex.next_token(), Tokens::Eof);
}

#[test]
fn lexer_splits_decimal_numbers() {
    let mut lex = Lexer::new("12.5");
    assert_eq!(lex.next_token(), Tokens::Number("12".to_string()));
    assert_eq!(lex.next_token(), Tokens::Illegal('.'));
}
