use roca::errors::{Errors, Expected};
use roca::template::parser::Parser;
use roca::template::token::Tokens;

#[test]
fn generate_template_complex() {
    let mut parser = Parser::new(
        r#"
            name = toto
	p1 = "it's a\\nfirst string"

	p2=12
	SUNSTONE = [
    DEFAULT_VIEW = "cloud",
GROUP_ADMIN_DEFAULT_VIEW="groupadmin",
    group_admin_views="\\"12\\"", VIEWS=cloud,

	p3 = v3
], p4 = v4"#,
    );

    let template = parser.parse();
    println!("parse result: {:?}", template);

    assert!(template.is_ok());
    let template = template.unwrap();
    let name = template.get("name");
    assert!(name.is_ok());
    assert_eq!(name.unwrap(), "toto");

    let p1 = template.get("p1");
    assert!(p1.is_ok());
    assert_eq!(p1.unwrap(), "it's a\\\\nfirst string");

    let p2 = template.get("p2");
    assert!(p2.is_ok());
    assert_eq!(p2.unwrap(), "12");

    let vec = template.get_vector("SUNSTONE");
    assert!(vec.is_ok());
    let vec = vec.unwrap();

    let default_view = vec.get_str("DEFAULT_VIEW");
    assert!(default_view.is_ok());
    assert_eq!(default_view.unwrap(), "cloud");

    let group_admin_default_view = vec.get_str("GROUP_ADMIN_DEFAULT_VIEW");
    assert!(group_admin_default_view.is_ok());
    assert_eq!(group_admin_default_view.unwrap(), "groupadmin");

    let group_admin_views = vec.get_str("group_admin_views");
    assert!(group_admin_views.is_ok());
    assert_eq!(group_admin_views.unwrap(), "\\\\\"12\\\\\"");

    let views = vec.get_str("VIEWS");
    assert!(views.is_ok());
    assert_eq!(views.unwrap(), "cloud");

    let p3 = vec.get_str("p3");
    assert!(p3.is_ok());
    assert_eq!(p3.unwrap(), "v3");

    let p4 = template.get("p4");
    assert!(p4.is_ok());
    assert_eq!(p4.unwrap(), "v4");
}

#[test]
fn parser_generate_template_complex() {
    let mut parser = Parser::new(
        r#"
            name = toto
	p1 = "it's a\\nfirst string"

	p2=12
	SUNSTONE = [
    DEFAULT_VIEW = "cloud",
GROUP_ADMIN_DEFAULT_VIEW="groupadmin",
    group_admin_views="\\"12\\"", VIEWS=cloud,

	p3 = v3
], p4 = v4"#,
    );

    let template = parser.parse();

    assert!(template.is_ok());
    let template = template.unwrap();
    let name = template.get_str("name");
    assert!(name.is_ok());
    assert_eq!(name.unwrap(), "toto");

    let p1 = template.get_str("p1");
    assert!(p1.is_ok());
    assert_eq!(p1.unwrap(), "it's a\\\\nfirst string");

    let p2 = template.get_str("p2");
    assert!(p2.is_ok());
    assert_eq!(p2.unwrap(), "12");

    let vec = template.get_vector("SUNSTONE");
    assert!(vec.is_ok());
    let vec = vec.unwrap();

    let default_view = vec.get_str("DEFAULT_VIEW");
    assert!(default_view.is_ok());
    assert_eq!(default_view.unwrap(), "cloud");

    let group_admin_default_view = vec.get_str("GROUP_ADMIN_DEFAULT_VIEW");
    assert!(group_admin_default_view.is_ok());
    assert_eq!(group_admin_default_view.unwrap(), "groupadmin");

    let group_admin_views = vec.get_str("group_admin_views");
    assert!(group_admin_views.is_ok());
    assert_eq!(group_admin_views.unwrap(), "\\\\\"12\\\\\"");

    let views = vec.get_str("VIEWS");
    assert!(views.is_ok());
    assert_eq!(views.unwrap(), "cloud");

    let p3 = vec.get_str("p3");
    assert!(p3.is_ok());
    assert_eq!(p3.unwrap(), "v3");

    let p4 = template.get_str("p4");
    assert!(p4.is_ok());
    assert_eq!(p4.unwrap(), "v4");
}

#[test]
fn parser_flat_pairs() {
    let mut parser = Parser::new("name = toto\np2=12");
    let template = parser.parse().unwrap();
    assert_eq!(template.get("name").unwrap(), "toto");
    assert_eq!(template.get("p2").unwrap(), "12");
    assert_eq!(template.get_i64("p2").unwrap(), 12);
}

#[test]
fn parser_group_members() {
    let mut parser = Parser::new(r#"SUNSTONE = [ DEFAULT_VIEW = "cloud", VIEWS=cloud ]"#);
    let template = parser.parse().unwrap();
    let vec = template.get_vector("SUNSTONE").unwrap();
    assert_eq!(vec.1.len(), 2);
    assert_eq!(vec.get_str("DEFAULT_VIEW").unwrap(), "cloud");
    assert_eq!(vec.get_str("VIEWS").unwrap(), "cloud");
}

#[test]
fn parser_empty_group() {
    let mut parser = Parser::new("E = []");
    let template = parser.parse().unwrap();
    let vec = template.get_vector("E").unwrap();
    assert_eq!(vec.1.len(), 0);
}

#[test]
fn parser_keeps_duplicate_keys() {
    let mut parser = Parser::new("k = 1\nk = 2");
    let template = parser.parse().unwrap();
    assert_eq!(template.get("k").unwrap(), "1");
}

#[test]
fn parser_expects_assignment() {
    let mut parser = Parser::new("name");
    assert!(matches!(
        parser.parse(),
        Err(Errors::Parser(Tokens::Eof, Expected::Assign))
    ));
}

#[test]
fn parser_expects_value() {
    let mut parser = Parser::new("name =");
    assert!(matches!(
        parser.parse(),
        Err(Errors::Parser(Tokens::Eof, Expected::Value))
    ));
    let mut parser = Parser::new("name = = b");
    assert!(matches!(
        parser.parse(),
        Err(Errors::Parser(Tokens::Assign, Expected::Value))
    ));
}

#[test]
fn parser_rejects_unclosed_group() {
    let mut parser = Parser::new("a = [ b = c");
    assert!(matches!(
        parser.parse(),
        Err(Errors::Parser(Tokens::Eof, Expected::Comma))
    ));
}

#[test]
fn parser_expects_member_ident_and_comma() {
    let mut parser = Parser::new("a = [ 5 ]");
    assert!(matches!(
        parser.parse(),
        Err(Errors::Parser(Tokens::Number(_), Expected::Ident))
    ));
    let mut parser = Parser::new("a = [ b c ]");
    assert!(matches!(
        parser.parse(),
        Err(Errors::Parser(Tokens::Ident(_), Expected::Assign))
    ));
    let mut parser = Parser::new("a = [ b = c d ]");
    assert!(matches!(
        parser.parse(),
        Err(Errors::Parser(Tokens::Ident(_), Expected::Comma))
    ));
}

#[test]
fn parser_stops_early_at_top_level() {
    let mut parser = Parser::new("a = b , c = d");
    let template = parser.parse().unwrap();
    assert_eq!(template.get("a").unwrap(), "b");
    assert!(template.get("c").is_err());
}

#[test]
fn parser_skips_comments() {
    let mut parser = Parser::new("# heading\na = b # trailing\nc = d");
    let template = parser.parse().unwrap();
    assert_eq!(template.get("a").unwrap(), "b");
    assert_eq!(template.get("c").unwrap(), "d");
}

#[test]
fn parser_ambiguous_vectors() {
    let mut parser = Parser::new("X=[a=1] X=[b=2]");
    let template = parser.parse().unwrap();
    assert!(matches!(
        template.get_vector("X"),
        Err(Errors::HasChilds(_))
    ));
}
