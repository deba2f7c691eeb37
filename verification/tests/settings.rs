use roca::client::ClientXMLRPC;
use roca::errors::{Errors, Expected};
use roca::parameters::UpdateType;
use roca::template::token::Tokens;
use roca::vm::Action;

#[test]
fn client_keeps_credentials_and_endpoint() {
    let client = ClientXMLRPC::new(
        String::from("oneadmin:secret"),
        String::from("http://localhost:2633/RPC2"),
    );
    assert_eq!(client.auth(), "oneadmin:secret");
    assert_eq!(client.endpoint(), "http://localhost:2633/RPC2");
}

#[test]
fn update_type_wire_values() {
    assert_eq!(UpdateType::Replace.value(), 0);
    assert_eq!(UpdateType::Merge.value(), 1);
}

#[test]
fn error_messages() {
    assert_eq!(
        Errors::NotFound(String::from("K")).message(),
        "roca: key wasn't found: K"
    );
    assert_eq!(
        Errors::HasChilds(String::from("K")).message(),
        "roca: this node has childs: K"
    );
    assert_eq!(
        Errors::ParseInt(String::from("x1")).message(),
        "roca: failed to parse as integer: x1"
    );
    assert_eq!(
        Errors::Parser(Tokens::Eof, Expected::Assign).message(),
        "roca: parser error: unexpected token, expect assignment"
    );
    assert_eq!(
        Errors::OpenNebula(String::from("denied")).message(),
        "roca: OpenNebula error: denied"
    );
    assert_eq!(
        Errors::Roca(String::from("oops")).message(),
        "roca library internal error: oops"
    );
}

#[test]
fn parse_template_text_entry_point() {
    let doc = roca::template::parser::parse_template_text("a = b").unwrap();
    assert_eq!(doc.get("a").unwrap(), "b");
    assert!(roca::template::parser::parse_template_text("a =").is_err());
}

#[test]
fn action_wire_names() {
    assert_eq!(Action::Terminate.as_str(), "terminate");
    assert_eq!(Action::TerminateHard.as_str(), "terminate-hard");
    assert_eq!(Action::PowerOffHard.as_str(), "poweroff-hard");
    assert_eq!(Action::Resume.as_str(), "resume");
    assert_eq!(Action::UnResched.as_str(), "unresched");
}
