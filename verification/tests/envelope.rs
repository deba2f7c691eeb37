use roca::errors::Errors;
use roca::rpc::{parse_body_resp, parse_id_resp, parse_resp};

fn body_response(flag: &str, text: &str) -> String {
    format!(
        "<?xml version=\"1.0\" encoding=\"utf-8\"?>\n<methodResponse><params><param><value><array><data>\n<value><boolean>{}</boolean></value>\n<value><string>{}</string></value>\n</data></array></value></param></params></methodResponse>",
        flag, text
    )
}

fn id_response(flag: &str, id: i32) -> String {
    format!(
        "<?xml version=\"1.0\" encoding=\"utf-8\"?>\n<methodResponse><params><param><value><array><data>\n<value><boolean>{}</boolean></value>\n<value><i4>{}</i4></value>\n</data></array></value></param></params></methodResponse>",
        flag, id
    )
}

#[test]
fn body_resp_success() {
    let raw = body_response("1", "RESULT BODY");
    assert_eq!(parse_body_resp(&raw).unwrap(), "RESULT BODY");
}

#[test]
fn body_resp_service_failure() {
    let raw = body_response("0", "no permission");
    match parse_body_resp(&raw) {
        Err(Errors::OpenNebula(msg)) => assert_eq!(msg, "no permission"),
        other => panic!("unexpected result: {:?}", other),
    }
}

#[test]
fn body_resp_undecodable() {
    assert!(matches!(
        parse_body_resp("this is not xml"),
        Err(Errors::XMLRPC(_))
    ));
}

#[test]
fn id_resp_success() {
    let raw = id_response("1", 42);
    assert_eq!(parse_id_resp(&raw).unwrap(), 42);
}

#[test]
fn id_resp_undecodable() {
    assert!(parse_id_resp("<methodResponse></methodResponse>").is_err());
}

#[test]
fn plain_resp_success_and_failure() {
    assert!(parse_resp(&body_response("1", "ok")).is_ok());
    assert!(matches!(
        parse_resp(&body_response("0", "boom")),
        Err(Errors::OpenNebula(_))
    ));
}
