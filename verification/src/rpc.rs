//! Decoding the XML-RPC response envelopes the remote service returns.
//!
//! A response carries a success flag followed by a payload: a result body
//! or an error message for body responses, a numeric identifier for
//! allocation responses.

use crate::errors::Errors;
use vstd::prelude::*;

verus! {

/// `serde_xmlrpc::Value`: one argument of a remote call, carried
/// opaquely.
#[verifier::external_type_specification]
#[verifier::external_body]
pub struct ExValue(serde_xmlrpc::Value);

/// An XML-RPC transport: hands a method name and arguments to the remote
/// service and returns the raw response body.
pub trait RPCCaller {
    fn call(&self, name: &str, args: Vec<serde_xmlrpc::Value>) -> Result<String, Errors>;
}

/// What `serde_xmlrpc::response_from_str` decodes a response body to when
/// it is read as a (flag, text) parameter pair; `Err` stands for every
/// decoding failure.
pub uninterp spec fn xmlrpc_body_response(s: Seq<char>) -> Result<(bool, Seq<char>), ()>;

/// What `serde_xmlrpc::response_from_str` decodes a response body to when
/// it is read as a (flag, identifier) parameter pair; `Err` stands for
/// every decoding failure.
pub uninterp spec fn xmlrpc_id_response(s: Seq<char>) -> Result<(bool, i32), ()>;

/// Relies on `serde_xmlrpc::response_from_str::<(bool, String)>`: decodes
/// a method response's flag and text parameters; the result depends on
/// the input text alone.
#[verifier::external_body]
fn response_bool_string(raw: &str) -> (r: Result<(bool, String), serde_xmlrpc::Error>)
    ensures
        match r {
            Ok(p) => xmlrpc_body_response(raw@) == Ok::<(bool, Seq<char>), ()>((p.0, p.1@)),
            Err(_) => xmlrpc_body_response(raw@) is Err,
        },
{
    serde_xmlrpc::response_from_str::<(bool, String)>(raw)
}

/// Relies on `serde_xmlrpc::response_from_str::<(bool, i32)>`: decodes a
/// method response's flag and identifier parameters; the result depends
/// on the input text alone.
#[verifier::external_body]
fn response_bool_i32(raw: &str) -> (r: Result<(bool, i32), serde_xmlrpc::Error>)
    ensures
        match r {
            Ok(p) => xmlrpc_id_response(raw@) == Ok::<(bool, i32), ()>(p),
            Err(_) => xmlrpc_id_response(raw@) is Err,
        },
{
    serde_xmlrpc::response_from_str::<(bool, i32)>(raw)
}

/// The identifier an allocation response carries. A response whose flag
/// is false is re-read as a body response to recover the service's error
/// message.
pub fn parse_id_resp(raw: &str) -> (r: Result<i32, Errors>)
    ensures
        match r {
            Ok(id) => xmlrpc_id_response(raw@) == Ok::<(bool, i32), ()>((true, id)),
            Err(e) => match e {
                Errors::XMLRPC(_) => xmlrpc_id_response(raw@) is Err || ({
                    &&& xmlrpc_id_response(raw@) matches Ok(p)
                    &&& !p.0
                    &&& xmlrpc_body_response(raw@) is Err
                }),
                Errors::OpenNebula(msg) => ({
                    &&& xmlrpc_id_response(raw@) matches Ok(p)
                    &&& !p.0
                    &&& xmlrpc_body_response(raw@) matches Ok(q)
                    &&& q.1 == msg@
                }),
                _ => false,
            },
        },
{
    let first = match response_bool_i32(raw) {
        Ok(p) => p,
        Err(e) => return Err(Errors::XMLRPC(e)),
    };
    if first.0 {
        Ok(first.1)
    } else {
        match response_bool_string(raw) {
            Ok(q) => Err(Errors::OpenNebula(q.1)),
            Err(e) => Err(Errors::XMLRPC(e)),
        }
    }
}

/// The body a successful response carries; a response whose flag is
/// false yields the service's error message instead.
pub fn parse_body_resp(raw: &str) -> (r: Result<String, Errors>)
    ensures
        match r {
            Ok(body) => xmlrpc_body_response(raw@) == Ok::<(bool, Seq<char>), ()>((true, body@)),
            Err(e) => match e {
                Errors::XMLRPC(_) => xmlrpc_body_response(raw@) is Err,
                Errors::OpenNebula(msg) => xmlrpc_body_response(raw@) == Ok::<
                    (bool, Seq<char>),
                    (),
                >((false, msg@)),
                _ => false,
            },
        },
{
    match response_bool_string(raw) {
        Ok(p) => if p.0 {
            Ok(p.1)
        } else {
            Err(Errors::OpenNebula(p.1))
        },
        Err(e) => Err(Errors::XMLRPC(e)),
    }
}

/// Whether a response reports success; a response whose flag is false
/// yields the service's error message.
pub fn parse_resp(raw: &str) -> (r: Result<(), Errors>)
    ensures
        match r {
            Ok(()) => xmlrpc_body_response(raw@) matches Ok(p) && p.0,
            Err(e) => match e {
                Errors::XMLRPC(_) => xmlrpc_body_response(raw@) is Err,
                Errors::OpenNebula(msg) => xmlrpc_body_response(raw@) == Ok::<
                    (bool, Seq<char>),
                    (),
                >((false, msg@)),
                _ => false,
            },
        },
{
    match response_bool_string(raw) {
        Ok(p) => if p.0 {
            Ok(())
        } else {
            Err(Errors::OpenNebula(p.1))
        },
        Err(e) => Err(Errors::XMLRPC(e)),
    }
}

} // verus!
