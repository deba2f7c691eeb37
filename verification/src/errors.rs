//! The error values that the library's operations return.

use crate::template::token::Tokens;
use vstd::prelude::*;

verus! {

/// `serde_xmlrpc::Error` carried opaquely inside [`Errors::XMLRPC`].
#[verifier::external_type_specification]
#[verifier::external_body]
pub struct ExXmlRpcError(serde_xmlrpc::Error);

/// The grammar category the parser expected at the point of a parse error.
#[derive(Debug, Clone, Copy, PartialEq, Eq, Structural)]
pub enum Expected {
    /// an identifier starting an entry or a group member
    Ident,
    /// the `=` between a key and its value
    Assign,
    /// an identifier, string or number token, or `[` opening a group
    Value,
    /// the `,` between group members, or `]` closing the group
    Comma,
}

/// Every failure the library reports.
#[derive(Debug)]
pub enum Errors {
    /// A requested key has no match where at least one was required.
    NotFound(String),
    /// A requested key has more matches than the accessor's contract allows.
    HasChilds(String),
    /// Text found where an integer was expected; carries the text.
    ParseInt(String),
    /// The parser met the carried token where it expected the carried category.
    Parser(Tokens, Expected),
    /// The remote service reported the carried failure message.
    OpenNebula(String),
    /// The XML-RPC envelope could not be decoded.
    XMLRPC(serde_xmlrpc::Error),
    /// An internal failure outside the other kinds; carries a message.
    Roca(String),
}

/// The word naming each expected grammar category.
pub open spec fn expected_text(ex: Expected) -> Seq<char> {
    match ex {
        Expected::Ident => "ident"@,
        Expected::Assign => "assignment"@,
        Expected::Value => "ident or string or number or bracket"@,
        Expected::Comma => "comma"@,
    }
}

/// The human-readable text of each error.
pub open spec fn error_text(e: Errors) -> Seq<char> {
    match e {
        Errors::NotFound(k) => "roca: key wasn't found: "@ + k@,
        Errors::HasChilds(k) => "roca: this node has childs: "@ + k@,
        Errors::ParseInt(t) => "roca: failed to parse as integer: "@ + t@,
        Errors::Parser(_, ex) => "roca: parser error: unexpected token, expect "@ + expected_text(
            ex,
        ),
        Errors::OpenNebula(m) => "roca: OpenNebula error: "@ + m@,
        Errors::XMLRPC(_) => "roca: XML-RPC error"@,
        Errors::Roca(m) => "roca library internal error: "@ + m@,
    }
}

impl Expected {
    /// The word naming the category.
    pub fn as_str(&self) -> (r: &'static str)
        ensures
            r@ == expected_text(*self),
    {
        match self {
            Expected::Ident => "ident",
            Expected::Assign => "assignment",
            Expected::Value => "ident or string or number or bracket",
            Expected::Comma => "comma",
        }
    }
}

impl Errors {
    /// The error rendered as one line of text.
    pub fn message(&self) -> (r: String)
        ensures
            r@ == error_text(*self),
    {
        let mut s = String::new();
        match self {
            Errors::NotFound(k) => {
                s.append("roca: key wasn't found: ");
                s.append(k.as_str());
            },
            Errors::HasChilds(k) => {
                s.append("roca: this node has childs: ");
                s.append(k.as_str());
            },
            Errors::ParseInt(t) => {
                s.append("roca: failed to parse as integer: ");
                s.append(t.as_str());
            },
            Errors::Parser(_, ex) => {
                s.append("roca: parser error: unexpected token, expect ");
                s.append(ex.as_str());
            },
            Errors::OpenNebula(m) => {
                s.append("roca: OpenNebula error: ");
                s.append(m.as_str());
            },
            Errors::XMLRPC(_) => {
                s.append("roca: XML-RPC error");
            },
            Errors::Roca(m) => {
                s.append("roca library internal error: ");
                s.append(m.as_str());
            },
        }
        s
    }
}

} // verus!
