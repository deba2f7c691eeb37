//! An OpenNebula XML-RPC API binding.
//!
//! The heart of the crate is the template document model: a lexer and parser
//! for the attribute=value template language, an in-memory document of pairs
//! and vectors, a bidirectional adapter between documents and labelled trees,
//! and a bitfield codec for resource permissions.

pub mod client;
pub mod errors;
pub mod numbers;
pub mod parameters;
pub mod permissions;
pub mod rpc;
pub mod template;
pub mod template_builder;
pub mod tree;
pub mod vm;

mod seq_lemmas;
mod strutil;
