//! A tiny just-in-time compiler for a two-dialect scripting language:
//! an arithmetic / let-binding expression dialect, and a dotted-path
//! navigation dialect over JSON-like documents. Scripts are parsed to an
//! AST, lowered to a small straight-line instruction form, and executed
//! against a stream of documents by the engine, which is specified and
//! proved against the dialects' evaluation semantics.
pub mod compiler;
pub mod doc;
pub mod driver;
pub mod expr;
pub mod jq;
pub mod laws;
pub mod parser;
pub mod std_lib;
pub mod text;
