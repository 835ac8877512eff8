//! An incremental JSON tokenizer for complete, in-memory byte buffers.
//!
//! The tokenizer scans a caller-supplied buffer once, front to back, and
//! hands out one lexical token per call: structural markers for objects and
//! arrays, property names, and scalar literals classified into `Null`,
//! `True`, `False` or a raw `Literal` span. It never builds a document tree
//! and owns nothing beyond its cursor, state and nesting depth.
pub mod laws;
pub mod reader;
pub mod scan;
pub mod token;
pub mod tokenizer;

pub use token::JsonError;
pub use token::JsonToken;
pub use tokenizer::JsonTokenizer;
pub use reader::property_literal;
