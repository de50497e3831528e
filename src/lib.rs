//! A lenient markup reader: a scanner that turns text into position-tagged
//! tokens, and a tree builder that assembles those tokens into a forest of
//! elements, attributes and text leaves.

pub mod text;
pub mod tokenizer;
pub mod parser;

pub use parser::{Attribute, Element, Node, NodeKind, Parser};
pub use tokenizer::{Position, Span, Token, TokenKind, Tokenizer};
