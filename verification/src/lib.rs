//! A minimal document-rendering pipeline: a tolerant markup tokenizer
//! ([`parser`]), a tree builder that recovers from malformed nesting
//! ([`dom`]), and a block-flow layout engine ([`layout`]) that turns the
//! node tree into positioned paint boxes for a renderer to consume.
//! [`laws`] holds the engine-wide theorems, [`images`] the decoded-image
//! store that keeps file reading out of the core.

pub mod attrs;
pub mod dom;
pub mod images;
pub mod laws;
pub mod layout;
pub mod parser;
pub mod text;
