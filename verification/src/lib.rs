//! Incremental decoder for raw terminal input.
//!
//! The heart of the crate is [`reader::TokenReader`], which turns an
//! arbitrarily fragmented byte stream (as delivered by `read` on a raw-mode
//! terminal) into a sequence of typed tokens: decoded Unicode characters and
//! recognized cursor-movement escape sequences.  Around it sit the encoder
//! for outgoing escape sequences ([`token::StdoutEscSeq`]), a buffered
//! stdout front-end ([`stdout::TsStdout`]), and the length-prefixed datagram
//! framing used to ship debug text to a listener ([`frame`]).

pub mod decode;
pub mod err;
pub mod frame;
pub mod reader;
pub mod stdout;
pub mod token;
