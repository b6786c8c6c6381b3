//! A scanner/parser for the "ley" nested text notation.
//!
//! The notation is built on *counted fences*: a block opens with a run of N
//! identical characters and closes at the first run of exactly N matching
//! closing characters, so content may contain shorter runs of the fence
//! character freely.  A block is `!..! name :..: structure { nested }` or
//! `!..! name :..: structure [ raw text ]`; a `;..;` terminator in place of
//! `:..:` marks a comment block, which is scanned but elided from the result.
//!
//! Input is a byte buffer; every parsed piece of text is reported as a
//! [`Span`], an index range into that buffer, so nothing is copied
//! during the scan.

mod error;
mod ley;
pub mod laws;
pub mod model;
mod parse;

pub use error::Error;
pub use ley::{Content, Ley, LeyLine, Span, Structure};
pub use model::{ContentModel, LineModel, SpanModel};
pub use parse::Parser;
