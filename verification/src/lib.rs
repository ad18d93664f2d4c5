//! A single-pass scanner for a small markdown-like syntax.
//!
//! [`start`] turns a string into a flat sequence of [`Token`]s: heading,
//! whitespace, newline, bold and italic markers first, in the order in which
//! they were recognised, then the runs of plain text that
//! [`characters_to_texts`] folds together out of single literal characters.
//!
//! Every executable function is specified against a mathematical model of the
//! scan (`model::scan`, `compactor::compact`); `laws` and `coverage` prove what
//! holds of every scan.

pub mod token;
pub mod compactor;
pub mod model;
pub mod laws;
pub mod coverage;
pub mod scanner;

pub use compactor::characters_to_texts;
pub use scanner::start;
pub use token::{Token, TokenType};
