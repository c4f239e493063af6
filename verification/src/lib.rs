//! Sums the whole numbers written in a line of text.
//!
//! [`calculator::add`] is the entry point. The numbers stand between commas
//! and line breaks, or between occurrences of a delimiter that the text
//! announces in a first line of its own, after `//`. The modules [`text`] and
//! [`number`] hold the steps it is made of, [`error`] the error it returns,
//! and [`laws`] what is proved of it for every text.

pub mod calculator;
pub mod error;
pub mod laws;
pub mod number;
pub mod text;
