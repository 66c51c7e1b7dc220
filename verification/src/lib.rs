//! Entry-centric org-mode TODO handling: scanning headlines, reading and
//! writing planning timestamps, and the week agenda.

pub mod agenda;
pub mod browser;
pub mod calendar;
pub mod dates;
pub mod edit_laws;
pub mod keys;
pub mod laws;
pub mod parser;
pub mod picker;
pub mod scanner;
pub mod text;
pub mod types;
pub mod writer;
