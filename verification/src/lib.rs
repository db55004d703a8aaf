//! Verified core of a Markdown note-taking editor with math sheets.

pub mod text;
pub mod edtui;
pub mod highlight;
pub mod style;
pub mod links;
pub mod markdown;
pub mod math;
pub mod version;
pub mod editing;
pub mod terminal;
pub mod currency;
pub mod keys;
pub mod notebook;
