//! A lint engine for a corpus of linked markdown pages: it builds the table
//! of aliases, and reports similar filenames, aliases claimed twice,
//! wikilinks that lead nowhere and plain text that should be a wikilink.
//! Every analysis is verified against its contract.
pub mod config;
pub mod document;
pub mod error;
pub mod name;
pub mod ngrams;
pub mod pattern;
pub mod rules;
pub mod run;
pub mod sed;
pub mod strmap;
pub mod text;
pub mod wikilink;

pub use run::{check, OutputReport};
