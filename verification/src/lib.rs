//! Mantras, the bhasyas that explain them and the anusrits that refer to
//! them: the parser that draws them out of a corpus of text files, and the
//! rules that a corpus and the shastras it follows have to keep.

pub mod text;
pub mod segment;
pub mod model;
pub mod scan;
pub mod parser;
pub mod template;
pub mod findings;
pub mod validate;
pub mod rules;
pub mod own_rules;
pub mod followed;
pub mod report;
pub mod config;
pub mod files;
pub mod laws;
pub mod values;
pub mod canon;
pub mod canon_check;
pub mod status;
pub mod segment_laws;
