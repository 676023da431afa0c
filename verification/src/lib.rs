//! A parser for catalogs of tags.
//!
//! A catalog is a text of lines. A line in square brackets names a group, and
//! each line after it is one tag of that group:
//!
//! ```text
//! # a comment
//! [Generic]
//! red_hair female dress    # one tag, of three words
//! dancing fire smile
//!
//! [IDs]
//! 102349
//! ```
//!
//! [`TagParser`] holds such a text and the [`Group`]s parsed from it. What the
//! groups of a text are is defined in [`scan::parse_text`], line by line in
//! [`syntax::classify`]; [`laws`] holds what follows for every text.

pub mod error;
pub mod group;
pub mod laws;
pub mod lines;
pub mod parser;
pub mod scan;
pub mod syntax;
pub mod text;

pub use error::ParseError;
pub use group::Group;
pub use parser::TagParser;
pub use scan::parse_groups;
