//! A verified parser, data model and renderer for Valgrind suppression
//! files: brace-delimited blocks that name an error pattern, give it a
//! tool-specific category, and list an ordered sequence of stack-frame
//! matchers.

pub mod laws;
pub mod machine;
pub mod model;
pub mod parser;
pub mod render;
pub mod text;

pub use model::Frame;
pub use model::ParseError;
pub use model::Suppression;
pub use model::SuppressionType;
pub use model::Suppressions;
