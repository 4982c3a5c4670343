//! Entity Resource Names: typed, validated, hierarchical resource identifiers
//! of the form `ern:<domain>:<category>:<account>:<root>[/<part>...]`.
pub mod error;
pub mod text;
pub mod segment;
pub mod root;
pub mod parts;
pub mod ern;
pub mod parser;
pub mod builder;

pub use error::{Component, ErnError};
pub use segment::{Account, Category, Domain, Part};
pub use root::{Root, RootGenerator};
pub use parts::Parts;
pub use ern::Ern;
pub use parser::ErnParser;
pub use builder::ErnBuilder;
