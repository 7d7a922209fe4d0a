//! Tag markers in the chapters of a book: each marker becomes a link to an
//! index page, and the index page lists, alias by alias, the chapters that
//! carry it.

pub mod chapter;
pub mod config;
pub mod index;
pub mod links;
pub mod markdown;
pub mod order;
pub mod page;
pub mod paths;
pub mod preprocessor;
pub mod tag;
pub mod tagger;
pub mod text;

pub use crate::chapter::{Chapter, TagError};
pub use crate::index::TagIndex;
pub use crate::preprocessor::TagPreprocessor;
pub use crate::tag::{AliasedTag, Tag};
pub use crate::tagger::Tagger;
