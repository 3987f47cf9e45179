//! Content pipeline of a Bible reader: the catalog of books, the scanner that
//! turns a verse-tagged document into verses, the resolution of the
//! translation index, and the store that caches what was parsed.

pub mod abbreviation;
pub mod catalog;
pub mod chain;
pub mod chapters;
pub mod data;
pub mod elements;
pub mod entries;
pub mod index;
pub mod kept;
pub mod keys;
pub mod markup;
pub mod observed;
pub mod osis;
pub mod service;
pub mod text;
pub mod textmap;
pub mod types;
pub mod xml;
