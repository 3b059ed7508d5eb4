//! Classify identifiers by naming case and render them in other cases.

pub mod shape;
pub mod case;
pub mod filter;
pub mod words;
pub mod convertor;

pub use case::{classify, classify_hungarian, tag_of, NamingCase, Tag};
pub use convertor::{join, render, Convertor};
pub use filter::Filter;
