//! Extraction of attribute values from XML feeds: the elements that sit at a
//! configured tag path give the value of a configured attribute, in document order.

pub mod path;
pub mod extract;
pub mod scanner;
