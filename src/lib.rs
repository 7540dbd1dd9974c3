//! Unicode-scalar-value level random access and editing over text.
//!
//! Text is held as a `Vec<char>` (a sequence) or a `&[char]` (a view on one),
//! so that every index and length counts scalar values, never bytes.
pub mod model;
pub mod normal;
pub mod search;
pub mod edit;
pub mod replace;
pub mod text;
