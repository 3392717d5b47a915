//! Classification of documents into configured categories.
//!
//! The library holds the logic of the pipeline: the category schema and its
//! validation, the policy that decides which entries are read, the
//! normalisation of extracted text, the rendering of the prompt, and the
//! validation of the model's answer.

pub mod classify;
pub mod entry;
pub mod extract;
pub mod prompt;
pub mod schema;
pub mod validate;
