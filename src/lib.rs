//! Deep merge of configuration documents and resolution of the `((name arg...))`
//! operator expressions embedded in their string scalars.

pub mod text;
pub mod expr;
pub mod data;
pub mod operators;
pub mod path;
pub mod engine;
