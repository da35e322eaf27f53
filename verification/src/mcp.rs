//! What the tool server decides without doing any input or output: where
//! a request goes, and what each tool computes from its arguments.

pub mod protocol;
pub mod tools;
