use vstd::prelude::*;

pub mod ids;
pub mod text;
pub mod note;
pub mod title;
pub mod similar;
pub mod sqlite;
pub mod error;
pub mod repository;
pub mod notebook;
pub mod document;
pub mod prompt;

verus! {

} // verus!
