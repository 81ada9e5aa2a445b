use vstd::prelude::*;

pub mod config;
pub mod connection;
pub mod database;
pub mod error;
pub mod json;
pub mod printer;
pub mod process;
pub mod row;
pub mod strmap;
pub mod table;
pub mod text;

verus! {

} // verus!

