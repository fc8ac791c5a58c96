//! A personal expense ledger: strict parsing of amounts and loose dates,
//! and a filtered store of records.

pub mod text;
pub mod date;
pub mod mapper;
pub mod evaluate;
pub mod model;
pub mod filter;
pub mod repo;
pub mod cli;
