//! Budget-constrained primer assembly for a code-intelligence daemon, with
//! the query decisions that surround it: filters, lock levels, relationship
//! lookups and the directory map.

pub mod text;
pub mod tier;
pub mod catalog;
pub mod select;
pub mod primer;
pub mod laws;
pub mod queries;
pub mod map;
