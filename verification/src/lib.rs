//! An in-memory document tree for XML: nodes live in one arena and are named by
//! integer handles, so that every relation between nodes is plain data.

pub mod error;
pub mod name;
pub mod matcher;
pub mod node;
pub mod model;
pub mod dom;
pub mod factory;
pub mod seqs;
pub mod structure;
pub mod chardata;
pub mod attrs;
pub mod payload;
pub mod query;
pub mod normalize;
pub mod clone;
pub mod laws;
