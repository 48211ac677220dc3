use vstd::prelude::*;

pub mod capabilities;
pub mod dict;
pub mod json;
pub mod relational;
pub mod schema;
pub mod query;
pub mod error;
pub mod common;
pub mod text;
pub mod validate;
pub mod rowset;
pub mod schema_check;
pub mod urls;
pub mod versions;
pub mod reporter;
pub mod engine;
pub mod strings;
pub mod state;
pub mod semantics;
pub mod evaluate;
pub mod mutation;
pub mod reference;
pub mod fixture;
pub mod context;
pub mod random;
pub mod suite;
