pub mod error;
pub mod query;
pub mod query_parameters;
