//! A client for a dictionary web service: builds the lookup URL, and turns the
//! service's answer into a raw or a decoded response.
pub mod client;
pub mod error;
pub mod json;
pub mod query;
pub mod response;

pub use client::{complete_lookup, finish_lookup, respond, YdClient};
pub use json::JsonValue;
pub use error::LookupError;
pub use query::QueryBuilder;
pub use response::{decode, YdEntry, YdResponse, YdWeb};
