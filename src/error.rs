use vstd::prelude::*;

verus! {

/// What can go wrong in a lookup.
#[derive(Debug)]
pub enum LookupError {
    /// The endpoint is not a URL, or the endpoint or the query is too long for one.
    UrlConstruction,
    /// The transport failed; its message is kept as it came.
    Transport(String),
    /// The body is not JSON of the expected shape; the body is kept for diagnosis.
    Decode { message: String, body: String },
}

} // verus!
