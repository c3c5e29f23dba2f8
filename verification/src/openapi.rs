//! The OpenAPI document of the HTTP API; its content is generated where the
//! server is built.
use vstd::prelude::*;

verus! {

/// Handle of the API's OpenAPI description.
pub struct ApiDoc;

} // verus!
