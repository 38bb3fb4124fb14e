use vstd::prelude::*;

pub mod headers;
pub mod method;
pub mod parse_error;
pub mod request;
pub mod request_text;
pub mod response;
pub mod status_code;
pub mod text;

verus! {

} // verus!
