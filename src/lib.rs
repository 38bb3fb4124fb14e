use vstd::prelude::*;

pub mod http;
pub mod middleware;
pub mod routing;
pub mod server;
pub mod static_files;
pub mod table;

verus! {

} // verus!
