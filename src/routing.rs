use vstd::prelude::*;

pub mod router;

verus! {

} // verus!
