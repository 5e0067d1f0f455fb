use vstd::prelude::*;

verus! {

/// An error of the benchmark, carried as a descriptive message.
#[derive(Debug)]
pub struct DiskioError(pub String);

} // verus!
