//! The one remote operation the supervisor exposes.

use vstd::prelude::*;

use crate::service::Bundle;

verus! {

/// An observer's view into the supervisor: one operation, answering the
/// current full snapshot.  The serving side implements this over the
/// aggregator's guarded state; a transport carries the bundle to remote
/// callers in one of the two wire encodings.
pub trait Insight {
    /// Answer the current snapshot.
    fn get_data(&mut self) -> Bundle;
}

} // verus!
