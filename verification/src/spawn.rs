//! The capability that hands a unit of work to whatever executor runs the group.

use core::future::Future;
use vstd::prelude::*;

verus! {

/// Something that can start a unit of asynchronous work.
///
/// The work is fired and forgotten: nothing comes back, and a failure to schedule
/// it is the executor's concern.
pub trait Spawn {
    fn spawn(&self, future: impl Future<Output = ()> + Send + 'static);
}

} // verus!
