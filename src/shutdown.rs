use std::sync::atomic::{AtomicBool, Ordering};
use std::sync::Arc;
use vstd::prelude::*;

verus! {

/// A shutdown signal shared between the service and the server loop.
pub struct ServerShutdown {
    pub flag: Arc<AtomicBool>,
}

impl ServerShutdown {
    /// A signal that has not been raised.
    pub fn new() -> (r: Self) {
        ServerShutdown { flag: Arc::new(AtomicBool::new(false)) }
    }

    /// Whether the signal has been raised.
    pub fn is_raised(&self) -> bool {
        self.flag.load(Ordering::SeqCst)
    }
}

} // verus!
