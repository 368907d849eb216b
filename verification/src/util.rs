use vstd::prelude::*;

verus! {

/// A long-lived component that owns its state and runs on its own once
/// started; implementors live with the event loop, outside this library.
pub trait Actor {
    fn start(self);
}

} // verus!
