//! Fiber-based task scheduling, where every unit of work runs on a fiber of its own.

pub mod scheduler;

use vstd::prelude::*;

verus! {

/// Work that can run to completion on a fiber, producing an item or an error.
pub trait Future: 'static + Send {
    type Item: 'static + Send;
    type Error: 'static + Send;

    fn run(&mut self) -> Result<Self::Item, Self::Error>;
}

} // verus!
