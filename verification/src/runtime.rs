//! Per-pool runtime parameters: how many worker threads each named task
//! pool of the process runs with, with its built-in defaults.

use vstd::prelude::*;

verus! {

/// A greeting a type can announce itself with; implementors print or
/// log who they are.
pub trait Hello {
    fn hello();
}

/// The parameters of one runtime task pool.
#[derive(Clone, Copy, Debug)]
pub struct MyParams {
    pub threads: usize,
}

impl Default for MyParams {
    /// One worker thread unless configured otherwise.
    fn default() -> (r: Self)
        ensures
            r.threads == 1,
    {
        MyParams { threads: 1 }
    }
}

/// The runtime task pools the process distinguishes: one for
/// application work, one for network work.
#[derive(Hash, PartialEq, Eq, Clone, Copy, Debug, Structural)]
pub enum MyRuntime {
    Application,
    Network,
}

impl MyRuntime {
    /// The built-in thread count of this pool.
    pub open spec fn spec_threads(self) -> usize {
        match self {
            MyRuntime::Application => 1,
            MyRuntime::Network => 2,
        }
    }

    /// The parameters this pool starts with: its built-in thread count.
    pub fn params(&self) -> (p: MyParams)
        ensures
            p.threads == self.spec_threads(),
    {
        match self {
            MyRuntime::Application => MyParams { threads: 1 },
            MyRuntime::Network => MyParams { threads: 2 },
        }
    }
}

} // verus!
