use vstd::prelude::*;

verus! {

/// The threads of a parallel search.
pub struct SearchThreadPool {
    pub threads: Vec<SearchThread>,
}

/// A search thread: its number, the nodes it searched and when it started, in milliseconds.
pub struct SearchThread {
    pub id: usize,
    pub nodes: u64,
    pub start_time: u128,
}

} // verus!
