//! The commands carried by the replicated log and their answers.
use vstd::prelude::*;

verus! {

pub type NodeId = u64;

/// A command of the replicated log: a write to apply, or a read.
#[derive(Debug, Clone)]
pub enum Request {
    Write { sql: String },
    Read { sql: String },
}

/// The answer to a command; writes answer with their row count as text.
#[derive(Debug, Clone)]
pub struct Response {
    pub value: Option<String>,
}

} // verus!
