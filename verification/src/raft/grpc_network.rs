//! The gRPC side of the Raft network: endpoints and connection attempts.
use vstd::prelude::*;
use crate::server::spec_normalize_http_addr;
use crate::text::str_starts_with;

verus! {

/// Makes the network clients of a Raft node.
#[derive(Debug, Clone, Copy)]
pub struct RaftGrpcNetworkFactory;

impl RaftGrpcNetworkFactory {
    pub fn new() -> (r: Self) {
        RaftGrpcNetworkFactory
    }
}

/// A peer endpoint with an `http://` scheme unless it already has one.
pub fn normalize_endpoint(addr: &str) -> (r: String)
    ensures
        r@ == spec_normalize_http_addr(addr@),
{
    if str_starts_with(addr, "http://") || str_starts_with(addr, "https://") {
        String::from_str(addr)
    } else {
        let mut out = String::from_str("http://");
        out.append(addr);
        out
    }
}

/// How many times a connection is tried: at least once.
pub fn connect_attempts(attempts: usize) -> (r: usize)
    ensures
        r == if attempts > 1 {
            attempts
        } else {
            1
        },
        r >= 1,
{
    if attempts > 1 {
        attempts
    } else {
        1
    }
}

} // verus!
