//! Request and response shapes of the two endpoints, as plain values. Their
//! wire encoding is the embedding program's concern.

use vstd::prelude::*;

verus! {

/// Query of the generate endpoint: how many identifiers per domain (absent
/// means 10), and which domains as a comma-separated list (absent means all).
#[derive(Debug)]
pub struct GenerateIdsRequest {
    pub count: Option<u32>,
    pub domains: Option<String>,
}

/// Query of the parse endpoint: the identifier word to unpack.
#[derive(Debug, Clone, Copy, PartialEq, Eq, Structural)]
pub struct ParseIdRequest {
    pub id: u64,
}

/// Response of the generate endpoint: one entry per requested domain.
#[derive(Debug)]
pub struct GenerateIdsResponse {
    pub ids_by_domain: Vec<IdsForDomain>,
}

/// One domain's batch.
#[derive(Debug)]
pub struct IdsForDomain {
    pub domain: u64,
    pub ids: Vec<u64>,
}

/// Response of the parse endpoint: the four unpacked fields, and the
/// timestamp also rendered as an absolute RFC 3339 instant.
#[derive(Debug)]
pub struct ParseIdResponse {
    pub domain: u64,
    pub timestamp: u64,
    pub decoded_timestamp: String,
    pub instance_id: u64,
    pub counter: u64,
}

} // verus!
