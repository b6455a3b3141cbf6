//! Startup configuration as the allocator receives it: a completed struct of
//! plain values. Loading these values from files or the environment is the
//! embedding program's concern.

use vstd::prelude::*;

verus! {

/// Raw identifier-generator configuration: field widths in bits, the epoch
/// and the reserve policy depth.
#[derive(Clone, Copy, Debug)]
pub struct IdGenConfig {
    pub instance_id: u64,
    pub timestamp_bits: u8,
    pub counter_bits: u8,
    pub instance_id_bits: u8,
    pub domain_id_bits: u8,
    pub epoch_start_second: u64,
    pub reserved_seconds_count: u64,
}

/// Whole-application configuration; the identifier generator's section is all
/// there is.
#[derive(Clone, Copy, Debug)]
pub struct AppConfig {
    pub idgen: IdGenConfig,
}

} // verus!
