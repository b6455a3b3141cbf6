//! Whole-second wall-clock reads relative to the configured epoch, waiting
//! for the next second boundary, and rendering an absolute second as text.
//!
//! The wall clock is the one source of nondeterminism in the allocator, so
//! the reading is taken behind a trusted wrapper that promises nothing about
//! its value; everything downstream is verified for every reading.

use chrono::TimeZone;
use vstd::prelude::*;

use crate::codec::IdGeneratorExtendedConfig;

verus! {

/// Upper bound on the seconds handed to the RFC 3339 renderer, comfortably
/// inside the range chrono can represent (about year 255000).
pub const MAX_RENDERABLE_SECOND: u64 = 8_000_000_000_000;

/// The RFC 3339 rendering, in UTC, of a second count since the Unix epoch; a
/// function of that count alone.
pub uninterp spec fn rfc3339_of(unix_seconds: i64) -> Seq<char>;

/// Relies on `chrono::Utc::now` and `chrono::DateTime::timestamp`: the
/// current wall-clock time as whole seconds since the Unix epoch. Nothing is
/// promised of the reading: the system clock may be set to anything, and two
/// reads may differ arbitrarily. Like the wall-clock reads of every program
/// on this host, it aborts if the system clock is set before 1970 (and, via
/// `Utc::now`'s internal conversion, past chrono's calendar range around the
/// year 262000).
#[verifier::external_body]
fn wall_unix_seconds() -> (r: i64) {
    chrono::Utc::now().timestamp()
}

/// Relies on `chrono::TimeZone::timestamp_opt` and
/// `chrono::DateTime::to_rfc3339`: the RFC 3339 text of a Unix second, in
/// UTC, which depends on the second alone. The bound keeps the second inside
/// chrono's representable range, where `timestamp_opt` returns a single
/// value.
#[verifier::external_body]
fn format_rfc3339(unix_seconds: i64) -> (r: String)
    requires
        0 <= unix_seconds <= MAX_RENDERABLE_SECOND,
    ensures
        r@ == rfc3339_of(unix_seconds),
{
    chrono::Utc.timestamp_opt(unix_seconds, 0).unwrap().to_rfc3339()
}

/// The timestamp a wall-clock reading denotes under a layout: seconds since
/// the epoch, clamped to 0 at or below the epoch (a regressed clock, see the
/// startup validation) and to `max_timestamp` beyond the field's range, so
/// that every reading can be packed.
pub open spec fn spec_timestamp_of(config: IdGeneratorExtendedConfig, wall: i64) -> u64 {
    if wall <= 0 {
        0
    } else if wall as u64 <= config.epoch_start_second {
        0
    } else if wall as u64 - config.epoch_start_second <= config.max_timestamp {
        (wall as u64 - config.epoch_start_second) as u64
    } else {
        config.max_timestamp
    }
}

/// Renders one wall-clock reading, in seconds since the Unix epoch, as the
/// timestamp it denotes relative to the configured epoch; exact.
pub fn timestamp_from_wall(config: &IdGeneratorExtendedConfig, wall: i64) -> (r: u64)
    ensures
        r == spec_timestamp_of(*config, wall),
        r <= config.max_timestamp,
{
    if wall <= 0 {
        return 0;
    }
    let wall_seconds = wall as u64;
    if wall_seconds <= config.epoch_start_second {
        return 0;
    }
    let since_epoch = wall_seconds - config.epoch_start_second;
    if since_epoch <= config.max_timestamp {
        since_epoch
    } else {
        config.max_timestamp
    }
}

/// Reads the wall clock and renders it relative to the configured epoch. The
/// reading itself is nondeterministic, so all that can be promised is that
/// the result denotes *some* reading, clamped as `spec_timestamp_of` says;
/// everything downstream is verified for every value a reading can denote.
pub fn get_current_timestamp(config: &IdGeneratorExtendedConfig) -> (r: u64)
    ensures
        r <= config.max_timestamp,
        exists|wall: i64| r == spec_timestamp_of(*config, wall),
{
    let wall = wall_unix_seconds();
    let r = timestamp_from_wall(config, wall);
    proof {
        assert(r == spec_timestamp_of(*config, wall));
    }
    r
}

/// Blocks until the wall clock leaves the second it showed on entry, by
/// polling the clock. The poll count is bounded so that the loop provably
/// terminates even on a frozen clock; the budget is far beyond anything a
/// running clock can exhaust.
pub fn wait_for_next_second() {
    let start = wall_unix_seconds();
    let mut fuel: u64 = 0xffff_ffff_ffff_ffff;
    while fuel > 0
        decreases fuel,
    {
        let now = wall_unix_seconds();
        if now != start {
            return;
        }
        fuel = fuel - 1;
    }
}

/// The text of a packed timestamp as an absolute RFC 3339 instant: the epoch
/// plus the field value, rendered in UTC.
pub fn render_timestamp(epoch_start_second: u64, timestamp: u64) -> (r: String)
    requires
        epoch_start_second + timestamp <= MAX_RENDERABLE_SECOND,
    ensures
        r@ == rfc3339_of((epoch_start_second + timestamp) as i64),
{
    let absolute = epoch_start_second + timestamp;
    format_rfc3339(absolute as i64)
}

} // verus!
