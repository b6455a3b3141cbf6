//! The validated bit-field layout and the bit-exact packing and unpacking of
//! the 64-bit identifier word.
//!
//! The packed word holds, most significant first, `timestamp`, `instance_id`,
//! `counter` and `domain`; the widths sum to at most 63 bits, so the top bit
//! of every identifier is clear. Packing is modelled as positional arithmetic
//! over powers of two: the executable shift-and-or code is proved equal to
//! that model, and the model is proved invertible.

use vstd::arithmetic::div_mod::{lemma_fundamental_div_mod_converse, lemma_small_mod};
use vstd::arithmetic::power2::{
    lemma2_to64_rest, lemma_pow2_adds, lemma_pow2_pos, lemma_pow2_strictly_increases, pow2,
};
use vstd::bits::{
    lemma_u64_low_bits_mask_is_mod, lemma_u64_pow2_no_overflow, lemma_u64_shl_is_mul,
    lemma_u64_shr_is_div, low_bits_mask,
};
use vstd::prelude::*;

use crate::config::IdGenConfig;

verus! {

/// Largest value that fits in `bits` bits: `2^bits - 1`. Meaningful for
/// widths up to 63.
pub open spec fn max_for_bits(bits: u8) -> u64 {
    (pow2(bits as nat) - 1) as u64
}

/// Lexicographic order on `(timestamp, counter)` pairs.
pub open spec fn pair_lt(t1: u64, c1: u64, t2: u64, c2: u64) -> bool {
    t1 < t2 || (t1 == t2 && c1 < c2)
}

impl IdGenConfig {
    /// Sum of the four configured field widths.
    pub open spec fn bits_total(&self) -> int {
        self.timestamp_bits + self.counter_bits + self.instance_id_bits + self.domain_id_bits
    }

    /// The configuration describes a usable layout: the packed word leaves
    /// the top bit clear, the per-domain state table is addressable, and this
    /// replica's instance id fits its field.
    pub open spec fn valid_layout(&self) -> bool {
        &&& self.bits_total() <= 63
        &&& max_for_bits(self.domain_id_bits) as int + 1 <= usize::MAX as int
        &&& self.instance_id <= max_for_bits(self.instance_id_bits)
    }
}

/// The layout with its derived maxima, immutable after construction.
#[derive(Clone, Copy, Debug)]
pub struct IdGeneratorExtendedConfig {
    pub instance_id: u64,
    pub timestamp_bits: u8,
    pub counter_bits: u8,
    pub instance_id_bits: u8,
    pub domain_id_bits: u8,
    pub epoch_start_second: u64,
    pub reserved_seconds_count: u64,
    pub max_timestamp: u64,
    pub max_instance_id: u64,
    pub max_counter_value: u64,
    pub max_domain: u64,
}

/// One identifier's four fields as plain values.
#[derive(Clone, Copy, Debug, PartialEq, Eq, Structural)]
pub struct IdParams {
    pub timestamp: u64,
    pub counter: u64,
    pub instance_id: u64,
    pub domain: u64,
}

impl IdGeneratorExtendedConfig {
    /// Well-formedness: widths sum to at most 63, every maximum is derived
    /// from its width, the instance id fits, and the state table for
    /// `max_domain + 1` domains is addressable.
    pub open spec fn wf(&self) -> bool {
        &&& self.timestamp_bits + self.counter_bits + self.instance_id_bits + self.domain_id_bits
            <= 63
        &&& self.max_timestamp == max_for_bits(self.timestamp_bits)
        &&& self.max_instance_id == max_for_bits(self.instance_id_bits)
        &&& self.max_counter_value == max_for_bits(self.counter_bits)
        &&& self.max_domain == max_for_bits(self.domain_id_bits)
        &&& self.instance_id <= self.max_instance_id
        &&& self.max_domain as int + 1 <= usize::MAX as int
    }

    /// The extended configuration that `new` derives from a raw one.
    pub open spec fn spec_of(config: IdGenConfig) -> IdGeneratorExtendedConfig {
        IdGeneratorExtendedConfig {
            instance_id: config.instance_id,
            timestamp_bits: config.timestamp_bits,
            counter_bits: config.counter_bits,
            instance_id_bits: config.instance_id_bits,
            domain_id_bits: config.domain_id_bits,
            epoch_start_second: config.epoch_start_second,
            reserved_seconds_count: config.reserved_seconds_count,
            max_timestamp: max_for_bits(config.timestamp_bits),
            max_instance_id: max_for_bits(config.instance_id_bits),
            max_counter_value: max_for_bits(config.counter_bits),
            max_domain: max_for_bits(config.domain_id_bits),
        }
    }

    /// Packing as positional arithmetic: the word is read as a base-2^width
    /// composition of the four fields, most significant first.
    pub open spec fn spec_encode(&self, p: IdParams) -> int {
        ((p.timestamp * pow2(self.instance_id_bits as nat) + p.instance_id) * pow2(
            self.counter_bits as nat,
        ) + p.counter) * pow2(self.domain_id_bits as nat) + p.domain
    }

    /// Unpacking: strip fields least significant first by division and
    /// remainder; the timestamp keeps only its own width's bits.
    pub open spec fn spec_decode(&self, encoded: u64) -> IdParams {
        let pd = pow2(self.domain_id_bits as nat) as int;
        let pc = pow2(self.counter_bits as nat) as int;
        let pi = pow2(self.instance_id_bits as nat) as int;
        let pt = pow2(self.timestamp_bits as nat) as int;
        IdParams {
            timestamp: (encoded as int / pd / pc / pi % pt) as u64,
            counter: (encoded as int / pd % pc) as u64,
            instance_id: (encoded as int / pd / pc % pi) as u64,
            domain: (encoded as int % pd) as u64,
        }
    }

    /// Builds the layout from a raw configuration, deriving the four maxima.
    pub fn new(config: &IdGenConfig) -> (r: IdGeneratorExtendedConfig)
        requires
            config.valid_layout(),
        ensures
            r == IdGeneratorExtendedConfig::spec_of(*config),
            r.wf(),
    {
        let result = IdGeneratorExtendedConfig {
            instance_id: config.instance_id,
            timestamp_bits: config.timestamp_bits,
            counter_bits: config.counter_bits,
            instance_id_bits: config.instance_id_bits,
            domain_id_bits: config.domain_id_bits,
            epoch_start_second: config.epoch_start_second,
            reserved_seconds_count: config.reserved_seconds_count,
            max_timestamp: Self::calculate_max_value_for_bits(config.timestamp_bits),
            max_instance_id: Self::calculate_max_value_for_bits(config.instance_id_bits),
            max_counter_value: Self::calculate_max_value_for_bits(config.counter_bits),
            max_domain: Self::calculate_max_value_for_bits(config.domain_id_bits),
        };
        result
    }

    /// Decides the startup invariants, given the current wall-clock reading
    /// in seconds since the Unix epoch: the derived maxima are consistent
    /// with the widths, the widths sum to at most 63, the state table is
    /// addressable, the instance id fits, and the epoch lies in the past.
    pub fn validate(&self, wall_unix_seconds: i64) -> (r: bool)
        ensures
            r == (self.wf() && 0 < self.epoch_start_second && 0 <= wall_unix_seconds
                && self.epoch_start_second <= wall_unix_seconds as u64),
    {
        let bits_count: u32 = 0u32 + self.timestamp_bits as u32 + self.counter_bits as u32
            + self.instance_id_bits as u32 + self.domain_id_bits as u32;
        if bits_count > 63 {
            return false;
        }
        let max_usize: u64 = usize::MAX as u64;
        self.max_timestamp == Self::calculate_max_value_for_bits(self.timestamp_bits)
            && self.max_instance_id == Self::calculate_max_value_for_bits(self.instance_id_bits)
            && self.max_counter_value == Self::calculate_max_value_for_bits(self.counter_bits)
            && self.max_domain == Self::calculate_max_value_for_bits(self.domain_id_bits)
            && self.instance_id <= self.max_instance_id && self.max_domain <= max_usize - 1
            && self.epoch_start_second > 0 && wall_unix_seconds >= 0 && self.epoch_start_second
            <= wall_unix_seconds as u64
    }

    /// `2^bits_count - 1`, the largest value a field of that width can hold.
    pub fn calculate_max_value_for_bits(bits_count: u8) -> (r: u64)
        requires
            bits_count <= 63,
        ensures
            r == max_for_bits(bits_count),
    {
        proof {
            lemma_u64_pow2_no_overflow(bits_count as nat);
            lemma_u64_shl_is_mul(1u64, bits_count as u64);
            lemma_pow2_pos(bits_count as nat);
        }
        (1u64 << bits_count) - 1
    }
}

impl IdParams {
    /// Every field fits the width its layout gives it.
    pub open spec fn in_range(&self, c: IdGeneratorExtendedConfig) -> bool {
        &&& self.timestamp <= c.max_timestamp
        &&& self.counter <= c.max_counter_value
        &&& self.instance_id <= c.max_instance_id
        &&& self.domain <= c.max_domain
    }

    /// Packs the four fields into one word by repeated shift-and-or, in the
    /// order timestamp, instance, counter, domain.
    pub fn encode(&self, config: &IdGeneratorExtendedConfig) -> (r: u64)
        requires
            config.wf(),
            self.in_range(*config),
        ensures
            r as int == config.spec_encode(*self),
            r < 0x8000_0000_0000_0000u64,
    {
        proof {
            lemma_encode_in_range(*config, *self);
            lemma_pow2_pos(config.timestamp_bits as nat);
            lemma_max_for_bits_val(config.timestamp_bits);
            lemma2_to64_rest();
        }
        let mut result = 0u64;
        result = IdParams::encode_part(
            result,
            self.timestamp,
            config.max_timestamp,
            config.timestamp_bits,
        );
        result = IdParams::encode_part(
            result,
            self.instance_id,
            config.max_instance_id,
            config.instance_id_bits,
        );
        result = IdParams::encode_part(
            result,
            self.counter,
            config.max_counter_value,
            config.counter_bits,
        );
        result = IdParams::encode_part(result, self.domain, config.max_domain, config.domain_id_bits);
        return result;
    }

    /// Unpacks a word by stripping fields least significant first: domain,
    /// counter, instance, then timestamp.
    pub fn decode(encoded: u64, config: &IdGeneratorExtendedConfig) -> (r: IdParams)
        requires
            config.wf(),
        ensures
            r == config.spec_decode(encoded),
    {
        let src = encoded;
        let (domain, src) = IdParams::decode_part(src, config.max_domain, config.domain_id_bits);
        let (counter, src) = IdParams::decode_part(
            src,
            config.max_counter_value,
            config.counter_bits,
        );
        let (instance_id, src) = IdParams::decode_part(
            src,
            config.max_instance_id,
            config.instance_id_bits,
        );
        let (timestamp, _src) = IdParams::decode_part(
            src,
            config.max_timestamp,
            config.timestamp_bits,
        );
        IdParams { timestamp, counter, instance_id, domain }
    }

    /// Shifts `bits` zeros onto the low end of `target` and fills them with
    /// `value`: one positional-arithmetic step `target * 2^bits + value`.
    pub fn encode_part(target: u64, value: u64, mask: u64, bits: u8) -> (r: u64)
        requires
            bits <= 63,
            mask == max_for_bits(bits),
            value <= mask,
            target as int * pow2(bits as nat) as int + value as int <= u64::MAX as int,
        ensures
            r as int == target as int * pow2(bits as nat) as int + value as int,
    {
        proof {
            lemma_max_for_bits_val(bits);
            lemma_u64_shl_is_mul(target, bits as u64);
            lemma_u64_shl_is_mul(1u64, bits as u64);
            lemma_u64_pow2_no_overflow(bits as nat);
            lemma_u64_low_bits_mask_is_mod(value, bits as nat);
            lemma_small_mod(value as nat, pow2(bits as nat));
            lemma_shl_or_is_add(target, value, bits as u64);
        }
        let masked = value & mask;
        return target << bits | masked;
    }

    /// Splits off the low `bits` bits of `src`: the field value and the
    /// remaining word `src / 2^bits`.
    pub fn decode_part(src: u64, mask: u64, bits: u8) -> (r: (u64, u64))
        requires
            bits <= 63,
            mask == max_for_bits(bits),
        ensures
            r.0 as int == src as int % pow2(bits as nat) as int,
            r.1 as int == src as int / pow2(bits as nat) as int,
    {
        proof {
            lemma_max_for_bits_val(bits);
            lemma_pow2_pos(bits as nat);
            lemma_u64_low_bits_mask_is_mod(src, bits as nat);
            lemma_u64_shr_is_div(src, bits as u64);
        }
        let value = src & mask;
        let remainder = src >> bits;
        return (value, remainder);
    }
}

/// On disjoint bit ranges, or-ing is addition: with `v` confined to the low
/// `b` bits that the shift left zeroed, the or carries nothing.
proof fn lemma_shl_or_is_add(t: u64, v: u64, b: u64)
    requires
        b < 64,
        v < (1u64 << b),
    ensures
        ((t << b) | v) as int == (t << b) as int + v as int,
{
    assert(((t << b) | v) as int == (t << b) as int + v as int) by (bit_vector)
        requires
            b < 64 && v < (1u64 << b),
    ;
}

/// One packing step keeps values in range: composing `x < a` with `y < b`
/// positionally stays below `a * b`.
proof fn lemma_pack_step_bound(x: int, y: int, a: int, b: int)
    by (nonlinear_arith)
    requires
        0 <= x < a,
        0 <= y < b,
    ensures
        0 <= x * b + y < a * b,
{
}

/// One packing step is strictly monotone in the lexicographic order of its
/// two parts.
proof fn lemma_pack_step_lt(x1: int, y1: int, x2: int, y2: int, b: int)
    by (nonlinear_arith)
    requires
        b > 0,
        0 <= x1,
        0 <= y1 < b,
        0 <= y2,
        x1 < x2 || (x1 == x2 && y1 < y2),
    ensures
        x1 * b + y1 < x2 * b + y2,
{
}

/// One unpacking step inverts one packing step.
proof fn lemma_unpack_step(x: int, y: int, b: int)
    requires
        b > 0,
        0 <= y < b,
        0 <= x,
    ensures
        (x * b + y) % b == y,
        (x * b + y) / b == x,
{
    lemma_fundamental_div_mod_converse(x * b + y, b, x, y);
}

/// In-range parameters pack below `2^63`: every intermediate composition and
/// the final word stay within the bits assigned to them.
pub proof fn lemma_encode_in_range(c: IdGeneratorExtendedConfig, p: IdParams)
    requires
        c.wf(),
        p.in_range(c),
    ensures
        0 <= (p.timestamp as int * pow2(c.instance_id_bits as nat) as int + p.instance_id as int),
        (p.timestamp as int * pow2(c.instance_id_bits as nat) as int + p.instance_id as int) < pow2(
            (c.timestamp_bits + c.instance_id_bits) as nat,
        ) as int,
        0 <= ((p.timestamp as int * pow2(c.instance_id_bits as nat) as int
            + p.instance_id as int) * pow2(c.counter_bits as nat) as int + p.counter as int),
        ((p.timestamp as int * pow2(c.instance_id_bits as nat) as int + p.instance_id as int)
            * pow2(c.counter_bits as nat) as int + p.counter as int) < pow2(
            (c.timestamp_bits + c.instance_id_bits + c.counter_bits) as nat,
        ) as int,
        (p.timestamp as int * pow2(c.instance_id_bits as nat) as int + p.instance_id as int)
            <= u64::MAX as int,
        ((p.timestamp as int * pow2(c.instance_id_bits as nat) as int + p.instance_id as int)
            * pow2(c.counter_bits as nat) as int + p.counter as int) <= u64::MAX as int,
        0 <= c.spec_encode(p),
        c.spec_encode(p) < pow2(
            (c.timestamp_bits + c.instance_id_bits + c.counter_bits + c.domain_id_bits) as nat,
        ) as int,
        c.spec_encode(p) < pow2(63) as int,
        c.spec_encode(p) <= u64::MAX as int,
{
    let tb = c.timestamp_bits as nat;
    let ib = c.instance_id_bits as nat;
    let cb = c.counter_bits as nat;
    let db = c.domain_id_bits as nat;
    lemma_max_for_bits_val(c.timestamp_bits);
    lemma_max_for_bits_val(c.instance_id_bits);
    lemma_max_for_bits_val(c.counter_bits);
    lemma_max_for_bits_val(c.domain_id_bits);
    lemma_pack_step_bound(
        p.timestamp as int,
        p.instance_id as int,
        pow2(tb) as int,
        pow2(ib) as int,
    );
    lemma_pow2_adds(tb, ib);
    lemma_pack_step_bound(
        p.timestamp as int * pow2(ib) as int + p.instance_id as int,
        p.counter as int,
        pow2(tb + ib) as int,
        pow2(cb) as int,
    );
    lemma_pow2_adds(tb + ib, cb);
    lemma_pack_step_bound(
        (p.timestamp as int * pow2(ib) as int + p.instance_id as int) * pow2(cb) as int
            + p.counter as int,
        p.domain as int,
        pow2(tb + ib + cb) as int,
        pow2(db) as int,
    );
    lemma_pow2_adds(tb + ib + cb, db);
    if tb + ib < 63 {
        lemma_pow2_strictly_increases(tb + ib, 63);
    }
    if tb + ib + cb < 63 {
        lemma_pow2_strictly_increases(tb + ib + cb, 63);
    }
    if tb + ib + cb + db < 63 {
        lemma_pow2_strictly_increases(tb + ib + cb + db, 63);
    }
    lemma2_to64_rest();
}

/// Round trip: unpacking a packed in-range parameter set returns it exactly.
pub proof fn lemma_decode_encode(c: IdGeneratorExtendedConfig, p: IdParams)
    requires
        c.wf(),
        p.in_range(c),
    ensures
        c.spec_decode(c.spec_encode(p) as u64) == p,
{
    let tb = c.timestamp_bits as nat;
    let ib = c.instance_id_bits as nat;
    let cb = c.counter_bits as nat;
    let db = c.domain_id_bits as nat;
    let a = p.timestamp as int * pow2(ib) as int + p.instance_id as int;
    let b = a * pow2(cb) as int + p.counter as int;
    let w = b * pow2(db) as int + p.domain as int;
    lemma_encode_in_range(c, p);
    lemma_max_for_bits_val(c.timestamp_bits);
    lemma_max_for_bits_val(c.instance_id_bits);
    lemma_max_for_bits_val(c.counter_bits);
    lemma_max_for_bits_val(c.domain_id_bits);
    assert((c.spec_encode(p) as u64) as int == w);
    lemma_pack_step_bound(p.timestamp as int, p.instance_id as int, pow2(tb) as int, pow2(ib) as int);
    lemma_pack_step_bound(a, p.counter as int, pow2(tb + ib) as int, pow2(cb) as int);
    lemma_unpack_step(b, p.domain as int, pow2(db) as int);
    lemma_unpack_step(a, p.counter as int, pow2(cb) as int);
    lemma_unpack_step(p.timestamp as int, p.instance_id as int, pow2(ib) as int);
    lemma_small_mod(p.timestamp as nat, pow2(tb));
}

/// No high bit: every in-range parameter set packs below `2^63`, so bit 63
/// of the emitted word is clear.
pub proof fn lemma_encode_high_bit_clear(c: IdGeneratorExtendedConfig, p: IdParams)
    requires
        c.wf(),
        p.in_range(c),
    ensures
        c.spec_encode(p) < pow2(63) as int,
        (c.spec_encode(p) as u64) & 0x8000_0000_0000_0000u64 == 0,
        (c.spec_encode(p) as u64) >> 63u64 == 0,
{
    lemma_encode_in_range(c, p);
    lemma2_to64_rest();
    let w = c.spec_encode(p) as u64;
    assert(w & 0x8000_0000_0000_0000u64 == 0 && w >> 63u64 == 0) by (bit_vector)
        requires
            w < 0x8000_0000_0000_0000u64,
    ;
}

/// Packing is strictly monotone: with the instance and domain fixed, a
/// lexicographically greater `(timestamp, counter)` pair packs to a strictly
/// greater word.
pub proof fn lemma_encode_lt(c: IdGeneratorExtendedConfig, p1: IdParams, p2: IdParams)
    requires
        c.wf(),
        p1.in_range(c),
        p2.in_range(c),
        p1.instance_id == p2.instance_id,
        p1.domain == p2.domain,
        pair_lt(p1.timestamp, p1.counter, p2.timestamp, p2.counter),
    ensures
        c.spec_encode(p1) < c.spec_encode(p2),
{
    let ib = c.instance_id_bits as nat;
    let cb = c.counter_bits as nat;
    let db = c.domain_id_bits as nat;
    lemma_max_for_bits_val(c.instance_id_bits);
    lemma_max_for_bits_val(c.counter_bits);
    lemma_max_for_bits_val(c.domain_id_bits);
    lemma_pow2_pos(ib);
    lemma_pow2_pos(cb);
    lemma_pow2_pos(db);
    let a1 = p1.timestamp as int * pow2(ib) as int + p1.instance_id as int;
    let a2 = p2.timestamp as int * pow2(ib) as int + p2.instance_id as int;
    let b1 = a1 * pow2(cb) as int + p1.counter as int;
    let b2 = a2 * pow2(cb) as int + p2.counter as int;
    if p1.timestamp < p2.timestamp {
        lemma_pack_step_lt(
            p1.timestamp as int,
            p1.instance_id as int,
            p2.timestamp as int,
            p2.instance_id as int,
            pow2(ib) as int,
        );
        lemma_pack_step_lt(a1, p1.counter as int, a2, p2.counter as int, pow2(cb) as int);
    } else {
        assert(a1 == a2);
        lemma_pack_step_lt(a1, p1.counter as int, a2, p2.counter as int, pow2(cb) as int);
    }
    lemma_pack_step_lt(b1, p1.domain as int, b2, p2.domain as int, pow2(db) as int);
}

/// Whatever the word, its unpacked fields fit the layout: every 64-bit word
/// is a valid packed value.
pub proof fn lemma_decode_in_range(c: IdGeneratorExtendedConfig, w: u64)
    requires
        c.wf(),
    ensures
        c.spec_decode(w).in_range(c),
{
    lemma_max_for_bits_val(c.timestamp_bits);
    lemma_max_for_bits_val(c.instance_id_bits);
    lemma_max_for_bits_val(c.counter_bits);
    lemma_max_for_bits_val(c.domain_id_bits);
    lemma_pow2_pos(c.timestamp_bits as nat);
    lemma_pow2_pos(c.instance_id_bits as nat);
    lemma_pow2_pos(c.counter_bits as nat);
    lemma_pow2_pos(c.domain_id_bits as nat);
}

/// A field at least one bit wide can hold at least the value 1.
pub proof fn lemma_max_for_bits_at_least_one(bits: u8)
    requires
        1 <= bits <= 63,
    ensures
        max_for_bits(bits) >= 1,
{
    lemma_max_for_bits_val(bits);
    vstd::arithmetic::power2::lemma2_to64();
    if bits > 1 {
        lemma_pow2_strictly_increases(1, bits as nat);
    }
}

/// The exact value of `max_for_bits` over the integers, and its bound.
pub proof fn lemma_max_for_bits_val(bits: u8)
    requires
        bits <= 63,
    ensures
        max_for_bits(bits) as int == pow2(bits as nat) - 1,
        max_for_bits(bits) < 0x8000_0000_0000_0000u64,
        max_for_bits(bits) as int == low_bits_mask(bits as nat),
{
    lemma_u64_pow2_no_overflow(bits as nat);
    lemma_pow2_pos(bits as nat);
    if bits < 63 {
        lemma_pow2_strictly_increases(bits as nat, 63);
    }
    lemma2_to64_rest();
}

} // verus!
