//! The per-domain identifier allocator: the `(timestamp, counter)` state
//! machine with its seconds reserve, and the generator that owns one such
//! state per domain behind one lock per domain.
//!
//! The reserve policy: the logical timestamp is allowed to trail the wall
//! clock by up to `reserved_seconds_count` seconds, and a burst consumes
//! those trailing seconds one by one before the allocator ever blocks a
//! caller. Every emitted `(timestamp, counter)` pair is strictly greater,
//! lexicographically, than every pair emitted before it for the same domain,
//! with one exception at the very cap of the layout's timestamp range.

use vstd::prelude::*;
use vstd::rwlock::{RwLock, RwLockPredicate};

use crate::clock;
use crate::codec::{
    lemma_decode_encode, lemma_encode_lt, lemma_max_for_bits_at_least_one, pair_lt,
    IdGeneratorExtendedConfig, IdParams,
};
use crate::config::IdGenConfig;

verus! {

/// The one error the allocator surfaces: the requested domain is beyond the
/// layout's range.
#[derive(Debug, Clone, Copy, PartialEq, Eq, Structural)]
pub enum IdGenerationError {
    IncorrectDomain(usize),
}

impl IdGenerationError {
    /// A rendering of the error for logs and responses.
    pub fn message(&self) -> (r: String)
        ensures
            r@ == "incorrect domain"@,
    {
        match self {
            IdGenerationError::IncorrectDomain(_) => {
                <String as vstd::string::StringExecFns>::from_str("incorrect domain")
            },
        }
    }
}

/// A layout the state machine can emit under: well-formed, with at least one
/// counter value per second.
pub open spec fn supports_generation(c: IdGeneratorExtendedConfig) -> bool {
    c.wf() && c.max_counter_value >= 1
}

/// The pair at the very cap of the layout's range, from which no strictly
/// greater pair exists.
pub open spec fn pair_at_cap(c: IdGeneratorExtendedConfig, t: u64, ctr: u64) -> bool {
    t == c.max_timestamp && ctr == c.max_counter_value
}

/// How one refresh step may move the `(timestamp, counter)` pair: leave it,
/// advance the timestamp and reset the counter, or — only from the cap —
/// reset the counter in place.
pub open spec fn refresh_rel(
    c: IdGeneratorExtendedConfig,
    t0: u64,
    c0: u64,
    t1: u64,
    c1: u64,
) -> bool {
    ||| (t1 == t0 && c1 == c0)
    ||| (t1 > t0 && c1 == 0)
    ||| (pair_at_cap(c, t0, c0) && t1 == t0 && c1 == 0)
}

/// The refresh decision itself, as a function of the state and the clamped
/// clock reading `now` — the literal policy of the state machine. In order:
/// far behind the reading, jump to the earliest reserve second `now -
/// reserved_seconds_count`; a counter with room is left alone; a saturated
/// counter with reserve seconds available consumes one (`timestamp + 1`);
/// otherwise the executable step waits for the next wall second and takes
/// `timestamp + 1` — which equals the pre-wait reading plus one, since here
/// `now <= timestamp` — capped so the result still packs.
pub open spec fn spec_refresh(
    s: DomainStateHolder,
    now: u64,
    c: IdGeneratorExtendedConfig,
) -> DomainStateHolder {
    let delta: int = if now >= s.timestamp {
        now - s.timestamp
    } else {
        0
    };
    if delta > c.reserved_seconds_count {
        DomainStateHolder {
            domain: s.domain,
            timestamp: (now - c.reserved_seconds_count) as u64,
            counter: 0,
        }
    } else if s.counter < c.max_counter_value {
        s
    } else if delta > 0 {
        DomainStateHolder { domain: s.domain, timestamp: (s.timestamp + 1) as u64, counter: 0 }
    } else if s.timestamp < c.max_timestamp {
        DomainStateHolder { domain: s.domain, timestamp: (s.timestamp + 1) as u64, counter: 0 }
    } else {
        DomainStateHolder { domain: s.domain, timestamp: s.timestamp, counter: 0 }
    }
}

/// The next pair to emit from a state: the counter takes its next value.
pub open spec fn spec_bump(s: DomainStateHolder) -> DomainStateHolder {
    DomainStateHolder { domain: s.domain, timestamp: s.timestamp, counter: (s.counter + 1) as u64 }
}

/// The per-domain state a batch identifier witnesses: its decoded pair.
pub open spec fn decoded_state(
    c: IdGeneratorExtendedConfig,
    domain: u64,
    w: u64,
) -> DomainStateHolder {
    DomainStateHolder {
        domain,
        timestamp: c.spec_decode(w).timestamp,
        counter: c.spec_decode(w).counter,
    }
}

/// How one emission follows the one before it: while the counter has room it
/// steps by one within the same second; from a saturated pair, a refresh
/// against some clock reading intervenes first.
pub open spec fn emit_step(c: IdGeneratorExtendedConfig, domain: u64, w1: u64, w2: u64) -> bool {
    let p = decoded_state(c, domain, w1);
    let q = decoded_state(c, domain, w2);
    if p.counter < c.max_counter_value {
        q == spec_bump(p)
    } else {
        exists|now: u64| now <= c.max_timestamp && q == spec_bump(spec_refresh(p, now, c))
    }
}

/// The reserve-window invariant of one refresh step: the new timestamp never
/// retreats, never falls more than the reserve depth behind the reading, and
/// never runs more than one second past the state and reading it was formed
/// from; the counter is cleared unless the state was left alone, and in
/// either case it keeps room for the next emission.
pub proof fn lemma_refresh_reserve_bound(
    s: DomainStateHolder,
    now: u64,
    c: IdGeneratorExtendedConfig,
)
    requires
        s.wf(c),
        supports_generation(c),
        now <= c.max_timestamp,
    ensures
        spec_refresh(s, now, c).wf(c),
        spec_refresh(s, now, c).domain == s.domain,
        spec_refresh(s, now, c).timestamp >= s.timestamp,
        spec_refresh(s, now, c).timestamp as int >= now as int - c.reserved_seconds_count as int,
        spec_refresh(s, now, c).timestamp as int <= (if s.timestamp >= now {
            s.timestamp as int
        } else {
            now as int
        }) + 1,
        spec_refresh(s, now, c).counter < c.max_counter_value,
        spec_refresh(s, now, c).counter == 0 || spec_refresh(s, now, c) == s,
        refresh_rel(c, s.timestamp, s.counter, spec_refresh(s, now, c).timestamp, spec_refresh(s, now, c).counter),
{
}

/// One batch entry is sound: it decodes to this generator's instance and the
/// requested domain, its counter lies in `[1, max_counter]`, its fields fit
/// the layout, its top bit is clear, and the word is canonical — repacking
/// its decoded fields gives the word back.
pub open spec fn batch_entry_ok(c: IdGeneratorExtendedConfig, domain: u64, w: u64) -> bool {
    let p = c.spec_decode(w);
    &&& p.instance_id == c.instance_id
    &&& p.domain == domain
    &&& 1 <= p.counter <= c.max_counter_value
    &&& p.timestamp <= c.max_timestamp
    &&& w < 0x8000_0000_0000_0000u64
    &&& w as int == c.spec_encode(p)
}

/// Every identifier of the batch is sound for this domain.
pub open spec fn batch_ok(c: IdGeneratorExtendedConfig, domain: u64, s: Seq<u64>) -> bool {
    forall|i: int| 0 <= i < s.len() ==> batch_entry_ok(c, domain, #[trigger] s[i])
}

/// Two successive identifiers are strictly increasing — as pairs and as
/// words — unless the first sits at the cap of the layout's range.
pub open spec fn batch_link(c: IdGeneratorExtendedConfig, w1: u64, w2: u64) -> bool {
    let p1 = c.spec_decode(w1);
    let p2 = c.spec_decode(w2);
    ||| (pair_lt(p1.timestamp, p1.counter, p2.timestamp, p2.counter) && w1 < w2)
    ||| pair_at_cap(c, p1.timestamp, p1.counter)
}

/// Adjacent identifiers of the batch are strictly increasing, with the one
/// cap exception.
pub open spec fn batch_chained(c: IdGeneratorExtendedConfig, s: Seq<u64>) -> bool {
    forall|i: int| 0 <= i && i + 1 < s.len() ==> batch_link(c, #[trigger] s[i], s[i + 1])
}

/// The batch starts strictly above the pair `(t0, c0)` the state held before
/// the call, unless that pair sat at the cap.
pub open spec fn first_follows(
    c: IdGeneratorExtendedConfig,
    t0: u64,
    c0: u64,
    s: Seq<u64>,
) -> bool {
    s.len() > 0 ==> {
        let p = c.spec_decode(s[0]);
        pair_lt(t0, c0, p.timestamp, p.counter) || pair_at_cap(c, t0, c0)
    }
}

/// Per-domain `(timestamp, counter)` advancement state.
#[derive(Debug, Clone, Copy, PartialEq, Eq, Structural)]
pub struct DomainStateHolder {
    pub domain: u64,
    pub timestamp: u64,
    pub counter: u64,
}

/// What each per-domain lock holds: a well-formed state for exactly its
/// domain, under the generator's layout. Generation on one domain goes
/// through that domain's lock alone, so it cannot touch any other domain's
/// state.
pub struct DomainLockInv {
    pub domain: u64,
    pub config: IdGeneratorExtendedConfig,
}

impl RwLockPredicate<DomainStateHolder> for DomainLockInv {
    open spec fn inv(self, v: DomainStateHolder) -> bool {
        &&& v.wf(self.config)
        &&& v.domain == self.domain
        &&& supports_generation(self.config)
    }
}

impl DomainStateHolder {
    /// The state fits its layout.
    pub open spec fn wf(&self, c: IdGeneratorExtendedConfig) -> bool {
        &&& self.timestamp <= c.max_timestamp
        &&& self.counter <= c.max_counter_value
        &&& self.domain <= c.max_domain
    }

    /// The state sits at the cap of the layout's range.
    pub open spec fn at_cap(&self, c: IdGeneratorExtendedConfig) -> bool {
        pair_at_cap(c, self.timestamp, self.counter)
    }

    /// Builds the state for one domain, at the given start timestamp with the
    /// counter cleared, already behind its own lock.
    pub fn new(
        domain: u64,
        config: &IdGeneratorExtendedConfig,
        start_timestamp: u64,
    ) -> (r: RwLock<DomainStateHolder, DomainLockInv>)
        requires
            supports_generation(*config),
            domain <= config.max_domain,
            start_timestamp <= config.max_timestamp,
        ensures
            r.pred() == (DomainLockInv { domain, config: *config }),
    {
        let holder = DomainStateHolder { domain, counter: 0, timestamp: start_timestamp };
        RwLock::new(holder, Ghost(DomainLockInv { domain, config: *config }))
    }

    /// Refreshes the state against the wall clock, exactly as `spec_refresh`
    /// decides for the reading taken during the call: far behind, jump to
    /// the earliest reserve second; saturated with reserve seconds
    /// available, advance one logical second; saturated with none available,
    /// wait for the next wall second. A state whose counter still has room
    /// is left alone. The timestamp never moves backwards, and it only
    /// stands still with the counter reset when the state already sat at the
    /// cap of the layout's range: past the cap no greater pair exists, so
    /// rather than fail the caller there, the counter wraps in place.
    pub fn update_timestamp(&mut self, config: &IdGeneratorExtendedConfig)
        requires
            old(self).wf(*config),
            supports_generation(*config),
        ensures
            final(self).wf(*config),
            final(self).domain == old(self).domain,
            final(self).timestamp >= old(self).timestamp,
            old(self).counter >= config.max_counter_value ==> final(self).counter == 0,
            final(self).counter < config.max_counter_value,
            refresh_rel(
                *config,
                old(self).timestamp,
                old(self).counter,
                final(self).timestamp,
                final(self).counter,
            ),
            exists|now: u64|
                now <= config.max_timestamp && *final(self) == spec_refresh(
                    *old(self),
                    now,
                    *config,
                ),
    {
        let ghost entry = *old(self);
        let now_timestamp = clock::get_current_timestamp(config);
        proof {
            lemma_refresh_reserve_bound(entry, now_timestamp, *config);
        }
        let time_delta = if now_timestamp >= self.timestamp {
            now_timestamp - self.timestamp
        } else {
            0
        };
        if time_delta > config.reserved_seconds_count {
            self.timestamp = now_timestamp - config.reserved_seconds_count;
            self.counter = 0;
            proof {
                assert(*self == spec_refresh(entry, now_timestamp, *config));
            }
            return;
        }
        if self.counter < config.max_counter_value {
            proof {
                assert(*self == spec_refresh(entry, now_timestamp, *config));
            }
            return;
        }
        if time_delta > 0 {
            self.timestamp = self.timestamp + 1;
            self.counter = 0;
            proof {
                assert(*self == spec_refresh(entry, now_timestamp, *config));
            }
            return;
        }
        clock::wait_for_next_second();
        if self.timestamp < config.max_timestamp {
            self.timestamp = self.timestamp + 1;
        }
        self.counter = 0;
        proof {
            assert(*self == spec_refresh(entry, now_timestamp, *config));
        }
    }

    /// Advances to the next `(timestamp, counter)` pair to emit: with room
    /// left, the counter simply steps by one within the same second; from a
    /// saturated counter, a refresh against the clock reading taken during
    /// the call intervenes first (possibly waiting for the next wall second)
    /// and the counter restarts at one. The new pair is strictly greater
    /// than the old one, with the one cap exception.
    pub fn increment_counter(&mut self, config: &IdGeneratorExtendedConfig)
        requires
            old(self).wf(*config),
            supports_generation(*config),
        ensures
            final(self).wf(*config),
            final(self).domain == old(self).domain,
            final(self).timestamp >= old(self).timestamp,
            1 <= final(self).counter <= config.max_counter_value,
            old(self).counter < config.max_counter_value ==> *final(self) == spec_bump(
                *old(self),
            ),
            old(self).counter >= config.max_counter_value ==> final(self).counter == 1,
            old(self).counter >= config.max_counter_value ==> exists|now: u64|
                now <= config.max_timestamp && *final(self) == spec_bump(
                    spec_refresh(*old(self), now, *config),
                ),
            pair_lt(
                old(self).timestamp,
                old(self).counter,
                final(self).timestamp,
                final(self).counter,
            ) || old(self).at_cap(*config),
    {
        let ghost entry = *old(self);
        let ghost mut refreshed = *old(self);
        if self.counter >= config.max_counter_value {
            self.update_timestamp(config);
            proof {
                refreshed = *self;
            }
        }
        self.counter = self.counter + 1;
        proof {
            if entry.counter >= config.max_counter_value {
                let now = choose|now: u64|
                    now <= config.max_timestamp && refreshed == spec_refresh(entry, now, *config);
                assert(*self == spec_bump(spec_refresh(entry, now, *config)));
            } else {
                assert(*self == spec_bump(entry));
            }
        }
    }

    /// Emits `count` identifiers for this domain: refreshes against the wall
    /// clock once, then advances the pair and packs it `count` times. The
    /// batch is sound for this domain, strictly increasing (with the one cap
    /// exception), starts strictly above the pair held at entry, and leaves
    /// the state at the last pair emitted. Its shape is pinned to the clock:
    /// the first identifier carries the refresh decision for some reading
    /// (`spec_refresh`, then the counter's next value), and each later one
    /// follows its predecessor by one emission step (`emit_step`).
    pub fn generate_ids(&mut self, count: usize, config: &IdGeneratorExtendedConfig) -> (r: Vec<
        u64,
    >)
        requires
            old(self).wf(*config),
            supports_generation(*config),
        ensures
            r@.len() == count,
            final(self).wf(*config),
            final(self).domain == old(self).domain,
            final(self).timestamp >= old(self).timestamp,
            batch_ok(*config, old(self).domain, r@),
            batch_chained(*config, r@),
            first_follows(*config, old(self).timestamp, old(self).counter, r@),
            count > 0 ==> exists|now: u64|
                now <= config.max_timestamp && decoded_state(*config, old(self).domain, r@[0])
                    == spec_bump(spec_refresh(*old(self), now, *config)),
            forall|i: int|
                1 <= i < count ==> emit_step(*config, old(self).domain, r@[i - 1], #[trigger] r@[i]),
            count > 0 ==> final(self).timestamp == config.spec_decode(
                r@[count - 1],
            ).timestamp && final(self).counter == config.spec_decode(r@[count - 1]).counter,
    {
        let mut vec: Vec<u64> = Vec::new();
        self.update_timestamp(config);
        let mut i: usize = 0;
        while i < count
            invariant
                i <= count,
                vec@.len() == i,
                self.wf(*config),
                supports_generation(*config),
                self.domain == old(self).domain,
                self.timestamp >= old(self).timestamp,
                batch_ok(*config, old(self).domain, vec@),
                batch_chained(*config, vec@),
                first_follows(*config, old(self).timestamp, old(self).counter, vec@),
                i > 0 ==> self.timestamp == config.spec_decode(vec@[i - 1]).timestamp
                    && self.counter == config.spec_decode(vec@[i - 1]).counter,
                i == 0 ==> refresh_rel(
                    *config,
                    old(self).timestamp,
                    old(self).counter,
                    self.timestamp,
                    self.counter,
                ),
                i == 0 ==> self.counter < config.max_counter_value,
                i == 0 ==> exists|now: u64|
                    now <= config.max_timestamp && *self == spec_refresh(
                        *old(self),
                        now,
                        *config,
                    ),
                i > 0 ==> exists|now: u64|
                    now <= config.max_timestamp && decoded_state(*config, old(self).domain, vec@[0])
                        == spec_bump(spec_refresh(*old(self), now, *config)),
                forall|j: int|
                    1 <= j < i ==> emit_step(
                        *config,
                        old(self).domain,
                        vec@[j - 1],
                        #[trigger] vec@[j],
                    ),
            decreases count - i,
        {
            let ghost before = *self;
            self.increment_counter(config);
            let params = IdParams {
                timestamp: self.timestamp,
                counter: self.counter,
                instance_id: config.instance_id,
                domain: self.domain,
            };
            proof {
                lemma_decode_encode(*config, params);
                if i > 0 {
                    let prev = config.spec_decode(vec@[i - 1]);
                    if !pair_at_cap(*config, prev.timestamp, prev.counter) {
                        lemma_encode_lt(*config, prev, params);
                    }
                }
            }
            let encoded = params.encode(config);
            vec.push(encoded);
            proof {
                assert(decoded_state(*config, old(self).domain, encoded) == *self);
                if i == 0 {
                    let n0 = choose|n: u64|
                        n <= config.max_timestamp && before == spec_refresh(*old(self), n, *config);
                    assert(*self == spec_bump(spec_refresh(*old(self), n0, *config)));
                    assert(vec@[0] == encoded);
                } else {
                    assert(before == decoded_state(*config, old(self).domain, vec@[i - 1]));
                    if before.counter >= config.max_counter_value {
                        let n = choose|n: u64|
                            n <= config.max_timestamp && *self == spec_bump(
                                spec_refresh(before, n, *config),
                            );
                        assert(decoded_state(*config, old(self).domain, vec@[i as int])
                            == spec_bump(spec_refresh(before, n, *config)));
                    }
                    assert(emit_step(*config, old(self).domain, vec@[i - 1], vec@[i as int]));
                }
            }
            i = i + 1;
        }
        vec
    }
}

/// The allocator: one immutable layout and one independently locked
/// `DomainStateHolder` per domain. Sharing it across threads is safe; each
/// call takes exactly one domain's lock for its whole duration.
pub struct IdGenerator {
    config: IdGeneratorExtendedConfig,
    domain_state_holders: Vec<RwLock<DomainStateHolder, DomainLockInv>>,
}

impl IdGenerator {
    /// The layout this generator was built with.
    pub closed spec fn spec_config(&self) -> IdGeneratorExtendedConfig {
        self.config
    }

    /// Well-formedness: the layout is usable and there is one lock per
    /// domain, each pinned by its invariant to exactly its domain's state.
    pub closed spec fn wf(&self) -> bool {
        &&& supports_generation(self.config)
        &&& self.domain_state_holders@.len() == self.config.max_domain + 1
        &&& forall|d: int|
            0 <= d < self.domain_state_holders@.len() ==> (
            #[trigger] self.domain_state_holders@[d].pred()) == (DomainLockInv {
                domain: d as u64,
                config: self.config,
            })
    }

    /// Builds the allocator: derives the layout, reads a start timestamp from
    /// the clock once, and gives every domain a fresh state behind its own
    /// lock.
    pub fn create(config: &IdGenConfig) -> (r: IdGenerator)
        requires
            config.valid_layout(),
            config.counter_bits >= 1,
        ensures
            r.wf(),
            r.spec_config() == IdGeneratorExtendedConfig::spec_of(*config),
    {
        proof {
            lemma_max_for_bits_at_least_one(config.counter_bits);
        }
        let config = IdGeneratorExtendedConfig::new(config);
        let start_timestamp = clock::get_current_timestamp(&config);
        let max_domain = config.max_domain;
        let mut holders: Vec<RwLock<DomainStateHolder, DomainLockInv>> = Vec::new();
        let mut i: u64 = 0;
        while i <= max_domain
            invariant
                supports_generation(config),
                max_domain == config.max_domain,
                start_timestamp <= config.max_timestamp,
                i <= max_domain + 1,
                holders@.len() == i,
                forall|d: int|
                    0 <= d < i ==> (#[trigger] holders@[d].pred()) == (DomainLockInv {
                        domain: d as u64,
                        config,
                    }),
            decreases max_domain + 1 - i,
        {
            holders.push(DomainStateHolder::new(i, &config, start_timestamp));
            i = i + 1;
        }
        IdGenerator { config, domain_state_holders: holders }
    }

    /// Emits `count` identifiers for `domain`, or reports the domain out of
    /// range — the only error. On success the batch is sound for that domain
    /// and strictly increasing, with the one cap exception; the whole call
    /// holds that domain's lock, so concurrent callers on one domain see the
    /// lock-acquisition order, and other domains are untouched.
    pub fn generate_ids(&self, count: usize, domain: usize) -> (r: Result<
        Vec<u64>,
        IdGenerationError,
    >)
        requires
            self.wf(),
        ensures
            match r {
                Ok(ids) => {
                    &&& domain <= self.spec_config().max_domain
                    &&& ids@.len() == count
                    &&& batch_ok(self.spec_config(), domain as u64, ids@)
                    &&& batch_chained(self.spec_config(), ids@)
                    &&& forall|i: int|
                        1 <= i < count ==> emit_step(
                            self.spec_config(),
                            domain as u64,
                            ids@[i - 1],
                            #[trigger] ids@[i],
                        )
                },
                Err(e) => {
                    &&& e == IdGenerationError::IncorrectDomain(domain)
                    &&& domain > self.spec_config().max_domain
                },
            },
    {
        if domain >= self.domain_state_holders.len() {
            return Err(IdGenerationError::IncorrectDomain(domain));
        }
        let lock = &self.domain_state_holders[domain];
        proof {
            assert(self.domain_state_holders@[domain as int].pred() == (DomainLockInv {
                domain: domain as u64,
                config: self.config,
            }));
        }
        let (mut state, handle) = lock.acquire_write();
        let ids = state.generate_ids(count, &self.config);
        handle.release_write(state);
        Ok(ids)
    }

    /// The largest domain index this generator serves.
    pub fn get_max_domain(&self) -> (r: u64)
        ensures
            r == self.spec_config().max_domain,
    {
        self.config.max_domain
    }

    /// The configured epoch, in seconds since the Unix epoch.
    pub fn get_epoch_start(&self) -> (r: u64)
        ensures
            r == self.spec_config().epoch_start_second,
    {
        self.config.epoch_start_second
    }

    /// Unpacks an identifier word under this generator's layout; pure.
    pub fn decode(&self, encoded: u64) -> (r: IdParams)
        requires
            self.wf(),
        ensures
            r == self.spec_config().spec_decode(encoded),
    {
        IdParams::decode(encoded, &self.config)
    }
}

/// What the generator's well-formedness gives its callers: the layout it
/// hands out is usable for generation.
pub proof fn lemma_generator_config(g: &IdGenerator)
    requires
        g.wf(),
    ensures
        supports_generation(g.spec_config()),
{
}

/// No identifier of the batch sits at the cap of the layout's range.
pub open spec fn batch_below_cap(c: IdGeneratorExtendedConfig, s: Seq<u64>) -> bool {
    forall|i: int|
        0 <= i < s.len() ==> !pair_at_cap(
            c,
            c.spec_decode(#[trigger] s[i]).timestamp,
            c.spec_decode(s[i]).counter,
        )
}

/// All pairs of the batch, not merely adjacent ones, are strictly increasing.
pub open spec fn batch_pairwise_increasing(c: IdGeneratorExtendedConfig, s: Seq<u64>) -> bool {
    forall|i: int, j: int|
        0 <= i < j < s.len() ==> #[trigger] s[i] < #[trigger] s[j] && pair_lt(
            c.spec_decode(s[i]).timestamp,
            c.spec_decode(s[i]).counter,
            c.spec_decode(s[j]).timestamp,
            c.spec_decode(s[j]).counter,
        )
}

/// Chains two adjacent links into a strict order between any two positions.
proof fn lemma_chain_to_pair(c: IdGeneratorExtendedConfig, s: Seq<u64>, i: int, j: int)
    requires
        supports_generation(c),
        batch_chained(c, s),
        batch_below_cap(c, s),
        0 <= i < j < s.len(),
    ensures
        s[i] < s[j],
        pair_lt(
            c.spec_decode(s[i]).timestamp,
            c.spec_decode(s[i]).counter,
            c.spec_decode(s[j]).timestamp,
            c.spec_decode(s[j]).counter,
        ),
    decreases j - i,
{
    if j == i + 1 {
        assert(batch_link(c, s[i], s[j]));
    } else {
        lemma_chain_to_pair(c, s, i, j - 1);
        assert(batch_link(c, s[j - 1], s[j]));
    }
}

/// Strict monotonicity within one batch: a sound, chained batch with no pair
/// at the cap is strictly increasing between every two positions, both as
/// `(timestamp, counter)` pairs and as 64-bit words.
pub proof fn lemma_batch_strictly_increasing(c: IdGeneratorExtendedConfig, s: Seq<u64>)
    requires
        supports_generation(c),
        batch_chained(c, s),
        batch_below_cap(c, s),
    ensures
        batch_pairwise_increasing(c, s),
{
    assert forall|i: int, j: int| 0 <= i < j < s.len() implies #[trigger] s[i] < #[trigger] s[j]
        && pair_lt(
        c.spec_decode(s[i]).timestamp,
        c.spec_decode(s[i]).counter,
        c.spec_decode(s[j]).timestamp,
        c.spec_decode(s[j]).counter,
    ) by {
        lemma_chain_to_pair(c, s, i, j);
    }
}

/// Strict monotonicity across batches: when a second batch for the same
/// domain starts strictly above the pair at which the first batch left the
/// state — as successive holders of one domain's lock do — the concatenated
/// output is strictly increasing throughout, as long as no pair sits at the
/// cap of the layout's range. This is the order concurrent callers observe
/// under lock-acquisition order.
pub proof fn lemma_concat_strictly_increasing(
    c: IdGeneratorExtendedConfig,
    domain: u64,
    a: Seq<u64>,
    b: Seq<u64>,
)
    requires
        supports_generation(c),
        domain <= c.max_domain,
        batch_ok(c, domain, a),
        batch_ok(c, domain, b),
        batch_chained(c, a),
        batch_chained(c, b),
        batch_below_cap(c, a),
        batch_below_cap(c, b),
        a.len() > 0 && b.len() > 0 ==> pair_lt(
            c.spec_decode(a[a.len() - 1]).timestamp,
            c.spec_decode(a[a.len() - 1]).counter,
            c.spec_decode(b[0]).timestamp,
            c.spec_decode(b[0]).counter,
        ),
    ensures
        batch_chained(c, a + b),
        batch_below_cap(c, a + b),
        batch_pairwise_increasing(c, a + b),
{
    let t = a + b;
    if a.len() > 0 && b.len() > 0 {
        let pl = c.spec_decode(a[a.len() - 1]);
        let pf = c.spec_decode(b[0]);
        lemma_encode_lt(c, pl, pf);
    }
    assert forall|i: int| 0 <= i && i + 1 < t.len() implies batch_link(
        c,
        #[trigger] t[i],
        t[i + 1],
    ) by {
        if i + 1 < a.len() {
            assert(batch_link(c, a[i], a[i + 1]));
        } else if i >= a.len() {
            assert(batch_link(c, b[i - a.len()], b[i + 1 - a.len()]));
        }
    }
    assert(batch_below_cap(c, t));
    lemma_batch_strictly_increasing(c, t);
}

/// One step of the position index is strictly increasing along the
/// lexicographic pair order.
proof fn lemma_index_step(t1: int, c1: int, t2: int, c2: int, lo: int, mc: int)
    by (nonlinear_arith)
    requires
        mc >= 1,
        1 <= c1 <= mc,
        1 <= c2 <= mc,
        lo <= t1,
        t1 < t2 || (t1 == t2 && c1 < c2),
    ensures
        (t1 - lo) * mc + c1 - 1 < (t2 - lo) * mc + c2 - 1,
{
}

/// The position index of a pair within a window of seconds is bounded by the
/// window's total capacity.
proof fn lemma_index_bound(t: int, ctr: int, lo: int, hi: int, mc: int)
    by (nonlinear_arith)
    requires
        mc >= 1,
        1 <= ctr <= mc,
        lo <= t <= hi,
    ensures
        0 <= (t - lo) * mc + ctr - 1,
        (t - lo) * mc + ctr - 1 < (hi - lo + 1) * mc,
{
}

/// Position of a pair in the enumeration of all pairs with timestamps from
/// `lo` upward: `(timestamp - lo) * max_counter + (counter - 1)`.
pub open spec fn pair_index(c: IdGeneratorExtendedConfig, lo: int, w: u64) -> int {
    (c.spec_decode(w).timestamp - lo) * c.max_counter_value + c.spec_decode(w).counter - 1
}

/// In a strictly increasing batch, the `i`-th identifier's pair sits at
/// position `i` or later in the pair enumeration.
proof fn lemma_pair_index_lower(
    c: IdGeneratorExtendedConfig,
    domain: u64,
    s: Seq<u64>,
    lo: int,
    i: int,
)
    requires
        supports_generation(c),
        batch_ok(c, domain, s),
        batch_pairwise_increasing(c, s),
        forall|k: int| 0 <= k < s.len() ==> lo <= c.spec_decode(#[trigger] s[k]).timestamp,
        0 <= i < s.len(),
    ensures
        pair_index(c, lo, s[i]) >= i,
    decreases i,
{
    let pi = c.spec_decode(s[i]);
    assert(batch_entry_ok(c, domain, s[i]));
    if i == 0 {
        lemma_index_bound(
            pi.timestamp as int,
            pi.counter as int,
            lo,
            pi.timestamp as int,
            c.max_counter_value as int,
        );
    } else {
        let pp = c.spec_decode(s[i - 1]);
        assert(batch_entry_ok(c, domain, s[i - 1]));
        lemma_pair_index_lower(c, domain, s, lo, i - 1);
        lemma_index_step(
            pp.timestamp as int,
            pp.counter as int,
            pi.timestamp as int,
            pi.counter as int,
            lo,
            c.max_counter_value as int,
        );
    }
}

/// Per-second capacity: a strictly increasing batch for one domain whose
/// timestamps all lie within the `s` consecutive logical seconds from `t_lo`
/// to `t_hi` holds at most `s * max_counter` identifiers. The refresh policy
/// keeps logical timestamps between `wall - reserved_seconds_count` and
/// `wall + 1`, so a window spanning `w` wall seconds spans at most
/// `w + reserved_seconds_count + 1` logical seconds, and this lemma then
/// bounds what one `(instance, domain)` can emit in it.
pub proof fn lemma_window_capacity(
    c: IdGeneratorExtendedConfig,
    domain: u64,
    s: Seq<u64>,
    t_lo: u64,
    t_hi: u64,
)
    requires
        supports_generation(c),
        batch_ok(c, domain, s),
        batch_pairwise_increasing(c, s),
        t_lo <= t_hi,
        forall|k: int|
            0 <= k < s.len() ==> t_lo <= c.spec_decode(#[trigger] s[k]).timestamp <= t_hi,
    ensures
        s.len() <= (t_hi - t_lo + 1) * c.max_counter_value,
{
    if s.len() > 0 {
        let last = s.len() - 1;
        let pl = c.spec_decode(s[last as int]);
        assert(batch_entry_ok(c, domain, s[last as int]));
        lemma_pair_index_lower(c, domain, s, t_lo as int, last as int);
        lemma_index_bound(
            pl.timestamp as int,
            pl.counter as int,
            t_lo as int,
            t_hi as int,
            c.max_counter_value as int,
        );
    } else {
        lemma_index_bound(t_lo as int, 1, t_lo as int, t_hi as int, c.max_counter_value as int);
    }
}

} // verus!

