use idgen::clock::{get_current_timestamp, wait_for_next_second};
use idgen::codec::{IdGeneratorExtendedConfig, IdParams};
use idgen::config::IdGenConfig;
use idgen::idgen::{DomainStateHolder, IdGenerationError, IdGenerator};

fn build_config() -> IdGenConfig {
    IdGenConfig {
        instance_id: 1,
        timestamp_bits: 35,
        counter_bits: 14,
        instance_id_bits: 6,
        domain_id_bits: 8,
        epoch_start_second: 1672531200,
        reserved_seconds_count: 0,
    }
}

#[test]
fn generate_id() {
    let config = build_config();
    let generator = IdGenerator::create(&config);
    let generated = generator.generate_ids(100, 5).unwrap();
    assert_eq!(generated.len(), 100);
}

#[test]
fn sleep_until_next_second() {
    let config = IdGeneratorExtendedConfig::new(&build_config());
    let start_timestamp = get_current_timestamp(&config);
    let mut holder = DomainStateHolder {
        domain: 0,
        timestamp: start_timestamp,
        counter: config.max_counter_value,
    };

    holder.increment_counter(&config);

    let end_timestamp = get_current_timestamp(&config);
    assert!(end_timestamp > start_timestamp, "timestamp was not incremented");
}

#[test]
fn encode_decode_id() {
    let config = IdGeneratorExtendedConfig::new(&build_config());
    let params = IdParams {
        timestamp: 1458569,
        counter: 1,
        instance_id: 5,
        domain: 9,
    };
    let encoded = params.encode(&config);
    assert_eq!(encoded, 391531655594249, "should generate expected id");

    let decoded = IdParams::decode(encoded, &config);
    assert_eq!(params, decoded, "decoded should be equals to initial params")
}

#[test]
fn reserve_exhaustion_triggers_sleep() {
    // A saturated counter with no reserve forces the call to wait out the
    // rest of the current wall second.
    let config = IdGeneratorExtendedConfig::new(&build_config());
    let before = get_current_timestamp(&config);
    let mut holder = DomainStateHolder {
        domain: 0,
        timestamp: before,
        counter: config.max_counter_value,
    };
    let ids = holder.generate_ids(1, &config);
    let after = get_current_timestamp(&config);
    assert_eq!(ids.len(), 1);
    assert!(after > before, "the call must have slept into the next second");
}

#[test]
fn idle_refresh() {
    // A state far behind the wall clock is reset to the earliest reserve
    // second: now minus the reserve depth, with the counter starting over.
    let mut raw = build_config();
    raw.reserved_seconds_count = 60;
    let config = IdGeneratorExtendedConfig::new(&raw);
    wait_for_next_second(); // start right after a boundary so no tick intervenes
    let now = get_current_timestamp(&config);
    let mut holder = DomainStateHolder {
        domain: 0,
        timestamp: now - 62,
        counter: 0,
    };
    let ids = holder.generate_ids(1, &config);
    let decoded = IdParams::decode(ids[0], &config);
    assert_eq!(decoded.timestamp, now - 60);
    assert_eq!(decoded.counter, 1);
}

#[test]
fn burst_absorbs_reserve() {
    // With three counter slots per second and reserve seconds available,
    // three back-to-back batches of three land on three consecutive logical
    // seconds without any sleep.
    let mut raw = build_config();
    raw.counter_bits = 2;
    raw.reserved_seconds_count = 5;
    let config = IdGeneratorExtendedConfig::new(&raw);
    assert_eq!(config.max_counter_value, 3);
    wait_for_next_second();
    let before = get_current_timestamp(&config);
    let t = before - 5;
    let mut holder = DomainStateHolder {
        domain: 0,
        timestamp: t,
        counter: 0,
    };
    let mut all = Vec::new();
    for _ in 0..3 {
        all.push(holder.generate_ids(3, &config));
    }
    let after = get_current_timestamp(&config);
    assert_eq!(after, before, "no sleep may have occurred");
    for (batch_index, batch) in all.iter().enumerate() {
        for (k, id) in batch.iter().enumerate() {
            let p = IdParams::decode(*id, &config);
            assert_eq!(p.timestamp, t + batch_index as u64);
            assert_eq!(p.counter, k as u64 + 1);
        }
    }
}

#[test]
fn batch_size_invariance() {
    // One batch of 100 is strictly increasing throughout.
    let config = build_config();
    let generator = IdGenerator::create(&config);
    let ids = generator.generate_ids(100, 0).unwrap();
    assert_eq!(ids.len(), 100);
    for k in 1..ids.len() {
        assert!(ids[k - 1] < ids[k], "identifiers must be strictly increasing");
    }
}

#[test]
fn domain_out_of_range() {
    let config = build_config();
    let generator = IdGenerator::create(&config);
    let result = generator.generate_ids(1, 256);
    assert!(matches!(result, Err(IdGenerationError::IncorrectDomain(256))));
}

#[test]
fn consecutive_batches_strictly_increase() {
    // Lock-acquisition order: two successive batches for one domain
    // concatenate into one strictly increasing stream.
    let config = build_config();
    let generator = IdGenerator::create(&config);
    let mut all = generator.generate_ids(40, 3).unwrap();
    all.extend(generator.generate_ids(40, 3).unwrap());
    for k in 1..all.len() {
        assert!(all[k - 1] < all[k]);
    }
}

#[test]
fn domain_independence() {
    // Burning one domain's counter leaves another domain's state untouched:
    // its counters still start at 1.
    let config = build_config();
    let generator = IdGenerator::create(&config);
    let _ = generator.generate_ids(50, 0).unwrap();
    let ids = generator.generate_ids(3, 1).unwrap();
    let layout = IdGeneratorExtendedConfig::new(&config);
    for (k, id) in ids.iter().enumerate() {
        let p = IdParams::decode(*id, &layout);
        assert_eq!(p.domain, 1);
        assert_eq!(p.counter, k as u64 + 1);
    }
}

#[test]
fn high_bit_clear() {
    // Bit 63 of every emitted identifier is clear.
    let config = build_config();
    let generator = IdGenerator::create(&config);
    let ids = generator.generate_ids(64, 7).unwrap();
    for id in ids {
        assert_eq!(id >> 63, 0);
        assert_eq!(id & 0x8000_0000_0000_0000, 0);
    }
}

#[test]
fn window_capacity_bound() {
    // With three counter slots per second, a batch never packs more
    // identifiers into a span of logical seconds than the span can hold.
    let mut raw = build_config();
    raw.counter_bits = 2;
    raw.reserved_seconds_count = 5;
    let config = IdGeneratorExtendedConfig::new(&raw);
    wait_for_next_second();
    let now = get_current_timestamp(&config);
    let mut holder = DomainStateHolder {
        domain: 0,
        timestamp: now - 5,
        counter: 0,
    };
    let ids = holder.generate_ids(10, &config);
    let decoded: Vec<IdParams> = ids.iter().map(|id| IdParams::decode(*id, &config)).collect();
    let min_ts = decoded.iter().map(|p| p.timestamp).min().unwrap();
    let max_ts = decoded.iter().map(|p| p.timestamp).max().unwrap();
    assert!(10 <= (max_ts - min_ts + 1) * config.max_counter_value);
}

#[test]
fn generated_fields_decode_back() {
    // Every emitted identifier carries the configured instance and the
    // requested domain, with the counter in range.
    let config = build_config();
    let generator = IdGenerator::create(&config);
    let layout = IdGeneratorExtendedConfig::new(&config);
    let ids = generator.generate_ids(5, 9).unwrap();
    for id in ids {
        let p = IdParams::decode(id, &layout);
        assert_eq!(p.instance_id, 1);
        assert_eq!(p.domain, 9);
        assert!(1 <= p.counter && p.counter <= layout.max_counter_value);
    }
}

#[test]
fn error_message_names_domain() {
    let err = IdGenerationError::IncorrectDomain(300);
    assert_eq!(err.message(), "incorrect domain");
}

#[test]
fn validate_decides_epoch() {
    let config = IdGeneratorExtendedConfig::new(&build_config());
    assert!(config.validate(1700000000));
    assert!(!config.validate(1672531199)); // wall before the epoch
    assert!(!config.validate(0));
    assert!(!config.validate(-5));
}

#[test]
fn calculate_max_values() {
    assert_eq!(IdGeneratorExtendedConfig::calculate_max_value_for_bits(0), 0);
    assert_eq!(IdGeneratorExtendedConfig::calculate_max_value_for_bits(14), 16383);
    assert_eq!(
        IdGeneratorExtendedConfig::calculate_max_value_for_bits(63),
        0x7fff_ffff_ffff_ffff
    );
}

#[test]
fn decode_is_pure() {
    // Unpacking depends on the word and the layout alone: repeated calls and
    // intervening generation change nothing.
    let config = build_config();
    let generator = IdGenerator::create(&config);
    let first = generator.decode(391531655594249);
    let _ = generator.generate_ids(10, 0).unwrap();
    let second = generator.decode(391531655594249);
    assert_eq!(first, second);
    assert_eq!(first.timestamp, 1458569);
    assert_eq!(first.counter, 1);
    assert_eq!(first.instance_id, 5);
    assert_eq!(first.domain, 9);
}

#[test]
fn zero_width_field_is_permitted() {
    // A width of zero fixes the field at zero and occupies no bits.
    let mut raw = build_config();
    raw.instance_id_bits = 0;
    raw.instance_id = 0;
    let config = IdGeneratorExtendedConfig::new(&raw);
    assert_eq!(config.max_instance_id, 0);
    let params = IdParams { timestamp: 77, counter: 3, instance_id: 0, domain: 5 };
    let encoded = params.encode(&config);
    assert_eq!(IdParams::decode(encoded, &config), params);
    assert_eq!(encoded, (77 << 22) | (3 << 8) | 5);
}

#[test]
fn round_trip_various_params() {
    let config = IdGeneratorExtendedConfig::new(&build_config());
    let cases = [
        (0u64, 0u64, 0u64, 0u64),
        (config.max_timestamp, config.max_counter_value, config.max_instance_id, config.max_domain),
        (1, 1, 1, 1),
        (4242424242, 16000, 63, 255),
    ];
    for (timestamp, counter, instance_id, domain) in cases {
        let params = IdParams { timestamp, counter, instance_id, domain };
        let encoded = params.encode(&config);
        assert_eq!(IdParams::decode(encoded, &config), params);
    }
}
