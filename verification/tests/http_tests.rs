use idgen::config::IdGenConfig;
use idgen::dto::{GenerateIdsRequest, ParseIdRequest};
use idgen::error::{HttpError, RequestError};
use idgen::http::{generate_ids, parse_domains, parse_id};
use idgen::idgen::IdGenerator;

fn build_config() -> IdGenConfig {
    IdGenConfig {
        instance_id: 1,
        timestamp_bits: 35,
        counter_bits: 14,
        instance_id_bits: 6,
        domain_id_bits: 8,
        epoch_start_second: 1672531200,
        reserved_seconds_count: 0,
    }
}

#[test]
fn parse_domains_accepts_and_dedups() {
    let parsed = parse_domains("5,3,5,+7,3").unwrap();
    assert_eq!(parsed, vec![5, 3, 7]);
}

#[test]
fn parse_domains_single() {
    let parsed = parse_domains("0").unwrap();
    assert_eq!(parsed, vec![0]);
}

#[test]
fn parse_domains_rejects_bad_token() {
    let err = parse_domains("1,x7,3").unwrap_err();
    assert_eq!(err, b"x7".to_vec());
}

#[test]
fn parse_domains_rejects_empty_token() {
    let err = parse_domains("1,,3").unwrap_err();
    assert_eq!(err, Vec::<u8>::new());
    let err = parse_domains("").unwrap_err();
    assert_eq!(err, Vec::<u8>::new());
}

#[test]
fn parse_domains_rejects_overflow() {
    // One beyond u64::MAX.
    let err = parse_domains("18446744073709551616").unwrap_err();
    assert_eq!(err, b"18446744073709551616".to_vec());
    // u64::MAX itself is fine.
    let parsed = parse_domains("18446744073709551615").unwrap();
    assert_eq!(parsed, vec![u64::MAX]);
}

#[test]
fn generate_request_with_domains() {
    let generator = IdGenerator::create(&build_config());
    let request = GenerateIdsRequest { count: Some(4), domains: Some("2,9".to_string()) };
    let response = generate_ids(&generator, &request).unwrap();
    assert_eq!(response.ids_by_domain.len(), 2);
    assert_eq!(response.ids_by_domain[0].domain, 2);
    assert_eq!(response.ids_by_domain[1].domain, 9);
    for entry in &response.ids_by_domain {
        assert_eq!(entry.ids.len(), 4);
    }
}

#[test]
fn generate_request_default_count_all_domains() {
    let generator = IdGenerator::create(&build_config());
    let request = GenerateIdsRequest { count: None, domains: None };
    let response = generate_ids(&generator, &request).unwrap();
    assert_eq!(response.ids_by_domain.len(), 256);
    for (k, entry) in response.ids_by_domain.iter().enumerate() {
        assert_eq!(entry.domain, k as u64);
        assert_eq!(entry.ids.len(), 10);
    }
}

#[test]
fn generate_request_zero_count() {
    let generator = IdGenerator::create(&build_config());
    let request = GenerateIdsRequest { count: Some(0), domains: None };
    let err = generate_ids(&generator, &request).unwrap_err();
    assert!(matches!(err, RequestError::InvalidCount));
}

#[test]
fn generate_request_bad_token() {
    let generator = IdGenerator::create(&build_config());
    let request = GenerateIdsRequest { count: Some(1), domains: Some("3,9zz".to_string()) };
    let err = generate_ids(&generator, &request).unwrap_err();
    match err {
        RequestError::InvalidDomainToken(t) => assert_eq!(t, b"9zz".to_vec()),
        other => panic!("expected a token error, got {:?}", other),
    }
}

#[test]
fn generate_request_domain_out_of_range() {
    let generator = IdGenerator::create(&build_config());
    let request = GenerateIdsRequest { count: Some(1), domains: Some("1,256".to_string()) };
    let err = generate_ids(&generator, &request).unwrap_err();
    match err {
        RequestError::IncorrectDomain(d) => assert_eq!(d, 256),
        other => panic!("expected an out-of-range domain, got {:?}", other),
    }
}

#[test]
fn parse_request_renders_epoch() {
    // The identifier 0 decodes to all-zero fields; its absolute time is the
    // configured epoch, 2023-01-01 midnight UTC.
    let generator = IdGenerator::create(&build_config());
    let response = parse_id(&generator, &ParseIdRequest { id: 0 });
    assert_eq!(response.domain, 0);
    assert_eq!(response.timestamp, 0);
    assert_eq!(response.instance_id, 0);
    assert_eq!(response.counter, 0);
    assert_eq!(response.decoded_timestamp, "2023-01-01T00:00:00+00:00");
}

#[test]
fn parse_request_inverts_generate() {
    let generator = IdGenerator::create(&build_config());
    let ids = generator.generate_ids(1, 9).unwrap();
    let response = parse_id(&generator, &ParseIdRequest { id: ids[0] });
    assert_eq!(response.domain, 9);
    assert_eq!(response.instance_id, 1);
    assert_eq!(response.counter, 1);
}

#[test]
fn http_error_statuses() {
    assert_eq!(HttpError::BadRequest("nope".to_string()).get_status(), 400);
    assert_eq!(HttpError::InternalServerError("boom".to_string()).get_status(), 500);
}
