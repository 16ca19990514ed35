use dns_cli::cloudflare_provider::{
    CloudflareProvider, DNSCreateResponse, DNSListResponse, DnsRecord, UpdateResponse, Zone,
    ZoneResponse,
};
use dns_cli::config::{CloudflareConfig, Config, Domain, Record, RecordType};
use dns_cli::dns_provider::{
    record_places, ApiRequest, DnsProvider, DomainDetails, HttpMethod, RecordBody,
};
use dns_cli::error::DnsError;

fn held_record(id: &str, name: &str) -> Record {
    Record { id: id.to_string(), name: name.to_string(), record_type: RecordType::A }
}

fn provider_config() -> Config {
    Config {
        cloudflare_config: CloudflareConfig {
            api_token: "secret-token".to_string(),
            domains: vec![
                (
                    "z1".to_string(),
                    Domain {
                        records: vec![
                            held_record("r1", "sub.example.com"),
                            held_record("r2", "othersub.example.com"),
                        ],
                        domain: "example.com".to_string(),
                    },
                ),
                ("z2".to_string(), Domain { records: vec![], domain: "example.net".to_string() }),
                (
                    "z3".to_string(),
                    Domain {
                        records: vec![Record {
                            id: "r3".to_string(),
                            name: "six.example.org".to_string(),
                            record_type: RecordType::AAA,
                        }],
                        domain: "example.org".to_string(),
                    },
                ),
            ],
        },
        webhooks: vec![],
    }
}

fn reported(id: &str, name: &str, kind: &str, content: &str) -> DnsRecord {
    DnsRecord {
        id: id.to_string(),
        name: name.to_string(),
        type_field: kind.to_string(),
        content: content.to_string(),
        proxiable: true,
        proxied: false,
        ttl: 1,
        comment: "null".to_string(),
        tags: vec![],
        created_on: "2024-01-01T00:00:00Z".to_string(),
        modified_on: "2024-02-02T00:00:00Z".to_string(),
    }
}

fn get(url: &str) -> ApiRequest {
    ApiRequest {
        method: HttpMethod::Get,
        url: url.to_string(),
        authorization: "Bearer secret-token".to_string(),
        body: None,
    }
}

#[test]
fn the_provider_holds_the_state_it_was_made_with() {
    let provider = CloudflareProvider::new(provider_config());
    assert_eq!(provider.config(), &provider_config());
    assert!(!provider.needs_token());
}

#[test]
fn a_missing_token_is_asked_for_and_taken() {
    let mut provider = CloudflareProvider::new(Config::get_default_config());
    assert!(provider.needs_token());
    provider.set_token("fresh".to_string());
    assert!(!provider.needs_token());
    assert_eq!(provider.config().cloudflare_config.api_token, "fresh");
    assert_eq!(provider.zones_request().authorization, "Bearer fresh");
}

#[test]
fn zones_are_listed_at_the_zones_address() {
    let provider = CloudflareProvider::new(provider_config());
    assert_eq!(provider.zones_request(), get("https://api.cloudflare.com/client/v4/zones"));
}

#[test]
fn an_update_patches_the_record_with_the_new_address() {
    let provider = CloudflareProvider::new(provider_config());
    let request = provider.update_ip("5.6.7.8", &held_record("r1", "sub.example.com"), "z1");
    assert_eq!(
        request,
        ApiRequest {
            method: HttpMethod::Patch,
            url: "https://api.cloudflare.com/client/v4/zones/z1/dns_records/r1".to_string(),
            authorization: "Bearer secret-token".to_string(),
            body: Some(RecordBody {
                record_type: "A".to_string(),
                name: "sub.example.com".to_string(),
                content: "5.6.7.8".to_string(),
                proxied: None,
            }),
        }
    );
}

#[test]
fn a_creation_posts_a_proxied_record() {
    let provider = CloudflareProvider::new(provider_config());
    let request = provider.set_sub_domain(&held_record("", "new.example.com"), "z1", "1.2.3.4");
    assert_eq!(
        request,
        ApiRequest {
            method: HttpMethod::Post,
            url: "https://api.cloudflare.com/client/v4/zones/z1/dns_records".to_string(),
            authorization: "Bearer secret-token".to_string(),
            body: Some(RecordBody {
                record_type: "A".to_string(),
                name: "new.example.com".to_string(),
                content: "1.2.3.4".to_string(),
                proxied: Some(true),
            }),
        }
    );
    assert_eq!(provider.set_sub_domain(&held_record("", "new.example.com"), "z1", "1.2.3.4"), request);
}

#[test]
fn a_removal_deletes_the_record_by_its_identity() {
    let provider = CloudflareProvider::new(provider_config());
    let request = provider.remove_sub_domain(&held_record("r2", "othersub.example.com"), "z1");
    assert_eq!(
        request,
        ApiRequest {
            method: HttpMethod::Delete,
            url: "https://api.cloudflare.com/client/v4/zones/z1/dns_records/r2".to_string(),
            authorization: "Bearer secret-token".to_string(),
            body: None,
        }
    );
}

#[test]
fn every_record_is_updated_zone_by_zone() {
    let provider = CloudflareProvider::new(provider_config());
    let requests = provider.change_ip("5.6.7.8");
    assert_eq!(requests.len(), 3);
    let urls: Vec<&str> = requests.iter().map(|r| r.url.as_str()).collect();
    assert_eq!(
        urls,
        vec![
            "https://api.cloudflare.com/client/v4/zones/z1/dns_records/r1",
            "https://api.cloudflare.com/client/v4/zones/z1/dns_records/r2",
            "https://api.cloudflare.com/client/v4/zones/z3/dns_records/r3",
        ]
    );
    for request in &requests {
        assert_eq!(request.method, HttpMethod::Patch);
        assert_eq!(request.authorization, "Bearer secret-token");
        assert_eq!(request.body.as_ref().map(|b| b.content.as_str()), Some("5.6.7.8"));
    }
    assert_eq!(requests[2].body.as_ref().map(|b| b.record_type.as_str()), Some("AAAA"));
    assert_eq!(requests[1].body.as_ref().map(|b| b.name.as_str()), Some("othersub.example.com"));
    assert_eq!(provider.change_ip("5.6.7.8"), requests);
}

#[test]
fn no_record_means_no_update() {
    let provider = CloudflareProvider::new(Config::get_default_config());
    assert_eq!(provider.change_ip("5.6.7.8"), vec![]);
}

#[test]
fn records_that_point_here_are_listed_for_every_zone() {
    let provider = CloudflareProvider::new(provider_config());
    assert_eq!(
        provider.import_requests("5.6.7.8"),
        vec![
            get("https://api.cloudflare.com/client/v4/zones/z1/dns_records?content=5.6.7.8"),
            get("https://api.cloudflare.com/client/v4/zones/z2/dns_records?content=5.6.7.8"),
            get("https://api.cloudflare.com/client/v4/zones/z3/dns_records?content=5.6.7.8"),
        ]
    );
}

#[test]
fn details_are_fetched_for_the_first_matching_record() {
    let provider = CloudflareProvider::new(provider_config());
    assert_eq!(
        provider.get_domain_details("othersub"),
        Ok(get("https://api.cloudflare.com/client/v4/zones/z1/dns_records/r2"))
    );
    assert_eq!(
        provider.get_domain_details("sub"),
        Ok(get("https://api.cloudflare.com/client/v4/zones/z1/dns_records/r1"))
    );
    assert_eq!(
        provider.get_domain_details("six.example.org"),
        Ok(get("https://api.cloudflare.com/client/v4/zones/z3/dns_records/r3"))
    );
}

#[test]
fn details_of_an_unknown_prefix_are_not_found() {
    let provider = CloudflareProvider::new(provider_config());
    assert_eq!(
        provider.get_domain_details("su"),
        Err(DnsError::NoMatch { prefix: "su".to_string() })
    );
    assert_eq!(
        provider.get_domain_details("example.com"),
        Err(DnsError::NoMatch { prefix: "example.com".to_string() })
    );
    assert_eq!(
        provider.get_domain_details(""),
        Err(DnsError::NoMatch { prefix: "".to_string() })
    );
}

#[test]
fn a_created_record_gives_its_identity() {
    let reply = DNSCreateResponse {
        result: Some(reported("new-id", "new.example.com", "A", "1.2.3.4")),
        success: true,
        errors: vec![],
        messages: vec![],
    };
    assert_eq!(reply.record_id(200), Ok("new-id".to_string()));
}

#[test]
fn a_rejected_creation_surfaces_the_errors() {
    let errors = vec!["{\"code\":81057}".to_string(), "duplicate".to_string()];
    let rejected = DNSCreateResponse {
        result: None,
        success: false,
        errors: errors.clone(),
        messages: vec![],
    };
    assert_eq!(
        rejected.record_id(400),
        Err(DnsError::Provider { status: 400, errors: errors.clone() })
    );
    let empty = DNSCreateResponse { result: None, success: true, errors: vec![], messages: vec![] };
    assert_eq!(empty.record_id(200), Err(DnsError::Provider { status: 200, errors: vec![] }));
    let failed_status = DNSCreateResponse {
        result: Some(reported("x", "x.example.com", "A", "1.2.3.4")),
        success: true,
        errors: errors.clone(),
        messages: vec![],
    };
    assert_eq!(failed_status.record_id(500), Err(DnsError::Provider { status: 500, errors }));
    assert_eq!(failed_status.record_id(199).is_err(), true);
    assert_eq!(failed_status.record_id(300).is_err(), true);
    assert_eq!(failed_status.record_id(299), Ok("x".to_string()));
}

#[test]
fn details_are_read_from_the_reported_record() {
    let mut record = reported("r1", "sub.example.com", "A", "5.6.7.8");
    record.proxied = true;
    record.ttl = 300;
    let reply =
        DNSCreateResponse { result: Some(record), success: true, errors: vec![], messages: vec![] };
    assert_eq!(
        reply.details(200),
        Ok(DomainDetails {
            name: "sub.example.com".to_string(),
            record_type: "A".to_string(),
            content: "5.6.7.8".to_string(),
            proxied: true,
            ttl: 300,
            modified_on: Some("2024-02-02T00:00:00Z".to_string()),
        })
    );
}

#[test]
fn a_time_to_live_keeps_its_low_32_bits() {
    let mut record = reported("r1", "sub.example.com", "A", "5.6.7.8");
    record.ttl = 4294967297;
    let reply =
        DNSCreateResponse { result: Some(record), success: true, errors: vec![], messages: vec![] };
    assert_eq!(reply.details(200).map(|d| d.ttl), Ok(1));
    let mut record = reported("r1", "sub.example.com", "A", "5.6.7.8");
    record.ttl = -1;
    let reply =
        DNSCreateResponse { result: Some(record), success: true, errors: vec![], messages: vec![] };
    assert_eq!(reply.details(200).map(|d| d.ttl), Ok(4294967295));
}

#[test]
fn rejected_details_surface_the_errors() {
    let reply = DNSCreateResponse {
        result: None,
        success: false,
        errors: vec!["no such record".to_string()],
        messages: vec![],
    };
    assert_eq!(
        reply.details(404),
        Err(DnsError::Provider { status: 404, errors: vec!["no such record".to_string()] })
    );
}

#[test]
fn an_update_succeeds_only_with_success_and_a_2xx_status() {
    let ok = UpdateResponse { success: true, errors: vec![] };
    assert_eq!(ok.outcome(200), Ok(()));
    assert_eq!(ok.outcome(204), Ok(()));
    assert_eq!(ok.outcome(500), Err(DnsError::Provider { status: 500, errors: vec![] }));
    let rejected = UpdateResponse { success: false, errors: vec!["locked".to_string()] };
    assert_eq!(
        rejected.outcome(200),
        Err(DnsError::Provider { status: 200, errors: vec!["locked".to_string()] })
    );
}

#[test]
fn listings_give_what_they_hold_or_the_errors() {
    let zones = vec![Zone { id: "z1".to_string(), name: "example.com".to_string() }];
    let listed = ZoneResponse {
        result: Some(vec![Zone { id: "z1".to_string(), name: "example.com".to_string() }]),
        success: true,
        errors: vec![],
        messages: vec![],
    };
    assert_eq!(listed.zones(200), Ok(&zones));
    let null = ZoneResponse {
        result: None,
        success: true,
        errors: vec!["e".to_string()],
        messages: vec![],
    };
    assert_eq!(
        null.zones(200),
        Err(DnsError::Provider { status: 200, errors: vec!["e".to_string()] })
    );
    let records = vec![reported("r", "a.example.com", "A", "1.2.3.4")];
    let listing = DNSListResponse {
        result: Some(vec![reported("r", "a.example.com", "A", "1.2.3.4")]),
        success: true,
        errors: vec![],
        messages: vec![],
    };
    assert_eq!(listing.records(200), Ok(&records));
    assert_eq!(listing.records(403), Err(DnsError::Provider { status: 403, errors: vec![] }));
    let refused = DNSListResponse {
        result: Some(vec![]),
        success: false,
        errors: vec!["denied".to_string()],
        messages: vec![],
    };
    assert_eq!(
        refused.records(200),
        Err(DnsError::Provider { status: 200, errors: vec!["denied".to_string()] })
    );
}

#[test]
fn a_held_zone_takes_the_listed_name() {
    let mut provider = CloudflareProvider::new(provider_config());
    let renamed = Zone { id: "z1".to_string(), name: "renamed.com".to_string() };
    assert!(!provider.sync_zone(&renamed, true));
    let mut expected = provider_config();
    expected.cloudflare_config.domains[0].1.domain = "renamed.com".to_string();
    assert_eq!(provider.config(), &expected);
    assert!(!provider.sync_zone(&renamed, false));
    assert_eq!(provider.config(), &expected);
}

#[test]
fn a_new_zone_is_added_only_where_approved() {
    let mut provider = CloudflareProvider::new(provider_config());
    let fresh = Zone { id: "z9".to_string(), name: "fresh.io".to_string() };
    assert!(!provider.holds_zone("z9"));
    assert!(!provider.sync_zone(&fresh, false));
    assert_eq!(provider.config(), &provider_config());
    assert!(provider.sync_zone(&fresh, true));
    assert!(provider.holds_zone("z9"));
    assert_eq!(provider.find_zone("z9"), Some(3));
    let mut expected = provider_config();
    expected
        .cloudflare_config
        .domains
        .push(("z9".to_string(), Domain { records: vec![], domain: "fresh.io".to_string() }));
    assert_eq!(provider.config(), &expected);
}

#[test]
fn listed_zones_are_looked_at_in_order() {
    let mut provider = CloudflareProvider::new(provider_config());
    let listed = vec![
        Zone { id: "z2".to_string(), name: "example.dev".to_string() },
        Zone { id: "z7".to_string(), name: "seven.io".to_string() },
        Zone { id: "z8".to_string(), name: "eight.io".to_string() },
        Zone { id: "z7".to_string(), name: "seven.app".to_string() },
    ];
    provider.sync_zones(&listed, &vec![false, true]);
    let mut expected = provider_config();
    expected.cloudflare_config.domains[1].1.domain = "example.dev".to_string();
    expected
        .cloudflare_config
        .domains
        .push(("z7".to_string(), Domain { records: vec![], domain: "seven.app".to_string() }));
    assert_eq!(provider.config(), &expected);
}

#[test]
fn an_import_takes_in_address_records_that_point_here() {
    let mut provider = CloudflareProvider::new(provider_config());
    let listing = vec![
        reported("r1", "renamed.example.com", "A", "5.6.7.8"),
        reported("n1", "new.example.com", "A", "5.6.7.8"),
        reported("n2", "elsewhere.example.com", "A", "9.9.9.9"),
        reported("n3", "mail.example.com", "MX", "5.6.7.8"),
        reported("n4", "text.example.com", "TXT", "5.6.7.8"),
        reported("n1", "again.example.com", "A", "5.6.7.8"),
        reported("n5", "sub.example.com", "A", "5.6.7.8"),
    ];
    assert_eq!(provider.import("z1", "5.6.7.8", &listing), Ok(2));
    let mut expected = provider_config();
    expected.cloudflare_config.domains[0].1.records.push(held_record("n1", "new.example.com"));
    expected.cloudflare_config.domains[0].1.records.push(held_record("n5", "sub.example.com"));
    assert_eq!(provider.config(), &expected);
}

#[test]
fn an_import_takes_in_ipv6_records_as_such() {
    let mut provider = CloudflareProvider::new(provider_config());
    let listing = vec![
        reported("s1", "six.example.net", "AAAA", "2001:db8::1"),
        reported("s2", "four.example.net", "A", "2001:db8::1"),
        reported("s3", "other.example.net", "AAAA", "2001:db8::2"),
    ];
    assert_eq!(provider.import("z2", "2001:db8::1", &listing), Ok(2));
    let records = &provider.config().cloudflare_config.domains[1].1.records;
    assert_eq!(
        records,
        &vec![
            Record {
                id: "s1".to_string(),
                name: "six.example.net".to_string(),
                record_type: RecordType::AAA
            },
            held_record("s2", "four.example.net"),
        ]
    );
}

#[test]
fn an_import_run_again_adds_nothing() {
    let mut provider = CloudflareProvider::new(provider_config());
    let listing = vec![
        reported("n1", "new.example.com", "A", "5.6.7.8"),
        reported("n2", "newer.example.com", "A", "5.6.7.8"),
        reported("n1", "new.example.com", "A", "5.6.7.8"),
    ];
    assert_eq!(provider.import("z1", "5.6.7.8", &listing), Ok(2));
    let after_first = provider.config().clone();
    assert_eq!(after_first.cloudflare_config.domains[0].1.records.len(), 4);
    assert_eq!(provider.import("z1", "5.6.7.8", &listing), Ok(0));
    assert_eq!(provider.config(), &after_first);
    for (zone, (_, domain)) in provider.config().cloudflare_config.domains.iter().enumerate() {
        assert_eq!(
            domain.records.len(),
            after_first.cloudflare_config.domains[zone].1.records.len()
        );
    }
}

#[test]
fn an_import_into_an_unknown_zone_is_refused() {
    let mut provider = CloudflareProvider::new(provider_config());
    let listing = vec![reported("n1", "new.example.com", "A", "5.6.7.8")];
    assert_eq!(
        provider.import("nope", "5.6.7.8", &listing),
        Err(DnsError::ZoneNotFound { name: "nope".to_string() })
    );
    assert_eq!(provider.config(), &provider_config());
}

#[test]
fn the_identities_of_the_zones_come_in_order() {
    let provider = CloudflareProvider::new(provider_config());
    assert_eq!(provider.zone_ids(), vec!["z1", "z2", "z3"]);
    assert_eq!(CloudflareProvider::new(Config::get_default_config()).zone_ids().len(), 0);
}

#[test]
fn a_creation_without_an_identity_is_a_failure() {
    let reply = DNSCreateResponse {
        result: Some(reported("", "new.example.com", "A", "1.2.3.4")),
        success: true,
        errors: vec![],
        messages: vec![],
    };
    assert_eq!(reply.record_id(200), Err(DnsError::Provider { status: 200, errors: vec![] }));
    assert!(reply.details(200).is_ok());
}

#[test]
fn an_import_skips_records_without_an_identity() {
    let mut provider = CloudflareProvider::new(provider_config());
    let listing = vec![
        reported("", "nameless.example.net", "A", "5.6.7.8"),
        reported("n1", "named.example.net", "A", "5.6.7.8"),
    ];
    assert_eq!(provider.import("z2", "5.6.7.8", &listing), Ok(1));
    assert_eq!(
        provider.config().cloudflare_config.domains[1].1.records,
        vec![held_record("n1", "named.example.net")]
    );
    assert!(provider.config().is_well_formed());
}

#[test]
fn an_import_goes_by_identity_and_not_by_name() {
    let mut provider = CloudflareProvider::new(provider_config());
    let listing = vec![
        reported("r1-again", "sub.example.com", "A", "5.6.7.8"),
        reported("r2", "renamed.example.com", "A", "5.6.7.8"),
    ];
    assert_eq!(provider.import("z1", "5.6.7.8", &listing), Ok(1));
    assert_eq!(
        provider.config().cloudflare_config.domains[0].1.records,
        vec![
            held_record("r1", "sub.example.com"),
            held_record("r2", "othersub.example.com"),
            held_record("r1-again", "sub.example.com"),
        ]
    );
}

#[test]
fn the_places_of_the_records_come_zone_by_zone() {
    let config = provider_config();
    assert_eq!(record_places(&config.cloudflare_config.domains), vec![(0, 0), (0, 1), (2, 0)]);
    assert_eq!(record_places(&vec![]), vec![]);
}
