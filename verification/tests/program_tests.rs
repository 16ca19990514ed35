use dns_cli::cli_program::{CLIProgram, RecordChange};
use dns_cli::cloudflare_provider::{
    CloudflareProvider, DNSCreateResponse, DnsRecord, UpdateResponse, Zone,
};
use dns_cli::config::{CloudflareConfig, Config, Domain, Record, RecordType};
use dns_cli::dns_provider::{ApiRequest, HttpMethod, RecordBody};
use dns_cli::error::DnsError;

fn named(id: &str, name: &str) -> Record {
    Record { id: id.to_string(), name: name.to_string(), record_type: RecordType::A }
}

fn program_config() -> Config {
    Config {
        cloudflare_config: CloudflareConfig {
            api_token: "token".to_string(),
            domains: vec![
                ("zo".to_string(), Domain { records: vec![], domain: "example.org".to_string() }),
                (
                    "zc".to_string(),
                    Domain {
                        records: vec![
                            named("r1", "sub.example.com"),
                            named("r2", "othersub.example.com"),
                            named("r3", "third.example.com"),
                        ],
                        domain: "example.com".to_string(),
                    },
                ),
            ],
        },
        webhooks: vec![],
    }
}

fn listed(id: &str, name: &str, kind: &str, content: &str) -> DnsRecord {
    DnsRecord {
        id: id.to_string(),
        name: name.to_string(),
        type_field: kind.to_string(),
        content: content.to_string(),
        proxiable: true,
        proxied: true,
        ttl: 1,
        comment: "null".to_string(),
        tags: vec![],
        created_on: "".to_string(),
        modified_on: "".to_string(),
    }
}

fn created(id: &str, name: &str) -> DNSCreateResponse {
    DNSCreateResponse {
        result: Some(listed(id, name, "A", "1.2.3.4")),
        success: true,
        errors: vec![],
        messages: vec![],
    }
}

fn deleted() -> UpdateResponse {
    UpdateResponse { success: true, errors: vec![] }
}

fn program(dry_run: bool) -> CLIProgram<CloudflareProvider> {
    CLIProgram::new(CloudflareProvider::new(program_config()), true, dry_run, program_config())
}

fn names_in(program: &CLIProgram<CloudflareProvider>, zone: usize) -> Vec<String> {
    program.config().cloudflare_config.domains[zone]
        .1
        .records
        .iter()
        .map(|r| r.name.clone())
        .collect()
}

#[test]
fn a_program_keeps_what_it_was_made_with() {
    let program = program(true);
    assert!(program.dry_run());
    assert!(program.debug());
    assert_eq!(program.config(), &program_config());
    assert_eq!(program.api().config(), &program_config());
}

#[test]
fn records_are_listed_zone_by_zone() {
    let mut config = program_config();
    config.cloudflare_config.domains[0].1.records.push(Record {
        id: "r6".to_string(),
        name: "six.example.org".to_string(),
        record_type: RecordType::AAA,
    });
    let program = CLIProgram::new(CloudflareProvider::new(config.clone()), false, false, config);
    assert_eq!(
        program.ls(),
        vec![
            "six.example.org - AAAA",
            "sub.example.com - A",
            "othersub.example.com - A",
            "third.example.com - A",
        ]
    );
}

#[test]
fn nothing_is_listed_where_nothing_is_held() {
    let config = Config::get_default_config();
    let program = CLIProgram::new(CloudflareProvider::new(config.clone()), false, false, config);
    assert_eq!(program.ls(), Vec::<String>::new());
}

#[test]
fn a_registered_record_is_listed() {
    let mut program = program(false);
    let change = program.register_sub_domain("new.example.com".to_string()).unwrap();
    assert_eq!(
        change,
        RecordChange { zone_id: "zc".to_string(), record: named("", "new.example.com"), dry_run: false }
    );
    let request = program.registration_request(&change, Some("1.2.3.4".to_string()));
    assert_eq!(
        request,
        Ok(Some(ApiRequest {
            method: HttpMethod::Post,
            url: "https://api.cloudflare.com/client/v4/zones/zc/dns_records".to_string(),
            authorization: "Bearer token".to_string(),
            body: Some(RecordBody {
                record_type: "A".to_string(),
                name: "new.example.com".to_string(),
                content: "1.2.3.4".to_string(),
                proxied: Some(true),
            }),
        }))
    );
    assert_eq!(program.registration_request(&change, None), Err(DnsError::Lookup));
    assert_eq!(
        program.registration_request(&change, Some("1.2.3".to_string())),
        Err(DnsError::Lookup)
    );
    assert_eq!(program.complete_registration(&change, 200, &created("new-id", "new.example.com")), Ok(()));
    assert!(program.ls().contains(&"new.example.com - A".to_string()));
    let mut expected = program_config();
    expected.cloudflare_config.domains[1].1.records.push(named("new-id", "new.example.com"));
    assert_eq!(program.config(), &expected);
    assert_eq!(Config::get_config(Some(program.config().clone())), Ok(expected));
}

#[test]
fn a_record_is_registered_in_the_zone_of_its_two_trailing_labels() {
    let mut program = program(false);
    let change = program.register_sub_domain("deep.er.example.org".to_string()).unwrap();
    assert_eq!(change.zone_id, "zo");
    assert_eq!(program.complete_registration(&change, 201, &created("d1", "deep.er.example.org")), Ok(()));
    assert_eq!(names_in(&program, 0), vec!["deep.er.example.org"]);
    assert_eq!(names_in(&program, 1).len(), 3);
}

#[test]
fn a_registration_needs_a_held_zone() {
    let program = program(false);
    for name in ["sub.example.net", "example.com", "localhost", "", "sub.example.com."] {
        assert_eq!(
            program.register_sub_domain(name.to_string()),
            Err(DnsError::ZoneNotFound { name: name.to_string() })
        );
    }
    assert_eq!(program.config(), &program_config());
}

#[test]
fn a_dry_registration_changes_nothing() {
    let mut program = program(true);
    let change = program.register_sub_domain("new.example.com".to_string()).unwrap();
    assert!(change.dry_run);
    assert_eq!(program.registration_request(&change, Some("1.2.3.4".to_string())), Ok(None));
    assert_eq!(program.registration_request(&change, None), Ok(None));
    assert_eq!(program.complete_registration(&change, 200, &created("new-id", "new.example.com")), Ok(()));
    assert_eq!(program.config(), &program_config());
    assert_eq!(program.api().config(), &program_config());
}

#[test]
fn a_registration_into_a_vanished_zone_is_refused() {
    let mut program = program(false);
    let change = RecordChange {
        zone_id: "gone".to_string(),
        record: named("", "new.example.com"),
        dry_run: false,
    };
    assert_eq!(
        program.complete_registration(&change, 200, &created("id", "new.example.com")),
        Err(DnsError::ZoneNotFound { name: "new.example.com".to_string() })
    );
    assert_eq!(program.config(), &program_config());
}

#[test]
fn a_removal_takes_out_the_record_of_exactly_that_name() {
    let mut program = program(false);
    let change = program.remove_sub_domain("sub.example.com".to_string()).unwrap();
    assert_eq!(
        change,
        RecordChange { zone_id: "zc".to_string(), record: named("r1", "sub.example.com"), dry_run: false }
    );
    assert_eq!(
        program.removal_request(&change),
        Some(ApiRequest {
            method: HttpMethod::Delete,
            url: "https://api.cloudflare.com/client/v4/zones/zc/dns_records/r1".to_string(),
            authorization: "Bearer token".to_string(),
            body: None,
        })
    );
    assert_eq!(program.complete_removal(&change, 200, &deleted()), Ok(()));
    assert_eq!(names_in(&program, 1), vec!["third.example.com", "othersub.example.com"]);
    assert!(program.ls().contains(&"othersub.example.com - A".to_string()));
    assert!(!program.ls().contains(&"sub.example.com - A".to_string()));
    assert_eq!(names_in(&program, 0), Vec::<String>::new());
}

#[test]
fn removing_the_last_record_of_a_zone_keeps_the_others_in_place() {
    let mut program = program(false);
    let change = program.remove_sub_domain("third.example.com".to_string()).unwrap();
    assert_eq!(program.complete_removal(&change, 200, &deleted()), Ok(()));
    assert_eq!(names_in(&program, 1), vec!["sub.example.com", "othersub.example.com"]);
}

#[test]
fn removing_an_absent_name_fails_and_changes_nothing() {
    let mut program = program(false);
    for name in ["absent.example.com", "ub.example.com", "sub.example.com.example.com"] {
        assert_eq!(
            program.remove_sub_domain(name.to_string()),
            Err(DnsError::RecordNotFound { name: name.to_string() })
        );
    }
    assert_eq!(
        program.remove_sub_domain("sub.example.net".to_string()),
        Err(DnsError::ZoneNotFound { name: "sub.example.net".to_string() })
    );
    assert_eq!(
        program.remove_sub_domain("sub".to_string()),
        Err(DnsError::ZoneNotFound { name: "sub".to_string() })
    );
    assert_eq!(program.config(), &program_config());
    let absent = RecordChange {
        zone_id: "zc".to_string(),
        record: named("r7", "absent.example.com"),
        dry_run: false,
    };
    assert_eq!(
        program.complete_removal(&absent, 200, &deleted()),
        Err(DnsError::RecordNotFound { name: "absent.example.com".to_string() })
    );
    let vanished = RecordChange {
        zone_id: "gone".to_string(),
        record: named("r1", "sub.example.com"),
        dry_run: false,
    };
    assert_eq!(
        program.complete_removal(&vanished, 200, &deleted()),
        Err(DnsError::ZoneNotFound { name: "sub.example.com".to_string() })
    );
    assert_eq!(program.config(), &program_config());
}

#[test]
fn a_dry_removal_changes_nothing() {
    let mut program = program(true);
    let change = program.remove_sub_domain("sub.example.com".to_string()).unwrap();
    assert!(change.dry_run);
    assert_eq!(program.removal_request(&change), None);
    assert_eq!(program.complete_removal(&change, 200, &deleted()), Ok(()));
    assert_eq!(program.config(), &program_config());
    assert_eq!(
        program.remove_sub_domain("absent.example.com".to_string()),
        Err(DnsError::RecordNotFound { name: "absent.example.com".to_string() })
    );
}

#[test]
fn updates_are_built_unless_the_run_is_dry() {
    let requests = program(false).update_records("5.6.7.8");
    assert_eq!(requests.len(), 3);
    assert_eq!(requests[0].url, "https://api.cloudflare.com/client/v4/zones/zc/dns_records/r1");
    assert_eq!(program(true).update_records("5.6.7.8"), vec![]);
}

#[test]
fn an_import_goes_to_the_backend_unless_the_run_is_dry() {
    let listings = vec![
        Some(vec![listed("n1", "found.example.org", "A", "5.6.7.8")]),
        Some(vec![
            listed("r2", "othersub.example.com", "A", "5.6.7.8"),
            listed("n2", "also.example.com", "A", "5.6.7.8"),
            listed("n3", "mail.example.com", "MX", "5.6.7.8"),
            listed("n4", "far.example.com", "A", "9.9.9.9"),
        ]),
    ];
    let mut dry = program(true);
    assert_eq!(dry.import("5.6.7.8", &listings), Vec::<usize>::new());
    assert_eq!(dry.api().config(), &program_config());

    let mut live = program(false);
    assert_eq!(live.import("5.6.7.8", &listings), vec![1, 1]);
    let mut expected = program_config();
    expected.cloudflare_config.domains[0].1.records.push(named("n1", "found.example.org"));
    expected.cloudflare_config.domains[1].1.records.push(named("n2", "also.example.com"));
    assert_eq!(live.api().config(), &expected);
    assert_eq!(live.config(), &program_config());

    assert_eq!(live.import("5.6.7.8", &listings), vec![0, 0]);
    assert_eq!(live.api().config(), &expected);
}

#[test]
fn an_import_leaves_a_zone_alone_where_nothing_was_listed_for_it() {
    let mut live = program(false);
    let only_second = vec![None, Some(vec![listed("n2", "also.example.com", "A", "5.6.7.8")])];
    assert_eq!(live.import("5.6.7.8", &only_second), vec![0, 1]);
    let short = vec![Some(vec![listed("n1", "found.example.org", "A", "5.6.7.8")])];
    assert_eq!(live.import("5.6.7.8", &short), vec![1, 0]);
    let long = vec![None, None, Some(vec![listed("n9", "x.example.org", "A", "5.6.7.8")])];
    assert_eq!(live.import("5.6.7.8", &long), vec![0, 0]);
    assert_eq!(live.import("5.6.7.8", &vec![]), vec![0, 0]);
    let mut expected = program_config();
    expected.cloudflare_config.domains[0].1.records.push(named("n1", "found.example.org"));
    expected.cloudflare_config.domains[1].1.records.push(named("n2", "also.example.com"));
    assert_eq!(live.api().config(), &expected);
}

#[test]
fn an_inspection_asks_for_the_matching_record() {
    let program = program(false);
    assert_eq!(
        program.inspect_domain("third").map(|r| r.url),
        Ok("https://api.cloudflare.com/client/v4/zones/zc/dns_records/r3".to_string())
    );
    assert_eq!(
        program.inspect_domain("fourth"),
        Err(DnsError::NoMatch { prefix: "fourth".to_string() })
    );
}

#[test]
fn a_listed_zone_is_looked_at_unless_the_run_is_dry() {
    let fresh = Zone { id: "zn".to_string(), name: "example.net".to_string() };
    let renamed = Zone { id: "zo".to_string(), name: "example.dev".to_string() };

    let mut dry = program(true);
    assert!(!dry.sync_zone(&fresh, true));
    assert!(!dry.sync_zone(&renamed, true));
    assert_eq!(dry.api().config(), &program_config());

    let mut live = program(false);
    assert!(!live.sync_zone(&fresh, false));
    assert!(live.sync_zone(&fresh, true));
    assert!(!live.sync_zone(&fresh, true));
    assert!(!live.sync_zone(&renamed, false));
    let mut expected = program_config();
    expected.cloudflare_config.domains[0].1.domain = "example.dev".to_string();
    expected
        .cloudflare_config
        .domains
        .push(("zn".to_string(), Domain { records: vec![], domain: "example.net".to_string() }));
    assert_eq!(live.api().config(), &expected);
    assert_eq!(live.config(), &program_config());
}

#[test]
fn a_rejected_creation_registers_nothing() {
    let mut program = program(false);
    let change = program.register_sub_domain("new.example.com".to_string()).unwrap();
    let rejected = DNSCreateResponse {
        result: None,
        success: false,
        errors: vec!["record already exists".to_string()],
        messages: vec![],
    };
    assert_eq!(
        program.complete_registration(&change, 400, &rejected),
        Err(DnsError::Provider { status: 400, errors: vec!["record already exists".to_string()] })
    );
    assert_eq!(
        program.complete_registration(&change, 500, &created("new-id", "new.example.com")),
        Err(DnsError::Provider { status: 500, errors: vec![] })
    );
    assert_eq!(
        program.complete_registration(&change, 200, &created("", "new.example.com")),
        Err(DnsError::Provider { status: 200, errors: vec![] })
    );
    assert_eq!(program.config(), &program_config());
}

#[test]
fn a_rejected_deletion_removes_nothing() {
    let mut program = program(false);
    let change = program.remove_sub_domain("sub.example.com".to_string()).unwrap();
    let rejected = UpdateResponse { success: false, errors: vec!["locked".to_string()] };
    assert_eq!(
        program.complete_removal(&change, 200, &rejected),
        Err(DnsError::Provider { status: 200, errors: vec!["locked".to_string()] })
    );
    assert_eq!(
        program.complete_removal(&change, 404, &deleted()),
        Err(DnsError::Provider { status: 404, errors: vec![] })
    );
    assert_eq!(program.config(), &program_config());
}

#[test]
fn a_zone_of_more_than_two_labels_owns_no_name() {
    let mut config = program_config();
    config.cloudflare_config.domains.push((
        "zu".to_string(),
        Domain { records: vec![named("u1", "www.example.co.uk")], domain: "example.co.uk".to_string() },
    ));
    let program = CLIProgram::new(CloudflareProvider::new(config.clone()), false, false, config);
    assert_eq!(
        program.register_sub_domain("sub.example.co.uk".to_string()),
        Err(DnsError::ZoneNotFound { name: "sub.example.co.uk".to_string() })
    );
    assert_eq!(
        program.remove_sub_domain("www.example.co.uk".to_string()),
        Err(DnsError::ZoneNotFound { name: "www.example.co.uk".to_string() })
    );
}
