use dns_cli::check_cycle::{CheckAction, CheckCycle, CheckEvent, Phase};
use dns_cli::cli_program::CLIProgram;
use dns_cli::cloudflare_provider::CloudflareProvider;
use dns_cli::config::{CloudflareConfig, Config, Domain, Record, RecordType};
use dns_cli::discord_webhook::DiscordWebhook;
use dns_cli::dns_provider::{ApiRequest, HttpMethod, RecordBody};
use dns_cli::error::DnsError;
use dns_cli::webhook_notifier::{
    notify_all, WebhookCall, WebhookNotifier, WebhookNotifierType,
};

fn cycle_config() -> Config {
    Config {
        cloudflare_config: CloudflareConfig {
            api_token: "token".to_string(),
            domains: vec![(
                "zone-1".to_string(),
                Domain {
                    records: vec![Record {
                        id: "rec-1".to_string(),
                        name: "sub.example.com".to_string(),
                        record_type: RecordType::A,
                    }],
                    domain: "example.com".to_string(),
                },
            )],
        },
        webhooks: vec![WebhookNotifierType::DiscordWebhook(DiscordWebhook::new(
            "https://discord.test/api/webhooks/1".to_string(),
        ))],
    }
}

fn cycle_program(dry_run: bool) -> CLIProgram<CloudflareProvider> {
    CLIProgram::new(CloudflareProvider::new(cycle_config()), false, dry_run, cycle_config())
}

fn expected_call(from: &str, to: &str) -> WebhookCall {
    WebhookCall {
        url: "https://discord.test/api/webhooks/1".to_string(),
        content: format!("IP changed from {} to {}", from, to),
    }
}

fn expected_update(ip: &str) -> ApiRequest {
    ApiRequest {
        method: HttpMethod::Patch,
        url: "https://api.cloudflare.com/client/v4/zones/zone-1/dns_records/rec-1".to_string(),
        authorization: "Bearer token".to_string(),
        body: Some(RecordBody {
            record_type: "A".to_string(),
            name: "sub.example.com".to_string(),
            content: ip.to_string(),
            proxied: None,
        }),
    }
}

/// Runs a cycle to its end, answering each action as the outside would:
/// every update is accepted but the first ones, which fail with `failures`.
fn drive(
    program: &CLIProgram<CloudflareProvider>,
    force: bool,
    last_ip: Option<&str>,
    current_ip: &str,
    failures: Vec<DnsError>,
) -> (Vec<CheckAction>, Vec<Phase>) {
    let mut actions = Vec::new();
    let mut phases = Vec::new();
    let mut cycle = program.check_for_new_ip(force);
    let mut event = CheckEvent::Proceed;
    let mut failures = Some(failures);
    let mut steps = 0;
    while !cycle.is_done() {
        steps += 1;
        assert!(steps <= 6);
        let (next, action) = program.advance(cycle, event);
        event = match &action {
            CheckAction::Fetch => CheckEvent::Fetched {
                last_ip: last_ip.map(|ip| ip.to_string()),
                answer: Some(current_ip.to_string()),
            },
            CheckAction::Apply { requests } => {
                let mut outcomes: Vec<Result<(), DnsError>> =
                    failures.take().unwrap_or_default().into_iter().map(Err).collect();
                while outcomes.len() < requests.len() {
                    outcomes.push(Ok(()));
                }
                CheckEvent::Applied { outcomes }
            }
            _ => CheckEvent::Proceed,
        };
        phases.push(next.phase);
        actions.push(action);
        cycle = next;
    }
    (actions, phases)
}

fn count_stores(actions: &[CheckAction]) -> usize {
    actions.iter().filter(|a| matches!(a, CheckAction::Persist { .. })).count()
}

fn count_posts(actions: &[CheckAction]) -> usize {
    actions
        .iter()
        .map(|a| match a {
            CheckAction::Notify { calls } => calls.len(),
            _ => 0,
        })
        .sum()
}

fn count_sends(actions: &[CheckAction]) -> usize {
    actions
        .iter()
        .map(|a| match a {
            CheckAction::Apply { requests } => requests.len(),
            _ => 0,
        })
        .sum()
}

#[test]
fn a_new_cycle_is_idle() {
    let program = cycle_program(false);
    assert_eq!(
        program.check_for_new_ip(true),
        CheckCycle {
            phase: Phase::Idle,
            force: true,
            old_ip: String::new(),
            new_ip: String::new(),
            pending: 0
        }
    );
    assert!(!program.check_for_new_ip(false).is_done());
}

#[test]
fn a_first_run_only_stores_the_address() {
    for force in [false, true] {
        let program = cycle_program(false);
        let (actions, phases) = drive(&program, force, None, "5.6.7.8", vec![]);
        assert_eq!(
            actions,
            vec![
                CheckAction::Fetch,
                CheckAction::Persist { ip: "5.6.7.8".to_string() },
                CheckAction::Nothing,
            ]
        );
        assert_eq!(phases, vec![Phase::Fetching, Phase::Persisting, Phase::Done]);
        assert_eq!(count_stores(&actions), 1);
        assert_eq!(count_posts(&actions), 0);
        assert_eq!(count_sends(&actions), 0);
    }
}

#[test]
fn an_unchanged_address_does_nothing() {
    for dry_run in [false, true] {
        let program = cycle_program(dry_run);
        let (actions, phases) = drive(&program, false, Some("1.2.3.4"), "1.2.3.4", vec![]);
        assert_eq!(actions, vec![CheckAction::Fetch, CheckAction::Nothing, CheckAction::Nothing]);
        assert_eq!(phases, vec![Phase::Fetching, Phase::Unchanged, Phase::Done]);
        assert_eq!(count_stores(&actions), 0);
        assert_eq!(count_posts(&actions), 0);
        assert_eq!(count_sends(&actions), 0);
    }
}

#[test]
fn a_changed_address_notifies_updates_and_stores() {
    let program = cycle_program(false);
    let (actions, phases) = drive(&program, false, Some("1.2.3.4"), "5.6.7.8", vec![]);
    assert_eq!(
        actions,
        vec![
            CheckAction::Fetch,
            CheckAction::Nothing,
            CheckAction::Notify { calls: vec![expected_call("1.2.3.4", "5.6.7.8")] },
            CheckAction::Apply { requests: vec![expected_update("5.6.7.8")] },
            CheckAction::Persist { ip: "5.6.7.8".to_string() },
            CheckAction::Nothing,
        ]
    );
    assert_eq!(
        phases,
        vec![
            Phase::Fetching,
            Phase::Changed,
            Phase::Notifying,
            Phase::Applying,
            Phase::Persisting,
            Phase::Done
        ]
    );
    match &actions[2] {
        CheckAction::Notify { calls } => {
            assert_eq!(calls.len(), 1);
            assert!(calls[0].content.contains("1.2.3.4"));
            assert!(calls[0].content.contains("5.6.7.8"));
        }
        other => panic!("{:?}", other),
    }
}

#[test]
fn a_forced_update_runs_the_whole_path_once() {
    let program = cycle_program(false);
    let (actions, _) = drive(&program, true, Some("1.2.3.4"), "1.2.3.4", vec![]);
    assert_eq!(
        actions,
        vec![
            CheckAction::Fetch,
            CheckAction::Nothing,
            CheckAction::Notify { calls: vec![expected_call("1.2.3.4", "1.2.3.4")] },
            CheckAction::Apply { requests: vec![expected_update("1.2.3.4")] },
            CheckAction::Persist { ip: "1.2.3.4".to_string() },
            CheckAction::Nothing,
        ]
    );
    assert_eq!(count_stores(&actions), 1);
    assert_eq!(count_posts(&actions), 1);
    assert_eq!(count_sends(&actions), 1);
}

#[test]
fn a_dry_run_describes_and_does_nothing() {
    let program = cycle_program(true);
    let (actions, phases) = drive(&program, false, Some("1.2.3.4"), "5.6.7.8", vec![]);
    assert_eq!(
        actions,
        vec![
            CheckAction::Fetch,
            CheckAction::Describe {
                notifications: vec![expected_call("1.2.3.4", "5.6.7.8")],
                updates: vec![expected_update("5.6.7.8")],
                ip: "5.6.7.8".to_string(),
            },
            CheckAction::Nothing,
        ]
    );
    assert_eq!(phases, vec![Phase::Fetching, Phase::DryRunShortCircuit, Phase::Done]);
    assert_eq!(count_stores(&actions), 0);
    assert_eq!(count_posts(&actions), 0);
    assert_eq!(count_sends(&actions), 0);
    assert_eq!(program.config(), &cycle_config());
    assert_eq!(program.api().config(), &cycle_config());
}

#[test]
fn a_forced_dry_run_does_nothing_either() {
    let program = cycle_program(true);
    let (actions, _) = drive(&program, true, Some("1.2.3.4"), "1.2.3.4", vec![]);
    assert_eq!(actions.len(), 3);
    assert!(matches!(actions[1], CheckAction::Describe { .. }));
    assert_eq!(count_stores(&actions) + count_posts(&actions) + count_sends(&actions), 0);
}

#[test]
fn a_dry_first_run_stores_nothing() {
    let program = cycle_program(true);
    let (actions, phases) = drive(&program, false, None, "5.6.7.8", vec![]);
    assert_eq!(
        actions,
        vec![
            CheckAction::Fetch,
            CheckAction::Describe {
                notifications: vec![],
                updates: vec![],
                ip: "5.6.7.8".to_string()
            },
            CheckAction::Nothing,
        ]
    );
    assert_eq!(phases, vec![Phase::Fetching, Phase::DryRunShortCircuit, Phase::Done]);
}

#[test]
fn a_rejected_update_keeps_the_last_known_address() {
    let program = cycle_program(false);
    let rejected = DnsError::Provider { status: 400, errors: vec!["locked".to_string()] };
    let (actions, phases) =
        drive(&program, false, Some("1.2.3.4"), "5.6.7.8", vec![rejected.clone()]);
    assert_eq!(
        actions,
        vec![
            CheckAction::Fetch,
            CheckAction::Nothing,
            CheckAction::Notify { calls: vec![expected_call("1.2.3.4", "5.6.7.8")] },
            CheckAction::Apply { requests: vec![expected_update("5.6.7.8")] },
            CheckAction::Fail { errors: vec![rejected] },
        ]
    );
    assert_eq!(phases.last(), Some(&Phase::Done));
    assert_eq!(count_stores(&actions), 0);
}

#[test]
fn a_failed_lookup_ends_the_cycle_before_anything_is_done() {
    let program = cycle_program(false);
    let cycle = program.check_for_new_ip(false);
    let (cycle, action) = program.advance(cycle, CheckEvent::Proceed);
    assert_eq!(action, CheckAction::Fetch);
    let (cycle, action) = program.advance(
        cycle,
        CheckEvent::Fetched { last_ip: Some("1.2.3.4".to_string()), answer: None },
    );
    assert_eq!(action, CheckAction::Fail { errors: vec![DnsError::Lookup] });
    assert!(cycle.is_done());
    let (cycle, action) = program.advance(cycle, CheckEvent::Proceed);
    assert_eq!(action, CheckAction::Nothing);
    assert!(cycle.is_done());
}

#[test]
fn an_event_out_of_turn_ends_the_cycle() {
    let program = cycle_program(false);
    let cycle = program.check_for_new_ip(false);
    let (cycle, action) = program.advance(
        cycle,
        CheckEvent::Fetched { last_ip: None, answer: Some("5.6.7.8".to_string()) },
    );
    assert_eq!(action, CheckAction::Nothing);
    assert!(cycle.is_done());

    let cycle = program.check_for_new_ip(false);
    let (cycle, _) = program.advance(cycle, CheckEvent::Proceed);
    let (cycle, action) = program.advance(cycle, CheckEvent::Proceed);
    assert_eq!(action, CheckAction::Nothing);
    assert!(cycle.is_done());

    let cycle = CheckCycle {
        phase: Phase::Applying,
        force: false,
        old_ip: "1.2.3.4".to_string(),
        new_ip: "5.6.7.8".to_string(),
        pending: 1,
    };
    let (cycle, action) = program.advance(cycle, CheckEvent::Proceed);
    assert_eq!(action, CheckAction::Nothing);
    assert!(cycle.is_done());
}

#[test]
fn notifications_go_to_every_webhook_in_order() {
    let webhooks = vec![
        WebhookNotifierType::DiscordWebhook(DiscordWebhook::new("https://one".to_string())),
        WebhookNotifierType::DiscordWebhook(DiscordWebhook::new("https://two".to_string())),
    ];
    let calls = notify_all(&webhooks, &"1.1.1.1".to_string(), &"2.2.2.2".to_string());
    assert_eq!(
        calls,
        vec![
            WebhookCall {
                url: "https://one".to_string(),
                content: "IP changed from 1.1.1.1 to 2.2.2.2".to_string()
            },
            WebhookCall {
                url: "https://two".to_string(),
                content: "IP changed from 1.1.1.1 to 2.2.2.2".to_string()
            },
        ]
    );
    assert_eq!(notify_all(&vec![], &"a".to_string(), &"b".to_string()), vec![]);
}

#[test]
fn a_discord_webhook_posts_the_change_to_its_address() {
    let webhook = DiscordWebhook::new("https://discord.test/hook".to_string());
    assert_eq!(webhook.url(), "https://discord.test/hook");
    let call = webhook.change_ip(&"1.2.3.4".to_string(), &"5.6.7.8".to_string());
    assert_eq!(
        call,
        WebhookCall {
            url: "https://discord.test/hook".to_string(),
            content: "IP changed from 1.2.3.4 to 5.6.7.8".to_string()
        }
    );
    let tagged = WebhookNotifierType::DiscordWebhook(webhook);
    assert_eq!(tagged.change_ip(&"1.2.3.4".to_string(), &"5.6.7.8".to_string()), call);
}

#[test]
fn several_records_and_webhooks_are_all_served() {
    let mut config = cycle_config();
    config.cloudflare_config.domains[0].1.records.push(Record {
        id: "rec-2".to_string(),
        name: "other.example.com".to_string(),
        record_type: RecordType::A,
    });
    config.add_webhook(WebhookNotifierType::DiscordWebhook(DiscordWebhook::new(
        "https://discord.test/api/webhooks/2".to_string(),
    )));
    let program = CLIProgram::new(CloudflareProvider::new(config.clone()), true, false, config);
    let (actions, _) = drive(&program, false, Some("1.2.3.4"), "5.6.7.8", vec![]);
    assert_eq!(count_posts(&actions), 2);
    assert_eq!(count_sends(&actions), 2);
    assert_eq!(count_stores(&actions), 1);
}

#[test]
fn an_empty_last_address_is_an_address_and_no_first_run() {
    let program = cycle_program(false);
    let (actions, phases) = drive(&program, false, Some(""), "5.6.7.8", vec![]);
    assert_eq!(phases[1], Phase::Changed);
    assert_eq!(actions[2], CheckAction::Notify { calls: vec![expected_call("", "5.6.7.8")] });
    assert_eq!(count_stores(&actions), 1);
    assert_eq!(count_sends(&actions), 1);
}

#[test]
fn an_ipv6_address_is_applied_like_any_other() {
    let program = cycle_program(false);
    let (actions, _) = drive(&program, false, Some("2001:db8::1"), "2001:db8::2", vec![]);
    assert_eq!(actions[3], CheckAction::Apply { requests: vec![expected_update("2001:db8::2")] });
    assert_eq!(actions[4], CheckAction::Persist { ip: "2001:db8::2".to_string() });
}

#[test]
fn no_step_of_a_dry_run_has_anything_done() {
    let program = cycle_program(true);
    for phase in [
        Phase::Idle,
        Phase::Fetching,
        Phase::Unchanged,
        Phase::Changed,
        Phase::DryRunShortCircuit,
        Phase::Notifying,
        Phase::Applying,
        Phase::Persisting,
        Phase::Done,
    ] {
        for event in 0..4 {
            let cycle = CheckCycle {
                phase,
                force: true,
                old_ip: "1.2.3.4".to_string(),
                new_ip: "5.6.7.8".to_string(),
                pending: 0,
            };
            let event = match event {
                0 => CheckEvent::Proceed,
                1 => CheckEvent::Fetched {
                    last_ip: Some("1.2.3.4".to_string()),
                    answer: Some("5.6.7.8".to_string()),
                },
                2 => CheckEvent::Fetched { last_ip: None, answer: None },
                _ => CheckEvent::Applied { outcomes: vec![] },
            };
            let (_, action) = program.advance(cycle, event);
            assert!(
                !matches!(
                    action,
                    CheckAction::Notify { .. }
                        | CheckAction::Apply { .. }
                        | CheckAction::Persist { .. }
                ),
                "{:?}",
                action
            );
        }
    }
}

#[test]
fn a_malformed_answer_ends_the_cycle_before_anything_is_done() {
    for dry_run in [false, true] {
        for answer in ["", "5.6.7.8\n", "<html>", "1.2.3", "999.1.1.1"] {
            let program = cycle_program(dry_run);
            let (actions, phases) = drive(&program, true, Some("1.2.3.4"), answer, vec![]);
            assert_eq!(
                actions,
                vec![CheckAction::Fetch, CheckAction::Fail { errors: vec![DnsError::Lookup] }]
            );
            assert_eq!(phases, vec![Phase::Fetching, Phase::Done]);
        }
    }
}

#[test]
fn an_update_without_an_outcome_keeps_the_last_known_address() {
    let program = cycle_program(false);
    let applying = || CheckCycle {
        phase: Phase::Applying,
        force: false,
        old_ip: "1.2.3.4".to_string(),
        new_ip: "5.6.7.8".to_string(),
        pending: 2,
    };
    let (cycle, action) =
        program.advance(applying(), CheckEvent::Applied { outcomes: vec![Ok(())] });
    assert_eq!(action, CheckAction::Fail { errors: vec![] });
    assert!(cycle.is_done());
    let (cycle, action) =
        program.advance(applying(), CheckEvent::Applied { outcomes: vec![Ok(()), Ok(()), Ok(())] });
    assert_eq!(action, CheckAction::Fail { errors: vec![] });
    assert!(cycle.is_done());
    let (cycle, action) =
        program.advance(applying(), CheckEvent::Applied { outcomes: vec![Ok(()), Ok(())] });
    assert_eq!(action, CheckAction::Persist { ip: "5.6.7.8".to_string() });
    assert_eq!(cycle.phase, Phase::Persisting);
    let lost = DnsError::Provider { status: 0, errors: vec!["timed out".to_string()] };
    let (cycle, action) = program.advance(
        applying(),
        CheckEvent::Applied { outcomes: vec![Ok(()), Err(lost.clone())] },
    );
    assert_eq!(action, CheckAction::Fail { errors: vec![lost] });
    assert!(cycle.is_done());
}

#[test]
fn the_failures_among_outcomes_come_in_order() {
    let first = DnsError::Provider { status: 400, errors: vec!["a".to_string()] };
    let second = DnsError::Provider { status: 500, errors: vec![] };
    let outcomes = vec![Ok(()), Err(first.clone()), Ok(()), Err(second.clone())];
    assert_eq!(dns_cli::check_cycle::failures(&outcomes), vec![first, second]);
    assert_eq!(dns_cli::check_cycle::failures(&vec![Ok(()), Ok(())]), vec![]);
    assert_eq!(dns_cli::check_cycle::failures(&vec![]), vec![]);
}
