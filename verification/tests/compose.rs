use io_pim_discovery::compose::client::{
    apply_probe_results, apply_resolved_issuers, dav_config_service, distinct_issuers,
    domain_part, issuer_grants, issuer_url, local_part, next_probe_step, normalize_domain,
    parse_email, plan_mechanisms, raw_configs, reduce_outputs, DiscoveryComposeClientStdError,
    DiscoveryDavService, Mechanism, OauthServerEndpoints, ProbeStep,
};
use io_pim_discovery::compose::collect::DiscoveryConfigCollector;
use io_pim_discovery::compose::config::{
    DiscoveryAuthMethod, DiscoveryConfigSource, DiscoveryEndpoint, DiscoverySecurity,
    DiscoveryService, DiscoveryServiceConfig,
};

fn tcp(service: DiscoveryService, host: &str, port: u16, auth: Vec<DiscoveryAuthMethod>, source: DiscoveryConfigSource) -> DiscoveryServiceConfig {
    DiscoveryServiceConfig {
        service,
        endpoint: DiscoveryEndpoint::Tcp { host: host.to_string(), port, security: DiscoverySecurity::Tls },
        username: Some("alice@example.com".to_string()),
        auth,
        source,
    }
}

fn http(service: DiscoveryService, url: &str, auth: Vec<DiscoveryAuthMethod>, source: DiscoveryConfigSource) -> DiscoveryServiceConfig {
    DiscoveryServiceConfig {
        service,
        endpoint: DiscoveryEndpoint::Http(url.to_string()),
        username: None,
        auth,
        source,
    }
}

fn issuer(url: &str) -> DiscoveryAuthMethod {
    DiscoveryAuthMethod::OauthIssuer(url.to_string())
}

#[test]
fn domain_part_lowercases_and_trims_the_domain() {
    assert_eq!(domain_part("  User@Example.COM. "), "example.com");
    assert_eq!(domain_part("alice@..Mail.Example.Net.."), "mail.example.net");
}

#[test]
fn domain_part_without_at_is_the_whole_input() {
    assert_eq!(domain_part(" Example.ORG "), "example.org");
    assert_eq!(domain_part(""), "");
}

#[test]
fn domain_part_splits_at_the_first_at() {
    assert_eq!(domain_part("a@B@c.com"), "b@c.com");
}

#[test]
fn normalize_domain_trims_unicode_white_space_and_keeps_non_ascii() {
    assert_eq!(normalize_domain("\u{3000}\tÄB.Com.\u{a0}"), "Äb.com");
    assert_eq!(normalize_domain(" . a . "), "a");
    assert_eq!(normalize_domain(". \t.Example.org. \u{3000}."), "example.org");
    assert_eq!(normalize_domain("..."), "");
}

#[test]
fn local_part_is_before_the_first_at_or_empty() {
    assert_eq!(local_part("john.doe@example.com"), "john.doe");
    assert_eq!(local_part("example.com"), "");
    assert_eq!(local_part("@example.com"), "");
}

#[test]
fn parse_email_reads_local_part_and_domain() {
    let (local, domain) = parse_email("  Alice@Example.COM.. ").unwrap();
    assert_eq!(local, "Alice");
    assert_eq!(domain, "example.com");
}

#[test]
fn parse_email_refuses_an_address_without_at() {
    match parse_email("  not-an-address ") {
        Err(DiscoveryComposeClientStdError::InvalidEmail(input)) => assert_eq!(input, "not-an-address"),
        Ok(_) => panic!("accepted an address without @"),
    }
}

#[test]
fn plan_runs_every_mechanism_in_priority_order_for_all_services() {
    assert_eq!(
        plan_mechanisms(&vec![], false),
        vec![
            Mechanism::Mx,
            Mechanism::Pacc,
            Mechanism::IspMain,
            Mechanism::IspFallback,
            Mechanism::Mailconf,
            Mechanism::Ispdb,
            Mechanism::Srv,
            Mechanism::Caldav,
            Mechanism::Carddav,
            Mechanism::Jmap,
        ]
    );
}

#[test]
fn plan_skips_mx_when_the_provider_rule_matched() {
    let plan = plan_mechanisms(&vec![], true);
    assert_eq!(plan.len(), 9);
    assert_eq!(plan[0], Mechanism::Pacc);
}

#[test]
fn plan_keeps_to_the_requested_services() {
    assert_eq!(
        plan_mechanisms(&vec![DiscoveryService::Caldav], false),
        vec![Mechanism::Mx, Mechanism::Pacc, Mechanism::Caldav]
    );
    assert_eq!(
        plan_mechanisms(&vec![DiscoveryService::Pop3], true),
        vec![
            Mechanism::Pacc,
            Mechanism::IspMain,
            Mechanism::IspFallback,
            Mechanism::Mailconf,
            Mechanism::Ispdb,
        ]
    );
    assert_eq!(
        plan_mechanisms(&vec![DiscoveryService::Smtp, DiscoveryService::Jmap], true),
        vec![
            Mechanism::Pacc,
            Mechanism::IspMain,
            Mechanism::IspFallback,
            Mechanism::Mailconf,
            Mechanism::Ispdb,
            Mechanism::Srv,
            Mechanism::Jmap,
        ]
    );
    assert_eq!(plan_mechanisms(&vec![DiscoveryService::Webdav], true), vec![Mechanism::Pacc]);
}

#[test]
fn collector_merges_methods_of_the_same_target_and_keeps_the_first_source() {
    let mut collector = DiscoveryConfigCollector::new(vec![]);
    collector.collect(vec![tcp(
        DiscoveryService::Imap,
        "imap.example.com",
        993,
        vec![DiscoveryAuthMethod::Password],
        DiscoveryConfigSource::Pacc,
    )]);
    collector.collect(vec![tcp(
        DiscoveryService::Imap,
        "imap.example.com",
        993,
        vec![DiscoveryAuthMethod::Password, issuer("https://id.example.com")],
        DiscoveryConfigSource::Srv,
    )]);
    let configs = collector.finish();
    assert_eq!(configs.len(), 1);
    assert_eq!(configs[0].auth, vec![DiscoveryAuthMethod::Password, issuer("https://id.example.com")]);
    assert_eq!(configs[0].source, DiscoveryConfigSource::Pacc);
}

#[test]
fn collector_drops_unrequested_services_and_keeps_distinct_targets() {
    let mut collector = DiscoveryConfigCollector::new(vec![DiscoveryService::Imap]);
    assert!(collector.is_empty());
    collector.collect(vec![
        tcp(DiscoveryService::Smtp, "smtp.example.com", 465, vec![], DiscoveryConfigSource::Srv),
        tcp(DiscoveryService::Imap, "imap.example.com", 993, vec![], DiscoveryConfigSource::Srv),
        tcp(DiscoveryService::Imap, "imap.example.com", 143, vec![], DiscoveryConfigSource::Srv),
        tcp(DiscoveryService::Imap, "mail.imap.example.com", 993, vec![], DiscoveryConfigSource::Srv),
    ]);
    let configs = collector.finish();
    assert_eq!(configs.len(), 3);
    assert!(configs.iter().all(|c| c.service == DiscoveryService::Imap));
}

#[test]
fn collector_does_not_merge_configs_of_different_users() {
    let mut collector = DiscoveryConfigCollector::new(vec![]);
    let mut other = tcp(DiscoveryService::Imap, "imap.example.com", 993, vec![], DiscoveryConfigSource::Srv);
    other.username = Some("bob@example.com".to_string());
    collector.collect(vec![
        tcp(DiscoveryService::Imap, "imap.example.com", 993, vec![], DiscoveryConfigSource::Srv),
        other,
    ]);
    assert_eq!(collector.finish().len(), 2);
}

#[test]
fn collector_compares_http_endpoints_as_normalized_urls() {
    let mut collector = DiscoveryConfigCollector::new(vec![]);
    collector.collect(vec![
        http(DiscoveryService::Carddav, "HTTPS://DAV.Example.com:443", vec![DiscoveryAuthMethod::Password], DiscoveryConfigSource::Dav),
        http(DiscoveryService::Carddav, "https://dav.example.com/", vec![DiscoveryAuthMethod::Bearer], DiscoveryConfigSource::Pacc),
    ]);
    let configs = collector.finish();
    assert_eq!(configs.len(), 1);
    assert_eq!(configs[0].endpoint, DiscoveryEndpoint::Http("HTTPS://DAV.Example.com:443".to_string()));
    assert_eq!(configs[0].auth, vec![DiscoveryAuthMethod::Password, DiscoveryAuthMethod::Bearer]);
}

#[test]
fn collector_merges_a_subdomain_into_its_parent_host() {
    let mut collector = DiscoveryConfigCollector::new(vec![]);
    collector.collect(vec![http(
        DiscoveryService::Carddav,
        "https://p12.carddav.fastmail.com/dav/",
        vec![DiscoveryAuthMethod::Password],
        DiscoveryConfigSource::Dav,
    )]);
    collector.collect(vec![http(
        DiscoveryService::Carddav,
        "https://carddav.fastmail.com/",
        vec![issuer("https://api.fastmail.com")],
        DiscoveryConfigSource::Pacc,
    )]);
    let configs = collector.finish();
    assert_eq!(configs.len(), 1);
    assert_eq!(configs[0].endpoint, DiscoveryEndpoint::Http("https://carddav.fastmail.com/".to_string()));
    assert_eq!(configs[0].source, DiscoveryConfigSource::Pacc);
    assert_eq!(configs[0].auth, vec![DiscoveryAuthMethod::Password, issuer("https://api.fastmail.com")]);
}

#[test]
fn collector_keeps_the_parent_host_collected_first() {
    let mut collector = DiscoveryConfigCollector::new(vec![]);
    collector.collect(vec![
        http(DiscoveryService::Carddav, "https://carddav.fastmail.com/", vec![], DiscoveryConfigSource::Pacc),
        http(DiscoveryService::Carddav, "https://p12.carddav.fastmail.com/", vec![DiscoveryAuthMethod::Password], DiscoveryConfigSource::Dav),
    ]);
    let configs = collector.finish();
    assert_eq!(configs.len(), 1);
    assert_eq!(configs[0].endpoint, DiscoveryEndpoint::Http("https://carddav.fastmail.com/".to_string()));
    assert_eq!(configs[0].source, DiscoveryConfigSource::Pacc);
    assert_eq!(configs[0].auth, vec![DiscoveryAuthMethod::Password]);
}

#[test]
fn compose_first_keeps_the_first_mechanism_with_a_requested_config() {
    let outputs = vec![
        vec![],
        vec![tcp(DiscoveryService::Pop3, "pop.example.com", 995, vec![], DiscoveryConfigSource::Pacc)],
        vec![tcp(DiscoveryService::Imap, "imap.example.com", 993, vec![], DiscoveryConfigSource::IspMain)],
        vec![tcp(DiscoveryService::Imap, "mail.example.com", 993, vec![], DiscoveryConfigSource::Srv)],
    ];
    let configs = reduce_outputs(outputs, vec![DiscoveryService::Imap], true);
    assert_eq!(configs.len(), 1);
    assert_eq!(configs[0].source, DiscoveryConfigSource::IspMain);
}

#[test]
fn compose_first_gives_nothing_when_nothing_was_found() {
    let outputs = vec![vec![], vec![tcp(DiscoveryService::Pop3, "pop.example.com", 995, vec![], DiscoveryConfigSource::Pacc)]];
    assert!(reduce_outputs(outputs, vec![DiscoveryService::Imap], true).is_empty());
}

#[test]
fn compose_all_merges_every_output_in_priority_order() {
    let outputs = vec![
        vec![tcp(DiscoveryService::Imap, "imap.example.com", 993, vec![DiscoveryAuthMethod::Password], DiscoveryConfigSource::Pacc)],
        vec![
            tcp(DiscoveryService::Imap, "imap.example.com", 993, vec![issuer("https://id.example.com")], DiscoveryConfigSource::IspMain),
            tcp(DiscoveryService::Smtp, "smtp.example.com", 465, vec![], DiscoveryConfigSource::IspMain),
        ],
    ];
    let configs = reduce_outputs(outputs, vec![], false);
    assert_eq!(configs.len(), 2);
    assert_eq!(configs[0].source, DiscoveryConfigSource::Pacc);
    assert_eq!(configs[0].auth, vec![DiscoveryAuthMethod::Password, issuer("https://id.example.com")]);
    assert_eq!(configs[1].service, DiscoveryService::Smtp);
}

#[test]
fn compose_raw_keeps_duplicates_and_drops_unrequested_services() {
    let outputs = vec![
        vec![tcp(DiscoveryService::Imap, "imap.example.com", 993, vec![], DiscoveryConfigSource::Pacc)],
        vec![
            tcp(DiscoveryService::Imap, "imap.example.com", 993, vec![], DiscoveryConfigSource::Srv),
            tcp(DiscoveryService::Smtp, "smtp.example.com", 465, vec![], DiscoveryConfigSource::Srv),
        ],
    ];
    let configs = raw_configs(outputs, &vec![DiscoveryService::Imap]);
    assert_eq!(configs.len(), 2);
    assert_eq!(configs[0].source, DiscoveryConfigSource::Pacc);
    assert_eq!(configs[1].source, DiscoveryConfigSource::Srv);
}

#[test]
fn distinct_issuers_names_each_issuer_once() {
    let configs = vec![
        tcp(DiscoveryService::Imap, "imap.example.com", 993, vec![issuer("https://a.example"), DiscoveryAuthMethod::Password], DiscoveryConfigSource::Pacc),
        tcp(DiscoveryService::Smtp, "smtp.example.com", 465, vec![issuer("https://b.example"), issuer("https://a.example")], DiscoveryConfigSource::Pacc),
    ];
    let issuers = distinct_issuers(&configs);
    assert_eq!(issuers, vec!["https://a.example".to_string(), "https://b.example".to_string()]);
    assert!(distinct_issuers(&vec![]).is_empty());
}

#[test]
fn resolved_issuers_are_replaced_in_place_and_unresolved_stay() {
    let mut configs = vec![tcp(
        DiscoveryService::Imap,
        "imap.example.com",
        993,
        vec![issuer("https://a.example"), DiscoveryAuthMethod::Password, issuer("https://b.example")],
        DiscoveryConfigSource::Pacc,
    )];
    let grant = DiscoveryAuthMethod::OauthAuthorizationCodeGrant {
        authorization_endpoint: "https://a.example/auth".to_string(),
        token_endpoint: "https://a.example/token".to_string(),
        scope: None,
    };
    apply_resolved_issuers(&mut configs, &vec![("https://a.example".to_string(), vec![grant.clone()])]);
    assert_eq!(
        configs[0].auth,
        vec![grant, DiscoveryAuthMethod::Password, issuer("https://b.example")]
    );
}

#[test]
fn issuer_grants_follow_the_advertised_endpoints() {
    let full = OauthServerEndpoints {
        authorization_endpoint: Some("https://id.example/authorize".to_string()),
        token_endpoint: Some("https://id.example/token".to_string()),
        device_authorization_endpoint: Some("https://id.example/device".to_string()),
    };
    assert_eq!(
        issuer_grants("https://id.example", Some(&full)),
        vec![
            DiscoveryAuthMethod::OauthAuthorizationCodeGrant {
                authorization_endpoint: "https://id.example/authorize".to_string(),
                token_endpoint: "https://id.example/token".to_string(),
                scope: None,
            },
            DiscoveryAuthMethod::OauthDeviceAuthorizationGrant {
                device_authorization_endpoint: "https://id.example/device".to_string(),
                token_endpoint: "https://id.example/token".to_string(),
                scope: None,
            },
        ]
    );
    let no_token = OauthServerEndpoints {
        authorization_endpoint: Some("https://id.example/authorize".to_string()),
        token_endpoint: None,
        device_authorization_endpoint: Some("https://id.example/device".to_string()),
    };
    assert_eq!(issuer_grants("https://id.example", Some(&no_token)), vec![issuer("https://id.example")]);
    assert_eq!(issuer_grants("https://id.example", None), vec![issuer("https://id.example")]);
}

#[test]
fn refine_auth_replaces_password_and_bearer_and_keeps_oauth() {
    let mut config = tcp(
        DiscoveryService::Jmap,
        "jmap.example.com",
        443,
        vec![DiscoveryAuthMethod::Password, issuer("https://id.example")],
        DiscoveryConfigSource::Jmap,
    );
    config.refine_auth(&vec!["Bearer".to_string()]);
    assert_eq!(config.auth, vec![DiscoveryAuthMethod::Bearer, issuer("https://id.example")]);
    config.refine_auth(&vec!["BASIC".to_string(), "basic".to_string(), "Negotiate".to_string(), "bearer".to_string()]);
    assert_eq!(
        config.auth,
        vec![DiscoveryAuthMethod::Password, DiscoveryAuthMethod::Bearer, issuer("https://id.example")]
    );
}

#[test]
fn probe_urls_are_the_endpoint_then_the_well_known_dav_path() {
    let caldav = http(DiscoveryService::Caldav, "HTTPS://Dav.Example.com/dav/calendars", vec![], DiscoveryConfigSource::Dav);
    assert_eq!(
        caldav.probe_urls(),
        vec![
            "https://dav.example.com/dav/calendars".to_string(),
            "https://dav.example.com/.well-known/caldav".to_string(),
        ]
    );
    let jmap = http(DiscoveryService::Jmap, "https://api.example.com", vec![], DiscoveryConfigSource::Jmap);
    assert_eq!(jmap.probe_urls(), vec!["https://api.example.com/".to_string()]);
    let broken = http(DiscoveryService::Carddav, "not a url", vec![], DiscoveryConfigSource::Dav);
    assert!(broken.probe_urls().is_empty());
    let imap = tcp(DiscoveryService::Imap, "imap.example.com", 993, vec![], DiscoveryConfigSource::Srv);
    assert!(imap.probe_urls().is_empty());
}

#[test]
fn probe_results_refine_only_configs_whose_probe_advertised_schemes() {
    let mut configs = vec![
        tcp(DiscoveryService::Imap, "a.example.com", 993, vec![DiscoveryAuthMethod::Password], DiscoveryConfigSource::Srv),
        tcp(DiscoveryService::Imap, "b.example.com", 993, vec![DiscoveryAuthMethod::Password], DiscoveryConfigSource::Srv),
        tcp(DiscoveryService::Imap, "c.example.com", 993, vec![DiscoveryAuthMethod::Password], DiscoveryConfigSource::Srv),
    ];
    apply_probe_results(&mut configs, &vec![Some(vec!["Bearer".to_string()]), Some(vec![]), None]);
    assert_eq!(configs[0].auth, vec![DiscoveryAuthMethod::Bearer]);
    assert_eq!(configs[1].auth, vec![DiscoveryAuthMethod::Password]);
    assert_eq!(configs[2].auth, vec![DiscoveryAuthMethod::Password]);
}

#[test]
fn dav_services_map_to_their_composed_service() {
    assert_eq!(dav_config_service(DiscoveryDavService::Caldav), DiscoveryService::Caldav);
    assert_eq!(dav_config_service(DiscoveryDavService::Carddav), DiscoveryService::Carddav);
}

fn step_index(step: ProbeStep) -> usize {
    match step {
        ProbeStep::Probe(index) => index,
        ProbeStep::Settled(schemes) => panic!("settled early on {schemes:?}"),
    }
}

fn step_settled(step: ProbeStep) -> Option<Vec<String>> {
    match step {
        ProbeStep::Settled(schemes) => schemes,
        ProbeStep::Probe(index) => panic!("asked for URL {index} again"),
    }
}

#[test]
fn probe_step_walks_the_urls_in_order_past_failed_and_empty_probes() {
    let mut outcomes: Vec<Option<Vec<String>>> = Vec::new();
    assert_eq!(step_index(next_probe_step(3, &outcomes)), 0);
    outcomes.push(None);
    assert_eq!(step_index(next_probe_step(3, &outcomes)), 1);
    outcomes.push(Some(vec![]));
    assert_eq!(step_index(next_probe_step(3, &outcomes)), 2);
}

#[test]
fn probe_step_stops_at_the_first_url_that_advertises_schemes() {
    let outcomes = vec![None, Some(vec!["Basic".to_string(), "Bearer".to_string()])];
    assert_eq!(
        step_settled(next_probe_step(3, &outcomes)),
        Some(vec!["Basic".to_string(), "Bearer".to_string()])
    );
    let later = vec![Some(vec!["Basic".to_string()]), Some(vec!["Bearer".to_string()])];
    assert_eq!(step_settled(next_probe_step(2, &later)), Some(vec!["Basic".to_string()]));
}

#[test]
fn probe_step_settles_on_nothing_once_every_url_failed() {
    assert_eq!(step_settled(next_probe_step(0, &vec![])), None);
    let outcomes = vec![None, Some(vec![])];
    assert_eq!(step_settled(next_probe_step(2, &outcomes)), None);
}

#[test]
fn issuer_url_is_the_parsed_issuer_or_nothing() {
    assert_eq!(issuer_url("https://Login.Example.com"), Some("https://login.example.com/".to_string()));
    assert_eq!(issuer_url("https://auth.example.org/tenant"), Some("https://auth.example.org/tenant".to_string()));
    assert_eq!(issuer_url("not a url"), None);
}
