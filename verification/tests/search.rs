use io_pim_discovery::compose::client::{plan_mechanisms, Mechanism};
use io_pim_discovery::compose::config::{
    DiscoveryAuthMethod, DiscoveryConfigSource, DiscoveryEndpoint, DiscoveryKnownProvider,
    DiscoverySecurity, DiscoveryService, DiscoveryServiceConfig,
};
use io_pim_discovery::search::all::{SearchAll, SearchError, SearchPending, SearchYield};

fn resolver() -> url::Url {
    url::Url::parse("tcp://1.1.1.1:53").unwrap()
}

fn imap(host: &str, source: DiscoveryConfigSource) -> DiscoveryServiceConfig {
    DiscoveryServiceConfig {
        service: DiscoveryService::Imap,
        endpoint: DiscoveryEndpoint::Tcp { host: host.to_string(), port: 993, security: DiscoverySecurity::Tls },
        username: Some("alice@example.com".to_string()),
        auth: vec![DiscoveryAuthMethod::Password],
        source,
    }
}

fn carddav(url: &str) -> DiscoveryServiceConfig {
    DiscoveryServiceConfig {
        service: DiscoveryService::Carddav,
        endpoint: DiscoveryEndpoint::Http(url.to_string()),
        username: None,
        auth: vec![DiscoveryAuthMethod::Password],
        source: DiscoveryConfigSource::Dav,
    }
}

fn expect_run(y: SearchYield) -> Mechanism {
    match y {
        SearchYield::Run(m) => m,
        SearchYield::Probe(url) => panic!("unexpected probe of {url}"),
        SearchYield::Complete(_) => panic!("unexpected completion"),
    }
}

fn expect_probe(y: SearchYield) -> String {
    match y {
        SearchYield::Probe(url) => url,
        SearchYield::Run(m) => panic!("unexpected run of {m:?}"),
        SearchYield::Complete(_) => panic!("unexpected completion"),
    }
}

fn expect_complete(y: SearchYield) -> Vec<DiscoveryServiceConfig> {
    match y {
        SearchYield::Complete(configs) => configs,
        SearchYield::Run(m) => panic!("unexpected run of {m:?}"),
        SearchYield::Probe(url) => panic!("unexpected probe of {url}"),
    }
}

#[test]
fn search_refuses_an_address_without_at() {
    match SearchAll::new("  nobody ", vec![], resolver()) {
        Err(SearchError::InvalidEmail(input)) => assert_eq!(input, "nobody"),
        Ok(_) => panic!("accepted an address without @"),
    }
}

#[test]
fn search_reads_the_trimmed_address_and_its_domain() {
    let search = SearchAll::new(" Alice@Example.COM. ", vec![], resolver()).unwrap();
    assert_eq!(search.email(), "Alice@Example.COM.");
    assert_eq!(search.domain(), "example.com");
    assert_eq!(search.resolver().as_str(), "tcp://1.1.1.1:53");
    assert_eq!(search.pending(), SearchPending::Start);
}

#[test]
fn search_walks_every_mechanism_in_priority_order() {
    let mut search = SearchAll::new("alice@example.com", vec![], resolver()).unwrap();
    let mut seen = vec![expect_run(search.start(None))];
    loop {
        match search.mechanism_done(None) {
            SearchYield::Run(m) => seen.push(m),
            SearchYield::Complete(configs) => {
                assert!(configs.is_empty());
                break;
            }
            SearchYield::Probe(url) => panic!("unexpected probe of {url}"),
        }
    }
    assert_eq!(
        seen,
        vec![
            Mechanism::Mx,
            Mechanism::Pacc,
            Mechanism::IspMain,
            Mechanism::IspFallback,
            Mechanism::Mailconf,
            Mechanism::Ispdb,
            Mechanism::Srv,
            Mechanism::Caldav,
            Mechanism::Carddav,
            Mechanism::Jmap,
        ]
    );
    assert_eq!(search.pending(), SearchPending::Done);
}

#[test]
fn search_skips_mx_when_the_provider_rule_matched() {
    let mut search = SearchAll::new("alice@gmail.com", vec![DiscoveryService::Imap], resolver()).unwrap();
    let google = imap("imap.gmail.com", DiscoveryConfigSource::Provider(DiscoveryKnownProvider::Google));
    assert_eq!(expect_run(search.start(Some(vec![google]))), Mechanism::Pacc);
    assert_eq!(search.pending(), SearchPending::Mechanism(Mechanism::Pacc));
}

#[test]
fn search_keeps_to_the_requested_services() {
    let mut search = SearchAll::new("alice@example.com", vec![DiscoveryService::Carddav], resolver()).unwrap();
    assert_eq!(expect_run(search.start(None)), Mechanism::Mx);
    assert_eq!(expect_run(search.mechanism_done(None)), Mechanism::Pacc);
    assert_eq!(expect_run(search.mechanism_done(None)), Mechanism::Carddav);
    assert!(expect_complete(search.mechanism_done(None)).is_empty());
}

#[test]
fn search_in_first_mode_stops_at_the_first_mechanism_with_configs() {
    let mut search = SearchAll::build("alice@example.com", vec![], resolver(), true).unwrap();
    assert_eq!(expect_run(search.start(None)), Mechanism::Mx);
    assert_eq!(expect_run(search.mechanism_done(Some(vec![]))), Mechanism::Pacc);
    let configs = expect_complete(search.mechanism_done(Some(vec![imap("imap.example.com", DiscoveryConfigSource::Pacc)])));
    assert_eq!(configs.len(), 1);
    assert_eq!(configs[0].source, DiscoveryConfigSource::Pacc);
}

#[test]
fn search_merges_the_configs_of_successive_mechanisms() {
    let mut search = SearchAll::new("alice@example.com", vec![DiscoveryService::Imap], resolver()).unwrap();
    assert_eq!(expect_run(search.start(None)), Mechanism::Mx);
    assert_eq!(expect_run(search.mechanism_done(None)), Mechanism::Pacc);
    assert_eq!(
        expect_run(search.mechanism_done(Some(vec![imap("imap.example.com", DiscoveryConfigSource::Pacc)]))),
        Mechanism::IspMain
    );
    let mut again = imap("imap.example.com", DiscoveryConfigSource::IspMain);
    again.auth = vec![DiscoveryAuthMethod::OauthIssuer("https://id.example.com".to_string())];
    assert_eq!(expect_run(search.mechanism_done(Some(vec![again]))), Mechanism::IspFallback);
    assert_eq!(expect_run(search.mechanism_done(None)), Mechanism::Mailconf);
    assert_eq!(expect_run(search.mechanism_done(None)), Mechanism::Ispdb);
    assert_eq!(expect_run(search.mechanism_done(None)), Mechanism::Srv);
    let configs = expect_complete(search.mechanism_done(None));
    assert_eq!(configs.len(), 1);
    assert_eq!(configs[0].source, DiscoveryConfigSource::Pacc);
    assert_eq!(
        configs[0].auth,
        vec![
            DiscoveryAuthMethod::Password,
            DiscoveryAuthMethod::OauthIssuer("https://id.example.com".to_string()),
        ]
    );
}

#[test]
fn search_probes_each_url_of_a_task_until_schemes_are_advertised() {
    let mut search = SearchAll::new("alice@fastmail.com", vec![DiscoveryService::Carddav], resolver()).unwrap();
    assert_eq!(expect_run(search.start(None)), Mechanism::Mx);
    assert_eq!(expect_run(search.mechanism_done(None)), Mechanism::Pacc);
    assert_eq!(expect_run(search.mechanism_done(None)), Mechanism::Carddav);
    let first = expect_probe(search.mechanism_done(Some(vec![carddav("https://carddav.fastmail.com/dav/")])));
    assert_eq!(first, "https://carddav.fastmail.com/dav/");
    assert_eq!(search.pending(), SearchPending::Probe);
    let second = expect_probe(search.probe_done(None));
    assert_eq!(second, "https://carddav.fastmail.com/.well-known/carddav");
    let configs = expect_complete(search.probe_done(Some(vec!["Bearer".to_string()])));
    assert_eq!(configs.len(), 1);
    assert_eq!(configs[0].auth, vec![DiscoveryAuthMethod::Bearer]);
}

#[test]
fn search_completes_when_every_probe_url_is_exhausted() {
    let mut search = SearchAll::new("alice@example.com", vec![DiscoveryService::Carddav], resolver()).unwrap();
    expect_run(search.start(None));
    expect_run(search.mechanism_done(None));
    expect_run(search.mechanism_done(None));
    expect_probe(search.mechanism_done(Some(vec![carddav("https://dav.example.com/")])));
    expect_probe(search.probe_done(Some(vec![])));
    let configs = expect_complete(search.probe_done(None));
    assert_eq!(configs[0].auth, vec![DiscoveryAuthMethod::Password]);
}

#[test]
fn search_walks_the_mechanisms_the_compose_plan_runs() {
    let sets = vec![
        vec![],
        vec![DiscoveryService::Pop3],
        vec![DiscoveryService::Smtp, DiscoveryService::Caldav],
        vec![DiscoveryService::Jmap],
        vec![DiscoveryService::Webdav],
    ];
    for services in sets {
        let mut search = SearchAll::new("alice@example.com", services.clone(), resolver()).unwrap();
        let mut walked = Vec::new();
        let mut next = search.start(None);
        loop {
            match next {
                SearchYield::Run(m) => {
                    walked.push(m);
                    next = search.mechanism_done(None);
                }
                SearchYield::Complete(_) => break,
                SearchYield::Probe(url) => panic!("unexpected probe of {url}"),
            }
        }
        assert_eq!(walked, plan_mechanisms(&services, false));
    }
}

#[test]
fn search_completes_with_only_requested_configs_and_then_stays_done() {
    let mut search = SearchAll::new("alice@example.com", vec![DiscoveryService::Imap], resolver()).unwrap();
    let mut walked = vec![expect_run(search.start(Some(vec![carddav("https://dav.example.com/")])))];
    let mut next = search.mechanism_done(None);
    loop {
        match next {
            SearchYield::Run(m) => {
                walked.push(m);
                let found = if m == Mechanism::Srv {
                    Some(vec![imap("imap.example.com", DiscoveryConfigSource::Srv), carddav("https://dav.example.com/")])
                } else {
                    None
                };
                next = search.mechanism_done(found);
            }
            SearchYield::Probe(url) => panic!("unexpected probe of {url}"),
            SearchYield::Complete(configs) => {
                assert_eq!(configs.len(), 1);
                assert_eq!(configs[0].service, DiscoveryService::Imap);
                break;
            }
        }
    }
    assert_eq!(walked, plan_mechanisms(&vec![DiscoveryService::Imap], true));
    assert_eq!(search.pending(), SearchPending::Done);
}
