use io_pim_discovery::compose::cli::{compose_row, compose_rows, ComposeCommand, ServiceArg};
use io_pim_discovery::compose::config::{
    DiscoveryAuthMethod, DiscoveryConfigSource, DiscoveryEndpoint, DiscoveryKnownProvider,
    DiscoverySecurity, DiscoveryService, DiscoveryServiceConfig,
};

#[test]
fn service_args_convert_to_their_services() {
    assert_eq!(DiscoveryService::from(ServiceArg::Imap), DiscoveryService::Imap);
    assert_eq!(DiscoveryService::from(ServiceArg::Pop3), DiscoveryService::Pop3);
    assert_eq!(DiscoveryService::from(ServiceArg::Smtp), DiscoveryService::Smtp);
    assert_eq!(DiscoveryService::from(ServiceArg::Jmap), DiscoveryService::Jmap);
    assert_eq!(DiscoveryService::from(ServiceArg::Caldav), DiscoveryService::Caldav);
    assert_eq!(DiscoveryService::from(ServiceArg::Carddav), DiscoveryService::Carddav);
    assert_eq!(DiscoveryService::from(ServiceArg::Webdav), DiscoveryService::Webdav);
    assert_eq!(DiscoveryService::from(ServiceArg::Managesieve), DiscoveryService::Managesieve);
}

#[test]
fn requested_services_are_deduplicated_in_service_order() {
    let command = ComposeCommand {
        email: "alice@example.com".to_string(),
        first: false,
        services: vec![ServiceArg::Smtp, ServiceArg::Imap, ServiceArg::Smtp, ServiceArg::Managesieve],
        server: "1.1.1.1:53".to_string(),
    };
    assert_eq!(
        command.requested_services(),
        vec![DiscoveryService::Imap, DiscoveryService::Smtp, DiscoveryService::Managesieve]
    );
    let all = ComposeCommand { services: vec![], ..command };
    assert!(all.requested_services().is_empty());
}

#[test]
fn a_tcp_config_renders_host_port_and_security() {
    let config = DiscoveryServiceConfig {
        service: DiscoveryService::Imap,
        endpoint: DiscoveryEndpoint::Tcp { host: "imap.example.com".to_string(), port: 993, security: DiscoverySecurity::Tls },
        username: None,
        auth: vec![DiscoveryAuthMethod::Password, DiscoveryAuthMethod::OauthIssuer("https://id.example".to_string())],
        source: DiscoveryConfigSource::Srv,
    };
    let row = compose_row(&config);
    assert_eq!(row.service, "imap");
    assert_eq!(row.endpoint, "imap.example.com:993 (SSL)");
    assert_eq!(row.username, "-");
    assert_eq!(row.auth, "password, oauth2:https://id.example");
    assert_eq!(row.source, "srv");
}

#[test]
fn an_http_config_without_methods_renders_a_dash() {
    let config = DiscoveryServiceConfig {
        service: DiscoveryService::Carddav,
        endpoint: DiscoveryEndpoint::Http("https://dav.example.com/".to_string()),
        username: Some("alice".to_string()),
        auth: vec![],
        source: DiscoveryConfigSource::Provider(DiscoveryKnownProvider::Microsoft),
    };
    let row = compose_row(&config);
    assert_eq!(row.endpoint, "https://dav.example.com/");
    assert_eq!(row.username, "alice");
    assert_eq!(row.auth, "-");
    assert_eq!(row.source, "provider:microsoft");
}

#[test]
fn ports_render_in_decimal_and_every_label_is_fixed() {
    let mut config = DiscoveryServiceConfig {
        service: DiscoveryService::Managesieve,
        endpoint: DiscoveryEndpoint::Tcp { host: "h".to_string(), port: 0, security: DiscoverySecurity::Plain },
        username: None,
        auth: vec![
            DiscoveryAuthMethod::Bearer,
            DiscoveryAuthMethod::OauthAuthorizationCodeGrant {
                authorization_endpoint: "a".to_string(),
                token_endpoint: "t".to_string(),
                scope: None,
            },
            DiscoveryAuthMethod::OauthDeviceAuthorizationGrant {
                device_authorization_endpoint: "d".to_string(),
                token_endpoint: "t".to_string(),
                scope: Some("s".to_string()),
            },
        ],
        source: DiscoveryConfigSource::IspFallback,
    };
    let row = compose_row(&config);
    assert_eq!(row.service, "managesieve");
    assert_eq!(row.endpoint, "h:0 (plain)");
    assert_eq!(row.auth, "bearer, oauth2:authorization-code, oauth2:device");
    assert_eq!(row.source, "isp-fallback");
    config.endpoint = DiscoveryEndpoint::Tcp { host: "h".to_string(), port: 65535, security: DiscoverySecurity::Starttls };
    config.source = DiscoveryConfigSource::Provider(DiscoveryKnownProvider::Google);
    let rows = compose_rows(&vec![config]);
    assert_eq!(rows.len(), 1);
    assert_eq!(rows[0].endpoint, "h:65535 (STARTTLS)");
    assert_eq!(rows[0].source, "provider:google");
}
