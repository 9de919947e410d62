//! The compose command: which services the flags request, and the table
//! rows that render the composed configs.

use vstd::prelude::*;

use crate::compose::config::{
    configs_view, AuthMethodView, DiscoveryAuthMethod, DiscoveryConfigSource, DiscoveryEndpoint,
    DiscoveryKnownProvider, DiscoverySecurity, DiscoveryService, DiscoveryServiceConfig,
    EndpointView, ServiceConfigView, well_known_path,
};
use crate::text::push_char;

verus! {

/// The `--service` flag values.
#[derive(Clone, Copy, Debug, PartialEq, Eq, Structural)]
pub enum ServiceArg {
    Imap,
    Pop3,
    Smtp,
    Jmap,
    Caldav,
    Carddav,
    Webdav,
    Managesieve,
}

/// The service a flag value stands for.
pub open spec fn arg_service(arg: ServiceArg) -> DiscoveryService {
    match arg {
        ServiceArg::Imap => DiscoveryService::Imap,
        ServiceArg::Pop3 => DiscoveryService::Pop3,
        ServiceArg::Smtp => DiscoveryService::Smtp,
        ServiceArg::Jmap => DiscoveryService::Jmap,
        ServiceArg::Caldav => DiscoveryService::Caldav,
        ServiceArg::Carddav => DiscoveryService::Carddav,
        ServiceArg::Webdav => DiscoveryService::Webdav,
        ServiceArg::Managesieve => DiscoveryService::Managesieve,
    }
}

impl From<ServiceArg> for DiscoveryService {
    fn from(arg: ServiceArg) -> (r: Self) {
        match arg {
            ServiceArg::Imap => DiscoveryService::Imap,
            ServiceArg::Pop3 => DiscoveryService::Pop3,
            ServiceArg::Smtp => DiscoveryService::Smtp,
            ServiceArg::Jmap => DiscoveryService::Jmap,
            ServiceArg::Caldav => DiscoveryService::Caldav,
            ServiceArg::Carddav => DiscoveryService::Carddav,
            ServiceArg::Webdav => DiscoveryService::Webdav,
            ServiceArg::Managesieve => DiscoveryService::Managesieve,
        }
    }
}

impl vstd::std_specs::convert::FromSpecImpl<ServiceArg> for DiscoveryService {
    open spec fn obeys_from_spec() -> bool {
        true
    }

    open spec fn from_spec(arg: ServiceArg) -> DiscoveryService {
        arg_service(arg)
    }
}

/// Distinct flag values stand for distinct services.
pub proof fn law_service_arg_conversion_is_injective(a: ServiceArg, b: ServiceArg)
    ensures
        arg_service(a) == arg_service(b) ==> a == b,
{
}

/// Compose service configs for an email address.
pub struct ComposeCommand {
    /// Email address to compose configs for.
    pub email: String,
    /// Stop at the first mechanism yielding at least one config.
    pub first: bool,
    /// Restrict composition to the given services.
    pub services: Vec<ServiceArg>,
    /// DNS resolver: `host:port`, or an RFC 8484 resolver URL.
    pub server: String,
}

/// The services in their order.
pub open spec fn service_order() -> Seq<DiscoveryService> {
    seq![
        DiscoveryService::Imap,
        DiscoveryService::Pop3,
        DiscoveryService::Smtp,
        DiscoveryService::Jmap,
        DiscoveryService::Caldav,
        DiscoveryService::Carddav,
        DiscoveryService::Webdav,
        DiscoveryService::Managesieve,
    ]
}

/// Whether some flag value stands for `service`.
pub open spec fn requested(args: Seq<ServiceArg>, service: DiscoveryService) -> bool {
    exists|i: int| 0 <= i < args.len() && arg_service(#[trigger] args[i]) == service
}

/// The services of `order` that the flags request, in that order.
pub open spec fn requested_in(args: Seq<ServiceArg>, order: Seq<DiscoveryService>) -> Seq<DiscoveryService>
    decreases order.len(),
{
    if order.len() == 0 {
        order
    } else {
        let front = requested_in(args, order.drop_last());
        if requested(args, order.last()) {
            front.push(order.last())
        } else {
            front
        }
    }
}

fn arg_requested(args: &Vec<ServiceArg>, service: DiscoveryService) -> (r: bool)
    ensures
        r == requested(args@, service),
{
    let mut i: usize = 0;
    while i < args.len()
        invariant
            0 <= i <= args.len(),
            forall|k: int| 0 <= k < i ==> arg_service(#[trigger] args@[k]) != service,
        decreases args.len() - i,
    {
        let s: DiscoveryService = DiscoveryService::from(args[i]);
        if s == service {
            return true;
        }
        i = i + 1;
    }
    false
}

impl ComposeCommand {
    /// The requested services, each once, in service order (none means
    /// every service).
    pub fn requested_services(&self) -> (r: Vec<DiscoveryService>)
        ensures
            r@ == requested_in(self.services@, service_order()),
    {
        let order = [
            DiscoveryService::Imap,
            DiscoveryService::Pop3,
            DiscoveryService::Smtp,
            DiscoveryService::Jmap,
            DiscoveryService::Caldav,
            DiscoveryService::Carddav,
            DiscoveryService::Webdav,
            DiscoveryService::Managesieve,
        ];
        assert(order@ == service_order());
        let mut out: Vec<DiscoveryService> = Vec::new();
        let mut i: usize = 0;
        while i < 8
            invariant
                0 <= i <= 8,
                order@ == service_order(),
                out@ == requested_in(self.services@, order@.subrange(0, i as int)),
            decreases 8 - i,
        {
            proof {
                assert(order@.subrange(0, i + 1).drop_last() =~= order@.subrange(0, i as int));
            }
            if arg_requested(&self.services, order[i]) {
                out.push(order[i]);
            }
            i = i + 1;
        }
        assert(order@.subrange(0, 8) =~= order@);
        out
    }
}

/// The requested services are exactly those a flag stands for, each
/// once.
pub proof fn law_requested_services_are_the_flags(args: Seq<ServiceArg>)
    ensures
        requested_in(args, service_order()).no_duplicates(),
        forall|s: DiscoveryService| #[trigger] requested_in(args, service_order()).contains(s) <==> requested(args, s),
{
    lemma_requested_in(args, service_order());
    assert forall|s: DiscoveryService| service_order().contains(s) by {
        match s {
            DiscoveryService::Imap => assert(service_order()[0] == s),
            DiscoveryService::Pop3 => assert(service_order()[1] == s),
            DiscoveryService::Smtp => assert(service_order()[2] == s),
            DiscoveryService::Jmap => assert(service_order()[3] == s),
            DiscoveryService::Caldav => assert(service_order()[4] == s),
            DiscoveryService::Carddav => assert(service_order()[5] == s),
            DiscoveryService::Webdav => assert(service_order()[6] == s),
            DiscoveryService::Managesieve => assert(service_order()[7] == s),
        }
    }
}

proof fn lemma_requested_in(args: Seq<ServiceArg>, order: Seq<DiscoveryService>)
    requires
        order.no_duplicates(),
    ensures
        requested_in(args, order).no_duplicates(),
        forall|s: DiscoveryService| #[trigger] requested_in(args, order).contains(s) <==> (order.contains(s) && requested(args, s)),
    decreases order.len(),
{
    if order.len() > 0 {
        let front = order.drop_last();
        assert(front.no_duplicates());
        lemma_requested_in(args, front);
        let r = requested_in(args, front);
        assert forall|s: DiscoveryService| #[trigger] order.contains(s) <==> (front.contains(s) || s == order.last()) by {
            if order.contains(s) {
                let k = choose|k: int| 0 <= k < order.len() && order[k] == s;
                if k < order.len() - 1 {
                    assert(front[k] == s);
                }
            }
            if front.contains(s) {
                let k = choose|k: int| 0 <= k < front.len() && front[k] == s;
                assert(order[k] == s);
            }
            if s == order.last() {
                assert(order[order.len() - 1] == s);
            }
        }
        assert(!front.contains(order.last())) by {
            if front.contains(order.last()) {
                let k = choose|k: int| 0 <= k < front.len() && front[k] == order.last();
                assert(order[k] == order[order.len() - 1]);
            }
        }
        if requested(args, order.last()) {
            assert forall|s: DiscoveryService| #[trigger] r.push(order.last()).contains(s) <==> (r.contains(s) || s == order.last()) by {
                if r.push(order.last()).contains(s) {
                    let k = choose|k: int| 0 <= k < r.push(order.last()).len() && r.push(order.last())[k] == s;
                    if k < r.len() {
                        assert(r[k] == s);
                    }
                }
                if r.contains(s) {
                    let k = choose|k: int| 0 <= k < r.len() && r[k] == s;
                    assert(r.push(order.last())[k] == s);
                }
                if s == order.last() {
                    assert(r.push(order.last())[r.len() as int] == s);
                }
            }
            let p = r.push(order.last());
            assert(!r.contains(order.last()));
            assert forall|i: int, j: int| 0 <= i < p.len() && 0 <= j < p.len() && i != j implies p[i] != p[j] by {
                if i < r.len() && j < r.len() {
                    assert(p[i] == r[i] && p[j] == r[j]);
                } else if i < r.len() {
                    assert(r.contains(p[i]));
                } else {
                    assert(r.contains(p[j]));
                }
            }
        }
    }
}

/// The table cells of one composed config.
pub struct ComposeRow {
    pub service: String,
    pub endpoint: String,
    pub username: String,
    pub auth: String,
    pub source: String,
}

pub struct RowView {
    pub service: Seq<char>,
    pub endpoint: Seq<char>,
    pub username: Seq<char>,
    pub auth: Seq<char>,
    pub source: Seq<char>,
}

impl View for ComposeRow {
    type V = RowView;

    open spec fn view(&self) -> RowView {
        RowView {
            service: self.service@,
            endpoint: self.endpoint@,
            username: self.username@,
            auth: self.auth@,
            source: self.source@,
        }
    }
}

pub open spec fn service_label(s: DiscoveryService) -> Seq<char> {
    match s {
        DiscoveryService::Imap => "imap"@,
        DiscoveryService::Pop3 => "pop3"@,
        DiscoveryService::Smtp => "smtp"@,
        DiscoveryService::Jmap => "jmap"@,
        DiscoveryService::Caldav => "caldav"@,
        DiscoveryService::Carddav => "carddav"@,
        DiscoveryService::Webdav => "webdav"@,
        DiscoveryService::Managesieve => "managesieve"@,
    }
}

/// Distinct services render to distinct SERVICE labels, and each label
/// is the name the service goes by elsewhere: a DAV service's well-known
/// context is `/.well-known/` followed by its label.
pub proof fn law_service_labels_name_their_service(a: DiscoveryService, b: DiscoveryService)
    ensures
        service_label(a) == service_label(b) ==> a == b,
        well_known_path(a) is Some ==> well_known_path(a)->0 == "/.well-known/"@ + service_label(a),
{
    reveal_strlit("imap");
    reveal_strlit("pop3");
    reveal_strlit("smtp");
    reveal_strlit("jmap");
    reveal_strlit("caldav");
    reveal_strlit("carddav");
    reveal_strlit("webdav");
    reveal_strlit("managesieve");
    reveal_strlit("/.well-known/");
    reveal_strlit("/.well-known/caldav");
    reveal_strlit("/.well-known/carddav");
    let la = service_label(a);
    let lb = service_label(b);
    if la == lb {
        assert(la.len() == lb.len() && la[0] == lb[0]);
    }
    if a == DiscoveryService::Caldav {
        assert("/.well-known/caldav"@ =~= "/.well-known/"@ + "caldav"@);
    }
    if a == DiscoveryService::Carddav {
        assert("/.well-known/carddav"@ =~= "/.well-known/"@ + "carddav"@);
    }
}

pub open spec fn security_label(s: DiscoverySecurity) -> Seq<char> {
    match s {
        DiscoverySecurity::Plain => "plain"@,
        DiscoverySecurity::Starttls => "STARTTLS"@,
        DiscoverySecurity::Tls => "SSL"@,
    }
}

pub open spec fn source_label(s: DiscoveryConfigSource) -> Seq<char> {
    match s {
        DiscoveryConfigSource::Provider(DiscoveryKnownProvider::Google) => "provider:google"@,
        DiscoveryConfigSource::Provider(DiscoveryKnownProvider::Microsoft) => "provider:microsoft"@,
        DiscoveryConfigSource::Pacc => "pacc"@,
        DiscoveryConfigSource::IspMain => "isp"@,
        DiscoveryConfigSource::IspFallback => "isp-fallback"@,
        DiscoveryConfigSource::Mailconf => "mailconf"@,
        DiscoveryConfigSource::Ispdb => "ispdb"@,
        DiscoveryConfigSource::Srv => "srv"@,
        DiscoveryConfigSource::Dav => "dav"@,
        DiscoveryConfigSource::Jmap => "jmap"@,
    }
}

pub open spec fn auth_label(m: AuthMethodView) -> Seq<char> {
    match m {
        AuthMethodView::Password => "password"@,
        AuthMethodView::Bearer => "bearer"@,
        AuthMethodView::AuthorizationCode { .. } => "oauth2:authorization-code"@,
        AuthMethodView::DeviceAuthorization { .. } => "oauth2:device"@,
        AuthMethodView::Issuer(issuer) => "oauth2:"@ + issuer,
    }
}

pub open spec fn digit_char(d: int) -> char {
    ((d + 48) as u32) as char
}

/// The decimal digits of `n`.
pub open spec fn decimal(n: nat) -> Seq<char>
    decreases n,
{
    if n < 10 {
        seq![digit_char(n as int)]
    } else {
        decimal(n / 10).push(digit_char((n % 10) as int))
    }
}

/// `host:port (security)` for a TCP endpoint, the URL for an HTTP one.
pub open spec fn endpoint_label(e: EndpointView) -> Seq<char> {
    match e {
        EndpointView::Tcp { host, port, security } => host + ":"@ + decimal(port as nat) + " ("@
            + security_label(security) + ")"@,
        EndpointView::Http(url) => url,
    }
}

/// The labels of `auth` joined with `, `.
pub open spec fn joined_auth(auth: Seq<AuthMethodView>) -> Seq<char>
    decreases auth.len(),
{
    if auth.len() == 0 {
        Seq::empty()
    } else if auth.len() == 1 {
        auth_label(auth[0])
    } else {
        joined_auth(auth.drop_last()) + ", "@ + auth_label(auth.last())
    }
}

/// The row of a composed config: the username or `-`, and the joined
/// authentication labels or `-` when there are none.
pub open spec fn row_of(c: ServiceConfigView) -> RowView {
    let auth = joined_auth(c.auth);
    RowView {
        service: service_label(c.service),
        endpoint: endpoint_label(c.endpoint),
        username: match c.username {
            Some(u) => u,
            None => "-"@,
        },
        auth: if auth.len() == 0 {
            "-"@
        } else {
            auth
        },
        source: source_label(c.source),
    }
}

fn push_decimal(s: &mut String, n: u16)
    ensures
        final(s)@ == old(s)@ + decimal(n as nat),
    decreases n,
{
    if n >= 10 {
        push_decimal(s, n / 10);
    }
    let d = (n % 10) as u8;
    push_char(s, (d + 48) as char);
    assert(final(s)@ =~= old(s)@ + decimal(n as nat));
}

fn service_text(s: DiscoveryService) -> (r: String)
    ensures
        r@ == service_label(s),
{
    match s {
        DiscoveryService::Imap => String::from_str("imap"),
        DiscoveryService::Pop3 => String::from_str("pop3"),
        DiscoveryService::Smtp => String::from_str("smtp"),
        DiscoveryService::Jmap => String::from_str("jmap"),
        DiscoveryService::Caldav => String::from_str("caldav"),
        DiscoveryService::Carddav => String::from_str("carddav"),
        DiscoveryService::Webdav => String::from_str("webdav"),
        DiscoveryService::Managesieve => String::from_str("managesieve"),
    }
}

fn security_text(s: DiscoverySecurity) -> (r: &'static str)
    ensures
        r@ == security_label(s),
{
    match s {
        DiscoverySecurity::Plain => "plain",
        DiscoverySecurity::Starttls => "STARTTLS",
        DiscoverySecurity::Tls => "SSL",
    }
}

fn source_text(s: DiscoveryConfigSource) -> (r: String)
    ensures
        r@ == source_label(s),
{
    match s {
        DiscoveryConfigSource::Provider(DiscoveryKnownProvider::Google) => String::from_str("provider:google"),
        DiscoveryConfigSource::Provider(DiscoveryKnownProvider::Microsoft) => String::from_str(
            "provider:microsoft",
        ),
        DiscoveryConfigSource::Pacc => String::from_str("pacc"),
        DiscoveryConfigSource::IspMain => String::from_str("isp"),
        DiscoveryConfigSource::IspFallback => String::from_str("isp-fallback"),
        DiscoveryConfigSource::Mailconf => String::from_str("mailconf"),
        DiscoveryConfigSource::Ispdb => String::from_str("ispdb"),
        DiscoveryConfigSource::Srv => String::from_str("srv"),
        DiscoveryConfigSource::Dav => String::from_str("dav"),
        DiscoveryConfigSource::Jmap => String::from_str("jmap"),
    }
}

fn append_auth_label(out: &mut String, m: &DiscoveryAuthMethod)
    ensures
        final(out)@ == old(out)@ + auth_label(m@),
{
    match m {
        DiscoveryAuthMethod::Password => out.append("password"),
        DiscoveryAuthMethod::Bearer => out.append("bearer"),
        DiscoveryAuthMethod::OauthAuthorizationCodeGrant { .. } => out.append("oauth2:authorization-code"),
        DiscoveryAuthMethod::OauthDeviceAuthorizationGrant { .. } => out.append("oauth2:device"),
        DiscoveryAuthMethod::OauthIssuer(issuer) => {
            out.append("oauth2:");
            out.append(issuer.as_str());
            assert(final(out)@ =~= old(out)@ + auth_label(m@));
        },
    }
}

fn endpoint_text(e: &DiscoveryEndpoint) -> (r: String)
    ensures
        r@ == endpoint_label(e@),
{
    match e {
        DiscoveryEndpoint::Tcp { host, port, security } => {
            let mut out = host.clone();
            out.append(":");
            push_decimal(&mut out, *port);
            out.append(" (");
            out.append(security_text(*security));
            out.append(")");
            out
        },
        DiscoveryEndpoint::Http(url) => url.clone(),
    }
}

/// The row that renders a composed config.
pub fn compose_row(config: &DiscoveryServiceConfig) -> (r: ComposeRow)
    ensures
        r@ == row_of(config@),
{
    let ghost av = config@.auth;
    let mut auth = String::new();
    let mut i: usize = 0;
    while i < config.auth.len()
        invariant
            0 <= i <= config.auth.len(),
            av == config@.auth,
            auth@ == joined_auth(av.subrange(0, i as int)),
        decreases config.auth.len() - i,
    {
        let ghost before = auth@;
        proof {
            let sub = av.subrange(0, i + 1);
            assert(sub.drop_last() =~= av.subrange(0, i as int));
            assert(sub.last() == config.auth@[i as int]@);
            if i == 0 {
                assert(sub[0] == config.auth@[0]@);
            }
        }
        if i > 0 {
            auth.append(", ");
        }
        append_auth_label(&mut auth, &config.auth[i]);
        proof {
            if i == 0 {
                assert(auth@ =~= joined_auth(av.subrange(0, 1)));
            } else {
                assert(auth@ =~= before + ", "@ + auth_label(config.auth@[i as int]@));
            }
        }
        i = i + 1;
    }
    assert(av.subrange(0, config.auth.len() as int) =~= av);
    let username = match &config.username {
        Some(u) => u.clone(),
        None => String::from_str("-"),
    };
    let auth = if auth.unicode_len() == 0 {
        String::from_str("-")
    } else {
        auth
    };
    ComposeRow {
        service: service_text(config.service),
        endpoint: endpoint_text(&config.endpoint),
        username,
        auth,
        source: source_text(config.source),
    }
}

/// The rows that render the composed configs, in order.
pub fn compose_rows(configs: &Vec<DiscoveryServiceConfig>) -> (r: Vec<ComposeRow>)
    ensures
        r@.len() == configs@.len(),
        forall|i: int| 0 <= i < configs@.len() ==> #[trigger] r@[i]@ == row_of(configs@[i]@),
{
    let mut rows: Vec<ComposeRow> = Vec::new();
    let mut i: usize = 0;
    while i < configs.len()
        invariant
            0 <= i <= configs.len(),
            rows@.len() == i,
            forall|k: int| 0 <= k < i ==> #[trigger] rows@[k]@ == row_of(configs@[k]@),
        decreases configs.len() - i,
    {
        rows.push(compose_row(&configs[i]));
        i = i + 1;
    }
    rows
}

} // verus!
