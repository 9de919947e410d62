//! The composed config model: which service, at which endpoint, for
//! which username, with which authentication methods, found by which
//! mechanism. Each type has a view over `Seq<char>` that the contracts
//! speak of.

use vstd::prelude::*;

use crate::shared::urls::{
    parse_url, path_fits, serialized_with_path, url_host, url_serialization, url_with_path,
};
use crate::text::{ascii_lowercase, to_ascii_lowercase};

verus! {

/// A PIM service a config gives access to.
#[derive(Clone, Copy, Debug, PartialEq, Eq, Structural, PartialOrd, Ord, Hash)]
pub enum DiscoveryService {
    Imap,
    Pop3,
    Smtp,
    Jmap,
    Caldav,
    Carddav,
    Webdav,
    Managesieve,
}

/// The transport security of a TCP endpoint.
#[derive(Clone, Copy, Debug, PartialEq, Eq, Structural, Hash)]
pub enum DiscoverySecurity {
    Plain,
    Starttls,
    Tls,
}

/// A provider whose configs are fixed rules rather than discovered.
#[derive(Clone, Copy, Debug, PartialEq, Eq, Structural, Hash)]
pub enum DiscoveryKnownProvider {
    Google,
    Microsoft,
}

/// The mechanism a config was found by.
#[derive(Clone, Copy, Debug, PartialEq, Eq, Structural, Hash)]
pub enum DiscoveryConfigSource {
    Provider(DiscoveryKnownProvider),
    Pacc,
    IspMain,
    IspFallback,
    Mailconf,
    Ispdb,
    Srv,
    Dav,
    Jmap,
}

/// Where a service is reached: a TCP host and port, or an HTTP URL.
#[derive(Clone, Debug, PartialEq, Eq, Hash)]
pub enum DiscoveryEndpoint {
    Tcp { host: String, port: u16, security: DiscoverySecurity },
    Http(String),
}

/// How a client authenticates against a service.
#[derive(Clone, Debug, PartialEq, Eq, Hash)]
pub enum DiscoveryAuthMethod {
    Password,
    Bearer,
    OauthAuthorizationCodeGrant {
        authorization_endpoint: String,
        token_endpoint: String,
        scope: Option<String>,
    },
    OauthDeviceAuthorizationGrant {
        device_authorization_endpoint: String,
        token_endpoint: String,
        scope: Option<String>,
    },
    OauthIssuer(String),
}

/// One way to reach one service.
#[derive(Clone, Debug, PartialEq, Eq)]
pub struct DiscoveryServiceConfig {
    pub service: DiscoveryService,
    pub endpoint: DiscoveryEndpoint,
    pub username: Option<String>,
    pub auth: Vec<DiscoveryAuthMethod>,
    pub source: DiscoveryConfigSource,
}

pub enum EndpointView {
    Tcp { host: Seq<char>, port: u16, security: DiscoverySecurity },
    Http(Seq<char>),
}

pub enum AuthMethodView {
    Password,
    Bearer,
    AuthorizationCode {
        authorization_endpoint: Seq<char>,
        token_endpoint: Seq<char>,
        scope: Option<Seq<char>>,
    },
    DeviceAuthorization {
        device_authorization_endpoint: Seq<char>,
        token_endpoint: Seq<char>,
        scope: Option<Seq<char>>,
    },
    Issuer(Seq<char>),
}

pub struct ServiceConfigView {
    pub service: DiscoveryService,
    pub endpoint: EndpointView,
    pub username: Option<Seq<char>>,
    pub auth: Seq<AuthMethodView>,
    pub source: DiscoveryConfigSource,
}

pub open spec fn opt_str_view(o: Option<String>) -> Option<Seq<char>> {
    match o {
        Some(s) => Some(s@),
        None => None,
    }
}

impl View for DiscoveryEndpoint {
    type V = EndpointView;

    open spec fn view(&self) -> EndpointView {
        match self {
            DiscoveryEndpoint::Tcp { host, port, security } => EndpointView::Tcp {
                host: host@,
                port: *port,
                security: *security,
            },
            DiscoveryEndpoint::Http(url) => EndpointView::Http(url@),
        }
    }
}

impl View for DiscoveryAuthMethod {
    type V = AuthMethodView;

    open spec fn view(&self) -> AuthMethodView {
        match self {
            DiscoveryAuthMethod::Password => AuthMethodView::Password,
            DiscoveryAuthMethod::Bearer => AuthMethodView::Bearer,
            DiscoveryAuthMethod::OauthAuthorizationCodeGrant {
                authorization_endpoint,
                token_endpoint,
                scope,
            } => AuthMethodView::AuthorizationCode {
                authorization_endpoint: authorization_endpoint@,
                token_endpoint: token_endpoint@,
                scope: opt_str_view(*scope),
            },
            DiscoveryAuthMethod::OauthDeviceAuthorizationGrant {
                device_authorization_endpoint,
                token_endpoint,
                scope,
            } => AuthMethodView::DeviceAuthorization {
                device_authorization_endpoint: device_authorization_endpoint@,
                token_endpoint: token_endpoint@,
                scope: opt_str_view(*scope),
            },
            DiscoveryAuthMethod::OauthIssuer(issuer) => AuthMethodView::Issuer(issuer@),
        }
    }
}

/// The views of a list of authentication methods.
pub open spec fn auth_view(s: Seq<DiscoveryAuthMethod>) -> Seq<AuthMethodView> {
    s.map_values(|m: DiscoveryAuthMethod| m@)
}

impl View for DiscoveryServiceConfig {
    type V = ServiceConfigView;

    open spec fn view(&self) -> ServiceConfigView {
        ServiceConfigView {
            service: self.service,
            endpoint: self.endpoint@,
            username: opt_str_view(self.username),
            auth: auth_view(self.auth@),
            source: self.source,
        }
    }
}

/// The views of a list of configs.
pub open spec fn configs_view(s: Seq<DiscoveryServiceConfig>) -> Seq<ServiceConfigView> {
    s.map_values(|c: DiscoveryServiceConfig| c@)
}

/// Whether `host` is a strict subdomain of `parent`: `parent` preceded by
/// a dot and at least one more character.
pub open spec fn is_strict_subdomain(host: Seq<char>, parent: Seq<char>) -> bool {
    &&& parent.len() > 0
    &&& host.len() > parent.len() + 1
    &&& host.subrange(host.len() - parent.len(), host.len() as int) == parent
    &&& host[host.len() - parent.len() - 1] == '.'
}

/// Two endpoints name the same place: TCP endpoints with the same host,
/// port and security; HTTP endpoints whose URLs normalize to the same
/// serialization (compared as written when either does not parse).
pub open spec fn endpoint_equivalent(a: EndpointView, b: EndpointView) -> bool {
    match (a, b) {
        (
            EndpointView::Tcp { host: h1, port: p1, security: s1 },
            EndpointView::Tcp { host: h2, port: p2, security: s2 },
        ) => h1 == h2 && p1 == p2 && s1 == s2,
        (EndpointView::Http(u1), EndpointView::Http(u2)) => match (
            url_serialization(u1),
            url_serialization(u2),
        ) {
            (Some(n1), Some(n2)) => n1 == n2,
            _ => u1 == u2,
        },
        _ => false,
    }
}

/// `a` is an HTTP endpoint whose host is a strict subdomain of the host
/// of the HTTP endpoint `b` (a rotated backend name of the same service).
pub open spec fn endpoint_subdomain_of(a: EndpointView, b: EndpointView) -> bool {
    match (a, b) {
        (EndpointView::Http(u1), EndpointView::Http(u2)) => match (url_host(u1), url_host(u2)) {
            (Some(h1), Some(h2)) => is_strict_subdomain(h1, h2),
            _ => false,
        },
        _ => false,
    }
}

/// `host.ends_with('.' + parent)` with something before the dot.
pub fn strict_subdomain(host: &str, parent: &str) -> (r: bool)
    ensures
        r == is_strict_subdomain(host@, parent@),
{
    let hn = host.unicode_len();
    let pn = parent.unicode_len();
    if pn == 0 || hn <= pn || hn - pn <= 1 {
        return false;
    }
    let offset = hn - pn;
    if host.get_char(offset - 1) != '.' {
        return false;
    }
    let mut i: usize = 0;
    while i < pn
        invariant
            0 <= i <= pn,
            pn == parent@.len(),
            hn == host@.len(),
            offset == hn - pn,
            forall|k: int| 0 <= k < i ==> host@[offset + k] == parent@[k],
        decreases pn - i,
    {
        if host.get_char(offset + i) != parent.get_char(i) {
            proof {
                assert(host@.subrange(offset as int, hn as int)[i as int] != parent@[i as int]);
            }
            return false;
        }
        i = i + 1;
    }
    assert(host@.subrange(offset as int, hn as int) =~= parent@);
    true
}

pub fn opt_string_eq(a: &Option<String>, b: &Option<String>) -> (r: bool)
    ensures
        r == (opt_str_view(*a) == opt_str_view(*b)),
{
    match (a, b) {
        (Some(x), Some(y)) => *x == *y,
        (None, None) => true,
        _ => false,
    }
}

pub fn opt_string_duplicate(a: &Option<String>) -> (r: Option<String>)
    ensures
        opt_str_view(r) == opt_str_view(*a),
{
    match a {
        Some(x) => Some(x.clone()),
        None => None,
    }
}

impl DiscoveryEndpoint {
    /// A copy of this endpoint.
    pub fn duplicate(&self) -> (r: Self)
        ensures
            r@ == self@,
    {
        match self {
            DiscoveryEndpoint::Tcp { host, port, security } => DiscoveryEndpoint::Tcp {
                host: host.clone(),
                port: *port,
                security: *security,
            },
            DiscoveryEndpoint::Http(url) => DiscoveryEndpoint::Http(url.clone()),
        }
    }

    /// Whether this endpoint and `other` name the same place.
    pub fn equivalent(&self, other: &Self) -> (r: bool)
        ensures
            r == endpoint_equivalent(self@, other@),
    {
        match (self, other) {
            (
                DiscoveryEndpoint::Tcp { host: h1, port: p1, security: s1 },
                DiscoveryEndpoint::Tcp { host: h2, port: p2, security: s2 },
            ) => *h1 == *h2 && *p1 == *p2 && *s1 == *s2,
            (DiscoveryEndpoint::Http(u1), DiscoveryEndpoint::Http(u2)) => {
                match (parse_url(u1.as_str()), parse_url(u2.as_str())) {
                    (Some(p1), Some(p2)) => p1.serialization == p2.serialization,
                    _ => *u1 == *u2,
                }
            },
            _ => false,
        }
    }

    /// Whether this endpoint's host is a strict subdomain of `other`'s.
    pub fn subdomain_of(&self, other: &Self) -> (r: bool)
        ensures
            r == endpoint_subdomain_of(self@, other@),
    {
        match (self, other) {
            (DiscoveryEndpoint::Http(u1), DiscoveryEndpoint::Http(u2)) => {
                match (parse_url(u1.as_str()), parse_url(u2.as_str())) {
                    (Some(p1), Some(p2)) => match (&p1.host, &p2.host) {
                        (Some(h1), Some(h2)) => strict_subdomain(h1.as_str(), h2.as_str()),
                        _ => false,
                    },
                    _ => false,
                }
            },
            _ => false,
        }
    }
}

impl DiscoveryAuthMethod {
    /// A copy of this method.
    pub fn duplicate(&self) -> (r: Self)
        ensures
            r@ == self@,
    {
        match self {
            DiscoveryAuthMethod::Password => DiscoveryAuthMethod::Password,
            DiscoveryAuthMethod::Bearer => DiscoveryAuthMethod::Bearer,
            DiscoveryAuthMethod::OauthAuthorizationCodeGrant {
                authorization_endpoint,
                token_endpoint,
                scope,
            } => DiscoveryAuthMethod::OauthAuthorizationCodeGrant {
                authorization_endpoint: authorization_endpoint.clone(),
                token_endpoint: token_endpoint.clone(),
                scope: opt_string_duplicate(scope),
            },
            DiscoveryAuthMethod::OauthDeviceAuthorizationGrant {
                device_authorization_endpoint,
                token_endpoint,
                scope,
            } => DiscoveryAuthMethod::OauthDeviceAuthorizationGrant {
                device_authorization_endpoint: device_authorization_endpoint.clone(),
                token_endpoint: token_endpoint.clone(),
                scope: opt_string_duplicate(scope),
            },
            DiscoveryAuthMethod::OauthIssuer(issuer) => DiscoveryAuthMethod::OauthIssuer(
                issuer.clone(),
            ),
        }
    }

    /// Whether this method and `other` are the same method.
    pub fn same_as(&self, other: &Self) -> (r: bool)
        ensures
            r == (self@ == other@),
    {
        match (self, other) {
            (DiscoveryAuthMethod::Password, DiscoveryAuthMethod::Password) => true,
            (DiscoveryAuthMethod::Bearer, DiscoveryAuthMethod::Bearer) => true,
            (
                DiscoveryAuthMethod::OauthAuthorizationCodeGrant {
                    authorization_endpoint: a1,
                    token_endpoint: t1,
                    scope: s1,
                },
                DiscoveryAuthMethod::OauthAuthorizationCodeGrant {
                    authorization_endpoint: a2,
                    token_endpoint: t2,
                    scope: s2,
                },
            ) => *a1 == *a2 && *t1 == *t2 && opt_string_eq(s1, s2),
            (
                DiscoveryAuthMethod::OauthDeviceAuthorizationGrant {
                    device_authorization_endpoint: d1,
                    token_endpoint: t1,
                    scope: s1,
                },
                DiscoveryAuthMethod::OauthDeviceAuthorizationGrant {
                    device_authorization_endpoint: d2,
                    token_endpoint: t2,
                    scope: s2,
                },
            ) => *d1 == *d2 && *t1 == *t2 && opt_string_eq(s1, s2),
            (DiscoveryAuthMethod::OauthIssuer(i1), DiscoveryAuthMethod::OauthIssuer(i2)) => *i1
                == *i2,
            _ => false,
        }
    }
}

/// A copy of a list of authentication methods.
pub fn duplicate_auth(auth: &Vec<DiscoveryAuthMethod>) -> (r: Vec<DiscoveryAuthMethod>)
    ensures
        auth_view(r@) == auth_view(auth@),
{
    let mut out: Vec<DiscoveryAuthMethod> = Vec::new();
    let mut i: usize = 0;
    while i < auth.len()
        invariant
            0 <= i <= auth.len(),
            auth_view(out@) == auth_view(auth@.subrange(0, i as int)),
        decreases auth.len() - i,
    {
        let m = auth[i].duplicate();
        let ghost prev = out@;
        out.push(m);
        proof {
            let sub = auth@.subrange(0, i as int);
            assert(auth@.subrange(0, i + 1) =~= sub.push(auth@[i as int]));
            assert(auth_view(sub.push(auth@[i as int])) =~= auth_view(sub).push(auth@[i as int]@));
            assert(auth_view(prev.push(m)) =~= auth_view(prev).push(m@));
        }
        i = i + 1;
    }
    assert(auth@.subrange(0, auth.len() as int) =~= auth@);
    out
}

impl DiscoveryServiceConfig {
    /// A copy of this config.
    pub fn duplicate(&self) -> (r: Self)
        ensures
            r@ == self@,
    {
        DiscoveryServiceConfig {
            service: self.service,
            endpoint: self.endpoint.duplicate(),
            username: opt_string_duplicate(&self.username),
            auth: duplicate_auth(&self.auth),
            source: self.source,
        }
    }
}

/// Whether a method is an OAuth one, which an endpoint probe never
/// refines.
pub open spec fn is_oauth(m: AuthMethodView) -> bool {
    match m {
        AuthMethodView::AuthorizationCode { .. } => true,
        AuthMethodView::DeviceAuthorization { .. } => true,
        AuthMethodView::Issuer(_) => true,
        _ => false,
    }
}

/// The OAuth methods of `auth`, in order.
pub open spec fn oauth_only(auth: Seq<AuthMethodView>) -> Seq<AuthMethodView>
    decreases auth.len(),
{
    if auth.len() == 0 {
        auth
    } else if is_oauth(auth.last()) {
        oauth_only(auth.drop_last()).push(auth.last())
    } else {
        oauth_only(auth.drop_last())
    }
}

/// The method an advertised `WWW-Authenticate` scheme stands for: `Basic`
/// for a password, `Bearer` for a bearer token, compared without regard
/// to ASCII case.
pub open spec fn scheme_method(scheme: Seq<char>) -> Option<AuthMethodView> {
    if ascii_lowercase(scheme) == "basic"@ {
        Some(AuthMethodView::Password)
    } else if ascii_lowercase(scheme) == "bearer"@ {
        Some(AuthMethodView::Bearer)
    } else {
        None
    }
}

/// The methods the advertised schemes stand for, in the order they are
/// first advertised, each once.
pub open spec fn scheme_methods(schemes: Seq<Seq<char>>) -> Seq<AuthMethodView>
    decreases schemes.len(),
{
    if schemes.len() == 0 {
        Seq::empty()
    } else {
        let front = scheme_methods(schemes.drop_last());
        match scheme_method(schemes.last()) {
            Some(m) => if front.contains(m) {
                front
            } else {
                front.push(m)
            },
            None => front,
        }
    }
}

/// `auth` refined against the schemes an endpoint advertised: the
/// advertised password and bearer methods replace those the documents
/// claimed, and the OAuth methods stay, in order, after them.
pub open spec fn refined_auth(auth: Seq<AuthMethodView>, schemes: Seq<Seq<char>>) -> Seq<AuthMethodView> {
    scheme_methods(schemes) + oauth_only(auth)
}

/// The path of the well-known DAV context of a service, if it has one.
pub open spec fn well_known_path(service: DiscoveryService) -> Option<Seq<char>> {
    match service {
        DiscoveryService::Caldav => Some("/.well-known/caldav"@),
        DiscoveryService::Carddav => Some("/.well-known/carddav"@),
        _ => None,
    }
}

/// The URLs whose unauthenticated 401 may advertise a config's schemes:
/// the HTTP endpoint itself, then, for the DAV services, the same origin
/// at the service's well-known path, whenever rewriting the path stays
/// within the `url` crate's 32-bit offsets (a serialization within a few
/// bytes of 4 GiB does not).
pub open spec fn probe_urls_of(c: ServiceConfigView) -> Seq<Seq<char>> {
    match c.endpoint {
        EndpointView::Http(raw) => match url_serialization(raw) {
            Some(url) => match well_known_path(c.service) {
                Some(path) => if path_fits(url, path) {
                    seq![url, url_with_path(raw, path)]
                } else {
                    seq![url]
                },
                None => seq![url],
            },
            None => Seq::empty(),
        },
        _ => Seq::empty(),
    }
}

/// The views of a list of strings.
pub open spec fn strings_view(s: Seq<String>) -> Seq<Seq<char>> {
    s.map_values(|x: String| x@)
}

fn is_oauth_method(m: &DiscoveryAuthMethod) -> (r: bool)
    ensures
        r == is_oauth(m@),
{
    match m {
        DiscoveryAuthMethod::Password => false,
        DiscoveryAuthMethod::Bearer => false,
        _ => true,
    }
}

/// The method an advertised scheme stands for.
pub fn method_of_scheme(scheme: &str) -> (r: Option<DiscoveryAuthMethod>)
    ensures
        match r {
            Some(m) => scheme_method(scheme@) == Some(m@),
            None => scheme_method(scheme@) is None,
        },
{
    let lower = to_ascii_lowercase(scheme);
    if lower == String::from_str("basic") {
        Some(DiscoveryAuthMethod::Password)
    } else if lower == String::from_str("bearer") {
        Some(DiscoveryAuthMethod::Bearer)
    } else {
        None
    }
}

impl DiscoveryServiceConfig {
    /// Refines the authentication methods against the schemes an
    /// endpoint advertised.
    pub fn refine_auth(&mut self, schemes: &Vec<String>)
        ensures
            final(self)@ == (ServiceConfigView {
                auth: refined_auth(old(self)@.auth, strings_view(schemes@)),
                ..old(self)@
            }),
    {
        let ghost sv = strings_view(schemes@);
        let mut auth: Vec<DiscoveryAuthMethod> = Vec::new();
        let mut i: usize = 0;
        while i < schemes.len()
            invariant
                0 <= i <= schemes.len(),
                sv == strings_view(schemes@),
                auth_view(auth@) == scheme_methods(sv.subrange(0, i as int)),
            decreases schemes.len() - i,
        {
            let ghost before = auth@;
            proof {
                assert(sv.subrange(0, i + 1).drop_last() =~= sv.subrange(0, i as int));
                assert(sv.subrange(0, i + 1).last() == schemes@[i as int]@);
            }
            match method_of_scheme(schemes[i].as_str()) {
                Some(m) => {
                    if !crate::compose::collect::auth_contains(&auth, &m) {
                        auth.push(m);
                        assert(auth_view(auth@) =~= auth_view(before).push(m@));
                    }
                },
                None => {},
            }
            i = i + 1;
        }
        assert(sv.subrange(0, schemes.len() as int) =~= sv);
        let ghost head = auth@;
        let ghost old_auth = auth_view(self.auth@);
        let mut j: usize = 0;
        while j < self.auth.len()
            invariant
                0 <= j <= self.auth.len(),
                old_auth == auth_view(self.auth@),
                auth_view(auth@) == auth_view(head) + oauth_only(old_auth.subrange(0, j as int)),
            decreases self.auth.len() - j,
        {
            let ghost before = auth@;
            proof {
                assert(old_auth.subrange(0, j + 1).drop_last() =~= old_auth.subrange(0, j as int));
                assert(old_auth.subrange(0, j + 1).last() == self.auth@[j as int]@);
            }
            if is_oauth_method(&self.auth[j]) {
                auth.push(self.auth[j].duplicate());
                assert(auth_view(auth@) =~= auth_view(before).push(self.auth@[j as int]@));
                assert(auth_view(head) + oauth_only(old_auth.subrange(0, j as int)).push(self.auth@[j as int]@)
                    =~= (auth_view(head) + oauth_only(old_auth.subrange(0, j as int))).push(self.auth@[j as int]@));
            }
            j = j + 1;
        }
        assert(old_auth.subrange(0, self.auth.len() as int) =~= old_auth);
        self.auth = auth;
    }

    /// The URLs to probe for this config's advertised schemes, in order.
    pub fn probe_urls(&self) -> (r: Vec<String>)
        ensures
            strings_view(r@) == probe_urls_of(self@),
    {
        proof {
            reveal_strlit("/.well-known/caldav");
            reveal_strlit("/.well-known/carddav");
        }
        let mut urls: Vec<String> = Vec::new();
        match &self.endpoint {
            DiscoveryEndpoint::Http(raw) => match parse_url(raw.as_str()) {
                Some(parsed) => {
                    let url = parsed.serialization.clone();
                    urls.push(url);
                    let path = match self.service {
                        DiscoveryService::Caldav => Some("/.well-known/caldav"),
                        DiscoveryService::Carddav => Some("/.well-known/carddav"),
                        _ => None,
                    };
                    match path {
                        Some(p) => {
                            let bytes = parsed.serialization.as_str().as_bytes().len() as u64;
                            let ghost sv = parsed.serialization@;
                            proof {
                                assert(forall|i: int| 0 <= i < p@.len() ==> crate::shared::urls::is_plain_path_char(#[trigger] p@[i]));
                            }
                            let plen = p.unicode_len() as u64;
                            proof {
                                assert(bytes == vstd::utf8::encode_utf8(sv).len());
                            }
                            if bytes <= 0xffff_ffff - 2 - plen {
                                urls.push(serialized_with_path(raw.as_str(), p));
                            }
                        },
                        None => {},
                    }
                },
                None => {},
            },
            _ => {},
        }
        assert(strings_view(urls@) =~= probe_urls_of(self@));
        urls
    }
}

proof fn lemma_oauth_only(auth: Seq<AuthMethodView>)
    ensures
        forall|m: AuthMethodView| #[trigger] oauth_only(auth).contains(m) <==> (auth.contains(m) && is_oauth(m)),
    decreases auth.len(),
{
    if auth.len() > 0 {
        let front = auth.drop_last();
        lemma_oauth_only(front);
        assert forall|m: AuthMethodView| #[trigger] oauth_only(auth).contains(m) <==> (auth.contains(m) && is_oauth(m)) by {
            lemma_seq_push_contains(front, auth.last(), m);
            assert(front.push(auth.last()) =~= auth);
            lemma_seq_push_contains(oauth_only(front), auth.last(), m);
        }
    }
}

proof fn lemma_scheme_methods(schemes: Seq<Seq<char>>)
    ensures
        forall|m: AuthMethodView|
            #[trigger] scheme_methods(schemes).contains(m) <==> exists|i: int|
                0 <= i < schemes.len() && scheme_method(#[trigger] schemes[i]) == Some(m),
    decreases schemes.len(),
{
    if schemes.len() > 0 {
        let front = schemes.drop_last();
        lemma_scheme_methods(front);
        assert forall|m: AuthMethodView|
            #[trigger] scheme_methods(schemes).contains(m) <==> exists|i: int|
                0 <= i < schemes.len() && scheme_method(#[trigger] schemes[i]) == Some(m) by {
            lemma_seq_push_contains(scheme_methods(front), m, m);
            if let Some(x) = scheme_method(schemes.last()) {
                lemma_seq_push_contains(scheme_methods(front), x, m);
            }
            if exists|i: int| 0 <= i < schemes.len() && scheme_method(#[trigger] schemes[i]) == Some(m) {
                let i = choose|i: int| 0 <= i < schemes.len() && scheme_method(#[trigger] schemes[i]) == Some(m);
                if i < schemes.len() - 1 {
                    assert(front[i] == schemes[i]);
                }
            }
            if exists|i: int| 0 <= i < front.len() && scheme_method(#[trigger] front[i]) == Some(m) {
                let i = choose|i: int| 0 <= i < front.len() && scheme_method(#[trigger] front[i]) == Some(m);
                assert(schemes[i] == front[i]);
            }
        }
    }
}

proof fn lemma_seq_push_contains<A>(s: Seq<A>, x: A, m: A)
    ensures
        s.push(x).contains(m) <==> (s.contains(m) || m == x),
{
    if s.contains(m) {
        let k = choose|k: int| 0 <= k < s.len() && s[k] == m;
        assert(s.push(x)[k] == m);
    }
    if m == x {
        assert(s.push(x)[s.len() as int] == m);
    }
    if s.push(x).contains(m) {
        let k = choose|k: int| 0 <= k < s.push(x).len() && s.push(x)[k] == m;
        if k < s.len() {
            assert(s[k] == m);
        }
    }
}

/// Probed schemes replace the claimed password and bearer methods while
/// every OAuth method stays: after refinement a config holds each OAuth
/// method it had, holds a password method exactly when `Basic` was
/// advertised and a bearer method exactly when `Bearer` was.
pub proof fn law_refinement_replaces_claims_and_keeps_oauth(auth: Seq<AuthMethodView>, schemes: Seq<Seq<char>>)
    ensures
        forall|m: AuthMethodView|
            auth.contains(m) && is_oauth(m) ==> #[trigger] refined_auth(auth, schemes).contains(m),
        refined_auth(auth, schemes).contains(AuthMethodView::Password) <==> exists|i: int|
            0 <= i < schemes.len() && scheme_method(#[trigger] schemes[i]) == Some(AuthMethodView::Password),
        refined_auth(auth, schemes).contains(AuthMethodView::Bearer) <==> exists|i: int|
            0 <= i < schemes.len() && scheme_method(#[trigger] schemes[i]) == Some(AuthMethodView::Bearer),
{
    lemma_oauth_only(auth);
    lemma_scheme_methods(schemes);
    assert forall|m: AuthMethodView| #[trigger] refined_auth(auth, schemes).contains(m) <==> (scheme_methods(schemes).contains(m)
        || oauth_only(auth).contains(m)) by {
        let a = scheme_methods(schemes);
        let b = oauth_only(auth);
        if a.contains(m) {
            let k = choose|k: int| 0 <= k < a.len() && a[k] == m;
            assert((a + b)[k] == m);
        }
        if b.contains(m) {
            let k = choose|k: int| 0 <= k < b.len() && b[k] == m;
            assert((a + b)[a.len() + k] == m);
        }
        if (a + b).contains(m) {
            let k = choose|k: int| 0 <= k < (a + b).len() && (a + b)[k] == m;
            if k < a.len() {
                assert(a[k] == m);
            } else {
                assert(b[k - a.len()] == m);
            }
        }
    }
    assert(!is_oauth(AuthMethodView::Password));
    assert(!is_oauth(AuthMethodView::Bearer));
}

} // verus!
