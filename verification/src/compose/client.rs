//! The decisions of the parallel compose orchestrator: how an email
//! address is read, which mechanisms run for the requested services and
//! in which order, and how their outputs, the endpoint probes and the
//! resolved OAuth issuers reduce into the composed config list.

use vstd::prelude::*;

use crate::shared::urls::{parse_url, url_serialization};

use crate::compose::collect::{
    collect_seq, wants, wants_service, DiscoveryConfigCollector,
};
use crate::compose::config::{
    auth_view, configs_view, is_oauth, law_refinement_replaces_claims_and_keeps_oauth, opt_str_view,
    refined_auth, scheme_method, strings_view, AuthMethodView, DiscoveryAuthMethod, DiscoveryService,
    DiscoveryServiceConfig, ServiceConfigView,
};
use crate::text::{
    ascii_lowercase, lemma_strip_end_tail, lemma_strip_start_head, split_once, split_once_spec,
    strip_chars, strip_pred, to_ascii_lowercase, trim_dots, trim_spec, trim_white_space_and_dots,
    Strip, is_white_space,
};

verus! {

/// Errors of the compose orchestrator.
#[derive(Debug)]
pub enum DiscoveryComposeClientStdError {
    /// The input is not a valid `local@domain` email address.
    InvalidEmail(String),
}

/// Lowercased, with the surrounding white space and dots trimmed.
pub open spec fn normalized_domain(domain: Seq<char>) -> Seq<char> {
    ascii_lowercase(trim_white_space_and_dots(domain))
}

/// The part of `email` after its first `@`, or all of it when it has none.
pub open spec fn after_at(email: Seq<char>) -> Seq<char> {
    match split_once_spec(email, '@') {
        Some((_, domain)) => domain,
        None => email,
    }
}

/// The part of `email` before its first `@`, or nothing when it has none.
pub open spec fn before_at(email: Seq<char>) -> Seq<char> {
    match split_once_spec(email, '@') {
        Some((local, _)) => local,
        None => Seq::empty(),
    }
}

/// Lowercases and trims surrounding whitespace and dots from a domain.
pub fn normalize_domain(domain: &str) -> (r: String)
    ensures
        r@ == normalized_domain(domain@),
{
    to_ascii_lowercase(strip_chars(domain, Strip::WhiteSpaceAndDots))
}

/// The domain part of an email address, or the whole input when it
/// carries no `@`, lowercased and trimmed of surrounding white space and
/// dots.
pub fn domain_part(email: &str) -> (r: String)
    ensures
        r@ == normalized_domain(after_at(email@)),
{
    match split_once(email, '@') {
        Some((_, domain)) => normalize_domain(domain),
        None => normalize_domain(email),
    }
}

/// The local part of an email address, empty when it carries no `@`.
pub fn local_part(email: &str) -> (r: String)
    ensures
        r@ == before_at(email@),
{
    match split_once(email, '@') {
        Some((local, _)) => local.to_string(),
        None => String::new(),
    }
}

/// The local part and the domain that composition reads from `email`:
/// the address is trimmed, split at its first `@`, and the domain
/// stripped of surrounding dots and lowercased.
pub open spec fn parsed_email(email: Seq<char>) -> Option<(Seq<char>, Seq<char>)> {
    match split_once_spec(trim_spec(email), '@') {
        Some((local, domain)) => Some((local, ascii_lowercase(trim_dots(domain)))),
        None => None,
    }
}

/// Reads `email` as `local@domain`; an address without `@` is refused
/// with the trimmed input.
pub fn parse_email(email: &str) -> (r: Result<(String, String), DiscoveryComposeClientStdError>)
    ensures
        match r {
            Ok((local, domain)) => parsed_email(email@) == Some((local@, domain@)),
            Err(DiscoveryComposeClientStdError::InvalidEmail(input)) => parsed_email(email@) is None
                && input@ == trim_spec(email@),
        },
{
    let trimmed = strip_chars(email, Strip::WhiteSpace);
    match split_once(trimmed, '@') {
        Some((local, domain)) => Ok(
            (local.to_string(), to_ascii_lowercase(strip_chars(domain, Strip::Dots))),
        ),
        None => Err(DiscoveryComposeClientStdError::InvalidEmail(trimmed.to_string())),
    }
}

/// A discovery mechanism of the fan-out, in priority order.
#[derive(Clone, Copy, Debug, PartialEq, Eq, Structural, Hash)]
pub enum Mechanism {
    Mx,
    Pacc,
    IspMain,
    IspFallback,
    Mailconf,
    Ispdb,
    Srv,
    Caldav,
    Carddav,
    Jmap,
}

/// The priority rank of a mechanism: its place in the fixed order.
pub open spec fn mechanism_rank(m: Mechanism) -> int {
    match m {
        Mechanism::Mx => 0,
        Mechanism::Pacc => 1,
        Mechanism::IspMain => 2,
        Mechanism::IspFallback => 3,
        Mechanism::Mailconf => 4,
        Mechanism::Ispdb => 5,
        Mechanism::Srv => 6,
        Mechanism::Caldav => 7,
        Mechanism::Carddav => 8,
        Mechanism::Jmap => 9,
    }
}

/// Whether a mail service (IMAP, POP3 or SMTP) is requested.
pub open spec fn wants_mail(services: Seq<DiscoveryService>) -> bool {
    wants(services, DiscoveryService::Imap) || wants(services, DiscoveryService::Pop3) || wants(
        services,
        DiscoveryService::Smtp,
    )
}

/// Whether mechanism `m` is relevant to `services`: MX detection only
/// when no fixed-provider domain rule matched, PACC always, the autoconfig
/// locations for mail, SRV for IMAP or SMTP, and the DAV and JMAP
/// resolves for their own service.
pub open spec fn mechanism_runs(
    services: Seq<DiscoveryService>,
    provider_matched: bool,
    m: Mechanism,
) -> bool {
    match m {
        Mechanism::Mx => !provider_matched,
        Mechanism::Pacc => true,
        Mechanism::IspMain | Mechanism::IspFallback | Mechanism::Mailconf | Mechanism::Ispdb => wants_mail(services),
        Mechanism::Srv => wants(services, DiscoveryService::Imap) || wants(services, DiscoveryService::Smtp),
        Mechanism::Caldav => wants(services, DiscoveryService::Caldav),
        Mechanism::Carddav => wants(services, DiscoveryService::Carddav),
        Mechanism::Jmap => wants(services, DiscoveryService::Jmap),
    }
}

pub open spec fn when(b: bool, s: Seq<Mechanism>) -> Seq<Mechanism> {
    if b {
        s
    } else {
        Seq::empty()
    }
}

/// The mechanisms to run, in priority order.
pub open spec fn planned(services: Seq<DiscoveryService>, provider_matched: bool) -> Seq<Mechanism> {
    when(!provider_matched, seq![Mechanism::Mx]) + seq![Mechanism::Pacc] + when(
        wants_mail(services),
        seq![Mechanism::IspMain, Mechanism::IspFallback, Mechanism::Mailconf, Mechanism::Ispdb],
    ) + when(
        wants(services, DiscoveryService::Imap) || wants(services, DiscoveryService::Smtp),
        seq![Mechanism::Srv],
    ) + when(wants(services, DiscoveryService::Caldav), seq![Mechanism::Caldav]) + when(
        wants(services, DiscoveryService::Carddav),
        seq![Mechanism::Carddav],
    ) + when(wants(services, DiscoveryService::Jmap), seq![Mechanism::Jmap])
}

fn push_all(v: &mut Vec<Mechanism>, s: &[Mechanism])
    ensures
        final(v)@ == old(v)@ + s@,
{
    let mut i: usize = 0;
    while i < s.len()
        invariant
            0 <= i <= s.len(),
            v@ == old(v)@ + s@.subrange(0, i as int),
        decreases s.len() - i,
    {
        v.push(s[i]);
        assert(s@.subrange(0, i + 1) =~= s@.subrange(0, i as int).push(s@[i as int]));
        i = i + 1;
        assert(v@ =~= old(v)@ + s@.subrange(0, i as int));
    }
    assert(s@.subrange(0, s.len() as int) =~= s@);
}

/// The mechanisms to run for `services`, in priority order. The MX-based
/// provider detection is skipped when the fixed-provider domain rule
/// already matched.
pub fn plan_mechanisms(services: &Vec<DiscoveryService>, provider_matched: bool) -> (r: Vec<Mechanism>)
    ensures
        r@ == planned(services@, provider_matched),
{
    let ghost s = services@;
    let mut mechanisms: Vec<Mechanism> = Vec::new();
    let mail = wants_service(services, DiscoveryService::Imap) || wants_service(services, DiscoveryService::Pop3)
        || wants_service(services, DiscoveryService::Smtp);
    push_all(&mut mechanisms, if !provider_matched { &[Mechanism::Mx] } else { &[] });
    push_all(&mut mechanisms, &[Mechanism::Pacc]);
    push_all(
        &mut mechanisms,
        if mail {
            &[Mechanism::IspMain, Mechanism::IspFallback, Mechanism::Mailconf, Mechanism::Ispdb]
        } else {
            &[]
        },
    );
    let srv = wants_service(services, DiscoveryService::Imap) || wants_service(services, DiscoveryService::Smtp);
    push_all(&mut mechanisms, if srv { &[Mechanism::Srv] } else { &[] });
    push_all(
        &mut mechanisms,
        if wants_service(services, DiscoveryService::Caldav) { &[Mechanism::Caldav] } else { &[] },
    );
    push_all(
        &mut mechanisms,
        if wants_service(services, DiscoveryService::Carddav) { &[Mechanism::Carddav] } else { &[] },
    );
    push_all(
        &mut mechanisms,
        if wants_service(services, DiscoveryService::Jmap) { &[Mechanism::Jmap] } else { &[] },
    );
    assert(mechanisms@ =~= planned(s, provider_matched));
    mechanisms
}

/// The plan runs exactly the relevant mechanisms, each once, in strictly
/// increasing priority.
pub proof fn law_plan_is_ordered_and_exact(services: Seq<DiscoveryService>, provider_matched: bool)
    ensures
        forall|m: Mechanism| #[trigger] planned(services, provider_matched).contains(m) <==> mechanism_runs(services, provider_matched, m),
        forall|i: int, j: int|
            0 <= i < j < planned(services, provider_matched).len() ==> mechanism_rank(
                #[trigger] planned(services, provider_matched)[i],
            ) < mechanism_rank(#[trigger] planned(services, provider_matched)[j]),
{
    lemma_plan_exact(services, provider_matched);
    lemma_plan_ordered(services, provider_matched);
}

#[verifier::spinoff_prover]
proof fn lemma_plan_ordered(services: Seq<DiscoveryService>, provider_matched: bool)
    ensures
        forall|i: int, j: int|
            0 <= i < j < planned(services, provider_matched).len() ==> mechanism_rank(
                #[trigger] planned(services, provider_matched)[i],
            ) < mechanism_rank(#[trigger] planned(services, provider_matched)[j]),
{
}

#[verifier::spinoff_prover]
proof fn lemma_plan_exact(services: Seq<DiscoveryService>, provider_matched: bool)
    ensures
        forall|m: Mechanism| #[trigger] planned(services, provider_matched).contains(m) <==> mechanism_runs(services, provider_matched, m),
{
    let p = planned(services, provider_matched);
    let mail = wants_mail(services);
    let srv = wants(services, DiscoveryService::Imap) || wants(services, DiscoveryService::Smtp);
    let a0 = when(!provider_matched, seq![Mechanism::Mx]);
    let a1 = seq![Mechanism::Pacc];
    let a2 = when(mail, seq![Mechanism::IspMain, Mechanism::IspFallback, Mechanism::Mailconf, Mechanism::Ispdb]);
    let a3 = when(srv, seq![Mechanism::Srv]);
    let a4 = when(wants(services, DiscoveryService::Caldav), seq![Mechanism::Caldav]);
    let a5 = when(wants(services, DiscoveryService::Carddav), seq![Mechanism::Carddav]);
    let a6 = when(wants(services, DiscoveryService::Jmap), seq![Mechanism::Jmap]);
    assert forall|m: Mechanism| #[trigger] p.contains(m) <==> mechanism_runs(services, provider_matched, m) by {
        lemma_concat_contains(a0, a1, m);
        lemma_concat_contains(a0 + a1, a2, m);
        lemma_concat_contains(a0 + a1 + a2, a3, m);
        lemma_concat_contains(a0 + a1 + a2 + a3, a4, m);
        lemma_concat_contains(a0 + a1 + a2 + a3 + a4, a5, m);
        lemma_concat_contains(a0 + a1 + a2 + a3 + a4 + a5, a6, m);
        if mail {
            assert(a2[0] == Mechanism::IspMain && a2[1] == Mechanism::IspFallback);
            assert(a2[2] == Mechanism::Mailconf && a2[3] == Mechanism::Ispdb);
        }
        if !provider_matched {
            assert(a0[0] == Mechanism::Mx);
        }
        assert(a1[0] == Mechanism::Pacc);
        if srv {
            assert(a3[0] == Mechanism::Srv);
        }
        if wants(services, DiscoveryService::Caldav) {
            assert(a4[0] == Mechanism::Caldav);
        }
        if wants(services, DiscoveryService::Carddav) {
            assert(a5[0] == Mechanism::Carddav);
        }
        if wants(services, DiscoveryService::Jmap) {
            assert(a6[0] == Mechanism::Jmap);
        }
    }
}

/// Each mechanism is planned exactly when what it discovers is
/// requested (every service when none is): MX detection when no
/// fixed-provider rule matched, PACC always, the four autoconfig
/// locations for IMAP, POP3 or SMTP, SRV for IMAP or SMTP, and the CalDAV,
/// CardDAV and JMAP resolves for their own service alone.
pub proof fn law_plan_follows_the_requested_services(services: Seq<DiscoveryService>, provider_matched: bool)
    ensures
        ({
            let p = planned(services, provider_matched);
            let mail = services.len() == 0 || services.contains(DiscoveryService::Imap) || services.contains(
                DiscoveryService::Pop3,
            ) || services.contains(DiscoveryService::Smtp);
            &&& p.contains(Mechanism::Mx) <==> !provider_matched
            &&& p.contains(Mechanism::Pacc)
            &&& p.contains(Mechanism::IspMain) <==> mail
            &&& p.contains(Mechanism::IspFallback) <==> mail
            &&& p.contains(Mechanism::Mailconf) <==> mail
            &&& p.contains(Mechanism::Ispdb) <==> mail
            &&& p.contains(Mechanism::Srv) <==> (services.len() == 0 || services.contains(DiscoveryService::Imap)
                || services.contains(DiscoveryService::Smtp))
            &&& p.contains(Mechanism::Caldav) <==> (services.len() == 0 || services.contains(DiscoveryService::Caldav))
            &&& p.contains(Mechanism::Carddav) <==> (services.len() == 0 || services.contains(
                DiscoveryService::Carddav,
            ))
            &&& p.contains(Mechanism::Jmap) <==> (services.len() == 0 || services.contains(DiscoveryService::Jmap))
        }),
        forall|m: Mechanism|
            #[trigger] mechanism_runs(services, provider_matched, m) <==> planned(services, provider_matched).contains(m),
{
    law_plan_is_ordered_and_exact(services, provider_matched);
    let p = planned(services, provider_matched);
    assert(p.contains(Mechanism::Mx) <==> mechanism_runs(services, provider_matched, Mechanism::Mx));
    assert(p.contains(Mechanism::Pacc) <==> mechanism_runs(services, provider_matched, Mechanism::Pacc));
    assert(p.contains(Mechanism::IspMain) <==> mechanism_runs(services, provider_matched, Mechanism::IspMain));
    assert(p.contains(Mechanism::IspFallback) <==> mechanism_runs(services, provider_matched, Mechanism::IspFallback));
    assert(p.contains(Mechanism::Mailconf) <==> mechanism_runs(services, provider_matched, Mechanism::Mailconf));
    assert(p.contains(Mechanism::Ispdb) <==> mechanism_runs(services, provider_matched, Mechanism::Ispdb));
    assert(p.contains(Mechanism::Srv) <==> mechanism_runs(services, provider_matched, Mechanism::Srv));
    assert(p.contains(Mechanism::Caldav) <==> mechanism_runs(services, provider_matched, Mechanism::Caldav));
    assert(p.contains(Mechanism::Carddav) <==> mechanism_runs(services, provider_matched, Mechanism::Carddav));
    assert(p.contains(Mechanism::Jmap) <==> mechanism_runs(services, provider_matched, Mechanism::Jmap));
}

proof fn lemma_concat_contains<A>(a: Seq<A>, b: Seq<A>, x: A)
    ensures
        (a + b).contains(x) <==> a.contains(x) || b.contains(x),
{
    if a.contains(x) {
        let k = choose|k: int| 0 <= k < a.len() && a[k] == x;
        assert((a + b)[k] == x);
    }
    if b.contains(x) {
        let k = choose|k: int| 0 <= k < b.len() && b[k] == x;
        assert((a + b)[a.len() + k] == x);
    }
    if (a + b).contains(x) {
        let k = choose|k: int| 0 <= k < (a + b).len() && (a + b)[k] == x;
        if k < a.len() {
            assert(a[k] == x);
        } else {
            assert(b[k - a.len()] == x);
        }
    }
}

/// The views of per-mechanism outputs.
pub open spec fn outputs_view(s: Seq<Vec<DiscoveryServiceConfig>>) -> Seq<Seq<ServiceConfigView>> {
    s.map_values(|v: Vec<DiscoveryServiceConfig>| configs_view(v@))
}

/// The configs of `batch` for a requested service, in order.
pub open spec fn wanted_only(batch: Seq<ServiceConfigView>, services: Seq<DiscoveryService>) -> Seq<ServiceConfigView>
    decreases batch.len(),
{
    if batch.len() == 0 {
        batch
    } else {
        let front = wanted_only(batch.drop_last(), services);
        if wants(services, batch.last().service) {
            front.push(batch.last())
        } else {
            front
        }
    }
}

/// The outputs one after the other, each kept to the requested services.
pub open spec fn flatten_wanted(
    outputs: Seq<Seq<ServiceConfigView>>,
    services: Seq<DiscoveryService>,
) -> Seq<ServiceConfigView>
    decreases outputs.len(),
{
    if outputs.len() == 0 {
        Seq::empty()
    } else {
        flatten_wanted(outputs.drop_last(), services) + wanted_only(outputs.last(), services)
    }
}

/// The raw composed configs: every mechanism output in priority order,
/// kept to the requested services, unmerged (each config keeps its
/// source and cross-mechanism duplicates stay).
pub fn raw_configs(outputs: Vec<Vec<DiscoveryServiceConfig>>, services: &Vec<DiscoveryService>) -> (r: Vec<
    DiscoveryServiceConfig,
>)
    ensures
        configs_view(r@) == flatten_wanted(outputs_view(outputs@), services@),
{
    let ghost outs = outputs_view(outputs@);
    let mut result: Vec<DiscoveryServiceConfig> = Vec::new();
    let mut i: usize = 0;
    while i < outputs.len()
        invariant
            0 <= i <= outputs.len(),
            outs == outputs_view(outputs@),
            configs_view(result@) == flatten_wanted(outs.subrange(0, i as int), services@),
        decreases outputs.len() - i,
    {
        let batch = &outputs[i];
        let ghost before = configs_view(result@);
        let ghost bv = configs_view(batch@);
        proof {
            assert(outs.subrange(0, i + 1).drop_last() =~= outs.subrange(0, i as int));
            assert(outs.subrange(0, i + 1).last() == bv);
        }
        let mut j: usize = 0;
        while j < batch.len()
            invariant
                0 <= j <= batch.len(),
                bv == configs_view(batch@),
                configs_view(result@) == before + wanted_only(bv.subrange(0, j as int), services@),
            decreases batch.len() - j,
        {
            let ghost mid = result@;
            proof {
                assert(bv.subrange(0, j + 1).drop_last() =~= bv.subrange(0, j as int));
                assert(bv.subrange(0, j + 1).last() == batch@[j as int]@);
            }
            if wants_service(services, batch[j].service) {
                result.push(batch[j].duplicate());
                assert(configs_view(result@) =~= configs_view(mid).push(batch@[j as int]@));
            }
            j = j + 1;
        }
        assert(bv.subrange(0, batch.len() as int) =~= bv);
        i = i + 1;
    }
    assert(outs.subrange(0, outputs.len() as int) =~= outs);
    result
}

/// Reduction of the outputs from `acc`: each output in turn is collected,
/// and in first mode the reduction stops at the first output after which
/// anything has been collected.
pub open spec fn reduce_from(
    acc: Seq<ServiceConfigView>,
    outputs: Seq<Seq<ServiceConfigView>>,
    services: Seq<DiscoveryService>,
    first: bool,
) -> Seq<ServiceConfigView>
    decreases outputs.len(),
{
    if outputs.len() == 0 {
        acc
    } else {
        let next = collect_seq(acc, services, outputs[0]);
        if first && next.len() > 0 {
            next
        } else {
            reduce_from(next, outputs.drop_first(), services, first)
        }
    }
}

/// The composed configs of the mechanism outputs, in priority order.
pub open spec fn reduced(
    outputs: Seq<Seq<ServiceConfigView>>,
    services: Seq<DiscoveryService>,
    first: bool,
) -> Seq<ServiceConfigView> {
    reduce_from(Seq::empty(), outputs, services, first)
}

/// Reduces the mechanism outputs, in priority order, into one config
/// list; in first mode only up to the first mechanism that yields a
/// config for a requested service.
pub fn reduce_outputs(
    outputs: Vec<Vec<DiscoveryServiceConfig>>,
    services: Vec<DiscoveryService>,
    first: bool,
) -> (r: Vec<DiscoveryServiceConfig>)
    ensures
        configs_view(r@) == reduced(outputs_view(outputs@), services@, first),
{
    let ghost outs = outputs_view(outputs@);
    let ghost svc = services@;
    let mut outputs = outputs;
    let mut collector = DiscoveryConfigCollector::new(services);
    let mut stop = false;
    while outputs.len() > 0 && !stop
        invariant
            collector@.services == svc,
            !stop ==> reduce_from(collector@.configs, outputs_view(outputs@), svc, first) == reduced(outs, svc, first),
            stop ==> collector@.configs == reduced(outs, svc, first),
        decreases outputs.len() + (if stop { 0int } else { 1int }),
    {
        let ghost rest = outputs_view(outputs@);
        let batch = outputs.remove(0);
        proof {
            assert(rest[0] == configs_view(batch@));
            assert(outputs_view(outputs@) =~= rest.drop_first());
        }
        collector.collect(batch);
        if first && !collector.is_empty() {
            stop = true;
        }
    }
    collector.finish()
}

/// The outputs one after the other.
pub open spec fn concat_all(outputs: Seq<Seq<ServiceConfigView>>) -> Seq<ServiceConfigView>
    decreases outputs.len(),
{
    if outputs.len() == 0 {
        Seq::empty()
    } else {
        outputs[0] + concat_all(outputs.drop_first())
    }
}

proof fn lemma_collect_concat(
    cs: Seq<ServiceConfigView>,
    services: Seq<DiscoveryService>,
    a: Seq<ServiceConfigView>,
    b: Seq<ServiceConfigView>,
)
    ensures
        collect_seq(cs, services, a + b) == collect_seq(collect_seq(cs, services, a), services, b),
    decreases b.len(),
{
    if b.len() == 0 {
        assert(a + b =~= a);
    } else {
        assert((a + b).drop_last() =~= a + b.drop_last());
        assert((a + b).last() == b.last());
        lemma_collect_concat(cs, services, a, b.drop_last());
    }
}

proof fn lemma_collect_wanted_only(
    cs: Seq<ServiceConfigView>,
    services: Seq<DiscoveryService>,
    b: Seq<ServiceConfigView>,
)
    ensures
        collect_seq(cs, services, wanted_only(b, services)) == collect_seq(cs, services, b),
    decreases b.len(),
{
    if b.len() > 0 {
        lemma_collect_wanted_only(cs, services, b.drop_last());
        let w = wanted_only(b.drop_last(), services);
        if wants(services, b.last().service) {
            assert(w.push(b.last()).drop_last() =~= w);
            assert(w.push(b.last()).last() == b.last());
        }
    }
}

proof fn lemma_wanted_only_concat(a: Seq<ServiceConfigView>, b: Seq<ServiceConfigView>, services: Seq<DiscoveryService>)
    ensures
        wanted_only(a + b, services) == wanted_only(a, services) + wanted_only(b, services),
    decreases b.len(),
{
    if b.len() == 0 {
        assert(a + b =~= a);
        assert(wanted_only(a, services) + wanted_only(b, services) =~= wanted_only(a, services));
    } else {
        assert((a + b).drop_last() =~= a + b.drop_last());
        assert((a + b).last() == b.last());
        lemma_wanted_only_concat(a, b.drop_last(), services);
        let wa = wanted_only(a, services);
        let wb = wanted_only(b.drop_last(), services);
        assert((wa + wb).push(b.last()) =~= wa + wb.push(b.last()));
    }
}

proof fn lemma_concat_all_last(outputs: Seq<Seq<ServiceConfigView>>)
    requires
        outputs.len() > 0,
    ensures
        concat_all(outputs) == concat_all(outputs.drop_last()) + outputs.last(),
    decreases outputs.len(),
{
    if outputs.len() == 1 {
        assert(outputs.drop_last().len() == 0);
        assert(concat_all(outputs.drop_first()) == Seq::<ServiceConfigView>::empty());
        assert(concat_all(outputs) =~= outputs[0]);
        assert(concat_all(outputs.drop_last()) + outputs.last() =~= outputs.last());
    } else {
        let t = outputs.drop_first();
        lemma_concat_all_last(t);
        assert(t.drop_last() =~= outputs.drop_last().drop_first());
        assert(outputs.drop_last()[0] == outputs[0]);
        assert(t.last() == outputs.last());
        assert(outputs[0] + (concat_all(t.drop_last()) + t.last()) =~= (outputs[0] + concat_all(
            t.drop_last(),
        )) + t.last());
    }
}

proof fn lemma_flatten_is_wanted_concat(outputs: Seq<Seq<ServiceConfigView>>, services: Seq<DiscoveryService>)
    ensures
        flatten_wanted(outputs, services) == wanted_only(concat_all(outputs), services),
    decreases outputs.len(),
{
    if outputs.len() > 0 {
        lemma_flatten_is_wanted_concat(outputs.drop_last(), services);
        lemma_concat_all_last(outputs);
        lemma_wanted_only_concat(concat_all(outputs.drop_last()), outputs.last(), services);
    } else {
        assert(wanted_only(concat_all(outputs), services) =~= Seq::<ServiceConfigView>::empty());
    }
}

proof fn lemma_reduce_all(
    acc: Seq<ServiceConfigView>,
    outputs: Seq<Seq<ServiceConfigView>>,
    services: Seq<DiscoveryService>,
)
    ensures
        reduce_from(acc, outputs, services, false) == collect_seq(acc, services, concat_all(outputs)),
    decreases outputs.len(),
{
    if outputs.len() > 0 {
        let next = collect_seq(acc, services, outputs[0]);
        lemma_reduce_all(next, outputs.drop_first(), services);
        lemma_collect_concat(acc, services, outputs[0], concat_all(outputs.drop_first()));
    }
}

/// Composing all reduces the raw composition: the merged configs are the
/// raw configs (every output in priority order, kept to the requested
/// services) collected one by one.
pub proof fn law_compose_all_merges_raw(outputs: Seq<Seq<ServiceConfigView>>, services: Seq<DiscoveryService>)
    ensures
        reduced(outputs, services, false) == collect_seq(
            Seq::empty(),
            services,
            flatten_wanted(outputs, services),
        ),
{
    lemma_reduce_all(Seq::empty(), outputs, services);
    lemma_flatten_is_wanted_concat(outputs, services);
    lemma_collect_wanted_only(Seq::empty(), services, concat_all(outputs));
}

proof fn lemma_collect_nothing_wanted(
    cs: Seq<ServiceConfigView>,
    services: Seq<DiscoveryService>,
    b: Seq<ServiceConfigView>,
)
    ensures
        wanted_only(b, services).len() == 0 ==> collect_seq(cs, services, b) == cs,
        wanted_only(b, services).len() > 0 ==> collect_seq(cs, services, b).len() > 0,
    decreases b.len(),
{
    if b.len() > 0 {
        lemma_collect_nothing_wanted(cs, services, b.drop_last());
        crate::compose::collect::law_collect_preserves_collected(cs, services, b.drop_last());
        let prev = collect_seq(cs, services, b.drop_last());
        crate::compose::collect::lemma_first_target_from(prev, b.last(), 0);
    }
}

/// Composing first keeps only the highest-priority mechanism that
/// produced a config for a requested service: the result is that
/// mechanism's output, collected.
pub proof fn law_compose_first_keeps_first_productive(
    outputs: Seq<Seq<ServiceConfigView>>,
    services: Seq<DiscoveryService>,
    k: int,
)
    requires
        0 <= k < outputs.len(),
        wanted_only(outputs[k], services).len() > 0,
        forall|j: int| 0 <= j < k ==> #[trigger] wanted_only(outputs[j], services).len() == 0,
    ensures
        reduced(outputs, services, true) == collect_seq(Seq::empty(), services, outputs[k]),
    decreases k,
{
    lemma_collect_nothing_wanted(Seq::empty(), services, outputs[0]);
    if k > 0 {
        let t = outputs.drop_first();
        assert forall|j: int| 0 <= j < k - 1 implies #[trigger] wanted_only(t[j], services).len() == 0 by {
            assert(t[j] == outputs[j + 1]);
        }
        assert(wanted_only(outputs[0], services).len() == 0);
        assert(t[k - 1] == outputs[k]);
        law_compose_first_keeps_first_productive(t, services, k - 1);
    }
}

proof fn lemma_reduce_first_nothing(
    outputs: Seq<Seq<ServiceConfigView>>,
    services: Seq<DiscoveryService>,
)
    requires
        forall|j: int| 0 <= j < outputs.len() ==> #[trigger] wanted_only(outputs[j], services).len() == 0,
    ensures
        reduce_from(Seq::empty(), outputs, services, true) == Seq::<ServiceConfigView>::empty(),
    decreases outputs.len(),
{
    if outputs.len() > 0 {
        lemma_collect_nothing_wanted(Seq::empty(), services, outputs[0]);
        let t = outputs.drop_first();
        assert forall|j: int| 0 <= j < t.len() implies #[trigger] wanted_only(t[j], services).len() == 0 by {
            assert(t[j] == outputs[j + 1]);
        }
        lemma_reduce_first_nothing(t, services);
    }
}

/// Composing first gives nothing when no mechanism produced a config for
/// a requested service.
pub proof fn law_compose_first_empty_when_nothing_found(
    outputs: Seq<Seq<ServiceConfigView>>,
    services: Seq<DiscoveryService>,
)
    requires
        forall|j: int| 0 <= j < outputs.len() ==> #[trigger] wanted_only(outputs[j], services).len() == 0,
    ensures
        reduced(outputs, services, true).len() == 0,
{
    lemma_reduce_first_nothing(outputs, services);
}

/// Whether `issuer` is named by an OAuth issuer method of a config.
pub open spec fn names_issuer(configs: Seq<ServiceConfigView>, issuer: Seq<char>) -> bool {
    exists|i: int, k: int|
        0 <= i < configs.len() && 0 <= k < configs[i].auth.len() && #[trigger] configs[i].auth[k]
            == AuthMethodView::Issuer(issuer)
}

fn string_seq_contains(v: &Vec<String>, s: &String) -> (r: bool)
    ensures
        r == strings_view(v@).contains(s@),
{
    let mut i: usize = 0;
    while i < v.len()
        invariant
            0 <= i <= v.len(),
            forall|k: int| 0 <= k < i ==> v@[k]@ != s@,
        decreases v.len() - i,
    {
        if v[i] == *s {
            assert(strings_view(v@)[i as int] == s@);
            return true;
        }
        i = i + 1;
    }
    proof {
        if strings_view(v@).contains(s@) {
            let k = choose|k: int| 0 <= k < strings_view(v@).len() && strings_view(v@)[k] == s@;
            assert(v@[k]@ == s@);
        }
    }
    false
}

/// The distinct OAuth issuers the configs name, each once.
pub fn distinct_issuers(configs: &Vec<DiscoveryServiceConfig>) -> (r: Vec<String>)
    ensures
        strings_view(r@).no_duplicates(),
        forall|x: Seq<char>| strings_view(r@).contains(x) <==> names_issuer(configs_view(configs@), x),
{
    let ghost cs = configs_view(configs@);
    let mut out: Vec<String> = Vec::new();
    let mut i: usize = 0;
    while i < configs.len()
        invariant
            0 <= i <= configs.len(),
            cs == configs_view(configs@),
            strings_view(out@).no_duplicates(),
            forall|x: Seq<char>| strings_view(out@).contains(x) <==> names_issuer(cs.subrange(0, i as int), x),
        decreases configs.len() - i,
    {
        let auth = &configs[i].auth;
        let ghost ci = cs[i as int];
        assert(ci.auth == auth_view(auth@));
        let mut k: usize = 0;
        while k < auth.len()
            invariant
                0 <= k <= auth.len(),
                0 <= i < configs.len(),
                cs == configs_view(configs@),
                ci == cs[i as int],
                ci.auth == auth_view(auth@),
                strings_view(out@).no_duplicates(),
                forall|x: Seq<char>| strings_view(out@).contains(x) <==> (names_issuer(cs.subrange(0, i as int), x)
                    || exists|q: int| 0 <= q < k && #[trigger] ci.auth[q] == AuthMethodView::Issuer(x)),
            decreases auth.len() - k,
        {
            let ghost before = strings_view(out@);
            proof {
                assert forall|x: Seq<char>| (exists|q: int| 0 <= q < k + 1 && #[trigger] ci.auth[q] == AuthMethodView::Issuer(x))
                    <==> ((exists|q: int| 0 <= q < k && #[trigger] ci.auth[q] == AuthMethodView::Issuer(x))
                    || ci.auth[k as int] == AuthMethodView::Issuer(x)) by {
                    if exists|q: int| 0 <= q < k + 1 && #[trigger] ci.auth[q] == AuthMethodView::Issuer(x) {
                        let q = choose|q: int| 0 <= q < k + 1 && #[trigger] ci.auth[q] == AuthMethodView::Issuer(x);
                        if q < k {
                            assert(0 <= q < k && ci.auth[q] == AuthMethodView::Issuer(x));
                        }
                    }
                    if ci.auth[k as int] == AuthMethodView::Issuer(x) {
                        assert(0 <= k < k + 1 && ci.auth[k as int] == AuthMethodView::Issuer(x));
                    }
                }
            }
            match &auth[k] {
                DiscoveryAuthMethod::OauthIssuer(issuer) => {
                    assert(ci.auth[k as int] == AuthMethodView::Issuer(issuer@));
                    if !string_seq_contains(&out, issuer) {
                        out.push(issuer.clone());
                        proof {
                            assert(strings_view(out@) =~= before.push(issuer@));
                            assert forall|x: Seq<char>| strings_view(out@).contains(x) <==> (before.contains(x) || x == issuer@) by {
                                if before.contains(x) {
                                    let q = choose|q: int| 0 <= q < before.len() && before[q] == x;
                                    assert(strings_view(out@)[q] == x);
                                }
                                if x == issuer@ {
                                    assert(strings_view(out@)[before.len() as int] == x);
                                }
                                if strings_view(out@).contains(x) {
                                    let q = choose|q: int| 0 <= q < strings_view(out@).len() && strings_view(out@)[q] == x;
                                    if q < before.len() {
                                        assert(before[q] == x);
                                    }
                                }
                            }
                        }
                    }
                },
                _ => {},
            }
            proof {
                assert(ci.auth[k as int] == auth@[k as int]@);
                assert forall|x: Seq<char>| strings_view(out@).contains(x) <==> (before.contains(x)
                    || ci.auth[k as int] == AuthMethodView::Issuer(x)) by {
                    if ci.auth[k as int] == AuthMethodView::Issuer(x) {
                        assert(auth@[k as int] is OauthIssuer);
                    }
                }
                assert forall|x: Seq<char>| strings_view(out@).contains(x) <==> (names_issuer(cs.subrange(0, i as int), x)
                    || exists|q: int| 0 <= q < k + 1 && #[trigger] ci.auth[q] == AuthMethodView::Issuer(x)) by {
                    assert(before.contains(x) <==> (names_issuer(cs.subrange(0, i as int), x)
                        || exists|q: int| 0 <= q < k && #[trigger] ci.auth[q] == AuthMethodView::Issuer(x)));
                }
            }
            k = k + 1;
        }
        proof {
            let next = cs.subrange(0, i + 1);
            assert forall|x: Seq<char>| names_issuer(next, x) <==> (names_issuer(cs.subrange(0, i as int), x)
                || exists|q: int| 0 <= q < auth.len() && #[trigger] ci.auth[q] == AuthMethodView::Issuer(x)) by {
                if names_issuer(next, x) {
                    let (a, b) = choose|a: int, b: int| 0 <= a < next.len() && 0 <= b < next[a].auth.len()
                        && #[trigger] next[a].auth[b] == AuthMethodView::Issuer(x);
                    if a < i {
                        assert(cs.subrange(0, i as int)[a].auth[b] == AuthMethodView::Issuer(x));
                    } else {
                        assert(ci.auth[b] == AuthMethodView::Issuer(x));
                    }
                }
                if names_issuer(cs.subrange(0, i as int), x) {
                    let (a, b) = choose|a: int, b: int| 0 <= a < cs.subrange(0, i as int).len() && 0 <= b
                        < cs.subrange(0, i as int)[a].auth.len() && #[trigger] cs.subrange(0, i as int)[a].auth[b]
                        == AuthMethodView::Issuer(x);
                    assert(next[a].auth[b] == AuthMethodView::Issuer(x));
                }
                if exists|q: int| 0 <= q < auth.len() && #[trigger] ci.auth[q] == AuthMethodView::Issuer(x) {
                    let q = choose|q: int| 0 <= q < auth.len() && #[trigger] ci.auth[q] == AuthMethodView::Issuer(x);
                    assert(next[i as int].auth[q] == AuthMethodView::Issuer(x));
                }
            }
        }
        i = i + 1;
    }
    assert(cs.subrange(0, configs.len() as int) =~= cs);
    out
}

/// The views of resolved issuers: each issuer with the methods it
/// resolved to.
pub open spec fn resolved_view(r: Seq<(String, Vec<DiscoveryAuthMethod>)>) -> Seq<(Seq<char>, Seq<AuthMethodView>)> {
    r.map_values(|p: (String, Vec<DiscoveryAuthMethod>)| (p.0@, auth_view(p.1@)))
}

/// The methods the first entry of `resolved` for `issuer` resolved to.
pub open spec fn lookup_from(
    resolved: Seq<(Seq<char>, Seq<AuthMethodView>)>,
    issuer: Seq<char>,
    from: int,
) -> Option<Seq<AuthMethodView>>
    decreases resolved.len() - from,
{
    if from < 0 || from >= resolved.len() {
        None
    } else if resolved[from].0 == issuer {
        Some(resolved[from].1)
    } else {
        lookup_from(resolved, issuer, from + 1)
    }
}

pub open spec fn lookup(resolved: Seq<(Seq<char>, Seq<AuthMethodView>)>, issuer: Seq<char>) -> Option<Seq<AuthMethodView>> {
    lookup_from(resolved, issuer, 0)
}

/// `auth` with each OAuth issuer that resolved replaced, in place, by the
/// methods it resolved to; unresolved issuers and other methods stay.
pub open spec fn replace_issuers(
    auth: Seq<AuthMethodView>,
    resolved: Seq<(Seq<char>, Seq<AuthMethodView>)>,
) -> Seq<AuthMethodView>
    decreases auth.len(),
{
    if auth.len() == 0 {
        auth
    } else {
        let front = replace_issuers(auth.drop_last(), resolved);
        match auth.last() {
            AuthMethodView::Issuer(issuer) => match lookup(resolved, issuer) {
                Some(methods) => front + methods,
                None => front.push(auth.last()),
            },
            _ => front.push(auth.last()),
        }
    }
}

/// The configs with their resolved issuers replaced.
pub open spec fn with_issuers_resolved(
    configs: Seq<ServiceConfigView>,
    resolved: Seq<(Seq<char>, Seq<AuthMethodView>)>,
) -> Seq<ServiceConfigView> {
    configs.map_values(
        |c: ServiceConfigView| ServiceConfigView { auth: replace_issuers(c.auth, resolved), ..c },
    )
}

fn find_resolved(resolved: &Vec<(String, Vec<DiscoveryAuthMethod>)>, issuer: &String) -> (r: Option<usize>)
    ensures
        match r {
            Some(i) => i < resolved@.len() && lookup(resolved_view(resolved@), issuer@) == Some(
                auth_view(resolved@[i as int].1@),
            ),
            None => lookup(resolved_view(resolved@), issuer@) is None,
        },
{
    let ghost rv = resolved_view(resolved@);
    let mut i: usize = 0;
    while i < resolved.len()
        invariant
            0 <= i <= resolved.len(),
            rv == resolved_view(resolved@),
            lookup_from(rv, issuer@, 0) == lookup_from(rv, issuer@, i as int),
        decreases resolved.len() - i,
    {
        assert(rv[i as int] == (resolved@[i as int].0@, auth_view(resolved@[i as int].1@)));
        if resolved[i].0 == *issuer {
            return Some(i);
        }
        i = i + 1;
    }
    None
}

fn append_auth(into: &mut Vec<DiscoveryAuthMethod>, from: &Vec<DiscoveryAuthMethod>)
    ensures
        auth_view(final(into)@) == auth_view(old(into)@) + auth_view(from@),
{
    let ghost start = auth_view(into@);
    let mut i: usize = 0;
    while i < from.len()
        invariant
            0 <= i <= from.len(),
            auth_view(into@) == start + auth_view(from@.subrange(0, i as int)),
        decreases from.len() - i,
    {
        let ghost before = into@;
        into.push(from[i].duplicate());
        proof {
            assert(auth_view(into@) =~= auth_view(before).push(from@[i as int]@));
            assert(auth_view(from@.subrange(0, i + 1)) =~= auth_view(from@.subrange(0, i as int)).push(from@[i as int]@));
        }
        i = i + 1;
    }
    assert(from@.subrange(0, from.len() as int) =~= from@);
}

fn replace_issuers_in(auth: &Vec<DiscoveryAuthMethod>, resolved: &Vec<(String, Vec<DiscoveryAuthMethod>)>) -> (r: Vec<
    DiscoveryAuthMethod,
>)
    ensures
        auth_view(r@) == replace_issuers(auth_view(auth@), resolved_view(resolved@)),
{
    let ghost av = auth_view(auth@);
    let ghost rv = resolved_view(resolved@);
    let mut out: Vec<DiscoveryAuthMethod> = Vec::new();
    let mut i: usize = 0;
    while i < auth.len()
        invariant
            0 <= i <= auth.len(),
            av == auth_view(auth@),
            rv == resolved_view(resolved@),
            auth_view(out@) == replace_issuers(av.subrange(0, i as int), rv),
        decreases auth.len() - i,
    {
        let ghost before = out@;
        proof {
            assert(av.subrange(0, i + 1).drop_last() =~= av.subrange(0, i as int));
            assert(av.subrange(0, i + 1).last() == auth@[i as int]@);
        }
        match &auth[i] {
            DiscoveryAuthMethod::OauthIssuer(issuer) => match find_resolved(resolved, issuer) {
                Some(k) => {
                    append_auth(&mut out, &resolved[k].1);
                },
                None => {
                    out.push(auth[i].duplicate());
                    assert(auth_view(out@) =~= auth_view(before).push(auth@[i as int]@));
                },
            },
            _ => {
                out.push(auth[i].duplicate());
                assert(auth_view(out@) =~= auth_view(before).push(auth@[i as int]@));
            },
        }
        i = i + 1;
    }
    assert(av.subrange(0, auth.len() as int) =~= av);
    out
}

/// Replaces, in every config, each OAuth issuer that resolved by the
/// grants it resolved to; issuers without a resolution stay as they were.
pub fn apply_resolved_issuers(
    configs: &mut Vec<DiscoveryServiceConfig>,
    resolved: &Vec<(String, Vec<DiscoveryAuthMethod>)>,
)
    ensures
        configs_view(final(configs)@) == with_issuers_resolved(configs_view(old(configs)@), resolved_view(resolved@)),
{
    let ghost start = configs_view(configs@);
    let ghost rv = resolved_view(resolved@);
    let mut out: Vec<DiscoveryServiceConfig> = Vec::new();
    let mut i: usize = 0;
    while i < configs.len()
        invariant
            0 <= i <= configs.len(),
            start == configs_view(configs@),
            rv == resolved_view(resolved@),
            configs_view(out@) == with_issuers_resolved(start.subrange(0, i as int), rv),
        decreases configs.len() - i,
    {
        let mut c = configs[i].duplicate();
        c.auth = replace_issuers_in(&configs[i].auth, resolved);
        let ghost before = out@;
        out.push(c);
        proof {
            assert(configs_view(out@) =~= configs_view(before).push(c@));
            assert(with_issuers_resolved(start.subrange(0, i + 1), rv) =~= with_issuers_resolved(
                start.subrange(0, i as int),
                rv,
            ).push(c@));
        }
        i = i + 1;
    }
    assert(start.subrange(0, configs.len() as int) =~= start);
    *configs = out;
}

/// Whether the method `a` of a config stands for `m` once issuers are
/// resolved: a resolved issuer for each method it resolved to, any other
/// method for itself.
pub open spec fn resolves_to(
    a: AuthMethodView,
    resolved: Seq<(Seq<char>, Seq<AuthMethodView>)>,
    m: AuthMethodView,
) -> bool {
    match a {
        AuthMethodView::Issuer(issuer) => match lookup(resolved, issuer) {
            Some(methods) => methods.contains(m),
            None => a == m,
        },
        _ => a == m,
    }
}

proof fn lemma_replace_issuers_members(auth: Seq<AuthMethodView>, resolved: Seq<(Seq<char>, Seq<AuthMethodView>)>)
    ensures
        forall|m: AuthMethodView|
            #[trigger] replace_issuers(auth, resolved).contains(m) <==> exists|k: int|
                0 <= k < auth.len() && resolves_to(#[trigger] auth[k], resolved, m),
    decreases auth.len(),
{
    if auth.len() > 0 {
        let front = auth.drop_last();
        let last = auth.last();
        lemma_replace_issuers_members(front, resolved);
        let fr = replace_issuers(front, resolved);
        let tail = match last {
            AuthMethodView::Issuer(issuer) => match lookup(resolved, issuer) {
                Some(methods) => methods,
                None => seq![last],
            },
            _ => seq![last],
        };
        assert(replace_issuers(auth, resolved) =~= fr + tail);
        assert forall|m: AuthMethodView|
            #[trigger] replace_issuers(auth, resolved).contains(m) <==> exists|k: int|
                0 <= k < auth.len() && resolves_to(#[trigger] auth[k], resolved, m) by {
            lemma_concat_contains(fr, tail, m);
            assert(seq![last][0] == last);
            assert(tail.contains(m) <==> resolves_to(last, resolved, m));
            assert(auth[auth.len() - 1] == last);
            if exists|k: int| 0 <= k < auth.len() && resolves_to(#[trigger] auth[k], resolved, m) {
                let k = choose|k: int| 0 <= k < auth.len() && resolves_to(#[trigger] auth[k], resolved, m);
                if k < auth.len() - 1 {
                    assert(front[k] == auth[k]);
                }
            }
            if fr.contains(m) {
                let k = choose|k: int| 0 <= k < front.len() && resolves_to(#[trigger] front[k], resolved, m);
                assert(front[k] == auth[k]);
            }
        }
    }
}

/// Resolving issuers rewrites every config, at every index: each method
/// the config comes out with is one of its methods that is not a resolved
/// issuer, or a method one of its resolved issuers resolved to, and each
/// of these is there; its service, endpoint, username and source stay.
pub proof fn law_resolved_issuers_replace_in_every_config(
    configs: Seq<ServiceConfigView>,
    resolved: Seq<(Seq<char>, Seq<AuthMethodView>)>,
)
    ensures
        with_issuers_resolved(configs, resolved).len() == configs.len(),
        forall|i: int|
            0 <= i < configs.len() ==> {
                let r = #[trigger] with_issuers_resolved(configs, resolved)[i];
                &&& r.service == configs[i].service
                &&& r.endpoint == configs[i].endpoint
                &&& r.username == configs[i].username
                &&& r.source == configs[i].source
                &&& r.auth == replace_issuers(configs[i].auth, resolved)
                &&& forall|m: AuthMethodView|
                    r.auth.contains(m) <==> exists|k: int|
                        0 <= k < configs[i].auth.len() && resolves_to(#[trigger] configs[i].auth[k], resolved, m)
            },
{
    assert forall|i: int| 0 <= i < configs.len() implies {
        let r = #[trigger] with_issuers_resolved(configs, resolved)[i];
        &&& r.service == configs[i].service
        &&& r.endpoint == configs[i].endpoint
        &&& r.username == configs[i].username
        &&& r.source == configs[i].source
        &&& r.auth == replace_issuers(configs[i].auth, resolved)
        &&& forall|m: AuthMethodView|
            r.auth.contains(m) <==> exists|k: int|
                0 <= k < configs[i].auth.len() && resolves_to(#[trigger] configs[i].auth[k], resolved, m)
    } by {
        lemma_replace_issuers_members(configs[i].auth, resolved);
    }
}

/// Issuers without a resolution are left as they were: a method list
/// none of whose issuers resolved comes out unchanged.
pub proof fn law_unresolved_issuers_stay(
    auth: Seq<AuthMethodView>,
    resolved: Seq<(Seq<char>, Seq<AuthMethodView>)>,
)
    requires
        forall|k: int|
            0 <= k < auth.len() ==> match #[trigger] auth[k] {
                AuthMethodView::Issuer(issuer) => lookup(resolved, issuer) is None,
                _ => true,
            },
    ensures
        replace_issuers(auth, resolved) == auth,
    decreases auth.len(),
{
    if auth.len() > 0 {
        let front = auth.drop_last();
        assert forall|k: int| 0 <= k < front.len() implies match #[trigger] front[k] {
            AuthMethodView::Issuer(issuer) => lookup(resolved, issuer) is None,
            _ => true,
        } by {
            assert(front[k] == auth[k]);
        }
        law_unresolved_issuers_stay(front, resolved);
        assert(auth.last() == auth[auth.len() - 1]);
        assert(front.push(auth.last()) =~= auth);
    }
}

/// The endpoints of an issuer's authorization server metadata that
/// resolution reads.
pub struct OauthServerEndpoints {
    pub authorization_endpoint: Option<String>,
    pub token_endpoint: Option<String>,
    pub device_authorization_endpoint: Option<String>,
}

/// The grants the metadata of an issuer advertises: the authorization
/// code grant when it names an authorization and a token endpoint, then
/// the device grant when it names a device authorization and a token
/// endpoint.
pub open spec fn advertised_grants(
    authorization: Option<Seq<char>>,
    token: Option<Seq<char>>,
    device: Option<Seq<char>>,
) -> Seq<AuthMethodView> {
    let code = match (authorization, token) {
        (Some(a), Some(t)) => seq![
            AuthMethodView::AuthorizationCode { authorization_endpoint: a, token_endpoint: t, scope: None },
        ],
        _ => Seq::empty(),
    };
    let device_grant = match (device, token) {
        (Some(d), Some(t)) => seq![
            AuthMethodView::DeviceAuthorization {
                device_authorization_endpoint: d,
                token_endpoint: t,
                scope: None,
            },
        ],
        _ => Seq::empty(),
    };
    code + device_grant
}

/// What an issuer resolves to: the grants its metadata advertises, or
/// the bare issuer when its metadata could not be had or advertises none.
pub open spec fn issuer_resolution(
    issuer: Seq<char>,
    metadata: Option<(Option<Seq<char>>, Option<Seq<char>>, Option<Seq<char>>)>,
) -> Seq<AuthMethodView> {
    match metadata {
        Some((a, t, d)) => {
            let grants = advertised_grants(a, t, d);
            if grants.len() == 0 {
                seq![AuthMethodView::Issuer(issuer)]
            } else {
                grants
            }
        },
        None => seq![AuthMethodView::Issuer(issuer)],
    }
}

pub open spec fn endpoints_view(m: Option<&OauthServerEndpoints>) -> Option<
    (Option<Seq<char>>, Option<Seq<char>>, Option<Seq<char>>),
> {
    match m {
        Some(e) => Some(
            (
                opt_str_view(e.authorization_endpoint),
                opt_str_view(e.token_endpoint),
                opt_str_view(e.device_authorization_endpoint),
            ),
        ),
        None => None,
    }
}

/// The URL an issuer's authorization server metadata is fetched from:
/// the issuer parsed as an absolute URL (its serialization), `None` when
/// it does not parse, in which case the issuer stays bare.
pub fn issuer_url(issuer: &str) -> (r: Option<String>)
    ensures
        match r {
            Some(u) => url_serialization(issuer@) == Some(u@),
            None => url_serialization(issuer@) is None,
        },
{
    match parse_url(issuer) {
        Some(parsed) => Some(parsed.serialization),
        None => None,
    }
}

/// Resolves one issuer to the grants its authorization server metadata
/// advertises (`None` when the metadata could not be fetched), falling
/// back to the bare issuer.
pub fn issuer_grants(issuer: &str, metadata: Option<&OauthServerEndpoints>) -> (r: Vec<DiscoveryAuthMethod>)
    ensures
        auth_view(r@) == issuer_resolution(issuer@, endpoints_view(metadata)),
        r@.len() > 0,
{
    let mut methods: Vec<DiscoveryAuthMethod> = Vec::new();
    match metadata {
        Some(md) => {
            match (&md.authorization_endpoint, &md.token_endpoint) {
                (Some(a), Some(t)) => {
                    methods.push(
                        DiscoveryAuthMethod::OauthAuthorizationCodeGrant {
                            authorization_endpoint: a.clone(),
                            token_endpoint: t.clone(),
                            scope: None,
                        },
                    );
                },
                _ => {},
            }
            match (&md.device_authorization_endpoint, &md.token_endpoint) {
                (Some(d), Some(t)) => {
                    methods.push(
                        DiscoveryAuthMethod::OauthDeviceAuthorizationGrant {
                            device_authorization_endpoint: d.clone(),
                            token_endpoint: t.clone(),
                            scope: None,
                        },
                    );
                },
                _ => {},
            }
        },
        None => {},
    }
    if methods.len() == 0 {
        let bare = vec![DiscoveryAuthMethod::OauthIssuer(issuer.to_string())];
        assert(auth_view(bare@) =~= issuer_resolution(issuer@, endpoints_view(metadata)));
        bare
    } else {
        assert(auth_view(methods@) =~= issuer_resolution(issuer@, endpoints_view(metadata)));
        methods
    }
}

/// The configs refined against the probe results: config `i` against
/// the schemes of `probes[i]` when its probe advertised any.
pub open spec fn with_probes_applied(
    configs: Seq<ServiceConfigView>,
    probes: Seq<Option<Seq<Seq<char>>>>,
) -> Seq<ServiceConfigView> {
    Seq::new(
        configs.len(),
        |i: int|
            if i < probes.len() && probes[i] is Some && probes[i]->0.len() > 0 {
                ServiceConfigView { auth: refined_auth(configs[i].auth, probes[i]->0), ..configs[i] }
            } else {
                configs[i]
            },
    )
}

/// Applying probe results refines each config whose probe advertised
/// schemes, at every index: its password and bearer methods become
/// exactly the advertised ones and its OAuth methods stay; every other
/// config comes out as it was, and no config changes its service,
/// endpoint, username or source.
pub proof fn law_probe_results_refine_each_advertised_config(
    configs: Seq<ServiceConfigView>,
    probes: Seq<Option<Seq<Seq<char>>>>,
)
    ensures
        with_probes_applied(configs, probes).len() == configs.len(),
        forall|i: int|
            0 <= i < configs.len() ==> {
                let r = #[trigger] with_probes_applied(configs, probes)[i];
                let c = configs[i];
                let advertised = i < probes.len() && probes[i] is Some && probes[i]->0.len() > 0;
                let s = probes[i]->0;
                &&& r.service == c.service
                &&& r.endpoint == c.endpoint
                &&& r.username == c.username
                &&& r.source == c.source
                &&& advertised ==> r.auth == refined_auth(c.auth, s)
                &&& advertised ==> (forall|m: AuthMethodView| c.auth.contains(m) && is_oauth(m) ==> r.auth.contains(m))
                &&& advertised ==> (r.auth.contains(AuthMethodView::Password) <==> exists|k: int|
                    0 <= k < s.len() && scheme_method(#[trigger] s[k]) == Some(AuthMethodView::Password))
                &&& advertised ==> (r.auth.contains(AuthMethodView::Bearer) <==> exists|k: int|
                    0 <= k < s.len() && scheme_method(#[trigger] s[k]) == Some(AuthMethodView::Bearer))
                &&& !advertised ==> r == c
            },
{
    assert forall|i: int| 0 <= i < configs.len() implies {
        let r = #[trigger] with_probes_applied(configs, probes)[i];
        let c = configs[i];
        let advertised = i < probes.len() && probes[i] is Some && probes[i]->0.len() > 0;
        let s = probes[i]->0;
        &&& r.service == c.service
        &&& r.endpoint == c.endpoint
        &&& r.username == c.username
        &&& r.source == c.source
        &&& advertised ==> r.auth == refined_auth(c.auth, s)
        &&& advertised ==> (forall|m: AuthMethodView| c.auth.contains(m) && is_oauth(m) ==> r.auth.contains(m))
        &&& advertised ==> (r.auth.contains(AuthMethodView::Password) <==> exists|k: int|
            0 <= k < s.len() && scheme_method(#[trigger] s[k]) == Some(AuthMethodView::Password))
        &&& advertised ==> (r.auth.contains(AuthMethodView::Bearer) <==> exists|k: int|
            0 <= k < s.len() && scheme_method(#[trigger] s[k]) == Some(AuthMethodView::Bearer))
        &&& !advertised ==> r == c
    } by {
        if i < probes.len() && probes[i] is Some && probes[i]->0.len() > 0 {
            law_refinement_replaces_claims_and_keeps_oauth(configs[i].auth, probes[i]->0);
        }
    }
}

pub open spec fn probes_view(p: Seq<Option<Vec<String>>>) -> Seq<Option<Seq<Seq<char>>>> {
    p.map_values(
        |o: Option<Vec<String>>| match o {
            Some(v) => Some(strings_view(v@)),
            None => None,
        },
    )
}

/// Refines each config against the schemes its endpoint probe
/// advertised, in place; a config whose probe found nothing keeps its
/// methods.
pub fn apply_probe_results(configs: &mut Vec<DiscoveryServiceConfig>, probes: &Vec<Option<Vec<String>>>)
    ensures
        configs_view(final(configs)@) == with_probes_applied(configs_view(old(configs)@), probes_view(probes@)),
{
    let ghost start = configs_view(configs@);
    let ghost pv = probes_view(probes@);
    let mut out: Vec<DiscoveryServiceConfig> = Vec::new();
    let mut i: usize = 0;
    while i < configs.len()
        invariant
            0 <= i <= configs.len(),
            start == configs_view(configs@),
            pv == probes_view(probes@),
            out@.len() == i,
            forall|k: int| 0 <= k < i ==> #[trigger] out@[k]@ == with_probes_applied(start, pv)[k],
        decreases configs.len() - i,
    {
        let mut c = configs[i].duplicate();
        if i < probes.len() {
            match &probes[i] {
                Some(schemes) => {
                    if schemes.len() > 0 {
                        c.refine_auth(schemes);
                    }
                },
                None => {},
            }
        }
        out.push(c);
        i = i + 1;
    }
    assert(configs_view(out@) =~= with_probes_applied(start, pv));
    *configs = out;
}

/// The DAV services the RFC 6764 resolve discovers.
#[derive(Clone, Copy, Debug, PartialEq, Eq, Structural, Hash)]
pub enum DiscoveryDavService {
    Caldav,
    Carddav,
}

/// The composed service a DAV resolve stands for.
pub fn dav_config_service(service: DiscoveryDavService) -> (r: DiscoveryService)
    ensures
        r == (match service {
            DiscoveryDavService::Caldav => DiscoveryService::Caldav,
            DiscoveryDavService::Carddav => DiscoveryService::Carddav,
        }),
{
    match service {
        DiscoveryDavService::Caldav => DiscoveryService::Caldav,
        DiscoveryDavService::Carddav => DiscoveryService::Carddav,
    }
}

/// A normalized domain is trimmed and lowercase: it neither starts nor
/// ends with white space or a dot, and holds no ASCII uppercase letter.
pub proof fn law_normalized_domain_is_trimmed_and_lowercase(domain: Seq<char>)
    ensures
        normalized_domain(domain).len() > 0 ==> {
            let r = normalized_domain(domain);
            &&& r[0] != '.' && !is_white_space(r[0])
            &&& r.last() != '.' && !is_white_space(r.last())
        },
        forall|i: int|
            0 <= i < normalized_domain(domain).len() ==> !('A' <= #[trigger] normalized_domain(domain)[i]
                && normalized_domain(domain)[i] <= 'Z'),
{
    let p = strip_pred(Strip::WhiteSpaceAndDots);
    let a = crate::text::strip_start(domain, p);
    lemma_strip_start_head(domain, p);
    lemma_strip_end_tail(a, p);
    let d = trim_white_space_and_dots(domain);
    assert(d.len() > 0 ==> d[0] == a[0]);
    let r = normalized_domain(domain);
    assert(r.len() == d.len());
    if d.len() > 0 {
        assert(r[0] == crate::text::ascii_lower_char(d[0]));
        assert(r.last() == crate::text::ascii_lower_char(d.last()));
    }
}


/// The schemes of the first probe outcome that advertised any, in probe
/// order; a failed (`None`) or empty outcome advertises nothing.
pub open spec fn first_advertised(outcomes: Seq<Option<Seq<Seq<char>>>>) -> Option<Seq<Seq<char>>>
    decreases outcomes.len(),
{
    if outcomes.len() == 0 {
        None
    } else if outcomes[0] is Some && outcomes[0]->0.len() > 0 {
        outcomes[0]
    } else {
        first_advertised(outcomes.drop_first())
    }
}

/// The next step of a config's endpoint probe.
pub enum ProbeStep {
    /// Probe the URL at this index of the config's probe URLs.
    Probe(usize),
    /// The probe is over: the advertised schemes, if any URL advertised
    /// some.
    Settled(Option<Vec<String>>),
}

pub enum ProbeStepView {
    Probe(int),
    Settled(Option<Seq<Seq<char>>>),
}

impl View for ProbeStep {
    type V = ProbeStepView;

    open spec fn view(&self) -> ProbeStepView {
        match self {
            ProbeStep::Probe(i) => ProbeStepView::Probe(*i as int),
            ProbeStep::Settled(s) => ProbeStepView::Settled(
                match s {
                    Some(v) => Some(strings_view(v@)),
                    None => None,
                },
            ),
        }
    }
}

/// A config's probe walks its URLs in order and stops at the first probe
/// that advertises schemes: after `outcomes` (the outcomes of its first
/// URLs, in order), it is settled on the first advertised schemes, else it
/// probes the next URL, else it is settled on nothing.
pub open spec fn probe_step(url_count: int, outcomes: Seq<Option<Seq<Seq<char>>>>) -> ProbeStepView {
    match first_advertised(outcomes) {
        Some(schemes) => ProbeStepView::Settled(Some(schemes)),
        None => if outcomes.len() < url_count {
            ProbeStepView::Probe(outcomes.len() as int)
        } else {
            ProbeStepView::Settled(None)
        },
    }
}

proof fn lemma_first_advertised_push(outcomes: Seq<Option<Seq<Seq<char>>>>, o: Option<Seq<Seq<char>>>)
    ensures
        first_advertised(outcomes.push(o)) == (match first_advertised(outcomes) {
            Some(s) => Some(s),
            None => if o is Some && o->0.len() > 0 {
                o
            } else {
                None
            },
        }),
    decreases outcomes.len(),
{
    if outcomes.len() > 0 {
        assert(outcomes.push(o)[0] == outcomes[0]);
        assert(outcomes.push(o).drop_first() =~= outcomes.drop_first().push(o));
        lemma_first_advertised_push(outcomes.drop_first(), o);
    } else {
        assert(outcomes.push(o)[0] == o);
        assert(outcomes.push(o).drop_first() =~= Seq::<Option<Seq<Seq<char>>>>::empty());
        assert(first_advertised(Seq::<Option<Seq<Seq<char>>>>::empty()) is None);
    }
}

/// The next step of the probe of a config with `url_count` probe URLs,
/// after the outcomes of its first URLs.
pub fn next_probe_step(url_count: usize, outcomes: &Vec<Option<Vec<String>>>) -> (r: ProbeStep)
    ensures
        r@ == probe_step(url_count as int, probes_view(outcomes@)),
{
    let ghost ov = probes_view(outcomes@);
    let mut i: usize = 0;
    while i < outcomes.len()
        invariant
            0 <= i <= outcomes.len(),
            ov == probes_view(outcomes@),
            first_advertised(ov.subrange(0, i as int)) is None,
        decreases outcomes.len() - i,
    {
        proof {
            lemma_first_advertised_push(ov.subrange(0, i as int), ov[i as int]);
            assert(ov.subrange(0, i + 1) =~= ov.subrange(0, i as int).push(ov[i as int]));
        }
        match &outcomes[i] {
            Some(schemes) => {
                if schemes.len() > 0 {
                    let mut copy: Vec<String> = Vec::new();
                    let mut k: usize = 0;
                    while k < schemes.len()
                        invariant
                            0 <= k <= schemes.len(),
                            strings_view(copy@) == strings_view(schemes@).subrange(0, k as int),
                        decreases schemes.len() - k,
                    {
                        let ghost before = copy@;
                        copy.push(schemes[k].clone());
                        assert(strings_view(copy@) =~= strings_view(before).push(schemes@[k as int]@));
                        assert(strings_view(schemes@).subrange(0, k + 1) =~= strings_view(schemes@).subrange(
                            0,
                            k as int,
                        ).push(schemes@[k as int]@));
                        k = k + 1;
                    }
                    assert(strings_view(schemes@).subrange(0, schemes.len() as int) =~= strings_view(schemes@));
                    proof {
                        lemma_first_advertised_prefix(ov, i as int + 1);
                    }
                    return ProbeStep::Settled(Some(copy));
                }
            },
            None => {},
        }
        i = i + 1;
    }
    assert(ov.subrange(0, outcomes.len() as int) =~= ov);
    if outcomes.len() < url_count {
        ProbeStep::Probe(outcomes.len())
    } else {
        ProbeStep::Settled(None)
    }
}

proof fn lemma_first_advertised_prefix(outcomes: Seq<Option<Seq<Seq<char>>>>, n: int)
    requires
        0 <= n <= outcomes.len(),
        first_advertised(outcomes.subrange(0, n)) is Some,
    ensures
        first_advertised(outcomes) == first_advertised(outcomes.subrange(0, n)),
    decreases n,
{
    if outcomes[0] is Some && outcomes[0]->0.len() > 0 {
        assert(outcomes.subrange(0, n)[0] == outcomes[0]);
    } else {
        assert(outcomes.subrange(0, n)[0] == outcomes[0]);
        assert(outcomes.subrange(0, n).drop_first() =~= outcomes.drop_first().subrange(0, n - 1));
        lemma_first_advertised_prefix(outcomes.drop_first(), n - 1);
    }
}

/// A config's probe tries its URLs in order, one at a time, and stops at
/// the first that advertises schemes: driven with the outcomes `all` of
/// its URLs, it probes URL `k` right after the first `k` outcomes as long
/// as none of them advertised any, and it settles on the first advertised
/// schemes, or on nothing once every URL failed.
pub proof fn law_probe_walk_stops_at_first_advertised(
    url_count: int,
    all: Seq<Option<Seq<Seq<char>>>>,
    k: int,
)
    requires
        all.len() == url_count,
        0 <= k <= url_count,
    ensures
        first_advertised(all.subrange(0, k)) is None && k < url_count ==> probe_step(url_count, all.subrange(0, k))
            == ProbeStepView::Probe(k),
        first_advertised(all.subrange(0, k)) is Some ==> probe_step(url_count, all.subrange(0, k))
            == ProbeStepView::Settled(first_advertised(all)),
        k == url_count ==> probe_step(url_count, all.subrange(0, k)) == ProbeStepView::Settled(first_advertised(all)),
{
    if first_advertised(all.subrange(0, k)) is Some {
        lemma_first_advertised_prefix(all, k);
    }
    if k == url_count {
        assert(all.subrange(0, k) =~= all);
    }
}

} // verus!
