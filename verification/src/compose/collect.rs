//! The reduction of mechanism outputs into one config list: configs for
//! an unwanted service are dropped, and a config that reaches an already
//! collected service (same service and username, same endpoint or a
//! subdomain of it either way) merges its authentication methods into
//! the collected one instead of duplicating it.

use vstd::prelude::*;

use crate::compose::config::{
    auth_view, configs_view, endpoint_equivalent, endpoint_subdomain_of, AuthMethodView,
    DiscoveryAuthMethod, DiscoveryService, DiscoveryServiceConfig, ServiceConfigView,
};

verus! {

/// Whether `service` is requested: an empty request means every service.
pub open spec fn wants(services: Seq<DiscoveryService>, service: DiscoveryService) -> bool {
    services.len() == 0 || services.contains(service)
}

/// `e` and `c` reach the same service for the same user, at the same
/// endpoint or at hosts one of which is a subdomain of the other.
pub open spec fn same_target(e: ServiceConfigView, c: ServiceConfigView) -> bool {
    &&& e.service == c.service
    &&& e.username == c.username
    &&& (endpoint_equivalent(e.endpoint, c.endpoint) || endpoint_subdomain_of(e.endpoint, c.endpoint)
        || endpoint_subdomain_of(c.endpoint, e.endpoint))
}

/// The index of the first config of `cs`, at or after `from`, that `c`
/// reaches the same target as.
pub open spec fn first_target_from(cs: Seq<ServiceConfigView>, c: ServiceConfigView, from: int) -> Option<int>
    decreases cs.len() - from,
{
    if from < 0 || from >= cs.len() {
        None
    } else if same_target(cs[from], c) {
        Some(from)
    } else {
        first_target_from(cs, c, from + 1)
    }
}

pub open spec fn first_target(cs: Seq<ServiceConfigView>, c: ServiceConfigView) -> Option<int> {
    first_target_from(cs, c, 0)
}

/// `into` followed by each method of `from` that is not already there,
/// in order.
pub open spec fn merge_auth(into: Seq<AuthMethodView>, from: Seq<AuthMethodView>) -> Seq<AuthMethodView>
    decreases from.len(),
{
    if from.len() == 0 {
        into
    } else {
        let m = merge_auth(into, from.drop_last());
        if m.contains(from.last()) {
            m
        } else {
            m.push(from.last())
        }
    }
}

/// The collected config `e` after `c` merged into it: `c`'s new methods
/// are appended, and when `e`'s host is a subdomain of `c`'s, the parent
/// endpoint and its source replace `e`'s.
pub open spec fn absorb(e: ServiceConfigView, c: ServiceConfigView) -> ServiceConfigView {
    let to_parent = endpoint_subdomain_of(e.endpoint, c.endpoint);
    ServiceConfigView {
        service: e.service,
        endpoint: if to_parent { c.endpoint } else { e.endpoint },
        username: e.username,
        auth: merge_auth(e.auth, c.auth),
        source: if to_parent { c.source } else { e.source },
    }
}

/// `cs` after collecting one config `c`.
pub open spec fn collect_one(
    cs: Seq<ServiceConfigView>,
    services: Seq<DiscoveryService>,
    c: ServiceConfigView,
) -> Seq<ServiceConfigView> {
    if !wants(services, c.service) {
        cs
    } else {
        match first_target(cs, c) {
            Some(i) => cs.update(i, absorb(cs[i], c)),
            None => cs.push(c),
        }
    }
}

/// `cs` after collecting the configs of `batch`, in order.
pub open spec fn collect_seq(
    cs: Seq<ServiceConfigView>,
    services: Seq<DiscoveryService>,
    batch: Seq<ServiceConfigView>,
) -> Seq<ServiceConfigView>
    decreases batch.len(),
{
    if batch.len() == 0 {
        cs
    } else {
        collect_one(collect_seq(cs, services, batch.drop_last()), services, batch.last())
    }
}

pub proof fn lemma_first_target_from(cs: Seq<ServiceConfigView>, c: ServiceConfigView, from: int)
    ensures
        match first_target_from(cs, c, from) {
            Some(i) => from <= i < cs.len() && 0 <= i && same_target(cs[i], c),
            None => true,
        },
    decreases cs.len() - from,
{
    if from >= 0 && from < cs.len() && !same_target(cs[from], c) {
        lemma_first_target_from(cs, c, from + 1);
    }
}

proof fn lemma_merge_auth_superset(into: Seq<AuthMethodView>, from: Seq<AuthMethodView>)
    ensures
        forall|m: AuthMethodView| into.contains(m) ==> #[trigger] merge_auth(into, from).contains(m),
        forall|m: AuthMethodView| from.contains(m) ==> #[trigger] merge_auth(into, from).contains(m),
        merge_auth(into, from).len() >= into.len(),
        forall|k: int| 0 <= k < into.len() ==> #[trigger] merge_auth(into, from)[k] == into[k],
    decreases from.len(),
{
    if from.len() > 0 {
        let prev = merge_auth(into, from.drop_last());
        lemma_merge_auth_superset(into, from.drop_last());
        assert forall|m: AuthMethodView| from.contains(m) implies #[trigger] merge_auth(into, from).contains(m) by {
            let k = choose|k: int| 0 <= k < from.len() && from[k] == m;
            if k < from.len() - 1 {
                assert(from.drop_last()[k] == m);
                assert(from.drop_last().contains(m));
                assert(prev.contains(m));
                if !prev.contains(from.last()) {
                    assert(prev.push(from.last())[prev.index_of(m)] == m);
                }
            } else {
                if !prev.contains(from.last()) {
                    assert(prev.push(from.last())[prev.len() as int] == m);
                }
            }
        }
        assert forall|m: AuthMethodView| into.contains(m) implies #[trigger] merge_auth(into, from).contains(m) by {
            assert(prev.contains(m));
            if !prev.contains(from.last()) {
                let k = choose|k: int| 0 <= k < prev.len() && prev[k] == m;
                assert(prev.push(from.last())[k] == m);
            }
        }
    }
}

/// Every collected config is for a requested service: collecting keeps
/// that true of the collected list.
pub proof fn law_collect_keeps_only_wanted(
    cs: Seq<ServiceConfigView>,
    services: Seq<DiscoveryService>,
    batch: Seq<ServiceConfigView>,
)
    requires
        forall|j: int| 0 <= j < cs.len() ==> wants(services, #[trigger] cs[j].service),
    ensures
        forall|j: int|
            0 <= j < collect_seq(cs, services, batch).len() ==> wants(
                services,
                #[trigger] collect_seq(cs, services, batch)[j].service,
            ),
    decreases batch.len(),
{
    if batch.len() > 0 {
        let prev = collect_seq(cs, services, batch.drop_last());
        law_collect_keeps_only_wanted(cs, services, batch.drop_last());
        lemma_first_target_from(prev, batch.last(), 0);
    }
}

/// Collecting never drops or rewrites an already collected config: each
/// keeps its index, service and username, and every method it had.
pub proof fn law_collect_preserves_collected(
    cs: Seq<ServiceConfigView>,
    services: Seq<DiscoveryService>,
    batch: Seq<ServiceConfigView>,
)
    ensures
        collect_seq(cs, services, batch).len() >= cs.len(),
        forall|j: int|
            0 <= j < cs.len() ==> {
                let r = #[trigger] collect_seq(cs, services, batch)[j];
                &&& r.service == cs[j].service
                &&& r.username == cs[j].username
                &&& forall|m: AuthMethodView| cs[j].auth.contains(m) ==> r.auth.contains(m)
            },
    decreases batch.len(),
{
    if batch.len() > 0 {
        let prev = collect_seq(cs, services, batch.drop_last());
        let c = batch.last();
        law_collect_preserves_collected(cs, services, batch.drop_last());
        lemma_first_target_from(prev, c, 0);
        if wants(services, c.service) {
            if let Some(i) = first_target(prev, c) {
                lemma_merge_auth_superset(prev[i].auth, c.auth);
            }
        }
        assert forall|j: int| 0 <= j < cs.len() implies {
            let r = #[trigger] collect_seq(cs, services, batch)[j];
            &&& r.service == cs[j].service
            &&& r.username == cs[j].username
            &&& forall|m: AuthMethodView| cs[j].auth.contains(m) ==> r.auth.contains(m)
        } by {
            assert(prev[j].service == cs[j].service);
        }
    }
}

/// `r` reaches `c`'s service for `c`'s user with every method of `c`.
pub open spec fn covers(r: ServiceConfigView, c: ServiceConfigView) -> bool {
    &&& r.service == c.service
    &&& r.username == c.username
    &&& forall|m: AuthMethodView| c.auth.contains(m) ==> r.auth.contains(m)
}

/// No requested config is lost: after collecting `batch`, each of its
/// configs for a requested service has a collected config with its
/// service and username that holds every one of its methods.
pub proof fn law_collect_loses_no_method(
    cs: Seq<ServiceConfigView>,
    services: Seq<DiscoveryService>,
    batch: Seq<ServiceConfigView>,
)
    ensures
        forall|i: int|
            0 <= i < batch.len() && wants(services, #[trigger] batch[i].service) ==> exists|j: int|
                0 <= j < collect_seq(cs, services, batch).len() && covers(
                    #[trigger] collect_seq(cs, services, batch)[j],
                    batch[i],
                ),
    decreases batch.len(),
{
    if batch.len() > 0 {
        let front = batch.drop_last();
        let prev = collect_seq(cs, services, front);
        let c = batch.last();
        let result = collect_seq(cs, services, batch);
        law_collect_loses_no_method(cs, services, front);
        law_collect_preserves_collected(prev, services, seq![c]);
        assert(collect_seq(prev, services, seq![c]) == result) by {
            assert(seq![c].drop_last() =~= Seq::<ServiceConfigView>::empty());
            assert(seq![c].last() == c);
            assert(collect_seq(prev, services, Seq::<ServiceConfigView>::empty()) == prev);
        }
        lemma_first_target_from(prev, c, 0);
        assert forall|i: int| 0 <= i < batch.len() && wants(services, #[trigger] batch[i].service) implies exists|j: int|
            0 <= j < result.len() && covers(#[trigger] result[j], batch[i]) by {
            if i < batch.len() - 1 {
                assert(front[i] == batch[i]);
                let j = choose|j: int| 0 <= j < prev.len() && covers(#[trigger] prev[j], front[i]);
                assert(result[j].service == prev[j].service);
                assert(covers(result[j], batch[i]));
            } else {
                match first_target(prev, c) {
                    Some(k) => {
                        lemma_merge_auth_superset(prev[k].auth, c.auth);
                        assert(result[k].auth == merge_auth(prev[k].auth, c.auth));
                        assert(covers(result[k], batch[i]));
                    },
                    None => {
                        assert(result[prev.len() as int] == c);
                        assert(covers(result[prev.len() as int], batch[i]));
                    },
                }
            }
        }
    }
}

/// The first mechanism keeps the source tag: a config that merges into
/// an already collected one whose host is not a subdomain of its own
/// leaves that config's endpoint and source as they were.
pub proof fn law_first_mechanism_keeps_source(
    cs: Seq<ServiceConfigView>,
    services: Seq<DiscoveryService>,
    c: ServiceConfigView,
    i: int,
)
    requires
        wants(services, c.service),
        first_target(cs, c) == Some(i),
        !endpoint_subdomain_of(cs[i].endpoint, c.endpoint),
    ensures
        collect_one(cs, services, c).len() == cs.len(),
        collect_one(cs, services, c)[i].source == cs[i].source,
        collect_one(cs, services, c)[i].endpoint == cs[i].endpoint,
        collect_one(cs, services, c)[i].auth == merge_auth(cs[i].auth, c.auth),
{
    lemma_first_target_from(cs, c, 0);
}

/// A method list without repeats stays without repeats when another
/// list merges into it.
pub proof fn law_merge_auth_no_repeats(into: Seq<AuthMethodView>, from: Seq<AuthMethodView>)
    requires
        into.no_duplicates(),
    ensures
        merge_auth(into, from).no_duplicates(),
    decreases from.len(),
{
    if from.len() > 0 {
        law_merge_auth_no_repeats(into, from.drop_last());
    }
}

/// Whether `service` is in `services`.
pub fn contains_service(services: &Vec<DiscoveryService>, service: DiscoveryService) -> (r: bool)
    ensures
        r == services@.contains(service),
{
    let mut i: usize = 0;
    while i < services.len()
        invariant
            0 <= i <= services.len(),
            forall|k: int| 0 <= k < i ==> services@[k] != service,
        decreases services.len() - i,
    {
        if services[i] == service {
            return true;
        }
        i = i + 1;
    }
    false
}

/// Whether `service` is requested by `services` (empty means all).
pub fn wants_service(services: &Vec<DiscoveryService>, service: DiscoveryService) -> (r: bool)
    ensures
        r == wants(services@, service),
{
    services.len() == 0 || contains_service(services, service)
}

/// Whether `auth` holds a method equal to `m`.
pub fn auth_contains(auth: &Vec<DiscoveryAuthMethod>, m: &DiscoveryAuthMethod) -> (r: bool)
    ensures
        r == auth_view(auth@).contains(m@),
{
    let mut i: usize = 0;
    while i < auth.len()
        invariant
            0 <= i <= auth.len(),
            forall|k: int| 0 <= k < i ==> auth@[k]@ != m@,
        decreases auth.len() - i,
    {
        if auth[i].same_as(m) {
            assert(auth_view(auth@)[i as int] == m@);
            return true;
        }
        i = i + 1;
    }
    proof {
        if auth_view(auth@).contains(m@) {
            let k = choose|k: int| 0 <= k < auth_view(auth@).len() && auth_view(auth@)[k] == m@;
            assert(auth@[k]@ == m@);
        }
    }
    false
}

/// Appends to `into` each method of `from` that it does not hold yet.
pub fn merge_auth_into(into: &mut Vec<DiscoveryAuthMethod>, from: &Vec<DiscoveryAuthMethod>)
    ensures
        auth_view(final(into)@) == merge_auth(auth_view(old(into)@), auth_view(from@)),
{
    let ghost start = auth_view(into@);
    let mut i: usize = 0;
    while i < from.len()
        invariant
            0 <= i <= from.len(),
            auth_view(into@) == merge_auth(start, auth_view(from@.subrange(0, i as int))),
        decreases from.len() - i,
    {
        let ghost before = into@;
        proof {
            let sub = from@.subrange(0, i + 1);
            assert(auth_view(sub).drop_last() =~= auth_view(from@.subrange(0, i as int)));
            assert(auth_view(sub).last() == from@[i as int]@);
        }
        if !auth_contains(into, &from[i]) {
            into.push(from[i].duplicate());
            assert(auth_view(into@) =~= auth_view(before).push(from@[i as int]@));
        }
        i = i + 1;
    }
    assert(from@.subrange(0, from.len() as int) =~= from@);
}

/// The index of the first config of `configs` that `c` reaches the same
/// target as.
pub fn find_target(configs: &Vec<DiscoveryServiceConfig>, c: &DiscoveryServiceConfig) -> (r: Option<usize>)
    ensures
        match r {
            Some(i) => first_target(configs_view(configs@), c@) == Some(i as int) && i < configs@.len(),
            None => first_target(configs_view(configs@), c@) is None,
        },
{
    let ghost cs = configs_view(configs@);
    let mut i: usize = 0;
    while i < configs.len()
        invariant
            0 <= i <= configs.len(),
            cs == configs_view(configs@),
            first_target_from(cs, c@, 0) == first_target_from(cs, c@, i as int),
        decreases configs.len() - i,
    {
        let e = &configs[i];
        assert(cs[i as int] == e@);
        let hit = e.service == c.service && crate::compose::config::opt_string_eq(&e.username, &c.username) && (
        e.endpoint.equivalent(&c.endpoint) || e.endpoint.subdomain_of(&c.endpoint)
            || c.endpoint.subdomain_of(&e.endpoint));
        if hit {
            return Some(i);
        }
        i = i + 1;
    }
    None
}

/// A collector of configs for the requested services, in collection
/// order.
pub struct DiscoveryConfigCollector {
    services: Vec<DiscoveryService>,
    configs: Vec<DiscoveryServiceConfig>,
}

pub struct CollectorView {
    pub services: Seq<DiscoveryService>,
    pub configs: Seq<ServiceConfigView>,
}

impl View for DiscoveryConfigCollector {
    type V = CollectorView;

    closed spec fn view(&self) -> CollectorView {
        CollectorView { services: self.services@, configs: configs_view(self.configs@) }
    }
}

impl DiscoveryConfigCollector {
    /// An empty collector for `services` (empty means every service).
    pub fn new(services: Vec<DiscoveryService>) -> (r: Self)
        ensures
            r@.services == services@,
            r@.configs == Seq::<ServiceConfigView>::empty(),
    {
        let r = DiscoveryConfigCollector { services, configs: Vec::new() };
        assert(r@.configs =~= Seq::<ServiceConfigView>::empty());
        r
    }

    /// Collects `configs` in order, merging each into an already
    /// collected config for the same target.
    pub fn collect(&mut self, configs: Vec<DiscoveryServiceConfig>)
        ensures
            final(self)@.services == old(self)@.services,
            final(self)@.configs == collect_seq(old(self)@.configs, old(self)@.services, configs_view(configs@)),
    {
        let ghost start = self@.configs;
        let ghost batch = configs_view(configs@);
        let mut i: usize = 0;
        while i < configs.len()
            invariant
                0 <= i <= configs.len(),
                batch == configs_view(configs@),
                self@.services == old(self)@.services,
                self@.configs == collect_seq(start, self@.services, batch.subrange(0, i as int)),
            decreases configs.len() - i,
        {
            let config = &configs[i];
            let ghost before = self@.configs;
            proof {
                let sub = batch.subrange(0, i + 1);
                assert(sub.drop_last() =~= batch.subrange(0, i as int));
                assert(sub.last() == config@);
            }
            if wants_service(&self.services, config.service) {
                match find_target(&self.configs, config) {
                    Some(k) => {
                        let mut e = self.configs[k].duplicate();
                        if e.endpoint.subdomain_of(&config.endpoint) {
                            e.endpoint = config.endpoint.duplicate();
                            e.source = config.source;
                        }
                        merge_auth_into(&mut e.auth, &config.auth);
                        self.configs.set(k, e);
                        assert(self@.configs =~= before.update(k as int, absorb(before[k as int], config@)));
                    },
                    None => {
                        self.configs.push(config.duplicate());
                        assert(self@.configs =~= before.push(config@));
                    },
                }
            }
            i = i + 1;
        }
        assert(batch.subrange(0, configs.len() as int) =~= batch);
    }

    /// Whether nothing was collected yet.
    pub fn is_empty(&self) -> (r: bool)
        ensures
            r == (self@.configs.len() == 0),
    {
        self.configs.len() == 0
    }

    /// The requested services.
    pub fn services(&self) -> (r: &Vec<DiscoveryService>)
        ensures
            r@ == self@.services,
    {
        &self.services
    }

    /// The configs collected so far.
    pub fn configs(&self) -> (r: &Vec<DiscoveryServiceConfig>)
        ensures
            configs_view(r@) == self@.configs,
    {
        &self.configs
    }

    /// Takes the collected configs out, leaving the collector empty.
    pub fn take(&mut self) -> (r: Vec<DiscoveryServiceConfig>)
        ensures
            configs_view(r@) == old(self)@.configs,
            final(self)@.services == old(self)@.services,
            final(self)@.configs == Seq::<ServiceConfigView>::empty(),
    {
        let mut out: Vec<DiscoveryServiceConfig> = Vec::new();
        std::mem::swap(&mut out, &mut self.configs);
        assert(configs_view(self.configs@) =~= Seq::<ServiceConfigView>::empty());
        out
    }

    /// Refines the collected config at `index` against advertised
    /// schemes.
    pub fn refine_at(&mut self, index: usize, schemes: &Vec<String>)
        requires
            index < old(self)@.configs.len(),
        ensures
            final(self)@.services == old(self)@.services,
            final(self)@.configs == old(self)@.configs.update(
                index as int,
                ServiceConfigView {
                    auth: crate::compose::config::refined_auth(
                        old(self)@.configs[index as int].auth,
                        crate::compose::config::strings_view(schemes@),
                    ),
                    ..old(self)@.configs[index as int]
                },
            ),
    {
        let ghost before = self@.configs;
        let mut c = self.configs[index].duplicate();
        c.refine_auth(schemes);
        self.configs.set(index, c);
        assert(self@.configs =~= before.update(
            index as int,
            ServiceConfigView {
                auth: crate::compose::config::refined_auth(
                    before[index as int].auth,
                    crate::compose::config::strings_view(schemes@),
                ),
                ..before[index as int]
            },
        ));
    }

    /// The collected configs, in collection order.
    pub fn finish(self) -> (r: Vec<DiscoveryServiceConfig>)
        ensures
            configs_view(r@) == self@.configs,
    {
        self.configs
    }
}

} // verus!
