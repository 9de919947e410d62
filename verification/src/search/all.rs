//! The search coroutine: it turns one email address into every service
//! config the known mechanisms produce, walking the mechanisms in
//! priority order (fixed provider rules, MX-based provider detection,
//! PACC, the autoconfig locations, SRV, the DAV resolves and the JMAP
//! resolve), skipping those irrelevant to the requested services, then
//! probing each collected HTTP endpoint for the authentication schemes
//! it advertises. Its driver runs each mechanism and probe it asks for
//! and hands the outcome back; the search holds every decision.

use vstd::prelude::*;

use crate::compose::client::{mechanism_rank, mechanism_runs, planned, Mechanism};
use crate::compose::collect::{
    collect_seq, covers, law_collect_keeps_only_wanted, law_collect_loses_no_method, wants_service,
    DiscoveryConfigCollector,
};
use crate::compose::config::{
    configs_view, probe_urls_of, refined_auth, strings_view, DiscoveryService,
    DiscoveryServiceConfig, ServiceConfigView,
};
use crate::text::{
    ascii_lowercase, split_once, split_once_spec, strip_chars, to_ascii_lowercase, trim_dots, Strip,
    trim_spec,
};

verus! {

/// Errors of the search.
#[derive(Debug)]
pub enum SearchError {
    /// The input is not a valid `local@domain` email address.
    InvalidEmail(String),
}

/// One collected config's pending endpoint probe: its index in the
/// collected list and the URLs left to try, in order.
pub struct ProbeTask {
    index: usize,
    urls: Vec<String>,
}

pub struct TaskView {
    pub index: int,
    pub urls: Seq<Seq<char>>,
}

impl View for ProbeTask {
    type V = TaskView;

    closed spec fn view(&self) -> TaskView {
        TaskView { index: self.index as int, urls: strings_view(self.urls@) }
    }
}

pub open spec fn tasks_view(s: Seq<ProbeTask>) -> Seq<TaskView> {
    s.map_values(|t: ProbeTask| t@)
}

enum SearchState {
    Start,
    Running(Mechanism),
    Probing { queue: Vec<ProbeTask>, task: ProbeTask },
    Done,
}

pub enum StateView {
    Start,
    Running(Mechanism),
    Probing { queue: Seq<TaskView>, task: TaskView },
    Done,
}

/// What the search asks of its driver.
pub enum SearchYield {
    /// Run this mechanism and hand back its configs.
    Run(Mechanism),
    /// Probe this URL for the schemes it advertises on an
    /// unauthenticated 401 and hand them back.
    Probe(String),
    /// The search is over; here are its configs.
    Complete(Vec<DiscoveryServiceConfig>),
}

pub enum YieldView {
    Run(Mechanism),
    Probe(Seq<char>),
    Complete(Seq<ServiceConfigView>),
}

impl View for SearchYield {
    type V = YieldView;

    open spec fn view(&self) -> YieldView {
        match self {
            SearchYield::Run(m) => YieldView::Run(*m),
            SearchYield::Probe(url) => YieldView::Probe(url@),
            SearchYield::Complete(configs) => YieldView::Complete(configs_view(configs@)),
        }
    }
}

/// The I/O-free search for every service config of one email address.
pub struct SearchAll {
    email: String,
    resolver: url::Url,
    domain: String,
    first: bool,
    provider_matched: bool,
    collector: DiscoveryConfigCollector,
    state: SearchState,
}

pub struct SearchView {
    pub email: Seq<char>,
    pub resolver: url::Url,
    pub domain: Seq<char>,
    pub services: Seq<DiscoveryService>,
    pub first: bool,
    pub provider_matched: bool,
    pub configs: Seq<ServiceConfigView>,
    pub state: StateView,
}

impl View for SearchAll {
    type V = SearchView;

    closed spec fn view(&self) -> SearchView {
        SearchView {
            email: self.email@,
            resolver: self.resolver,
            domain: self.domain@,
            services: self.collector@.services,
            first: self.first,
            provider_matched: self.provider_matched,
            configs: self.collector@.configs,
            state: match self.state {
                SearchState::Start => StateView::Start,
                SearchState::Running(m) => StateView::Running(m),
                SearchState::Probing { queue, task } => StateView::Probing {
                    queue: tasks_view(queue@),
                    task: task@,
                },
                SearchState::Done => StateView::Done,
            },
        }
    }
}

/// The first mechanism at or after priority rank `rank` that runs for
/// the requested services.
pub open spec fn next_mechanism_from(
    services: Seq<DiscoveryService>,
    provider_matched: bool,
    rank: int,
) -> Option<Mechanism>
    decreases 10 - rank,
{
    if rank >= 10 || rank < 0 {
        None
    } else if mechanism_runs(services, provider_matched, mechanism_of_rank(rank)) {
        Some(mechanism_of_rank(rank))
    } else {
        next_mechanism_from(services, provider_matched, rank + 1)
    }
}

pub open spec fn mechanism_of_rank(rank: int) -> Mechanism {
    if rank <= 0 {
        Mechanism::Mx
    } else if rank == 1 {
        Mechanism::Pacc
    } else if rank == 2 {
        Mechanism::IspMain
    } else if rank == 3 {
        Mechanism::IspFallback
    } else if rank == 4 {
        Mechanism::Mailconf
    } else if rank == 5 {
        Mechanism::Ispdb
    } else if rank == 6 {
        Mechanism::Srv
    } else if rank == 7 {
        Mechanism::Caldav
    } else if rank == 8 {
        Mechanism::Carddav
    } else {
        Mechanism::Jmap
    }
}

/// The probe tasks of the first `n` collected configs: one per config
/// with a URL to probe, in collection order.
pub open spec fn probe_queue_upto(configs: Seq<ServiceConfigView>, n: int) -> Seq<TaskView>
    decreases n,
{
    if n <= 0 {
        Seq::empty()
    } else {
        let front = probe_queue_upto(configs, n - 1);
        let urls = probe_urls_of(configs[n - 1]);
        if urls.len() > 0 {
            front.push(TaskView { index: n - 1, urls })
        } else {
            front
        }
    }
}

pub open spec fn probe_queue(configs: Seq<ServiceConfigView>) -> Seq<TaskView> {
    probe_queue_upto(configs, configs.len() as int)
}

/// The next probe: the last task of the queue that has a URL left, with
/// that URL taken off it, and the queue without that task and the
/// exhausted tasks behind it.
pub open spec fn probe_pick(queue: Seq<TaskView>) -> Option<(Seq<TaskView>, TaskView, Seq<char>)>
    decreases queue.len(),
{
    if queue.len() == 0 {
        None
    } else if queue.last().urls.len() == 0 {
        probe_pick(queue.drop_last())
    } else {
        let t = queue.last();
        Some((queue.drop_last(), TaskView { index: t.index, urls: t.urls.drop_first() }, t.urls[0]))
    }
}

/// The search `v` with its configs and state replaced.
pub open spec fn with_state(v: SearchView, configs: Seq<ServiceConfigView>, state: StateView) -> SearchView {
    SearchView { configs, state, ..v }
}

/// The search probing from `queue` on: the next probe, or the end of the
/// search with its configs.
pub open spec fn probe_from(v: SearchView, configs: Seq<ServiceConfigView>, queue: Seq<TaskView>) -> (
    SearchView,
    YieldView,
) {
    match probe_pick(queue) {
        Some((rest, task, url)) => (
            with_state(v, configs, StateView::Probing { queue: rest, task }),
            YieldView::Probe(url),
        ),
        None => (with_state(v, Seq::empty(), StateView::Done), YieldView::Complete(configs)),
    }
}

/// The search entering the first relevant mechanism at or after rank
/// `rank`, or its probe phase when none is left or, in first mode, as
/// soon as a config has been collected.
pub open spec fn advance_from(v: SearchView, configs: Seq<ServiceConfigView>, rank: int) -> (SearchView, YieldView) {
    if v.first && configs.len() > 0 {
        probe_from(v, configs, probe_queue(configs))
    } else {
        match next_mechanism_from(v.services, v.provider_matched, rank) {
            Some(m) => (with_state(v, configs, StateView::Running(m)), YieldView::Run(m)),
            None => probe_from(v, configs, probe_queue(configs)),
        }
    }
}

/// The search after the fixed-provider domain rule: the provider's
/// configs, when the rule matched, are collected and MX detection is
/// skipped.
pub open spec fn after_start(v: SearchView, provider: Option<Seq<ServiceConfigView>>) -> (SearchView, YieldView) {
    match provider {
        Some(configs) => advance_from(
            SearchView { provider_matched: true, ..v },
            collect_seq(v.configs, v.services, configs),
            0,
        ),
        None => advance_from(v, v.configs, 0),
    }
}

/// The search after running mechanism `m` with `outcome` (`None` when it
/// failed): its configs are collected and the search moves past `m`.
pub open spec fn after_mechanism(v: SearchView, m: Mechanism, outcome: Option<Seq<ServiceConfigView>>) -> (
    SearchView,
    YieldView,
) {
    let configs = match outcome {
        Some(found) => collect_seq(v.configs, v.services, found),
        None => v.configs,
    };
    advance_from(v, configs, mechanism_rank(m) + 1)
}

/// The search after probing for `task`: advertised schemes refine the
/// task's config and end the task; otherwise the task's next URL gets
/// its turn.
pub open spec fn after_probe(
    v: SearchView,
    queue: Seq<TaskView>,
    task: TaskView,
    schemes: Option<Seq<Seq<char>>>,
) -> (SearchView, YieldView) {
    match schemes {
        Some(s) if s.len() > 0 => {
            let configs = if 0 <= task.index < v.configs.len() {
                v.configs.update(
                    task.index,
                    ServiceConfigView { auth: refined_auth(v.configs[task.index].auth, s), ..v.configs[task.index] },
                )
            } else {
                v.configs
            };
            probe_from(v, configs, queue)
        },
        _ => probe_from(v, v.configs, queue.push(task)),
    }
}

pub open spec fn opt_configs_view(o: Option<Vec<DiscoveryServiceConfig>>) -> Option<Seq<ServiceConfigView>> {
    match o {
        Some(v) => Some(configs_view(v@)),
        None => None,
    }
}

pub open spec fn opt_strings_view(o: Option<Vec<String>>) -> Option<Seq<Seq<char>>> {
    match o {
        Some(v) => Some(strings_view(v@)),
        None => None,
    }
}

/// Where the search stands: what it waits for.
#[derive(Clone, Copy, Debug, PartialEq, Eq, Structural)]
pub enum SearchPending {
    /// The outcome of the fixed-provider domain rule.
    Start,
    /// The outcome of this mechanism.
    Mechanism(Mechanism),
    /// The outcome of the last probe asked for.
    Probe,
    /// Nothing: the search is over.
    Done,
}

pub fn mechanism_at(rank: u8) -> (r: Mechanism)
    ensures
        r == mechanism_of_rank(rank as int),
{
    if rank == 0 {
        Mechanism::Mx
    } else if rank == 1 {
        Mechanism::Pacc
    } else if rank == 2 {
        Mechanism::IspMain
    } else if rank == 3 {
        Mechanism::IspFallback
    } else if rank == 4 {
        Mechanism::Mailconf
    } else if rank == 5 {
        Mechanism::Ispdb
    } else if rank == 6 {
        Mechanism::Srv
    } else if rank == 7 {
        Mechanism::Caldav
    } else if rank == 8 {
        Mechanism::Carddav
    } else {
        Mechanism::Jmap
    }
}

pub fn rank_of(m: Mechanism) -> (r: u8)
    ensures
        r as int == mechanism_rank(m),
{
    match m {
        Mechanism::Mx => 0,
        Mechanism::Pacc => 1,
        Mechanism::IspMain => 2,
        Mechanism::IspFallback => 3,
        Mechanism::Mailconf => 4,
        Mechanism::Ispdb => 5,
        Mechanism::Srv => 6,
        Mechanism::Caldav => 7,
        Mechanism::Carddav => 8,
        Mechanism::Jmap => 9,
    }
}

/// The next probe of `queue`: the task it is for, with its URL taken off
/// it, and the queue without that task and the exhausted tasks behind it.
fn pick_probe(queue: Vec<ProbeTask>) -> (r: (Vec<ProbeTask>, Option<(ProbeTask, String)>))
    ensures
        match r.1 {
            Some((task, url)) => probe_pick(tasks_view(queue@)) == Some((tasks_view(r.0@), task@, url@)),
            None => probe_pick(tasks_view(queue@)) is None,
        },
{
    let ghost start = tasks_view(queue@);
    let mut queue = queue;
    let mut picked: Option<(ProbeTask, String)> = None;
    while queue.len() > 0 && picked.is_none()
        invariant
            picked is None ==> probe_pick(tasks_view(queue@)) == probe_pick(start),
            picked matches Some((task, url)) ==> probe_pick(start) == Some((tasks_view(queue@), task@, url@)),
        decreases queue.len() + (if picked is None { 1int } else { 0int }),
    {
        let ghost q = tasks_view(queue@);
        let mut task = queue.pop().unwrap();
        proof {
            assert(tasks_view(queue@) =~= q.drop_last());
            assert(q.last() == task@);
        }
        if task.urls.len() > 0 {
            let ghost t = task@;
            let url = task.urls.remove(0);
            proof {
                assert(t.urls.len() > 0);
                assert(strings_view(task.urls@) =~= t.urls.drop_first());
                assert(url@ == t.urls[0]);
                assert(task@ == TaskView { index: t.index, urls: t.urls.drop_first() });
            }
            picked = Some((task, url));
        }
    }
    (queue, picked)
}

/// The first mechanism at or after rank `rank` that runs for the search.
fn next_mechanism(search: &SearchAll, rank: u8) -> (r: Option<Mechanism>)
    requires
        rank <= 10,
    ensures
        r == next_mechanism_from(search@.services, search@.provider_matched, rank as int),
{
    let ghost svc = search@.services;
    let ghost pm = search@.provider_matched;
    let mut r: u8 = rank;
    while r < 10
        invariant
            rank <= r <= 10,
            svc == search@.services,
            pm == search@.provider_matched,
            next_mechanism_from(svc, pm, rank as int) == next_mechanism_from(svc, pm, r as int),
        decreases 10 - r,
    {
        let m = mechanism_at(r);
        if search.runs(m) {
            return Some(m);
        }
        r = r + 1;
    }
    None
}

impl SearchAll {
    /// The search for `email`, restricted to `services` (empty means all
    /// services), whose DNS lookups go through `resolver`; in first mode it stops at the first mechanism that
    /// yields a config. An address without `@` is refused with the
    /// trimmed input.
    pub fn build(email: &str, services: Vec<DiscoveryService>, resolver: url::Url, first: bool) -> (r: Result<SearchAll, SearchError>)
        ensures
            match r {
                Ok(search) => {
                    let v = search@;
                    &&& split_once_spec(trim_spec(email@), '@') matches Some((_, domain))
                    &&& v.email == trim_spec(email@)
                    &&& v.resolver == resolver
                    &&& v.domain == ascii_lowercase(trim_dots(domain))
                    &&& v.services == services@
                    &&& v.first == first
                    &&& !v.provider_matched
                    &&& v.configs == Seq::<ServiceConfigView>::empty()
                    &&& v.state == StateView::Start
                },
                Err(SearchError::InvalidEmail(input)) => split_once_spec(trim_spec(email@), '@') is None
                    && input@ == trim_spec(email@),
            },
    {
        let email = strip_chars(email, Strip::WhiteSpace);
        match split_once(email, '@') {
            Some((_, domain)) => Ok(
                SearchAll {
                    email: email.to_string(),
                    resolver,
                    domain: to_ascii_lowercase(strip_chars(domain, Strip::Dots)),
                    first,
                    provider_matched: false,
                    collector: DiscoveryConfigCollector::new(services),
                    state: SearchState::Start,
                },
            ),
            None => Err(SearchError::InvalidEmail(email.to_string())),
        }
    }

    /// The search for every config of `email`, restricted to `services`
    /// (empty means all services), whose DNS lookups go through
    /// `resolver` (a `tcp://host:port` DNS-over-TCP resolver URL).
    pub fn new(email: &str, services: Vec<DiscoveryService>, resolver: url::Url) -> (r: Result<SearchAll, SearchError>)
        ensures
            match r {
                Ok(search) => {
                    let v = search@;
                    &&& split_once_spec(trim_spec(email@), '@') matches Some((_, domain))
                    &&& v.email == trim_spec(email@)
                    &&& v.resolver == resolver
                    &&& v.domain == ascii_lowercase(trim_dots(domain))
                    &&& v.services == services@
                    &&& !v.first
                    &&& !v.provider_matched
                    &&& v.configs == Seq::<ServiceConfigView>::empty()
                    &&& v.state == StateView::Start
                },
                Err(SearchError::InvalidEmail(input)) => split_once_spec(trim_spec(email@), '@') is None
                    && input@ == trim_spec(email@),
            },
    {
        Self::build(email, services, resolver, false)
    }

    /// The trimmed email address searched for.
    pub fn email(&self) -> (r: &str)
        ensures
            r@ == self@.email,
    {
        self.email.as_str()
    }

    /// The DNS resolver the mechanisms query.
    pub fn resolver(&self) -> (r: &url::Url)
        ensures
            *r == self@.resolver,
    {
        &self.resolver
    }

    /// The lowercased, dot-trimmed domain of the address.
    pub fn domain(&self) -> (r: &str)
        ensures
            r@ == self@.domain,
    {
        self.domain.as_str()
    }

    /// What the search waits for.
    pub fn pending(&self) -> (r: SearchPending)
        ensures
            r == (match self@.state {
                StateView::Start => SearchPending::Start,
                StateView::Running(m) => SearchPending::Mechanism(m),
                StateView::Probing { .. } => SearchPending::Probe,
                StateView::Done => SearchPending::Done,
            }),
    {
        match &self.state {
            SearchState::Start => SearchPending::Start,
            SearchState::Running(m) => SearchPending::Mechanism(*m),
            SearchState::Probing { .. } => SearchPending::Probe,
            SearchState::Done => SearchPending::Done,
        }
    }

    /// Probes from `queue` on: asks for the next probe, or completes the
    /// search with its configs.
    fn probe_next(&mut self, queue: Vec<ProbeTask>) -> (r: SearchYield)
        ensures
            (final(self)@, r@) == probe_from(old(self)@, old(self)@.configs, tasks_view(queue@)),
    {
        let ghost start = tasks_view(queue@);
        let (queue, picked) = pick_probe(queue);
        match picked {
            Some((task, url)) => {
                self.state = SearchState::Probing { queue, task };
                SearchYield::Probe(url)
            },
            None => {
                let configs = self.collector.take();
                self.state = SearchState::Done;
                SearchYield::Complete(configs)
            },
        }
    }

    /// Enters the probe phase: one task per collected config with a URL
    /// to probe.
    fn enter_probe(&mut self) -> (r: SearchYield)
        ensures
            (final(self)@, r@) == probe_from(old(self)@, old(self)@.configs, probe_queue(old(self)@.configs)),
    {
        let ghost cv = self@.configs;
        let mut queue: Vec<ProbeTask> = Vec::new();
        let n = self.collector.configs().len();
        let mut i: usize = 0;
        while i < n
            invariant
                0 <= i <= n,
                n == cv.len(),
                cv == self@.configs,
                self@ == old(self)@,
                tasks_view(queue@) == probe_queue_upto(cv, i as int),
            decreases n - i,
        {
            let cfgs = self.collector.configs();
            let urls = cfgs[i].probe_urls();
            let ghost before = tasks_view(queue@);
            proof {
                assert(cv[i as int] == cfgs@[i as int]@);
            }
            if urls.len() > 0 {
                let task = ProbeTask { index: i, urls };
                queue.push(task);
                assert(tasks_view(queue@) =~= before.push(task@));
            }
            i = i + 1;
        }
        self.probe_next(queue)
    }

    /// Enters the first relevant mechanism at or after rank `rank`, or
    /// the probe phase when none is left or, in first mode, as soon as a
    /// config has been collected.
    fn advance(&mut self, rank: u8) -> (r: SearchYield)
        requires
            rank <= 10,
        ensures
            (final(self)@, r@) == advance_from(old(self)@, old(self)@.configs, rank as int),
    {
        if self.first && !self.collector.is_empty() {
            return self.enter_probe();
        }
        match next_mechanism(self, rank) {
            Some(m) => {
                self.state = SearchState::Running(m);
                SearchYield::Run(m)
            },
            None => self.enter_probe(),
        }
    }

    /// Starts the search with the outcome of the fixed-provider domain
    /// rule: the provider's configs when the domain matched one, `None`
    /// otherwise.
    pub fn start(&mut self, provider: Option<Vec<DiscoveryServiceConfig>>) -> (r: SearchYield)
        requires
            old(self)@.state == StateView::Start,
        ensures
            (final(self)@, r@) == after_start(old(self)@, opt_configs_view(provider)),
    {
        match provider {
            Some(configs) => {
                self.provider_matched = true;
                self.collector.collect(configs);
            },
            None => {},
        }
        self.advance(0)
    }

    /// Resumes the search with the configs the mechanism it asked for
    /// produced, `None` when the mechanism failed.
    pub fn mechanism_done(&mut self, outcome: Option<Vec<DiscoveryServiceConfig>>) -> (r: SearchYield)
        requires
            old(self)@.state is Running,
        ensures
            (final(self)@, r@) == after_mechanism(
                old(self)@,
                old(self)@.state->Running_0,
                opt_configs_view(outcome),
            ),
    {
        let m = match self.state {
            SearchState::Running(m) => m,
            _ => Mechanism::Mx,
        };
        match outcome {
            Some(configs) => {
                self.collector.collect(configs);
            },
            None => {},
        }
        self.advance(rank_of(m) + 1)
    }

    /// Resumes the search with the schemes the probed URL advertised,
    /// `None` when the probe failed.
    pub fn probe_done(&mut self, schemes: Option<Vec<String>>) -> (r: SearchYield)
        requires
            old(self)@.state is Probing,
        ensures
            (final(self)@, r@) == after_probe(
                old(self)@,
                old(self)@.state->queue,
                old(self)@.state->task,
                opt_strings_view(schemes),
            ),
    {
        let mut state = SearchState::Done;
        std::mem::swap(&mut state, &mut self.state);
        match state {
            SearchState::Probing { queue, task } => {
                let advertised = match &schemes {
                    Some(s) => s.len() > 0,
                    None => false,
                };
                if advertised {
                    let s = schemes.unwrap();
                    if task.index < self.collector.configs().len() {
                        self.collector.refine_at(task.index, &s);
                    }
                    self.probe_next(queue)
                } else {
                    let mut queue = queue;
                    let ghost q = tasks_view(queue@);
                    queue.push(task);
                    assert(tasks_view(queue@) =~= q.push(task@));
                    self.probe_next(queue)
                }
            },
            _ => {
                proof {
                    assert(false);
                }
                SearchYield::Complete(Vec::new())
            },
        }
    }

    fn wants(&self, service: DiscoveryService) -> (r: bool)
        ensures
            r == crate::compose::collect::wants(self@.services, service),
    {
        wants_service(self.collector.services(), service)
    }

    fn runs(&self, m: Mechanism) -> (r: bool)
        ensures
            r == mechanism_runs(self@.services, self@.provider_matched, m),
    {
        match m {
            Mechanism::Mx => !self.provider_matched,
            Mechanism::Pacc => true,
            Mechanism::IspMain | Mechanism::IspFallback | Mechanism::Mailconf | Mechanism::Ispdb => self.wants(
                DiscoveryService::Imap,
            ) || self.wants(DiscoveryService::Pop3) || self.wants(DiscoveryService::Smtp),
            Mechanism::Srv => self.wants(DiscoveryService::Imap) || self.wants(DiscoveryService::Smtp),
            Mechanism::Caldav => self.wants(DiscoveryService::Caldav),
            Mechanism::Carddav => self.wants(DiscoveryService::Carddav),
            Mechanism::Jmap => self.wants(DiscoveryService::Jmap),
        }
    }
}

proof fn lemma_next_mechanism(services: Seq<DiscoveryService>, provider_matched: bool, from: int)
    requires
        0 <= from,
    ensures
        match next_mechanism_from(services, provider_matched, from) {
            Some(m) => {
                &&& from <= mechanism_rank(m) < 10
                &&& mechanism_runs(services, provider_matched, m)
                &&& forall|r: int| from <= r < mechanism_rank(m) ==> !mechanism_runs(services, provider_matched, #[trigger] mechanism_of_rank(r))
            },
            None => forall|r: int| from <= r < 10 ==> !mechanism_runs(services, provider_matched, #[trigger] mechanism_of_rank(r)),
        },
    decreases 10 - from,
{
    if from < 10 && !mechanism_runs(services, provider_matched, mechanism_of_rank(from)) {
        lemma_next_mechanism(services, provider_matched, from + 1);
    }
}

/// The search runs the mechanisms in strictly increasing priority and
/// skips only those irrelevant to the requested services: after a
/// mechanism, the next one it runs comes later in the order, is relevant,
/// and every mechanism between the two is irrelevant.
pub proof fn law_search_runs_in_priority_order(
    v: SearchView,
    m: Mechanism,
    outcome: Option<Seq<ServiceConfigView>>,
)
    ensures
        after_mechanism(v, m, outcome).0.state matches StateView::Running(next) ==> {
            &&& mechanism_rank(m) < mechanism_rank(next)
            &&& mechanism_runs(v.services, v.provider_matched, next)
            &&& forall|r: int|
                mechanism_rank(m) < r < mechanism_rank(next) ==> !mechanism_runs(
                    v.services,
                    v.provider_matched,
                    #[trigger] mechanism_of_rank(r),
                )
        },
{
    lemma_next_mechanism(v.services, v.provider_matched, mechanism_rank(m) + 1);
}

/// In first mode the search runs no further mechanism once a config has
/// been collected.
pub proof fn law_first_mode_stops_at_first_config(
    v: SearchView,
    m: Mechanism,
    outcome: Option<Seq<ServiceConfigView>>,
)
    requires
        v.first,
        v.configs.len() > 0 || (outcome matches Some(found) && collect_seq(v.configs, v.services, found).len() > 0),
    ensures
        !(after_mechanism(v, m, outcome).0.state is Running),
{
    if v.configs.len() > 0 && outcome is Some {
        crate::compose::collect::law_collect_preserves_collected(v.configs, v.services, outcome->0);
    }
}

/// MX-based provider detection never runs once the fixed-provider domain
/// rule matched; when it did not, the search starts with it.
pub proof fn law_mx_only_without_provider_rule(v: SearchView, provider: Option<Seq<ServiceConfigView>>)
    requires
        !v.provider_matched,
        !v.first,
        v.configs.len() == 0,
    ensures
        provider is Some ==> after_start(v, provider).0.state != StateView::Running(Mechanism::Mx),
        provider is None ==> after_start(v, provider).0.state == StateView::Running(Mechanism::Mx),
        provider is None ==> after_start(v, provider).1 == YieldView::Run(Mechanism::Mx),
{
    if let Some(c) = provider {
        let w = SearchView { provider_matched: true, ..v };
        lemma_next_mechanism(w.services, true, 0);
    }
}

/// The work left in a probe queue: each task and each of its URLs.
pub open spec fn queue_measure(queue: Seq<TaskView>) -> int
    decreases queue.len(),
{
    if queue.len() == 0 {
        0
    } else {
        queue_measure(queue.drop_last()) + queue.last().urls.len() + 1
    }
}

proof fn lemma_queue_measure_nonneg(queue: Seq<TaskView>)
    ensures
        queue_measure(queue) >= 0,
    decreases queue.len(),
{
    if queue.len() > 0 {
        lemma_queue_measure_nonneg(queue.drop_last());
    }
}

proof fn lemma_probe_pick_measure(queue: Seq<TaskView>)
    ensures
        probe_pick(queue) matches Some((rest, task, _)) ==> queue_measure(rest) + task.urls.len() + 1 < queue_measure(queue),
    decreases queue.len(),
{
    if queue.len() > 0 {
        lemma_queue_measure_nonneg(queue.drop_last());
        if queue.last().urls.len() == 0 {
            lemma_probe_pick_measure(queue.drop_last());
        }
    }
}

/// Probing ends: every probe outcome strictly shrinks the work left (the
/// pending tasks and their URLs, the current task included), so the
/// search completes after finitely many probes.
pub proof fn law_probing_terminates(
    v: SearchView,
    queue: Seq<TaskView>,
    task: TaskView,
    schemes: Option<Seq<Seq<char>>>,
)
    ensures
        after_probe(v, queue, task, schemes).0.state matches StateView::Probing { queue: q2, task: t2 }
            ==> queue_measure(q2) + t2.urls.len() + 1 < queue_measure(queue) + task.urls.len() + 1,
{
    lemma_queue_measure_nonneg(queue);
    match schemes {
        Some(s) if s.len() > 0 => {
            lemma_probe_pick_measure(queue);
        },
        _ => {
            lemma_probe_pick_measure(queue.push(task));
            assert(queue.push(task).drop_last() =~= queue);
        },
    }
}

/// The mechanisms the search runs from rank `rank` on when none yields a
/// config: each relevant one, in priority order.
pub open spec fn walk_from(services: Seq<DiscoveryService>, provider_matched: bool, rank: int) -> Seq<Mechanism>
    decreases 10 - rank,
{
    if rank < 0 || rank >= 10 {
        Seq::empty()
    } else if mechanism_runs(services, provider_matched, mechanism_of_rank(rank)) {
        seq![mechanism_of_rank(rank)] + walk_from(services, provider_matched, rank + 1)
    } else {
        walk_from(services, provider_matched, rank + 1)
    }
}

proof fn lemma_walk_head(services: Seq<DiscoveryService>, provider_matched: bool, rank: int)
    requires
        0 <= rank,
    ensures
        next_mechanism_from(services, provider_matched, rank) == (if walk_from(services, provider_matched, rank).len() > 0 {
            Some(walk_from(services, provider_matched, rank)[0])
        } else {
            None
        }),
    decreases 10 - rank,
{
    if rank < 10 && !mechanism_runs(services, provider_matched, mechanism_of_rank(rank)) {
        lemma_walk_head(services, provider_matched, rank + 1);
    }
}

/// The search walks the mechanisms in the very order the compose
/// orchestrator plans them: from the start, the relevant mechanisms in
/// priority order are the compose plan, and at every rank the next
/// mechanism the search enters is the head of what is left of that walk.
pub proof fn law_search_walk_is_the_compose_plan(services: Seq<DiscoveryService>, provider_matched: bool)
    ensures
        walk_from(services, provider_matched, 0) == planned(services, provider_matched),
        forall|rank: int|
            0 <= rank ==> #[trigger] next_mechanism_from(services, provider_matched, rank) == (if walk_from(
                services,
                provider_matched,
                rank,
            ).len() > 0 {
                Some(walk_from(services, provider_matched, rank)[0])
            } else {
                None
            }),
{
    assert forall|rank: int| 0 <= rank implies #[trigger] next_mechanism_from(services, provider_matched, rank) == (if walk_from(
        services,
        provider_matched,
        rank,
    ).len() > 0 {
        Some(walk_from(services, provider_matched, rank)[0])
    } else {
        None
    }) by {
        lemma_walk_head(services, provider_matched, rank);
    }
    lemma_walk_is_plan(services, provider_matched);
}

#[verifier::spinoff_prover]
proof fn lemma_walk_is_plan(services: Seq<DiscoveryService>, provider_matched: bool)
    ensures
        walk_from(services, provider_matched, 0) == planned(services, provider_matched),
{
    reveal_with_fuel(walk_from, 11);
    assert(walk_from(services, provider_matched, 0) =~= planned(services, provider_matched));
}

/// What the driver hands back to the search: the outcome of the
/// fixed-provider rule, of a mechanism, or of a probe.
pub enum SearchEventView {
    Start(Option<Seq<ServiceConfigView>>),
    Mechanism(Option<Seq<ServiceConfigView>>),
    Probe(Option<Seq<Seq<char>>>),
}

/// One resumption of the search: the outcome the search waits for moves it
/// on (`start`, `mechanism_done` or `probe_done`); any other outcome, and
/// every outcome once the search is over, is refused.
pub open spec fn search_step(v: SearchView, e: SearchEventView) -> Option<(SearchView, YieldView)> {
    match v.state {
        StateView::Start => match e {
            SearchEventView::Start(provider) => Some(after_start(v, provider)),
            _ => None,
        },
        StateView::Running(m) => match e {
            SearchEventView::Mechanism(outcome) => Some(after_mechanism(v, m, outcome)),
            _ => None,
        },
        StateView::Probing { queue, task } => match e {
            SearchEventView::Probe(schemes) => Some(after_probe(v, queue, task, schemes)),
            _ => None,
        },
        StateView::Done => None,
    }
}

/// What the search yields when resumed with `events`, one after the other,
/// up to the first event it refuses.
pub open spec fn search_run(v: SearchView, events: Seq<SearchEventView>) -> Seq<YieldView>
    decreases events.len(),
{
    if events.len() == 0 {
        Seq::empty()
    } else {
        match search_step(v, events[0]) {
            Some((w, y)) => seq![y] + search_run(w, events.drop_first()),
            None => Seq::empty(),
        }
    }
}

/// The search after being resumed with `events`, up to the first event it
/// refuses.
pub open spec fn search_last(v: SearchView, events: Seq<SearchEventView>) -> SearchView
    decreases events.len(),
{
    if events.len() == 0 {
        v
    } else {
        match search_step(v, events[0]) {
            Some((w, _)) => search_last(w, events.drop_first()),
            None => v,
        }
    }
}

/// The mechanisms a run of the search asks for, in order.
pub open spec fn run_mechanisms(ys: Seq<YieldView>) -> Seq<Mechanism>
    decreases ys.len(),
{
    if ys.len() == 0 {
        Seq::empty()
    } else {
        match ys[0] {
            YieldView::Run(m) => seq![m] + run_mechanisms(ys.drop_first()),
            _ => run_mechanisms(ys.drop_first()),
        }
    }
}

/// Whether `events` opens with a fixed-provider rule that matched.
pub open spec fn provider_given(events: Seq<SearchEventView>) -> bool {
    events.len() > 0 && events[0] matches SearchEventView::Start(Some(_))
}

pub open spec fn all_wanted(configs: Seq<ServiceConfigView>, services: Seq<DiscoveryService>) -> bool {
    forall|j: int| 0 <= j < configs.len() ==> crate::compose::collect::wants(services, #[trigger] configs[j].service)
}

pub open spec fn is_prefix(a: Seq<Mechanism>, b: Seq<Mechanism>) -> bool {
    a.len() <= b.len() && forall|i: int| 0 <= i < a.len() ==> a[i] == b[i]
}

proof fn lemma_walk_step(services: Seq<DiscoveryService>, provider_matched: bool, rank: int)
    requires
        0 <= rank,
        next_mechanism_from(services, provider_matched, rank) is Some,
    ensures
        ({
            let m = next_mechanism_from(services, provider_matched, rank)->0;
            &&& 0 <= mechanism_rank(m) < 10
            &&& walk_from(services, provider_matched, rank) == seq![m] + walk_from(
                services,
                provider_matched,
                mechanism_rank(m) + 1,
            )
        }),
    decreases 10 - rank,
{
    if rank < 10 && !mechanism_runs(services, provider_matched, mechanism_of_rank(rank)) {
        lemma_walk_step(services, provider_matched, rank + 1);
    }
}

proof fn lemma_walk_none(services: Seq<DiscoveryService>, provider_matched: bool, rank: int)
    requires
        0 <= rank,
        next_mechanism_from(services, provider_matched, rank) is None,
    ensures
        walk_from(services, provider_matched, rank).len() == 0,
{
    lemma_walk_head(services, provider_matched, rank);
}

proof fn lemma_prefix_cons(m: Mechanism, a: Seq<Mechanism>, b: Seq<Mechanism>)
    requires
        is_prefix(a, b),
    ensures
        is_prefix(seq![m] + a, seq![m] + b),
{
    assert forall|i: int| 0 <= i < (seq![m] + a).len() implies (seq![m] + a)[i] == (seq![m] + b)[i] by {
        if i > 0 {
            assert((seq![m] + a)[i] == a[i - 1]);
            assert((seq![m] + b)[i] == b[i - 1]);
        }
    }
}

/// The probe phase yields probes and, last, the configs: it runs no
/// mechanism.
proof fn lemma_probe_phase_runs_nothing(v: SearchView, events: Seq<SearchEventView>)
    requires
        v.state is Probing || v.state is Done,
    ensures
        run_mechanisms(search_run(v, events)).len() == 0,
        search_last(v, events).state is Probing || search_last(v, events).state is Done,
    decreases events.len(),
{
    if events.len() > 0 {
        if let Some((w, y)) = search_step(v, events[0]) {
            let rest = events.drop_first();
            lemma_probe_phase_runs_nothing(w, rest);
            let ys = seq![y] + search_run(w, rest);
            assert(ys.drop_first() =~= search_run(w, rest));
        }
    }
}

/// The step into what follows a mechanism, or into the first one.
proof fn lemma_advance_runs(v: SearchView, configs: Seq<ServiceConfigView>, rank: int, events: Seq<SearchEventView>)
    requires
        0 <= rank,
    ensures
        ({
            let (w, y) = advance_from(v, configs, rank);
            let ms = run_mechanisms(seq![y] + search_run(w, events));
            let walk = walk_from(v.services, v.provider_matched, rank);
            &&& is_prefix(ms, walk)
            &&& !v.first && !(search_last(w, events).state is Running) ==> ms == walk
        }),
    decreases events.len(), 1int,
{
    let (w, y) = advance_from(v, configs, rank);
    let ys = seq![y] + search_run(w, events);
    assert(ys.drop_first() =~= search_run(w, events));
    let walk = walk_from(v.services, v.provider_matched, rank);
    if w.state is Running {
        let m = next_mechanism_from(v.services, v.provider_matched, rank)->0;
        lemma_walk_step(v.services, v.provider_matched, rank);
        lemma_running_runs(w, events);
        assert(w.services == v.services && w.provider_matched == v.provider_matched && w.first == v.first);
        lemma_prefix_cons(
            m,
            run_mechanisms(search_run(w, events)),
            walk_from(v.services, v.provider_matched, mechanism_rank(m) + 1),
        );
    } else {
        lemma_probe_phase_runs_nothing(w, events);
        if !v.first {
            lemma_walk_none(v.services, v.provider_matched, rank);
        }
    }
}

/// A running search asks, from here on, for a prefix of the relevant
/// mechanisms after the current one, and for all of them when it reaches
/// its probe phase outside first mode.
proof fn lemma_running_runs(w: SearchView, events: Seq<SearchEventView>)
    requires
        w.state is Running,
    ensures
        ({
            let ms = run_mechanisms(search_run(w, events));
            let walk = walk_from(w.services, w.provider_matched, mechanism_rank(w.state->Running_0) + 1);
            &&& is_prefix(ms, walk)
            &&& !w.first && !(search_last(w, events).state is Running) ==> ms == walk
        }),
    decreases events.len(), 0int,
{
    if events.len() > 0 {
        let m = w.state->Running_0;
        if let SearchEventView::Mechanism(outcome) = events[0] {
            let configs = match outcome {
                Some(found) => collect_seq(w.configs, w.services, found),
                None => w.configs,
            };
            lemma_advance_runs(w, configs, mechanism_rank(m) + 1, events.drop_first());
        }
    }
}

/// A run of a fresh search asks for the mechanisms of the compose plan,
/// in its order, each at most once, and none that is irrelevant to the
/// requested services (MX detection only when the fixed-provider rule did
/// not match); outside first mode, a run that has reached its probe phase
/// has asked for every one of them.
pub proof fn law_search_run_follows_the_plan(v: SearchView, events: Seq<SearchEventView>)
    requires
        v.state == StateView::Start,
        !v.provider_matched,
    ensures
        is_prefix(run_mechanisms(search_run(v, events)), planned(v.services, provider_given(events))),
        !v.first && (search_last(v, events).state is Probing || search_last(v, events).state is Done)
            ==> run_mechanisms(search_run(v, events)) == planned(v.services, provider_given(events)),
{
    if events.len() > 0 {
        if let SearchEventView::Start(provider) = events[0] {
            let w = SearchView { provider_matched: provider is Some, ..v };
            let configs = match provider {
                Some(found) => collect_seq(v.configs, v.services, found),
                None => v.configs,
            };
            assert(after_start(v, provider) == advance_from(w, configs, 0));
            lemma_advance_runs(w, configs, 0, events.drop_first());
            law_search_walk_is_the_compose_plan(v.services, provider is Some);
        }
    }
}

/// One resumption keeps every collected config wanted, and yields only
/// wanted configs, as the last thing the search yields.
proof fn lemma_step_keeps_wanted(v: SearchView, e: SearchEventView)
    requires
        all_wanted(v.configs, v.services),
    ensures
        search_step(v, e) matches Some((w, y)) ==> {
            &&& w.services == v.services
            &&& all_wanted(w.configs, w.services)
            &&& y matches YieldView::Complete(cs) ==> all_wanted(cs, v.services) && w.state is Done
        },
{
    let services = v.services;
    match v.state {
        StateView::Start => {
            if let SearchEventView::Start(Some(found)) = e {
                law_collect_keeps_only_wanted(v.configs, services, found);
            }
        },
        StateView::Running(m) => {
            if let SearchEventView::Mechanism(Some(found)) = e {
                law_collect_keeps_only_wanted(v.configs, services, found);
            }
        },
        StateView::Probing { queue, task } => {
            if let SearchEventView::Probe(Some(s)) = e {
                if s.len() > 0 && 0 <= task.index < v.configs.len() {
                    let c = v.configs[task.index];
                    let configs = v.configs.update(
                        task.index,
                        ServiceConfigView { auth: refined_auth(c.auth, s), ..c },
                    );
                    assert forall|j: int| 0 <= j < configs.len() implies crate::compose::collect::wants(
                        services,
                        #[trigger] configs[j].service,
                    ) by {
                        assert(configs[j].service == v.configs[j].service);
                    }
                }
            }
        },
        StateView::Done => {},
    }
}

/// Every set of configs a search completes with holds only configs of the
/// requested services (all of them when none was requested): failed
/// mechanisms and probes are skipped, never handed on; and completing is
/// the last thing a search does.
pub proof fn law_search_completes_with_wanted_configs(v: SearchView, events: Seq<SearchEventView>)
    requires
        all_wanted(v.configs, v.services),
    ensures
        forall|i: int|
            0 <= i < search_run(v, events).len() && #[trigger] search_run(v, events)[i] is Complete ==> {
                &&& all_wanted(search_run(v, events)[i]->Complete_0, v.services)
                &&& i == search_run(v, events).len() - 1
            },
    decreases events.len(),
{
    if events.len() > 0 {
        lemma_step_keeps_wanted(v, events[0]);
        if let Some((w, y)) = search_step(v, events[0]) {
            let rest = events.drop_first();
            law_search_completes_with_wanted_configs(w, rest);
            let run = search_run(v, events);
            assert(run == seq![y] + search_run(w, rest));
            if y is Complete {
                assert(search_run(w, rest).len() == 0);
            }
            assert forall|i: int| 0 <= i < run.len() && #[trigger] run[i] is Complete implies {
                &&& all_wanted(run[i]->Complete_0, v.services)
                &&& i == run.len() - 1
            } by {
                if i > 0 {
                    assert(run[i] == search_run(w, rest)[i - 1]);
                }
            }
        }
    }
}

/// What a search holds after a step: the configs it completes with when
/// it completes, its collected configs otherwise.
pub open spec fn held_after(w: SearchView, y: YieldView) -> Seq<ServiceConfigView> {
    match y {
        YieldView::Complete(configs) => configs,
        _ => w.configs,
    }
}

proof fn lemma_advance_holds(v: SearchView, configs: Seq<ServiceConfigView>, rank: int)
    ensures
        held_after(advance_from(v, configs, rank).0, advance_from(v, configs, rank).1) == configs,
        advance_from(v, configs, rank).0.provider_matched == v.provider_matched,
        advance_from(v, configs, rank).0.services == v.services,
{
}

/// Starting the search collects the fixed provider's configs: when the
/// domain rule matched, what the search holds afterwards (or completes
/// with at once) is the provider's configs collected into what it held,
/// so each of them for a requested service is covered there, with its
/// service, its username and every one of its methods; when it did not,
/// nothing is collected. Either way the search remembers whether it
/// matched.
pub proof fn law_start_collects_the_provider_configs(v: SearchView, provider: Option<Seq<ServiceConfigView>>)
    requires
        v.state == StateView::Start,
    ensures
        ({
            let (w, y) = after_start(v, provider);
            let held = held_after(w, y);
            &&& w.provider_matched == (v.provider_matched || provider is Some)
            &&& held == match provider {
                Some(cs) => collect_seq(v.configs, v.services, cs),
                None => v.configs,
            }
            &&& provider matches Some(cs) ==> forall|i: int|
                0 <= i < cs.len() && crate::compose::collect::wants(v.services, #[trigger] cs[i].service)
                    ==> exists|j: int| 0 <= j < held.len() && covers(#[trigger] held[j], cs[i])
        }),
{
    match provider {
        Some(cs) => {
            let w = SearchView { provider_matched: true, ..v };
            lemma_advance_holds(w, collect_seq(v.configs, v.services, cs), 0);
            law_collect_loses_no_method(v.configs, v.services, cs);
        },
        None => {
            lemma_advance_holds(v, v.configs, 0);
        },
    }
}

} // verus!
