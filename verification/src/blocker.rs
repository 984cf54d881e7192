//! The filter-engine actor: one owner of the compiled engine serving
//! network-match, cosmetic-match and replace commands in order.
//!
//! Each command is one call of `handle_request`; `handle_requests`
//! serves a whole batch in order, and its contract pins every result to
//! the engine that was current when its command was served — a command
//! enqueued before a replace is answered by the old engine, one after
//! it by the new, and no answer blends both.

use vstd::prelude::*;
use vstd::utf8::encode_utf8;
use crate::clock::elapsed_nanos;
use crate::clock::instant_now;
use crate::engine::check_request;
use crate::engine::cosmetic_resources_for;
use crate::engine::engine_lists;
use crate::engine::engine_use_resources;
use crate::engine::filter_set_add;
use crate::engine::filter_set_lists;
use crate::engine::hidden_selectors_for;
use crate::engine::network_blocked;
use crate::engine::request_parse;
use crate::engine::request_parses;
use crate::engine::UrlResources;
use crate::blocker_utils::Resource;
use crate::metrics::MetricsCollector;

verus! {

/// Whether blocking is switched off. The stored flag is the inverse of
/// the user-facing meaning; only `is_enabled` and `set` read or write
/// it, so the inversion cannot leak.
pub struct BlockingDisabledStore {
    pub disabled: bool,
}

impl BlockingDisabledStore {
    /// The user-facing meaning of the stored flag.
    pub open spec fn spec_enabled(self) -> bool {
        !self.disabled
    }

    /// True when blocking is on.
    pub fn is_enabled(&self) -> (r: bool)
        ensures
            r == self.spec_enabled(),
    {
        !self.disabled
    }

    /// Switches blocking on or off.
    pub fn set(&mut self, enabled: bool)
        ensures
            final(self).spec_enabled() == enabled,
    {
        self.disabled = !enabled;
    }
}

/// Totals of the requests the actor served.
pub struct RequestStats {
    pub network_total: u64,
    pub cosmetic_total: u64,
    pub blocked_total: u64,
    pub failed_total: u64,
}

/// Totals of the filter updates the actor performed.
pub struct FilterStats {
    pub active_count: u64,
    pub update_count: u64,
    pub failed_updates: u64,
}

/// Memory totals reported beside the request counters, in megabytes.
pub struct MemoryStats {
    pub current_usage_mb: u64,
    pub peak_usage_mb: u64,
}

/// A cosmetic query: the page URL and the ids and classes seen on it.
pub struct CosmeticRequest {
    pub url: String,
    pub ids: Vec<String>,
    pub classes: Vec<String>,
}

/// A network query: the request URL and its referer.
pub struct NetworkUrl {
    pub url: String,
    pub referer: String,
}

/// One command for the actor.
pub enum RequestKind {
    Url(NetworkUrl),
    Cosmetic(CosmeticRequest),
    ReplaceEngine(Vec<String>),
}

/// The engine's answer to one network query.
pub struct NetworkBlockerResult {
    pub matched: bool,
    pub important: bool,
    pub redirect: Option<String>,
    pub exception: Option<String>,
    pub filter: Option<String>,
    pub rewritten_url: Option<String>,
}

/// The answer that matches nothing.
pub open spec fn empty_network_result() -> NetworkBlockerResult {
    NetworkBlockerResult {
        matched: false,
        important: false,
        redirect: None,
        exception: None,
        filter: None,
        rewritten_url: None,
    }
}

impl NetworkBlockerResult {
    /// The answer that matches nothing.
    pub fn empty() -> (r: Self)
        ensures
            r == empty_network_result(),
    {
        NetworkBlockerResult {
            matched: false,
            important: false,
            redirect: None,
            exception: None,
            filter: None,
            rewritten_url: None,
        }
    }
}

/// The engine's answer to one cosmetic query.
pub struct CosmeticBlockerResult {
    pub hidden_selectors: Vec<String>,
    /// Selectors with non-hide actions; the value lists stay empty in
    /// the current rule language.
    pub style_selectors: Vec<(String, Vec<String>)>,
    pub injected_script: Option<String>,
}

/// True of a cosmetic answer that hides and injects nothing.
pub open spec fn cosmetic_is_empty(c: CosmeticBlockerResult) -> bool {
    &&& c.hidden_selectors@.len() == 0
    &&& c.style_selectors@.len() == 0
    &&& c.injected_script is None
}

/// One answer of the actor.
pub enum BlockerResult {
    Network(NetworkBlockerResult),
    Cosmetic(CosmeticBlockerResult),
}

/// `a + b`, stopping at `u64::MAX`.
pub open spec fn sat_add64(a: u64, b: u64) -> u64 {
    if a + b > u64::MAX {
        u64::MAX
    } else {
        (a + b) as u64
    }
}

/// Total byte size of the first `n` filter-list texts, saturating.
pub open spec fn sum_bytes_sat(filters: Seq<String>, n: int) -> u64
    decreases n,
{
    if n <= 0 {
        0u64
    } else {
        sat_add64(sum_bytes_sat(filters, n - 1), (encode_utf8(filters[n - 1]@).len() as usize) as u64)
    }
}

/// The filter lists in force after serving `reqs` starting from `init`:
/// the last replace command wins.
pub open spec fn lists_after(init: Seq<Seq<char>>, reqs: Seq<RequestKind>) -> Seq<Seq<char>>
    decreases reqs.len(),
{
    if reqs.len() == 0 {
        init
    } else {
        match reqs.last() {
            RequestKind::ReplaceEngine(filters) => filters.deep_view(),
            _ => lists_after(init, reqs.drop_last()),
        }
    }
}

/// What one answer must look like, given the filter lists that were in
/// force when its command was served. A network answer's match bit is
/// the engine's decision under exactly those lists; with blocking off or
/// an unparsable URL it matches nothing; a cosmetic answer with blocking
/// off is empty; a replace command is acknowledged with the empty
/// network answer.
pub open spec fn result_consistent(
    lists: Seq<Seq<char>>,
    req: RequestKind,
    res: BlockerResult,
    enabled: bool,
) -> bool {
    match req {
        RequestKind::Url(u) => {
            &&& res is Network
            &&& !enabled ==> res->Network_0 == empty_network_result()
            &&& enabled && !request_parses(u.url@, u.referer@) ==> res->Network_0
                == empty_network_result()
            &&& enabled && request_parses(u.url@, u.referer@) ==> res->Network_0.matched
                == network_blocked(lists, u.url@, u.referer@, "other"@)
        },
        RequestKind::Cosmetic(_) => {
            &&& res is Cosmetic
            &&& !enabled ==> cosmetic_is_empty(res->Cosmetic_0)
        },
        RequestKind::ReplaceEngine(_) => {
            &&& res is Network
            &&& res->Network_0 == empty_network_result()
        },
    }
}

/// The actor's state: the compiled engine, the blocking switch, the
/// resource table attached to every engine, and the actor's counters.
pub struct Blocker {
    pub engine: adblock::Engine,
    pub blocking_disabled: BlockingDisabledStore,
    pub resources: Vec<Resource>,
    pub metrics: MetricsCollector,
}

impl Blocker {
    /// Fresh actor around an engine with no rules.
    pub fn new(
        blocking_disabled: BlockingDisabledStore,
        resources: Vec<Resource>,
        metrics: MetricsCollector,
    ) -> (r: Self)
        ensures
            engine_lists(r.engine) == Seq::<Seq<char>>::empty(),
            r.blocking_disabled == blocking_disabled,
            r.resources == resources,
            r.metrics == metrics,
    {
        Blocker { engine: adblock::Engine::new(true), blocking_disabled, resources, metrics }
    }

    /// Serves one network query. With blocking off, or when the URL does
    /// not parse, the answer matches nothing; otherwise the match bit is
    /// the engine's decision for the query. Counts the query, the
    /// failure and the block, each exactly when it happens.
    pub fn handle_network_request(&mut self, network_url: NetworkUrl) -> (r: NetworkBlockerResult)
        ensures
            final(self).engine == old(self).engine,
            final(self).blocking_disabled == old(self).blocking_disabled,
            final(self).resources == old(self).resources,
            final(self).metrics == (MetricsCollector {
                network_requests: crate::statistics::bump64(old(self).metrics.network_requests),
                blocked_requests: final(self).metrics.blocked_requests,
                failed_requests: final(self).metrics.failed_requests,
                network_processing_time: final(self).metrics.network_processing_time,
                ..old(self).metrics
            }),
            final(self).metrics.network_processing_time
                >= old(self).metrics.network_processing_time,
            !old(self).blocking_disabled.spec_enabled() ==> r == empty_network_result()
                && final(self).metrics.blocked_requests == old(self).metrics.blocked_requests
                && final(self).metrics.failed_requests == old(self).metrics.failed_requests,
            old(self).blocking_disabled.spec_enabled() && !request_parses(
                network_url.url@,
                network_url.referer@,
            ) ==> r == empty_network_result() && final(self).metrics.blocked_requests == old(
                self,
            ).metrics.blocked_requests && final(self).metrics.failed_requests
                == crate::statistics::bump64(old(self).metrics.failed_requests),
            old(self).blocking_disabled.spec_enabled() && request_parses(
                network_url.url@,
                network_url.referer@,
            ) ==> r.matched == network_blocked(
                engine_lists(old(self).engine),
                network_url.url@,
                network_url.referer@,
                "other"@,
            ) && final(self).metrics.failed_requests == old(self).metrics.failed_requests
                && final(self).metrics.blocked_requests == (if r.matched {
                crate::statistics::bump64(old(self).metrics.blocked_requests)
            } else {
                old(self).metrics.blocked_requests
            }),
    {
        let start = instant_now();
        self.metrics.network_requests = self.metrics.network_requests.saturating_add(1);
        if !self.blocking_disabled.is_enabled() {
            let e: u64 = elapsed_nanos(&start);
            self.metrics.network_processing_time =
                self.metrics.network_processing_time.saturating_add(e);
            return NetworkBlockerResult::empty();
        }
        let req = match request_parse(network_url.url.as_str(), network_url.referer.as_str(), "other") {
            Some(req) => req,
            None => {
                let e: u64 = elapsed_nanos(&start);
                self.metrics.network_processing_time =
                    self.metrics.network_processing_time.saturating_add(e);
                self.metrics.failed_requests = self.metrics.failed_requests.saturating_add(1);
                return NetworkBlockerResult::empty();
            },
        };
        let result = check_request(&self.engine, &req);
        if result.matched {
            self.metrics.blocked_requests = self.metrics.blocked_requests.saturating_add(1);
        }
        let e: u64 = elapsed_nanos(&start);
        self.metrics.network_processing_time =
            self.metrics.network_processing_time.saturating_add(e);
        result
    }

    /// Serves one cosmetic query. With blocking off the answer is empty;
    /// otherwise it is assembled from the engine's selector sets by
    /// `assemble_cosmetic_result`. Counts the query either way.
    pub fn handle_cosmetic_request(&mut self, request: CosmeticRequest) -> (r:
        CosmeticBlockerResult)
        ensures
            final(self).engine == old(self).engine,
            final(self).blocking_disabled == old(self).blocking_disabled,
            final(self).resources == old(self).resources,
            final(self).metrics == (MetricsCollector {
                cosmetic_requests: crate::statistics::bump64(old(self).metrics.cosmetic_requests),
                cosmetic_processing_time: final(self).metrics.cosmetic_processing_time,
                ..old(self).metrics
            }),
            final(self).metrics.cosmetic_processing_time
                >= old(self).metrics.cosmetic_processing_time,
            !old(self).blocking_disabled.spec_enabled() ==> cosmetic_is_empty(r),
            // a scriptlet is surfaced only when it is non-empty, and the
            // style-selector value lists are always empty
            r.injected_script matches Some(s) ==> s@.len() > 0,
            forall|i: int|
                0 <= i < r.style_selectors@.len() ==> (#[trigger] r.style_selectors@[i]).1@.len()
                    == 0,
    {
        let start = instant_now();
        self.metrics.cosmetic_requests = self.metrics.cosmetic_requests.saturating_add(1);
        if !self.blocking_disabled.is_enabled() {
            let e: u64 = elapsed_nanos(&start);
            self.metrics.cosmetic_processing_time =
                self.metrics.cosmetic_processing_time.saturating_add(e);
            return CosmeticBlockerResult {
                hidden_selectors: Vec::new(),
                style_selectors: Vec::new(),
                injected_script: None,
            };
        }
        let url_resources = cosmetic_resources_for(&self.engine, request.url.as_str());
        let generic: Vec<String> = if !url_resources.generichide {
            hidden_selectors_for(
                &self.engine,
                &request.classes,
                &request.ids,
                &url_resources.exceptions,
            )
        } else {
            Vec::new()
        };
        let result = assemble_cosmetic_result(url_resources, generic);
        proof {
            assert forall|i: int|
                0 <= i < result.style_selectors@.len() implies (#[trigger] result.style_selectors@[i]).1@.len()
                == 0 by {
                let key = result.style_selectors@[i].0;
            }
        }
        let e: u64 = elapsed_nanos(&start);
        self.metrics.cosmetic_processing_time =
            self.metrics.cosmetic_processing_time.saturating_add(e);
        result
    }

    /// Replaces the engine: compiles the given filter-list texts,
    /// attaches the resource table, and swaps the old engine out. The
    /// new engine's rules are exactly the given lists, and the active
    /// filter size becomes their total bytes in whole kilobytes.
    pub fn update_engine(&mut self, filters: Vec<String>)
        ensures
            engine_lists(final(self).engine) == filters.deep_view(),
            final(self).blocking_disabled == old(self).blocking_disabled,
            final(self).resources == old(self).resources,
            final(self).metrics == (MetricsCollector {
                filter_updates: crate::statistics::bump64(old(self).metrics.filter_updates),
                active_filters: (sum_bytes_sat(filters@, filters@.len() as int) / 1024) as u64,
                engine_update_time: final(self).metrics.engine_update_time,
                last_update_time: final(self).metrics.last_update_time,
                ..old(self).metrics
            }),
            final(self).metrics.engine_update_time >= old(self).metrics.engine_update_time,
    {
        let start = instant_now();
        let mut filter_set = adblock::lists::FilterSet::new(true);
        let mut total_size: u64 = 0;
        let n: usize = filters.len();
        let mut i: usize = 0;
        while i < n
            invariant
                n == filters@.len(),
                0 <= i <= n,
                filter_set_lists(filter_set) =~= filters.deep_view().take(i as int),
                total_size == sum_bytes_sat(filters@, i as int),
            decreases n - i,
        {
            filter_set_add(&mut filter_set, filters[i].as_str());
            total_size = total_size.saturating_add(filters[i].as_str().len() as u64);
            proof {
                assert(filters.deep_view().take(i + 1) =~= filters.deep_view().take(i as int).push(
                    filters@[i as int]@,
                ));
            }
            i = i + 1;
        }
        proof {
            assert(filters.deep_view().take(n as int) =~= filters.deep_view());
        }
        let mut new_engine = adblock::Engine::from_filter_set(filter_set, true);
        engine_use_resources(&mut new_engine, &self.resources);
        self.engine = new_engine;
        self.metrics.filter_updates = self.metrics.filter_updates.saturating_add(1);
        let elapsed: u64 = elapsed_nanos(&start);
        self.metrics.engine_update_time = self.metrics.engine_update_time.saturating_add(elapsed);
        self.metrics.last_update_time = elapsed;
        self.metrics.active_filters = total_size / 1024;
    }

    /// Serves one command and returns its answer. The answer is
    /// consistent with the engine that was current when the command
    /// arrived, and only a replace command changes the engine.
    pub fn handle_request(&mut self, request: RequestKind) -> (r: BlockerResult)
        ensures
            final(self).blocking_disabled == old(self).blocking_disabled,
            final(self).resources == old(self).resources,
            result_consistent(
                engine_lists(old(self).engine),
                request,
                r,
                old(self).blocking_disabled.spec_enabled(),
            ),
            engine_lists(final(self).engine) == (match request {
                RequestKind::ReplaceEngine(f) => f.deep_view(),
                _ => engine_lists(old(self).engine),
            }),
    {
        match request {
            RequestKind::Cosmetic(cosmetic_request) => {
                let result = self.handle_cosmetic_request(cosmetic_request);
                BlockerResult::Cosmetic(result)
            },
            RequestKind::Url(network_url) => {
                let result = self.handle_network_request(network_url);
                BlockerResult::Network(result)
            },
            RequestKind::ReplaceEngine(filters) => {
                self.update_engine(filters);
                BlockerResult::Network(NetworkBlockerResult::empty())
            },
        }
    }

    /// Serves a batch of commands in order. Every answer is consistent
    /// with the engine in force when its command was served: with the
    /// initial engine up to a replace command, with the replaced engine
    /// after it.
    pub fn handle_requests(&mut self, requests: Vec<RequestKind>) -> (results: Vec<BlockerResult>)
        ensures
            results@.len() == requests@.len(),
            forall|j: int|
                0 <= j < requests@.len() ==> result_consistent(
                    lists_after(engine_lists(old(self).engine), requests@.take(j)),
                    requests@[j],
                    #[trigger] results@[j],
                    old(self).blocking_disabled.spec_enabled(),
                ),
            engine_lists(final(self).engine) == lists_after(
                engine_lists(old(self).engine),
                requests@,
            ),
            final(self).blocking_disabled == old(self).blocking_disabled,
            final(self).resources == old(self).resources,
    {
        let ghost init = engine_lists(self.engine);
        let ghost all = requests@;
        let mut remaining = requests;
        let mut results: Vec<BlockerResult> = Vec::new();
        while remaining.len() > 0
            invariant
                init == engine_lists(old(self).engine),
                all == requests@,
                results@.len() + remaining@.len() == all.len(),
                remaining@ =~= all.skip(results@.len() as int),
                engine_lists(self.engine) == lists_after(init, all.take(results@.len() as int)),
                self.blocking_disabled == old(self).blocking_disabled,
                self.resources == old(self).resources,
                forall|j: int|
                    0 <= j < results@.len() ==> result_consistent(
                        lists_after(init, all.take(j)),
                        all[j],
                        #[trigger] results@[j],
                        old(self).blocking_disabled.spec_enabled(),
                    ),
            decreases remaining@.len(),
        {
            let ghost i = results@.len() as int;
            let request = remaining.remove(0);
            proof {
                assert(request == all[i]);
            }
            let answer = self.handle_request(request);
            results.push(answer);
            proof {
                assert(all.take(i + 1) =~= all.take(i).push(all[i]));
                assert(all.take(i + 1).drop_last() =~= all.take(i));
                assert(lists_after(init, all.take(i + 1)) == (match all[i] {
                    RequestKind::ReplaceEngine(f) => f.deep_view(),
                    _ => lists_after(init, all.take(i)),
                }));
            }
        }
        proof {
            assert(all.take(all.len() as int) =~= all);
        }
        results
    }
}

/// The filter lists are unchanged after a batch with no replace command.
proof fn lemma_lists_without_replace(init: Seq<Seq<char>>, reqs: Seq<RequestKind>)
    requires
        forall|j: int| 0 <= j < reqs.len() ==> !(#[trigger] reqs[j] is ReplaceEngine),
    ensures
        lists_after(init, reqs) == init,
    decreases reqs.len(),
{
    if reqs.len() > 0 {
        assert(reqs.last() == reqs[reqs.len() - 1]);
        lemma_lists_without_replace(init, reqs.drop_last());
    }
}

/// After the only replace command of a batch, the new lists stay in
/// force to the end.
proof fn lemma_lists_after_replace(init: Seq<Seq<char>>, reqs: Seq<RequestKind>, k: int, i: int)
    requires
        0 <= k < i <= reqs.len(),
        reqs[k] is ReplaceEngine,
        forall|j: int| 0 <= j < reqs.len() && j != k ==> !(#[trigger] reqs[j] is ReplaceEngine),
    ensures
        lists_after(init, reqs.take(i)) == reqs[k]->ReplaceEngine_0.deep_view(),
    decreases i,
{
    let t = reqs.take(i);
    assert(t.last() == reqs[i - 1]);
    if i - 1 == k {
        assert(t.last() is ReplaceEngine);
    } else {
        assert(!(reqs[i - 1] is ReplaceEngine));
        assert(t.drop_last() =~= reqs.take(i - 1));
        lemma_lists_after_replace(init, reqs, k, i - 1);
    }
}

/// A batch with exactly one replace command splits cleanly: every
/// command at or before the replace is served under the initial filter
/// lists, and every command after it under the replacement's lists.
/// Together with the contract of `handle_requests` this pins each
/// answer to exactly one of the two engines; no answer blends both.
pub proof fn lemma_single_replace_splits(init: Seq<Seq<char>>, reqs: Seq<RequestKind>, k: int)
    requires
        0 <= k < reqs.len(),
        reqs[k] is ReplaceEngine,
        forall|j: int| 0 <= j < reqs.len() && j != k ==> !(#[trigger] reqs[j] is ReplaceEngine),
    ensures
        forall|i: int| 0 <= i <= k ==> #[trigger] lists_after(init, reqs.take(i)) == init,
        forall|i: int|
            k < i <= reqs.len() ==> #[trigger] lists_after(init, reqs.take(i))
                == reqs[k]->ReplaceEngine_0.deep_view(),
{
    assert forall|i: int| 0 <= i <= k implies #[trigger] lists_after(init, reqs.take(i))
        == init by {
        let t = reqs.take(i);
        assert(forall|j: int| 0 <= j < t.len() ==> t[j] == reqs[j]);
        lemma_lists_without_replace(init, t);
    }
    assert forall|i: int| k < i <= reqs.len() implies #[trigger] lists_after(init, reqs.take(i))
        == reqs[k]->ReplaceEngine_0.deep_view() by {
        lemma_lists_after_replace(init, reqs, k, i);
    }
}

/// Builds one cosmetic answer from the engine's selector sets: the
/// hidden selectors are the generic ones (unless the page carries
/// `generichide`) followed by the page's own; every procedural action
/// becomes a key with an empty value list; the scriptlet is surfaced
/// exactly when it is non-empty.
pub fn assemble_cosmetic_result(url_resources: UrlResources, generic: Vec<String>) -> (r:
    CosmeticBlockerResult)
    ensures
        r.hidden_selectors@ == (if url_resources.generichide {
            Seq::<String>::empty()
        } else {
            generic@
        }) + url_resources.hide_selectors@,
        r.style_selectors@.len() == url_resources.procedural_actions@.len(),
        forall|i: int|
            0 <= i < r.style_selectors@.len() ==> #[trigger] r.style_selectors@[i].0
                == url_resources.procedural_actions@[i] && r.style_selectors@[i].1@ =~= Seq::<
                String,
            >::empty(),
        r.injected_script == (if url_resources.injected_script@.len() > 0 {
            Some(url_resources.injected_script)
        } else {
            Option::<String>::None
        }),
{
    let mut hidden_selectors: Vec<String> = if url_resources.generichide {
        Vec::new()
    } else {
        generic
    };
    let mut own = url_resources.hide_selectors;
    hidden_selectors.append(&mut own);
    let mut style_selectors: Vec<(String, Vec<String>)> = Vec::new();
    let actions = url_resources.procedural_actions;
    let n: usize = actions.len();
    let mut i: usize = 0;
    while i < n
        invariant
            n == actions@.len(),
            0 <= i <= n,
            style_selectors@.len() == i,
            forall|j: int|
                0 <= j < i ==> #[trigger] style_selectors@[j].0 == actions@[j]
                    && style_selectors@[j].1@ =~= Seq::<String>::empty(),
        decreases n - i,
    {
        let key: String = actions[i].clone();
        let empty: Vec<String> = Vec::new();
        style_selectors.push((key, empty));
        i = i + 1;
    }
    let injected_script: Option<String> = if !url_resources.injected_script.as_str().is_empty() {
        Some(url_resources.injected_script)
    } else {
        None
    };
    CosmeticBlockerResult { hidden_selectors, style_selectors, injected_script }
}

} // verus!
