//! The result store: the endpoint registry and the bounded probe-result
//! history, with the statistics derived from them. All reads and writes go
//! through one owner; a caller that shares the store across tasks wraps it
//! in its own mutual-exclusion handle.

use vstd::prelude::*;
use vstd::seq_lib::*;
use crate::idmap::IdMap;
use crate::ping::{Endpoint, PingResult, fresh_endpoint_id};

verus! {

/// An uptime percentage kept as the exact ratio of successful probes to
/// total probes, so that `100 * successes / total` is represented without
/// rounding. A ratio with `total == 0` stands for the percentage `0`.
#[derive(Debug, Clone, Copy, PartialEq, Eq, Structural)]
pub struct UptimeRatio {
    pub successes: u64,
    pub total: u64,
}

impl UptimeRatio {
    /// The percentage scaled by 100 and truncated: `10000` is `100%`,
    /// `5000` is `50%`, and a ratio without any probes is `0`.
    pub fn percent_hundredths(&self) -> (r: u64)
        requires
            self.successes <= self.total,
        ensures
            r == if self.total == 0 {
                0int
            } else {
                10000 * self.successes / self.total as int
            },
            r <= 10000,
    {
        if self.total == 0 {
            0
        } else {
            let s = self.successes as u128;
            let t = self.total as u128;
            let q: u128 = (10000 * s) / t;
            proof {
                assert((10000 * s as int) / t as int <= 10000) by (nonlinear_arith)
                    requires
                        s <= t,
                        t >= 1,
                ;
            }
            q as u64
        }
    }

    /// Whether any probe in the ratio succeeded, i.e. the percentage is
    /// above zero.
    pub fn positive(&self) -> (r: bool)
        ensures
            r == (self.successes > 0),
    {
        self.successes > 0
    }
}

/// Per-endpoint summary derived from the full history: last status and
/// timestamp, exact uptime ratio, and truncated average latency.
#[derive(Debug, Clone)]
pub struct EndpointStats {
    pub endpoint: Endpoint,
    pub last_status: Option<bool>,
    pub uptime_percentage: UptimeRatio,
    pub last_ping: Option<u64>,
    pub avg_latency: Option<u64>,
}

/// The probe results recorded for one endpoint, in insertion order.
pub open spec fn results_for(h: Seq<PingResult>, id: u128) -> Seq<PingResult> {
    h.filter(|r: PingResult| r.endpoint_id == id)
}

/// How many of the results are successes.
pub open spec fn successes_in(h: Seq<PingResult>) -> int {
    h.filter(|r: PingResult| r.status).len() as int
}

/// The sum of the recorded latencies.
pub open spec fn latency_total(h: Seq<PingResult>) -> int
    decreases h.len(),
{
    if h.len() == 0 {
        0
    } else {
        latency_total(h.drop_last()) + h.last().latency_ms
    }
}

/// The summary computed for endpoint `e` from history `h`: the scan keeps
/// the endpoint's own results in insertion order; the last of them gives
/// last status and last ping; the average latency divides the latency sum
/// by the count, truncating; the uptime ratio is successes over total, and
/// an endpoint without results reports no last status and percentage zero.
pub open spec fn stats_for(e: Endpoint, h: Seq<PingResult>) -> EndpointStats {
    let rs = results_for(h, e.id);
    EndpointStats {
        endpoint: e,
        last_status: if rs.len() == 0 {
            None
        } else {
            Some(rs.last().status)
        },
        uptime_percentage: UptimeRatio {
            successes: successes_in(rs) as u64,
            total: rs.len() as u64,
        },
        last_ping: if rs.len() == 0 {
            None
        } else {
            Some(rs.last().timestamp)
        },
        avg_latency: if rs.len() == 0 {
            None
        } else {
            Some((latency_total(rs) / rs.len() as int) as u64)
        },
    }
}

/// The history after appending one result: past 50,000 entries, the oldest
/// 10,000 are dropped in one batch.
pub open spec fn spec_save(h: Seq<PingResult>, r: PingResult) -> Seq<PingResult> {
    let p = h.push(r);
    if p.len() > 50000 {
        p.skip(10000)
    } else {
        p
    }
}

/// The start of the chart window: `hours` whole hours before `now`, floored
/// at the epoch.
pub open spec fn spec_since(now: u64, hours: u64) -> int {
    if now >= hours * 3600 {
        now - hours * 3600
    } else {
        0
    }
}

/// The results recorded for `id` whose timestamps lie in the window.
pub open spec fn window_results(h: Seq<PingResult>, id: u128, since: int) -> Seq<PingResult> {
    h.filter(|r: PingResult| r.endpoint_id == id && r.timestamp >= since)
}

/// The in-window results that fall in the hour bucket `hour_idx`
/// (a bucket holds the timestamps `t` with `t / 3600 == hour_idx`).
pub open spec fn bucket_results(f: Seq<PingResult>, hour_idx: int) -> Seq<PingResult> {
    f.filter(|r: PingResult| r.timestamp as int / 3600 == hour_idx)
}

/// The uptime ratio of one hour bucket; a bucket without results reports
/// the zero ratio, deliberately indistinguishable from a bucket of
/// failures, so that the chart stays continuous.
pub open spec fn bucket_uptime(f: Seq<PingResult>, hour_idx: int) -> UptimeRatio {
    let b = bucket_results(f, hour_idx);
    UptimeRatio { successes: successes_in(b) as u64, total: b.len() as u64 }
}

/// The hourly uptime series for `id` over the window ending at `now`: one
/// `(hour start, ratio)` sample per whole hour boundary covering the
/// window, in ascending time order, or the empty series when no result of
/// `id` lies in the window at all.
pub open spec fn uptime_history_spec(h: Seq<PingResult>, id: u128, hours: u64, now: u64) -> Seq<
    (u64, UptimeRatio),
> {
    let since = spec_since(now, hours);
    let f = window_results(h, id, since);
    if f.len() == 0 {
        Seq::<(u64, UptimeRatio)>::empty()
    } else {
        let start = since / 3600;
        let end = now as int / 3600;
        Seq::new(
            (end - start + 1) as nat,
            |i: int| (((start + i) * 3600) as u64, bucket_uptime(f, start + i)),
        )
    }
}

/// The registry reached from an empty store by a sequence of additions.
pub open spec fn registry_after(adds: Seq<Endpoint>) -> Map<u128, Endpoint>
    decreases adds.len(),
{
    if adds.len() == 0 {
        Map::<u128, Endpoint>::empty()
    } else {
        registry_after(adds.drop_last()).insert(adds.last().id, adds.last())
    }
}

/// For any sequence of additions, each identifier maps to exactly the
/// endpoint added last under it. Identifiers are never merged by URL: two
/// additions with equal URLs but distinct identifiers keep two entries.
/// `registry_after` composes the `ensures` of [`MemoryStorage::add_endpoint`]
/// starting from [`MemoryStorage::new`].
pub proof fn lemma_registry_keeps_last_add(adds: Seq<Endpoint>, i: int)
    requires
        0 <= i < adds.len(),
        forall|j: int| i < j < adds.len() ==> adds[j].id != adds[i].id,
    ensures
        registry_after(adds).contains_key(adds[i].id),
        registry_after(adds)[adds[i].id] == adds[i],
    decreases adds.len(),
{
    if i < adds.len() - 1 {
        assert(forall|j: int|
            i < j < adds.drop_last().len() ==> adds.drop_last()[j].id != adds.drop_last()[i].id);
        lemma_registry_keeps_last_add(adds.drop_last(), i);
        assert(adds[adds.len() - 1].id != adds[i].id);
    }
}

/// The registry holds a key exactly when some addition carried it: nothing
/// beyond the additions ever appears.
pub proof fn lemma_registry_domain(adds: Seq<Endpoint>, k: u128)
    ensures
        registry_after(adds).contains_key(k) <==> exists|j: int|
            0 <= j < adds.len() && adds[j].id == k,
    decreases adds.len(),
{
    if adds.len() > 0 {
        lemma_registry_domain(adds.drop_last(), k);
        if adds.last().id == k {
            assert(adds[adds.len() - 1].id == k);
        } else if registry_after(adds).contains_key(k) {
            let j = choose|j: int|
                0 <= j < adds.drop_last().len() && adds.drop_last()[j].id == k;
            assert(adds[j].id == k);
        } else if exists|j: int| 0 <= j < adds.len() && adds[j].id == k {
            let j = choose|j: int| 0 <= j < adds.len() && adds[j].id == k;
            assert(adds.drop_last()[j].id == k);
        }
    }
}

/// For a fixed history and a fixed `now`, the hourly series is a pure
/// function of its arguments, so repeated calls within the same instant
/// return identical sequences. When any result lies in the window it holds
/// exactly `now/3600 - since/3600 + 1` buckets — one per whole hour
/// boundary covering the window — and its hour timestamps are strictly
/// ascending whatever the insertion order of the underlying results.
pub proof fn lemma_uptime_history_shape(h: Seq<PingResult>, id: u128, hours: u64, now: u64)
    ensures
        window_results(h, id, spec_since(now, hours)).len() == 0 ==> uptime_history_spec(
            h,
            id,
            hours,
            now,
        ).len() == 0,
        window_results(h, id, spec_since(now, hours)).len() > 0 ==> uptime_history_spec(
            h,
            id,
            hours,
            now,
        ).len() == now as int / 3600 - spec_since(now, hours) / 3600 + 1,
        forall|i: int, j: int|
            0 <= i < j < uptime_history_spec(h, id, hours, now).len() ==> uptime_history_spec(
                h,
                id,
                hours,
                now,
            )[i].0 < uptime_history_spec(h, id, hours, now)[j].0,
{
    let since = spec_since(now, hours);
    let start = since / 3600;
    let end = now as int / 3600;
    assert(0 <= start <= end && end * 3600 <= now) by (nonlinear_arith)
        requires
            0 <= since <= now,
            start == since / 3600,
            end == now as int / 3600,
    ;
    let s = uptime_history_spec(h, id, hours, now);
    assert forall|i: int, j: int| 0 <= i < j < s.len() implies s[i].0 < s[j].0 by {
        assert((start + i) * 3600 < (start + j) * 3600 <= end * 3600);
    }
}

/// Appending to a history of exactly 50,000 results drops exactly the
/// oldest 10,000 and leaves 40,001; any shorter history grows by one with
/// nothing dropped, so eviction cannot trigger again until the count again
/// exceeds 50,000.
pub proof fn lemma_batch_eviction(h: Seq<PingResult>, r: PingResult)
    ensures
        h.len() == 50000 ==> spec_save(h, r) == h.push(r).skip(10000) && spec_save(h, r).len()
            == 40001,
        h.len() < 50000 ==> spec_save(h, r) == h.push(r),
        h.len() <= 50000 ==> spec_save(h, r).len() <= 50000,
{
}

/// The latency sum of `n` results is at most `n` times the largest latency
/// a result can carry.
proof fn lemma_latency_total_bound(h: Seq<PingResult>)
    ensures
        0 <= latency_total(h) <= h.len() * 0xffff_ffff_ffff_ffff,
    decreases h.len(),
{
    if h.len() > 0 {
        lemma_latency_total_bound(h.drop_last());
    }
}

proof fn lemma_insert_keeps_key_id(old_m: IdMap<Endpoint>, new_m: IdMap<Endpoint>, k: u128, v: Endpoint)
    requires
        old_m.wf(),
        forall|i: int|
            0 <= i < old_m.seq().len() ==> (#[trigger] old_m.seq()[i]).1.id == old_m.seq()[i].0,
        v.id == k,
        old_m@.contains_key(k) ==> exists|j: int|
            0 <= j < old_m.seq().len() && old_m.seq()[j].0 == k && new_m.seq() == old_m.seq().update(
                j,
                (k, v),
            ),
        !old_m@.contains_key(k) ==> new_m.seq() == old_m.seq().push((k, v)),
    ensures
        forall|i: int|
            0 <= i < new_m.seq().len() ==> (#[trigger] new_m.seq()[i]).1.id == new_m.seq()[i].0,
{
    if old_m@.contains_key(k) {
        let j = choose|j: int|
            0 <= j < old_m.seq().len() && old_m.seq()[j].0 == k && new_m.seq()
                == old_m.seq().update(j, (k, v));
        assert forall|i: int| 0 <= i < new_m.seq().len() implies (#[trigger] new_m.seq()[i]).1.id
            == new_m.seq()[i].0 by {
            if i != j {
                assert(new_m.seq()[i] == old_m.seq()[i]);
            }
        }
    } else {
        assert forall|i: int| 0 <= i < new_m.seq().len() implies (#[trigger] new_m.seq()[i]).1.id
            == new_m.seq()[i].0 by {
            if i < old_m.seq().len() {
                assert(new_m.seq()[i] == old_m.seq()[i]);
            }
        }
    }
}

fn stats_for_one(results: &Vec<PingResult>, endpoint: Endpoint) -> (st: EndpointStats)
    ensures
        st == stats_for(endpoint, results@),
{
    let ghost id_pred = |r: PingResult| r.endpoint_id == endpoint.id;
    let ghost ok_pred = |r: PingResult| r.status;
    let id = endpoint.id;
    let m = results.len();
    let mut k: usize = 0;
    let mut count: u64 = 0;
    let mut succ: u64 = 0;
    let mut lat_sum: u128 = 0;
    let mut last: Option<(bool, u64)> = None;
    while k < m
        invariant
            k <= m,
            m == results@.len(),
            id == endpoint.id,
            count == results_for(results@.take(k as int), id).len(),
            count <= k,
            succ == successes_in(results_for(results@.take(k as int), id)),
            succ <= count,
            lat_sum == latency_total(results_for(results@.take(k as int), id)),
            lat_sum <= count * 0xffff_ffff_ffff_ffff,
            match last {
                None => count == 0,
                Some(p) => count > 0 && p.0 == results_for(results@.take(k as int), id).last().status
                    && p.1 == results_for(results@.take(k as int), id).last().timestamp,
            },
        decreases m - k,
    {
        let r = results[k];
        proof {
            let h = results@;
            let pre = results_for(h.take(k as int), id);
            h.lemma_take_succ_push(k as int);
            h.take(k as int).lemma_filter_push(h[k as int], |r: PingResult| r.endpoint_id == id);
            if h[k as int].endpoint_id == id {
                assert(results_for(h.take(k + 1), id) == pre.push(h[k as int]));
                pre.lemma_filter_push(h[k as int], |r: PingResult| r.status);
                assert(pre.push(h[k as int]).drop_last() =~= pre);
                lemma_latency_total_bound(pre.push(h[k as int]));
            } else {
                assert(results_for(h.take(k + 1), id) == pre);
            }
        }
        if r.endpoint_id == id {
            count = count + 1;
            if r.status {
                succ = succ + 1;
            }
            lat_sum = lat_sum + (r.latency_ms as u128);
            last = Some((r.status, r.timestamp));
        }
        k += 1;
    }
    proof {
        assert(results@.take(m as int) =~= results@);
    }
    let ghost rs = results_for(results@, id);
    let uptime_percentage = UptimeRatio { successes: succ, total: count };
    let avg_latency = if count > 0 {
        proof {
            assert(lat_sum / (count as u128) <= 0xffff_ffff_ffff_ffff) by (nonlinear_arith)
                requires
                    lat_sum <= count * 0xffff_ffff_ffff_ffff,
                    count >= 1,
            ;
        }
        Some((lat_sum / (count as u128)) as u64)
    } else {
        None
    };
    let (last_status, last_ping) = match last {
        None => (None, None),
        Some(p) => (Some(p.0), Some(p.1)),
    };
    EndpointStats { endpoint, last_status, uptime_percentage, last_ping, avg_latency }
}

/// The endpoint registry and probe-result history.
#[derive(Debug)]
pub struct MemoryStorage {
    pub endpoints: IdMap<Endpoint>,
    pub ping_results: Vec<PingResult>,
}

impl MemoryStorage {
    /// Registry entries carry the endpoint's own identifier as their key,
    /// keys are unique, and the history is within its bound.
    pub open spec fn wf(&self) -> bool {
        &&& self.endpoints.wf()
        &&& forall|i: int|
            0 <= i < self.endpoints.seq().len() ==> (#[trigger] self.endpoints.seq()[i]).1.id
                == self.endpoints.seq()[i].0
        &&& self.ping_results@.len() <= 50000
    }

    /// The probe-result history in insertion order.
    pub open spec fn history(&self) -> Seq<PingResult> {
        self.ping_results@
    }

    /// Whether some registry entry carries the identifier.
    pub open spec fn registry_has(&self, k: u128) -> bool {
        exists|i: int| 0 <= i < self.endpoints.seq().len() && self.endpoints.seq()[i].0 == k
    }

    pub fn new() -> (r: Self)
        ensures
            r.wf(),
            r.endpoints@ == Map::<u128, Endpoint>::empty(),
            r.endpoints.seq() == Seq::<(u128, Endpoint)>::empty(),
            r.history() == Seq::<PingResult>::empty(),
    {
        MemoryStorage { endpoints: IdMap::new(), ping_results: Vec::new() }
    }

    /// Inserts or overwrites the registry entry keyed by the endpoint's
    /// identifier; the history is untouched. Always succeeds.
    pub fn add_endpoint(&mut self, endpoint: &Endpoint)
        requires
            old(self).wf(),
        ensures
            final(self).wf(),
            final(self).endpoints@ == old(self).endpoints@.insert(endpoint.id, *endpoint),
            !old(self).endpoints@.contains_key(endpoint.id) ==> final(self).endpoints.seq() == old(
                self,
            ).endpoints.seq().push((endpoint.id, *endpoint)),
            old(self).endpoints@.contains_key(endpoint.id) ==> exists|j: int|
                0 <= j < old(self).endpoints.seq().len() && old(self).endpoints.seq()[j].0
                    == endpoint.id && final(self).endpoints.seq() == old(
                    self,
                ).endpoints.seq().update(j, (endpoint.id, *endpoint)),
            final(self).ping_results == old(self).ping_results,
    {
        let copy = Endpoint { id: endpoint.id, url: endpoint.url.clone() };
        proof {
            assert(copy == *endpoint);
        }
        self.endpoints.insert(endpoint.id, copy);
        proof {
            lemma_insert_keeps_key_id(old(self).endpoints, self.endpoints, endpoint.id, copy);
        }
    }

    /// Registers `url` under a freshly generated identifier, which is
    /// returned; the registry gains (or overwrites, should the fresh
    /// identifier collide) exactly that entry.
    pub fn add_endpoint_url(&mut self, url: String) -> (id: u128)
        requires
            old(self).wf(),
        ensures
            final(self).wf(),
            final(self).endpoints@ == old(self).endpoints@.insert(id, Endpoint { id, url }),
            !old(self).endpoints@.contains_key(id) ==> final(self).endpoints.seq() == old(
                self,
            ).endpoints.seq().push((id, Endpoint { id, url })),
            old(self).endpoints@.contains_key(id) ==> exists|j: int|
                0 <= j < old(self).endpoints.seq().len() && old(self).endpoints.seq()[j].0 == id
                    && final(self).endpoints.seq() == old(self).endpoints.seq().update(
                    j,
                    (id, Endpoint { id, url }),
                ),
            final(self).ping_results == old(self).ping_results,
    {
        let id = fresh_endpoint_id();
        let endpoint = Endpoint { id, url };
        self.endpoints.insert(id, endpoint);
        proof {
            lemma_insert_keeps_key_id(old(self).endpoints, self.endpoints, id, endpoint);
        }
        id
    }

    /// Appends one result; past 50,000 entries the oldest 10,000 are
    /// dropped in one batch (see [`spec_save`]).
    pub fn save_result(&mut self, result: &PingResult)
        requires
            old(self).wf(),
        ensures
            final(self).wf(),
            final(self).endpoints == old(self).endpoints,
            final(self).history() == spec_save(old(self).history(), *result),
    {
        self.ping_results.push(*result);
        let n = self.ping_results.len();
        if n > 50000 {
            let mut kept: Vec<PingResult> = Vec::new();
            let mut i: usize = 10000;
            while i < n
                invariant
                    10000 <= i <= n,
                    n == self.ping_results@.len(),
                    self.ping_results@ == old(self).ping_results@.push(*result),
                    self.endpoints == old(self).endpoints,
                    kept@ == self.ping_results@.subrange(10000, i as int),
                decreases n - i,
            {
                let item = self.ping_results[i];
                kept.push(item);
                proof {
                    assert(kept@ =~= self.ping_results@.subrange(10000, i + 1));
                }
                i += 1;
            }
            self.ping_results = kept;
            proof {
                let p = old(self).ping_results@.push(*result);
                assert(p.subrange(10000, p.len() as int) =~= p.skip(10000));
            }
        }
    }

    /// The summary for every registered endpoint, in registry scan order,
    /// each computed from the entire history (see [`stats_for`]).
    pub fn get_endpoint_stats(&self) -> (r: Vec<EndpointStats>)
        requires
            self.wf(),
        ensures
            r@.len() == self.endpoints.seq().len(),
            forall|i: int|
                0 <= i < r@.len() ==> r@[i] == stats_for(
                    self.endpoints.seq()[i].1,
                    self.history(),
                ),
    {
        let mut stats: Vec<EndpointStats> = Vec::new();
        let n = self.endpoints.len();
        let mut i: usize = 0;
        while i < n
            invariant
                self.wf(),
                i <= n,
                n == self.endpoints.seq().len(),
                stats@.len() == i,
                forall|j: int|
                    0 <= j < i ==> stats@[j] == stats_for(
                        self.endpoints.seq()[j].1,
                        self.history(),
                    ),
            decreases n - i,
        {
            let entry = self.endpoints.entry_at(i);
            let endpoint = Endpoint { id: entry.1.id, url: entry.1.url.clone() };
            proof {
                assert(endpoint == self.endpoints.seq()[i as int].1);
            }
            let st = stats_for_one(&self.ping_results, endpoint);
            stats.push(st);
            i += 1;
        }
        stats
    }

    /// The hourly uptime series for `endpoint_id` over the window of
    /// `hours` hours ending at `now`; see [`uptime_history_spec`]. A
    /// window reaching past the epoch floors there, so an over-wide
    /// window simply covers the whole history.
    pub fn get_uptime_history_at(&self, endpoint_id: u128, hours: u64, now: u64) -> (r: Vec<
        (u64, UptimeRatio),
    >)
        requires
            self.wf(),
        ensures
            r@ == uptime_history_spec(self.history(), endpoint_id, hours, now),
    {
        let since: u64 = if hours <= u64::MAX / 3600 && now >= hours * 3600 {
            now - hours * 3600
        } else {
            0
        };
        proof {
            if hours > u64::MAX / 3600 {
                assert(hours * 3600 > u64::MAX) by (nonlinear_arith)
                    requires
                        hours > u64::MAX as int / 3600,
                ;
            }
        }
        let m = self.ping_results.len();
        let mut f: Vec<PingResult> = Vec::new();
        let mut k: usize = 0;
        while k < m
            invariant
                k <= m,
                m == self.history().len(),
                since == spec_since(now, hours),
                f@ == window_results(self.history().take(k as int), endpoint_id, since as int),
            decreases m - k,
        {
            let r = self.ping_results[k];
            proof {
                let h = self.history();
                h.lemma_take_succ_push(k as int);
                h.take(k as int).lemma_filter_push(
                    h[k as int],
                    |r: PingResult| r.endpoint_id == endpoint_id && r.timestamp >= since as int,
                );
            }
            if r.endpoint_id == endpoint_id && r.timestamp >= since {
                f.push(r);
            }
            k += 1;
        }
        proof {
            assert(self.history().take(m as int) =~= self.history());
        }
        if f.len() == 0 {
            let empty: Vec<(u64, UptimeRatio)> = Vec::new();
            return empty;
        }
        let start_idx: u64 = since / 3600;
        let end_idx: u64 = now / 3600;
        proof {
            assert(start_idx <= end_idx && end_idx * 3600 <= now) by (nonlinear_arith)
                requires
                    since <= now,
                    start_idx == since as int / 3600,
                    end_idx == now as int / 3600,
            ;
        }
        let total_buckets: u64 = end_idx - start_idx + 1;
        let mut out: Vec<(u64, UptimeRatio)> = Vec::new();
        let mut b: u64 = 0;
        while b < total_buckets
            invariant
                b <= total_buckets,
                since == spec_since(now, hours),
                start_idx == since / 3600,
                end_idx == now / 3600,
                end_idx * 3600 <= now,
                total_buckets == end_idx - start_idx + 1,
                f@ == window_results(self.history(), endpoint_id, since as int),
                f@.len() > 0,
                out@.len() == b,
                forall|i: int|
                    0 <= i < b ==> out@[i] == ((((start_idx + i) * 3600) as u64, bucket_uptime(
                        f@,
                        start_idx + i,
                    ))),
            decreases total_buckets - b,
        {
            let hour_idx: u64 = start_idx + b;
            let fl = f.len();
            let mut k2: usize = 0;
            let mut tot: u64 = 0;
            let mut su: u64 = 0;
            while k2 < fl
                invariant
                    k2 <= fl,
                    fl == f@.len(),
                    tot == bucket_results(f@.take(k2 as int), hour_idx as int).len(),
                    tot <= k2,
                    su == successes_in(bucket_results(f@.take(k2 as int), hour_idx as int)),
                    su <= tot,
                decreases fl - k2,
            {
                let r = f[k2];
                proof {
                    let pre = bucket_results(f@.take(k2 as int), hour_idx as int);
                    f@.lemma_take_succ_push(k2 as int);
                    f@.take(k2 as int).lemma_filter_push(
                        f@[k2 as int],
                        |r: PingResult| r.timestamp as int / 3600 == hour_idx as int,
                    );
                    if f@[k2 as int].timestamp as int / 3600 == hour_idx as int {
                        pre.lemma_filter_push(f@[k2 as int], |r: PingResult| r.status);
                    }
                }
                if r.timestamp / 3600 == hour_idx {
                    tot = tot + 1;
                    if r.status {
                        su = su + 1;
                    }
                }
                k2 += 1;
            }
            proof {
                assert(f@.take(fl as int) =~= f@);
                assert(hour_idx * 3600 <= end_idx * 3600);
            }
            let ts: u64 = hour_idx * 3600;
            out.push((ts, UptimeRatio { successes: su, total: tot }));
            b += 1;
        }
        proof {
            assert(out@ =~= uptime_history_spec(self.history(), endpoint_id, hours, now));
        }
        out
    }

    /// The hourly uptime series for `endpoint_id` over the window of
    /// `hours` hours ending now, the clock being read once at the start;
    /// for one fixed reading the series is exactly
    /// [`uptime_history_spec`] of that reading.
    pub fn get_uptime_history(&self, endpoint_id: u128, hours: u64) -> (r: Vec<(u64, UptimeRatio)>)
        requires
            self.wf(),
        ensures
            exists|now: u64| r@ == uptime_history_spec(self.history(), endpoint_id, hours, now),
    {
        let now = crate::clock::unix_now();
        let r = self.get_uptime_history_at(endpoint_id, hours, now);
        proof {
            assert(r@ == uptime_history_spec(self.history(), endpoint_id, hours, now));
        }
        r
    }

    /// Every registered endpoint, in registry scan order.
    pub fn get_all_enpoints(&self) -> (r: Vec<Endpoint>)
        requires
            self.wf(),
        ensures
            r@.len() == self.endpoints.seq().len(),
            forall|i: int| 0 <= i < r@.len() ==> r@[i] == self.endpoints.seq()[i].1,
    {
        let mut out: Vec<Endpoint> = Vec::new();
        let n = self.endpoints.len();
        let mut i: usize = 0;
        while i < n
            invariant
                i <= n,
                self.wf(),
                n == self.endpoints.seq().len(),
                out@.len() == i,
                forall|j: int| 0 <= j < i ==> out@[j] == self.endpoints.seq()[j].1,
            decreases n - i,
        {
            let entry = self.endpoints.entry_at(i);
            let copy = Endpoint { id: entry.1.id, url: entry.1.url.clone() };
            proof {
                assert(copy == self.endpoints.seq()[i as int].1);
            }
            out.push(copy);
            i += 1;
        }
        out
    }
}

} // verus!
