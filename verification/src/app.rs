//! Driver-side state around the store: the log buffer, input modes, the
//! selectable time range, and the derived views refreshed each render cycle
//! (per-endpoint summaries, a chart-ready point series, and a capped,
//! time-ordered block timeline per endpoint).

use vstd::prelude::*;
use crate::idmap::IdMap;
use crate::numfmt::{dec_digits, dec_string};
use crate::ping::PingResult;
use crate::storage::{
    EndpointStats, MemoryStorage, UptimeRatio, stats_for, uptime_history_spec,
};

verus! {

/// Severity of a log event emitted by the probe engine or the driver.
#[derive(Debug, Clone, Copy, PartialEq, Eq, Structural)]
pub enum LogLevel {
    Info,
    Error,
    Success,
    Warning,
}

/// A log event shown in the developer console.
#[derive(Debug, Clone)]
pub struct LogEntry {
    pub timestamp: u64,
    pub level: LogLevel,
    pub message: String,
}

/// One up/down marker of the recent-activity timeline.
#[derive(Debug, Clone, Copy, PartialEq, Eq, Structural)]
pub struct UptimeBlock {
    pub timestamp: u64,
    pub status: bool,
}

/// One chart point: `x_minutes` minutes from the window's left edge (the
/// most recent sample sits at the window's full width), and the uptime
/// ratio as the y value.
#[derive(Debug, Clone, Copy, PartialEq, Eq, Structural)]
pub struct ChartPoint {
    pub x_minutes: u64,
    pub y: UptimeRatio,
}

/// Whether keystrokes feed navigation commands (`Normal`) or the URL-entry
/// buffer (`Adding`).
#[derive(Debug, PartialEq, Eq, Structural)]
pub enum InputMode {
    Normal,
    Adding,
}

/// The selected window governing the chart series and the block timeline.
/// Currently the only variant is a whole number of minutes; consumers go
/// through `display_name` and `get_duration_hours` so that further variants
/// can be added without touching them.
#[derive(Debug, Clone, Copy, PartialEq, Eq, Structural)]
pub enum TimeRange {
    Minutes(u64),
}

/// The window arithmetic of a range stays within `u64`: with `Minutes(n)`,
/// every product the chart and block computations form is at most `n * 60`.
pub open spec fn range_ok(tr: TimeRange) -> bool {
    match tr {
        TimeRange::Minutes(n) => n * 60 <= u64::MAX,
    }
}

impl TimeRange {
    /// A short label for the range, e.g. `"60m"`.
    pub fn display_name(&self) -> (r: String)
        ensures
            r@ == (match *self {
                TimeRange::Minutes(n) => dec_digits(n as int) + "m"@,
            }),
    {
        match self {
            TimeRange::Minutes(n) => dec_string(*n).concat("m"),
        }
    }

    /// The window length in whole hours (truncating division by 60).
    pub fn get_duration_hours(&self) -> (r: Option<u64>)
        ensures
            r == (match *self {
                TimeRange::Minutes(n) => Some((n / 60) as u64),
            }),
    {
        match self {
            TimeRange::Minutes(n) => Some(*n / 60),
        }
    }
}

/// Block timelines are ordered by timestamp.
pub open spec fn sorted_blocks(s: Seq<UptimeBlock>) -> bool {
    forall|i: int, j: int| 0 <= i <= j < s.len() ==> s[i].timestamp <= s[j].timestamp
}

/// Every stored block timeline is sorted and within the 60-entry cap.
pub open spec fn blocks_map_wf(m: IdMap<Vec<UptimeBlock>>) -> bool {
    &&& m.wf()
    &&& forall|k: u128|
        #[trigger] m@.contains_key(k) ==> sorted_blocks(m@[k]@) && m@[k]@.len() <= 60
}

/// The log buffer after appending one entry: past 1,000 entries, the
/// oldest 100 are dropped in one batch.
pub open spec fn spec_add_log(logs: Seq<LogEntry>, e: LogEntry) -> Seq<LogEntry> {
    let p = logs.push(e);
    if p.len() > 1000 {
        p.skip(100)
    } else {
        p
    }
}

/// The blocks a map stores for an endpoint: the empty timeline when the
/// endpoint has none yet.
pub open spec fn blocks_of(m: Map<u128, Vec<UptimeBlock>>, id: u128) -> Seq<UptimeBlock> {
    if m.contains_key(id) {
        m[id]@
    } else {
        Seq::<UptimeBlock>::empty()
    }
}

/// Where the defensive re-sort puts a fresh block: into its position in
/// the already-sorted timeline, after any block with an equal timestamp
/// (the stable order a true arrival sequence gives).
pub open spec fn insert_block_sorted(s: Seq<UptimeBlock>, nb: UptimeBlock) -> Seq<UptimeBlock>
    decreases s.len(),
{
    if s.len() == 0 {
        seq![nb]
    } else if s.last().timestamp <= nb.timestamp {
        s.push(nb)
    } else {
        insert_block_sorted(s.drop_last(), nb).push(s.last())
    }
}

/// The block timeline after one real-time arrival: the new block is
/// appended, the front is trimmed to the 60-entry cap, and the result is
/// kept sorted by timestamp.
pub open spec fn spec_add_block(blocks: Seq<UptimeBlock>, nb: UptimeBlock) -> Seq<UptimeBlock> {
    let excess: int = if blocks.len() + 1 > 60 {
        blocks.len() + 1 - 60
    } else {
        0
    };
    insert_block_sorted(blocks.skip(excess), nb)
}

/// Inserting into a sorted timeline grows it by exactly one, keeps it
/// sorted, and keeps exactly the old blocks plus the new one.
pub proof fn lemma_insert_block_sorted(s: Seq<UptimeBlock>, nb: UptimeBlock)
    requires
        sorted_blocks(s),
    ensures
        insert_block_sorted(s, nb).len() == s.len() + 1,
        sorted_blocks(insert_block_sorted(s, nb)),
        insert_block_sorted(s, nb).to_multiset() == s.to_multiset().insert(nb),
    decreases s.len(),
{
    broadcast use vstd::seq_lib::group_to_multiset_ensures;

    if s.len() == 0 {
        assert(seq![nb] =~= Seq::<UptimeBlock>::empty().push(nb));
        assert(seq![nb].to_multiset() =~= s.to_multiset().insert(nb));
    } else if s.last().timestamp <= nb.timestamp {
        assert forall|i: int, j: int|
            0 <= i <= j < s.push(nb).len() implies s.push(nb)[i].timestamp
            <= s.push(nb)[j].timestamp by {
            if j < s.len() {
            } else {
                assert(s.push(nb)[j] == nb);
                if i < s.len() {
                    assert(s[i].timestamp <= s.last().timestamp);
                }
            }
        }
    } else {
        let dl = s.drop_last();
        assert(sorted_blocks(dl));
        lemma_insert_block_sorted(dl, nb);
        let f = insert_block_sorted(dl, nb);
        let r = f.push(s.last());
        assert forall|i: int, j: int| 0 <= i <= j < r.len() implies r[i].timestamp
            <= r[j].timestamp by {
            if j < f.len() {
            } else {
                assert(r[j] == s.last());
                if i < f.len() {
                    assert(f.contains(f[i]));
                    assert(f.to_multiset().count(f[i]) > 0);
                    assert(dl.to_multiset().insert(nb).count(f[i]) > 0);
                    if f[i] == nb {
                        assert(nb.timestamp <= s.last().timestamp);
                    } else {
                        assert(dl.to_multiset().count(f[i]) > 0);
                        assert(dl.contains(f[i]));
                        let w = choose|w: int| 0 <= w < dl.len() && dl[w] == f[i];
                        assert(s[w].timestamp <= s.last().timestamp);
                    }
                }
            }
        }
        assert(r.to_multiset() =~= s.to_multiset().insert(nb)) by {
            assert(dl.push(s.last()) =~= s);
        }
    }
}

proof fn lemma_insert_block_at(s: Seq<UptimeBlock>, nb: UptimeBlock, pos: int)
    requires
        sorted_blocks(s),
        0 <= pos <= s.len(),
        forall|i: int| pos <= i < s.len() ==> s[i].timestamp > nb.timestamp,
        pos > 0 ==> s[pos - 1].timestamp <= nb.timestamp,
    ensures
        insert_block_sorted(s, nb) == s.subrange(0, pos).push(nb) + s.subrange(
            pos,
            s.len() as int,
        ),
    decreases s.len(),
{
    if s.len() == 0 {
        assert(insert_block_sorted(s, nb) =~= s.subrange(0, 0).push(nb) + s.subrange(0, 0));
    } else if s.last().timestamp <= nb.timestamp {
        assert(pos == s.len());
        assert(s.push(nb) =~= s.subrange(0, pos).push(nb) + s.subrange(pos, s.len() as int));
    } else {
        assert(pos < s.len());
        let dl = s.drop_last();
        assert(sorted_blocks(dl));
        lemma_insert_block_at(dl, nb, pos);
        assert((dl.subrange(0, pos).push(nb) + dl.subrange(pos, dl.len() as int)).push(s.last())
            =~= s.subrange(0, pos).push(nb) + s.subrange(pos, s.len() as int));
    }
}

fn insert_sorted(v: &mut Vec<UptimeBlock>, nb: UptimeBlock)
    requires
        sorted_blocks(old(v)@),
        old(v)@.len() < usize::MAX,
    ensures
        final(v)@ == insert_block_sorted(old(v)@, nb),
{
    let n = v.len();
    let mut pos: usize = n;
    while pos > 0 && v[pos - 1].timestamp > nb.timestamp
        invariant
            pos <= n,
            n == v@.len(),
            v@ == old(v)@,
            forall|i: int| pos <= i < n ==> v@[i].timestamp > nb.timestamp,
        decreases pos,
    {
        pos -= 1;
    }
    proof {
        lemma_insert_block_at(v@, nb, pos as int);
    }
    v.insert(pos, nb);
}

/// Whether a result's timestamp lies in the minute window ending at
/// `now`: at or after the window start (floored at the epoch), not in the
/// future, and strictly less than the window's full span of minutes ago.
pub open spec fn in_minute_window(ts: u64, minutes: u64, now: u64) -> bool {
    let start_time: int = if now >= minutes * 60 {
        now - minutes * 60
    } else {
        0
    };
    ts >= start_time && ts <= now && (now - ts) / 60 < minutes
}

/// The raw in-window markers for an endpoint: one per stored result of
/// that endpoint whose timestamp lies in the minute window, each carrying
/// that result's own status, in insertion order.
pub open spec fn raw_window_blocks(h: Seq<PingResult>, id: u128, minutes: u64, now: u64) -> Seq<
    UptimeBlock,
> {
    h.filter(
        |r: PingResult| r.endpoint_id == id && in_minute_window(r.timestamp, minutes, now),
    ).map_values(|r: PingResult| UptimeBlock { timestamp: r.timestamp, status: r.status })
}

/// Stable sort by timestamp: each block goes in after any earlier block
/// with an equal timestamp, so results that arrived in order stay in
/// order.
pub open spec fn sort_blocks_stable(s: Seq<UptimeBlock>) -> Seq<UptimeBlock>
    decreases s.len(),
{
    if s.len() == 0 {
        Seq::<UptimeBlock>::empty()
    } else {
        insert_block_sorted(sort_blocks_stable(s.drop_last()), s.last())
    }
}

/// The backfilled timeline for an endpoint first observed without one:
/// one block per raw stored result of the endpoint inside the active
/// minute window, each carrying that result's own status, sorted by
/// timestamp, and trimmed from the front to the 60-entry cap.
pub open spec fn minute_blocks_spec(h: Seq<PingResult>, id: u128, minutes: u64, now: u64) -> Seq<
    UptimeBlock,
> {
    let sorted = sort_blocks_stable(raw_window_blocks(h, id, minutes, now));
    if sorted.len() > 60 {
        sorted.skip(sorted.len() - 60)
    } else {
        sorted
    }
}

/// The x position, in minutes from the window's left edge, of a sample
/// taken at `ts`: the most recent sample sits at the window's full width,
/// and anything older than the window is clamped to the left edge.
pub open spec fn chart_point_of(p: (u64, UptimeRatio), hours: u64, now: u64) -> ChartPoint {
    let minutes_ago: int = if now >= p.0 {
        (now - p.0) / 60
    } else {
        0
    };
    let span_min: int = hours * 60;
    ChartPoint {
        x_minutes: (if minutes_ago <= span_min {
            span_min - minutes_ago
        } else {
            0
        }) as u64,
        y: p.1,
    }
}

/// The chart series for one endpoint: one point per hourly sample, or a
/// flat two-point zero series when there are no samples at all, so the
/// chart always has a renderable domain.
pub open spec fn chart_points_of(hist: Seq<(u64, UptimeRatio)>, hours: u64, now: u64) -> Seq<
    ChartPoint,
> {
    if hist.len() == 0 {
        seq![
            ChartPoint { x_minutes: 0, y: UptimeRatio { successes: 0, total: 0 } },
            ChartPoint {
                x_minutes: (hours * 60) as u64,
                y: UptimeRatio { successes: 0, total: 0 },
            },
        ]
    } else {
        hist.map_values(|p: (u64, UptimeRatio)| chart_point_of(p, hours, now))
    }
}

/// The chart series computed from the stored history.
pub open spec fn chart_points_spec(h: Seq<PingResult>, id: u128, hours: u64, now: u64) -> Seq<
    ChartPoint,
> {
    chart_points_of(uptime_history_spec(h, id, hours, now), hours, now)
}

fn chart_points_from(history: &Vec<(u64, UptimeRatio)>, hours: u64, now: u64) -> (r: Vec<
    ChartPoint,
>)
    requires
        hours * 60 <= u64::MAX,
    ensures
        r@ == chart_points_of(history@, hours, now),
{
    let span_min: u64 = hours * 60;
    let mut out: Vec<ChartPoint> = Vec::new();
    let hl = history.len();
    if hl == 0 {
        out.push(ChartPoint { x_minutes: 0, y: UptimeRatio { successes: 0, total: 0 } });
        out.push(ChartPoint { x_minutes: span_min, y: UptimeRatio { successes: 0, total: 0 } });
        proof {
            assert(out@ =~= chart_points_of(history@, hours, now));
        }
        return out;
    }
    let mut k: usize = 0;
    while k < hl
        invariant
            k <= hl,
            hl == history@.len(),
            span_min == hours * 60,
            out@ == history@.take(k as int).map_values(
                |p: (u64, UptimeRatio)| chart_point_of(p, hours, now),
            ),
        decreases hl - k,
    {
        let p = history[k];
        let minutes_ago: u64 = if now >= p.0 {
            (now - p.0) / 60
        } else {
            0
        };
        let x: u64 = if minutes_ago <= span_min {
            span_min - minutes_ago
        } else {
            0
        };
        out.push(ChartPoint { x_minutes: x, y: p.1 });
        proof {
            assert(out@ =~= history@.take(k + 1).map_values(
                |p: (u64, UptimeRatio)| chart_point_of(p, hours, now),
            ));
        }
        k += 1;
    }
    proof {
        assert(history@.take(hl as int) =~= history@);
    }
    out
}

/// The minute length of a range.
pub open spec fn range_minutes(tr: TimeRange) -> u64 {
    match tr {
        TimeRange::Minutes(n) => n,
    }
}

/// Driver-side state refreshed once per render cycle.
#[derive(Debug)]
pub struct App {
    pub endpoints_stats: Vec<EndpointStats>,
    pub selected_endpoint: usize,
    pub input_mode: InputMode,
    pub uptime_history: IdMap<Vec<ChartPoint>>,
    pub uptime_blocks: IdMap<Vec<UptimeBlock>>,
    pub developer_mode: bool,
    pub logs: Vec<LogEntry>,
    pub log_scroll: usize,
    pub time_ranges: Vec<TimeRange>,
    pub selected_time_range: usize,
}

impl App {
    /// A time range is selected, every offered range keeps the window
    /// arithmetic in bounds, and the block timelines are sorted and capped
    /// at 60 entries.
    pub open spec fn wf(&self) -> bool {
        &&& self.uptime_history.wf()
        &&& blocks_map_wf(self.uptime_blocks)
        &&& self.selected_time_range < self.time_ranges@.len()
        &&& forall|i: int| 0 <= i < self.time_ranges@.len() ==> range_ok(#[trigger] self.time_ranges@[i])
    }

    /// The currently selected range's length in minutes.
    pub open spec fn active_minutes(&self) -> u64 {
        match self.time_ranges@[self.selected_time_range as int] {
            TimeRange::Minutes(n) => n,
        }
    }

    pub fn new() -> (r: Self)
        ensures
            r.wf(),
            r.endpoints_stats@ == Seq::<EndpointStats>::empty(),
            r.selected_endpoint == 0,
            r.input_mode == InputMode::Normal,
            r.uptime_history@ == Map::<u128, Vec<ChartPoint>>::empty(),
            r.uptime_blocks@ == Map::<u128, Vec<UptimeBlock>>::empty(),
            !r.developer_mode,
            r.logs@ == Seq::<LogEntry>::empty(),
            r.log_scroll == 0,
            r.time_ranges@ == seq![TimeRange::Minutes(60)],
            r.selected_time_range == 0,
    {
        let mut time_ranges: Vec<TimeRange> = Vec::new();
        time_ranges.push(TimeRange::Minutes(60));
        proof {
            assert(time_ranges@ =~= seq![TimeRange::Minutes(60)]);
        }
        App {
            endpoints_stats: Vec::new(),
            selected_endpoint: 0,
            input_mode: InputMode::Normal,
            uptime_history: IdMap::new(),
            uptime_blocks: IdMap::new(),
            developer_mode: false,
            logs: Vec::new(),
            log_scroll: 0,
            time_ranges,
            selected_time_range: 0,
        }
    }

    /// Appends a log entry stamped `now`; past 1,000 entries the oldest
    /// 100 are dropped in one batch (see [`spec_add_log`]).
    pub fn add_log(&mut self, level: LogLevel, message: String, now: u64)
        ensures
            final(self).logs@ == spec_add_log(
                old(self).logs@,
                LogEntry { timestamp: now, level, message },
            ),
            *final(self) == (App { logs: final(self).logs, ..*old(self) }),
    {
        self.logs.push(LogEntry { timestamp: now, level, message });
        let n = self.logs.len();
        if n > 1000 {
            let mut kept: Vec<LogEntry> = Vec::new();
            let mut i: usize = 100;
            while i < n
                invariant
                    100 <= i <= n,
                    n == self.logs@.len(),
                    *self == (App { logs: self.logs, ..*old(self) }),
                    self.logs@ == old(self).logs@.push(
                        LogEntry { timestamp: now, level, message },
                    ),
                    kept@ == self.logs@.subrange(100, i as int),
                decreases n - i,
            {
                let src = &self.logs[i];
                let copy = LogEntry {
                    timestamp: src.timestamp,
                    level: src.level,
                    message: src.message.clone(),
                };
                proof {
                    assert(copy == self.logs@[i as int]);
                }
                kept.push(copy);
                proof {
                    assert(kept@ =~= self.logs@.subrange(100, i + 1));
                }
                i += 1;
            }
            self.logs = kept;
            proof {
                let p = old(self).logs@.push(LogEntry { timestamp: now, level, message });
                assert(p.subrange(100, p.len() as int) =~= p.skip(100));
            }
        }
    }

    /// Switches between the main view and the developer console, resetting
    /// the log scroll position.
    pub fn toggle_developer_mode(&mut self)
        ensures
            final(self).developer_mode == !old(self).developer_mode,
            final(self).log_scroll == 0,
            *final(self) == (App {
                developer_mode: final(self).developer_mode,
                log_scroll: 0,
                ..*old(self)
            }),
    {
        self.developer_mode = !self.developer_mode;
        self.log_scroll = 0;
    }

    /// Scrolls the log view one line up, stopping at the top.
    pub fn scroll_logs_up(&mut self)
        ensures
            final(self).log_scroll == if old(self).log_scroll > 0 {
                old(self).log_scroll - 1
            } else {
                0int
            },
            *final(self) == (App { log_scroll: final(self).log_scroll, ..*old(self) }),
    {
        if self.log_scroll > 0 {
            self.log_scroll = self.log_scroll - 1;
        }
    }

    /// Scrolls the log view one line down, stopping at the last line.
    pub fn scroll_logs_down(&mut self)
        ensures
            final(self).log_scroll == if old(self).log_scroll + 1 < old(self).logs@.len() {
                old(self).log_scroll + 1
            } else {
                old(self).log_scroll as int
            },
            *final(self) == (App { log_scroll: final(self).log_scroll, ..*old(self) }),
    {
        let len = self.logs.len();
        if self.log_scroll < usize::MAX && self.log_scroll + 1 < len {
            self.log_scroll = self.log_scroll + 1;
        }
    }

    /// Appends one up/down marker for an endpoint as its probe result
    /// arrives: the new block is stamped `now`, the timeline is trimmed
    /// from the front to the 60-entry cap, and it is re-sorted by
    /// timestamp, defensively against out-of-order arrival (see
    /// [`spec_add_block`]). Other endpoints' timelines are untouched.
    pub fn add_realtime_block(&mut self, endpoint_id: u128, status: bool, now: u64)
        requires
            old(self).wf(),
        ensures
            final(self).wf(),
            final(self).uptime_blocks@.contains_key(endpoint_id),
            final(self).uptime_blocks@[endpoint_id]@ == spec_add_block(
                blocks_of(old(self).uptime_blocks@, endpoint_id),
                UptimeBlock { timestamp: now, status },
            ),
            forall|k: u128|
                k != endpoint_id ==> ((#[trigger] final(self).uptime_blocks@.contains_key(k)
                    <==> old(self).uptime_blocks@.contains_key(k)) && (old(self).uptime_blocks@.contains_key(k) ==> final(self).uptime_blocks@[k] == old(self).uptime_blocks@[k])),
            *final(self) == (App { uptime_blocks: final(self).uptime_blocks, ..*old(self) }),
    {
        let nb = UptimeBlock { timestamp: now, status };
        let ghost base = blocks_of(self.uptime_blocks@, endpoint_id);
        let ghost excess_spec: int = if base.len() + 1 > 60 {
            base.len() + 1 - 60
        } else {
            0
        };
        let mut nv: Vec<UptimeBlock> = Vec::new();
        match self.uptime_blocks.get(endpoint_id) {
            None => {
                proof {
                    assert(nv@ =~= base.skip(excess_spec));
                }
            },
            Some(bs) => {
                let len = bs.len();
                let excess: usize = if len + 1 > 60 {
                    len + 1 - 60
                } else {
                    0
                };
                let mut k: usize = excess;
                while k < len
                    invariant
                        excess <= k <= len,
                        len == bs@.len(),
                        excess == excess_spec,
                        base == bs@,
                        nv@ == bs@.subrange(excess as int, k as int),
                    decreases len - k,
                {
                    let item = bs[k];
                    nv.push(item);
                    proof {
                        assert(nv@ =~= bs@.subrange(excess as int, k + 1));
                    }
                    k += 1;
                }
                proof {
                    assert(nv@ =~= base.skip(excess_spec));
                }
            },
        }
        proof {
            assert(sorted_blocks(nv@));
            lemma_insert_block_sorted(nv@, nb);
        }
        insert_sorted(&mut nv, nb);
        self.uptime_blocks.insert(endpoint_id, nv);
    }

    /// The timeline re-derived from the stored history for an endpoint
    /// observed without one: one block per raw result inside the active
    /// minute window, carrying that result's own status, sorted by
    /// timestamp and capped at 60 entries (see [`minute_blocks_spec`]).
    fn generate_minute_blocks(
        &self,
        storage: &MemoryStorage,
        endpoint_id: u128,
        minutes: u64,
        now: u64,
    ) -> (r: Vec<UptimeBlock>)
        requires
            minutes * 60 <= u64::MAX,
        ensures
            r@ == minute_blocks_spec(storage.history(), endpoint_id, minutes, now),
            sorted_blocks(r@),
            r@.len() <= 60,
    {
        let span: u64 = minutes * 60;
        let start_time: u64 = if now >= span {
            now - span
        } else {
            0
        };
        let results = &storage.ping_results;
        let m = results.len();
        let mut sorted: Vec<UptimeBlock> = Vec::new();
        let mut k: usize = 0;
        while k < m
            invariant
                k <= m,
                m == results@.len(),
                span == minutes * 60,
                start_time == if now >= span {
                    now - span
                } else {
                    0int
                },
                sorted@ == sort_blocks_stable(
                    raw_window_blocks(results@.take(k as int), endpoint_id, minutes, now),
                ),
                sorted_blocks(sorted@),
                sorted@.len() <= k,
            decreases m - k,
        {
            let r = results[k];
            proof {
                let h = results@;
                let pre = raw_window_blocks(h.take(k as int), endpoint_id, minutes, now);
                h.lemma_take_succ_push(k as int);
                h.take(k as int).lemma_filter_push(
                    h[k as int],
                    |r: PingResult| r.endpoint_id == endpoint_id && in_minute_window(
                        r.timestamp,
                        minutes,
                        now,
                    ),
                );
                if h[k as int].endpoint_id == endpoint_id && in_minute_window(
                    h[k as int].timestamp,
                    minutes,
                    now,
                ) {
                    let nb = UptimeBlock {
                        timestamp: h[k as int].timestamp,
                        status: h[k as int].status,
                    };
                    assert(raw_window_blocks(h.take(k + 1), endpoint_id, minutes, now) =~= pre.push(
                        nb,
                    ));
                    assert(pre.push(nb).drop_last() =~= pre);
                    lemma_insert_block_sorted(sorted@, nb);
                } else {
                    assert(raw_window_blocks(h.take(k + 1), endpoint_id, minutes, now) =~= pre);
                }
            }
            if r.endpoint_id == endpoint_id && r.timestamp >= start_time && r.timestamp <= now && (
            now - r.timestamp) / 60 < minutes {
                let nb = UptimeBlock { timestamp: r.timestamp, status: r.status };
                insert_sorted(&mut sorted, nb);
            }
            k += 1;
        }
        proof {
            assert(results@.take(m as int) =~= results@);
        }
        let n = sorted.len();
        if n > 60 {
            let ghost full = sorted@;
            let mut kept: Vec<UptimeBlock> = Vec::new();
            let mut i: usize = n - 60;
            while i < n
                invariant
                    n - 60 <= i <= n,
                    n == sorted@.len(),
                    n > 60,
                    sorted@ == full,
                    kept@ == full.subrange(n - 60, i as int),
                decreases n - i,
            {
                let item = sorted[i];
                kept.push(item);
                proof {
                    assert(kept@ =~= full.subrange(n - 60, i + 1));
                }
                i += 1;
            }
            proof {
                assert(full.subrange(n - 60, n as int) =~= full.skip(n - 60));
                assert forall|a: int, b: int|
                    0 <= a <= b < kept@.len() implies kept@[a].timestamp
                    <= kept@[b].timestamp by {
                    assert(kept@[a] == full[a + n - 60] && kept@[b] == full[b + n - 60]);
                }
            }
            kept
        } else {
            sorted
        }
    }

    /// Replaces the timeline stored for `endpoint_id` with the backfilled
    /// one for the given range.
    fn update_uptime_blocks(
        &mut self,
        storage: &MemoryStorage,
        endpoint_id: u128,
        time_range: &TimeRange,
        now: u64,
    )
        requires
            blocks_map_wf(old(self).uptime_blocks),
            range_ok(*time_range),
        ensures
            blocks_map_wf(final(self).uptime_blocks),
            final(self).uptime_blocks@.contains_key(endpoint_id),
            final(self).uptime_blocks@[endpoint_id]@ == minute_blocks_spec(
                storage.history(),
                endpoint_id,
                range_minutes(*time_range),
                now,
            ),
            forall|k: u128|
                k != endpoint_id ==> ((#[trigger] final(self).uptime_blocks@.contains_key(k)
                    <==> old(self).uptime_blocks@.contains_key(k)) && (old(self).uptime_blocks@.contains_key(k) ==> final(self).uptime_blocks@[k] == old(self).uptime_blocks@[k])),
            *final(self) == (App { uptime_blocks: final(self).uptime_blocks, ..*old(self) }),
    {
        let blocks = match time_range {
            TimeRange::Minutes(minutes) => self.generate_minute_blocks(
                storage,
                endpoint_id,
                *minutes,
                now,
            ),
        };
        self.uptime_blocks.insert(endpoint_id, blocks);
    }

    /// The currently selected time range.
    pub fn get_current_time_range(&self) -> (r: &TimeRange)
        requires
            self.wf(),
        ensures
            *r == self.time_ranges@[self.selected_time_range as int],
    {
        &self.time_ranges[self.selected_time_range]
    }

    /// Refreshes every derived view from the store, the clock reading
    /// `now` fixed for the whole cycle: the per-endpoint summaries are
    /// recomputed from the entire history; each registered endpoint's
    /// chart series is recomputed over the active range; and any endpoint
    /// without a block timeline yet has one backfilled from the stored
    /// history, while endpoints already observed keep theirs. Nothing else
    /// of the state, and no other endpoint's entries, change.
    pub fn update_stats(&mut self, storage: &MemoryStorage, now: u64)
        requires
            old(self).wf(),
            storage.wf(),
        ensures
            final(self).wf(),
            final(self).endpoints_stats@.len() == storage.endpoints.seq().len(),
            forall|i: int|
                0 <= i < storage.endpoints.seq().len() ==> final(self).endpoints_stats@[i]
                    == stats_for(storage.endpoints.seq()[i].1, storage.history()),
            forall|i: int|
                0 <= i < storage.endpoints.seq().len() ==> {
                    let id = (#[trigger] storage.endpoints.seq()[i]).0;
                    final(self).uptime_history@.contains_key(id) && final(self).uptime_history@[id]@ == chart_points_spec(
                        storage.history(),
                        id,
                        (old(self).active_minutes() / 60) as u64,
                        now,
                    )
                },
            forall|i: int|
                0 <= i < storage.endpoints.seq().len() ==> {
                    let id = (#[trigger] storage.endpoints.seq()[i]).0;
                    (old(self).uptime_blocks@.contains_key(id) ==> final(self).uptime_blocks@.contains_key(id) && final(self).uptime_blocks@[id] == old(self).uptime_blocks@[id]) && (!old(self).uptime_blocks@.contains_key(id) ==> final(self).uptime_blocks@.contains_key(id) && final(self).uptime_blocks@[id]@
                        == minute_blocks_spec(
                        storage.history(),
                        id,
                        old(self).active_minutes(),
                        now,
                    ))
                },
            forall|k: u128|
                !storage.registry_has(k) ==> ((#[trigger] final(self).uptime_history@.contains_key(k) <==> old(self).uptime_history@.contains_key(k))
                    && (old(self).uptime_history@.contains_key(k) ==> final(self).uptime_history@[k] == old(self).uptime_history@[k])),
            forall|k: u128|
                !storage.registry_has(k) ==> ((#[trigger] final(self).uptime_blocks@.contains_key(k) <==> old(self).uptime_blocks@.contains_key(k)) && (
                old(self).uptime_blocks@.contains_key(k) ==> final(self).uptime_blocks@[k] == old(self).uptime_blocks@[k])),
            *final(self) == (App {
                endpoints_stats: final(self).endpoints_stats,
                uptime_history: final(self).uptime_history,
                uptime_blocks: final(self).uptime_blocks,
                ..*old(self)
            }),
    {
        let stats = storage.get_endpoint_stats();
        self.endpoints_stats = stats;
        let minutes: u64 = match self.get_current_time_range() {
            TimeRange::Minutes(n) => *n,
        };
        let hours: u64 = match self.get_current_time_range().get_duration_hours() {
            Some(h) => h,
            None => 24,
        };
        proof {
            assert(hours * 3600 <= minutes * 60) by (nonlinear_arith)
                requires
                    hours == minutes as int / 60,
                    minutes >= 0,
            ;
        }
        let n = storage.endpoints.len();
        let mut i: usize = 0;
        while i < n
            invariant
                i <= n,
                n == storage.endpoints.seq().len(),
                storage.wf(),
                minutes == old(self).active_minutes(),
                hours == old(self).active_minutes() as int / 60,
                range_ok(TimeRange::Minutes(minutes)),
                hours * 3600 <= u64::MAX,
                hours * 60 <= u64::MAX,
                self.endpoints_stats@.len() == n,
                forall|j: int|
                    0 <= j < n ==> self.endpoints_stats@[j] == stats_for(
                        storage.endpoints.seq()[j].1,
                        storage.history(),
                    ),
                self.uptime_history.wf(),
                blocks_map_wf(self.uptime_blocks),
                forall|j: int|
                    0 <= j < i ==> {
                        let id = (#[trigger] storage.endpoints.seq()[j]).0;
                        self.uptime_history@.contains_key(id) && self.uptime_history@[id]@
                            == chart_points_spec(
                            storage.history(),
                            id,
                            (old(self).active_minutes() / 60) as u64,
                            now,
                        )
                    },
                forall|j: int|
                    0 <= j < i ==> {
                        let id = (#[trigger] storage.endpoints.seq()[j]).0;
                        (old(self).uptime_blocks@.contains_key(id) ==> self
                            .uptime_blocks@.contains_key(id) && self.uptime_blocks@[id] == old(self).uptime_blocks@[id]) && (!old(self).uptime_blocks@.contains_key(id)
                            ==> self.uptime_blocks@.contains_key(id) && self.uptime_blocks@[id]@
                            == minute_blocks_spec(
                            storage.history(),
                            id,
                            old(self).active_minutes(),
                            now,
                        ))
                    },
                forall|k: u128|
                    (forall|j: int| 0 <= j < i ==> (#[trigger] storage.endpoints.seq()[j]).0 != k)
                        ==> ((#[trigger] self.uptime_history@.contains_key(k) <==> old(self).uptime_history@.contains_key(k)) && (old(self).uptime_history@.contains_key(
                        k,
                    ) ==> self.uptime_history@[k] == old(self).uptime_history@[k])),
                forall|k: u128|
                    (forall|j: int| 0 <= j < i ==> (#[trigger] storage.endpoints.seq()[j]).0 != k)
                        ==> ((#[trigger] self.uptime_blocks@.contains_key(k) <==> old(self).uptime_blocks@.contains_key(k)) && (old(self).uptime_blocks@.contains_key(k)
                        ==> self.uptime_blocks@[k] == old(self).uptime_blocks@[k])),
                *self == (App {
                    endpoints_stats: self.endpoints_stats,
                    uptime_history: self.uptime_history,
                    uptime_blocks: self.uptime_blocks,
                    ..*old(self)
                }),
            decreases n - i,
        {
            let ghost pre = *self;
            let id = storage.endpoints.entry_at(i).0;
            proof {
                assert forall|j: int| 0 <= j < i implies (#[trigger] storage.endpoints.seq()[j]).0
                    != id by {
                    assert(crate::idmap::entries_unique(storage.endpoints.seq()));
                }
            }
            let history = storage.get_uptime_history_at(id, hours, now);
            let chart = chart_points_from(&history, hours, now);
            self.uptime_history.insert(id, chart);
            let had_blocks = self.uptime_blocks.contains_key(id);
            if !had_blocks {
                let range = TimeRange::Minutes(minutes);
                self.update_uptime_blocks(storage, id, &range, now);
            }
            proof {
                let ids = storage.endpoints.seq();
                assert((pre.uptime_blocks@.contains_key(id) <==> old(
                    self,
                ).uptime_blocks@.contains_key(id)) && (old(self).uptime_blocks@.contains_key(id)
                    ==> pre.uptime_blocks@[id] == old(self).uptime_blocks@[id]));
                if had_blocks {
                    assert(self.uptime_blocks@ == pre.uptime_blocks@);
                } else {
                    assert(!old(self).uptime_blocks@.contains_key(id));
                    assert(self.uptime_blocks@.contains_key(id) && self.uptime_blocks@[id]@
                        == minute_blocks_spec(storage.history(), id, minutes, now));
                }
                assert forall|j: int| 0 <= j <= i implies {
                    let id2 = (#[trigger] ids[j]).0;
                    (old(self).uptime_blocks@.contains_key(id2) ==> self
                        .uptime_blocks@.contains_key(id2) && self.uptime_blocks@[id2] == old(
                        self,
                    ).uptime_blocks@[id2]) && (!old(self).uptime_blocks@.contains_key(id2)
                        ==> self.uptime_blocks@.contains_key(id2) && self.uptime_blocks@[id2]@
                        == minute_blocks_spec(
                        storage.history(),
                        id2,
                        old(self).active_minutes(),
                        now,
                    ))
                } by {
                    let id2 = ids[j].0;
                    if j < i {
                        assert(id2 != id);
                        assert((old(self).uptime_blocks@.contains_key(id2)
                            ==> pre.uptime_blocks@.contains_key(id2) && pre.uptime_blocks@[id2]
                            == old(self).uptime_blocks@[id2]) && (!old(
                            self,
                        ).uptime_blocks@.contains_key(id2) ==> pre.uptime_blocks@.contains_key(id2)
                            && pre.uptime_blocks@[id2]@ == minute_blocks_spec(
                            storage.history(),
                            id2,
                            old(self).active_minutes(),
                            now,
                        )));
                        assert(self.uptime_blocks@.contains_key(id2)
                            <==> pre.uptime_blocks@.contains_key(id2));
                        assert(pre.uptime_blocks@.contains_key(id2) ==> self.uptime_blocks@[id2]
                            == pre.uptime_blocks@[id2]);
                    }
                }
                assert forall|k: u128|
                    (forall|j: int| 0 <= j < i + 1 ==> (#[trigger] ids[j]).0 != k) implies ((
                self.uptime_blocks@.contains_key(k) <==> old(self).uptime_blocks@.contains_key(k))
                    && (old(self).uptime_blocks@.contains_key(k) ==> self.uptime_blocks@[k] == old(
                    self,
                ).uptime_blocks@[k])) by {
                    assert(ids[i as int].0 != k);
                    assert(forall|j: int| 0 <= j < i ==> (#[trigger] ids[j]).0 != k);
                }
                assert forall|k: u128|
                    (forall|j: int| 0 <= j < i + 1 ==> (#[trigger] ids[j]).0 != k) implies ((
                self.uptime_history@.contains_key(k) <==> old(self).uptime_history@.contains_key(
                    k,
                )) && (old(self).uptime_history@.contains_key(k) ==> self.uptime_history@[k]
                    == old(self).uptime_history@[k])) by {
                    assert(ids[i as int].0 != k);
                    assert(forall|j: int| 0 <= j < i ==> (#[trigger] ids[j]).0 != k);
                    assert(self.uptime_history@.contains_key(k)
                        <==> pre.uptime_history@.contains_key(k));
                    assert(pre.uptime_history@.contains_key(k) ==> self.uptime_history@[k]
                        == pre.uptime_history@[k]);
                }
            }
            i += 1;
        }
        proof {
            let ids = storage.endpoints.seq();
            assert forall|k: u128| !storage.registry_has(k) implies ((
            self.uptime_history@.contains_key(k) <==> old(self).uptime_history@.contains_key(k))
                && (old(self).uptime_history@.contains_key(k) ==> self.uptime_history@[k] == old(
                self,
            ).uptime_history@[k])) by {
                assert forall|j: int| 0 <= j < n implies (#[trigger] ids[j]).0 != k by {
                    if ids[j].0 == k {
                        assert(storage.registry_has(k));
                    }
                }
            }
            assert forall|k: u128| !storage.registry_has(k) implies ((
            self.uptime_blocks@.contains_key(k) <==> old(self).uptime_blocks@.contains_key(k)) && (
            old(self).uptime_blocks@.contains_key(k) ==> self.uptime_blocks@[k] == old(
                self,
            ).uptime_blocks@[k])) by {
                assert forall|j: int| 0 <= j < n implies (#[trigger] ids[j]).0 != k by {
                    if ids[j].0 == k {
                        assert(storage.registry_has(k));
                    }
                }
            }
        }
    }

    /// Selects the next endpoint, wrapping around; with no endpoints the
    /// selection stays.
    pub fn next_endpoint(&mut self)
        requires
            old(self).selected_endpoint < usize::MAX,
        ensures
            final(self).selected_endpoint == if old(self).endpoints_stats@.len() == 0 {
                old(self).selected_endpoint as int
            } else {
                (old(self).selected_endpoint + 1) % (old(self).endpoints_stats@.len() as int)
            },
            *final(self) == (App { selected_endpoint: final(self).selected_endpoint, ..*old(self) }),
    {
        if !self.endpoints_stats.is_empty() {
            self.selected_endpoint = (self.selected_endpoint + 1) % self.endpoints_stats.len();
        }
    }

    /// Selects the previous endpoint, wrapping around; with no endpoints
    /// the selection stays.
    pub fn previous_endpoint(&mut self)
        ensures
            final(self).selected_endpoint == if old(self).endpoints_stats@.len() == 0 {
                old(self).selected_endpoint as int
            } else if old(self).selected_endpoint == 0 {
                old(self).endpoints_stats@.len() - 1
            } else {
                old(self).selected_endpoint - 1
            },
            *final(self) == (App { selected_endpoint: final(self).selected_endpoint, ..*old(self) }),
    {
        if !self.endpoints_stats.is_empty() {
            self.selected_endpoint = if self.selected_endpoint == 0 {
                self.endpoints_stats.len() - 1
            } else {
                self.selected_endpoint - 1
            };
        }
    }
}

} // verus!
