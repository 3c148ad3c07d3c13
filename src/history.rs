//! The history store: raw points plus minute and quarter-hour buckets, each
//! series pruned to its own retention window.
use crate::clock::now_secs;
use crate::model::{
    copy_groups, same_point, valid_percent, HistoryPoint, HistoryQuery, HistoryResponse, SystemStats,
    TempGroup,
};
use vstd::string::StringExecFns;
use std::collections::VecDeque;
use vstd::arithmetic::div_mod::{
    lemma_div_is_ordered, lemma_div_multiples_vanish, lemma_fundamental_div_mod,
    lemma_fundamental_div_mod_converse,
};
use vstd::arithmetic::mul::lemma_mul_inequality;
use vstd::prelude::*;

verus! {

pub const RAW_RETENTION_SECS: i64 = 300;
pub const DAY_BUCKET_SECS: i64 = 60;
pub const WEEK_BUCKET_SECS: i64 = 900;
pub const DAY_RETENTION_SECS: i64 = 86400;
pub const WEEK_RETENTION_SECS: i64 = 604800;

/// The start of the slot of `period` seconds that holds `t`: `t` floor-divided
/// by the period and multiplied back. Where that start would fall below the
/// range of `i64`, `t` stands for itself.
pub open spec fn bucket_start(t: i64, period: i64) -> int {
    if t - t % period >= i64::MIN {
        t - t % period
    } else {
        t as int
    }
}

/// Which series a query reads.
#[derive(Debug, Clone, Copy, PartialEq, Eq)]
pub enum Resolution {
    Raw,
    Day,
    Week,
}

impl Resolution {
    /// The series named by a range tag.
    pub open spec fn from_tag_spec(tag: Option<Seq<char>>) -> Resolution {
        match tag {
            Some(t) => if t == seq!['r', 'a', 'w'] {
                Resolution::Raw
            } else if t == seq!['w', 'e', 'e', 'k'] {
                Resolution::Week
            } else {
                Resolution::Day
            },
            None => Resolution::Day,
        }
    }

    /// The series named by a query's range tag: `raw`, `week`, and the day
    /// series for anything else or for no tag at all.
    pub fn from_tag(tag: Option<&str>) -> (r: Resolution)
        ensures
            r == Self::from_tag_spec(
                match tag {
                    Some(t) => Some(t@),
                    None => None,
                },
            ),
    {
        proof {
            reveal_strlit("raw");
            reveal_strlit("week");
            assert("raw"@ =~= seq!['r', 'a', 'w']);
            assert("week"@ =~= seq!['w', 'e', 'e', 'k']);
        }
        match tag {
            Some(t) => {
                if crate::text::str_eq(t, "raw") {
                    Resolution::Raw
                } else if crate::text::str_eq(t, "week") {
                    Resolution::Week
                } else {
                    Resolution::Day
                }
            },
            None => Resolution::Day,
        }
    }
}

/// The running totals of one bucket, as mathematical values.
pub struct BucketView {
    pub start: int,
    pub count: nat,
    pub cpu_sum: int,
    pub freq_sum: int,
    pub temp_sum: int,
    pub temp_count: nat,
    pub mem_sum: int,
    pub disk_sum: int,
    pub temperatures: Seq<TempGroup>,
}

impl BucketView {
    pub open spec fn empty(start: int) -> BucketView {
        BucketView {
            start,
            count: 0,
            cpu_sum: 0,
            freq_sum: 0,
            temp_sum: 0,
            temp_count: 0,
            mem_sum: 0,
            disk_sum: 0,
            temperatures: Seq::empty(),
        }
    }

    /// The bucket after `p` is folded into it: sums grow, the temperature
    /// groups are replaced by those of `p`.
    pub open spec fn add(self, p: HistoryPoint) -> BucketView {
        BucketView {
            start: self.start,
            count: self.count + 1,
            cpu_sum: self.cpu_sum + p.cpu_percent,
            freq_sum: self.freq_sum + p.cpu_freq,
            temp_sum: match p.cpu_temp {
                Some(t) => self.temp_sum + t,
                None => self.temp_sum,
            },
            temp_count: match p.cpu_temp {
                Some(t) => self.temp_count + 1,
                None => self.temp_count,
            },
            mem_sum: self.mem_sum + p.mem_percent,
            disk_sum: self.disk_sum + p.disk_percent,
            temperatures: p.temperatures@,
        }
    }

    /// The totals fit the machine integers that hold them.
    pub open spec fn wf(self) -> bool {
        &&& self.count <= u32::MAX
        &&& self.temp_count <= self.count
        &&& 0 <= self.cpu_sum <= self.count * u32::MAX
        &&& 0 <= self.mem_sum <= self.count * u32::MAX
        &&& 0 <= self.disk_sum <= self.count * u32::MAX
        &&& 0 <= self.freq_sum <= self.count * u64::MAX
        &&& self.temp_count * i32::MIN <= self.temp_sum <= self.temp_count * i32::MAX
    }

    /// `p` is how this bucket reads: ratios averaged over `max(count, 1)`,
    /// frequency as an integer average, temperature as the floor of the mean
    /// of the points that had one, and the latest temperature groups.
    pub open spec fn reads_as(self, p: HistoryPoint) -> bool {
        let n: int = if self.count == 0 { 1 } else { self.count as int };
        &&& p.timestamp == self.start
        &&& p.cpu_percent == self.cpu_sum / n
        &&& p.cpu_freq == self.freq_sum / n
        &&& p.mem_percent == self.mem_sum / n
        &&& p.disk_percent == self.disk_sum / n
        &&& match p.cpu_temp {
            Some(t) => self.temp_count > 0 && t == self.temp_sum / (self.temp_count as int),
            None => self.temp_count == 0,
        }
        &&& p.temperatures@ == self.temperatures
    }
}

/// `buckets` after `p` is folded into the bucket of its slot: the last bucket
/// when it holds that slot, else a new bucket at the end.
pub open spec fn fold_point(buckets: Seq<BucketView>, p: HistoryPoint, period: i64) -> Seq<
    BucketView,
> {
    let s = bucket_start(p.timestamp, period);
    if buckets.len() > 0 && buckets.last().start == s {
        buckets.update(buckets.len() - 1, buckets.last().add(p))
    } else {
        buckets.push(BucketView::empty(s).add(p))
    }
}

/// `s` without its leading buckets that start before `cutoff`.
pub open spec fn prune_buckets(s: Seq<BucketView>, cutoff: int) -> Seq<BucketView>
    decreases s.len(),
{
    if s.len() > 0 && s[0].start < cutoff {
        prune_buckets(s.drop_first(), cutoff)
    } else {
        s
    }
}

/// `s` without its leading points older than `cutoff`.
pub open spec fn prune_points(s: Seq<HistoryPoint>, cutoff: int) -> Seq<HistoryPoint>
    decreases s.len(),
{
    if s.len() > 0 && s[0].timestamp < cutoff {
        prune_points(s.drop_first(), cutoff)
    } else {
        s
    }
}

/// The three series of a store.
pub struct StoreView {
    pub raw: Seq<HistoryPoint>,
    pub day: Seq<BucketView>,
    pub week: Seq<BucketView>,
}

impl StoreView {
    pub open spec fn wf(self) -> bool {
        &&& forall|i: int| 0 <= i < self.day.len() ==> (#[trigger] self.day[i]).wf()
        &&& forall|i: int| 0 <= i < self.week.len() ==> (#[trigger] self.week[i]).wf()
    }

    /// One more point fits: neither tail bucket has reached the largest count.
    pub open spec fn has_room(self) -> bool {
        &&& (self.day.len() > 0 ==> self.day.last().count < u32::MAX)
        &&& (self.week.len() > 0 ==> self.week.last().count < u32::MAX)
    }

    /// The store after `p` is ingested at wall-clock time `now`.
    pub open spec fn ingest(self, p: HistoryPoint, now: int) -> StoreView {
        StoreView {
            raw: prune_points(self.raw.push(p), now - RAW_RETENTION_SECS),
            day: prune_buckets(fold_point(self.day, p, DAY_BUCKET_SECS), now - DAY_RETENTION_SECS),
            week: prune_buckets(
                fold_point(self.week, p, WEEK_BUCKET_SECS),
                now - WEEK_RETENTION_SECS,
            ),
        }
    }
}

/// Truncates `ts` to the start of its slot of `bucket_secs` seconds.
pub fn bucket_timestamp(ts: i64, bucket_secs: i64) -> (r: i64)
    requires
        bucket_secs > 0,
    ensures
        r == bucket_start(ts, bucket_secs),
{
    let rem = ts.checked_rem_euclid(bucket_secs).unwrap();
    match ts.checked_sub(rem) {
        Some(s) => s,
        None => ts,
    }
}

struct Bucket {
    timestamp: i64,
    cpu_percent_sum: u64,
    cpu_freq_sum: u128,
    cpu_temp_sum: i64,
    cpu_temp_count: u32,
    mem_percent_sum: u64,
    disk_percent_sum: u64,
    count: u32,
    temperatures: Vec<TempGroup>,
}

impl View for Bucket {
    type V = BucketView;

    closed spec fn view(&self) -> BucketView {
        BucketView {
            start: self.timestamp as int,
            count: self.count as nat,
            cpu_sum: self.cpu_percent_sum as int,
            freq_sum: self.cpu_freq_sum as int,
            temp_sum: self.cpu_temp_sum as int,
            temp_count: self.cpu_temp_count as nat,
            mem_sum: self.mem_percent_sum as int,
            disk_sum: self.disk_percent_sum as int,
            temperatures: self.temperatures@,
        }
    }
}

proof fn lemma_sum_step(sum: int, c: int, x: int, m: int, cap: int)
    requires
        0 <= sum <= c * m,
        0 <= x <= m,
        0 <= c,
        c + 1 <= cap,
        0 <= m,
    ensures
        0 <= sum + x <= (c + 1) * m,
        (c + 1) * m <= cap * m,
{
    assert((c + 1) * m == c * m + m) by (nonlinear_arith);
    assert((c + 1) * m <= cap * m) by (nonlinear_arith)
        requires
            c + 1 <= cap,
            0 <= m,
    ;
}

proof fn lemma_signed_step(sum: int, c: int, x: int)
    requires
        c * i32::MIN <= sum <= c * i32::MAX,
        i32::MIN <= x <= i32::MAX,
        0 <= c < u32::MAX,
    ensures
        (c + 1) * i32::MIN <= sum + x <= (c + 1) * i32::MAX,
        i64::MIN <= sum + x <= i64::MAX,
{
    assert((c + 1) * i32::MIN == c * i32::MIN + i32::MIN) by (nonlinear_arith);
    assert((c + 1) * i32::MAX == c * i32::MAX + i32::MAX) by (nonlinear_arith);
    assert((c + 1) * i32::MIN >= u32::MAX * i32::MIN) by (nonlinear_arith)
        requires
            c + 1 <= u32::MAX,
    ;
    assert((c + 1) * i32::MAX <= u32::MAX * i32::MAX) by (nonlinear_arith)
        requires
            c + 1 <= u32::MAX,
    ;
}

/// An average `sum / n` of values at most `m` is at most `m`, and at least
/// `lo` when all the values are.
proof fn lemma_mean_bound(sum: int, n: int, lo: int, m: int)
    requires
        n * lo <= sum <= n * m,
        n >= 1,
    ensures
        lo <= sum / n <= m,
{
    lemma_div_is_ordered(sum, n * m, n);
    lemma_div_multiples_vanish(m, n);
    lemma_div_is_ordered(n * lo, sum, n);
    lemma_div_multiples_vanish(lo, n);
}

impl Bucket {
    fn new(timestamp: i64) -> (r: Bucket)
        ensures
            r@ == BucketView::empty(timestamp as int),
    {
        Bucket {
            timestamp,
            cpu_percent_sum: 0,
            cpu_freq_sum: 0,
            cpu_temp_sum: 0,
            cpu_temp_count: 0,
            mem_percent_sum: 0,
            disk_percent_sum: 0,
            count: 0,
            temperatures: Vec::new(),
        }
    }

    fn add(&mut self, point: &HistoryPoint)
        requires
            old(self)@.wf(),
            old(self)@.count < u32::MAX,
        ensures
            final(self)@ == old(self)@.add(*point),
            final(self)@.wf(),
    {
        proof {
            let v = self@;
            lemma_sum_step(v.cpu_sum, v.count as int, point.cpu_percent as int, u32::MAX as int, u32::MAX as int);
            lemma_sum_step(v.mem_sum, v.count as int, point.mem_percent as int, u32::MAX as int, u32::MAX as int);
            lemma_sum_step(v.disk_sum, v.count as int, point.disk_percent as int, u32::MAX as int, u32::MAX as int);
            lemma_sum_step(v.freq_sum, v.count as int, point.cpu_freq as int, u64::MAX as int, u32::MAX as int);
            assert(u32::MAX * u32::MAX <= u64::MAX) by (nonlinear_arith);
            assert(u32::MAX * u64::MAX <= u128::MAX) by (nonlinear_arith);
        }
        self.cpu_percent_sum = self.cpu_percent_sum + point.cpu_percent as u64;
        self.cpu_freq_sum = self.cpu_freq_sum + point.cpu_freq as u128;
        match point.cpu_temp {
            Some(temp) => {
                proof {
                    lemma_signed_step(self.cpu_temp_sum as int, self.cpu_temp_count as int, temp as int);
                }
                self.cpu_temp_sum = self.cpu_temp_sum + temp as i64;
                self.cpu_temp_count = self.cpu_temp_count + 1;
            },
            None => {},
        }
        self.mem_percent_sum = self.mem_percent_sum + point.mem_percent as u64;
        self.disk_percent_sum = self.disk_percent_sum + point.disk_percent as u64;
        self.count = self.count + 1;
        // the latest groups replace the earlier ones
        self.temperatures = copy_groups(&point.temperatures);
    }

    fn to_history_point(&self) -> (r: HistoryPoint)
        requires
            self@.wf(),
        ensures
            self@.reads_as(r),
    {
        let n: u32 = if self.count == 0 { 1 } else { self.count };
        proof {
            let v = self@;
            assert(n * u32::MAX >= v.count * u32::MAX) by (nonlinear_arith)
                requires
                    n >= v.count,
            ;
            assert(n * u64::MAX >= v.count * u64::MAX) by (nonlinear_arith)
                requires
                    n >= v.count,
            ;
            lemma_mean_bound(v.cpu_sum, n as int, 0, u32::MAX as int);
            lemma_mean_bound(v.mem_sum, n as int, 0, u32::MAX as int);
            lemma_mean_bound(v.disk_sum, n as int, 0, u32::MAX as int);
            lemma_mean_bound(v.freq_sum, n as int, 0, u64::MAX as int);
        }
        let cpu_temp = if self.cpu_temp_count > 0 {
            proof {
                lemma_mean_bound(
                    self.cpu_temp_sum as int,
                    self.cpu_temp_count as int,
                    i32::MIN as int,
                    i32::MAX as int,
                );
            }
            let mean = self.cpu_temp_sum.checked_div_euclid(self.cpu_temp_count as i64).unwrap();
            Some(mean as i32)
        } else {
            None
        };
        HistoryPoint {
            timestamp: self.timestamp,
            cpu_percent: (self.cpu_percent_sum / n as u64) as u32,
            cpu_freq: (self.cpu_freq_sum / n as u128) as u64,
            cpu_temp,
            mem_percent: (self.mem_percent_sum / n as u64) as u32,
            disk_percent: (self.disk_percent_sum / n as u64) as u32,
            temperatures: copy_groups(&self.temperatures),
        }
    }
}

/// The mathematical view of a series of buckets.
spec fn bucket_views(s: Seq<Bucket>) -> Seq<BucketView> {
    s.map_values(|b: Bucket| b@)
}

closed spec fn all_wf(s: Seq<Bucket>) -> bool {
    forall|i: int| 0 <= i < s.len() ==> (#[trigger] s[i])@.wf()
}

/// The cutoff `now - retention`, held at `i64::MIN` where it would fall below;
/// no timestamp lies under it in either form.
fn cutoff_of(now: i64, retention: i64) -> (c: i64)
    requires
        retention >= 0,
    ensures
        c == (if now - retention < i64::MIN {
            i64::MIN as int
        } else {
            now - retention
        }),
{
    match now.checked_sub(retention) {
        Some(c) => c,
        None => i64::MIN,
    }
}

fn aggregate_into(buckets: &mut VecDeque<Bucket>, point: &HistoryPoint, bucket_secs: i64)
    requires
        bucket_secs > 0,
        all_wf(old(buckets)@),
        old(buckets)@.len() > 0 ==> old(buckets)@.last()@.count < u32::MAX,
    ensures
        bucket_views(final(buckets)@) == fold_point(
            bucket_views(old(buckets)@),
            *point,
            bucket_secs,
        ),
        all_wf(final(buckets)@),
{
    let ghost before = bucket_views(buckets@);
    let bucket_ts = bucket_timestamp(point.timestamp, bucket_secs);
    let n = buckets.len();
    if n > 0 && buckets[n - 1].timestamp == bucket_ts {
        let mut last = buckets.pop_back().unwrap();
        proof {
            assert(last == old(buckets)@[n - 1]);
        }
        last.add(point);
        buckets.push_back(last);
        proof {
            assert(before.last() == old(buckets)@.last()@);
            assert(bucket_views(buckets@) =~= fold_point(before, *point, bucket_secs));
        }
        return;
    }
    let mut bucket = Bucket::new(bucket_ts);
    bucket.add(point);
    buckets.push_back(bucket);
    proof {
        assert(bucket_views(buckets@) =~= fold_point(before, *point, bucket_secs));
    }
}

fn prune(queue: &mut VecDeque<HistoryPoint>, now: i64, retention_secs: i64)
    requires
        retention_secs >= 0,
    ensures
        final(queue)@ == prune_points(old(queue)@, now - retention_secs),
{
    let cutoff = cutoff_of(now, retention_secs);
    while queue.len() > 0 && queue[0].timestamp < cutoff
        invariant
            cutoff == (if now - retention_secs < i64::MIN {
                i64::MIN as int
            } else {
                now - retention_secs
            }),
            prune_points(queue@, now - retention_secs) == prune_points(
                old(queue)@,
                now - retention_secs,
            ),
        decreases queue@.len(),
    {
        let ghost before = queue@;
        queue.pop_front();
        proof {
            assert(queue@ =~= before.drop_first());
        }
    }
}

fn prune_buckets_exec(buckets: &mut VecDeque<Bucket>, now: i64, retention_secs: i64)
    requires
        retention_secs >= 0,
        all_wf(old(buckets)@),
    ensures
        bucket_views(final(buckets)@) == prune_buckets(
            bucket_views(old(buckets)@),
            now - retention_secs,
        ),
        all_wf(final(buckets)@),
{
    let cutoff = cutoff_of(now, retention_secs);
    while buckets.len() > 0 && buckets[0].timestamp < cutoff
        invariant
            cutoff == (if now - retention_secs < i64::MIN {
                i64::MIN as int
            } else {
                now - retention_secs
            }),
            all_wf(buckets@),
            prune_buckets(bucket_views(buckets@), now - retention_secs) == prune_buckets(
                bucket_views(old(buckets)@),
                now - retention_secs,
            ),
        decreases buckets@.len(),
    {
        let ghost before = buckets@;
        buckets.pop_front();
        proof {
            assert(bucket_views(buckets@) =~= bucket_views(before).drop_first());
        }
    }
}

/// Raw points, minute buckets and quarter-hour buckets, each pruned to its
/// own retention window.
pub struct HistoryStore {
    raw: VecDeque<HistoryPoint>,
    day_buckets: VecDeque<Bucket>,
    week_buckets: VecDeque<Bucket>,
    /// Every point ingested so far, in order.
    log: Ghost<Seq<HistoryPoint>>,
    /// The wall-clock reading of each ingest, in order.
    clock_log: Ghost<Seq<int>>,
}

impl View for HistoryStore {
    type V = StoreView;

    closed spec fn view(&self) -> StoreView {
        StoreView {
            raw: self.raw@,
            day: bucket_views(self.day_buckets@),
            week: bucket_views(self.week_buckets@),
        }
    }
}

/// `p` is the history reading of snapshot `s`.
pub open spec fn point_of_stats(p: HistoryPoint, s: SystemStats) -> bool {
    &&& p.timestamp == s.timestamp
    &&& p.cpu_percent == s.cpu.usage_percent
    &&& p.cpu_freq == s.cpu.frequency_mhz
    &&& p.cpu_temp == s.cpu.temperature
    &&& p.mem_percent == s.memory.usage_percent
    &&& p.disk_percent == s.disk.usage_percent
    &&& p.temperatures@ == s.temperatures@
}

impl HistoryStore {
    /// The points ingested so far, oldest first.
    pub closed spec fn ingested(&self) -> Seq<HistoryPoint> {
        self.log@
    }

    /// The wall-clock time read by each ingest so far, oldest first.
    pub closed spec fn clocks(&self) -> Seq<int> {
        self.clock_log@
    }

    /// The series fit their machine integers and are exactly what ingesting
    /// the logged points at the logged times into an empty store gives.
    pub closed spec fn wf(&self) -> bool {
        &&& self@.wf()
        &&& self.log@.len() == self.clock_log@.len()
        &&& self@ == ingest_all(empty_store(), self.log@, self.clock_log@)
    }

    proof fn lemma_wf(&self)
        ensures
            self@.wf() == (all_wf(self.day_buckets@) && all_wf(self.week_buckets@)),
            self@.has_room() == ((self.day_buckets@.len() > 0 ==> self.day_buckets@.last()@.count
                < u32::MAX) && (self.week_buckets@.len() > 0
                ==> self.week_buckets@.last()@.count < u32::MAX)),
    {
        let v = self@;
        assert(v.wf() ==> all_wf(self.day_buckets@)) by {
            if v.wf() {
                assert forall|i: int| 0 <= i < self.day_buckets@.len() implies (
                #[trigger] self.day_buckets@[i])@.wf() by {
                    assert(v.day[i] == self.day_buckets@[i]@);
                }
            }
        }
        assert(v.wf() ==> all_wf(self.week_buckets@)) by {
            if v.wf() {
                assert forall|i: int| 0 <= i < self.week_buckets@.len() implies (
                #[trigger] self.week_buckets@[i])@.wf() by {
                    assert(v.week[i] == self.week_buckets@[i]@);
                }
            }
        }
        if self.day_buckets@.len() > 0 {
            assert(v.day.last() == self.day_buckets@.last()@);
        }
        if self.week_buckets@.len() > 0 {
            assert(v.week.last() == self.week_buckets@.last()@);
        }
    }

    /// An empty store.
    pub fn new() -> (r: HistoryStore)
        ensures
            r@.raw.len() == 0,
            r@.day.len() == 0,
            r@.week.len() == 0,
            r.ingested().len() == 0,
            r.clocks().len() == 0,
            r.wf(),
    {
        let r = HistoryStore {
            raw: VecDeque::new(),
            day_buckets: VecDeque::new(),
            week_buckets: VecDeque::new(),
            log: Ghost(Seq::empty()),
            clock_log: Ghost(Seq::empty()),
        };
        proof {
            assert(bucket_views(r.day_buckets@) =~= Seq::<BucketView>::empty());
            assert(bucket_views(r.week_buckets@) =~= Seq::<BucketView>::empty());
            assert(r@ == empty_store());
        }
        r
    }

    /// Whether one more point can be ingested: neither tail bucket is full.
    pub fn has_room(&self) -> (r: bool)
        ensures
            r == self@.has_room(),
    {
        proof {
            self.lemma_wf();
        }
        let d = self.day_buckets.len();
        let w = self.week_buckets.len();
        (d == 0 || self.day_buckets[d - 1].count < u32::MAX) && (w == 0
            || self.week_buckets[w - 1].count < u32::MAX)
    }

    /// Ingests `point` with `now` as the wall-clock time: appends it to the raw
    /// series, folds it into its minute and quarter-hour buckets, then drops
    /// from the front of each series what lies outside its retention window.
    pub fn push_at(&mut self, point: HistoryPoint, now: i64)
        requires
            old(self).wf(),
            old(self)@.has_room(),
        ensures
            final(self)@ == old(self)@.ingest(point, now as int),
            final(self).ingested() == old(self).ingested().push(point),
            final(self).clocks() == old(self).clocks().push(now as int),
            final(self).wf(),
    {
        proof {
            self.lemma_wf();
        }
        let ghost p = point;
        let ghost before_log = self.log@;
        let ghost before_clocks = self.clock_log@;
        self.log = Ghost(self.log@.push(p));
        self.clock_log = Ghost(self.clock_log@.push(now as int));
        aggregate_into(&mut self.day_buckets, &point, DAY_BUCKET_SECS);
        aggregate_into(&mut self.week_buckets, &point, WEEK_BUCKET_SECS);
        self.raw.push_back(point);
        prune(&mut self.raw, now, RAW_RETENTION_SECS);
        prune_buckets_exec(&mut self.day_buckets, now, DAY_RETENTION_SECS);
        prune_buckets_exec(&mut self.week_buckets, now, WEEK_RETENTION_SECS);
        proof {
            self.lemma_wf();
            assert(self.log@.drop_last() =~= before_log);
            assert(self.clock_log@.drop_last() =~= before_clocks);
        }
    }

    /// Ingests a snapshot at the current wall-clock time.
    pub fn push(&mut self, stats: &SystemStats)
        requires
            old(self).wf(),
            old(self)@.has_room(),
        ensures
            final(self).wf(),
            exists|p: HistoryPoint, now: int|
                {
                    &&& point_of_stats(p, *stats)
                    &&& final(self)@ == old(self)@.ingest(p, now)
                    &&& final(self).ingested() == old(self).ingested().push(p)
                    &&& final(self).clocks() == old(self).clocks().push(now)
                },
    {
        let point = HistoryPoint::from_stats(stats);
        let ghost p = point;
        let now = now_secs();
        self.push_at(point, now);
        proof {
            assert(point_of_stats(p, *stats));
        }
    }

    /// The raw series, oldest first.
    pub fn get_raw(&self) -> (r: Vec<HistoryPoint>)
        ensures
            r@.len() == self@.raw.len(),
            forall|i: int| 0 <= i < r@.len() ==> same_point(#[trigger] r@[i], self@.raw[i]),
    {
        let mut out: Vec<HistoryPoint> = Vec::new();
        let mut i: usize = 0;
        while i < self.raw.len()
            invariant
                i <= self.raw@.len(),
                out@.len() == i,
                forall|j: int| 0 <= j < i ==> same_point(#[trigger] out@[j], self.raw@[j]),
            decreases self.raw@.len() - i,
        {
            out.push(self.raw[i].copy());
            i += 1;
        }
        out
    }

    fn read_buckets(buckets: &VecDeque<Bucket>) -> (r: Vec<HistoryPoint>)
        requires
            all_wf(buckets@),
        ensures
            r@.len() == buckets@.len(),
            forall|i: int|
                0 <= i < r@.len() ==> bucket_views(buckets@)[i].reads_as(#[trigger] r@[i]),
    {
        let mut out: Vec<HistoryPoint> = Vec::new();
        let mut i: usize = 0;
        while i < buckets.len()
            invariant
                all_wf(buckets@),
                i <= buckets@.len(),
                out@.len() == i,
                forall|j: int|
                    0 <= j < i ==> bucket_views(buckets@)[j].reads_as(#[trigger] out@[j]),
            decreases buckets@.len() - i,
        {
            let p = buckets[i].to_history_point();
            out.push(p);
            i += 1;
        }
        out
    }

    /// The day series, one averaged point per minute bucket, oldest first.
    pub fn get_day(&self) -> (r: Vec<HistoryPoint>)
        requires
            self.wf(),
        ensures
            r@.len() == self@.day.len(),
            forall|i: int| 0 <= i < r@.len() ==> self@.day[i].reads_as(#[trigger] r@[i]),
    {
        proof {
            self.lemma_wf();
        }
        Self::read_buckets(&self.day_buckets)
    }

    /// The week series, one averaged point per quarter-hour bucket, oldest first.
    pub fn get_week(&self) -> (r: Vec<HistoryPoint>)
        requires
            self.wf(),
        ensures
            r@.len() == self@.week.len(),
            forall|i: int| 0 <= i < r@.len() ==> self@.week[i].reads_as(#[trigger] r@[i]),
    {
        proof {
            self.lemma_wf();
        }
        Self::read_buckets(&self.week_buckets)
    }

    /// The series that `resolution` names.
    pub fn query(&self, resolution: Resolution) -> (r: Vec<HistoryPoint>)
        requires
            self.wf(),
        ensures
            resolution == Resolution::Raw ==> r@.len() == self@.raw.len() && forall|i: int|
                0 <= i < r@.len() ==> same_point(#[trigger] r@[i], self@.raw[i]),
            resolution == Resolution::Day ==> r@.len() == self@.day.len() && forall|i: int|
                0 <= i < r@.len() ==> self@.day[i].reads_as(#[trigger] r@[i]),
            resolution == Resolution::Week ==> r@.len() == self@.week.len() && forall|i: int|
                0 <= i < r@.len() ==> self@.week[i].reads_as(#[trigger] r@[i]),
    {
        match resolution {
            Resolution::Raw => self.get_raw(),
            Resolution::Day => self.get_day(),
            Resolution::Week => self.get_week(),
        }
    }
}

impl HistoryStore {
    /// Answers a history query: the series its tag names (the day series
    /// unless the tag is `raw` or `week`), with the tag echoed, `day` when
    /// there is none.
    pub fn respond(&self, query: &HistoryQuery) -> (r: HistoryResponse)
        requires
            self.wf(),
        ensures
            r.range@ == (match query.range {
                Some(t) => t@,
                None => seq!['d', 'a', 'y'],
            }),
            ({
                let res = Resolution::from_tag_spec(
                    match query.range {
                        Some(t) => Some(t@),
                        None => None,
                    },
                );
                &&& res == Resolution::Raw ==> r.points@.len() == self@.raw.len() && forall|i: int|
                    0 <= i < r.points@.len() ==> same_point(#[trigger] r.points@[i], self@.raw[i])
                &&& res == Resolution::Day ==> r.points@.len() == self@.day.len() && forall|i: int|
                    0 <= i < r.points@.len() ==> self@.day[i].reads_as(#[trigger] r.points@[i])
                &&& res == Resolution::Week ==> r.points@.len() == self@.week.len() && forall|
                    i: int,
                | 0 <= i < r.points@.len() ==> self@.week[i].reads_as(#[trigger] r.points@[i])
            }),
    {
        proof {
            reveal_strlit("day");
            assert("day"@ =~= seq!['d', 'a', 'y']);
        }
        let tag = match &query.range {
            Some(t) => Some(t.as_str()),
            None => None,
        };
        let resolution = Resolution::from_tag(tag);
        let range = match &query.range {
            Some(t) => t.clone(),
            None => String::from_str("day"),
        };
        HistoryResponse { range, points: self.query(resolution) }
    }
}

/// A store with no data in any series.
pub open spec fn empty_store() -> StoreView {
    StoreView { raw: Seq::empty(), day: Seq::empty(), week: Seq::empty() }
}

/// `v` after ingesting `pts` in order, the k-th at wall-clock time `nows[k]`.
pub open spec fn ingest_all(v: StoreView, pts: Seq<HistoryPoint>, nows: Seq<int>) -> StoreView
    decreases pts.len(),
{
    if pts.len() == 0 || nows.len() == 0 {
        v
    } else {
        ingest_all(v, pts.drop_last(), nows.drop_last()).ingest(pts.last(), nows.last())
    }
}

/// How many of `pts` have a timestamp at or after `since`.
pub open spec fn count_since(pts: Seq<HistoryPoint>, since: int) -> nat
    decreases pts.len(),
{
    if pts.len() == 0 {
        0
    } else {
        count_since(pts.drop_last(), since) + if pts.last().timestamp >= since {
            1nat
        } else {
            0nat
        }
    }
}

/// Timestamps strictly increase along `pts`.
pub open spec fn strictly_increasing(pts: Seq<HistoryPoint>) -> bool {
    forall|i: int, j: int| 0 <= i < j < pts.len() ==> pts[i].timestamp < pts[j].timestamp
}

proof fn lemma_prune_points_suffix(s: Seq<HistoryPoint>, c: int) -> (j: int)
    ensures
        0 <= j <= s.len(),
        prune_points(s, c) == s.subrange(j, s.len() as int),
        j < s.len() ==> s[j].timestamp >= c,
    decreases s.len(),
{
    if s.len() > 0 && s[0].timestamp < c {
        let j = lemma_prune_points_suffix(s.drop_first(), c);
        assert(s.drop_first().subrange(j, s.len() - 1) =~= s.subrange(j + 1, s.len() as int));
        j + 1
    } else {
        assert(s.subrange(0, s.len() as int) =~= s);
        0
    }
}

proof fn lemma_prune_buckets_keeps_last(s: Seq<BucketView>, c: int)
    requires
        s.len() > 0,
        s.last().start >= c,
    ensures
        prune_buckets(s, c).len() > 0,
        prune_buckets(s, c).last() == s.last(),
    decreases s.len(),
{
    if s[0].start < c {
        lemma_prune_buckets_keeps_last(s.drop_first(), c);
    }
}

proof fn lemma_raw_suffix(pts: Seq<HistoryPoint>, nows: Seq<int>) -> (k: int)
    requires
        pts.len() == nows.len(),
    ensures
        0 <= k <= pts.len(),
        ingest_all(empty_store(), pts, nows).raw == pts.subrange(k, pts.len() as int),
        pts.len() > 0 && k < pts.len() ==> pts[k].timestamp >= nows.last() - RAW_RETENTION_SECS,
    decreases pts.len(),
{
    if pts.len() == 0 {
        assert(pts.subrange(0, 0) =~= Seq::<HistoryPoint>::empty());
        0
    } else {
        let n = pts.len() as int;
        let k0 = lemma_raw_suffix(pts.drop_last(), nows.drop_last());
        let before = ingest_all(empty_store(), pts.drop_last(), nows.drop_last()).raw;
        assert(before.push(pts.last()) =~= pts.subrange(k0, n));
        let c = nows.last() - RAW_RETENTION_SECS;
        let j = lemma_prune_points_suffix(pts.subrange(k0, n), c);
        assert(pts.subrange(k0, n).subrange(j, n - k0) =~= pts.subrange(k0 + j, n));
        if k0 + j < n {
            assert(pts.subrange(k0, n)[j] == pts[k0 + j]);
        }
        k0 + j
    }
}

proof fn lemma_count_tail(pts: Seq<HistoryPoint>, k: int, since: int)
    requires
        0 <= k <= pts.len(),
        forall|i: int| k <= i < pts.len() ==> #[trigger] pts[i].timestamp >= since,
    ensures
        count_since(pts, since) >= pts.len() - k,
    decreases pts.len(),
{
    if pts.len() > k {
        lemma_count_tail(pts.drop_last(), k, since);
    }
}

/// Under strictly increasing timestamps, with the last point ingested no later
/// than the wall clock says, the raw series never holds more points than were
/// ingested within the raw retention window of the latest timestamp.
pub proof fn lemma_raw_within_window(pts: Seq<HistoryPoint>, nows: Seq<int>)
    requires
        pts.len() == nows.len(),
        pts.len() > 0,
        strictly_increasing(pts),
        nows.last() >= pts.last().timestamp,
    ensures
        ingest_all(empty_store(), pts, nows).raw.len() <= count_since(
            pts,
            pts.last().timestamp - RAW_RETENTION_SECS,
        ),
        forall|i: int|
            0 <= i < ingest_all(empty_store(), pts, nows).raw.len() ==> #[trigger] ingest_all(
                empty_store(),
                pts,
                nows,
            ).raw[i].timestamp >= nows.last() - RAW_RETENTION_SECS,
{
    let k = lemma_raw_suffix(pts, nows);
    let since = pts.last().timestamp - RAW_RETENTION_SECS;
    assert forall|i: int| k <= i < pts.len() implies #[trigger] pts[i].timestamp >= since by {
        if i > k {
            assert(pts[k].timestamp < pts[i].timestamp);
        }
    }
    lemma_count_tail(pts, k, since);
    let raw = ingest_all(empty_store(), pts, nows).raw;
    assert forall|i: int| 0 <= i < raw.len() implies #[trigger] raw[i].timestamp >= nows.last()
        - RAW_RETENTION_SECS by {
        assert(raw[i] == pts[k + i]);
        if i > 0 {
            assert(pts[k].timestamp < pts[k + i].timestamp);
        }
    }
}

/// Two points of one minute, ingested one after the other into a store whose
/// last minute bucket belongs to another minute, while that minute is within
/// the day retention window, share one bucket: it counts two points and its
/// CPU average is their arithmetic mean.
pub proof fn lemma_same_minute_mean(
    v: StoreView,
    p1: HistoryPoint,
    p2: HistoryPoint,
    now1: int,
    now2: int,
)
    requires
        bucket_start(p1.timestamp, DAY_BUCKET_SECS) == bucket_start(p2.timestamp, DAY_BUCKET_SECS),
        v.day.len() == 0 || v.day.last().start != bucket_start(p1.timestamp, DAY_BUCKET_SECS),
        now1 - DAY_RETENTION_SECS <= bucket_start(p1.timestamp, DAY_BUCKET_SECS),
        now2 - DAY_RETENTION_SECS <= bucket_start(p1.timestamp, DAY_BUCKET_SECS),
    ensures
        ({
            let day = v.ingest(p1, now1).ingest(p2, now2).day;
            &&& day.len() > 0
            &&& day.last().count == 2
            &&& day.last().start == bucket_start(p1.timestamp, DAY_BUCKET_SECS)
            &&& day.last().cpu_sum == p1.cpu_percent + p2.cpu_percent
            &&& day.len() <= v.ingest(p1, now1).day.len()
            &&& now2 <= now1 ==> day.len() == v.ingest(p1, now1).day.len()
            &&& valid_percent(p1.cpu_percent) && valid_percent(p2.cpu_percent) ==> forall|
                q: HistoryPoint,
            | #[trigger]
                day.last().reads_as(q) ==> 2 * q.cpu_percent == p1.cpu_percent + p2.cpu_percent
        }),
{
    let s = bucket_start(p1.timestamp, DAY_BUCKET_SECS);
    let f1 = fold_point(v.day, p1, DAY_BUCKET_SECS);
    assert(f1.last() == BucketView::empty(s).add(p1));
    lemma_prune_buckets_keeps_last(f1, now1 - DAY_RETENTION_SECS);
    let d1 = v.ingest(p1, now1).day;
    let f2 = fold_point(d1, p2, DAY_BUCKET_SECS);
    assert(f2.last() == d1.last().add(p2));
    lemma_prune_buckets_keeps_last(f2, now2 - DAY_RETENTION_SECS);
    let j1 = lemma_prune_buckets_suffix(f1, now1 - DAY_RETENTION_SECS);
    let j2 = lemma_prune_buckets_suffix(f2, now2 - DAY_RETENTION_SECS);
    assert(f2.len() == d1.len());
    if now2 <= now1 {
        assert(d1[0] == f1[j1]);
        assert(f2[0].start == d1[0].start);
        assert(j2 == 0);
    }
    let a = p1.cpu_percent as int;
    let b = p2.cpu_percent as int;
    if valid_percent(p1.cpu_percent) && valid_percent(p2.cpu_percent) {
        assert(2 * ((a + b) / 2) == a + b) by {
            lemma_fundamental_div_mod(a + b, 2);
        }
    }
}

/// Truncation is stable on a slot: every timestamp from a slot's start up to
/// the start of the next slot truncates to that start.
pub proof fn lemma_bucket_start_stable(start: i64, t: i64, period: i64)
    requires
        period > 0,
        start % period == 0,
        start <= t < start + period,
    ensures
        bucket_start(t, period) == start,
{
    lemma_fundamental_div_mod(start as int, period as int);
    let q = start / period;
    assert(t == q * period + (t - start)) by (nonlinear_arith)
        requires
            start == period * q + 0,
    ;
    lemma_fundamental_div_mod_converse(t as int, period as int, q, t - start);
}

/// Timestamps never decrease along `pts`.
pub open spec fn non_decreasing(pts: Seq<HistoryPoint>) -> bool {
    forall|i: int, j: int| 0 <= i < j < pts.len() ==> pts[i].timestamp <= pts[j].timestamp
}

/// Slot starts strictly increase along `b`; in particular no two buckets
/// share a slot.
pub open spec fn strictly_ordered(b: Seq<BucketView>) -> bool {
    forall|i: int, j: int| 0 <= i < j < b.len() ==> b[i].start < b[j].start
}

/// Truncation never reverses the order of two timestamps.
pub proof fn lemma_bucket_start_monotone(t1: i64, t2: i64, period: i64)
    requires
        period > 0,
        t1 <= t2,
    ensures
        bucket_start(t1, period) <= bucket_start(t2, period),
{
    let p = period as int;
    lemma_fundamental_div_mod(t1 as int, p);
    lemma_fundamental_div_mod(t2 as int, p);
    let q1 = t1 as int / p;
    let q2 = t2 as int / p;
    lemma_div_is_ordered(t1 as int, t2 as int, p);
    assert(t1 as int - (t1 as int) % p == p * q1);
    assert(t1 % period == (t1 as int) % p);
    assert(t2 as int - (t2 as int) % p == p * q2);
    assert(t2 % period == (t2 as int) % p);
    if q1 < q2 {
        lemma_mul_inequality(q1 + 1, q2, p);
        assert(p * (q1 + 1) == p * q1 + p) by (nonlinear_arith);
        assert(q2 * p == p * q2) by (nonlinear_arith);
        assert((q1 + 1) * p == p * (q1 + 1)) by (nonlinear_arith);
    }
}

proof fn lemma_prune_buckets_suffix(s: Seq<BucketView>, c: int) -> (j: int)
    ensures
        0 <= j <= s.len(),
        prune_buckets(s, c) == s.subrange(j, s.len() as int),
        j < s.len() ==> s[j].start >= c,
    decreases s.len(),
{
    if s.len() > 0 && s[0].start < c {
        let j = lemma_prune_buckets_suffix(s.drop_first(), c);
        assert(s.drop_first().subrange(j, s.len() - 1) =~= s.subrange(j + 1, s.len() as int));
        j + 1
    } else {
        assert(s.subrange(0, s.len() as int) =~= s);
        0
    }
}

/// One ingest keeps a bucket series ordered with its last bucket in the slot
/// of the latest point.
proof fn lemma_fold_ordered(b: Seq<BucketView>, prev: i64, p: HistoryPoint, period: i64, cutoff: int)
    requires
        period > 0,
        strictly_ordered(b),
        b.len() > 0 ==> b.last().start == bucket_start(prev, period),
        b.len() > 0 ==> prev <= p.timestamp,
    ensures
        ({
            let r = prune_buckets(fold_point(b, p, period), cutoff);
            &&& strictly_ordered(r)
            &&& r.len() > 0 ==> r.last().start == bucket_start(p.timestamp, period)
        }),
{
    let f = fold_point(b, p, period);
    if b.len() > 0 {
        lemma_bucket_start_monotone(prev, p.timestamp, period);
    }
    assert(strictly_ordered(f));
    assert(f.last().start == bucket_start(p.timestamp, period));
    let j = lemma_prune_buckets_suffix(f, cutoff);
    let r = prune_buckets(f, cutoff);
    assert forall|x: int, y: int| 0 <= x < y < r.len() implies r[x].start < r[y].start by {
        assert(r[x] == f[x + j]);
        assert(r[y] == f[y + j]);
    }
    if r.len() > 0 {
        assert(r.last() == f.last());
    }
}

/// With non-decreasing timestamps, each bucketed series of a store filled
/// from empty holds strictly increasing slot starts, whatever the wall clock
/// says at each ingest: no two buckets share a slot, and the last bucket is
/// the slot of the latest point.
pub proof fn lemma_buckets_ordered(pts: Seq<HistoryPoint>, nows: Seq<int>)
    requires
        pts.len() == nows.len(),
        non_decreasing(pts),
    ensures
        ({
            let v = ingest_all(empty_store(), pts, nows);
            &&& strictly_ordered(v.day)
            &&& strictly_ordered(v.week)
            &&& v.day.len() > 0 ==> v.day.last().start == bucket_start(
                pts.last().timestamp,
                DAY_BUCKET_SECS,
            )
            &&& v.week.len() > 0 ==> v.week.last().start == bucket_start(
                pts.last().timestamp,
                WEEK_BUCKET_SECS,
            )
        }),
    decreases pts.len(),
{
    if pts.len() > 0 {
        let before = pts.drop_last();
        assert(non_decreasing(before));
        lemma_buckets_ordered(before, nows.drop_last());
        let v = ingest_all(empty_store(), before, nows.drop_last());
        let prev = if before.len() > 0 {
            before.last().timestamp
        } else {
            pts.last().timestamp
        };
        if before.len() > 0 {
            assert(pts[pts.len() - 2].timestamp <= pts[pts.len() - 1].timestamp);
        } else {
            assert(v.day.len() == 0);
            assert(v.week.len() == 0);
        }
        lemma_fold_ordered(
            v.day,
            prev,
            pts.last(),
            DAY_BUCKET_SECS,
            nows.last() - DAY_RETENTION_SECS,
        );
        lemma_fold_ordered(
            v.week,
            prev,
            pts.last(),
            WEEK_BUCKET_SECS,
            nows.last() - WEEK_RETENTION_SECS,
        );
    }
}

/// The raw-window bound for a store built by `new` and `push` or `push_at`:
/// under strictly increasing timestamps, with the clock at the last ingest no
/// earlier than the last point, the raw series holds no more points than were
/// ingested within the raw retention window of the latest timestamp, and each
/// lies within the window of the latest clock reading.
pub proof fn lemma_store_raw_window(store: &HistoryStore)
    requires
        store.wf(),
        store.ingested().len() > 0,
        strictly_increasing(store.ingested()),
        store.clocks().last() >= store.ingested().last().timestamp,
    ensures
        store@.raw.len() <= count_since(
            store.ingested(),
            store.ingested().last().timestamp - RAW_RETENTION_SECS,
        ),
        forall|i: int|
            0 <= i < store@.raw.len() ==> #[trigger] store@.raw[i].timestamp >= store.clocks().last()
                - RAW_RETENTION_SECS,
{
    lemma_raw_within_window(store.ingested(), store.clocks());
}

/// The same-minute law for two consecutive ingests into a store: `before`,
/// then `mid` after ingesting `a`, then `after` after ingesting `b`, where
/// `a` and `b` share a minute that `before`'s last minute bucket does not
/// hold, and both clock readings keep that minute within the day window. The
/// last day bucket is that minute, counts two points, sums their CPU figures
/// and averages to their mean; `b` adds no bucket, and when the second clock
/// reading is no later than the first, no bucket is dropped either.
pub proof fn lemma_store_same_minute(
    before: &HistoryStore,
    mid: &HistoryStore,
    after: &HistoryStore,
    a: HistoryPoint,
    b: HistoryPoint,
)
    requires
        before.wf(),
        mid.wf(),
        after.wf(),
        mid.ingested() == before.ingested().push(a),
        after.ingested() == mid.ingested().push(b),
        mid.clocks().len() == before.clocks().len() + 1,
        mid.clocks().drop_last() == before.clocks(),
        after.clocks().len() == mid.clocks().len() + 1,
        after.clocks().drop_last() == mid.clocks(),
        bucket_start(a.timestamp, DAY_BUCKET_SECS) == bucket_start(b.timestamp, DAY_BUCKET_SECS),
        before@.day.len() == 0 || before@.day.last().start != bucket_start(
            a.timestamp,
            DAY_BUCKET_SECS,
        ),
        mid.clocks().last() - DAY_RETENTION_SECS <= bucket_start(a.timestamp, DAY_BUCKET_SECS),
        after.clocks().last() - DAY_RETENTION_SECS <= bucket_start(a.timestamp, DAY_BUCKET_SECS),
    ensures
        ({
            let day = after@.day;
            &&& day.len() > 0
            &&& day.last().start == bucket_start(a.timestamp, DAY_BUCKET_SECS)
            &&& day.last().count == 2
            &&& day.last().cpu_sum == a.cpu_percent + b.cpu_percent
            &&& valid_percent(a.cpu_percent) && valid_percent(b.cpu_percent) ==> forall|
                q: HistoryPoint,
            | #[trigger]
                day.last().reads_as(q) ==> 2 * q.cpu_percent == a.cpu_percent + b.cpu_percent
            &&& day.len() <= mid@.day.len()
            &&& after.clocks().last() <= mid.clocks().last() ==> day.len() == mid@.day.len()
        }),
{
    let now1 = mid.clocks().last();
    let now2 = after.clocks().last();
    assert(mid.ingested().drop_last() =~= before.ingested());
    assert(after.ingested().drop_last() =~= mid.ingested());
    assert(mid@ == before@.ingest(a, now1));
    assert(after@ == mid@.ingest(b, now2));
    lemma_same_minute_mean(before@, a, b, now1, now2);
}

/// The ordering law for a store built by `new` and `push` or `push_at`: with
/// non-decreasing timestamps no two buckets of a series share a slot.
pub proof fn lemma_store_buckets_ordered(store: &HistoryStore)
    requires
        store.wf(),
        non_decreasing(store.ingested()),
    ensures
        strictly_ordered(store@.day),
        strictly_ordered(store@.week),
{
    lemma_buckets_ordered(store.ingested(), store.clocks());
}

} // verus!
