//! Consolidation: reducing a non-empty ordered batch of snapshots into
//! one averaged snapshot.
//!
//! Averaged metrics (load averages, per-CPU and aggregate CPU load,
//! temperature, memory used, socket counts) are averaged over the batch
//! entries in which the metric was present, and rounded half away from
//! zero; a metric absent from every entry is absent from the result.
//! Memory total takes the running maximum rather than the average.
//! Point-in-time fields (uptime, boot timestamp, collection time, the
//! filesystem list, the interface list) are taken verbatim from the
//! chronologically last entry.

use vstd::arithmetic::div_mod::{
    lemma_div_is_ordered, lemma_div_multiples_vanish, lemma_fundamental_div_mod,
    lemma_mod_multiples_basic,
};
use vstd::arithmetic::mul::lemma_mul_inequality;
use vstd::prelude::*;

use crate::stats::{
    views, AllStats, AllStatsV, CpuStats, CpuStatsV, GeneralStats, LoadAverages, MemoryStats,
    NetworkStats, NetworkStatsV, SocketStats,
};

verus! {

/// The quotient `sum / n`, rounded half away from zero.
pub open spec fn avg_rounded(sum: int, n: int) -> int
    recommends
        n >= 1,
{
    if sum >= 0 {
        if 2 * (sum % n) >= n {
            sum / n + 1
        } else {
            sum / n
        }
    } else {
        -(if 2 * ((-sum) % n) >= n {
            (-sum) / n + 1
        } else {
            (-sum) / n
        })
    }
}

/// Sum, over a batch, of an optionally present metric; an entry where the
/// metric is absent contributes nothing.
pub open spec fn sum_present(batch: Seq<AllStatsV>, f: spec_fn(AllStatsV) -> Option<int>) -> int
    decreases batch.len(),
{
    if batch.len() == 0 {
        0
    } else {
        sum_present(batch.drop_last(), f) + match f(batch.last()) {
            Some(v) => v,
            None => 0,
        }
    }
}

/// How many entries of a batch have the metric present.
pub open spec fn count_present(batch: Seq<AllStatsV>, f: spec_fn(AllStatsV) -> Option<int>) -> int
    decreases batch.len(),
{
    if batch.len() == 0 {
        0
    } else {
        count_present(batch.drop_last(), f) + match f(batch.last()) {
            Some(v) => 1int,
            None => 0int,
        }
    }
}

/// Maximum, over a batch, of an optionally present metric; zero when the
/// metric is present nowhere.
pub open spec fn max_present(batch: Seq<AllStatsV>, f: spec_fn(AllStatsV) -> Option<int>) -> int
    decreases batch.len(),
{
    if batch.len() == 0 {
        0
    } else {
        let rest = max_present(batch.drop_last(), f);
        match f(batch.last()) {
            Some(v) => if v > rest {
                v
            } else {
                rest
            },
            None => rest,
        }
    }
}

/// Selector for the one-minute load average, in hundredths.
pub open spec fn sel_load_one() -> spec_fn(AllStatsV) -> Option<int> {
    |s: AllStatsV|
        match s.general.load_averages {
            Some(la) => Some(la.one_minute as int),
            None => None,
        }
}

/// Selector for the five-minute load average, in hundredths.
pub open spec fn sel_load_five() -> spec_fn(AllStatsV) -> Option<int> {
    |s: AllStatsV|
        match s.general.load_averages {
            Some(la) => Some(la.five_minutes as int),
            None => None,
        }
}

/// Selector for the fifteen-minute load average, in hundredths.
pub open spec fn sel_load_fifteen() -> spec_fn(AllStatsV) -> Option<int> {
    |s: AllStatsV|
        match s.general.load_averages {
            Some(la) => Some(la.fifteen_minutes as int),
            None => None,
        }
}

/// Selector for the aggregate CPU load, in hundredths of a percent.
pub open spec fn sel_aggregate() -> spec_fn(AllStatsV) -> Option<int> {
    |s: AllStatsV|
        match s.cpu.aggregate_load_percent {
            Some(v) => Some(v as int),
            None => None,
        }
}

/// Selector for the CPU temperature, in hundredths of a degree.
pub open spec fn sel_temp() -> spec_fn(AllStatsV) -> Option<int> {
    |s: AllStatsV|
        match s.cpu.temp_celsius {
            Some(v) => Some(v as int),
            None => None,
        }
}

/// Selector for used memory, in MB.
pub open spec fn sel_mem_used() -> spec_fn(AllStatsV) -> Option<int> {
    |s: AllStatsV|
        match s.memory {
            Some(m) => Some(m.used_mb as int),
            None => None,
        }
}

/// Selector for total memory, in MB.
pub open spec fn sel_mem_total() -> spec_fn(AllStatsV) -> Option<int> {
    |s: AllStatsV|
        match s.memory {
            Some(m) => Some(m.total_mb as int),
            None => None,
        }
}

/// Selector for one socket-count field, chosen by `k` (0 = TCP in use,
/// 1 = TCP orphaned, 2 = UDP in use, 3 = IPv6 TCP in use, 4 = IPv6 UDP
/// in use).
pub open spec fn sel_socket(k: int) -> spec_fn(AllStatsV) -> Option<int> {
    |s: AllStatsV|
        match s.network.sockets {
            Some(ss) => Some(
                if k == 0 {
                    ss.tcp_in_use as int
                } else if k == 1 {
                    ss.tcp_orphaned as int
                } else if k == 2 {
                    ss.udp_in_use as int
                } else if k == 3 {
                    ss.tcp6_in_use as int
                } else {
                    ss.udp6_in_use as int
                },
            ),
            None => None,
        }
}

/// The consolidated value of an averaged metric: the rounded average over
/// the entries where it was present, or absent if it was present nowhere.
pub open spec fn averaged(batch: Seq<AllStatsV>, f: spec_fn(AllStatsV) -> Option<int>) -> Option<
    int,
> {
    if count_present(batch, f) == 0 {
        None
    } else {
        Some(avg_rounded(sum_present(batch, f), count_present(batch, f)))
    }
}

/// The consolidated load averages of a batch.
pub open spec fn consolidated_loads(batch: Seq<AllStatsV>) -> Option<LoadAverages> {
    if count_present(batch, sel_load_one()) == 0 {
        None
    } else {
        Some(
            LoadAverages {
                one_minute: averaged(batch, sel_load_one()).unwrap() as u64,
                five_minutes: averaged(batch, sel_load_five()).unwrap() as u64,
                fifteen_minutes: averaged(batch, sel_load_fifteen()).unwrap() as u64,
            },
        )
    }
}

/// The consolidated memory statistics of a batch: average of used memory,
/// maximum of total memory.
pub open spec fn consolidated_memory(batch: Seq<AllStatsV>) -> Option<MemoryStats> {
    if count_present(batch, sel_mem_used()) == 0 {
        None
    } else {
        Some(
            MemoryStats {
                used_mb: averaged(batch, sel_mem_used()).unwrap() as u64,
                total_mb: max_present(batch, sel_mem_total()) as u64,
            },
        )
    }
}

/// The consolidated socket statistics of a batch: each count averaged and
/// rounded to the nearest integer.
pub open spec fn consolidated_sockets(batch: Seq<AllStatsV>) -> Option<SocketStats> {
    if count_present(batch, sel_socket(0)) == 0 {
        None
    } else {
        Some(
            SocketStats {
                tcp_in_use: averaged(batch, sel_socket(0)).unwrap() as usize,
                tcp_orphaned: averaged(batch, sel_socket(1)).unwrap() as usize,
                udp_in_use: averaged(batch, sel_socket(2)).unwrap() as usize,
                tcp6_in_use: averaged(batch, sel_socket(3)).unwrap() as usize,
                udp6_in_use: averaged(batch, sel_socket(4)).unwrap() as usize,
            },
        )
    }
}

/// How many entries of a batch carry a per-CPU load list.
pub open spec fn count_cpu_lists(batch: Seq<AllStatsV>) -> int
    decreases batch.len(),
{
    if batch.len() == 0 {
        0
    } else {
        count_cpu_lists(batch.drop_last()) + match batch.last().cpu.per_logical_cpu_load_percent {
            Some(v) => 1int,
            None => 0int,
        }
    }
}

/// The widest per-CPU load list in a batch.
pub open spec fn cpu_width(batch: Seq<AllStatsV>) -> int
    decreases batch.len(),
{
    if batch.len() == 0 {
        0
    } else {
        let rest = cpu_width(batch.drop_last());
        match batch.last().cpu.per_logical_cpu_load_percent {
            Some(v) => if v.len() > rest {
                v.len() as int
            } else {
                rest
            },
            None => rest,
        }
    }
}

/// Sum of the per-CPU load at position `j` over the entries carrying a
/// per-CPU list; a list shorter than `j + 1` entries is padded with zero.
pub open spec fn sum_cpu_at(batch: Seq<AllStatsV>, j: int) -> int
    decreases batch.len(),
{
    if batch.len() == 0 {
        0
    } else {
        sum_cpu_at(batch.drop_last(), j) + match batch.last().cpu.per_logical_cpu_load_percent {
            Some(v) => if 0 <= j < v.len() {
                v[j] as int
            } else {
                0
            },
            None => 0,
        }
    }
}

/// The consolidated per-CPU load list of a batch: element-wise rounded
/// averages over the entries carrying a list, ragged lists padded with
/// zeros up to the widest list seen.
pub open spec fn consolidated_per_cpu(batch: Seq<AllStatsV>) -> Option<Seq<u64>> {
    if count_cpu_lists(batch) == 0 {
        None
    } else {
        Some(
            Seq::new(
                cpu_width(batch) as nat,
                |j: int| avg_rounded(sum_cpu_at(batch, j), count_cpu_lists(batch)) as u64,
            ),
        )
    }
}

/// The consolidation of a non-empty batch of snapshots: averaged metrics
/// averaged over presence, memory total maximized, socket counts rounded,
/// and point-in-time fields taken from the last entry.
pub open spec fn consolidate_spec(batch: Seq<AllStatsV>) -> AllStatsV
    recommends
        batch.len() >= 1,
{
    AllStatsV {
        general: GeneralStats {
            uptime_seconds: batch.last().general.uptime_seconds,
            boot_timestamp: batch.last().general.boot_timestamp,
            load_averages: consolidated_loads(batch),
        },
        cpu: CpuStatsV {
            per_logical_cpu_load_percent: consolidated_per_cpu(batch),
            aggregate_load_percent: match averaged(batch, sel_aggregate()) {
                Some(v) => Some(v as u64),
                None => None,
            },
            temp_celsius: match averaged(batch, sel_temp()) {
                Some(v) => Some(v as i64),
                None => None,
            },
        },
        memory: consolidated_memory(batch),
        filesystems: batch.last().filesystems,
        network: NetworkStatsV {
            interfaces: batch.last().network.interfaces,
            sockets: consolidated_sockets(batch),
        },
        collection_time: batch.last().collection_time,
    }
}

/// A rounded average lies between zero and any common upper bound of the
/// summed values.
proof fn lemma_avg_bounds(sum: int, n: int, bound: int)
    requires
        n >= 1,
        bound >= 0,
        0 <= sum <= n * bound,
    ensures
        0 <= avg_rounded(sum, n) <= bound,
{
    lemma_fundamental_div_mod(sum, n);
    lemma_div_is_ordered(0, sum, n);
    if 2 * (sum % n) >= n {
        assert(sum / n < bound) by (nonlinear_arith)
            requires
                n >= 1,
                sum <= n * bound,
                sum % n > 0,
                sum == n * (sum / n) + sum % n,
        ;
    } else {
        assert(sum / n <= bound) by (nonlinear_arith)
            requires
                n >= 1,
                sum <= n * bound,
                0 <= sum % n,
                sum == n * (sum / n) + sum % n,
        ;
    }
}

/// The rounded average of `n` copies of one value is that value.
proof fn lemma_avg_uniform(x: int, n: int)
    requires
        n >= 1,
    ensures
        avg_rounded(n * x, n) == x,
{
    if x >= 0 {
        lemma_div_multiples_vanish(x, n);
        lemma_mod_multiples_basic(x, n);
        assert(n * x == x * n) by (nonlinear_arith);
    } else {
        assert(-(n * x) == n * (-x)) by (nonlinear_arith);
        lemma_div_multiples_vanish(-x, n);
        lemma_mod_multiples_basic(-x, n);
        assert(n * (-x) == (-x) * n) by (nonlinear_arith);
    }
}

/// Rounded average of a nonnegative sum of `n` values, each at most
/// `u64::MAX`.
fn avg_u64(sum: u128, n: usize) -> (r: u64)
    requires
        n >= 1,
        sum <= n * (u64::MAX as int),
    ensures
        r == avg_rounded(sum as int, n as int),
{
    proof {
        lemma_avg_bounds(sum as int, n as int, u64::MAX as int);
    }
    let q = sum / (n as u128);
    let rem = sum % (n as u128);
    assert(q == (sum as int) / (n as int));
    assert(rem == (sum as int) % (n as int));
    assert(rem < n as u128);
    if 2 * rem >= (n as u128) {
        assert(avg_rounded(sum as int, n as int) == q + 1);
        (q + 1) as u64
    } else {
        assert(avg_rounded(sum as int, n as int) == q);
        q as u64
    }
}

/// Rounded average of a possibly negative sum of `n` values, each within
/// the `i64` range.
fn avg_i64(sum: i128, n: usize) -> (r: i64)
    requires
        n >= 1,
        n * (i64::MIN as int) <= sum <= n * (i64::MAX as int),
    ensures
        r == avg_rounded(sum as int, n as int),
{
    if sum >= 0 {
        proof {
            lemma_avg_bounds(sum as int, n as int, i64::MAX as int);
        }
        let q = (sum as u128) / (n as u128);
        let rem = (sum as u128) % (n as u128);
        if 2 * rem >= (n as u128) {
            (q + 1) as i64
        } else {
            q as i64
        }
    } else {
        proof {
            assert(-(n * (i64::MIN as int)) == n * (-(i64::MIN as int))) by (nonlinear_arith);
            lemma_avg_bounds(-(sum as int), n as int, -(i64::MIN as int));
        }
        let mag = (-sum) as u128;
        assert(mag == -(sum as int));
        let q = mag / (n as u128);
        let rem = mag % (n as u128);
        assert(q == (mag as int) / (n as int));
        assert(rem == (mag as int) % (n as int));
        assert(rem < n as u128);
        let m = if 2 * rem >= (n as u128) {
            q + 1
        } else {
            q
        };
        proof {
            assert(avg_rounded(sum as int, n as int) == -(m as int));
            assert(m <= -(i64::MIN as int));
        }
        (-(m as i128)) as i64
    }
}

/// Step bound for accumulating at most `n` values, each between `0` and
/// `m`, into a running sum.
proof fn lemma_sum_step(cnt: int, n: int, m: int, sum: int, val: int)
    by (nonlinear_arith)
    requires
        0 <= cnt < n,
        n <= 0xffff_ffff_ffff_ffff,
        0 <= m <= 0xffff_ffff_ffff_ffff,
        0 <= val <= m,
        0 <= sum <= cnt * m,
    ensures
        0 <= sum + val <= (cnt + 1) * m,
        (cnt + 1) * m <= n * m < 0x1_0000_0000_0000_0000_0000_0000_0000_0000,
{
}

/// Step bound for accumulating at most `n` values, each between `lo` and
/// `hi`, into a running signed sum.
proof fn lemma_sum_step_signed(cnt: int, n: int, lo: int, hi: int, sum: int, val: int)
    by (nonlinear_arith)
    requires
        0 <= cnt < n,
        n <= 0xffff_ffff_ffff_ffff,
        lo <= 0 <= hi,
        -0x8000_0000_0000_0000 <= lo,
        hi <= 0x7fff_ffff_ffff_ffff,
        lo <= val <= hi,
        cnt * lo <= sum <= cnt * hi,
    ensures
        (cnt + 1) * lo <= sum + val <= (cnt + 1) * hi,
        -0x8000_0000_0000_0000_0000_0000_0000_0000 < n * lo <= (cnt + 1) * lo,
        (cnt + 1) * hi <= n * hi < 0x8000_0000_0000_0000_0000_0000_0000_0000,
{
}

/// Consolidated load averages of a batch.
fn consolidate_loads(stats_list: &Vec<AllStats>) -> (r: Option<LoadAverages>)
    ensures
        r == consolidated_loads(views(stats_list@)),
{
    let ghost b = views(stats_list@);
    let mut sum1: u128 = 0;
    let mut sum5: u128 = 0;
    let mut sum15: u128 = 0;
    let mut cnt: usize = 0;
    let n = stats_list.len();
    let m: u64 = u64::MAX;
    for i in 0..n
        invariant
            n == stats_list@.len(),
            b == views(stats_list@),
            cnt == count_present(b.take(i as int), sel_load_one()),
            cnt == count_present(b.take(i as int), sel_load_five()),
            cnt == count_present(b.take(i as int), sel_load_fifteen()),
            cnt <= i,
            sum1 == sum_present(b.take(i as int), sel_load_one()),
            sum5 == sum_present(b.take(i as int), sel_load_five()),
            sum15 == sum_present(b.take(i as int), sel_load_fifteen()),
            sum1 <= cnt * (u64::MAX as int),
            sum5 <= cnt * (u64::MAX as int),
            sum15 <= cnt * (u64::MAX as int),
    {
        proof {
            assert(b.take(i + 1).drop_last() =~= b.take(i as int));
            assert(b.take(i + 1).last() == b[i as int]);
        }
        match &stats_list[i].general.load_averages {
            Some(la) => {
                proof {
                    lemma_sum_step(cnt as int, n as int, u64::MAX as int, sum1 as int,
                        la.one_minute as int);
                    lemma_sum_step(cnt as int, n as int, u64::MAX as int, sum5 as int,
                        la.five_minutes as int);
                    lemma_sum_step(cnt as int, n as int, u64::MAX as int, sum15 as int,
                        la.fifteen_minutes as int);
                }
                sum1 = sum1 + la.one_minute as u128;
                sum5 = sum5 + la.five_minutes as u128;
                sum15 = sum15 + la.fifteen_minutes as u128;
                cnt = cnt + 1;
            },
            None => {},
        }
    }
    proof {
        assert(b.take(n as int) =~= b);
    }
    if cnt == 0 {
        None
    } else {
        Some(
            LoadAverages {
                one_minute: avg_u64(sum1, cnt),
                five_minutes: avg_u64(sum5, cnt),
                fifteen_minutes: avg_u64(sum15, cnt),
            },
        )
    }
}

/// Consolidated aggregate CPU load of a batch.
fn consolidate_aggregate(stats_list: &Vec<AllStats>) -> (r: Option<u64>)
    ensures
        r == match averaged(views(stats_list@), sel_aggregate()) {
            Some(v) => Some(v as u64),
            None => None::<u64>,
        },
{
    let ghost b = views(stats_list@);
    let mut sum: u128 = 0;
    let mut cnt: usize = 0;
    let n = stats_list.len();
    for i in 0..n
        invariant
            n == stats_list@.len(),
            b == views(stats_list@),
            cnt == count_present(b.take(i as int), sel_aggregate()),
            cnt <= i,
            sum == sum_present(b.take(i as int), sel_aggregate()),
            sum <= cnt * (u64::MAX as int),
    {
        proof {
            assert(b.take(i + 1).drop_last() =~= b.take(i as int));
            assert(b.take(i + 1).last() == b[i as int]);
        }
        match stats_list[i].cpu.aggregate_load_percent {
            Some(v) => {
                proof {
                    lemma_sum_step(cnt as int, n as int, u64::MAX as int, sum as int, v as int);
                }
                sum = sum + v as u128;
                cnt = cnt + 1;
            },
            None => {},
        }
    }
    proof {
        assert(b.take(n as int) =~= b);
    }
    if cnt == 0 {
        None
    } else {
        Some(avg_u64(sum, cnt))
    }
}

/// Consolidated CPU temperature of a batch.
fn consolidate_temp(stats_list: &Vec<AllStats>) -> (r: Option<i64>)
    ensures
        r == match averaged(views(stats_list@), sel_temp()) {
            Some(v) => Some(v as i64),
            None => None::<i64>,
        },
{
    let ghost b = views(stats_list@);
    let mut sum: i128 = 0;
    let mut cnt: usize = 0;
    let n = stats_list.len();
    for i in 0..n
        invariant
            n == stats_list@.len(),
            b == views(stats_list@),
            cnt == count_present(b.take(i as int), sel_temp()),
            cnt <= i,
            sum == sum_present(b.take(i as int), sel_temp()),
            cnt * (i64::MIN as int) <= sum <= cnt * (i64::MAX as int),
    {
        proof {
            assert(b.take(i + 1).drop_last() =~= b.take(i as int));
            assert(b.take(i + 1).last() == b[i as int]);
        }
        match stats_list[i].cpu.temp_celsius {
            Some(v) => {
                proof {
                    lemma_sum_step_signed(cnt as int, n as int, i64::MIN as int, i64::MAX as int,
                        sum as int, v as int);
                }
                sum = sum + v as i128;
                cnt = cnt + 1;
            },
            None => {},
        }
    }
    proof {
        assert(b.take(n as int) =~= b);
    }
    if cnt == 0 {
        None
    } else {
        Some(avg_i64(sum, cnt))
    }
}

/// Consolidated memory statistics of a batch.
fn consolidate_memory(stats_list: &Vec<AllStats>) -> (r: Option<MemoryStats>)
    ensures
        r == consolidated_memory(views(stats_list@)),
{
    let ghost b = views(stats_list@);
    let mut sum: u128 = 0;
    let mut max_total: u64 = 0;
    let mut cnt: usize = 0;
    let n = stats_list.len();
    for i in 0..n
        invariant
            n == stats_list@.len(),
            b == views(stats_list@),
            cnt == count_present(b.take(i as int), sel_mem_used()),
            cnt <= i,
            sum == sum_present(b.take(i as int), sel_mem_used()),
            sum <= cnt * (u64::MAX as int),
            max_total == max_present(b.take(i as int), sel_mem_total()),
    {
        proof {
            assert(b.take(i + 1).drop_last() =~= b.take(i as int));
            assert(b.take(i + 1).last() == b[i as int]);
        }
        match stats_list[i].memory {
            Some(mem) => {
                proof {
                    lemma_sum_step(cnt as int, n as int, u64::MAX as int, sum as int,
                        mem.used_mb as int);
                }
                sum = sum + mem.used_mb as u128;
                cnt = cnt + 1;
                if mem.total_mb > max_total {
                    max_total = mem.total_mb;
                }
            },
            None => {},
        }
    }
    proof {
        assert(b.take(n as int) =~= b);
    }
    if cnt == 0 {
        None
    } else {
        Some(MemoryStats { used_mb: avg_u64(sum, cnt), total_mb: max_total })
    }
}

/// Consolidated socket statistics of a batch.
fn consolidate_sockets(stats_list: &Vec<AllStats>) -> (r: Option<SocketStats>)
    ensures
        r == consolidated_sockets(views(stats_list@)),
{
    let ghost b = views(stats_list@);
    let mut sum_tcp: u128 = 0;
    let mut sum_orph: u128 = 0;
    let mut sum_udp: u128 = 0;
    let mut sum_tcp6: u128 = 0;
    let mut sum_udp6: u128 = 0;
    let mut cnt: usize = 0;
    let n = stats_list.len();
    for i in 0..n
        invariant
            n == stats_list@.len(),
            b == views(stats_list@),
            cnt == count_present(b.take(i as int), sel_socket(0)),
            cnt == count_present(b.take(i as int), sel_socket(1)),
            cnt == count_present(b.take(i as int), sel_socket(2)),
            cnt == count_present(b.take(i as int), sel_socket(3)),
            cnt == count_present(b.take(i as int), sel_socket(4)),
            cnt <= i,
            sum_tcp == sum_present(b.take(i as int), sel_socket(0)),
            sum_orph == sum_present(b.take(i as int), sel_socket(1)),
            sum_udp == sum_present(b.take(i as int), sel_socket(2)),
            sum_tcp6 == sum_present(b.take(i as int), sel_socket(3)),
            sum_udp6 == sum_present(b.take(i as int), sel_socket(4)),
            sum_tcp <= cnt * (usize::MAX as int),
            sum_orph <= cnt * (usize::MAX as int),
            sum_udp <= cnt * (usize::MAX as int),
            sum_tcp6 <= cnt * (usize::MAX as int),
            sum_udp6 <= cnt * (usize::MAX as int),
    {
        proof {
            assert(b.take(i + 1).drop_last() =~= b.take(i as int));
            assert(b.take(i + 1).last() == b[i as int]);
        }
        match stats_list[i].network.sockets {
            Some(ss) => {
                proof {
                    lemma_sum_step(cnt as int, n as int, usize::MAX as int, sum_tcp as int,
                        ss.tcp_in_use as int);
                    lemma_sum_step(cnt as int, n as int, usize::MAX as int, sum_orph as int,
                        ss.tcp_orphaned as int);
                    lemma_sum_step(cnt as int, n as int, usize::MAX as int, sum_udp as int,
                        ss.udp_in_use as int);
                    lemma_sum_step(cnt as int, n as int, usize::MAX as int, sum_tcp6 as int,
                        ss.tcp6_in_use as int);
                    lemma_sum_step(cnt as int, n as int, usize::MAX as int, sum_udp6 as int,
                        ss.udp6_in_use as int);
                }
                sum_tcp = sum_tcp + ss.tcp_in_use as u128;
                sum_orph = sum_orph + ss.tcp_orphaned as u128;
                sum_udp = sum_udp + ss.udp_in_use as u128;
                sum_tcp6 = sum_tcp6 + ss.tcp6_in_use as u128;
                sum_udp6 = sum_udp6 + ss.udp6_in_use as u128;
                cnt = cnt + 1;
            },
            None => {},
        }
    }
    proof {
        assert(b.take(n as int) =~= b);
    }
    if cnt == 0 {
        None
    } else {
        let r = SocketStats {
            tcp_in_use: avg_usize(sum_tcp, cnt),
            tcp_orphaned: avg_usize(sum_orph, cnt),
            udp_in_use: avg_usize(sum_udp, cnt),
            tcp6_in_use: avg_usize(sum_tcp6, cnt),
            udp6_in_use: avg_usize(sum_udp6, cnt),
        };
        Some(r)
    }
}

/// Rounded average of a nonnegative sum of `n` values, each at most
/// `usize::MAX`.
fn avg_usize(sum: u128, n: usize) -> (r: usize)
    requires
        n >= 1,
        sum <= n * (usize::MAX as int),
    ensures
        r == avg_rounded(sum as int, n as int),
{
    proof {
        lemma_avg_bounds(sum as int, n as int, usize::MAX as int);
        lemma_mul_inequality(n as int, u64::MAX as int, usize::MAX as int);
    }
    let q = sum / (n as u128);
    let rem = sum % (n as u128);
    assert(q == (sum as int) / (n as int));
    assert(rem == (sum as int) % (n as int));
    assert(rem < n as u128);
    if 2 * rem >= (n as u128) {
        assert(avg_rounded(sum as int, n as int) == q + 1);
        (q + 1) as usize
    } else {
        assert(avg_rounded(sum as int, n as int) == q);
        q as usize
    }
}

/// Consolidated per-CPU load list of a batch.
fn consolidate_per_cpu(stats_list: &Vec<AllStats>) -> (r: Option<Vec<u64>>)
    ensures
        match r {
            Some(v) => consolidated_per_cpu(views(stats_list@)) == Some(v@),
            None => consolidated_per_cpu(views(stats_list@)) is None,
        },
{
    let ghost b = views(stats_list@);
    let mut width: usize = 0;
    let mut cnt: usize = 0;
    let n = stats_list.len();
    for i in 0..n
        invariant
            n == stats_list@.len(),
            b == views(stats_list@),
            cnt == count_cpu_lists(b.take(i as int)),
            cnt <= i,
            width == cpu_width(b.take(i as int)),
    {
        proof {
            assert(b.take(i + 1).drop_last() =~= b.take(i as int));
            assert(b.take(i + 1).last() == b[i as int]);
        }
        match &stats_list[i].cpu.per_logical_cpu_load_percent {
            Some(list) => {
                if list.len() > width {
                    width = list.len();
                }
                cnt = cnt + 1;
            },
            None => {},
        }
    }
    proof {
        assert(b.take(n as int) =~= b);
    }
    if cnt == 0 {
        return None;
    }
    let mut out: Vec<u64> = Vec::new();
    for j in 0..width
        invariant
            n == stats_list@.len(),
            b == views(stats_list@),
            cnt == count_cpu_lists(b),
            1 <= cnt <= n,
            width == cpu_width(b),
            out@.len() == j,
            forall|k: int|
                0 <= k < j ==> out@[k] == avg_rounded(sum_cpu_at(b, k), count_cpu_lists(b)) as u64,
    {
        let mut sum: u128 = 0;
        let ghost gcnt = count_cpu_lists(b);
        for i in 0..n
            invariant
                n == stats_list@.len(),
                b == views(stats_list@),
                j < width,
                sum == sum_cpu_at(b.take(i as int), j as int),
                count_cpu_lists(b.take(i as int)) <= i,
                count_cpu_lists(b.take(i as int)) <= count_cpu_lists(b),
                sum <= count_cpu_lists(b.take(i as int)) * (u64::MAX as int),
                cnt == count_cpu_lists(b),
                1 <= cnt <= n,
        {
            proof {
                assert(b.take(i + 1).drop_last() =~= b.take(i as int));
                assert(b.take(i + 1).last() == b[i as int]);
                lemma_count_cpu_lists_take_le(b, i + 1);
            }
            match &stats_list[i].cpu.per_logical_cpu_load_percent {
                Some(list) => {
                    let ghost c0 = count_cpu_lists(b.take(i as int));
                    let val: u64 = if j < list.len() {
                        list[j]
                    } else {
                        0
                    };
                    proof {
                        lemma_sum_step(c0, n as int, u64::MAX as int, sum as int, val as int);
                        lemma_mul_inequality(c0 + 1, cnt as int, u64::MAX as int);
                    }
                    sum = sum + val as u128;
                },
                None => {},
            }
        }
        proof {
            assert(b.take(n as int) =~= b);
            lemma_mul_inequality(count_cpu_lists(b), cnt as int, u64::MAX as int);
        }
        let a = avg_u64(sum, cnt);
        out.push(a);
    }
    proof {
        assert(out@ =~= Seq::new(
            cpu_width(b) as nat,
            |j: int| avg_rounded(sum_cpu_at(b, j), count_cpu_lists(b)) as u64,
        ));
    }
    Some(out)
}

/// The number of per-CPU lists in a prefix never exceeds the number in
/// the whole batch.
proof fn lemma_count_cpu_lists_take_le(b: Seq<AllStatsV>, i: int)
    requires
        0 <= i <= b.len(),
    ensures
        count_cpu_lists(b.take(i)) <= count_cpu_lists(b),
        count_cpu_lists(b.take(i)) >= 0,
        count_cpu_lists(b) >= 0,
    decreases b.len() - i,
{
    if i == b.len() {
        assert(b.take(i) =~= b);
        lemma_count_cpu_lists_nonneg(b);
    } else {
        lemma_count_cpu_lists_take_le(b, i + 1);
        assert(b.take(i + 1).drop_last() =~= b.take(i));
        lemma_count_cpu_lists_nonneg(b.take(i));
    }
}

/// A count of list-carrying entries is nonnegative.
proof fn lemma_count_cpu_lists_nonneg(b: Seq<AllStatsV>)
    ensures
        count_cpu_lists(b) >= 0,
    decreases b.len(),
{
    if b.len() > 0 {
        lemma_count_cpu_lists_nonneg(b.drop_last());
    }
}

/// Consolidates a non-empty list of statistics into one averaged
/// snapshot. The batch must not be empty: that is a contract violation
/// on the caller, not a recoverable error.
pub fn consolidate_all_stats(stats_list: &Vec<AllStats>) -> (r: AllStats)
    requires
        stats_list@.len() >= 1,
    ensures
        r@ == consolidate_spec(views(stats_list@)),
{
    let ghost b = views(stats_list@);
    let loads = consolidate_loads(stats_list);
    let per_cpu = consolidate_per_cpu(stats_list);
    let aggregate = consolidate_aggregate(stats_list);
    let temp = consolidate_temp(stats_list);
    let memory = consolidate_memory(stats_list);
    let sockets = consolidate_sockets(stats_list);
    let last = stats_list[stats_list.len() - 1].clone();
    proof {
        assert(b.last() == stats_list@.last()@);
    }
    let r = AllStats {
        general: GeneralStats {
            uptime_seconds: last.general.uptime_seconds,
            boot_timestamp: last.general.boot_timestamp,
            load_averages: loads,
        },
        cpu: CpuStats {
            per_logical_cpu_load_percent: per_cpu,
            aggregate_load_percent: aggregate,
            temp_celsius: temp,
        },
        memory,
        filesystems: last.filesystems,
        network: NetworkStats {
            interfaces: last.network.interfaces,
            sockets,
        },
        collection_time: last.collection_time,
    };
    proof {
        assert(r@ =~~= consolidate_spec(b));
    }
    r
}

/// Over a batch whose entries are all `v`, a metric's sum is the batch
/// length times its value in `v`, and its count is the batch length.
proof fn lemma_sum_count_uniform(batch: Seq<AllStatsV>, v: AllStatsV, f: spec_fn(AllStatsV) -> Option<int>)
    requires
        forall|i: int| 0 <= i < batch.len() ==> batch[i] == v,
    ensures
        match f(v) {
            Some(x) => count_present(batch, f) == batch.len() && sum_present(batch, f)
                == batch.len() * x,
            None => count_present(batch, f) == 0 && sum_present(batch, f) == 0,
        },
    decreases batch.len(),
{
    if batch.len() > 0 {
        lemma_sum_count_uniform(batch.drop_last(), v, f);
        match f(v) {
            Some(x) => {
                assert(batch.len() * x == (batch.len() - 1) * x + x) by (nonlinear_arith);
            },
            None => {},
        }
    }
}

/// Over a batch whose entries are all `v`, a nonnegative metric's
/// maximum is its value in `v`.
proof fn lemma_max_uniform(batch: Seq<AllStatsV>, v: AllStatsV, f: spec_fn(AllStatsV) -> Option<int>)
    requires
        batch.len() >= 1,
        forall|i: int| 0 <= i < batch.len() ==> batch[i] == v,
        f(v) is Some ==> f(v).unwrap() >= 0,
    ensures
        match f(v) {
            Some(x) => max_present(batch, f) == x,
            None => max_present(batch, f) == 0,
        },
    decreases batch.len(),
{
    if batch.len() > 1 {
        lemma_max_uniform(batch.drop_last(), v, f);
    } else {
        assert(max_present(batch.drop_last(), f) == 0);
    }
}

/// Over a batch whose entries are all `v`, the per-CPU machinery reduces
/// to `v`'s own per-CPU list.
proof fn lemma_cpu_uniform(batch: Seq<AllStatsV>, v: AllStatsV)
    requires
        batch.len() >= 1,
        forall|i: int| 0 <= i < batch.len() ==> batch[i] == v,
    ensures
        match v.cpu.per_logical_cpu_load_percent {
            Some(s) => count_cpu_lists(batch) == batch.len() && cpu_width(batch) == s.len()
                && forall|j: int| 0 <= j < s.len() ==> sum_cpu_at(batch, j) == batch.len() * (
            s[j] as int),
            None => count_cpu_lists(batch) == 0 && cpu_width(batch) == 0,
        },
    decreases batch.len(),
{
    if batch.len() > 1 {
        lemma_cpu_uniform(batch.drop_last(), v);
    } else {
        assert(count_cpu_lists(batch.drop_last()) == 0);
        assert(cpu_width(batch.drop_last()) == 0);
    }
    match v.cpu.per_logical_cpu_load_percent {
        Some(s) => {
            assert forall|j: int| 0 <= j < s.len() implies sum_cpu_at(batch, j) == batch.len() * (
            s[j] as int) by {
                let prev = sum_cpu_at(batch.drop_last(), j);
                if batch.len() == 1 {
                    assert(prev == 0);
                } else {
                    assert(prev == (batch.len() - 1) * (s[j] as int));
                }
                assert(sum_cpu_at(batch, j) == prev + s[j]);
                assert(batch.len() * (s[j] as int) == (batch.len() - 1) * (s[j] as int) + s[j])
                    by (nonlinear_arith);
            }
        },
        None => {},
    }
}

/// Consolidating a batch of identical snapshots yields that same
/// snapshot: every averaged metric averages to its uniform value, the
/// memory maximum is the uniform total, and the point-in-time fields come
/// from the (identical) last entry.
pub proof fn lemma_consolidate_uniform(batch: Seq<AllStatsV>, v: AllStatsV)
    requires
        batch.len() >= 1,
        forall|i: int| 0 <= i < batch.len() ==> batch[i] == v,
    ensures
        consolidate_spec(batch) == v,
{
    let n = batch.len() as int;
    lemma_sum_count_uniform(batch, v, sel_load_one());
    lemma_sum_count_uniform(batch, v, sel_load_five());
    lemma_sum_count_uniform(batch, v, sel_load_fifteen());
    lemma_sum_count_uniform(batch, v, sel_aggregate());
    lemma_sum_count_uniform(batch, v, sel_temp());
    lemma_sum_count_uniform(batch, v, sel_mem_used());
    lemma_sum_count_uniform(batch, v, sel_socket(0));
    lemma_sum_count_uniform(batch, v, sel_socket(1));
    lemma_sum_count_uniform(batch, v, sel_socket(2));
    lemma_sum_count_uniform(batch, v, sel_socket(3));
    lemma_sum_count_uniform(batch, v, sel_socket(4));
    lemma_max_uniform(batch, v, sel_mem_total());
    lemma_cpu_uniform(batch, v);
    match v.general.load_averages {
        Some(la) => {
            lemma_avg_uniform(la.one_minute as int, n);
            lemma_avg_uniform(la.five_minutes as int, n);
            lemma_avg_uniform(la.fifteen_minutes as int, n);
        },
        None => {},
    }
    match v.cpu.aggregate_load_percent {
        Some(x) => lemma_avg_uniform(x as int, n),
        None => {},
    }
    match v.cpu.temp_celsius {
        Some(x) => lemma_avg_uniform(x as int, n),
        None => {},
    }
    match v.memory {
        Some(m) => lemma_avg_uniform(m.used_mb as int, n),
        None => {},
    }
    match v.network.sockets {
        Some(ss) => {
            lemma_avg_uniform(ss.tcp_in_use as int, n);
            lemma_avg_uniform(ss.tcp_orphaned as int, n);
            lemma_avg_uniform(ss.udp_in_use as int, n);
            lemma_avg_uniform(ss.tcp6_in_use as int, n);
            lemma_avg_uniform(ss.udp6_in_use as int, n);
        },
        None => {},
    }
    match v.cpu.per_logical_cpu_load_percent {
        Some(s) => {
            assert forall|j: int| 0 <= j < s.len() implies avg_rounded(
                sum_cpu_at(batch, j),
                count_cpu_lists(batch),
            ) == s[j] by {
                lemma_avg_uniform(s[j] as int, n);
            }
            assert(consolidated_per_cpu(batch).unwrap() =~= s);
        },
        None => {},
    }
    assert(batch.last() == v);
    assert(consolidate_spec(batch) =~~= v);
}

} // verus!
