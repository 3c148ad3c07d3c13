//! The arithmetic of a snapshot: usage percentages, disk totals over the
//! mounts that count, the mean CPU frequency, and which sensors qualify.
use crate::model::{DiskStats, MemoryStats};
use crate::temps::lower_of;
use crate::text::{
    contains, contains_seq, ends_with, ends_with_seq, starts_with, starts_with_seq, str_eq,
};
use vstd::prelude::*;
use vstd::string::StrSliceExecFns;

verus! {

/// `part` as a share of `whole`, in hundredths of a percent, rounded to a
/// tenth of a percent (halves up) and held at 100 %; 0 when `whole` is 0.
pub open spec fn usage_of(part: int, whole: int) -> int {
    if whole == 0 {
        0
    } else {
        let tenths = (2000 * part + whole) / (2 * whole);
        if tenths > 1000 {
            10000
        } else {
            tenths * 10
        }
    }
}

/// The usage of `part` out of `whole`.
pub fn usage_percent(part: u64, whole: u64) -> (r: u32)
    ensures
        r == usage_of(part as int, whole as int),
        r <= 10000,
        r % 10 == 0,
{
    if whole == 0 {
        return 0;
    }
    let tenths = (2000 * (part as u128) + whole as u128) / (2 * whole as u128);
    if tenths > 1000 {
        10000
    } else {
        (tenths * 10) as u32
    }
}

/// Memory figures with their usage.
pub fn memory_stats(total: u64, used: u64, free: u64) -> (r: MemoryStats)
    ensures
        r.usage_percent == usage_of(used as int, total as int),
        r.total_bytes == total,
        r.used_bytes == used,
        r.free_bytes == free,
{
    MemoryStats {
        usage_percent: usage_percent(used, total),
        total_bytes: total,
        free_bytes: free,
        used_bytes: used,
    }
}

/// One mounted filesystem.
#[derive(Debug, Clone, PartialEq, Eq)]
pub struct DiskSpace {
    pub mount: String,
    pub total: u64,
    pub available: u64,
}

/// The mounts that hold user data: `/`, and those under `/home`, `/mnt` and
/// `/media`.
pub open spec fn counted_mount(m: Seq<char>) -> bool {
    ||| m == seq!['/']
    ||| starts_with_seq(m, seq!['/', 'h', 'o', 'm', 'e'])
    ||| starts_with_seq(m, seq!['/', 'm', 'n', 't'])
    ||| starts_with_seq(m, seq!['/', 'm', 'e', 'd', 'i', 'a'])
}

/// Whether a mount point holds user data.
pub fn is_counted_mount(mount: &str) -> (r: bool)
    ensures
        r == counted_mount(mount@),
{
    proof {
        reveal_strlit("/");
        reveal_strlit("/home");
        reveal_strlit("/mnt");
        reveal_strlit("/media");
        assert("/"@ =~= seq!['/']);
        assert("/home"@ =~= seq!['/', 'h', 'o', 'm', 'e']);
        assert("/mnt"@ =~= seq!['/', 'm', 'n', 't']);
        assert("/media"@ =~= seq!['/', 'm', 'e', 'd', 'i', 'a']);
    }
    str_eq(mount, "/") || starts_with(mount, "/home") || starts_with(mount, "/mnt") || starts_with(
        mount,
        "/media",
    )
}

/// Total and available space of the disks in `d` (all of them, or only the
/// counted mounts), as mathematical sums.
pub open spec fn space_sums(d: Seq<DiskSpace>, only_counted: bool) -> (int, int)
    decreases d.len(),
{
    if d.len() == 0 {
        (0, 0)
    } else {
        let rest = space_sums(d.drop_last(), only_counted);
        if !only_counted || counted_mount(d.last().mount@) {
            (rest.0 + d.last().total, rest.1 + d.last().available)
        } else {
            rest
        }
    }
}

pub open spec fn cap_u64(x: int) -> int {
    if x > u64::MAX {
        u64::MAX as int
    } else {
        x
    }
}

fn sum_space(disks: &Vec<DiskSpace>, only_counted: bool) -> (r: (u64, u64))
    ensures
        r.0 == cap_u64(space_sums(disks@, only_counted).0),
        r.1 == cap_u64(space_sums(disks@, only_counted).1),
{
    let mut total: u64 = 0;
    let mut available: u64 = 0;
    let mut i: usize = 0;
    while i < disks.len()
        invariant
            i <= disks@.len(),
            space_sums(disks@.subrange(0, i as int), only_counted).0 >= 0,
            space_sums(disks@.subrange(0, i as int), only_counted).1 >= 0,
            total == cap_u64(space_sums(disks@.subrange(0, i as int), only_counted).0),
            available == cap_u64(space_sums(disks@.subrange(0, i as int), only_counted).1),
        decreases disks@.len() - i,
    {
        proof {
            assert(disks@.subrange(0, i + 1).drop_last() =~= disks@.subrange(0, i as int));
        }
        if !only_counted || is_counted_mount(disks[i].mount.as_str()) {
            total = total.saturating_add(disks[i].total);
            available = available.saturating_add(disks[i].available);
        }
        i += 1;
    }
    proof {
        assert(disks@.subrange(0, disks@.len() as int) =~= disks@);
    }
    (total, available)
}

/// Disk figures over the counted mounts, or over every disk when the counted
/// mounts hold no space. Sums are held at `u64::MAX`.
pub fn disk_stats(disks: &Vec<DiskSpace>) -> (r: DiskStats)
    ensures
        ({
            let counted = space_sums(disks@, true);
            let all = space_sums(disks@, false);
            let sums = if cap_u64(counted.0) == 0 {
                all
            } else {
                counted
            };
            let total = cap_u64(sums.0);
            let available = cap_u64(sums.1);
            let used = if total > available {
                total - available
            } else {
                0
            };
            &&& r.total_bytes == total
            &&& r.available_bytes == available
            &&& r.used_bytes == used
            &&& r.usage_percent == usage_of(used, total)
        }),
{
    let (mut total, mut available) = sum_space(disks, true);
    if total == 0 {
        let all = sum_space(disks, false);
        total = all.0;
        available = all.1;
    }
    let used = total.saturating_sub(available);
    DiskStats {
        usage_percent: usage_percent(used, total),
        used_bytes: used,
        available_bytes: available,
        total_bytes: total,
    }
}

pub open spec fn sum_u64(v: Seq<u64>) -> int
    decreases v.len(),
{
    if v.len() == 0 {
        0
    } else {
        sum_u64(v.drop_last()) + v.last()
    }
}

/// The integer mean of per-core frequencies; 0 for no cores.
pub fn mean_frequency(freqs: &Vec<u64>) -> (r: u64)
    ensures
        freqs@.len() == 0 ==> r == 0,
        freqs@.len() > 0 ==> r == sum_u64(freqs@) / (freqs@.len() as int),
{
    let n = freqs.len();
    if n == 0 {
        return 0;
    }
    let mut sum: u128 = 0;
    let mut i: usize = 0;
    while i < n
        invariant
            n == freqs@.len(),
            i <= n,
            sum == sum_u64(freqs@.subrange(0, i as int)),
            sum <= i * u64::MAX,
        decreases n - i,
    {
        proof {
            assert(freqs@.subrange(0, i + 1).drop_last() =~= freqs@.subrange(0, i as int));
            assert((i + 1) * u64::MAX == i * u64::MAX + u64::MAX) by (nonlinear_arith);
            assert((i + 1) * u64::MAX <= u64::MAX * u64::MAX) by (nonlinear_arith)
                requires
                    i + 1 <= u64::MAX,
            ;
            assert(u64::MAX * u64::MAX <= u128::MAX) by (nonlinear_arith);
        }
        sum = sum + freqs[i] as u128;
        i += 1;
    }
    proof {
        assert(freqs@.subrange(0, n as int) =~= freqs@);
        assert((sum as int) / (n as int) <= u64::MAX) by {
            vstd::arithmetic::div_mod::lemma_div_is_ordered(sum as int, n * u64::MAX, n as int);
            vstd::arithmetic::div_mod::lemma_div_multiples_vanish(u64::MAX as int, n as int);
        }
    }
    (sum / n as u128) as u64
}

/// A lowercased label names the CPU package sensor.
pub open spec fn names_cpu(lower: Seq<char>) -> bool {
    ||| contains_seq(lower, seq!['c', 'p', 'u'])
    ||| contains_seq(lower, seq!['c', 'o', 'r', 'e', 't', 'e', 'm', 'p'])
    ||| contains_seq(lower, seq!['k', '1', '0', 't', 'e', 'm', 'p'])
    ||| contains_seq(lower, seq!['s', 'o', 'c'])
}

/// Whether an already lowercased component label names the CPU package
/// sensor.
pub fn names_cpu_lower(lower: &str) -> (r: bool)
    ensures
        r == names_cpu(lower@),
{
    proof {
        reveal_strlit("cpu");
        reveal_strlit("coretemp");
        reveal_strlit("k10temp");
        reveal_strlit("soc");
        assert("cpu"@ =~= seq!['c', 'p', 'u']);
        assert("coretemp"@ =~= seq!['c', 'o', 'r', 'e', 't', 'e', 'm', 'p']);
        assert("k10temp"@ =~= seq!['k', '1', '0', 't', 'e', 'm', 'p']);
        assert("soc"@ =~= seq!['s', 'o', 'c']);
    }
    contains(lower, "cpu") || contains(lower, "coretemp") || contains(lower, "k10temp")
        || contains(lower, "soc")
}

/// Whether a component label, in any case, names the CPU package sensor.
pub fn is_cpu_label(label: &str) -> (r: bool)
    ensures
        r == names_cpu(lower_of(label@)),
{
    let lower = crate::temps::lowercase(label);
    names_cpu_lower(lower.as_str())
}

/// A hwmon reading in thousandths of a degree is plausible strictly between
/// -40 °C and 150 °C.
pub fn plausible_reading(millideg: i32) -> (r: bool)
    ensures
        r == (-40000 < millideg < 150000),
{
    -40000 < millideg && millideg < 150000
}

/// A hwmon file that holds a temperature: `temp<n>_input`.
pub open spec fn temp_input_name(name: Seq<char>) -> bool {
    &&& starts_with_seq(name, seq!['t', 'e', 'm', 'p'])
    &&& ends_with_seq(name, seq!['_', 'i', 'n', 'p', 'u', 't'])
}

/// Whether a hwmon file name is that of a temperature input.
pub fn is_temp_input(name: &str) -> (r: bool)
    ensures
        r == temp_input_name(name@),
{
    proof {
        reveal_strlit("temp");
        reveal_strlit("_input");
        assert("temp"@ =~= seq!['t', 'e', 'm', 'p']);
        assert("_input"@ =~= seq!['_', 'i', 'n', 'p', 'u', 't']);
    }
    starts_with(name, "temp") && ends_with(name, "_input")
}

} // verus!
