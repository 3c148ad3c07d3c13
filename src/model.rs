//! The values that flow through the pipeline. Percentages and temperatures are
//! fixed-point integers in hundredths (`5025` is 50.25 % or 50.25 °C).
use vstd::prelude::*;

verus! {

/// One group of temperature sensors, reduced to its hottest reading.
#[derive(Debug, Clone, PartialEq, Eq)]
pub struct TempGroup {
    pub label: String,
    /// Hundredths of a degree Celsius, rounded to a tenth of a degree.
    pub temperature: i32,
}

/// A raw sensor reading, before grouping.
#[derive(Debug, Clone, PartialEq, Eq)]
pub struct TemperatureSensor {
    pub label: String,
    /// Thousandths of a degree Celsius, as the kernel reports them.
    pub temperature: i32,
    pub sensor_type: String,
}

#[derive(Debug, Clone, PartialEq, Eq)]
pub struct CpuStats {
    /// Hundredths of a percent.
    pub usage_percent: u32,
    pub frequency_mhz: u64,
    /// Hundredths of a degree Celsius.
    pub temperature: Option<i32>,
}

#[derive(Debug, Clone, PartialEq, Eq)]
pub struct MemoryStats {
    /// Hundredths of a percent.
    pub usage_percent: u32,
    pub total_bytes: u64,
    pub free_bytes: u64,
    pub used_bytes: u64,
}

#[derive(Debug, Clone, PartialEq, Eq)]
pub struct DiskStats {
    /// Hundredths of a percent.
    pub usage_percent: u32,
    pub used_bytes: u64,
    pub available_bytes: u64,
    pub total_bytes: u64,
}

/// One snapshot of the machine's health.
#[derive(Debug, Clone, PartialEq, Eq)]
pub struct SystemStats {
    /// Seconds since the Unix epoch, UTC.
    pub timestamp: i64,
    pub cpu: CpuStats,
    pub memory: MemoryStats,
    pub disk: DiskStats,
    pub temperatures: Vec<TempGroup>,
}

/// A stored or bucket-averaged reading, as history queries return it.
#[derive(Debug, Clone, PartialEq, Eq)]
pub struct HistoryPoint {
    /// Seconds since the Unix epoch, UTC; for a bucket, the start of its slot.
    pub timestamp: i64,
    /// Hundredths of a percent.
    pub cpu_percent: u32,
    pub cpu_freq: u64,
    /// Hundredths of a degree Celsius.
    pub cpu_temp: Option<i32>,
    /// Hundredths of a percent.
    pub mem_percent: u32,
    /// Hundredths of a percent.
    pub disk_percent: u32,
    pub temperatures: Vec<TempGroup>,
}

/// Login credentials as a client sends them.
#[derive(Debug, Clone, PartialEq, Eq)]
pub struct LoginRequest {
    pub username: String,
    pub password: String,
}

/// The range selector of a history query.
#[derive(Debug, Clone, PartialEq, Eq)]
pub struct HistoryQuery {
    pub range: Option<String>,
}

/// A history query's answer: the echoed range tag and the points.
#[derive(Debug, Clone, PartialEq, Eq)]
pub struct HistoryResponse {
    pub range: String,
    pub points: Vec<HistoryPoint>,
}

/// A usage figure in hundredths of a percent lies in the ratio's domain and
/// is rounded to one decimal place.
pub open spec fn valid_percent(v: u32) -> bool {
    v <= 10000 && v % 10 == 0
}

/// `a` and `b` hold the same reading.
pub open spec fn same_point(a: HistoryPoint, b: HistoryPoint) -> bool {
    &&& a.timestamp == b.timestamp
    &&& a.cpu_percent == b.cpu_percent
    &&& a.cpu_freq == b.cpu_freq
    &&& a.cpu_temp == b.cpu_temp
    &&& a.mem_percent == b.mem_percent
    &&& a.disk_percent == b.disk_percent
    &&& a.temperatures@ == b.temperatures@
}

/// A copy of a list of temperature groups.
pub fn copy_groups(v: &Vec<TempGroup>) -> (r: Vec<TempGroup>)
    ensures
        r@ == v@,
{
    let mut r: Vec<TempGroup> = Vec::new();
    let mut i: usize = 0;
    while i < v.len()
        invariant
            i <= v@.len(),
            r@ == v@.subrange(0, i as int),
        decreases v@.len() - i,
    {
        let g = TempGroup { label: v[i].label.clone(), temperature: v[i].temperature };
        r.push(g);
        i += 1;
        proof {
            assert(r@ =~= v@.subrange(0, i as int));
        }
    }
    proof {
        assert(v@.subrange(0, v@.len() as int) =~= v@);
    }
    r
}

impl HistoryPoint {
    /// The history reading of one snapshot.
    pub fn from_stats(s: &SystemStats) -> (r: HistoryPoint)
        ensures
            r.timestamp == s.timestamp,
            r.cpu_percent == s.cpu.usage_percent,
            r.cpu_freq == s.cpu.frequency_mhz,
            r.cpu_temp == s.cpu.temperature,
            r.mem_percent == s.memory.usage_percent,
            r.disk_percent == s.disk.usage_percent,
            r.temperatures@ == s.temperatures@,
    {
        HistoryPoint {
            timestamp: s.timestamp,
            cpu_percent: s.cpu.usage_percent,
            cpu_freq: s.cpu.frequency_mhz,
            cpu_temp: s.cpu.temperature,
            mem_percent: s.memory.usage_percent,
            disk_percent: s.disk.usage_percent,
            temperatures: copy_groups(&s.temperatures),
        }
    }

    /// A copy of this reading.
    pub fn copy(&self) -> (r: HistoryPoint)
        ensures
            same_point(r, *self),
    {
        HistoryPoint {
            timestamp: self.timestamp,
            cpu_percent: self.cpu_percent,
            cpu_freq: self.cpu_freq,
            cpu_temp: self.cpu_temp,
            mem_percent: self.mem_percent,
            disk_percent: self.disk_percent,
            temperatures: copy_groups(&self.temperatures),
        }
    }
}

} // verus!
