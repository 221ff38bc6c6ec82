//! Average power of energy channels over a measured window.
use vstd::prelude::*;
use crate::text::{ends_with, starts_with, str_eq};

verus! {

/// Why an energy channel could not be converted.
#[derive(Clone, Copy, Debug, PartialEq, Eq, Structural)]
pub enum PowerError {
    /// The unit label is not millijoules, microjoules or nanojoules.
    UnknownUnit,
    /// The measured window has no length.
    EmptyWindow,
}

/// One energy channel of a delta sample: the energy accrued over the window,
/// in the unit its label names.
pub struct EnergyChannel {
    pub group: String,
    pub name: String,
    pub unit: String,
    pub value: i64,
}

/// Average power per bucket, in microwatts.
#[derive(Clone, Copy, Debug, PartialEq, Eq, Structural)]
pub struct PowerMetrics {
    pub cpu_power: i128,
    pub gpu_power: i128,
    pub ane_power: i128,
    pub ram_power: i128,
    pub gpu_ram_power: i128,
    /// CPU, GPU and ANE together.
    pub all_power: i128,
    /// Total system power; the CPU, GPU and ANE total.
    pub sys_power: i128,
}

/// Microwatts per unit of energy per millisecond: a millijoule per
/// millisecond is 1,000,000 microwatts, a microjoule 1,000, a nanojoule 1.
pub open spec fn unit_factor(unit: Seq<char>) -> Option<int> {
    if unit == "mJ"@ {
        Some(1_000_000)
    } else if unit == "uJ"@ || unit == "\u{3bc}J"@ {
        Some(1_000)
    } else if unit == "nJ"@ {
        Some(1)
    } else {
        None
    }
}

/// `a / b` rounded toward zero.
pub open spec fn div_toward_zero(a: int, b: int) -> int
    recommends
        b > 0,
{
    if a >= 0 {
        a / b
    } else {
        -((-a) / b)
    }
}

/// Average power in microwatts of `value` units of energy over `duration_ms`.
pub open spec fn watts_spec(value: int, unit: Seq<char>, duration_ms: int) -> Result<int, PowerError> {
    match unit_factor(unit) {
        None => Err(PowerError::UnknownUnit),
        Some(f) => if duration_ms == 0 {
            Err(PowerError::EmptyWindow)
        } else {
            Ok(div_toward_zero(value * f, duration_ms))
        },
    }
}

/// Converts the energy a channel accrued over `duration_ms` milliseconds to
/// average power in microwatts, rounded toward zero.
pub fn energy_to_watts(value: i64, unit: &str, duration_ms: u64) -> (r: Result<i128, PowerError>)
    ensures
        r matches Ok(w) ==> watts_spec(value as int, unit@, duration_ms as int) == Ok::<int, PowerError>(w as int),
        r matches Err(e) ==> watts_spec(value as int, unit@, duration_ms as int) == Err::<int, PowerError>(e),
        r matches Ok(w) ==> -0x1_0000_0000_0000_0000_0000_0 <= w <= 0x1_0000_0000_0000_0000_0000_0,
{
    let factor: i128 = if str_eq(unit, "mJ") {
        1_000_000
    } else if str_eq(unit, "uJ") || str_eq(unit, "\u{3bc}J") {
        1_000
    } else if str_eq(unit, "nJ") {
        1
    } else {
        return Err(PowerError::UnknownUnit);
    };
    if duration_ms == 0 {
        return Err(PowerError::EmptyWindow);
    }
    let v = value as i128;
    let d = duration_ms as i128;
    proof {
        assert(-0x8000_0000_0000_0000 * 1_000_000 <= v * factor <= 0x8000_0000_0000_0000 * 1_000_000)
            by (nonlinear_arith)
            requires
                -0x8000_0000_0000_0000 <= v < 0x8000_0000_0000_0000,
                1 <= factor <= 1_000_000,
        ;
    }
    let e = v * factor;
    if e >= 0 {
        proof {
            assert(e / d <= e) by (nonlinear_arith)
                requires
                    e >= 0,
                    d >= 1,
            ;
        }
        Ok(((e as u128) / (d as u128)) as i128)
    } else {
        let m = (-e) as u128;
        proof {
            assert(m as int / d as int <= m) by (nonlinear_arith)
                requires
                    d >= 1,
            ;
        }
        Ok(-((m / (d as u128)) as i128))
    }
}

/// The bucket an energy channel adds to.
pub enum PowerBucket {
    Cpu,
    Gpu,
    Ane,
    Ram,
    GpuRam,
    Other,
}

/// Buckets of the energy model group by channel name: `GPU Energy` is the GPU,
/// a name ending in `CPU Energy` the CPU, then names starting with `ANE`, `DRAM`
/// and `GPU SRAM`.
pub open spec fn bucket_spec(c: EnergyChannel) -> PowerBucket {
    if c.group@ != "Energy Model"@ {
        PowerBucket::Other
    } else if c.name@ == "GPU Energy"@ {
        PowerBucket::Gpu
    } else if crate::text::has_suffix(c.name@, "CPU Energy"@) {
        PowerBucket::Cpu
    } else if crate::text::has_prefix(c.name@, "ANE"@) {
        PowerBucket::Ane
    } else if crate::text::has_prefix(c.name@, "DRAM"@) {
        PowerBucket::Ram
    } else if crate::text::has_prefix(c.name@, "GPU SRAM"@) {
        PowerBucket::GpuRam
    } else {
        PowerBucket::Other
    }
}

/// Picks the bucket of an energy channel.
pub fn power_bucket(c: &EnergyChannel) -> (r: PowerBucket)
    ensures
        r == bucket_spec(*c),
{
    if !str_eq(c.group.as_str(), "Energy Model") {
        PowerBucket::Other
    } else if str_eq(c.name.as_str(), "GPU Energy") {
        PowerBucket::Gpu
    } else if ends_with(c.name.as_str(), "CPU Energy") {
        PowerBucket::Cpu
    } else if starts_with(c.name.as_str(), "ANE") {
        PowerBucket::Ane
    } else if starts_with(c.name.as_str(), "DRAM") {
        PowerBucket::Ram
    } else if starts_with(c.name.as_str(), "GPU SRAM") {
        PowerBucket::GpuRam
    } else {
        PowerBucket::Other
    }
}

/// Bucket sums (cpu, gpu, ane, ram, gpu_ram) of the first `k` channels; a
/// channel whose unit is unknown adds nothing.
pub open spec fn bucket_sums(chs: Seq<EnergyChannel>, k: int, duration_ms: int) -> (int, int, int, int, int)
    decreases k,
{
    if k <= 0 {
        (0, 0, 0, 0, 0)
    } else {
        let p = bucket_sums(chs, k - 1, duration_ms);
        let c = chs[k - 1];
        match watts_spec(c.value as int, c.unit@, duration_ms) {
            Err(_) => p,
            Ok(w) => match bucket_spec(c) {
                PowerBucket::Cpu => (p.0 + w, p.1, p.2, p.3, p.4),
                PowerBucket::Gpu => (p.0, p.1 + w, p.2, p.3, p.4),
                PowerBucket::Ane => (p.0, p.1, p.2 + w, p.3, p.4),
                PowerBucket::Ram => (p.0, p.1, p.2, p.3 + w, p.4),
                PowerBucket::GpuRam => (p.0, p.1, p.2, p.3, p.4 + w),
                PowerBucket::Other => p,
            },
        }
    }
}

pub open spec fn within(x: int, k: int) -> bool {
    -k * 0x1_0000_0000_0000_0000_0000_0 <= x <= k * 0x1_0000_0000_0000_0000_0000_0
}

proof fn lemma_bucket_sums_bounded(chs: Seq<EnergyChannel>, k: int, duration_ms: int)
    requires
        0 <= k <= chs.len(),
        duration_ms > 0,
    ensures
        within(bucket_sums(chs, k, duration_ms).0, k),
        within(bucket_sums(chs, k, duration_ms).1, k),
        within(bucket_sums(chs, k, duration_ms).2, k),
        within(bucket_sums(chs, k, duration_ms).3, k),
        within(bucket_sums(chs, k, duration_ms).4, k),
    decreases k,
{
    if k > 0 {
        lemma_bucket_sums_bounded(chs, k - 1, duration_ms);
        let c = chs[k - 1];
        match watts_spec(c.value as int, c.unit@, duration_ms) {
            Err(_) => {},
            Ok(w) => {
                let f = unit_factor(c.unit@).unwrap();
                let v = c.value as int;
                assert(-0x8000_0000_0000_0000 * 1_000_000 <= v * f <= 0x8000_0000_0000_0000 * 1_000_000)
                    by (nonlinear_arith)
                    requires
                        -0x8000_0000_0000_0000 <= v < 0x8000_0000_0000_0000,
                        1 <= f <= 1_000_000,
                ;
                let e = v * f;
                if e >= 0 {
                    assert(e / duration_ms <= e) by (nonlinear_arith)
                        requires
                            e >= 0,
                            duration_ms >= 1,
                    ;
                } else {
                    assert((-e) / duration_ms <= -e) by (nonlinear_arith)
                        requires
                            e < 0,
                            duration_ms >= 1,
                    ;
                }
            },
        }
    }
}

/// The power metrics that the energy channels of one window yield.
pub open spec fn power_spec(chs: Seq<EnergyChannel>, duration_ms: int) -> PowerMetrics {
    let s = bucket_sums(chs, chs.len() as int, duration_ms);
    PowerMetrics {
        cpu_power: s.0 as i128,
        gpu_power: s.1 as i128,
        ane_power: s.2 as i128,
        ram_power: s.3 as i128,
        gpu_ram_power: s.4 as i128,
        all_power: (s.0 + s.1 + s.2) as i128,
        sys_power: (s.0 + s.1 + s.2) as i128,
    }
}

/// Sums the average power of the energy channels of one window into buckets.
/// `duration_ms` is the measured length of the window, not the requested one.
/// A channel with an unknown unit is skipped; a window of no length yields
/// nothing but zeros.
pub fn get_power_metrics_from_sample(channels: &[EnergyChannel], duration_ms: u64) -> (r: PowerMetrics)
    requires
        channels@.len() <= u32::MAX,
    ensures
        duration_ms > 0 ==> r == power_spec(channels@, duration_ms as int),
        duration_ms == 0 ==> r == power_spec(Seq::empty(), 1),
{
    let mut cpu: i128 = 0;
    let mut gpu: i128 = 0;
    let mut ane: i128 = 0;
    let mut ram: i128 = 0;
    let mut gpu_ram: i128 = 0;
    if duration_ms > 0 {
        let mut i: usize = 0;
        while i < channels.len()
            invariant
                duration_ms > 0,
                i <= channels@.len() <= u32::MAX,
                bucket_sums(channels@, i as int, duration_ms as int) == (
                    cpu as int,
                    gpu as int,
                    ane as int,
                    ram as int,
                    gpu_ram as int,
                ),
            decreases channels@.len() - i,
        {
            proof {
                lemma_bucket_sums_bounded(channels@, i + 1, duration_ms as int);
                lemma_bucket_sums_bounded(channels@, i as int, duration_ms as int);
            }
            let c = &channels[i];
            match energy_to_watts(c.value, c.unit.as_str(), duration_ms) {
                Err(_) => {},
                Ok(w) => {
                    match power_bucket(c) {
                        PowerBucket::Cpu => { cpu = cpu + w; },
                        PowerBucket::Gpu => { gpu = gpu + w; },
                        PowerBucket::Ane => { ane = ane + w; },
                        PowerBucket::Ram => { ram = ram + w; },
                        PowerBucket::GpuRam => { gpu_ram = gpu_ram + w; },
                        PowerBucket::Other => {},
                    }
                },
            }
            i += 1;
        }
        proof {
            lemma_bucket_sums_bounded(channels@, channels@.len() as int, duration_ms as int);
        }
    }
    let all = cpu + gpu + ane;
    PowerMetrics {
        cpu_power: cpu,
        gpu_power: gpu,
        ane_power: ane,
        ram_power: ram,
        gpu_ram_power: gpu_ram,
        all_power: all,
        sys_power: all,
    }
}

} // verus!
