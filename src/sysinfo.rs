//! Host facts from sysctl values and virtual-memory counters, and the CPU
//! summary built from them.
use vstd::prelude::*;
use vstd::string::*;
use crate::dvfs::le_u32_at;
use crate::text::{has_prefix, lossy_text, starts_with, str_eq, utf8_lossy};

verus! {

/// Why a sysctl or memory value could not be used.
#[derive(Clone, Copy, Debug, PartialEq, Eq, Structural)]
pub enum SysError {
    /// A numeric sysctl value is neither 4 nor 8 bytes long.
    UnexpectedSize(usize),
    /// The counters do not add up to a memory size that fits in 64 bits.
    OutOfRange,
}

/// Where a NUL-terminated value ends: at its first NUL, or at its end.
pub open spec fn nul_end(b: Seq<u8>) -> int {
    if exists|i: int| 0 <= i < b.len() && b[i] == 0 {
        choose|i: int| 0 <= i < b.len() && b[i] == 0 && forall|j: int| 0 <= j < i ==> b[j] != 0
    } else {
        b.len() as int
    }
}

/// The text of a string-valued sysctl: its bytes up to the first NUL, decoded
/// as lossy UTF-8.
pub fn sysctl_string(bytes: &[u8]) -> (r: String)
    ensures
        r@ == lossy_text(bytes@.subrange(0, nul_end(bytes@))),
{
    let mut i: usize = 0;
    while i < bytes.len()
        invariant
            i <= bytes@.len(),
            forall|j: int| 0 <= j < i ==> bytes@[j] != 0,
        decreases bytes@.len() - i,
    {
        if bytes[i] == 0 {
            proof {
                let e = nul_end(bytes@);
                assert(0 <= e < bytes@.len() && bytes@[e] == 0 && forall|j: int| 0 <= j < e ==> bytes@[j] != 0);
                if e < i {
                    assert(bytes@[e] != 0);
                }
                if e > i {
                    assert(bytes@[i as int] != 0);
                }
            }
            return utf8_lossy(&bytes[0..i]);
        }
        i += 1;
    }
    assert(bytes@.subrange(0, bytes@.len() as int) =~= bytes@);
    utf8_lossy(bytes)
}

/// The little-endian 64-bit value at the start.
pub open spec fn le_u64(b: Seq<u8>) -> int {
    le_u32_at(b, 0) + le_u32_at(b, 4) * 0x1_0000_0000
}

/// A numeric sysctl value: 8 bytes are a 64-bit and 4 bytes a 32-bit integer,
/// in the byte order of Apple-Silicon hosts (little-endian); any other length
/// is `UnexpectedSize`.
pub fn sysctl_u64(bytes: &[u8]) -> (r: Result<u64, SysError>)
    ensures
        bytes@.len() == 8 ==> r == Ok::<u64, SysError>(le_u64(bytes@) as u64),
        bytes@.len() == 4 ==> r == Ok::<u64, SysError>(le_u32_at(bytes@, 0) as u64),
        bytes@.len() != 8 && bytes@.len() != 4 ==> r == Err::<u64, SysError>(
            SysError::UnexpectedSize(bytes@.len() as usize),
        ),
{
    if bytes.len() == 8 {
        let lo = bytes[0] as u64 + bytes[1] as u64 * 256 + bytes[2] as u64 * 65536 + bytes[3] as u64
            * 16777216;
        let hi = bytes[4] as u64 + bytes[5] as u64 * 256 + bytes[6] as u64 * 65536 + bytes[7] as u64
            * 16777216;
        Ok(lo + hi * 0x1_0000_0000)
    } else if bytes.len() == 4 {
        Ok(
            bytes[0] as u64 + bytes[1] as u64 * 256 + bytes[2] as u64 * 65536 + bytes[3] as u64
                * 16777216,
        )
    } else {
        Err(SysError::UnexpectedSize(bytes.len()))
    }
}

/// Page counts of the virtual-memory statistics.
#[derive(Clone, Copy, Debug, PartialEq, Eq, Structural)]
pub struct VmPageCounts {
    pub active: u64,
    pub inactive: u64,
    pub wired: u64,
    pub speculative: u64,
    pub compressed: u64,
    pub purgeable: u64,
    pub external: u64,
}

/// Memory sizes in bytes.
#[derive(Clone, Copy, Debug, PartialEq, Eq, Structural)]
pub struct MemoryMetrics {
    /// RAM and swap together.
    pub total: u64,
    pub ram_total: u64,
    pub ram_usage: u64,
    pub swap_total: u64,
    pub swap_usage: u64,
}

/// Pages in use: active, inactive, wired, speculative and compressed pages,
/// without purgeable and external ones.
pub open spec fn used_pages(v: VmPageCounts) -> int {
    v.active + v.inactive + v.wired + v.speculative + v.compressed - v.purgeable - v.external
}

/// Memory metrics from the RAM size, the page counts and page size, and the
/// swap usage. Fails with `OutOfRange` when the used pages would be negative
/// or a size does not fit in 64 bits.
pub fn get_memory_metrics(
    ram_total: u64,
    pages: VmPageCounts,
    page_size: u64,
    swap_usage: u64,
    swap_total: u64,
) -> (r: Result<MemoryMetrics, SysError>)
    ensures
        r is Ok <==> 0 <= used_pages(pages) && used_pages(pages) * page_size <= u64::MAX
            && ram_total + swap_total <= u64::MAX,
        r matches Ok(m) ==> m == (MemoryMetrics {
            total: (ram_total + swap_total) as u64,
            ram_total,
            ram_usage: (used_pages(pages) * page_size) as u64,
            swap_total,
            swap_usage,
        }),
        r is Err ==> r == Err::<MemoryMetrics, SysError>(SysError::OutOfRange),
{
    let held = pages.active as u128 + pages.inactive as u128 + pages.wired as u128
        + pages.speculative as u128 + pages.compressed as u128;
    let freed = pages.purgeable as u128 + pages.external as u128;
    if freed > held {
        return Err(SysError::OutOfRange);
    }
    let used = held - freed;
    if used > u64::MAX as u128 {
        proof {
            assert(used * page_size >= used || page_size == 0) by (nonlinear_arith);
        }
        if page_size == 0 {
            if ram_total as u128 + swap_total as u128 > u64::MAX as u128 {
                return Err(SysError::OutOfRange);
            }
            proof {
                assert(used * 0 == 0) by (nonlinear_arith);
            }
            return Ok(
                MemoryMetrics {
                    total: ram_total + swap_total,
                    ram_total,
                    ram_usage: 0,
                    swap_total,
                    swap_usage,
                },
            );
        }
        return Err(SysError::OutOfRange);
    }
    let usage = (used as u64).checked_mul(page_size);
    let total = ram_total.checked_add(swap_total);
    match (usage, total) {
        (Some(u), Some(t)) => Ok(
            MemoryMetrics { total: t, ram_total, ram_usage: u, swap_total, swap_usage },
        ),
        _ => Err(SysError::OutOfRange),
    }
}

/// What `system_profiler` reports of the chip, each part absent when it did
/// not say.
pub struct ProfilerInfo {
    pub chip_name: Option<String>,
    pub ecpu_cores: Option<u32>,
    pub pcpu_cores: Option<u32>,
    pub cpu_mhz: Option<u64>,
}

/// A summary of the CPU.
pub struct CpuMetrics {
    pub physical_cores: u32,
    pub logical_cores: u32,
    pub cpu_brand: String,
    pub cpu_frequency_mhz: u64,
    pub chip_name: Option<String>,
    pub ecpu_cores: Option<u32>,
    pub pcpu_cores: Option<u32>,
    pub ecpu_freqs_mhz: Option<Vec<u32>>,
    pub pcpu_freqs_mhz: Option<Vec<u32>>,
}

/// The brand reported when the host names none.
pub open spec fn generic_brand() -> Seq<char> {
    "Apple Processor"@
}

/// The CPU frequency: the top of the performance-cluster ladder, or the
/// frequency sysctl reports when there is no ladder.
pub open spec fn base_mhz(pcpu: Option<Vec<u32>>, sysctl_mhz: u64) -> u64 {
    match pcpu {
        Some(l) => if l@.len() > 0 {
            l@.last() as u64
        } else {
            sysctl_mhz
        },
        None => sysctl_mhz,
    }
}

/// Whether `system_profiler` is worth asking: the brand names no chip and no
/// frequency is known.
pub open spec fn needs_profiler_spec(brand: Seq<char>, pcpu: Option<Vec<u32>>, sysctl_mhz: u64) -> bool {
    brand == generic_brand() && base_mhz(pcpu, sysctl_mhz) == 0
}

fn top_of_ladder(pcpu: &Option<Vec<u32>>, sysctl_mhz: u64) -> (r: u64)
    ensures
        r == base_mhz(*pcpu, sysctl_mhz),
{
    match pcpu {
        Some(l) => if l.len() > 0 {
            l[l.len() - 1] as u64
        } else {
            sysctl_mhz
        },
        None => sysctl_mhz,
    }
}

/// Whether the CPU summary still lacks what `system_profiler` can supply.
pub fn needs_profiler(cpu_brand: &str, pcpu_freqs: &Option<Vec<u32>>, sysctl_mhz: u64) -> (r: bool)
    ensures
        r == needs_profiler_spec(cpu_brand@, *pcpu_freqs, sysctl_mhz),
{
    str_eq(cpu_brand, "Apple Processor") && top_of_ladder(pcpu_freqs, sysctl_mhz) == 0
}

pub open spec fn opt_str_view(s: Option<String>) -> Option<Seq<char>> {
    match s {
        Some(x) => Some(x@),
        None => None,
    }
}

/// Builds the CPU summary. The chip name is the brand unless the brand is the
/// generic one; the frequency is the top of the performance ladder or else the
/// sysctl frequency; and where the chip is still unnamed and the frequency
/// unknown, `profiler`'s answers fill the gaps, the per-cluster core counts
/// only where sysctl gave none.
pub fn get_cpu_metrics(
    physical_cores: u32,
    logical_cores: u32,
    cpu_brand: String,
    ecpu_freqs: Option<Vec<u32>>,
    pcpu_freqs: Option<Vec<u32>>,
    perflevel_cores: (Option<u32>, Option<u32>),
    sysctl_mhz: u64,
    profiler: Option<ProfilerInfo>,
) -> (r: CpuMetrics)
    ensures
        r.physical_cores == physical_cores,
        r.logical_cores == logical_cores,
        r.cpu_brand@ == cpu_brand@,
        r.ecpu_freqs_mhz == ecpu_freqs,
        r.pcpu_freqs_mhz == pcpu_freqs,
        !needs_profiler_spec(cpu_brand@, pcpu_freqs, sysctl_mhz) || profiler is None ==> {
            &&& r.cpu_frequency_mhz == base_mhz(pcpu_freqs, sysctl_mhz)
            &&& opt_str_view(r.chip_name) == (if cpu_brand@ == generic_brand() {
                None
            } else {
                Some(cpu_brand@)
            })
            &&& r.ecpu_cores == perflevel_cores.0
            &&& r.pcpu_cores == perflevel_cores.1
        },
        needs_profiler_spec(cpu_brand@, pcpu_freqs, sysctl_mhz) && profiler is Some ==> {
            let p = profiler.unwrap();
            &&& r.cpu_frequency_mhz == (match p.cpu_mhz {
                Some(f) => f,
                None => 0,
            })
            &&& opt_str_view(r.chip_name) == opt_str_view(p.chip_name)
            &&& r.ecpu_cores == (if perflevel_cores.0 is Some {
                perflevel_cores.0
            } else {
                p.ecpu_cores
            })
            &&& r.pcpu_cores == (if perflevel_cores.1 is Some {
                perflevel_cores.1
            } else {
                p.pcpu_cores
            })
        },
{
    let generic = str_eq(cpu_brand.as_str(), "Apple Processor");
    let mut chip_name: Option<String> = if generic {
        None
    } else {
        Some(cpu_brand.clone())
    };
    let mut freq = top_of_ladder(&pcpu_freqs, sysctl_mhz);
    let mut ecpu_cores = perflevel_cores.0;
    let mut pcpu_cores = perflevel_cores.1;
    if generic && freq == 0 {
        if let Some(p) = profiler {
            chip_name = p.chip_name;
            if ecpu_cores.is_none() {
                ecpu_cores = p.ecpu_cores;
            }
            if pcpu_cores.is_none() {
                pcpu_cores = p.pcpu_cores;
            }
            freq = match p.cpu_mhz {
                Some(f) => f,
                None => 0,
            };
        }
    }
    CpuMetrics {
        physical_cores,
        logical_cores,
        cpu_brand,
        cpu_frequency_mhz: freq,
        chip_name,
        ecpu_cores,
        pcpu_cores,
        ecpu_freqs_mhz: ecpu_freqs,
        pcpu_freqs_mhz: pcpu_freqs,
    }
}

/// Whether a character is an ASCII digit.
pub open spec fn is_digit(c: char) -> bool {
    '0' <= c <= '9'
}

/// The value of a string of decimal digits.
pub open spec fn decimal(s: Seq<char>) -> int
    decreases s.len(),
{
    if s.len() == 0 {
        0
    } else {
        decimal(s.drop_last()) * 10 + (s.last() as int - '0' as int)
    }
}

/// Whether every character is an ASCII digit.
pub open spec fn all_digits(t: Seq<char>) -> bool {
    forall|i: int| 0 <= i < t.len() ==> is_digit(#[trigger] t[i])
}

/// A number's text without its optional leading `+`.
pub open spec fn unsigned_part(s: Seq<char>) -> Seq<char> {
    if s.len() > 0 && s[0] == '+' {
        s.drop_first()
    } else {
        s
    }
}

/// A decimal 32-bit unsigned number: an optional `+`, then at least one digit,
/// with a value that fits; anything else is no number.
pub open spec fn parse_u32_spec(s: Seq<char>) -> Option<u32> {
    let t = unsigned_part(s);
    if t.len() > 0 && all_digits(t) && decimal(t) <= u32::MAX {
        Some(decimal(t) as u32)
    } else {
        None
    }
}

/// The fields of a string separated by `:`; there is always at least one.
pub open spec fn colon_fields(s: Seq<char>) -> Seq<Seq<char>>
    decreases s.len(),
{
    if s.len() == 0 {
        seq![Seq::empty()]
    } else {
        let prev = colon_fields(s.drop_last());
        if s.last() == ':' {
            prev.push(Seq::empty())
        } else {
            prev.update(prev.len() - 1, prev.last().push(s.last()))
        }
    }
}

/// The numbers among fields, in order, skipping fields that are not numbers.
pub open spec fn numbers_of(fields: Seq<Seq<char>>) -> Seq<u32>
    decreases fields.len(),
{
    if fields.len() == 0 {
        Seq::empty()
    } else {
        let prev = numbers_of(fields.drop_last());
        match parse_u32_spec(fields.last()) {
            Some(v) => prev.push(v),
            None => prev,
        }
    }
}

/// The core counts that a processor description `proc total:perf:eff` gives:
/// (efficiency, performance) when exactly three numbers follow `proc `.
pub open spec fn core_counts_spec(s: Seq<char>) -> (Option<u32>, Option<u32>) {
    let prefix = seq!['p', 'r', 'o', 'c', ' '];
    if has_prefix(s, prefix) {
        let n = numbers_of(colon_fields(s.subrange(5, s.len() as int)));
        if n.len() == 3 {
            (Some(n[2]), Some(n[1]))
        } else {
            (None, None)
        }
    } else {
        (None, None)
    }
}

/// Reads a decimal 32-bit unsigned number (see `parse_u32_spec`).
pub fn parse_u32(s: &Vec<char>) -> (r: Option<u32>)
    ensures
        r == parse_u32_spec(s@),
{
    let n = s.len();
    let start: usize = if n > 0 && s[0] == '+' {
        1
    } else {
        0
    };
    let ghost t = unsigned_part(s@);
    proof {
        assert(t =~= s@.subrange(start as int, n as int));
    }
    if start == n {
        return None;
    }
    let mut acc: u64 = 0;
    let mut over = false;
    let mut i: usize = start;
    while i < n
        invariant
            n == s@.len(),
            start <= i <= n,
            t == s@.subrange(start as int, n as int),
            t == unsigned_part(s@),
            forall|j: int| start <= j < i ==> is_digit(s@[j]),
            !over ==> acc == decimal(s@.subrange(start as int, i as int)) && acc <= u32::MAX,
            over ==> decimal(s@.subrange(start as int, i as int)) > u32::MAX,
        decreases n - i,
    {
        let c = s[i];
        if c < '0' || c > '9' {
            proof {
                assert(t[i - start] == c);
                assert(!is_digit(t[i - start]));
                assert(!all_digits(t));
            }
            return None;
        }
        let d = (c as u32 - '0' as u32) as u64;
        proof {
            let p = s@.subrange(start as int, i + 1);
            assert(p.drop_last() =~= s@.subrange(start as int, i as int));
            assert(p.last() == c);
        }
        if !over {
            if acc * 10 + d > u32::MAX as u64 {
                over = true;
            } else {
                acc = acc * 10 + d;
            }
        }
        i += 1;
    }
    proof {
        assert(s@.subrange(start as int, n as int) == t);
    }
    if over {
        None
    } else {
        Some(acc as u32)
    }
}

/// Core counts from `system_profiler`'s processor description, such as
/// `proc 10:4:6` (total, performance, efficiency): (efficiency, performance).
pub fn parse_core_counts(number_processors: &str) -> (r: (Option<u32>, Option<u32>))
    ensures
        r == core_counts_spec(number_processors@),
{
    proof {
        reveal_strlit("proc ");
        assert("proc "@ =~= seq!['p', 'r', 'o', 'c', ' ']);
    }
    if !starts_with(number_processors, "proc ") {
        return (None, None);
    }
    let n = number_processors.unicode_len();
    let ghost body = number_processors@.subrange(5, n as int);
    let mut numbers: Vec<u32> = Vec::new();
    let mut cur: Vec<char> = Vec::new();
    let mut i: usize = 5;
    proof {
        assert(body.subrange(0, 0) =~= Seq::<char>::empty());
    }
    while i < n
        invariant
            5 <= i <= n,
            n == number_processors@.len(),
            body == number_processors@.subrange(5, n as int),
            colon_fields(body.subrange(0, i - 5)).len() >= 1,
            numbers@ == numbers_of(colon_fields(body.subrange(0, i - 5)).drop_last()),
            cur@ == colon_fields(body.subrange(0, i - 5)).last(),
        decreases n - i,
    {
        let c = number_processors.get_char(i);
        let ghost before = colon_fields(body.subrange(0, i - 5));
        proof {
            let p = body.subrange(0, i - 4);
            assert(p.drop_last() =~= body.subrange(0, i - 5));
            assert(p.last() == c);
        }
        if c == ':' {
            let v = parse_u32(&cur);
            if let Some(x) = v {
                numbers.push(x);
            }
            proof {
                assert(before.push(Seq::empty()).drop_last() =~= before);
                assert(before =~= before.drop_last().push(before.last()));
            }
            cur = Vec::new();
        } else {
            cur.push(c);
            proof {
                let after = before.update(before.len() - 1, before.last().push(c));
                assert(after.drop_last() =~= before.drop_last());
            }
        }
        i += 1;
    }
    let ghost fields = colon_fields(body.subrange(0, n - 5));
    proof {
        assert(body.subrange(0, n - 5) =~= body);
        assert(fields =~= fields.drop_last().push(fields.last()));
    }
    if let Some(x) = parse_u32(&cur) {
        numbers.push(x);
    }
    if numbers.len() == 3 {
        (Some(numbers[2]), Some(numbers[1]))
    } else {
        (None, None)
    }
}

} // verus!
