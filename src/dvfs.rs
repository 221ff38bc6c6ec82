//! Frequency ladders from the device registry's DVFS tables.
//!
//! A table is a flat array of 8-byte records: a little-endian 32-bit
//! frequency followed by a little-endian 32-bit voltage, which is ignored.
use vstd::prelude::*;

verus! {

/// Length of one (frequency, voltage) record in bytes.
pub const RECORD_LEN: usize = 8;

/// Raw values above this are taken to be in Hz.
pub const HZ_THRESHOLD: u32 = 100_000_000;

/// Raw values below this are taken to be in kHz.
pub const KHZ_THRESHOLD: u32 = 10_000;

/// The little-endian 32-bit value that starts at byte `i`.
pub open spec fn le_u32_at(b: Seq<u8>, i: int) -> int {
    b[i] as int + b[i + 1] as int * 256 + b[i + 2] as int * 65536 + b[i + 3] as int * 16777216
}

/// The frequency field of record `k`.
pub open spec fn record_freq(blob: Seq<u8>, k: int) -> int {
    le_u32_at(blob, k * 8)
}

/// The non-zero frequency fields of the first `n` records, in blob order.
pub open spec fn nonzero_freqs(blob: Seq<u8>, n: nat) -> Seq<u32>
    decreases n,
{
    if n == 0 {
        Seq::empty()
    } else {
        let prev = nonzero_freqs(blob, (n - 1) as nat);
        let f = record_freq(blob, n - 1);
        if f != 0 {
            prev.push(f as u32)
        } else {
            prev
        }
    }
}

/// What parsing a table yields: nothing when its length is not a whole number
/// of records or when every frequency is zero.
pub open spec fn dvfs_spec(blob: Seq<u8>) -> Option<Seq<u32>> {
    if blob.len() % 8 != 0 {
        None
    } else {
        let f = nonzero_freqs(blob, blob.len() / 8);
        if f.len() == 0 {
            None
        } else {
            Some(f)
        }
    }
}

/// The divisor that turns raw table values into MHz. A value above
/// 100,000,000 marks the table as Hz; a non-empty table whose values are all
/// below 10,000 is kHz; every other table, mixed or ambiguous, is taken as Hz.
pub open spec fn unit_divisor(raw: Seq<u32>) -> u32 {
    if exists|i: int| 0 <= i < raw.len() && raw[i] > HZ_THRESHOLD {
        1_000_000
    } else if raw.len() > 0 && forall|i: int| 0 <= i < raw.len() ==> raw[i] < KHZ_THRESHOLD {
        1_000
    } else {
        1_000_000
    }
}

/// Each raw value divided by `div`, rounding down.
pub open spec fn scaled(raw: Seq<u32>, div: u32) -> Seq<u32>
    recommends
        div > 0,
{
    Seq::new(raw.len(), |i: int| (raw[i] / div) as u32)
}

/// The ladder in MHz that a table yields when `div` is its unit divisor.
pub open spec fn ladder_spec(blob: Seq<u8>, div: u32) -> Option<Seq<u32>> {
    match dvfs_spec(blob) {
        Some(raw) => Some(scaled(raw, div)),
        None => None,
    }
}

fn read_le_u32(b: &[u8], i: usize) -> (r: u32)
    requires
        i + 4 <= b@.len(),
    ensures
        r as int == le_u32_at(b@, i as int),
{
    b[i] as u32 + b[i + 1] as u32 * 256 + b[i + 2] as u32 * 65536 + b[i + 3] as u32 * 16777216
}

/// Reads the non-zero frequency fields of a DVFS table, in table order and in
/// the table's own unit. Returns `None` when the length is not a multiple of 8
/// or when no record has a non-zero frequency.
pub fn parse_dvfs_mhz(blob: &[u8]) -> (r: Option<Vec<u32>>)
    ensures
        r matches Some(v) ==> dvfs_spec(blob@) == Some(v@),
        r is None ==> dvfs_spec(blob@) is None,
{
    if blob.len() % RECORD_LEN != 0 {
        return None;
    }
    let len = blob.len();
    let n = len / RECORD_LEN;
    let mut freqs: Vec<u32> = Vec::new();
    let mut k: usize = 0;
    while k < n
        invariant
            len == blob@.len(),
            n == len / 8,
            blob@.len() % 8 == 0,
            k <= n,
            freqs@ == nonzero_freqs(blob@, k as nat),
        decreases n - k,
    {
        proof {
            assert(k * 8 + 8 <= len) by (nonlinear_arith)
                requires
                    k < n,
                    n == len / 8,
            ;
        }
        let f = read_le_u32(blob, k * RECORD_LEN);
        if f > 0 {
            freqs.push(f);
        }
        k += 1;
    }
    if freqs.len() == 0 {
        None
    } else {
        Some(freqs)
    }
}

/// Infers the unit of a table from the magnitude of its raw values (see
/// `unit_divisor`) and returns the divisor that converts them to MHz.
pub fn dvfs_scale_divisor(raw: &[u32]) -> (r: u32)
    ensures
        r == unit_divisor(raw@),
        r == 1_000 || r == 1_000_000,
{
    let mut any_hz = false;
    let mut all_khz = true;
    let mut i: usize = 0;
    while i < raw.len()
        invariant
            i <= raw@.len(),
            any_hz == (exists|j: int| 0 <= j < i && raw@[j] > HZ_THRESHOLD),
            all_khz == (forall|j: int| 0 <= j < i ==> raw@[j] < KHZ_THRESHOLD),
        decreases raw@.len() - i,
    {
        if raw[i] > HZ_THRESHOLD {
            any_hz = true;
        }
        if raw[i] >= KHZ_THRESHOLD {
            all_khz = false;
        }
        i += 1;
    }
    if any_hz {
        1_000_000
    } else if raw.len() > 0 && all_khz {
        1_000
    } else {
        1_000_000
    }
}

/// Divides every raw value by `div`.
pub fn scale_ladder(raw: &[u32], div: u32) -> (r: Vec<u32>)
    requires
        div > 0,
    ensures
        r@ == scaled(raw@, div),
{
    let mut out: Vec<u32> = Vec::new();
    let mut i: usize = 0;
    while i < raw.len()
        invariant
            div > 0,
            i <= raw@.len(),
            out@ == scaled(raw@.subrange(0, i as int), div),
        decreases raw@.len() - i,
    {
        out.push(raw[i] / div);
        proof {
            assert(raw@.subrange(0, i + 1) == raw@.subrange(0, i as int).push(raw@[i as int]));
        }
        i += 1;
    }
    proof {
        assert(raw@.subrange(0, raw@.len() as int) == raw@);
    }
    out
}

/// The efficiency- and performance-cluster ladders that two tables yield. The
/// unit is inferred once, from the efficiency table when it parses and from the
/// performance table otherwise, and applied to both.
pub open spec fn cpu_divisor(ecpu_blob: Seq<u8>, pcpu_blob: Seq<u8>) -> u32 {
    match dvfs_spec(ecpu_blob) {
        Some(raw) => unit_divisor(raw),
        None => match dvfs_spec(pcpu_blob) {
            Some(raw) => unit_divisor(raw),
            None => 1_000_000,
        },
    }
}

/// Ladders of the CPU clusters in MHz, from the raw efficiency-cluster and
/// performance-cluster DVFS tables. A table that does not parse yields `None`.
pub fn get_cpu_frequencies(ecpu_blob: &[u8], pcpu_blob: &[u8]) -> (r: (
    Option<Vec<u32>>,
    Option<Vec<u32>>,
))
    ensures
        opt_view(r.0) == ladder_spec(ecpu_blob@, cpu_divisor(ecpu_blob@, pcpu_blob@)),
        opt_view(r.1) == ladder_spec(pcpu_blob@, cpu_divisor(ecpu_blob@, pcpu_blob@)),
{
    let ecpu_raw = parse_dvfs_mhz(ecpu_blob);
    let pcpu_raw = parse_dvfs_mhz(pcpu_blob);
    let div = match &ecpu_raw {
        Some(raw) => dvfs_scale_divisor(raw.as_slice()),
        None => match &pcpu_raw {
            Some(raw) => dvfs_scale_divisor(raw.as_slice()),
            None => 1_000_000,
        },
    };
    let ecpu = match &ecpu_raw {
        Some(raw) => Some(scale_ladder(raw.as_slice(), div)),
        None => None,
    };
    let pcpu = match &pcpu_raw {
        Some(raw) => Some(scale_ladder(raw.as_slice(), div)),
        None => None,
    };
    (ecpu, pcpu)
}

/// The view of an optional vector.
pub open spec fn opt_view(v: Option<Vec<u32>>) -> Option<Seq<u32>> {
    match v {
        Some(x) => Some(x@),
        None => None,
    }
}

/// The divisor of a table judged by its own raw values; Hz when it does not parse.
pub open spec fn own_divisor(blob: Seq<u8>) -> u32 {
    match dvfs_spec(blob) {
        Some(raw) => unit_divisor(raw),
        None => 1_000_000,
    }
}

/// GPU ladder in MHz from the raw GPU DVFS table, its unit inferred from its
/// own values.
pub fn get_gpu_frequencies(gpu_blob: &[u8]) -> (r: Option<Vec<u32>>)
    ensures
        opt_view(r) == ladder_spec(gpu_blob@, own_divisor(gpu_blob@)),
{
    match parse_dvfs_mhz(gpu_blob) {
        Some(raw) => {
            let div = dvfs_scale_divisor(raw.as_slice());
            Some(scale_ladder(raw.as_slice(), div))
        },
        None => None,
    }
}

/// The CPU cluster ladders, each empty when its table is unavailable.
pub struct CpuInfo {
    pub ecpu_freqs_mhz: Vec<u32>,
    pub pcpu_freqs_mhz: Vec<u32>,
}

/// A ladder, or the empty sequence when there is none.
pub open spec fn or_empty(l: Option<Seq<u32>>) -> Seq<u32> {
    match l {
        Some(s) => s,
        None => Seq::empty(),
    }
}

/// Both CPU cluster ladders in MHz; an unavailable ladder is empty.
pub fn get_cpu_info(ecpu_blob: &[u8], pcpu_blob: &[u8]) -> (r: CpuInfo)
    ensures
        r.ecpu_freqs_mhz@ == or_empty(ladder_spec(ecpu_blob@, cpu_divisor(ecpu_blob@, pcpu_blob@))),
        r.pcpu_freqs_mhz@ == or_empty(ladder_spec(pcpu_blob@, cpu_divisor(ecpu_blob@, pcpu_blob@))),
{
    let (e, p) = get_cpu_frequencies(ecpu_blob, pcpu_blob);
    CpuInfo {
        ecpu_freqs_mhz: match e {
            Some(v) => v,
            None => Vec::new(),
        },
        pcpu_freqs_mhz: match p {
            Some(v) => v,
            None => Vec::new(),
        },
    }
}

/// The GPU ladder in MHz, empty when the table is unavailable.
pub fn get_gpu_freqs(gpu_blob: &[u8]) -> (r: Vec<u32>)
    ensures
        r@ == or_empty(ladder_spec(gpu_blob@, own_divisor(gpu_blob@))),
{
    match get_gpu_frequencies(gpu_blob) {
        Some(v) => v,
        None => Vec::new(),
    }
}

/// Parsing keeps table order: the ladder of the first `m` records is a prefix
/// of the ladder of the first `n` records, for `m <= n`.
pub proof fn lemma_ladder_prefix_order(blob: Seq<u8>, m: nat, n: nat)
    requires
        m <= n,
    ensures
        nonzero_freqs(blob, m).len() <= nonzero_freqs(blob, n).len(),
        nonzero_freqs(blob, m) == nonzero_freqs(blob, n).subrange(
            0,
            nonzero_freqs(blob, m).len() as int,
        ),
    decreases n,
{
    if m < n {
        lemma_ladder_prefix_order(blob, m, (n - 1) as nat);
        let prev = nonzero_freqs(blob, (n - 1) as nat);
        let cur = nonzero_freqs(blob, n);
        let k = nonzero_freqs(blob, m).len() as int;
        if record_freq(blob, n - 1) != 0 {
            assert(cur == prev.push(record_freq(blob, n - 1) as u32));
            assert(cur.subrange(0, k) =~= prev.subrange(0, k));
        }
    } else {
        assert(nonzero_freqs(blob, n).subrange(0, nonzero_freqs(blob, n).len() as int)
            =~= nonzero_freqs(blob, n));
    }
}

/// Every ladder entry is the non-zero frequency of some record.
pub proof fn lemma_ladder_entries_from_records(blob: Seq<u8>, n: nat)
    ensures
        forall|i: int|
            0 <= i < nonzero_freqs(blob, n).len() ==> #[trigger] nonzero_freqs(blob, n)[i] > 0
                && exists|k: int| 0 <= k < n && record_freq(blob, k) == nonzero_freqs(blob, n)[i],
    decreases n,
{
    if n > 0 {
        lemma_ladder_entries_from_records(blob, (n - 1) as nat);
        let prev = nonzero_freqs(blob, (n - 1) as nat);
        let f = record_freq(blob, n - 1);
        assert(0 <= f < 0x1_0000_0000) by {
            let b = blob;
            let j = (n - 1) * 8;
            assert(b[j] < 256 && b[j + 1] < 256 && b[j + 2] < 256 && b[j + 3] < 256);
        }
        assert forall|i: int| 0 <= i < nonzero_freqs(blob, n).len() implies #[trigger] nonzero_freqs(blob, n)[i] > 0
            && exists|k: int| 0 <= k < n && record_freq(blob, k) == nonzero_freqs(blob, n)[i] by {
            if i < prev.len() {
                assert(nonzero_freqs(blob, n)[i] == prev[i]);
                let k = choose|k: int| 0 <= k < n - 1 && record_freq(blob, k) == prev[i];
                assert(0 <= k < n && record_freq(blob, k) == nonzero_freqs(blob, n)[i]);
            } else {
                assert(record_freq(blob, n - 1) == nonzero_freqs(blob, n)[i]);
            }
        }
    }
}

/// A table yields a ladder exactly when its length is a whole number of records
/// and at least one record has a non-zero frequency.
pub proof fn lemma_ladder_nonempty_iff(blob: Seq<u8>)
    ensures
        dvfs_spec(blob) is Some <==> (blob.len() % 8 == 0 && exists|k: int|
            0 <= k < blob.len() / 8 && record_freq(blob, k) != 0),
{
    if blob.len() % 8 == 0 {
        let n = (blob.len() / 8) as nat;
        lemma_ladder_entries_from_records(blob, n);
        if nonzero_freqs(blob, n).len() > 0 {
            assert(nonzero_freqs(blob, n)[0] > 0);
            let k = choose|k: int| 0 <= k < n && record_freq(blob, k) == nonzero_freqs(blob, n)[0];
            assert(record_freq(blob, k) != 0);
        }
        if exists|k: int| 0 <= k < n && record_freq(blob, k) != 0 {
            let k = choose|k: int| 0 <= k < n && record_freq(blob, k) != 0;
            lemma_nonzero_after_record(blob, k as nat, n);
        }
    }
}

proof fn lemma_nonzero_after_record(blob: Seq<u8>, k: nat, n: nat)
    requires
        k < n,
        record_freq(blob, k as int) != 0,
    ensures
        nonzero_freqs(blob, n).len() > 0,
    decreases n,
{
    if k < n - 1 {
        lemma_nonzero_after_record(blob, k, (n - 1) as nat);
        lemma_ladder_prefix_order(blob, (n - 1) as nat, n);
    }
}

/// The unit bands: a table whose raw values all exceed 100,000,000 is divided
/// by 1,000,000; one whose raw values are all below 10,000 is divided by 1,000;
/// one that holds values of both bands is divided by 1,000,000.
pub proof fn lemma_unit_bands(raw: Seq<u32>)
    ensures
        raw.len() > 0 && (forall|i: int| 0 <= i < raw.len() ==> raw[i] > HZ_THRESHOLD)
            ==> unit_divisor(raw) == 1_000_000,
        raw.len() > 0 && (forall|i: int| 0 <= i < raw.len() ==> raw[i] < KHZ_THRESHOLD)
            ==> unit_divisor(raw) == 1_000,
        (exists|i: int| 0 <= i < raw.len() && raw[i] > HZ_THRESHOLD) ==> unit_divisor(raw)
            == 1_000_000,
{
    if raw.len() > 0 && (forall|i: int| 0 <= i < raw.len() ==> raw[i] > HZ_THRESHOLD) {
        assert(raw[0] > HZ_THRESHOLD);
    }
    if raw.len() > 0 && (forall|i: int| 0 <= i < raw.len() ==> raw[i] < KHZ_THRESHOLD) {
        assert(!exists|i: int| 0 <= i < raw.len() && raw[i] > HZ_THRESHOLD);
    }
}

} // verus!
