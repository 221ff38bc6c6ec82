//! The performance-counter sampler: channel classification, per-cluster
//! averaging, and the lifecycle of the report subscription.
use vstd::prelude::*;
use crate::residency::{
    calc_freq, calc_freq_spec, total_ticks, total_ticks_spec, ResidencyState, Usage,
};
use crate::text::{contains, str_eq};

verus! {

/// One channel of a delta sample: its group, subgroup and name, and the ticks
/// each of its states accrued in the window.
pub struct ChannelSample {
    pub group: String,
    pub subgroup: String,
    pub name: String,
    pub states: Vec<ResidencyState>,
}

/// Frequency and utilization of the efficiency cluster, the performance
/// cluster and the GPU over one window.
#[derive(Clone, Copy, Debug, PartialEq, Eq, Structural)]
pub struct PerformanceSample {
    pub ecpu_usage: Usage,
    pub pcpu_usage: Usage,
    pub gpu_usage: Usage,
}

/// Which cluster a channel reports on.
pub enum ChannelKind {
    Ecpu,
    Pcpu,
    Gpu,
    Other,
}

pub open spec fn is_cpu_perf_channel(c: ChannelSample) -> bool {
    c.group@ == "CPU Stats"@ && c.subgroup@ == "CPU Core Performance States"@
}

pub open spec fn is_gpu_perf_channel(c: ChannelSample) -> bool {
    c.group@ == "GPU Stats"@ && c.subgroup@ == "GPU Performance States"@ && c.name@ == "GPUPH"@
}

/// A CPU channel belongs to the efficiency cluster when its name holds `ECPU`,
/// otherwise to the performance cluster when it holds `PCPU`; the GPU channel is
/// `GPUPH` of the GPU performance states.
pub open spec fn kind_spec(c: ChannelSample) -> ChannelKind {
    if is_cpu_perf_channel(c) {
        if crate::text::has_infix(c.name@, "ECPU"@) {
            ChannelKind::Ecpu
        } else if crate::text::has_infix(c.name@, "PCPU"@) {
            ChannelKind::Pcpu
        } else {
            ChannelKind::Other
        }
    } else if is_gpu_perf_channel(c) {
        ChannelKind::Gpu
    } else {
        ChannelKind::Other
    }
}

/// Classifies a channel by group, subgroup and name.
pub fn channel_kind(c: &ChannelSample) -> (r: ChannelKind)
    ensures
        r == kind_spec(*c),
{
    if str_eq(c.group.as_str(), "CPU Stats") && str_eq(
        c.subgroup.as_str(),
        "CPU Core Performance States",
    ) {
        if contains(c.name.as_str(), "ECPU") {
            ChannelKind::Ecpu
        } else if contains(c.name.as_str(), "PCPU") {
            ChannelKind::Pcpu
        } else {
            ChannelKind::Other
        }
    } else if str_eq(c.group.as_str(), "GPU Stats") && str_eq(
        c.subgroup.as_str(),
        "GPU Performance States",
    ) && str_eq(c.name.as_str(), "GPUPH") {
        ChannelKind::Gpu
    } else {
        ChannelKind::Other
    }
}

pub open spec fn usage_of(st: Seq<ResidencyState>, ladder: Seq<u32>) -> Usage {
    Usage {
        freq_mhz: calc_freq_spec(st, ladder).0 as u32,
        util_ppm: calc_freq_spec(st, ladder).1 as u32,
    }
}

/// Per-channel results of the first `k` channels: the efficiency-cluster
/// results, the performance-cluster results, and the GPU result (the last GPU
/// channel wins; none leaves zeros). A channel whose tick total does not fit
/// in 64 bits is malformed and skipped. The GPU ladder's first entry is its off
/// state and is left out.
pub open spec fn classify(
    chs: Seq<ChannelSample>,
    k: int,
    ecpu: Seq<u32>,
    pcpu: Seq<u32>,
    gpu: Seq<u32>,
) -> (Seq<Usage>, Seq<Usage>, Usage)
    decreases k,
{
    if k <= 0 {
        (Seq::empty(), Seq::empty(), Usage { freq_mhz: 0, util_ppm: 0 })
    } else {
        let prev = classify(chs, k - 1, ecpu, pcpu, gpu);
        let c = chs[k - 1];
        if total_ticks_spec(c.states@) > u64::MAX {
            prev
        } else {
            match kind_spec(c) {
                ChannelKind::Ecpu => (prev.0.push(usage_of(c.states@, ecpu)), prev.1, prev.2),
                ChannelKind::Pcpu => (prev.0, prev.1.push(usage_of(c.states@, pcpu)), prev.2),
                ChannelKind::Gpu => if gpu.len() > 0 {
                    (prev.0, prev.1, usage_of(c.states@, gpu.subrange(1, gpu.len() as int)))
                } else {
                    prev
                },
                ChannelKind::Other => prev,
            }
        }
    }
}

pub open spec fn sum_freq(u: Seq<Usage>, k: int) -> int
    decreases k,
{
    if k <= 0 {
        0
    } else {
        sum_freq(u, k - 1) + u[k - 1].freq_mhz
    }
}

pub open spec fn sum_util(u: Seq<Usage>, k: int) -> int
    decreases k,
{
    if k <= 0 {
        0
    } else {
        sum_util(u, k - 1) + u[k - 1].util_ppm
    }
}

/// The arithmetic mean of per-channel results, each part rounded down; zeros
/// when there are none.
pub open spec fn mean_spec(u: Seq<Usage>) -> Usage {
    if u.len() == 0 {
        Usage { freq_mhz: 0, util_ppm: 0 }
    } else {
        Usage {
            freq_mhz: (sum_freq(u, u.len() as int) / u.len() as int) as u32,
            util_ppm: (sum_util(u, u.len() as int) / u.len() as int) as u32,
        }
    }
}

proof fn lemma_sums_bounded(u: Seq<Usage>, k: int)
    requires
        0 <= k <= u.len(),
    ensures
        0 <= sum_freq(u, k) <= k * 0xFFFF_FFFF,
        0 <= sum_util(u, k) <= k * 0xFFFF_FFFF,
    decreases k,
{
    if k > 0 {
        lemma_sums_bounded(u, k - 1);
    }
}

/// Averages the per-channel results of one cluster.
pub fn cluster_average(usages: &[Usage]) -> (r: Usage)
    ensures
        r == mean_spec(usages@),
{
    let n = usages.len();
    if n == 0 {
        return Usage { freq_mhz: 0, util_ppm: 0 };
    }
    let mut f: u128 = 0;
    let mut u: u128 = 0;
    let mut i: usize = 0;
    while i < n
        invariant
            n == usages@.len(),
            i <= n,
            f == sum_freq(usages@, i as int),
            u == sum_util(usages@, i as int),
        decreases n - i,
    {
        proof {
            lemma_sums_bounded(usages@, i + 1);
            assert((i + 1) * 0xFFFF_FFFF <= 0x1_0000_0000_0000_0000 * 0xFFFF_FFFF) by (nonlinear_arith)
                requires
                    i + 1 <= 0x1_0000_0000_0000_0000,
            ;
        }
        f = f + usages[i].freq_mhz as u128;
        u = u + usages[i].util_ppm as u128;
        i += 1;
    }
    proof {
        lemma_sums_bounded(usages@, n as int);
        assert(f as int / n as int <= 0xFFFF_FFFF) by (nonlinear_arith)
            requires
                f <= n * 0xFFFF_FFFF,
                n > 0,
        ;
        assert(u as int / n as int <= 0xFFFF_FFFF) by (nonlinear_arith)
            requires
                u <= n * 0xFFFF_FFFF,
                n > 0,
        ;
    }
    Usage { freq_mhz: (f / n as u128) as u32, util_ppm: (u / n as u128) as u32 }
}

/// What one window of performance-state deltas yields: each cluster's
/// channels are averaged, and the GPU channel is measured against its ladder
/// without the off state.
pub open spec fn parse_sample_spec(
    chs: Seq<ChannelSample>,
    ecpu: Seq<u32>,
    pcpu: Seq<u32>,
    gpu: Seq<u32>,
) -> PerformanceSample {
    let c = classify(chs, chs.len() as int, ecpu, pcpu, gpu);
    PerformanceSample { ecpu_usage: mean_spec(c.0), pcpu_usage: mean_spec(c.1), gpu_usage: c.2 }
}

/// Derives cluster and GPU frequency and utilization from the channels of one
/// delta sample and the three ladders.
pub fn parse_sample(
    channels: &[ChannelSample],
    ecpu_freqs: &[u32],
    pcpu_freqs: &[u32],
    gpu_freqs: &[u32],
) -> (r: PerformanceSample)
    ensures
        r == parse_sample_spec(channels@, ecpu_freqs@, pcpu_freqs@, gpu_freqs@),
{
    let mut ecpu: Vec<Usage> = Vec::new();
    let mut pcpu: Vec<Usage> = Vec::new();
    let mut gpu = Usage { freq_mhz: 0, util_ppm: 0 };
    let mut i: usize = 0;
    while i < channels.len()
        invariant
            i <= channels@.len(),
            classify(channels@, i as int, ecpu_freqs@, pcpu_freqs@, gpu_freqs@) == (ecpu@, pcpu@, gpu),
        decreases channels@.len() - i,
    {
        let c = &channels[i];
        match total_ticks(c.states.as_slice()) {
            None => {},
            Some(_) => {
                match channel_kind(c) {
                    ChannelKind::Ecpu => {
                        ecpu.push(calc_freq(c.states.as_slice(), ecpu_freqs));
                    },
                    ChannelKind::Pcpu => {
                        pcpu.push(calc_freq(c.states.as_slice(), pcpu_freqs));
                    },
                    ChannelKind::Gpu => {
                        if gpu_freqs.len() > 0 {
                            gpu = calc_freq(c.states.as_slice(), &gpu_freqs[1..gpu_freqs.len()]);
                        }
                    },
                    ChannelKind::Other => {},
                }
            },
        }
        i += 1;
    }
    PerformanceSample {
        ecpu_usage: cluster_average(ecpu.as_slice()),
        pcpu_usage: cluster_average(pcpu.as_slice()),
        gpu_usage: gpu,
    }
}

/// Where a sampler stands. It is built `Opening`, holds its channel set once
/// `ChannelsReady`, holds channel set and subscription once `Subscribed`, and
/// holds nothing once `Closed`.
#[derive(Clone, Copy, Debug, PartialEq, Eq, Structural)]
pub enum SamplerPhase {
    Opening,
    ChannelsReady,
    Subscribed,
    Closed,
}

/// The native work a sampler asks of its owner.
#[derive(Clone, Copy, Debug, PartialEq, Eq, Structural)]
pub enum SamplerAction {
    /// Request and merge the channel descriptors.
    CreateChannels,
    /// Open the one subscription against the merged channel set.
    CreateSubscription,
    /// Take two snapshots `duration_ms` apart and compute their delta.
    Sample { duration_ms: u64 },
    /// Release the channel set only.
    ReleaseChannels,
    /// Release the subscription and the channel set.
    ReleaseAll,
    /// Nothing to do.
    Nothing,
}

/// The lifecycle of a sampler's native resources, with a count of every
/// successful acquisition and every release of each.
#[derive(Clone, Copy, Debug, PartialEq, Eq, Structural)]
pub struct SamplerSession {
    pub phase: SamplerPhase,
    pub channels_created: u64,
    pub channels_released: u64,
    pub subscriptions_created: u64,
    pub subscriptions_released: u64,
}

impl SamplerSession {
    /// Each resource is acquired at most once and released at most once, and
    /// what the phase says is held is exactly what is acquired and not released.
    pub open spec fn wf(self) -> bool {
        &&& self.channels_created <= 1
        &&& self.subscriptions_created <= 1
        &&& self.channels_released <= self.channels_created
        &&& self.subscriptions_released <= self.subscriptions_created
        &&& match self.phase {
            SamplerPhase::Opening => self.channels_created == 0 && self.subscriptions_created == 0,
            SamplerPhase::ChannelsReady => self.channels_created == 1 && self.channels_released == 0
                && self.subscriptions_created == 0,
            SamplerPhase::Subscribed => self.channels_created == 1 && self.channels_released == 0
                && self.subscriptions_created == 1 && self.subscriptions_released == 0,
            SamplerPhase::Closed => self.channels_released == self.channels_created
                && self.subscriptions_released == self.subscriptions_created,
        }
    }

    pub open spec fn initial() -> SamplerSession {
        SamplerSession {
            phase: SamplerPhase::Opening,
            channels_created: 0,
            channels_released: 0,
            subscriptions_created: 0,
            subscriptions_released: 0,
        }
    }

    pub open spec fn after_channels(self, ok: bool) -> (SamplerSession, SamplerAction) {
        if self.phase == SamplerPhase::Opening {
            if ok {
                (
                    SamplerSession {
                        phase: SamplerPhase::ChannelsReady,
                        channels_created: (self.channels_created + 1) as u64,
                        ..self
                    },
                    SamplerAction::CreateSubscription,
                )
            } else {
                (SamplerSession { phase: SamplerPhase::Closed, ..self }, SamplerAction::Nothing)
            }
        } else {
            (self, SamplerAction::Nothing)
        }
    }

    pub open spec fn after_subscription(self, ok: bool) -> (SamplerSession, SamplerAction) {
        if self.phase == SamplerPhase::ChannelsReady {
            if ok {
                (
                    SamplerSession {
                        phase: SamplerPhase::Subscribed,
                        subscriptions_created: (self.subscriptions_created + 1) as u64,
                        ..self
                    },
                    SamplerAction::Nothing,
                )
            } else {
                (
                    SamplerSession {
                        phase: SamplerPhase::Closed,
                        channels_released: (self.channels_released + 1) as u64,
                        ..self
                    },
                    SamplerAction::ReleaseChannels,
                )
            }
        } else {
            (self, SamplerAction::Nothing)
        }
    }

    pub open spec fn after_sample_request(self, duration_ms: u64) -> (
        SamplerSession,
        SamplerAction,
    ) {
        if self.phase == SamplerPhase::Subscribed {
            (self, SamplerAction::Sample { duration_ms })
        } else {
            (self, SamplerAction::Nothing)
        }
    }

    pub open spec fn after_close(self) -> (SamplerSession, SamplerAction) {
        match self.phase {
            SamplerPhase::Subscribed => (
                SamplerSession {
                    phase: SamplerPhase::Closed,
                    channels_released: (self.channels_released + 1) as u64,
                    subscriptions_released: (self.subscriptions_released + 1) as u64,
                    ..self
                },
                SamplerAction::ReleaseAll,
            ),
            SamplerPhase::ChannelsReady => (
                SamplerSession {
                    phase: SamplerPhase::Closed,
                    channels_released: (self.channels_released + 1) as u64,
                    ..self
                },
                SamplerAction::ReleaseChannels,
            ),
            SamplerPhase::Opening => (
                SamplerSession { phase: SamplerPhase::Closed, ..self },
                SamplerAction::Nothing,
            ),
            SamplerPhase::Closed => (self, SamplerAction::Nothing),
        }
    }

    /// A new sampler, which first asks for its channel set.
    pub fn new() -> (r: (SamplerSession, SamplerAction))
        ensures
            r.0 == SamplerSession::initial(),
            r.1 == SamplerAction::CreateChannels,
            r.0.wf(),
    {
        (
            SamplerSession {
                phase: SamplerPhase::Opening,
                channels_created: 0,
                channels_released: 0,
                subscriptions_created: 0,
                subscriptions_released: 0,
            },
            SamplerAction::CreateChannels,
        )
    }

    /// Records whether the channel set was created; on success the
    /// subscription is asked for next.
    pub fn on_channels(&mut self, ok: bool) -> (r: SamplerAction)
        requires
            old(self).wf(),
        ensures
            (*final(self), r) == old(self).after_channels(ok),
            final(self).wf(),
    {
        if self.phase == SamplerPhase::Opening {
            if ok {
                self.phase = SamplerPhase::ChannelsReady;
                self.channels_created = self.channels_created + 1;
                SamplerAction::CreateSubscription
            } else {
                self.phase = SamplerPhase::Closed;
                SamplerAction::Nothing
            }
        } else {
            SamplerAction::Nothing
        }
    }

    /// Records whether the subscription was created; on failure the channel
    /// set is released.
    pub fn on_subscription(&mut self, ok: bool) -> (r: SamplerAction)
        requires
            old(self).wf(),
        ensures
            (*final(self), r) == old(self).after_subscription(ok),
            final(self).wf(),
    {
        if self.phase == SamplerPhase::ChannelsReady {
            if ok {
                self.phase = SamplerPhase::Subscribed;
                self.subscriptions_created = self.subscriptions_created + 1;
                SamplerAction::Nothing
            } else {
                self.phase = SamplerPhase::Closed;
                self.channels_released = self.channels_released + 1;
                SamplerAction::ReleaseChannels
            }
        } else {
            SamplerAction::Nothing
        }
    }

    /// Asks for one sample over `duration_ms`, reusing the subscription; a
    /// sampler that is not subscribed takes none.
    pub fn request_sample(&mut self, duration_ms: u64) -> (r: SamplerAction)
        requires
            old(self).wf(),
        ensures
            (*final(self), r) == old(self).after_sample_request(duration_ms),
            final(self).wf(),
    {
        if self.phase == SamplerPhase::Subscribed {
            SamplerAction::Sample { duration_ms }
        } else {
            SamplerAction::Nothing
        }
    }

    /// Closes the sampler, releasing whatever it holds; closing again does nothing.
    pub fn close(&mut self) -> (r: SamplerAction)
        requires
            old(self).wf(),
        ensures
            (*final(self), r) == old(self).after_close(),
            final(self).wf(),
            final(self).phase == SamplerPhase::Closed,
    {
        match self.phase {
            SamplerPhase::Subscribed => {
                self.phase = SamplerPhase::Closed;
                self.channels_released = self.channels_released + 1;
                self.subscriptions_released = self.subscriptions_released + 1;
                SamplerAction::ReleaseAll
            },
            SamplerPhase::ChannelsReady => {
                self.phase = SamplerPhase::Closed;
                self.channels_released = self.channels_released + 1;
                SamplerAction::ReleaseChannels
            },
            SamplerPhase::Opening => {
                self.phase = SamplerPhase::Closed;
                SamplerAction::Nothing
            },
            SamplerPhase::Closed => SamplerAction::Nothing,
        }
    }
}

/// Every transition keeps the sampler well formed.
pub proof fn lemma_transitions_keep_wf(s: SamplerSession, ok: bool, duration_ms: u64)
    requires
        s.wf(),
    ensures
        s.after_channels(ok).0.wf(),
        s.after_subscription(ok).0.wf(),
        s.after_sample_request(duration_ms).0.wf(),
        s.after_close().0.wf(),
{
}

/// Constructing a sampler and then closing it, whatever the native layer
/// answered, releases each resource that was acquired exactly once; closing a
/// second time releases nothing more.
pub proof fn lemma_open_then_close_balanced(channels_ok: bool, subscription_ok: bool)
    ensures
        ({
            let s1 = SamplerSession::initial().after_channels(channels_ok).0;
            let s2 = s1.after_subscription(subscription_ok).0;
            let c = s2.after_close().0;
            &&& c.phase == SamplerPhase::Closed
            &&& c.channels_created <= 1 && c.subscriptions_created <= 1
            &&& c.channels_released == c.channels_created
            &&& c.subscriptions_released == c.subscriptions_created
            &&& (channels_ok && subscription_ok) ==> c.channels_created == 1
                && c.subscriptions_created == 1
            &&& c.after_close() == (c, SamplerAction::Nothing)
        }),
{
}

/// Closing any well-formed sampler releases everything it acquired.
pub proof fn lemma_close_releases_all(s: SamplerSession)
    requires
        s.wf(),
    ensures
        s.after_close().0.channels_released == s.after_close().0.channels_created,
        s.after_close().0.subscriptions_released == s.after_close().0.subscriptions_created,
        s.after_close().0.after_close().0 == s.after_close().0,
{
}

/// Two consecutive samples on one subscribed sampler both sample and create
/// no subscription: the count stays at one.
pub proof fn lemma_samples_reuse_subscription(s: SamplerSession, d1: u64, d2: u64)
    requires
        s.wf(),
        s.phase == SamplerPhase::Subscribed,
    ensures
        ({
            let (s1, a1) = s.after_sample_request(d1);
            let (s2, a2) = s1.after_sample_request(d2);
            &&& a1 == SamplerAction::Sample { duration_ms: d1 }
            &&& a2 == SamplerAction::Sample { duration_ms: d2 }
            &&& s2.subscriptions_created == 1
            &&& s2 == s
        }),
{
}

} // verus!
