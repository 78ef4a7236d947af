//! Hardware capability classification for adaptive editor configuration.
//!
//! Reads an accelerator registry from `ai_hwaccel` and maps it to
//! editor-relevant quality tiers and device facts.

use crate::text::{decimal, push_decimal};
use ai_hwaccel::{AcceleratorRegistry, AcceleratorType};
use vstd::prelude::*;

verus! {

/// Quality tier for rendering/viewport, derived from hardware capabilities.
#[derive(Debug, Clone, Copy, PartialEq, Eq, Hash, Structural)]
#[non_exhaustive]
pub enum QualityTier {
    /// Software fallback: CPU only, minimal effects.
    Low,
    /// Integrated or low-end discrete GPU.
    Medium,
    /// Discrete GPU with adequate VRAM (4+ GiB).
    High,
    /// High-end discrete GPU (8+ GiB VRAM).
    Ultra,
}

/// Display name of a tier.
pub open spec fn tier_name(t: QualityTier) -> Seq<char> {
    match t {
        QualityTier::Low => "Low"@,
        QualityTier::Medium => "Medium"@,
        QualityTier::High => "High"@,
        QualityTier::Ultra => "Ultra"@,
    }
}

impl QualityTier {
    /// Display name of the tier ("Low", "Medium", "High", "Ultra").
    pub fn to_string(&self) -> (s: String)
        ensures
            s@ == tier_name(*self),
    {
        match self {
            QualityTier::Low => "Low".to_owned(),
            QualityTier::Medium => "Medium".to_owned(),
            QualityTier::High => "High".to_owned(),
            QualityTier::Ultra => "Ultra".to_owned(),
        }
    }
}

impl Default for QualityTier {
    fn default() -> (t: Self)
        ensures
            t == QualityTier::Medium,
    {
        QualityTier::Medium
    }
}

/// Bytes in a gibibyte.
pub const GIB: u64 = 1073741824;

/// Bytes in a mebibyte.
pub const MIB: u64 = 1048576;

/// The tier for a best device (`Some(is_cpu)`, or `None` when there is no
/// device) and a total accelerator memory in bytes: `Low` without a device
/// or when the best device is the CPU, then by memory: under 4 GiB
/// `Medium`, under 8 GiB `High`, otherwise `Ultra`.
pub open spec fn tier_for(best_is_cpu: Option<bool>, total_vram: u64) -> QualityTier {
    match best_is_cpu {
        None => QualityTier::Low,
        Some(true) => QualityTier::Low,
        Some(false) => if total_vram < 4 * GIB {
            QualityTier::Medium
        } else if total_vram < 8 * GIB {
            QualityTier::High
        } else {
            QualityTier::Ultra
        },
    }
}

/// The order of the tiers, from `Low` (0) to `Ultra` (3).
pub open spec fn tier_rank(t: QualityTier) -> int {
    match t {
        QualityTier::Low => 0,
        QualityTier::Medium => 1,
        QualityTier::High => 2,
        QualityTier::Ultra => 3,
    }
}

/// More accelerator memory never lowers the tier, and a GPU-class device
/// always rates above the CPU fallback.
pub proof fn lemma_tier_monotone(a: u64, b: u64)
    requires
        a <= b,
    ensures
        tier_rank(tier_for(Some(false), a)) <= tier_rank(tier_for(Some(false), b)),
        tier_rank(tier_for(Some(true), b)) < tier_rank(tier_for(Some(false), a)),
        tier_for(None, b) == tier_for(Some(true), b),
{
}

/// A device of the registry, as the editor reads it.
#[derive(Debug, Clone)]
pub struct DeviceSummary {
    /// Whether the device is available for use.
    pub available: bool,
    /// Whether the device is the CPU.
    pub is_cpu: bool,
    /// Device memory in bytes.
    pub memory_bytes: u64,
    /// Display name of the device's accelerator type.
    pub name: String,
}

/// A device summary as (available, is_cpu, memory_bytes, name).
pub open spec fn summary_view(d: DeviceSummary) -> (bool, bool, u64, Seq<char>) {
    (d.available, d.is_cpu, d.memory_bytes, d.name@)
}

/// Pick the tier for the best available device and total accelerator memory.
///
/// The memory thresholds are compared in bytes; this gives the same tier as
/// comparing the memory in (floating-point) GiB against 4.0 and 8.0.
pub fn classify_quality(best: Option<&DeviceSummary>, total_vram: u64) -> (t: QualityTier)
    ensures
        t == tier_for(
            match best {
                Some(d) => Some(d.is_cpu),
                None => None,
            },
            total_vram,
        ),
{
    match best {
        None => QualityTier::Low,
        Some(d) => {
            if d.is_cpu {
                QualityTier::Low
            } else if total_vram < 4 * GIB {
                QualityTier::Medium
            } else if total_vram < 8 * GIB {
                QualityTier::High
            } else {
                QualityTier::Ultra
            }
        },
    }
}

// ---------------------------------------------------------------------------
// The accelerator registry
// ---------------------------------------------------------------------------

/// A registry of detected accelerators (`ai_hwaccel::AcceleratorRegistry`).
#[verifier::external_type_specification]
#[verifier::external_body]
pub struct ExAcceleratorRegistry(AcceleratorRegistry);

/// What a registry holds: for each profile, in order, whether it is
/// available, whether it is the CPU, its memory in bytes, its rank for
/// `best_available`, and the display name of its accelerator type.
pub uninterp spec fn registry_profiles(r: AcceleratorRegistry) -> Seq<(bool, bool, u64, u32, Seq<char>)>;

/// A profile as the summary the library reads of it.
pub open spec fn profile_summary(p: (bool, bool, u64, u32, Seq<char>)) -> (bool, bool, u64, Seq<char>) {
    (p.0, p.1, p.2, p.4)
}

/// The available profiles, in order.
pub open spec fn available_profiles(ps: Seq<(bool, bool, u64, u32, Seq<char>)>) -> Seq<(bool, bool, u64, u32, Seq<char>)>
    decreases ps.len(),
{
    if ps.len() == 0 {
        Seq::empty()
    } else if ps.last().0 {
        available_profiles(ps.drop_last()).push(ps.last())
    } else {
        available_profiles(ps.drop_last())
    }
}

/// Total memory of the available non-CPU profiles.
pub open spec fn accelerator_memory(ps: Seq<(bool, bool, u64, u32, Seq<char>)>) -> nat
    decreases ps.len(),
{
    if ps.len() == 0 {
        0
    } else {
        accelerator_memory(ps.drop_last()) + if ps.last().0 && !ps.last().1 {
            ps.last().2 as nat
        } else {
            0
        }
    }
}

/// Number of available non-CPU profiles.
pub open spec fn accelerator_count(ps: Seq<(bool, bool, u64, u32, Seq<char>)>) -> nat
    decreases ps.len(),
{
    if ps.len() == 0 {
        0
    } else {
        accelerator_count(ps.drop_last()) + if ps.last().0 && !ps.last().1 {
            1nat
        } else {
            0
        }
    }
}

/// Some available profile is not the CPU.
pub open spec fn has_available_accelerator(ps: Seq<(bool, bool, u64, u32, Seq<char>)>) -> bool {
    exists|i: int| 0 <= i < ps.len() && (#[trigger] ps[i]).0 && !ps[i].1
}

/// No profile is available.
pub open spec fn none_available(ps: Seq<(bool, bool, u64, u32, Seq<char>)>) -> bool {
    forall|i: int| 0 <= i < ps.len() ==> !(#[trigger] ps[i]).0
}

/// Profile `i` is the one `best_available` picks: available, of the
/// highest rank among the available ones, and the last of those.
pub open spec fn is_best(ps: Seq<(bool, bool, u64, u32, Seq<char>)>, i: int) -> bool {
    &&& 0 <= i < ps.len()
    &&& ps[i].0
    &&& forall|j: int| 0 <= j < ps.len() && ps[j].0 ==> #[trigger] ps[j].3 <= ps[i].3
    &&& forall|j: int| i < j < ps.len() && ps[j].0 ==> #[trigger] ps[j].3 < ps[i].3
}

/// `AcceleratorRegistry::has_accelerator`: whether an available non-CPU
/// profile exists.
#[verifier::external_body]
fn registry_has_accelerator(r: &AcceleratorRegistry) -> (b: bool)
    ensures
        b == has_available_accelerator(registry_profiles(*r)),
{
    r.has_accelerator()
}

/// `AcceleratorRegistry::total_accelerator_memory`: the sum of the memory
/// of the available non-CPU profiles. The sum is taken with `u64` addition,
/// so it must fit.
#[verifier::external_body]
fn registry_accelerator_memory(r: &AcceleratorRegistry) -> (m: u64)
    requires
        accelerator_memory(registry_profiles(*r)) <= u64::MAX,
    ensures
        m == accelerator_memory(registry_profiles(*r)),
{
    r.total_accelerator_memory()
}

/// `AcceleratorRegistry::available`, each profile read as a summary.
#[verifier::external_body]
fn registry_available(r: &AcceleratorRegistry) -> (v: Vec<DeviceSummary>)
    ensures
        v@.map_values(|d: DeviceSummary| summary_view(d)) == available_profiles(registry_profiles(*r)).map_values(
            |p: (bool, bool, u64, u32, Seq<char>)| profile_summary(p),
        ),
{
    r.available().map(|p| DeviceSummary {
        available: p.available,
        is_cpu: matches!(p.accelerator, AcceleratorType::Cpu),
        memory_bytes: p.memory_bytes,
        name: p.accelerator.to_string(),
    }).collect()
}

/// `AcceleratorRegistry::best_available`, read as a summary: `None` when no
/// profile is available, otherwise the best profile.
#[verifier::external_body]
fn registry_best_available(r: &AcceleratorRegistry) -> (b: Option<DeviceSummary>)
    ensures
        match b {
            None => none_available(registry_profiles(*r)),
            Some(d) => exists|i: int|
                #[trigger] is_best(registry_profiles(*r), i) && summary_view(d) == profile_summary(
                    registry_profiles(*r)[i],
                ),
        },
{
    r.best_available().map(|p| DeviceSummary {
        available: p.available,
        is_cpu: matches!(p.accelerator, AcceleratorType::Cpu),
        memory_bytes: p.memory_bytes,
        name: p.accelerator.to_string(),
    })
}

// ---------------------------------------------------------------------------
// HardwareProfile
// ---------------------------------------------------------------------------

/// Editor-relevant hardware profile.
#[derive(Debug, Clone)]
pub struct HardwareProfile {
    /// Recommended quality tier.
    pub quality: QualityTier,
    /// Whether a discrete GPU (any non-CPU accelerator) is available.
    pub has_gpu: bool,
    /// Total GPU/accelerator memory in bytes.
    pub gpu_memory_bytes: u64,
    /// Name of the best available device.
    pub device_name: String,
    /// Number of available accelerators (excluding CPU).
    pub accelerator_count: usize,
}

impl Default for HardwareProfile {
    fn default() -> (p: Self)
        ensures
            p.quality == QualityTier::Medium,
            !p.has_gpu,
            p.gpu_memory_bytes == 0,
            p.device_name@ == "Unknown"@,
            p.accelerator_count == 0,
    {
        HardwareProfile {
            quality: QualityTier::Medium,
            has_gpu: false,
            gpu_memory_bytes: 0,
            device_name: "Unknown".to_owned(),
            accelerator_count: 0,
        }
    }
}

/// The `u64` nearest to which a value converts to `f64`: the spacing of
/// `f64` values around `n` (1 below 2^53, doubling with each power of two).
pub open spec fn f64_spacing(n: u64) -> nat {
    if n < 9007199254740992 {
        1
    } else if n < 18014398509481984 {
        2
    } else if n < 36028797018963968 {
        4
    } else if n < 72057594037927936 {
        8
    } else if n < 144115188075855872 {
        16
    } else if n < 288230376151711744 {
        32
    } else if n < 576460752303423488 {
        64
    } else if n < 1152921504606846976 {
        128
    } else if n < 2305843009213693952 {
        256
    } else if n < 4611686018427387904 {
        512
    } else if n < 9223372036854775808 {
        1024
    } else {
        2048
    }
}

/// `a / d` rounded to the nearest integer, ties to even.
pub open spec fn div_round_even(a: nat, d: nat) -> nat {
    let q = a / d;
    let r = a % d;
    if 2 * r > d || (2 * r == d && q % 2 == 1) {
        q + 1
    } else {
        q
    }
}

/// The value of `n as f64`: `n` rounded to the nearest multiple of the
/// `f64` spacing there, ties to even.
pub open spec fn as_f64_value(n: u64) -> nat {
    div_round_even(n as nat, f64_spacing(n)) * f64_spacing(n)
}

/// How a GPU memory size is displayed: "N/A" for none; from 1 GiB on, the
/// size in GiB with one decimal ("8.0 GiB"); below, whole MiB ("512 MiB").
/// Rounding is to nearest, ties to even, of the size converted to `f64`.
pub open spec fn memory_display(bytes: u64) -> Seq<char> {
    if bytes == 0 {
        "N/A"@
    } else if bytes >= GIB {
        let tenths = div_round_even(as_f64_value(bytes) * 10, GIB as nat);
        decimal(tenths / 10) + "."@ + decimal(tenths % 10) + " GiB"@
    } else {
        decimal(div_round_even(bytes as nat, MIB as nat)) + " MiB"@
    }
}

/// `n` rounded to the `f64` spacing, computed in `u128`.
fn f64_value(n: u64) -> (v: u128)
    ensures
        v == as_f64_value(n),
        v <= n + 2048,
{
    let spacing: u64 = if n < 9007199254740992 {
        1
    } else if n < 18014398509481984 {
        2
    } else if n < 36028797018963968 {
        4
    } else if n < 72057594037927936 {
        8
    } else if n < 144115188075855872 {
        16
    } else if n < 288230376151711744 {
        32
    } else if n < 576460752303423488 {
        64
    } else if n < 1152921504606846976 {
        128
    } else if n < 2305843009213693952 {
        256
    } else if n < 4611686018427387904 {
        512
    } else if n < 9223372036854775808 {
        1024
    } else {
        2048
    };
    let q = round_even(n as u128, spacing as u128);
    assert(q * spacing <= (n as u128 / spacing as u128 + 1) * spacing) by (nonlinear_arith)
        requires
            q <= n as u128 / spacing as u128 + 1,
    ;
    assert((n as u128 / spacing as u128 + 1) * spacing <= n + spacing) by (nonlinear_arith)
        requires
            spacing > 0,
    ;
    assert(spacing <= 2048);
    q * spacing as u128
}

/// `a / d` rounded to the nearest integer, ties to even.
fn round_even(a: u128, d: u128) -> (q: u128)
    requires
        0 < d <= u64::MAX,
        a <= (u64::MAX as u128 + 2048) * 10,
    ensures
        q == div_round_even(a as nat, d as nat),
        q <= a / d + 1,
{
    let q = a / d;
    let r = a % d;
    if 2 * r > d || (2 * r == d && q % 2 == 1) {
        q + 1
    } else {
        q
    }
}

impl HardwareProfile {
    /// `self` is the profile of a registry holding the profiles `ps`: whether
    /// an accelerator is available, their total memory and their number, and
    /// the name and tier of the best available device ("CPU" and `Low` when
    /// none is available).
    pub open spec fn describes(&self, ps: Seq<(bool, bool, u64, u32, Seq<char>)>) -> bool {
        &&& self.has_gpu == has_available_accelerator(ps)
        &&& self.gpu_memory_bytes == accelerator_memory(ps)
        &&& self.accelerator_count == accelerator_count(ps)
        &&& none_available(ps) ==> {
            &&& self.device_name@ == "CPU"@
            &&& self.quality == QualityTier::Low
        }
        &&& !none_available(ps) ==> exists|i: int|
            #[trigger] is_best(ps, i) && self.device_name@ == ps[i].4 && self.quality == tier_for(
                Some(ps[i].1),
                self.gpu_memory_bytes,
            )
    }

    /// Build a profile from an accelerator registry. The registry's total
    /// accelerator memory must fit in a `u64` (the registry sums it in one).
    pub fn from_registry(registry: &AcceleratorRegistry) -> (p: Self)
        requires
            accelerator_memory(registry_profiles(*registry)) <= u64::MAX,
        ensures
            p.describes(registry_profiles(*registry)),
    {
        let ghost ps = registry_profiles(*registry);
        let has_gpu = registry_has_accelerator(registry);
        let gpu_memory_bytes = registry_accelerator_memory(registry);
        let available = registry_available(registry);
        let ghost avail = available_profiles(ps);
        assert(avail.len() == available@.len()) by {
            assert(available@.map_values(|d: DeviceSummary| summary_view(d)).len() == available@.len());
        }
        let n = available.len();
        let mut count: usize = 0;
        let mut i: usize = 0;
        while i < n
            invariant
                i <= n,
                n == available@.len(),
                n == avail.len(),
                avail == available_profiles(ps),
                available@.map_values(|d: DeviceSummary| summary_view(d)) == avail.map_values(
                    |p: (bool, bool, u64, u32, Seq<char>)| profile_summary(p),
                ),
                count == accelerator_count(avail.take(i as int)),
                count <= i,
            decreases n - i,
        {
            proof {
                let t = avail.take(i + 1);
                assert(t.drop_last() =~= avail.take(i as int));
                assert(t.last() == avail[i as int]);
                let f = |d: DeviceSummary| summary_view(d);
                let g = |q: (bool, bool, u64, u32, Seq<char>)| profile_summary(q);
                assert(available@.map_values(f)[i as int] == summary_view(available@[i as int]));
                assert(avail.map_values(g)[i as int] == profile_summary(avail[i as int]));
                assert(summary_view(available@[i as int]) == profile_summary(avail[i as int]));
                lemma_available_are_available(ps);
                assert(avail[i as int].0);
            }
            if !available[i].is_cpu {
                count = count + 1;
            }
            i = i + 1;
        }
        proof {
            assert(avail.take(n as int) =~= avail);
            lemma_available_count(ps);
        }
        let best = registry_best_available(registry);
        let device_name = match &best {
            Some(d) => d.name.clone(),
            None => "CPU".to_owned(),
        };
        let quality = classify_quality(best.as_ref(), gpu_memory_bytes);
        proof {
            reveal_strlit("CPU");

        }
        HardwareProfile { quality, has_gpu, gpu_memory_bytes, device_name, accelerator_count: count }
    }

    /// Build a profile from an accelerator registry, or `None` when the
    /// registry's total accelerator memory does not fit in a `u64`.
    pub fn try_from_registry(registry: &AcceleratorRegistry) -> (r: Option<Self>)
        ensures
            r is None <==> accelerator_memory(registry_profiles(*registry)) > u64::MAX,
            r matches Some(p) ==> p.describes(registry_profiles(*registry)),
    {
        let ghost ps = registry_profiles(*registry);
        let available = registry_available(registry);
        let ghost avail = available_profiles(ps);
        let ghost f = |d: DeviceSummary| summary_view(d);
        let ghost g = |q: (bool, bool, u64, u32, Seq<char>)| profile_summary(q);
        assert(avail.len() == available@.len()) by {
            assert(available@.map_values(f).len() == available@.len());
        }
        let n = available.len();
        let mut total: u64 = 0;
        let mut i: usize = 0;
        while i < n
            invariant
                i <= n,
                n == available@.len(),
                n == avail.len(),
                ps == registry_profiles(*registry),
                avail == available_profiles(ps),
                f == (|d: DeviceSummary| summary_view(d)),
                g == (|q: (bool, bool, u64, u32, Seq<char>)| profile_summary(q)),
                available@.map_values(f) == avail.map_values(g),
                total == accelerator_memory(avail.take(i as int)),
            decreases n - i,
        {
            proof {
                let t = avail.take(i + 1);
                assert(t.drop_last() =~= avail.take(i as int));
                assert(t.last() == avail[i as int]);
                assert(available@.map_values(f)[i as int] == summary_view(available@[i as int]));
                assert(avail.map_values(g)[i as int] == profile_summary(avail[i as int]));
                lemma_available_are_available(ps);
            }
            if !available[i].is_cpu {
                match total.checked_add(available[i].memory_bytes) {
                    Some(t) => {
                        total = t;
                    },
                    None => {
                        proof {
                            let t = avail.take(i + 1);
                            assert(t.drop_last() =~= avail.take(i as int));
                            assert(summary_view(available@[i as int]) == profile_summary(avail[i as int]));
                            assert(accelerator_memory(t) == total + available@[i as int].memory_bytes);
                            lemma_memory_of_prefix(avail, i + 1);
                            lemma_available_memory(ps);
                        }
                        return None;
                    },
                }
            }
            i = i + 1;
        }
        proof {
            assert(avail.take(n as int) =~= avail);
            lemma_available_memory(ps);
        }
        Some(Self::from_registry(registry))
    }

    /// GPU memory in human-readable form ("N/A", "512 MiB", "8.0 GiB").
    pub fn gpu_memory_display(&self) -> (s: String)
        ensures
            s@ == memory_display(self.gpu_memory_bytes),
    {
        let bytes = self.gpu_memory_bytes;
        if bytes == 0 {
            proof {
                reveal_strlit("N/A");
            }
            return "N/A".to_owned();
        }
        let mut s = String::new();
        if bytes >= GIB {
            let v = f64_value(bytes);
            let tenths = round_even(v * 10, GIB as u128);
            assert(tenths <= u64::MAX) by (nonlinear_arith)
                requires
                    tenths <= (v * 10) as int / 1073741824int + 1,
                    v <= 18446744073709551615int + 2048,
            ;
            push_decimal(&mut s, (tenths / 10) as u64);
            s.append(".");
            push_decimal(&mut s, (tenths % 10) as u64);
            s.append(" GiB");
        } else {
            let mib = round_even(bytes as u128, MIB as u128);
            push_decimal(&mut s, mib as u64);
            s.append(" MiB");
        }
        s
    }
}

/// Counting the non-CPU profiles among the available ones counts the
/// available non-CPU profiles.
proof fn lemma_available_count(ps: Seq<(bool, bool, u64, u32, Seq<char>)>)
    ensures
        accelerator_count(available_profiles(ps)) == accelerator_count(ps),
    decreases ps.len(),
{
    if ps.len() > 0 {
        lemma_available_count(ps.drop_last());
        if ps.last().0 {
            let a = available_profiles(ps);
            assert(a.drop_last() =~= available_profiles(ps.drop_last()));
        }
    }
}

/// The memory of the available non-CPU profiles is the same whether
/// counted over all profiles or over the available ones only.
proof fn lemma_available_memory(ps: Seq<(bool, bool, u64, u32, Seq<char>)>)
    ensures
        accelerator_memory(available_profiles(ps)) == accelerator_memory(ps),
    decreases ps.len(),
{
    if ps.len() > 0 {
        lemma_available_memory(ps.drop_last());
        if ps.last().0 {
            let a = available_profiles(ps);
            assert(a.drop_last() =~= available_profiles(ps.drop_last()));
        }
    }
}

/// The memory counted over a prefix never exceeds that over the whole.
proof fn lemma_memory_of_prefix(ps: Seq<(bool, bool, u64, u32, Seq<char>)>, k: int)
    requires
        0 <= k <= ps.len(),
    ensures
        accelerator_memory(ps.take(k)) <= accelerator_memory(ps),
    decreases ps.len(),
{
    if k < ps.len() {
        lemma_memory_of_prefix(ps.drop_last(), k);
        assert(ps.drop_last().take(k) =~= ps.take(k));
    } else {
        assert(ps.take(k) =~= ps);
    }
}

/// Every profile listed as available is available.
proof fn lemma_available_are_available(ps: Seq<(bool, bool, u64, u32, Seq<char>)>)
    ensures
        forall|i: int| 0 <= i < available_profiles(ps).len() ==> (#[trigger] available_profiles(ps)[i]).0,
    decreases ps.len(),
{
    if ps.len() > 0 {
        lemma_available_are_available(ps.drop_last());
        let a0 = available_profiles(ps.drop_last());
        assert forall|i: int| 0 <= i < available_profiles(ps).len() implies (#[trigger] available_profiles(ps)[i]).0 by {
            if i < a0.len() {
                assert(available_profiles(ps)[i] == a0[i]);
            }
        }
    }
}

} // verus!
