use ai_hwaccel::{AcceleratorProfile, AcceleratorRegistry};
use muharrir::hw::{classify_quality, DeviceSummary, HardwareProfile, QualityTier};

fn device(is_cpu: bool, memory_bytes: u64) -> DeviceSummary {
    DeviceSummary { available: true, is_cpu, memory_bytes, name: String::from("dev") }
}

const GIB: u64 = 1024 * 1024 * 1024;

#[test]
fn default_profile() {
    let p = HardwareProfile::default();
    assert_eq!(p.quality, QualityTier::Medium);
    assert!(!p.has_gpu);
}

#[test]
fn quality_tier_display() {
    assert_eq!(QualityTier::Low.to_string(), "Low");
    assert_eq!(QualityTier::Ultra.to_string(), "Ultra");
}

#[test]
fn classify_no_gpu() {
    assert_eq!(classify_quality(None, 0), QualityTier::Low);
}

#[test]
fn classify_cpu_only() {
    let cpu = device(true, 16 * GIB);
    assert_eq!(classify_quality(Some(&cpu), 0), QualityTier::Low);
}

#[test]
fn classify_mid_gpu() {
    let gpu = device(false, 6 * GIB);
    assert_eq!(classify_quality(Some(&gpu), 6 * GIB), QualityTier::High);
}

#[test]
fn classify_high_gpu() {
    let gpu = device(false, 8 * GIB);
    assert_eq!(classify_quality(Some(&gpu), 8 * GIB), QualityTier::Ultra);
}

#[test]
fn classify_boundary_4gib() {
    let gpu = device(false, 4 * GIB);
    assert_eq!(classify_quality(Some(&gpu), 4 * GIB), QualityTier::High);
}

#[test]
fn classify_small_gpu() {
    let gpu = device(false, 2 * GIB);
    assert_eq!(classify_quality(Some(&gpu), 4 * GIB - 1), QualityTier::Medium);
}

#[test]
fn gpu_memory_display() {
    let mut p = HardwareProfile::default();
    assert_eq!(p.gpu_memory_display(), "N/A");
    p.gpu_memory_bytes = 8 * 1024 * 1024 * 1024;
    assert_eq!(p.gpu_memory_display(), "8.0 GiB");
}

/// The display as floating-point formatting gives it.
fn float_display(bytes: u64) -> String {
    if bytes == 0 {
        return "N/A".into();
    }
    let gib = bytes as f64 / (1024.0 * 1024.0 * 1024.0);
    if gib >= 1.0 {
        format!("{gib:.1} GiB")
    } else {
        let mib = bytes as f64 / (1024.0 * 1024.0);
        format!("{mib:.0} MiB")
    }
}

#[test]
fn gpu_memory_display_matches_float_formatting() {
    let samples: Vec<u64> = vec![
        1,
        512 * 1024,
        512 * 1024 + 1,
        3 * 512 * 1024,
        5 * 512 * 1024,
        1024 * 1024,
        300 * 1024 * 1024,
        GIB - 1,
        GIB,
        GIB + GIB / 4,
        GIB + 3 * GIB / 4,
        GIB + GIB / 20,
        6 * GIB + 429496729,
        24 * GIB,
        (1u64 << 53) + 1,
        (1u64 << 53) + 3,
        (1u64 << 60) + 12345,
        u64::MAX,
        u64::MAX - 1024,
    ];
    for b in samples {
        let mut p = HardwareProfile::default();
        p.gpu_memory_bytes = b;
        assert_eq!(p.gpu_memory_display(), float_display(b), "bytes = {b}");
    }
}

#[test]
fn from_registry_reads_devices() {
    let registry = AcceleratorRegistry::from_profiles(vec![
        AcceleratorProfile::cpu(64 * GIB),
        AcceleratorProfile::cuda(0, 6 * GIB),
        AcceleratorProfile::rocm(1, 2 * GIB),
    ]);
    let p = HardwareProfile::from_registry(&registry);
    assert!(p.has_gpu);
    assert_eq!(p.gpu_memory_bytes, 8 * GIB);
    assert_eq!(p.accelerator_count, 2);
    assert_eq!(p.device_name, "CUDA GPU (device 0)");
    assert_eq!(p.quality, QualityTier::Ultra);
}

#[test]
fn from_registry_cpu_only() {
    let registry = AcceleratorRegistry::from_profiles(vec![AcceleratorProfile::cpu(16 * GIB)]);
    let p = HardwareProfile::from_registry(&registry);
    assert!(!p.has_gpu);
    assert_eq!(p.gpu_memory_bytes, 0);
    assert_eq!(p.accelerator_count, 0);
    assert_eq!(p.device_name, "CPU");
    assert_eq!(p.quality, QualityTier::Low);
}

#[test]
fn from_registry_empty() {
    let registry = AcceleratorRegistry::from_profiles(vec![]);
    let p = HardwareProfile::from_registry(&registry);
    assert_eq!(p.device_name, "CPU");
    assert_eq!(p.quality, QualityTier::Low);
    assert_eq!(p.accelerator_count, 0);
}

#[test]
fn try_from_registry_reads_devices() {
    let registry = AcceleratorRegistry::from_profiles(vec![
        AcceleratorProfile::cpu(64 * GIB),
        AcceleratorProfile::cuda(0, 3 * GIB),
    ]);
    let p = HardwareProfile::try_from_registry(&registry).unwrap();
    assert!(p.has_gpu);
    assert_eq!(p.gpu_memory_bytes, 3 * GIB);
    assert_eq!(p.accelerator_count, 1);
    assert_eq!(p.quality, QualityTier::Medium);
}

#[test]
fn try_from_registry_refuses_memory_overflow() {
    let half = u64::MAX / 2 + 1;
    let registry = AcceleratorRegistry::from_profiles(vec![
        AcceleratorProfile::cuda(0, half),
        AcceleratorProfile::cuda(1, half),
    ]);
    assert!(HardwareProfile::try_from_registry(&registry).is_none());
}
