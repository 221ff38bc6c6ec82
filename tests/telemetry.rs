use atop::dvfs::{
    dvfs_scale_divisor, get_cpu_frequencies, get_cpu_info, get_gpu_freqs, get_gpu_frequencies,
    parse_dvfs_mhz, scale_ladder,
};
use atop::perf::{
    cluster_average, parse_sample, ChannelSample, SamplerAction, SamplerPhase, SamplerSession,
};
use atop::power::{energy_to_watts, get_power_metrics_from_sample, EnergyChannel, PowerError};
use atop::reading::{reading_below, reading_exceeds, reading_from_f32_bits, reading_millis, Reading};
use atop::residency::{calc_freq, find_active_offset, total_ticks, ResidencyState, Usage};
use atop::smc::{
    check_reply, decode_value, get_smc_connection, is_smc_endpoint, key_code, key_from_code,
    read_float, value_reading, ConnectStep, KeyReading, SMCValue, Smc, SmcError, SmcKeyInfo,
    TAG_CH8, TAG_FLAG, TAG_FLT, TAG_SI16, TAG_SI8, TAG_UI16, TAG_UI32, TAG_UI8,
    NOT_PRIVILEGED,
};
use atop::sysinfo::{
    get_cpu_metrics, get_memory_metrics, needs_profiler, parse_core_counts, parse_u32, sysctl_string, sysctl_u64,
    ProfilerInfo, SysError, VmPageCounts,
};

fn blob(freqs: &[u32]) -> Vec<u8> {
    let mut b = Vec::new();
    for f in freqs {
        b.extend_from_slice(&f.to_le_bytes());
        b.extend_from_slice(&900_000u32.to_le_bytes());
    }
    b
}

fn states(list: &[(&str, i64)]) -> Vec<ResidencyState> {
    list.iter()
        .map(|(n, t)| ResidencyState { name: n.to_string(), ticks: *t })
        .collect()
}

fn tag(s: &str) -> u32 {
    let b = s.as_bytes();
    u32::from_be_bytes([b[0], b[1], b[2], b[3]])
}

fn kr(key: &str, value: Option<Reading>) -> KeyReading {
    KeyReading { key: key.to_string(), value }
}

fn celsius(v: i64) -> Option<Reading> {
    Some(Reading { mantissa: v, exponent: 0 })
}

// ---- frequency ladders ----

#[test]
fn dvfs_parse_twice_is_identical() {
    let b = blob(&[600_000_000, 0, 972_000_000, 1_332_000_000]);
    let first = parse_dvfs_mhz(&b);
    let second = parse_dvfs_mhz(&b);
    assert_eq!(first, second);
    assert_eq!(first, Some(vec![600_000_000, 972_000_000, 1_332_000_000]));
}

#[test]
fn dvfs_all_zero_or_empty_is_none() {
    assert_eq!(parse_dvfs_mhz(&blob(&[0, 0])), None);
    assert_eq!(parse_dvfs_mhz(&[]), None);
}

#[test]
fn dvfs_partial_record_is_none() {
    let mut b = blob(&[600_000_000]);
    b.push(1);
    assert_eq!(parse_dvfs_mhz(&b), None);
}

#[test]
fn dvfs_voltage_is_ignored() {
    let mut b = Vec::new();
    b.extend_from_slice(&0u32.to_le_bytes());
    b.extend_from_slice(&5u32.to_le_bytes());
    b.extend_from_slice(&7u32.to_le_bytes());
    b.extend_from_slice(&0u32.to_le_bytes());
    assert_eq!(parse_dvfs_mhz(&b), Some(vec![7]));
}

#[test]
fn scale_hz_band() {
    let b = blob(&[600_000_000, 2_064_000_000]);
    let (e, _) = get_cpu_frequencies(&b, &[]);
    assert_eq!(e, Some(vec![600, 2064]));
}

#[test]
fn scale_khz_band() {
    let b = blob(&[600, 2064]);
    let (e, _) = get_cpu_frequencies(&b, &[]);
    assert_eq!(e, Some(vec![0, 2]));
    assert_eq!(dvfs_scale_divisor(&[9_999, 5_000]), 1_000);
}

#[test]
fn scale_ambiguous_and_mixed_default_to_hz() {
    assert_eq!(dvfs_scale_divisor(&[50_000_000]), 1_000_000);
    assert_eq!(dvfs_scale_divisor(&[5_000, 200_000_000]), 1_000_000);
    assert_eq!(dvfs_scale_divisor(&[5_000, 50_000]), 1_000_000);
    assert_eq!(dvfs_scale_divisor(&[]), 1_000_000);
}

#[test]
fn scale_ladder_divides_down() {
    assert_eq!(scale_ladder(&[600_999_999, 1_000_000], 1_000_000), vec![600, 1]);
}

#[test]
fn cpu_unit_taken_from_efficiency_table() {
    let e = blob(&[5_000, 9_000]);
    let p = blob(&[20_000, 30_000]);
    let info = get_cpu_info(&e, &p);
    assert_eq!(info.ecpu_freqs_mhz, vec![5, 9]);
    assert_eq!(info.pcpu_freqs_mhz, vec![20, 30]);
    let info = get_cpu_info(&[], &p);
    assert!(info.ecpu_freqs_mhz.is_empty());
    assert_eq!(info.pcpu_freqs_mhz, vec![0, 0]);
}

#[test]
fn gpu_ladder_scaled_by_own_unit() {
    let g = blob(&[0, 338_000_000, 1_398_000_000]);
    assert_eq!(get_gpu_frequencies(&g), Some(vec![338, 1398]));
    assert_eq!(get_gpu_freqs(&g), vec![338, 1398]);
    assert_eq!(get_gpu_freqs(&[1, 2, 3]), Vec::<u32>::new());
    let khz = blob(&[3000, 9000]);
    assert_eq!(get_gpu_frequencies(&khz), Some(vec![3, 9]));
    assert_eq!(get_gpu_freqs(&khz), vec![3, 9]);
}

// ---- residency ----

#[test]
fn residency_weighted_two_states() {
    let st = states(&[("IDLE", 100), ("V1", 300), ("V2", 600)]);
    let u = calc_freq(&st, &[1000, 2000]);
    assert_eq!(u, Usage { freq_mhz: 1666, util_ppm: 750_000 });
}

#[test]
fn residency_no_activity_is_zero() {
    let st = states(&[("IDLE", 100), ("V1", 0), ("V2", 0)]);
    assert_eq!(calc_freq(&st, &[1000, 2000]), Usage { freq_mhz: 0, util_ppm: 0 });
    let st = states(&[("V1", 10)]);
    assert_eq!(calc_freq(&st, &[]), Usage { freq_mhz: 0, util_ppm: 0 });
}

#[test]
fn residency_low_average_uses_min_frequency() {
    // avg below ladder[0] cannot happen with weights summing to 1 unless
    // states run past the ladder; the floor then applies.
    let st = states(&[("DOWN", 0), ("V1", 100), ("V2", 0), ("V3", 100)]);
    let u = calc_freq(&st, &[1000, 2000]);
    // active 200, w = 100*1000, avg 500, floor 1000*200 = 200000, d = 200*2000
    assert_eq!(u, Usage { freq_mhz: 500, util_ppm: 500_000 });
}

#[test]
fn residency_offset_and_totals() {
    let st = states(&[("OFF", 1), ("IDLE", 2), ("V1", 3)]);
    assert_eq!(find_active_offset(&st), 2);
    let all_idle = states(&[("IDLE", 1), ("DOWN", 2)]);
    assert_eq!(find_active_offset(&all_idle), 0);
    assert_eq!(total_ticks(&st), Some(6));
    let big = states(&[("V1", i64::MAX), ("V2", i64::MAX), ("V3", 2)]);
    assert_eq!(total_ticks(&big), None);
    let neg = states(&[("V1", -5), ("V2", 5)]);
    assert_eq!(total_ticks(&neg), Some(5));
}

#[test]
fn residency_utilization_is_clamped() {
    let st = states(&[("V1", 10)]);
    let u = calc_freq(&st, &[3000, 1000]);
    assert_eq!(u, Usage { freq_mhz: 3000, util_ppm: 1_000_000 });
}

// ---- sampler ----

fn channel(group: &str, subgroup: &str, name: &str, st: &[(&str, i64)]) -> ChannelSample {
    ChannelSample {
        group: group.to_string(),
        subgroup: subgroup.to_string(),
        name: name.to_string(),
        states: states(st),
    }
}

#[test]
fn sample_averages_clusters() {
    let chans = vec![
        channel("CPU Stats", "CPU Core Performance States", "ECPU000", &[("IDLE", 0), ("V0", 100), ("V1", 0)]),
        channel("CPU Stats", "CPU Core Performance States", "ECPU010", &[("IDLE", 0), ("V0", 0), ("V1", 100)]),
        channel("CPU Stats", "CPU Core Performance States", "PCPU000", &[("IDLE", 50), ("V0", 50)]),
        channel("GPU Stats", "GPU Performance States", "GPUPH", &[("OFF", 0), ("V1", 10), ("V2", 30)]),
        channel("Other", "x", "ECPU", &[("V0", 100)]),
    ];
    let s = parse_sample(&chans, &[1000, 2000], &[3000], &[0, 400, 800]);
    assert_eq!(s.ecpu_usage, Usage { freq_mhz: 1500, util_ppm: 750_000 });
    assert_eq!(s.pcpu_usage, Usage { freq_mhz: 3000, util_ppm: 500_000 });
    // gpu: w = 10*400 + 30*800 = 28000, active 40 => 700
    assert_eq!(s.gpu_usage, Usage { freq_mhz: 700, util_ppm: 875_000 });
}

#[test]
fn sample_without_channels_is_zero() {
    let s = parse_sample(&[], &[1000], &[2000], &[100]);
    assert_eq!(s.ecpu_usage, Usage { freq_mhz: 0, util_ppm: 0 });
    assert_eq!(s.gpu_usage, Usage { freq_mhz: 0, util_ppm: 0 });
}

#[test]
fn cluster_average_rounds_down() {
    let u = cluster_average(&[
        Usage { freq_mhz: 1000, util_ppm: 1 },
        Usage { freq_mhz: 1001, util_ppm: 2 },
    ]);
    assert_eq!(u, Usage { freq_mhz: 1000, util_ppm: 1 });
    assert_eq!(cluster_average(&[]), Usage { freq_mhz: 0, util_ppm: 0 });
}

#[test]
fn lifecycle_open_close_releases_once() {
    let (mut s, a) = SamplerSession::new();
    assert_eq!(a, SamplerAction::CreateChannels);
    assert_eq!(s.on_channels(true), SamplerAction::CreateSubscription);
    assert_eq!(s.on_subscription(true), SamplerAction::Nothing);
    assert_eq!(s.close(), SamplerAction::ReleaseAll);
    assert_eq!(s.close(), SamplerAction::Nothing);
    assert_eq!(s.phase, SamplerPhase::Closed);
    assert_eq!((s.channels_created, s.channels_released), (1, 1));
    assert_eq!((s.subscriptions_created, s.subscriptions_released), (1, 1));
}

#[test]
fn lifecycle_failed_subscription_releases_channels() {
    let (mut s, _) = SamplerSession::new();
    s.on_channels(true);
    assert_eq!(s.on_subscription(false), SamplerAction::ReleaseChannels);
    assert_eq!(s.close(), SamplerAction::Nothing);
    assert_eq!((s.channels_created, s.channels_released), (1, 1));
    assert_eq!((s.subscriptions_created, s.subscriptions_released), (0, 0));
}

#[test]
fn lifecycle_two_samples_one_subscription() {
    let (mut s, _) = SamplerSession::new();
    s.on_channels(true);
    s.on_subscription(true);
    assert_eq!(s.request_sample(1000), SamplerAction::Sample { duration_ms: 1000 });
    assert_eq!(s.request_sample(1000), SamplerAction::Sample { duration_ms: 1000 });
    assert_eq!(s.subscriptions_created, 1);
    s.close();
    assert_eq!(s.request_sample(1000), SamplerAction::Nothing);
}

// ---- power ----

#[test]
fn energy_units() {
    assert_eq!(energy_to_watts(1500, "mJ", 1000), Ok(1_500_000));
    assert_eq!(energy_to_watts(1500, "uJ", 1000), Ok(1_500));
    assert_eq!(energy_to_watts(1500, "\u{3bc}J", 1000), Ok(1_500));
    assert_eq!(energy_to_watts(1500, "nJ", 1000), Ok(1));
    assert_eq!(energy_to_watts(-1500, "nJ", 1000), Ok(-1));
    assert_eq!(energy_to_watts(3000, "mJ", 1010), Ok(2_970_297));
    assert_eq!(energy_to_watts(1, "J", 1000), Err(PowerError::UnknownUnit));
    assert_eq!(energy_to_watts(1, "mJ", 0), Err(PowerError::EmptyWindow));
}

fn energy(name: &str, unit: &str, value: i64) -> EnergyChannel {
    EnergyChannel {
        group: "Energy Model".to_string(),
        name: name.to_string(),
        unit: unit.to_string(),
        value,
    }
}

#[test]
fn power_buckets() {
    let chans = vec![
        energy("ECPU CPU Energy", "mJ", 500),
        energy("PCPU CPU Energy", "mJ", 1500),
        energy("GPU Energy", "mJ", 300),
        energy("ANE0", "mJ", 100),
        energy("DRAM0", "mJ", 50),
        energy("GPU SRAM0", "mJ", 20),
        energy("GPU Energy", "kJ", 999),
        energy("Misc", "mJ", 7),
    ];
    let p = get_power_metrics_from_sample(&chans, 1000);
    assert_eq!(p.cpu_power, 2_000_000);
    assert_eq!(p.gpu_power, 300_000);
    assert_eq!(p.ane_power, 100_000);
    assert_eq!(p.ram_power, 50_000);
    assert_eq!(p.gpu_ram_power, 20_000);
    assert_eq!(p.all_power, 2_400_000);
    assert_eq!(p.sys_power, 2_400_000);
    let z = get_power_metrics_from_sample(&chans, 0);
    assert_eq!(z.all_power, 0);
}

// ---- readings ----

#[test]
fn float_bits_decode_exactly() {
    let r = reading_from_f32_bits(42.5f32.to_bits()).unwrap();
    assert_eq!(r, Reading { mantissa: 11_141_120, exponent: -18 });
    assert_eq!(reading_from_f32_bits(f32::NAN.to_bits()), None);
    assert_eq!(reading_from_f32_bits(f32::INFINITY.to_bits()), None);
    let d = reading_from_f32_bits(1).unwrap();
    assert_eq!(d, Reading { mantissa: 1, exponent: -149 });
    let n = reading_from_f32_bits((-2.0f32).to_bits()).unwrap();
    assert_eq!(n, Reading { mantissa: -8_388_608, exponent: -22 });
}

#[test]
fn reading_comparisons_and_millis() {
    let r = reading_from_f32_bits(42.5f32.to_bits()).unwrap();
    assert!(reading_exceeds(r, -50));
    assert!(reading_below(r, 150));
    assert!(!reading_exceeds(r, 43));
    assert_eq!(reading_millis(r), 42_500);
    let neg = reading_from_f32_bits((-12.3456f32).to_bits()).unwrap();
    assert_eq!(reading_millis(neg), -12_345);
    let huge = reading_from_f32_bits(1.0e30f32.to_bits()).unwrap();
    assert!(!reading_below(huge, 150));
    let tiny = reading_from_f32_bits(1.0e-30f32.to_bits()).unwrap();
    assert!(reading_exceeds(tiny, 0));
    assert_eq!(reading_millis(tiny), 0);
}

// ---- controller ----

#[test]
fn decode_table_examples() {
    let v = decode_value(TAG_FLT, &42.5f32.to_le_bytes()).unwrap();
    match v {
        SMCValue::Float(bits) => assert_eq!(f32::from_bits(bits), 42.5),
        other => panic!("unexpected {:?}", other),
    }
    assert!(matches!(decode_value(TAG_UI8, &[7]), Ok(SMCValue::U8(7))));
    assert!(matches!(decode_value(TAG_FLAG, &[0]), Ok(SMCValue::Flag(false))));
    assert!(matches!(decode_value(TAG_FLAG, &[2]), Ok(SMCValue::Flag(true))));
}

#[test]
fn decode_integers_big_endian() {
    assert!(matches!(decode_value(TAG_UI16, &[1, 2]), Ok(SMCValue::U16(0x0102))));
    assert!(matches!(decode_value(TAG_UI32, &[1, 2, 3, 4]), Ok(SMCValue::U32(0x0102_0304))));
    assert!(matches!(decode_value(TAG_SI8, &[0xff]), Ok(SMCValue::I8(-1))));
    assert!(matches!(decode_value(TAG_SI16, &[0xff, 0xfe]), Ok(SMCValue::I16(-2))));
}

#[test]
fn decode_fixed_point() {
    let v = decode_value(tag("fp88"), &[0x28, 0x80]).unwrap();
    assert!(matches!(v, SMCValue::UnsignedFixed { raw: 0x2880, frac_bits: 8 }));
    assert_eq!(value_reading(&v), Ok(Reading { mantissa: 0x2880, exponent: -8 }));
    let v = decode_value(tag("sp78"), &[0xff, 0x00]).unwrap();
    assert!(matches!(v, SMCValue::SignedFixed { raw_signed: -256, frac_bits: 8 }));
    let v = decode_value(tag("fp1f"), &[0x80, 0x00]).unwrap();
    assert!(matches!(v, SMCValue::UnsignedFixed { frac_bits: 15, .. }));
    let v = decode_value(tag("spf0"), &[0x00, 0x05]).unwrap();
    assert!(matches!(v, SMCValue::SignedFixed { raw_signed: 5, frac_bits: 0 }));
    // an fp tag outside the table is raw bytes
    assert!(matches!(decode_value(tag("fp99"), &[1, 2]), Ok(SMCValue::Bytes(_))));
}

#[test]
fn decode_text_and_raw() {
    match decode_value(TAG_CH8, b"AB\0CD") {
        Ok(SMCValue::Text(s)) => assert_eq!(s, "AB"),
        other => panic!("unexpected {:?}", other),
    }
    match decode_value(TAG_CH8, b"ABCDEFGHIJ") {
        Ok(SMCValue::Text(s)) => assert_eq!(s, "ABCDEFGH"),
        other => panic!("unexpected {:?}", other),
    }
    match decode_value(TAG_CH8, b"ABCDEFGHIJ\0K") {
        Ok(SMCValue::Text(s)) => assert_eq!(s, "ABCDEFGH"),
        other => panic!("unexpected {:?}", other),
    }
    match decode_value(TAG_CH8, b"ABC") {
        Ok(SMCValue::Text(s)) => assert_eq!(s, "ABC"),
        other => panic!("unexpected {:?}", other),
    }
    match decode_value(tag("hex_"), &[9, 8]) {
        Ok(SMCValue::Bytes(b)) => assert_eq!(b, vec![9, 8]),
        other => panic!("unexpected {:?}", other),
    }
    match decode_value(tag("{fds"), &[1, 2, 3]) {
        Ok(SMCValue::Bytes(b)) => assert_eq!(b, vec![1, 2, 3]),
        other => panic!("unexpected {:?}", other),
    }
}

#[test]
fn decode_short_payloads_fail() {
    assert!(matches!(decode_value(TAG_FLT, &[1, 2, 3]), Err(SmcError::InvalidData)));
    assert!(matches!(decode_value(TAG_UI8, &[]), Err(SmcError::InvalidData)));
    assert!(matches!(decode_value(tag("fp88"), &[1]), Err(SmcError::InvalidData)));
}

#[test]
fn read_float_of_values() {
    assert_eq!(read_float(TAG_UI8, &[7]), Ok(Reading { mantissa: 7, exponent: 0 }));
    assert_eq!(read_float(TAG_FLAG, &[1]), Err(SmcError::NotNumeric));
    assert_eq!(read_float(TAG_UI16, &[1]), Err(SmcError::InvalidData));
}

#[test]
fn keys_encode_big_endian() {
    assert_eq!(key_code("#KEY"), Ok(0x234b_4559));
    assert_eq!(key_code("TC0"), Err(SmcError::BadKey));
    assert_eq!(key_code("T\u{e9}0P"), Err(SmcError::BadKey));
    assert_eq!(key_from_code(0x5470_3031), Some("Tp01".to_string()));
    assert_eq!(key_from_code(0x5470_3020), None);
}

#[test]
fn read_all_keys_keeps_printable() {
    let keys = Smc::read_all_keys(&[Some(0x5470_3031), None, Some(0x0001_0203), Some(0x5467_3035)]);
    assert_eq!(keys, vec!["Tp01".to_string(), "Tg05".to_string()]);
}

#[test]
fn num_keys_big_endian() {
    assert_eq!(Smc::read_num_keys(&[0, 0, 0x05, 0x01]), Ok(1281));
    assert_eq!(Smc::read_num_keys(&[0, 1]), Err(SmcError::InvalidData));
}

#[test]
fn little_endian_battery_reads() {
    assert_eq!(Smc::read_le::<u16>(&[0x10, 0x27]), Ok(10_000));
    assert_eq!(Smc::read_le::<i16>(&[0x18, 0xfc]), Ok(-1000));
    assert_eq!(Smc::read_le::<u32>(&[1, 0, 0, 0]), Ok(1));
    assert_eq!(Smc::read_le::<i32>(&[0xff, 0xff, 0xff, 0xff]), Ok(-1));
    assert_eq!(Smc::read_le::<u16>(&[1]), Err(SmcError::InvalidData));
}

#[test]
fn key_info_is_cached_once_read() {
    let mut smc = Smc::new(7);
    assert_eq!(smc.connection(), 7);
    let code = key_code("TC0P").unwrap();
    assert_eq!(smc.cached_info(code), None);
    let info = SmcKeyInfo { data_size: 2, data_type: tag("sp78"), data_attributes: 0 };
    assert_eq!(smc.accept_key_info(code, 5, 0, info), Err(SmcError::CallFailed(5)));
    assert_eq!(smc.cached_info(code), None);
    assert_eq!(smc.accept_key_info(code, 0, 132, info), Err(SmcError::ControllerError(132)));
    assert_eq!(smc.accept_key_info(code, 0, 0, info), Ok(info));
    assert_eq!(smc.cached_info(code), Some(info));
}

#[test]
fn client_closes_once() {
    let mut smc = Smc::new(9);
    assert_eq!(smc.close(), Some(9));
    assert_eq!(smc.close(), None);
    let mut unopened = Smc::new(0);
    assert_eq!(unopened.close(), None);
    match get_smc_connection(0, 5) {
        ConnectStep::Connected(mut s) => {
            assert_eq!(s.close(), Some(5));
            assert_eq!(s.close(), None);
        }
        _ => panic!("expected a connection"),
    }
}

#[test]
fn payload_is_cut_to_size() {
    let info = SmcKeyInfo { data_size: 2, data_type: TAG_UI16, data_attributes: 0 };
    let mut payload = [0u8; 32];
    payload[0] = 1;
    payload[1] = 2;
    payload[2] = 3;
    assert_eq!(Smc::key_payload(0, 0, &payload, info), Ok(vec![1, 2]));
    let big = SmcKeyInfo { data_size: 33, ..info };
    assert_eq!(Smc::key_payload(0, 0, &payload, big), Err(SmcError::InvalidData));
    assert_eq!(check_reply(0, 0), Ok(()));
    assert_eq!(check_reply(-1, 0), Err(SmcError::CallFailed(-1)));
}

#[test]
fn connection_outcomes() {
    assert!(is_smc_endpoint("AppleSMCKeysEndpoint"));
    assert!(!is_smc_endpoint("AppleSMC"));
    assert!(matches!(get_smc_connection(0, 42), ConnectStep::Connected(_)));
    assert!(matches!(get_smc_connection(NOT_PRIVILEGED, 0), ConnectStep::Failed(SmcError::AccessDenied)));
    assert!(matches!(get_smc_connection(-3, 0), ConnectStep::Failed(SmcError::OpenFailed(-3))));
    assert!(matches!(get_smc_connection(0, 0), ConnectStep::KeepLooking));
}

#[test]
fn temperature_out_of_band_excluded() {
    let rs = vec![
        kr("Tp01", celsius(40)),
        kr("Tp05", celsius(-60)),
        kr("Te05", celsius(200)),
        kr("Te0L", celsius(50)),
        kr("Tg05", celsius(150)),
        kr("Tg0M", celsius(30)),
        kr("Tm02", celsius(45)),
        kr("Tp09", None),
    ];
    let (cpu, gpu) = Smc::discover_temperature_sensors(&rs);
    assert_eq!(cpu, vec!["Tp01".to_string(), "Te0L".to_string()]);
    assert_eq!(gpu, vec!["Tg0M".to_string()]);
    assert_eq!(Smc::get_cpu_temperature(&rs), Some(45_000));
    assert_eq!(Smc::get_gpu_temperature(&rs), Some(30_000));
    assert_eq!(Smc::get_cpu_temperature(&rs[1..3]), None);
}

#[test]
fn temperature_band_edges() {
    let fifty_below = Reading { mantissa: -50, exponent: 0 };
    let just_above = reading_from_f32_bits((-49.99f32).to_bits());
    let rs = vec![kr("Tp01", Some(fifty_below)), kr("Tp02", just_above)];
    assert_eq!(Smc::get_cpu_temperature(&rs), Some(-49_990));
}

// ---- host facts ----

#[test]
fn sysctl_values() {
    assert_eq!(sysctl_string(b"Apple M2\0junk"), "Apple M2");
    assert_eq!(sysctl_string(b"abc"), "abc");
    assert_eq!(sysctl_u64(&17_179_869_184u64.to_le_bytes()), Ok(17_179_869_184));
    assert_eq!(sysctl_u64(&8u32.to_le_bytes()), Ok(8));
    assert_eq!(sysctl_u64(&[1, 2]), Err(SysError::UnexpectedSize(2)));
}

#[test]
fn memory_usage_formula() {
    let pages = VmPageCounts {
        active: 100,
        inactive: 50,
        wired: 20,
        speculative: 5,
        compressed: 25,
        purgeable: 10,
        external: 40,
    };
    let m = get_memory_metrics(1 << 30, pages, 16384, 1 << 20, 1 << 21).unwrap();
    assert_eq!(m.ram_usage, 150 * 16384);
    assert_eq!(m.total, (1 << 30) + (1 << 21));
    assert_eq!(m.swap_usage, 1 << 20);
    let bad = VmPageCounts { purgeable: 1000, ..pages };
    assert_eq!(get_memory_metrics(1, bad, 1, 0, 0), Err(SysError::OutOfRange));
    assert_eq!(get_memory_metrics(u64::MAX, pages, 1, 0, 1), Err(SysError::OutOfRange));
}

#[test]
fn cpu_metrics_assembly() {
    let m = get_cpu_metrics(10, 10, "Apple M2 Pro".to_string(), Some(vec![600, 2424]),
        Some(vec![660, 3504]), (Some(4), Some(6)), 0, None);
    assert_eq!(m.cpu_frequency_mhz, 3504);
    assert_eq!(m.chip_name, Some("Apple M2 Pro".to_string()));
    assert_eq!(m.ecpu_cores, Some(4));
    assert!(needs_profiler("Apple Processor", &None, 0));
    assert!(!needs_profiler("Apple Processor", &Some(vec![1000]), 0));
    let p = ProfilerInfo {
        chip_name: Some("Apple M1".to_string()),
        ecpu_cores: Some(4),
        pcpu_cores: Some(4),
        cpu_mhz: None,
    };
    let m = get_cpu_metrics(8, 8, "Apple Processor".to_string(), None, None, (None, Some(5)), 0, Some(p));
    assert_eq!(m.chip_name, Some("Apple M1".to_string()));
    assert_eq!(m.ecpu_cores, Some(4));
    assert_eq!(m.pcpu_cores, Some(5));
    assert_eq!(m.cpu_frequency_mhz, 0);
}

#[test]
fn sysctl_string_replaces_invalid_utf8() {
    assert_eq!(sysctl_string(&[0x41, 0xff, 0x42]), "A\u{fffd}B");
    match decode_value(TAG_CH8, &[0xc3, 0x28]) {
        Ok(SMCValue::Text(s)) => assert_eq!(s, "\u{fffd}("),
        other => panic!("unexpected {:?}", other),
    }
}

#[test]
fn core_counts_from_processor_description() {
    assert_eq!(parse_core_counts("proc 10:4:6"), (Some(6), Some(4)));
    assert_eq!(parse_core_counts("proc 12:x:8:4"), (Some(4), Some(8)));
    assert_eq!(parse_core_counts("proc 8:4"), (None, None));
    assert_eq!(parse_core_counts("10:4:6"), (None, None));
    assert_eq!(parse_core_counts("proc 1:2:99999999999"), (None, None));
    assert_eq!(parse_core_counts(""), (None, None));
}

#[test]
fn decimal_numbers() {
    let chars = |s: &str| s.chars().collect::<Vec<char>>();
    assert_eq!(parse_u32(&chars("4294967295")), Some(u32::MAX));
    assert_eq!(parse_u32(&chars("4294967296")), None);
    assert_eq!(parse_u32(&chars("+7")), Some(7));
    assert_eq!(parse_u32(&chars("+")), None);
    assert_eq!(parse_u32(&chars("")), None);
    assert_eq!(parse_u32(&chars("-1")), None);
    assert_eq!(parse_u32(&chars("1 ")), None);
}
