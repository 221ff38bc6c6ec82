use atop::reading::Reading;
use atop::smc::{
    fallback_temperature_keys, fan_key, get_all_smc_data, get_battery_metrics, indexed_key,
    is_temperature_key, key_entry, labelled_sensors, DumpError, FanReadings, KeyReading, SMCValue,
    Smc, SmcError, SmcKeyInfo, TAG_UI8,
};

fn r(v: i64) -> Reading {
    Reading { mantissa: v, exponent: 0 }
}

#[test]
fn dump_entry_stages() {
    let info = SmcKeyInfo { data_size: 1, data_type: TAG_UI8, data_attributes: 0 };
    let ok = key_entry("AAAA".to_string(), 0x4141_4141, Ok(info), Ok(vec![9]));
    assert_eq!(ok.type_str, "ui8 ");
    assert_eq!(ok.size, 1);
    assert_eq!(ok.raw_bytes, vec![9]);
    assert!(matches!(ok.value, Some(SMCValue::U8(9))));
    assert_eq!(ok.error, None);

    let info_err = key_entry("BBBB".to_string(), 1, Err(SmcError::ControllerError(132)), Ok(vec![1]));
    assert_eq!(info_err.error, Some(DumpError::Info(SmcError::ControllerError(132))));
    assert_eq!(info_err.type_str, "");
    assert!(info_err.raw_bytes.is_empty());

    let read_err = key_entry("CCCC".to_string(), 2, Ok(info), Err(SmcError::CallFailed(-1)));
    assert_eq!(read_err.error, Some(DumpError::Read(SmcError::CallFailed(-1))));
    assert!(read_err.value.is_none());

    let parse_err = key_entry("DDDD".to_string(), 3, Ok(info), Ok(vec![]));
    assert_eq!(parse_err.error, Some(DumpError::Parse(SmcError::InvalidData)));
}

#[test]
fn dump_is_sorted_by_key() {
    let info = SmcKeyInfo { data_size: 1, data_type: TAG_UI8, data_attributes: 0 };
    let keys = ["TC0P", "#KEY", "B0AC", "TC0P", "Ab12"];
    let entries = keys
        .iter()
        .map(|k| {
            let b = k.as_bytes();
            let code = u32::from_be_bytes([b[0], b[1], b[2], b[3]]);
            key_entry(k.to_string(), code, Ok(info), Ok(vec![1]))
        })
        .collect();
    let d = get_all_smc_data(1234, entries);
    assert_eq!(d.total_keys, 1234);
    let order: Vec<&str> = d.keys.iter().map(|k| k.key.as_str()).collect();
    assert_eq!(order, vec!["#KEY", "Ab12", "B0AC", "TC0P", "TC0P"]);
}

#[test]
fn battery_assembly() {
    let b = get_battery_metrics(Some(4000), Some(5000), Some(12_600), Some(-1500), None, Some(r(30)), Some(321));
    assert_eq!(b.health_ppm, Some(800_000));
    assert_eq!(b.temperature, Some(r(30)));
    assert_eq!(b.cycle_count, Some(321));
    assert_eq!(b.voltage_mv, Some(12_600));
    assert_eq!(b.current_ma, Some(-1500));
    let b = get_battery_metrics(Some(1), Some(0), None, None, Some(r(25)), Some(r(30)), None);
    assert_eq!(b.health_ppm, None);
    assert_eq!(b.temperature, Some(r(25)));
    assert_eq!(b.cycle_count, None);
}

#[test]
fn labelled_temperatures_band() {
    let rs = vec![
        ("CPU Proximity".to_string(), Some(r(45))),
        ("GPU Die".to_string(), Some(r(0))),
        ("Battery 1".to_string(), Some(r(150))),
        ("Memory Bank 1".to_string(), None),
        ("Wireless Module".to_string(), Some(Reading { mantissa: 3, exponent: -1 })),
    ];
    let out = Smc::get_all_temperatures(&rs);
    assert_eq!(
        out,
        vec![
            ("CPU Proximity".to_string(), r(45)),
            ("Wireless Module".to_string(), Reading { mantissa: 3, exponent: -1 }),
        ]
    );
}

#[test]
fn fans_present_by_actual_speed() {
    let none = FanReadings { actual: None, minimum: Some(r(1)), maximum: None, target: None };
    let one = FanReadings { actual: Some(r(1200)), minimum: Some(r(1000)), maximum: Some(r(6000)), target: None };
    let fans = Smc::get_fan_metrics(&[none, one]);
    assert_eq!(fans.len(), 1);
    assert_eq!(fans[0].id, 1);
    assert_eq!(fans[0].actual_rpm, Some(r(1200)));
    assert_eq!(fans[0].target_rpm, None);
}

#[test]
fn rails_keep_readable_keys() {
    let rs = vec![
        KeyReading { key: "VC00".to_string(), value: Some(r(1)) },
        KeyReading { key: "VC01".to_string(), value: None },
    ];
    assert_eq!(Smc::readable_values(&rs), vec![("VC00".to_string(), r(1))]);
}

#[test]
fn key_names() {
    assert_eq!(indexed_key("VC", 7), "VC07");
    assert_eq!(indexed_key("IC", 43), "IC43");
    assert_eq!(fan_key(1, "Mx"), "F1Mx");
    assert!(is_temperature_key("Tp01"));
    assert!(!is_temperature_key("PSTR"));
}

#[test]
fn key_tables() {
    let f = fallback_temperature_keys();
    assert_eq!(f.len(), 26);
    assert_eq!(f[0], "Te04");
    assert_eq!(f[25], "Tg0M");
    let l = labelled_sensors();
    assert_eq!(l.len(), 14);
    assert_eq!(l[0], ("TC0P".to_string(), "CPU Proximity".to_string()));
    assert_eq!(l[13], ("TW0P".to_string(), "Wireless Module".to_string()));
}
