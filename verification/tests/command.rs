use mad_rust_util::command::{
    CommandTrait, DeviceConfig, DeviceList, DriverConfigurationDescriptor, RequestDeviceConfig,
};
use mad_rust_util::dispatch::Commands;

fn strings(v: &[&str]) -> Vec<String> {
    v.iter().map(|s| s.to_string()).collect()
}

#[test]
fn constructors_mark_their_kind() {
    let d = DriverConfigurationDescriptor::new(1, 2, "n".to_string(), vec![3], 4, 5, strings(&["b"]));
    assert_eq!((d.id, d.vid, d.pid, d.mode_count, d.shift_mode_count), (0, 1, 2, 4, 5));
    assert_eq!(d.device_name, "n");
    assert_eq!(d.device_icon, vec![3]);
    assert_eq!(d.button_name_vec, strings(&["b"]));
    assert_eq!(DeviceList::new(strings(&["s"])).id, 1);
    assert_eq!(RequestDeviceConfig::new("s".to_string()).id, 2);
    assert_eq!(DeviceConfig::new("s".to_string(), vec![]).id, 3);
}

#[test]
fn request_bytes_are_exact() {
    let mut r = RequestDeviceConfig::new("ab".to_string());
    assert_eq!(r.to_bytes(), vec![2, 2, 0, 0, 0, 0, 0, 0, 0, b'a', b'b']);
}

#[test]
fn device_list_bytes_are_exact() {
    let mut d = DeviceList::new(strings(&["x", "\u{e9}"]));
    assert_eq!(
        d.to_bytes(),
        vec![1, 2, 0, 0, 0, 0, 0, 0, 0, 1, 0, 0, 0, 0, 0, 0, 0, b'x', 2, 0, 0, 0, 0, 0, 0, 0, 0xc3, 0xa9]
    );
}

#[test]
fn descriptor_bytes_are_exact() {
    let mut d = DriverConfigurationDescriptor::new(0x1234, 0xabcd, "m".to_string(), vec![9, 8], 3, 4, vec![]);
    assert_eq!(
        d.to_bytes(),
        vec![
            0, 0x34, 0x12, 0xcd, 0xab, 1, 0, 0, 0, 0, 0, 0, 0, b'm', 2, 0, 0, 0, 0, 0, 0, 0, 9, 8, 3,
            4, 0, 0, 0, 0, 0, 0, 0, 0
        ]
    );
}

#[test]
fn device_config_bytes_are_exact() {
    let mut d = DeviceConfig::new("s".to_string(), vec![[strings(&["a"]), strings(&[])]]);
    assert_eq!(
        d.to_bytes(),
        vec![
            3, 1, 0, 0, 0, 0, 0, 0, 0, b's', 1, 0, 0, 0, 0, 0, 0, 0, 1, 0, 0, 0, 0, 0, 0, 0, 1, 0, 0,
            0, 0, 0, 0, 0, b'a', 0, 0, 0, 0, 0, 0, 0, 0
        ]
    );
}

#[test]
fn descriptor_round_trip() {
    let mut d = DriverConfigurationDescriptor::new(
        0x046d,
        0xc52b,
        "Mouse \u{2603}".to_string(),
        vec![0, 255, 7],
        3,
        2,
        strings(&["left", "right", "middle"]),
    );
    let back = DriverConfigurationDescriptor::from_bytes(d.to_bytes());
    assert_eq!(back.id, d.id);
    assert_eq!(back.vid, d.vid);
    assert_eq!(back.pid, d.pid);
    assert_eq!(back.device_name, d.device_name);
    assert_eq!(back.device_icon, d.device_icon);
    assert_eq!(back.mode_count, d.mode_count);
    assert_eq!(back.shift_mode_count, d.shift_mode_count);
    assert_eq!(back.button_name_vec, d.button_name_vec);
}

#[test]
fn device_list_round_trip() {
    let mut d = DeviceList::new(strings(&["A1", "B2", ""]));
    let back = DeviceList::from_bytes(d.to_bytes());
    assert_eq!(back.id, 1);
    assert_eq!(back.serial_number_vec, d.serial_number_vec);
}

#[test]
fn request_round_trip() {
    let mut d = RequestDeviceConfig::new("SN-42".to_string());
    let back = RequestDeviceConfig::from_bytes(d.to_bytes());
    assert_eq!(back.id, 2);
    assert_eq!(back.serial_number, "SN-42");
}

#[test]
fn device_config_round_trip() {
    let mut d = DeviceConfig::new(
        "SN".to_string(),
        vec![[strings(&["a", "b"]), strings(&["c"])], [strings(&[]), strings(&["d"])]],
    );
    let back = DeviceConfig::from_bytes(d.to_bytes());
    assert_eq!(back.id, 3);
    assert_eq!(back.serial_number, "SN");
    assert_eq!(back.config, d.config);
}

#[test]
fn trailing_bytes_are_ignored() {
    let mut d = RequestDeviceConfig::new("x".to_string());
    let mut bytes = d.to_bytes();
    bytes.extend_from_slice(&[1, 2, 3]);
    assert_eq!(RequestDeviceConfig::from_bytes(bytes).serial_number, "x");
}

#[test]
fn commands_from_bytes_by_first_byte() {
    let mut list = DeviceList::new(strings(&["q"]));
    match Commands::from(list.to_bytes()) {
        Commands::DeviceList(l) => assert_eq!(l.serial_number_vec, strings(&["q"])),
        _ => panic!("wrong kind"),
    }
    let mut req = RequestDeviceConfig::new("r".to_string());
    assert!(matches!(Commands::from(req.to_bytes()), Commands::RequestDeviceConfig(_)));
    let mut cfg = DeviceConfig::new("c".to_string(), vec![]);
    assert!(matches!(Commands::from(cfg.to_bytes()), Commands::DeviceConfig(_)));
    let mut desc = DriverConfigurationDescriptor::new(1, 1, "d".to_string(), vec![], 0, 0, vec![]);
    assert!(matches!(Commands::from(desc.to_bytes()), Commands::DriverConfigurationDescriptor(_)));
    assert!(matches!(Commands::from(vec![7, 1, 2]), Commands::Unknown));
}

#[test]
fn command_ids_and_tests() {
    let c = Commands::DeviceList(DeviceList::new(vec![]));
    assert_eq!(c.clone().into(), 1);
    assert!(c.clone().test(&vec![1, 0]));
    assert!(!c.clone().test(&vec![2]));
    assert_eq!(Commands::Unknown.into(), 255);
    assert_eq!(Commands::RequestDeviceConfig(RequestDeviceConfig::new(String::new())).into(), 2);
    assert_eq!(Commands::DeviceConfig(DeviceConfig::new(String::new(), vec![])).into(), 3);
    assert_eq!(
        Commands::DriverConfigurationDescriptor(DriverConfigurationDescriptor::default()).into(),
        0
    );
}

#[test]
fn command_equality_with_numbers_and_bytes() {
    let c = Commands::DeviceConfig(DeviceConfig::new(String::new(), vec![]));
    assert!(c == 3u8);
    assert!(c != 2u8);
    assert!(c == vec![3u8, 9]);
    assert!(c != vec![1u8]);
    assert!(Commands::Unknown == 255u8);
}
