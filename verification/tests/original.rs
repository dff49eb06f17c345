use bls::config::parse_mount_config;
use bls::ini::{write_plan, Ini, WritePlan};
use bls::metadata::{apply_windows_metadata, classic_type, set_ltk, windows_classic_type};
use bls::options::parse_classic_type;
use bls::registry::{RegValue, Registry};
use bls::strmap::StrMap;

#[test]
fn config_requires_three_lines_and_direct_device_path() {
    assert!(parse_mount_config("/dev/nvme0n1p3\n/mnt/blsTemp\n").is_err());
    assert!(parse_mount_config("/dev/disk/by-uuid/ABCD\n/mnt/blsTemp\n/tmp/bluez\n").is_err());
    let direct = parse_mount_config("/dev/nvme0n1p3\n/mnt/blsTemp\n/tmp/bluez\n").unwrap();
    assert_eq!(direct.device, "/dev/nvme0n1p3");
    let unconfigured = parse_mount_config("\n/mnt/blsTemp\n/tmp/bluez\n").unwrap();
    assert!(unconfigured.device.is_empty());
    assert!(parse_mount_config("/dev/nvme0n1p3\n/mnt/blsTemp\nrelative\n").is_err());
}

#[test]
fn ini_preserves_both_transports_and_trust() {
    let mut ini = Ini::default();
    ini.set("General", "SupportedTechnologies", "LE;");
    ini.set("General", "Trusted", "false");
    ini.add_technology("BR/EDR");
    ini.trust_if_new();
    assert_eq!(
        ini.get("General", "SupportedTechnologies"),
        Some("LE;BR/EDR;")
    );
    assert_eq!(ini.get("General", "Trusted"), Some("false"));
}

#[test]
fn unchanged_ini_is_not_rewritten_for_different_field_order() {
    let existing = "[General]\nTrusted=true\nAddressType=public\n";
    let mut ini = Ini::default();
    ini.set("General", "AddressType", "public");
    ini.set("General", "Trusted", "true");
    assert!(matches!(write_plan(Some(existing), &ini, false), WritePlan::Unchanged));
}

#[test]
fn classic_modes_are_all_accepted() {
    assert_eq!(parse_classic_type("legacy").unwrap(), 0);
    assert_eq!(parse_classic_type("ssp").unwrap(), 4);
    assert_eq!(parse_classic_type("sc").unwrap(), 7);
    assert_eq!(parse_classic_type("8").unwrap(), 8);
    let mut ini = Ini::default();
    assert_eq!(classic_type(&ini, None, None, 4), 4);
    ini.set("LinkKey", "Key", "EXISTING");
    assert_eq!(classic_type(&ini, None, None, 4), 0);
    assert_eq!(classic_type(&ini, None, Some(4), 4), 4);
    assert_eq!(classic_type(&ini, Some(7), Some(4), 4), 7);
}

#[test]
fn windows_classic_metadata_distinguishes_legacy_and_ssp() {
    let mut device = StrMap::new();
    let mut service = StrMap::new();
    device.insert(
        "hostsupportedfeaturesmap".into(),
        RegValue::Bytes(vec![1, 0, 0, 0, 0, 0, 0, 0]),
    );
    service.insert("ssp paired".into(), RegValue::Dword(0));
    assert_eq!(windows_classic_type(Some(&device), Some(&service)), Some(0));
    service.insert("ssp paired".into(), RegValue::Dword(1));
    service.insert("ssp mitm protected".into(), RegValue::Dword(0));
    assert_eq!(windows_classic_type(Some(&device), Some(&service)), Some(4));
    service.insert("ssp mitm protected".into(), RegValue::Dword(1));
    assert_eq!(windows_classic_type(Some(&device), Some(&service)), Some(5));
    device.insert(
        "hostsupportedfeaturesmap".into(),
        RegValue::Bytes(vec![9, 0, 0, 0, 0, 0, 0, 0]),
    );
    assert_eq!(windows_classic_type(Some(&device), Some(&service)), None);
}

#[test]
fn secure_connections_ltk_populates_both_roles() {
    let mut ini = Ini::default();
    set_ltk(&mut ini, &[0xab; 16], 16, 0, 0, true);
    assert_eq!(
        ini.get("LongTermKey", "Key"),
        ini.get("PeripheralLongTermKey", "Key")
    );
    assert_eq!(ini.get("SlaveLongTermKey", "Rand"), Some("0"));
}

#[test]
fn legacy_ltk_keeps_distinct_peripheral_key() {
    let mut ini = Ini::default();
    ini.set("PeripheralLongTermKey", "Key", "OLD");
    set_ltk(&mut ini, &[0xab; 16], 16, 4, 9, false);
    assert_eq!(ini.get("PeripheralLongTermKey", "Key"), Some("OLD"));
    assert_eq!(ini.get("LongTermKey", "EDiv"), Some("4"));
}

#[test]
fn windows_metadata_merges_services_and_preserves_alias() {
    let mut ini = Ini::default();
    ini.set("General", "Alias", "My controller");
    ini.set(
        "General",
        "Services",
        "00001124-0000-1000-8000-00805f9b34fb;",
    );
    let mut device = StrMap::new();
    device.insert(
        "name".into(),
        RegValue::Bytes(b"Xbox Wireless Controller\0".to_vec()),
    );
    for (key, value) in [
        ("cod", 0x2508),
        ("vidtype", 2),
        ("vid", 0x45e),
        ("pid", 0x2e0),
        ("version", 1),
    ] {
        device.insert(key.into(), RegValue::Dword(value));
    }
    let prefix = "registry\\devices\\aabbccddeeff\\servicesfor001122334455";
    let mut registry = Registry::new();
    registry.insert(
        format!("{prefix}\\{{00001124-0000-1000-8000-00805f9b34fb}}"),
        StrMap::new(),
    );
    registry.insert(
        format!("{prefix}\\{{00001200-0000-1000-8000-00805f9b34fb}}"),
        StrMap::new(),
    );
    registry.insert(
        format!("{prefix}\\{{99999999-9999-9999-9999-999999999999}}"),
        StrMap::new(),
    );
    apply_windows_metadata(&mut ini, Some(&device), &registry, prefix, false);
    assert_eq!(ini.get("General", "Name"), Some("Xbox Wireless Controller"));
    assert_eq!(ini.get("General", "Alias"), Some("My controller"));
    assert_eq!(ini.get("General", "Class"), Some("0x002508"));
    assert_eq!(ini.get("DeviceID", "Vendor"), Some("1118"));
    assert_eq!(
        ini.get("General", "Services"),
        Some("00001124-0000-1000-8000-00805f9b34fb;00001200-0000-1000-8000-00805f9b34fb;")
    );
}

#[test]
fn le_name_and_appearance_take_precedence() {
    let mut ini = Ini::default();
    let mut device = StrMap::new();
    device.insert("name".into(), RegValue::Bytes(b"Old\0".to_vec()));
    device.insert("lename".into(), RegValue::Bytes(b"Rainy 75-1\0".to_vec()));
    device.insert("leappearance".into(), RegValue::Dword(0x03c1));
    apply_windows_metadata(&mut ini, Some(&device), &Registry::new(), "none", true);
    assert_eq!(ini.get("General", "Name"), Some("Rainy 75-1"));
    assert_eq!(ini.get("General", "Appearance"), Some("0x03c1"));
}
