use bls::address::mac;
use bls::bonds::{
    adapter_of, apply_ble_bond, apply_classic_bond, ble_device_of, ble_entry, bthport_paths,
    check_keys, classic_entry, current_control_set, local_irk, set_local_irk, BleEntry,
    ClassicEntry,
};
use bls::config::{config_options, parse_mount_config, MountConfig};
use bls::ini::Ini;
use bls::metadata::{apply_windows_metadata, classic_type, set_ltk, windows_classic_type};
use bls::options::{options, parse_classic_type, sync};
use bls::registry::{bytes, dword, hex, le_bytes, registry_name, service_uuid, Hive, RegValue, Registry, Values};
use bls::report::{device_report, info_options};
use bls::strmap::StrMap;
use bls::plan::SyncStep;

fn args(list: &[&str]) -> Vec<String> {
    list.iter().map(|s| s.to_string()).collect()
}

fn values(entries: Vec<(&str, RegValue)>) -> Values {
    let mut v = StrMap::new();
    for (k, x) in entries {
        v.insert(k.to_string(), x);
    }
    v
}

// ------------------------------------------------------------ addresses

#[test]
fn mac_normalises_addresses() {
    assert_eq!(mac("aabbccddeeff").as_deref(), Some("AA:BB:CC:DD:EE:FF"));
    assert_eq!(mac("aa:Bb:cC:dd:EE:0f").as_deref(), Some("AA:BB:CC:DD:EE:0F"));
    assert_eq!(mac("a:a:b:b:c:c:d:d:e:e:f:f").as_deref(), Some("AA:BB:CC:DD:EE:FF"));
    assert_eq!(mac("aabbccddee"), None);
    assert_eq!(mac("aabbccddeeffaa"), None);
    assert_eq!(mac("gabbccddeeff"), None);
    assert_eq!(mac("aabbccddeeé"), None);
    assert_eq!(mac(""), None);
}

#[test]
fn mac_is_idempotent() {
    let once = mac("001122aabbcc").unwrap();
    assert_eq!(mac(&once).as_deref(), Some(once.as_str()));
}

// -------------------------------------------------------------- options

#[test]
fn classic_type_names_and_numbers() {
    assert_eq!(parse_classic_type("LEGACY"), Ok(0));
    assert_eq!(parse_classic_type("Ssp"), Ok(4));
    assert_eq!(parse_classic_type("SC"), Ok(7));
    assert_eq!(parse_classic_type("0"), Ok(0));
    assert_eq!(parse_classic_type("+8"), Ok(8));
    assert_eq!(parse_classic_type("008"), Ok(8));
    assert_eq!(parse_classic_type("9"), Err("invalid Classic type: 9".to_string()));
    assert_eq!(parse_classic_type("256"), Err("invalid Classic type: 256".to_string()));
    assert_eq!(parse_classic_type(""), Err("invalid Classic type: ".to_string()));
    assert_eq!(parse_classic_type("+"), Err("invalid Classic type: +".to_string()));
    assert_eq!(parse_classic_type("-1"), Err("invalid Classic type: -1".to_string()));
    assert_eq!(parse_classic_type(" 4"), Err("invalid Classic type:  4".to_string()));
}

#[test]
fn sync_options_are_read() {
    let o = options(&args(&[])).unwrap();
    assert!(!o.dry_run);
    assert_eq!(o.default_classic_type, 4);
    assert!(o.bluez_root.is_none());
    let o = options(&args(&[
        "--dry-run",
        "--bluez-root",
        "/tmp/bt",
        "--classic-type",
        "aabbccddeeff=sc",
        "--classic-type",
        "00:11:22:33:44:55=legacy",
        "--default-classic-type",
        "5",
    ]))
    .unwrap();
    assert!(o.dry_run);
    assert_eq!(o.bluez_root.as_deref(), Some("/tmp/bt"));
    assert_eq!(o.default_classic_type, 5);
    assert_eq!(o.classic_types.get("AA:BB:CC:DD:EE:FF"), Some(&7));
    assert_eq!(o.classic_types.get("00:11:22:33:44:55"), Some(&0));
    assert_eq!(o.classic_types.len(), 2);
}

#[test]
fn later_classic_type_override_wins() {
    let o = options(&args(&["--classic-type", "aabbccddeeff=sc", "--classic-type", "AA:BB:CC:DD:EE:FF=4"]))
        .unwrap();
    assert_eq!(o.classic_types.get("AA:BB:CC:DD:EE:FF"), Some(&4));
    assert_eq!(o.classic_types.len(), 1);
}

#[test]
fn sync_option_errors() {
    assert_eq!(
        options(&args(&["--bluez-root"])).err().as_deref(),
        Some("missing value for --bluez-root")
    );
    assert_eq!(
        options(&args(&["--classic-type", "aabbccddeeff"])).err().as_deref(),
        Some("--classic-type needs MAC=TYPE")
    );
    assert_eq!(
        options(&args(&["--classic-type", "zz=sc"])).err().as_deref(),
        Some("invalid Classic MAC")
    );
    assert_eq!(
        options(&args(&["--classic-type", "aabbccddeeff=11"])).err().as_deref(),
        Some("invalid Classic type: 11")
    );
    assert_eq!(
        options(&args(&["--default-classic-type", "x"])).err().as_deref(),
        Some("invalid Classic type: x")
    );
    assert_eq!(
        options(&args(&["--verbose"])).err().as_deref(),
        Some("unknown argument: --verbose")
    );
}

#[test]
fn sync_needs_a_device_and_defaults_the_root() {
    let unset = MountConfig::default();
    let o = options(&args(&[])).unwrap();
    assert_eq!(
        sync(o, &unset).err().as_deref(),
        Some("Windows partition is unset; run bls config --device DEVICE first")
    );
    let config = parse_mount_config("/dev/sda3\n/mnt/w\n/srv/bluez\n").unwrap();
    let o = sync(options(&args(&[])).unwrap(), &config).unwrap();
    assert_eq!(o.bluez_root.as_deref(), Some("/srv/bluez"));
    let o = sync(options(&args(&["--bluez-root", "/other"])).unwrap(), &config).unwrap();
    assert_eq!(o.bluez_root.as_deref(), Some("/other"));
}

// ------------------------------------------------------------ bls.conf

#[test]
fn config_errors_name_the_missing_line() {
    assert_eq!(parse_mount_config("").err().as_deref(), Some("missing device in bls.conf"));
    assert_eq!(
        parse_mount_config("/dev/sda1\n").err().as_deref(),
        Some("missing mount point in bls.conf")
    );
    assert_eq!(
        parse_mount_config("/dev/sda1\n/mnt\n").err().as_deref(),
        Some("missing BlueZ root in bls.conf")
    );
    assert_eq!(
        parse_mount_config("/dev/sda1\n/mnt\n/b\nextra\n").err().as_deref(),
        Some("invalid /etc/bls.conf")
    );
    assert_eq!(parse_mount_config("/dev/\n/mnt\n/b\n").err().as_deref(), Some("invalid /etc/bls.conf"));
    assert_eq!(parse_mount_config("sda1\n/mnt\n/b\n").err().as_deref(), Some("invalid /etc/bls.conf"));
    assert_eq!(parse_mount_config("/dev/sda1\nmnt\n/b\n").err().as_deref(), Some("invalid /etc/bls.conf"));
    assert_eq!(parse_mount_config("/dev/s\rda1\n/mnt\n/b\n").err().as_deref(), Some("invalid /etc/bls.conf"));
}

#[test]
fn config_accepts_crlf_and_a_missing_last_newline() {
    let c = parse_mount_config("/dev/sda1\r\n/mnt/w\r\n/var/lib/bluetooth").unwrap();
    assert_eq!(c.device, "/dev/sda1");
    assert_eq!(c.mount_point, "/mnt/w");
    assert_eq!(c.bluez_root, "/var/lib/bluetooth");
}

#[test]
fn config_round_trip() {
    let c = MountConfig {
        device: "/dev/nvme0n1p3".to_string(),
        mount_point: "/mnt/blsTemp".to_string(),
        bluez_root: "/var/lib/bluetooth".to_string(),
    };
    let text = c.encode();
    assert_eq!(text, "/dev/nvme0n1p3\n/mnt/blsTemp\n/var/lib/bluetooth\n");
    let back = parse_mount_config(&text).unwrap();
    assert_eq!(back.device, c.device);
    assert_eq!(back.mount_point, c.mount_point);
    assert_eq!(back.bluez_root, c.bluez_root);
    let d = MountConfig::default();
    assert_eq!(d.device, "");
    assert_eq!(d.mount_point, "/mnt/blsTemp");
    assert_eq!(d.bluez_root, "/var/lib/bluetooth");
    let back = parse_mount_config(&d.encode()).unwrap();
    assert!(back.device.is_empty());
}

#[test]
fn config_options_update_each_setting_separately() {
    let current = parse_mount_config("/dev/sda1\n/mnt/a\n/b\n").unwrap();
    let plan = config_options(&args(&["--bluez-root", "/c"])).unwrap().resolve(&current).unwrap();
    assert_eq!(plan.mount_point, "/mnt/a");
    assert_eq!(plan.bluez_root, "/c");
    assert!(plan.device.is_none());
    assert!(!plan.verify_windows);
    let plan = config_options(&args(&["--device", "/dev/sdb2"])).unwrap().resolve(&current).unwrap();
    assert_eq!(plan.device.as_deref(), Some("/dev/sdb2"));
    assert!(plan.verify_windows);
    assert_eq!(
        config_options(&args(&["--device"])).err().as_deref(),
        Some("missing value for --device")
    );
    assert_eq!(
        config_options(&args(&["--dry-run", "x"])).err().as_deref(),
        Some("unknown config option: --dry-run")
    );
    assert_eq!(
        config_options(&args(&["--mount-point", "rel"])).unwrap().resolve(&current).err().as_deref(),
        Some("mount point must be an absolute path without newlines")
    );
    assert_eq!(
        config_options(&args(&["--bluez-root", "/a\nb"])).unwrap().resolve(&current).err().as_deref(),
        Some("BlueZ root must be an absolute path without newlines")
    );
}

// ------------------------------------------------------------- key files

#[test]
fn ini_encodes_groups_and_keys_in_order() {
    let mut ini = Ini::default();
    ini.set("LinkKey", "Key", "00");
    ini.set("General", "Name", "Pad");
    ini.set("General", "Alias", "My pad");
    assert_eq!(ini.encode(), "[General]\nAlias=My pad\nName=Pad\n\n[LinkKey]\nKey=00\n\n");
}

#[test]
fn ini_parse_reads_back_what_encode_writes() {
    let mut ini = Ini::default();
    ini.set("General", "Name", "Pad");
    ini.set("General", "Services", "a;b;");
    ini.set("LinkKey", "Key", "00AB");
    let back = Ini::parse(&ini.encode());
    assert!(back.same(&ini));
}

#[test]
fn ini_parse_trims_and_ignores_stray_lines() {
    let ini = Ini::parse("orphan=1\n[General]\n  Name = Pad \r\nno equals here\n\n[Empty]\n");
    assert_eq!(ini.get("General", "Name"), Some("Pad"));
    assert_eq!(ini.get("General", "orphan"), None);
    assert_eq!(ini.encode(), "[Empty]\n\n[General]\nName=Pad\n\n");
}

#[test]
fn ini_same_sees_differences() {
    let a = Ini::parse("[General]\nName=A\n");
    let b = Ini::parse("[General]\nName=B\n");
    let c = Ini::parse("[General]\nName=A\n[Other]\n");
    assert!(!a.same(&b));
    assert!(!a.same(&c));
    assert!(a.same(&Ini::parse("[General]\n\nName=A\n")));
}

#[test]
fn technology_is_added_once() {
    let mut ini = Ini::default();
    ini.add_technology("LE");
    assert_eq!(ini.get("General", "SupportedTechnologies"), Some("LE;"));
    ini.add_technology("LE");
    assert_eq!(ini.get("General", "SupportedTechnologies"), Some("LE;"));
    ini.set("General", "SupportedTechnologies", ";BR/EDR;;");
    ini.add_technology("LE");
    assert_eq!(ini.get("General", "SupportedTechnologies"), Some("BR/EDR;LE;"));
}

#[test]
fn new_devices_are_trusted() {
    let mut ini = Ini::default();
    ini.trust_if_new();
    assert_eq!(ini.get("General", "Trusted"), Some("true"));
}

// -------------------------------------------------------------- registry

#[test]
fn hex_is_upper_case_pairs() {
    assert_eq!(hex(&[0x00, 0xab, 0x1f]), "00AB1F");
    assert_eq!(hex(&[]), "");
}

#[test]
fn values_are_found_by_any_case() {
    let v = values(vec![("ltk", RegValue::Bytes(vec![1, 2])), ("current", RegValue::Dword(3))]);
    assert_eq!(bytes(&v, "LTK", 2), Some(&[1u8, 2][..]));
    assert_eq!(bytes(&v, "LTK", 3), None);
    assert_eq!(bytes(&v, "Current", 4), None);
    assert_eq!(dword(&v, "CURRENT"), Some(3));
    assert_eq!(dword(&v, "LTK"), None);
    assert_eq!(dword(&v, "missing"), None);
}

#[test]
fn names_are_checked() {
    let v = values(vec![
        ("a", RegValue::Bytes(b"  Pad \0junk".to_vec())),
        ("b", RegValue::Bytes(vec![0xff, 0xfe])),
        ("c", RegValue::Bytes(b"Pa\x07d".to_vec())),
        ("d", RegValue::Bytes(b" \0".to_vec())),
        ("e", RegValue::Bytes("é".repeat(124).into_bytes())),
        ("f", RegValue::Bytes("é".repeat(125).into_bytes())),
        ("g", RegValue::Dword(1)),
        ("h", RegValue::Bytes(b"\xc2\x85Pad\xc2\xa0".to_vec())),
    ]);
    assert_eq!(registry_name(&v, "A").as_deref(), Some("Pad"));
    assert_eq!(registry_name(&v, "b"), None);
    assert_eq!(registry_name(&v, "c"), None);
    assert_eq!(registry_name(&v, "d"), None);
    assert_eq!(registry_name(&v, "e").map(|n| n.len()), Some(248));
    assert_eq!(registry_name(&v, "f"), None);
    assert_eq!(registry_name(&v, "g"), None);
    assert_eq!(registry_name(&v, "h").as_deref(), Some("Pad"));
    assert_eq!(registry_name(&v, "zz"), None);
}

#[test]
fn service_uuids_are_checked() {
    assert_eq!(
        service_uuid("{0000110A-0000-1000-8000-00805F9B34FB}").as_deref(),
        Some("0000110a-0000-1000-8000-00805f9b34fb")
    );
    assert_eq!(service_uuid("{99999999-9999-9999-9999-999999999999}"), None);
    assert_eq!(service_uuid("0000110a-0000-1000-8000-00805f9b34fb"), None);
    assert_eq!(service_uuid("{0000110a-0000-1000-8000-00805f9b34f}"), None);
    assert_eq!(service_uuid("{0000110a+0000-1000-8000-00805f9b34fb}"), None);
    assert_eq!(service_uuid("{0000110g-0000-1000-8000-00805f9b34fb}"), None);
    assert_eq!(service_uuid("{}"), None);
    assert_eq!(service_uuid("{"), None);
    assert_eq!(
        service_uuid("{--------------------------------0000}").as_deref(),
        Some("--------------------------------0000")
    );
}

#[test]
fn little_endian_bytes() {
    assert_eq!(le_bytes(&[1, 0, 0, 0]), 1);
    assert_eq!(le_bytes(&[0, 1]), 256);
    assert_eq!(le_bytes(&[0xff; 8]), u64::MAX);
    assert_eq!(le_bytes(&[]), 0);
}

#[test]
fn hive_walk_gathers_lower_case_keys_and_readable_values() {
    let mut hive = Hive::new();
    hive.collect("Select", None, 0, &[]);
    hive.collect("Select", Some("Current"), 4, &[2, 0, 0, 0]);
    hive.collect("Select", Some("Blob"), 3, &[9, 8]);
    hive.collect("Select", Some("Q"), 11, &[1; 8]);
    hive.collect("Select", Some("Short"), 4, &[1, 0]);
    hive.collect("Select", Some("Text"), 1, b"x");
    let tree = hive.read_tree("Select", 0).unwrap();
    assert_eq!(tree.len(), 1);
    assert_eq!(tree.key_at(0), "hkey_local_machine\\system\\select");
    let v = tree.value_at(0);
    assert_eq!(dword(v, "current"), Some(2));
    assert_eq!(bytes(v, "blob", 2), Some(&[9u8, 8][..]));
    assert_eq!(bytes(v, "q", 8), Some(&[1u8; 8][..]));
    assert_eq!(v.len(), 3);
    assert_eq!(current_control_set(&tree), Ok(2));
}

#[test]
fn hive_walk_status_is_reported() {
    assert_eq!(
        Hive::new().read_tree("Select", -1).err().as_deref(),
        Some("Windows registry key not found: Select")
    );
    assert_eq!(
        Hive::new().read_tree("Select", 3).err().as_deref(),
        Some("failed reading Windows registry key: Select")
    );
}

// ------------------------------------------------------------------ sync

fn registry_of(entries: Vec<(&str, Values)>) -> Registry {
    let mut r = Registry::new();
    for (k, v) in entries {
        r.insert(k.to_string(), v);
    }
    r
}

#[test]
fn control_set_must_be_present_and_in_range() {
    let none = registry_of(vec![("select", values(vec![]))]);
    assert_eq!(current_control_set(&none).err().as_deref(), Some("SYSTEM hive has no Select\\Current"));
    let zero = registry_of(vec![("select", values(vec![("current", RegValue::Dword(0))]))]);
    assert_eq!(current_control_set(&zero).err().as_deref(), Some("invalid Windows CurrentControlSet"));
    let big = registry_of(vec![("select", values(vec![("current", RegValue::Dword(1000))]))]);
    assert_eq!(current_control_set(&big).err().as_deref(), Some("invalid Windows CurrentControlSet"));
    let first = registry_of(vec![
        ("a", values(vec![("current", RegValue::Dword(7))])),
        ("b", values(vec![("current", RegValue::Dword(9))])),
    ]);
    assert_eq!(current_control_set(&first), Ok(7));
}

#[test]
fn bthport_paths_are_formatted() {
    let p = bthport_paths(1);
    assert_eq!(p.keys_key, "ControlSet001\\Services\\BTHPORT\\Parameters\\Keys");
    assert_eq!(
        p.keys_prefix,
        "hkey_local_machine\\system\\controlset001\\services\\bthport\\parameters\\keys"
    );
    assert_eq!(p.devices_key, "ControlSet001\\Services\\BTHPORT\\Parameters\\Devices");
    assert_eq!(
        p.devices_prefix,
        "hkey_local_machine\\system\\controlset001\\services\\bthport\\parameters\\devices"
    );
    assert_eq!(bthport_paths(123).keys_key, "ControlSet123\\Services\\BTHPORT\\Parameters\\Keys");
    let present = registry_of(vec![(p.keys_prefix.as_str(), values(vec![]))]);
    assert!(check_keys(&present, &p).is_ok());
    assert_eq!(
        check_keys(&Registry::new(), &p).err().as_deref(),
        Some("Windows BTHPORT Keys registry path not found")
    );
}

#[test]
fn adapters_are_keys_named_by_an_address() {
    let a = adapter_of("keys\\001122aabbcc", "keys").unwrap();
    assert_eq!(a.raw, "001122aabbcc");
    assert_eq!(a.address, "00:11:22:AA:BB:CC");
    assert!(adapter_of("keys\\001122aabbcc\\112233445566", "keys").is_none());
    assert!(adapter_of("keys\\notanaddress", "keys").is_none());
    assert!(adapter_of("other\\001122aabbcc", "keys").is_none());
    assert_eq!(
        ble_device_of("keys\\001122aabbcc\\112233445566", "keys", "001122aabbcc").as_deref(),
        Some("112233445566")
    );
    assert!(ble_device_of("keys\\001122aabbcc\\11\\22", "keys", "001122aabbcc").is_none());
    assert!(ble_device_of("keys\\001122aabbcc", "keys", "001122aabbcc").is_none());
}

#[test]
fn local_irk_prefers_central_irk() {
    let both = values(vec![
        ("centralirk", RegValue::Bytes(vec![1; 16])),
        ("masterirk", RegValue::Bytes(vec![2; 16])),
    ]);
    assert_eq!(local_irk(&both), Some(vec![1; 16]));
    let master = values(vec![("masterirk", RegValue::Bytes(vec![2; 16]))]);
    assert_eq!(local_irk(&master), Some(vec![2; 16]));
    assert_eq!(local_irk(&values(vec![("centralirk", RegValue::Bytes(vec![1; 15]))])), None);
    let mut ini = Ini::default();
    set_local_irk(&mut ini, &[0xa1; 16]);
    assert_eq!(
        ini.get("General", "IdentityResolvingKey"),
        Some("A1A1A1A1A1A1A1A1A1A1A1A1A1A1A1A1")
    );
}

#[test]
fn classic_entries_are_classified() {
    assert!(matches!(classic_entry("centralirk", &RegValue::Bytes(vec![0; 16])), ClassicEntry::NotDevice));
    assert!(matches!(classic_entry("aabbccddeeff", &RegValue::Dword(1)), ClassicEntry::NotDevice));
    assert!(matches!(classic_entry("aabbccddeeff", &RegValue::Bytes(vec![0; 15])), ClassicEntry::Invalid));
    match classic_entry("aabbccddeeff", &RegValue::Bytes(vec![7; 16])) {
        ClassicEntry::Bond { device, link_key } => {
            assert_eq!(device, "AA:BB:CC:DD:EE:FF");
            assert_eq!(link_key, vec![7; 16]);
        }
        _ => panic!("expected a bond"),
    }
}

#[test]
fn classic_bond_is_written() {
    let mut ini = Ini::parse("[General]\nAlias=Keep\nTrusted=false\n[LinkKey]\nKey=OLD\nPINLength=4\n");
    let o = options(&args(&[])).unwrap();
    let devices = registry_of(vec![
        ("dev\\aabbccddeeff", values(vec![("name", RegValue::Bytes(b"Headset\0".to_vec()))])),
        ("dev\\aabbccddeeff\\servicesfor001122334455", values(vec![("ssp paired", RegValue::Dword(0))])),
    ]);
    let kind = apply_classic_bond(
        &mut ini,
        &o,
        &devices,
        "dev",
        "001122334455",
        "AABBCCDDEEFF",
        "AA:BB:CC:DD:EE:FF",
        &[0x0f; 16],
    );
    assert_eq!(kind, 0);
    assert_eq!(ini.get("LinkKey", "Key"), Some("0F0F0F0F0F0F0F0F0F0F0F0F0F0F0F0F"));
    assert_eq!(ini.get("LinkKey", "Type"), Some("0"));
    assert_eq!(ini.get("LinkKey", "PINLength"), Some("4"));
    assert_eq!(ini.get("General", "SupportedTechnologies"), Some("BR/EDR;"));
    assert_eq!(ini.get("General", "Trusted"), Some("false"));
    assert_eq!(ini.get("General", "Alias"), Some("Keep"));
    assert_eq!(ini.get("General", "Name"), Some("Headset"));
}

#[test]
fn classic_type_override_and_default() {
    let mut ini = Ini::default();
    let o = options(&args(&["--classic-type", "AABBCCDDEEFF=sc", "--default-classic-type", "5"])).unwrap();
    let empty = Registry::new();
    let kind = apply_classic_bond(&mut ini, &o, &empty, "dev", "a", "aabbccddeeff", "AA:BB:CC:DD:EE:FF", &[0; 16]);
    assert_eq!(kind, 7);
    let mut ini = Ini::default();
    let kind = apply_classic_bond(&mut ini, &o, &empty, "dev", "a", "001122334455", "00:11:22:33:44:55", &[0; 16]);
    assert_eq!(kind, 5);
    assert_eq!(ini.get("LinkKey", "PINLength"), Some("0"));
    assert_eq!(ini.get("General", "Trusted"), Some("true"));
}

#[test]
fn classic_type_prefers_existing_type() {
    let ini = Ini::parse("[LinkKey]\nKey=X\nType=5\n");
    assert_eq!(classic_type(&ini, None, None, 4), 5);
    let ini = Ini::parse("[LinkKey]\nKey=X\nType=bad\n");
    assert_eq!(classic_type(&ini, None, None, 4), 0);
    let ini = Ini::parse("[LinkKey]\nType=bad\n");
    assert_eq!(classic_type(&ini, None, None, 4), 4);
}

#[test]
fn windows_classic_type_needs_the_records() {
    let service = values(vec![("ssp paired", RegValue::Dword(1)), ("ssp mitm protected", RegValue::Dword(0))]);
    assert_eq!(windows_classic_type(None, Some(&service)), None);
    assert_eq!(windows_classic_type(None, None), None);
    let odd = values(vec![("ssp paired", RegValue::Dword(2))]);
    assert_eq!(windows_classic_type(None, Some(&odd)), None);
    let device = values(vec![("hostsupportedfeaturesmap", RegValue::Bytes(vec![0; 8]))]);
    let no_mitm = values(vec![("ssp paired", RegValue::Dword(1))]);
    assert_eq!(windows_classic_type(Some(&device), Some(&no_mitm)), None);
    assert_eq!(windows_classic_type(Some(&device), Some(&service)), Some(4));
}

#[test]
fn ble_records_are_classified() {
    let ltk = || ("ltk", RegValue::Bytes(vec![0x11; 16]));
    assert!(matches!(ble_entry("nothex", &values(vec![ltk()])), BleEntry::NotDevice));
    assert!(matches!(ble_entry("aabbccddeeff", &values(vec![])), BleEntry::Invalid));
    match ble_entry("aabbccddeeff", &values(vec![ltk(), ("addresstype", RegValue::Dword(2))])) {
        BleEntry::Unsupported(id) => assert_eq!(id, "AA:BB:CC:DD:EE:FF"),
        _ => panic!("expected an unsupported address type"),
    }
    match ble_entry("aabbccddeeff", &values(vec![ltk(), ("addresstype", RegValue::Dword(1))])) {
        BleEntry::NotStatic(id) => assert_eq!(id, "AA:BB:CC:DD:EE:FF"),
        _ => panic!("expected a non-static random address"),
    }
    assert!(matches!(
        ble_entry("aabbccddeeff", &values(vec![ltk(), ("ediv", RegValue::Dword(0x10000))])),
        BleEntry::Invalid
    ));
    assert!(matches!(
        ble_entry("aabbccddeeff", &values(vec![ltk(), ("keylength", RegValue::Dword(6))])),
        BleEntry::Invalid
    ));
    assert!(matches!(
        ble_entry("aabbccddeeff", &values(vec![ltk(), ("keylength", RegValue::Dword(17))])),
        BleEntry::Invalid
    ));
}

#[test]
fn ble_bond_reads_identity_and_parameters() {
    let record = values(vec![
        ("ltk", RegValue::Bytes(vec![0x11; 16])),
        ("address", RegValue::Bytes(vec![0x66, 0x55, 0x44, 0x33, 0x22, 0xc1, 0, 0])),
        ("addresstype", RegValue::Dword(1)),
        ("ediv", RegValue::Dword(0x1234)),
        ("erand", RegValue::Bytes(vec![1, 0, 0, 0, 0, 0, 0, 1])),
        ("keylength", RegValue::Dword(7)),
        ("authreq", RegValue::Dword(0x2d)),
    ]);
    match ble_entry("aabbccddeeff", &record) {
        BleEntry::Bond(b) => {
            assert_eq!(b.identity, "C1:22:33:44:55:66");
            assert_eq!(b.device_key, "AA:BB:CC:DD:EE:FF");
            assert!(b.static_address);
            assert_eq!(b.ltk, vec![0x11; 16]);
            assert_eq!(b.ediv, 0x1234);
            assert_eq!(b.rand, 0x0100_0000_0000_0001);
            assert_eq!(b.size, 7);
            assert!(b.authenticated);
        }
        _ => panic!("expected a bond"),
    }
}

#[test]
fn ble_bond_is_written() {
    let record = values(vec![
        ("ltk", RegValue::Bytes(vec![0x11; 16])),
        ("irk", RegValue::Bytes(vec![0x22; 16])),
        ("csrk", RegValue::Bytes(vec![0x33; 16])),
        ("csrkinbound", RegValue::Bytes(vec![0x44; 16])),
    ]);
    let bond = match ble_entry("aabbccddeeff", &record) {
        BleEntry::Bond(b) => b,
        _ => panic!("expected a bond"),
    };
    assert!(!bond.authenticated);
    let devices = registry_of(vec![(
        "dev\\aabbccddeeff",
        values(vec![("lename", RegValue::Bytes(b"Mouse\0".to_vec())), ("leappearance", RegValue::Dword(0x3c2))]),
    )]);
    let mut ini = Ini::parse("[RemoteSignatureKey]\nCounter=9\n");
    apply_ble_bond(&mut ini, &bond, &record, &devices, "dev", "001122334455", "aabbccddeeff");
    assert_eq!(ini.get("General", "AddressType"), Some("public"));
    assert_eq!(ini.get("General", "SupportedTechnologies"), Some("LE;"));
    assert_eq!(ini.get("General", "Trusted"), Some("true"));
    assert_eq!(ini.get("General", "Name"), Some("Mouse"));
    assert_eq!(ini.get("General", "Appearance"), Some("0x03c2"));
    assert_eq!(ini.get("LongTermKey", "Key"), Some("11111111111111111111111111111111"));
    assert_eq!(ini.get("LongTermKey", "EncSize"), Some("16"));
    assert_eq!(ini.get("SlaveLongTermKey", "Authenticated"), Some("0"));
    assert_eq!(ini.get("IdentityResolvingKey", "Key"), Some("22222222222222222222222222222222"));
    assert_eq!(ini.get("LocalSignatureKey", "Key"), Some("33333333333333333333333333333333"));
    assert_eq!(ini.get("LocalSignatureKey", "Counter"), Some("0"));
    assert_eq!(ini.get("RemoteSignatureKey", "Counter"), Some("9"));
    assert_eq!(ini.get("RemoteSignatureKey", "Authenticated"), Some("0"));
}

#[test]
fn ltk_values_are_written_as_bluez_stores_them() {
    let mut ini = Ini::default();
    set_ltk(&mut ini, &[0x01, 0xfe], 7, 65535, u64::MAX, true);
    assert_eq!(ini.get("LongTermKey", "Key"), Some("01FE"));
    assert_eq!(ini.get("LongTermKey", "Authenticated"), Some("1"));
    assert_eq!(ini.get("LongTermKey", "EncSize"), Some("7"));
    assert_eq!(ini.get("LongTermKey", "EDiv"), Some("65535"));
    assert_eq!(ini.get("LongTermKey", "Rand"), Some("18446744073709551615"));
    assert_eq!(ini.get("PeripheralLongTermKey", "Key"), None);
}

// -------------------------------------------------------------- metadata

#[test]
fn invalid_metadata_keeps_existing_values() {
    let mut ini = Ini::parse("[General]\nName=Keep\nClass=0x000001\n[DeviceID]\nVendor=7\n");
    let device = values(vec![
        ("name", RegValue::Bytes(b"\0".to_vec())),
        ("cod", RegValue::Dword(0)),
        ("vidtype", RegValue::Dword(3)),
        ("vid", RegValue::Dword(1)),
        ("pid", RegValue::Dword(1)),
        ("version", RegValue::Dword(1)),
    ]);
    apply_windows_metadata(&mut ini, Some(&device), &Registry::new(), "x", false);
    assert_eq!(ini.get("General", "Name"), Some("Keep"));
    assert_eq!(ini.get("General", "Class"), Some("0x000001"));
    assert_eq!(ini.get("DeviceID", "Vendor"), Some("7"));
    assert_eq!(ini.get("DeviceID", "Source"), None);
}

#[test]
fn services_are_merged_without_duplicates() {
    let mut ini = Ini::parse("[General]\nServices=0000110A-0000-1000-8000-00805F9B34FB;\n");
    let prefix = "dev\\aa\\servicesforbb";
    let devices = registry_of(vec![
        ("dev\\aa\\servicesforbb\\{0000110a-0000-1000-8000-00805f9b34fb}", values(vec![])),
        ("dev\\aa\\servicesforbb\\{0000110b-0000-1000-8000-00805f9b34fb}", values(vec![])),
        ("dev\\aa\\servicesforbb\\{0000110b-0000-1000-8000-00805f9b34fb}\\sub", values(vec![])),
        ("dev\\aa\\servicesforcc\\{0000110c-0000-1000-8000-00805f9b34fb}", values(vec![])),
    ]);
    apply_windows_metadata(&mut ini, None, &devices, prefix, false);
    assert_eq!(
        ini.get("General", "Services"),
        Some("0000110A-0000-1000-8000-00805F9B34FB;0000110b-0000-1000-8000-00805f9b34fb;")
    );
    let mut unchanged = Ini::parse("[General]\nServices=x;;\n");
    apply_windows_metadata(&mut unchanged, None, &Registry::new(), prefix, false);
    assert_eq!(unchanged.get("General", "Services"), Some("x;;"));
}

#[test]
fn device_id_is_written_in_decimal() {
    let mut ini = Ini::default();
    let device = values(vec![
        ("vidtype", RegValue::Dword(1)),
        ("vid", RegValue::Dword(0xffff)),
        ("pid", RegValue::Dword(0)),
        ("version", RegValue::Dword(0x0110)),
        ("cod", RegValue::Dword(0xffffff)),
    ]);
    apply_windows_metadata(&mut ini, Some(&device), &Registry::new(), "x", false);
    assert_eq!(ini.get("DeviceID", "Source"), Some("1"));
    assert_eq!(ini.get("DeviceID", "Vendor"), Some("65535"));
    assert_eq!(ini.get("DeviceID", "Product"), Some("0"));
    assert_eq!(ini.get("DeviceID", "Version"), Some("272"));
    assert_eq!(ini.get("General", "Class"), Some("0xffffff"));
}

// ------------------------------------------------------------------ info

#[test]
fn info_options_are_read() {
    let o = info_options(&args(&["--adapter", "001122334455", "--device", "aa:bb:cc:dd:ee:ff", "--bluez-root", "/x"]))
        .unwrap();
    assert_eq!(o.adapter.as_deref(), Some("00:11:22:33:44:55"));
    assert_eq!(o.device.as_deref(), Some("AA:BB:CC:DD:EE:FF"));
    assert_eq!(o.bluez_root.as_deref(), Some("/x"));
    assert!(o.shows_adapter("00:11:22:33:44:55"));
    assert!(!o.shows_adapter("00:11:22:33:44:56"));
    assert!(info_options(&args(&[])).unwrap().shows_device("anything"));
    assert_eq!(info_options(&args(&["--adapter", "x"])).err().as_deref(), Some("invalid adapter MAC"));
    assert_eq!(info_options(&args(&["--device", "x"])).err().as_deref(), Some("invalid device MAC"));
    assert_eq!(info_options(&args(&["--device"])).err().as_deref(), Some("missing value for --device"));
    assert_eq!(info_options(&args(&["--all", "1"])).err().as_deref(), Some("unknown info option: --all"));
}

#[test]
fn report_shows_fields_but_no_keys() {
    let ini = Ini::parse("[General]\nName=Pad\nTrusted=true\n[LinkKey]\nKey=SECRET\nType=4\n");
    let lines = device_report("00:11:22:33:44:55", "AA:BB:CC:DD:EE:FF", &ini);
    assert_eq!(
        lines,
        vec![
            "Adapter: 00:11:22:33:44:55  Device: AA:BB:CC:DD:EE:FF",
            "  Name: Pad",
            "  Trusted: true",
            "  Classic key type: 4",
            "  Classic bond: present",
            "  BLE bond: absent",
            "  Remote IRK: absent",
        ]
    );
    assert!(!lines.iter().any(|l| l.contains("SECRET")));
}

#[test]
fn devices_must_resolve_under_dev() {
    assert_eq!(bls::config::resolved_device("/dev/nvme0n1p3"), Ok("/dev/nvme0n1p3".to_string()));
    assert_eq!(
        bls::config::resolved_device("/tmp/disk"),
        Err("device must resolve under /dev".to_string())
    );
}

#[test]
fn sync_plan_walks_adapters_in_order() {
    let prefix = "keys";
    let registry = registry_of(vec![
        ("keys", values(vec![])),
        (
            "keys\\001122334455",
            values(vec![
                ("centralirk", RegValue::Bytes(vec![7; 16])),
                ("aabbccddeeff", RegValue::Bytes(vec![1; 16])),
                ("a0b0c0d0e0f0", RegValue::Bytes(vec![1; 5])),
                ("notamac", RegValue::Bytes(vec![1; 16])),
            ]),
        ),
        (
            "keys\\001122334455\\c1c2c3c4c5c6",
            values(vec![
                ("ltk", RegValue::Bytes(vec![2; 16])),
                ("addresstype", RegValue::Dword(1)),
            ]),
        ),
        (
            "keys\\001122334455\\112233445566",
            values(vec![
                ("ltk", RegValue::Bytes(vec![2; 16])),
                ("addresstype", RegValue::Dword(1)),
            ]),
        ),
        ("keys\\notanadapter", values(vec![])),
    ]);
    let plan = bls::plan::sync_plan(&registry, prefix);
    assert_eq!(plan.len(), 1);
    let work = &plan[0];
    assert_eq!(work.adapter.address, "00:11:22:33:44:55");
    assert_eq!(work.adapter.raw, "001122334455");
    let steps = &work.steps;
    assert_eq!(steps.len(), 5);
    assert!(matches!(&steps[0], SyncStep::LocalIrk(k) if k == &vec![7u8; 16]));
    assert!(matches!(&steps[1], SyncStep::Invalid));
    assert!(matches!(&steps[2], SyncStep::Classic { name, device, link_key }
        if name == "aabbccddeeff" && device == "AA:BB:CC:DD:EE:FF" && link_key == &vec![1u8; 16]));
    assert!(matches!(&steps[3], SyncStep::NotStatic(id) if id == "11:22:33:44:55:66"));
    match &steps[4] {
        SyncStep::Ble { record, device_raw, bond } => {
            assert_eq!(device_raw, "c1c2c3c4c5c6");
            assert_eq!(bond.identity, "C1:C2:C3:C4:C5:C6");
            assert!(bond.static_address);
            assert_eq!(registry.key_at(*record), "keys\\001122334455\\c1c2c3c4c5c6");
        }
        _ => panic!("expected an LE bond"),
    }
}

#[test]
fn ble_bond_keeps_other_entries() {
    let record = values(vec![("ltk", RegValue::Bytes(vec![0x11; 16]))]);
    let bond = match ble_entry("aabbccddeeff", &record) {
        BleEntry::Bond(b) => b,
        _ => panic!("expected a bond"),
    };
    let mut ini = Ini::parse(
        "[General]\nAlias=Desk mouse\nTrusted=false\n[ConnectionParameters]\nMinInterval=6\n[LocalSignatureKey]\nCounter=3\n",
    );
    apply_ble_bond(&mut ini, &bond, &record, &Registry::new(), "dev", "001122334455", "aabbccddeeff");
    assert_eq!(ini.get("General", "Alias"), Some("Desk mouse"));
    assert_eq!(ini.get("General", "Trusted"), Some("false"));
    assert_eq!(ini.get("ConnectionParameters", "MinInterval"), Some("6"));
    assert_eq!(ini.get("LocalSignatureKey", "Counter"), Some("3"));
    assert_eq!(ini.get("LocalSignatureKey", "Key"), None);
    assert_eq!(ini.get("LongTermKey", "Key"), Some("11111111111111111111111111111111"));
}

#[test]
fn invalid_windows_metadata_keeps_bluez_values() {
    let mut ini = Ini::parse("[General]\nName=Old\nClass=0x000540\n[DeviceID]\nSource=1\nVendor=2\n");
    let device = values(vec![
        ("name", RegValue::Bytes(b"\0".to_vec())),
        ("cod", RegValue::Dword(0x1000000)),
        ("vidtype", RegValue::Dword(3)),
        ("vid", RegValue::Dword(5)),
        ("pid", RegValue::Dword(6)),
        ("version", RegValue::Dword(7)),
    ]);
    apply_windows_metadata(&mut ini, Some(&device), &Registry::new(), "x", false);
    assert_eq!(ini.get("General", "Name"), Some("Old"));
    assert_eq!(ini.get("General", "Class"), Some("0x000540"));
    assert_eq!(ini.get("DeviceID", "Source"), Some("1"));
    assert_eq!(ini.get("DeviceID", "Vendor"), Some("2"));
    assert_eq!(ini.get("DeviceID", "Product"), None);
}

#[test]
fn repeated_classic_sync_changes_nothing() {
    let mut ini = Ini::parse("[General]\nServices=0000110b-0000-1000-8000-00805f9b34fb;\n");
    let o = options(&args(&[])).unwrap();
    let devices = registry_of(vec![
        (
            "dev\\aabbccddeeff",
            values(vec![("name", RegValue::Bytes(b"Speaker\0".to_vec())), ("cod", RegValue::Dword(0x240414))]),
        ),
        ("dev\\aabbccddeeff\\servicesfor001122334455", values(vec![("ssp paired", RegValue::Dword(0))])),
        (
            "dev\\aabbccddeeff\\servicesfor001122334455\\{0000110B-0000-1000-8000-00805F9B34FB}",
            values(vec![]),
        ),
        (
            "dev\\aabbccddeeff\\servicesfor001122334455\\{0000110e-0000-1000-8000-00805f9b34fb}",
            values(vec![]),
        ),
    ]);
    let first = apply_classic_bond(&mut ini, &o, &devices, "dev", "001122334455", "aabbccddeeff", "AA:BB:CC:DD:EE:FF", &[9; 16]);
    let once = ini.encode();
    let second = apply_classic_bond(&mut ini, &o, &devices, "dev", "001122334455", "aabbccddeeff", "AA:BB:CC:DD:EE:FF", &[9; 16]);
    assert_eq!(first, second);
    assert_eq!(ini.encode(), once);
    assert_eq!(
        ini.get("General", "Services"),
        Some("0000110b-0000-1000-8000-00805f9b34fb;0000110e-0000-1000-8000-00805f9b34fb;")
    );
}

#[test]
fn repeated_ble_sync_changes_nothing() {
    let record = values(vec![
        ("ltk", RegValue::Bytes(vec![0x11; 16])),
        ("irk", RegValue::Bytes(vec![0x22; 16])),
        ("csrk", RegValue::Bytes(vec![0x33; 16])),
    ]);
    let bond = match ble_entry("aabbccddeeff", &record) {
        BleEntry::Bond(b) => b,
        _ => panic!("expected a bond"),
    };
    let devices = registry_of(vec![(
        "dev\\aabbccddeeff",
        values(vec![("lename", RegValue::Bytes(b"Pen\0".to_vec())), ("leappearance", RegValue::Dword(0x3c7))]),
    )]);
    let mut ini = Ini::default();
    apply_ble_bond(&mut ini, &bond, &record, &devices, "dev", "001122334455", "aabbccddeeff");
    let once = ini.encode();
    apply_ble_bond(&mut ini, &bond, &record, &devices, "dev", "001122334455", "aabbccddeeff");
    assert_eq!(ini.encode(), once);
}

#[test]
fn sync_ends_by_the_copy_then_the_unmount() {
    use_sync_end(bls::options::sync_finish(false, Ok(()), Ok(())), "restart");
    use_sync_end(bls::options::sync_finish(true, Ok(()), Ok(())), "done");
    use_sync_end(
        bls::options::sync_finish(false, Err("copy".to_string()), Err("umount".to_string())),
        "fail:copy",
    );
    use_sync_end(bls::options::sync_finish(true, Ok(()), Err("umount".to_string())), "fail:umount");
}

fn use_sync_end(end: bls::options::SyncEnd, expected: &str) {
    let got = match end {
        bls::options::SyncEnd::Fail(e) => format!("fail:{e}"),
        bls::options::SyncEnd::Restart => "restart".to_string(),
        bls::options::SyncEnd::Done => "done".to_string(),
    };
    assert_eq!(got, expected);
}

#[test]
fn key_files_are_written_only_when_they_change() {
    let mut ini = Ini::default();
    ini.set("General", "Name", "Pad");
    assert!(matches!(
        bls::ini::write_plan(Some("[General]\nName=Pad\n"), &ini, false),
        bls::ini::WritePlan::Unchanged
    ));
    assert!(matches!(
        bls::ini::write_plan(Some("[General]\nName=Old\n"), &ini, true),
        bls::ini::WritePlan::Preview
    ));
    assert!(matches!(bls::ini::write_plan(None, &ini, true), bls::ini::WritePlan::Preview));
    match bls::ini::write_plan(None, &ini, false) {
        bls::ini::WritePlan::Write(data) => assert_eq!(data, "[General]\nName=Pad\n\n"),
        _ => panic!("expected a write"),
    }
}
