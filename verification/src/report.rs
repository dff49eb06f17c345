//! `bls info`: its options and what it shows of each BlueZ device.
use vstd::prelude::*;
use crate::address::{mac, mac_spec};
use crate::ini::{Ini, IniView, lookup};
use crate::text::{same_text, string_texts};

verus! {

/// What `bls info` was asked to show.
pub struct InfoOptions {
    /// Another BlueZ storage directory than the configured one.
    pub bluez_root: Option<String>,
    /// Only this adapter (canonical address).
    pub adapter: Option<String>,
    /// Only this device (canonical address).
    pub device: Option<String>,
}

/// The options as texts.
pub open spec fn info_model(o: &InfoOptions) -> (Option<Seq<char>>, Option<Seq<char>>, Option<Seq<char>>) {
    (
        match o.bluez_root {
            Some(p) => Some(p@),
            None => None,
        },
        match o.adapter {
            Some(p) => Some(p@),
            None => None,
        },
        match o.device {
            Some(p) => Some(p@),
            None => None,
        },
    )
}

/// What the `bls info` arguments from position `i` on ask for:
/// `--bluez-root PATH`, `--adapter MAC`, `--device MAC`; a later flag wins.
pub open spec fn info_args_from(
    args: Seq<Seq<char>>,
    i: int,
    acc: (Option<Seq<char>>, Option<Seq<char>>, Option<Seq<char>>),
) -> Result<(Option<Seq<char>>, Option<Seq<char>>, Option<Seq<char>>), Seq<char>>
    decreases args.len() - i,
{
    if i < 0 || i >= args.len() {
        Ok(acc)
    } else if i + 1 >= args.len() {
        Err("missing value for "@ + args[i])
    } else {
        let flag = args[i];
        let v = args[i + 1];
        if flag == "--bluez-root"@ {
            info_args_from(args, i + 2, (Some(v), acc.1, acc.2))
        } else if flag == "--adapter"@ {
            match mac_spec(v) {
                Some(m) => info_args_from(args, i + 2, (acc.0, Some(m), acc.2)),
                None => Err("invalid adapter MAC"@),
            }
        } else if flag == "--device"@ {
            match mac_spec(v) {
                Some(m) => info_args_from(args, i + 2, (acc.0, acc.1, Some(m))),
                None => Err("invalid device MAC"@),
            }
        } else {
            Err("unknown info option: "@ + flag)
        }
    }
}

fn joined(prefix: &str, tail: &str) -> (s: String)
    ensures
        s@ == prefix@ + tail@,
{
    let mut s = String::from_str(prefix);
    s.append(tail);
    s
}

/// Reads the options of `bls info` (see `info_args_from`).
pub fn info_options(args: &[String]) -> (r: Result<InfoOptions, String>)
    ensures
        match r {
            Ok(o) => info_args_from(string_texts(args@), 0, (None, None, None)) == Ok::<
                (Option<Seq<char>>, Option<Seq<char>>, Option<Seq<char>>),
                Seq<char>,
            >(info_model(&o)),
            Err(e) => info_args_from(string_texts(args@), 0, (None, None, None)) == Err::<
                (Option<Seq<char>>, Option<Seq<char>>, Option<Seq<char>>),
                Seq<char>,
            >(e@),
        },
{
    let ghost argv = string_texts(args@);
    let mut out = InfoOptions { bluez_root: None, adapter: None, device: None };
    let mut i: usize = 0;
    while i < args.len()
        invariant
            argv == string_texts(args@),
            i <= args.len(),
            info_args_from(argv, 0, (None, None, None)) == info_args_from(argv, i as int, info_model(&out)),
        decreases args.len() - i,
    {
        let flag = &args[i];
        assert(argv[i as int] == flag@);
        if i + 1 >= args.len() {
            return Err(joined("missing value for ", flag.as_str()));
        }
        let value = &args[i + 1];
        assert(argv[i + 1] == value@);
        if same_text(flag.as_str(), "--bluez-root") {
            out.bluez_root = Some(value.clone());
        } else if same_text(flag.as_str(), "--adapter") {
            match mac(value.as_str()) {
                Some(m) => {
                    out.adapter = Some(m);
                },
                None => {
                    return Err(String::from_str("invalid adapter MAC"));
                },
            }
        } else if same_text(flag.as_str(), "--device") {
            match mac(value.as_str()) {
                Some(m) => {
                    out.device = Some(m);
                },
                None => {
                    return Err(String::from_str("invalid device MAC"));
                },
            }
        } else {
            return Err(joined("unknown info option: ", flag.as_str()));
        }
        i = i + 2;
    }
    Ok(out)
}

/// Whether an address passes an optional filter.
pub open spec fn passes(filter: Option<Seq<char>>, address: Seq<char>) -> bool {
    match filter {
        Some(f) => f == address,
        None => true,
    }
}

impl InfoOptions {
    /// Whether the adapter with this address is shown.
    pub fn shows_adapter(&self, address: &str) -> (r: bool)
        ensures
            r == passes(info_model(self).1, address@),
    {
        match &self.adapter {
            Some(f) => same_text(f.as_str(), address),
            None => true,
        }
    }

    /// Whether the device with this address is shown.
    pub fn shows_device(&self, address: &str) -> (r: bool)
        ensures
            r == passes(info_model(self).2, address@),
    {
        match &self.device {
            Some(f) => same_text(f.as_str(), address),
            None => true,
        }
    }
}

/// `  label: value` when `key` of `group` is set, else nothing.
pub open spec fn field_line(m: IniView, group: Seq<char>, key: Seq<char>, label: Seq<char>) -> Seq<Seq<char>> {
    match lookup(m, group, key) {
        Some(v) => seq!["  "@ + label + ": "@ + v],
        None => Seq::empty(),
    }
}

/// `  label: present` or `  label: absent` by whether `group` has a `Key`.
pub open spec fn key_line(m: IniView, group: Seq<char>, label: Seq<char>) -> Seq<Seq<char>> {
    seq!["  "@ + label + ": "@ + if lookup(m, group, "Key"@) is Some { "present"@ } else { "absent"@ }]
}

/// The settings and key status of a device shown by `bls info`: its
/// addresses, then each set field of its `info` file, then whether each kind
/// of key is present; no key material is shown.
pub open spec fn report_spec(adapter: Seq<char>, device: Seq<char>, m: IniView) -> Seq<Seq<char>> {
    seq!["Adapter: "@ + adapter + "  Device: "@ + device]
        + field_line(m, "General"@, "Name"@, "Name"@)
        + field_line(m, "General"@, "Alias"@, "Alias"@)
        + field_line(m, "General"@, "AddressType"@, "Address type"@)
        + field_line(m, "General"@, "SupportedTechnologies"@, "Technologies"@)
        + field_line(m, "General"@, "Trusted"@, "Trusted"@)
        + field_line(m, "General"@, "Class"@, "Class"@)
        + field_line(m, "General"@, "Appearance"@, "Appearance"@)
        + field_line(m, "General"@, "Services"@, "Services"@)
        + field_line(m, "DeviceID"@, "Source"@, "Device ID source"@)
        + field_line(m, "DeviceID"@, "Vendor"@, "Vendor ID"@)
        + field_line(m, "DeviceID"@, "Product"@, "Product ID"@)
        + field_line(m, "DeviceID"@, "Version"@, "Version"@)
        + field_line(m, "LinkKey"@, "Type"@, "Classic key type"@)
        + field_line(m, "LinkKey"@, "PINLength"@, "Classic PIN length"@)
        + field_line(m, "LongTermKey"@, "Authenticated"@, "BLE authenticated"@)
        + field_line(m, "LongTermKey"@, "EncSize"@, "BLE encryption size"@)
        + key_line(m, "LinkKey"@, "Classic bond"@)
        + key_line(m, "LongTermKey"@, "BLE bond"@)
        + key_line(m, "IdentityResolvingKey"@, "Remote IRK"@)
}

fn push_field(out: &mut Vec<String>, ini: &Ini, group: &str, key: &str, label: &str)
    requires
        ini.wf(),
    ensures
        string_texts(final(out)@) == string_texts(old(out)@) + field_line(ini@, group@, key@, label@),
{
    if let Some(v) = ini.get(group, key) {
        let mut line = String::from_str("  ");
        line.append(label);
        line.append(": ");
        line.append(v);
        out.push(line);
        assert(string_texts(out@) =~= string_texts(old(out)@) + field_line(ini@, group@, key@, label@));
    } else {
        assert(string_texts(out@) =~= string_texts(old(out)@) + field_line(ini@, group@, key@, label@));
    }
}

fn push_key(out: &mut Vec<String>, ini: &Ini, group: &str, label: &str)
    requires
        ini.wf(),
    ensures
        string_texts(final(out)@) == string_texts(old(out)@) + key_line(ini@, group@, label@),
{
    let mut line = String::from_str("  ");
    line.append(label);
    line.append(": ");
    if ini.get(group, "Key").is_some() {
        line.append("present");
    } else {
        line.append("absent");
    }
    out.push(line);
    assert(string_texts(out@) =~= string_texts(old(out)@) + key_line(ini@, group@, label@));
}

/// The lines `bls info` shows for one device (see `report_spec`).
pub fn device_report(adapter: &str, device: &str, ini: &Ini) -> (r: Vec<String>)
    requires
        ini.wf(),
    ensures
        string_texts(r@) == report_spec(adapter@, device@, ini@),
{
    let mut out: Vec<String> = Vec::new();
    let mut head = String::from_str("Adapter: ");
    head.append(adapter);
    head.append("  Device: ");
    head.append(device);
    out.push(head);
    assert(string_texts(out@) =~= seq!["Adapter: "@ + adapter@ + "  Device: "@ + device@]);
    push_field(&mut out, ini, "General", "Name", "Name");
    push_field(&mut out, ini, "General", "Alias", "Alias");
    push_field(&mut out, ini, "General", "AddressType", "Address type");
    push_field(&mut out, ini, "General", "SupportedTechnologies", "Technologies");
    push_field(&mut out, ini, "General", "Trusted", "Trusted");
    push_field(&mut out, ini, "General", "Class", "Class");
    push_field(&mut out, ini, "General", "Appearance", "Appearance");
    push_field(&mut out, ini, "General", "Services", "Services");
    push_field(&mut out, ini, "DeviceID", "Source", "Device ID source");
    push_field(&mut out, ini, "DeviceID", "Vendor", "Vendor ID");
    push_field(&mut out, ini, "DeviceID", "Product", "Product ID");
    push_field(&mut out, ini, "DeviceID", "Version", "Version");
    push_field(&mut out, ini, "LinkKey", "Type", "Classic key type");
    push_field(&mut out, ini, "LinkKey", "PINLength", "Classic PIN length");
    push_field(&mut out, ini, "LongTermKey", "Authenticated", "BLE authenticated");
    push_field(&mut out, ini, "LongTermKey", "EncSize", "BLE encryption size");
    push_key(&mut out, ini, "LinkKey", "Classic bond");
    push_key(&mut out, ini, "LongTermKey", "BLE bond");
    push_key(&mut out, ini, "IdentityResolvingKey", "Remote IRK");
    out
}

/// `bls info` shows no key material: two key files that differ only in the
/// values of their `Key` entries (not in which groups have one) are shown
/// alike.
pub proof fn law_report_shows_no_keys(adapter: Seq<char>, device: Seq<char>, m1: IniView, m2: IniView)
    requires
        forall|g: Seq<char>, k: Seq<char>| k != "Key"@ ==> #[trigger] lookup(m1, g, k) == lookup(m2, g, k),
        forall|g: Seq<char>| (#[trigger] lookup(m1, g, "Key"@) is Some) == (lookup(m2, g, "Key"@) is Some),
    ensures
        report_spec(adapter, device, m1) == report_spec(adapter, device, m2),
{
    reveal_strlit("Key");
    assert("Key"@.len() == 3);
    reveal_strlit("Name");
    assert("Name"@.len() == 4);
    reveal_strlit("Alias");
    assert("Alias"@.len() == 5);
    reveal_strlit("AddressType");
    assert("AddressType"@.len() == 11);
    reveal_strlit("SupportedTechnologies");
    assert("SupportedTechnologies"@.len() == 21);
    reveal_strlit("Trusted");
    assert("Trusted"@.len() == 7);
    reveal_strlit("Class");
    assert("Class"@.len() == 5);
    reveal_strlit("Appearance");
    assert("Appearance"@.len() == 10);
    reveal_strlit("Services");
    assert("Services"@.len() == 8);
    reveal_strlit("Source");
    assert("Source"@.len() == 6);
    reveal_strlit("Vendor");
    assert("Vendor"@.len() == 6);
    reveal_strlit("Product");
    assert("Product"@.len() == 7);
    reveal_strlit("Version");
    assert("Version"@.len() == 7);
    reveal_strlit("Type");
    assert("Type"@.len() == 4);
    reveal_strlit("PINLength");
    assert("PINLength"@.len() == 9);
    reveal_strlit("Authenticated");
    assert("Authenticated"@.len() == 13);
    reveal_strlit("EncSize");
    assert("EncSize"@.len() == 7);
}

/// `present` or `absent`, by whether the key file has `Key` in `group`.
pub open spec fn presence(m: IniView, group: Seq<char>) -> Seq<char> {
    if lookup(m, group, "Key"@) is Some {
        "present"@
    } else {
        "absent"@
    }
}

/// `bls info` opens a device's report with its adapter and device
/// addresses and closes it with whether the device has a Classic link key
/// (`[LinkKey] Key`), a BLE long-term key (`[LongTermKey] Key`) and a remote
/// IRK (`[IdentityResolvingKey] Key`), in that order.
pub proof fn law_report_key_status(adapter: Seq<char>, device: Seq<char>, m: IniView)
    ensures
        ({
            let r = report_spec(adapter, device, m);
            &&& r.len() >= 4
            &&& r[0] == "Adapter: "@ + adapter + "  Device: "@ + device
            &&& r[r.len() - 3] == "  Classic bond: "@ + presence(m, "LinkKey"@)
            &&& r[r.len() - 2] == "  BLE bond: "@ + presence(m, "LongTermKey"@)
            &&& r[r.len() - 1] == "  Remote IRK: "@ + presence(m, "IdentityResolvingKey"@)
        }),
{
    reveal_strlit("  ");
    reveal_strlit(": ");
    reveal_strlit("Classic bond");
    reveal_strlit("BLE bond");
    reveal_strlit("Remote IRK");
    reveal_strlit("  Classic bond: ");
    reveal_strlit("  BLE bond: ");
    reveal_strlit("  Remote IRK: ");
    let r = report_spec(adapter, device, m);
    let k1 = key_line(m, "LinkKey"@, "Classic bond"@);
    let k2 = key_line(m, "LongTermKey"@, "BLE bond"@);
    let k3 = key_line(m, "IdentityResolvingKey"@, "Remote IRK"@);
    assert("  "@ + "Classic bond"@ + ": "@ =~= "  Classic bond: "@);
    assert("  "@ + "BLE bond"@ + ": "@ =~= "  BLE bond: "@);
    assert("  "@ + "Remote IRK"@ + ": "@ =~= "  Remote IRK: "@);
    assert(k1[0] == "  Classic bond: "@ + presence(m, "LinkKey"@));
    assert(k2[0] == "  BLE bond: "@ + presence(m, "LongTermKey"@));
    assert(k3[0] == "  Remote IRK: "@ + presence(m, "IdentityResolvingKey"@));
}

/// What a sequence holds, a longer one built from it holds too.
proof fn lemma_concat_contains(a: Seq<Seq<char>>, b: Seq<Seq<char>>, x: Seq<char>)
    requires
        a.contains(x) || b.contains(x),
    ensures
        (a + b).contains(x),
{
    if a.contains(x) {
        let i = choose|i: int| 0 <= i < a.len() && a[i] == x;
        assert((a + b)[i] == x);
    } else {
        let i = choose|i: int| 0 <= i < b.len() && b[i] == x;
        assert((a + b)[a.len() + i] == x);
    }
}

proof fn lemma_report_field_0(adapter: Seq<char>, device: Seq<char>, m: IniView)
    ensures
        lookup(m, "General"@, "Name"@) is Some
            ==> report_spec(adapter, device, m).contains("  Name: "@ + lookup(m, "General"@, "Name"@).unwrap()),
{
    reveal_strlit("  ");
    reveal_strlit(": ");
    reveal_strlit("Name");
    reveal_strlit("  Name: ");
    assert("  "@ + "Name"@ + ": "@ =~= "  Name: "@);
    let r0 = seq!["Adapter: "@ + adapter + "  Device: "@ + device];
    let r1 = r0 + field_line(m, "General"@, "Name"@, "Name"@);
    let r2 = r1 + field_line(m, "General"@, "Alias"@, "Alias"@);
    let r3 = r2 + field_line(m, "General"@, "AddressType"@, "Address type"@);
    let r4 = r3 + field_line(m, "General"@, "SupportedTechnologies"@, "Technologies"@);
    let r5 = r4 + field_line(m, "General"@, "Trusted"@, "Trusted"@);
    let r6 = r5 + field_line(m, "General"@, "Class"@, "Class"@);
    let r7 = r6 + field_line(m, "General"@, "Appearance"@, "Appearance"@);
    let r8 = r7 + field_line(m, "General"@, "Services"@, "Services"@);
    let r9 = r8 + field_line(m, "DeviceID"@, "Source"@, "Device ID source"@);
    let r10 = r9 + field_line(m, "DeviceID"@, "Vendor"@, "Vendor ID"@);
    let r11 = r10 + field_line(m, "DeviceID"@, "Product"@, "Product ID"@);
    let r12 = r11 + field_line(m, "DeviceID"@, "Version"@, "Version"@);
    let r13 = r12 + field_line(m, "LinkKey"@, "Type"@, "Classic key type"@);
    let r14 = r13 + field_line(m, "LinkKey"@, "PINLength"@, "Classic PIN length"@);
    let r15 = r14 + field_line(m, "LongTermKey"@, "Authenticated"@, "BLE authenticated"@);
    let r16 = r15 + field_line(m, "LongTermKey"@, "EncSize"@, "BLE encryption size"@);
    let r17 = r16 + key_line(m, "LinkKey"@, "Classic bond"@);
    let r18 = r17 + key_line(m, "LongTermKey"@, "BLE bond"@);
    let r19 = r18 + key_line(m, "IdentityResolvingKey"@, "Remote IRK"@);
    assert(r19 == report_spec(adapter, device, m));
    if let Some(v) = lookup(m, "General"@, "Name"@) {
        let x = "  Name: "@ + v;
        let f = field_line(m, "General"@, "Name"@, "Name"@);
        assert(f[0] == x);
        assert(f.contains(x));
        lemma_concat_contains(r0, field_line(m, "General"@, "Name"@, "Name"@), x);
        lemma_concat_contains(r1, field_line(m, "General"@, "Alias"@, "Alias"@), x);
        lemma_concat_contains(r2, field_line(m, "General"@, "AddressType"@, "Address type"@), x);
        lemma_concat_contains(r3, field_line(m, "General"@, "SupportedTechnologies"@, "Technologies"@), x);
        lemma_concat_contains(r4, field_line(m, "General"@, "Trusted"@, "Trusted"@), x);
        lemma_concat_contains(r5, field_line(m, "General"@, "Class"@, "Class"@), x);
        lemma_concat_contains(r6, field_line(m, "General"@, "Appearance"@, "Appearance"@), x);
        lemma_concat_contains(r7, field_line(m, "General"@, "Services"@, "Services"@), x);
        lemma_concat_contains(r8, field_line(m, "DeviceID"@, "Source"@, "Device ID source"@), x);
        lemma_concat_contains(r9, field_line(m, "DeviceID"@, "Vendor"@, "Vendor ID"@), x);
        lemma_concat_contains(r10, field_line(m, "DeviceID"@, "Product"@, "Product ID"@), x);
        lemma_concat_contains(r11, field_line(m, "DeviceID"@, "Version"@, "Version"@), x);
        lemma_concat_contains(r12, field_line(m, "LinkKey"@, "Type"@, "Classic key type"@), x);
        lemma_concat_contains(r13, field_line(m, "LinkKey"@, "PINLength"@, "Classic PIN length"@), x);
        lemma_concat_contains(r14, field_line(m, "LongTermKey"@, "Authenticated"@, "BLE authenticated"@), x);
        lemma_concat_contains(r15, field_line(m, "LongTermKey"@, "EncSize"@, "BLE encryption size"@), x);
        lemma_concat_contains(r16, key_line(m, "LinkKey"@, "Classic bond"@), x);
        lemma_concat_contains(r17, key_line(m, "LongTermKey"@, "BLE bond"@), x);
        lemma_concat_contains(r18, key_line(m, "IdentityResolvingKey"@, "Remote IRK"@), x);
    }
}

proof fn lemma_report_field_1(adapter: Seq<char>, device: Seq<char>, m: IniView)
    ensures
        lookup(m, "General"@, "Alias"@) is Some
            ==> report_spec(adapter, device, m).contains("  Alias: "@ + lookup(m, "General"@, "Alias"@).unwrap()),
{
    reveal_strlit("  ");
    reveal_strlit(": ");
    reveal_strlit("Alias");
    reveal_strlit("  Alias: ");
    assert("  "@ + "Alias"@ + ": "@ =~= "  Alias: "@);
    let r0 = seq!["Adapter: "@ + adapter + "  Device: "@ + device];
    let r1 = r0 + field_line(m, "General"@, "Name"@, "Name"@);
    let r2 = r1 + field_line(m, "General"@, "Alias"@, "Alias"@);
    let r3 = r2 + field_line(m, "General"@, "AddressType"@, "Address type"@);
    let r4 = r3 + field_line(m, "General"@, "SupportedTechnologies"@, "Technologies"@);
    let r5 = r4 + field_line(m, "General"@, "Trusted"@, "Trusted"@);
    let r6 = r5 + field_line(m, "General"@, "Class"@, "Class"@);
    let r7 = r6 + field_line(m, "General"@, "Appearance"@, "Appearance"@);
    let r8 = r7 + field_line(m, "General"@, "Services"@, "Services"@);
    let r9 = r8 + field_line(m, "DeviceID"@, "Source"@, "Device ID source"@);
    let r10 = r9 + field_line(m, "DeviceID"@, "Vendor"@, "Vendor ID"@);
    let r11 = r10 + field_line(m, "DeviceID"@, "Product"@, "Product ID"@);
    let r12 = r11 + field_line(m, "DeviceID"@, "Version"@, "Version"@);
    let r13 = r12 + field_line(m, "LinkKey"@, "Type"@, "Classic key type"@);
    let r14 = r13 + field_line(m, "LinkKey"@, "PINLength"@, "Classic PIN length"@);
    let r15 = r14 + field_line(m, "LongTermKey"@, "Authenticated"@, "BLE authenticated"@);
    let r16 = r15 + field_line(m, "LongTermKey"@, "EncSize"@, "BLE encryption size"@);
    let r17 = r16 + key_line(m, "LinkKey"@, "Classic bond"@);
    let r18 = r17 + key_line(m, "LongTermKey"@, "BLE bond"@);
    let r19 = r18 + key_line(m, "IdentityResolvingKey"@, "Remote IRK"@);
    assert(r19 == report_spec(adapter, device, m));
    if let Some(v) = lookup(m, "General"@, "Alias"@) {
        let x = "  Alias: "@ + v;
        let f = field_line(m, "General"@, "Alias"@, "Alias"@);
        assert(f[0] == x);
        assert(f.contains(x));
        lemma_concat_contains(r1, field_line(m, "General"@, "Alias"@, "Alias"@), x);
        lemma_concat_contains(r2, field_line(m, "General"@, "AddressType"@, "Address type"@), x);
        lemma_concat_contains(r3, field_line(m, "General"@, "SupportedTechnologies"@, "Technologies"@), x);
        lemma_concat_contains(r4, field_line(m, "General"@, "Trusted"@, "Trusted"@), x);
        lemma_concat_contains(r5, field_line(m, "General"@, "Class"@, "Class"@), x);
        lemma_concat_contains(r6, field_line(m, "General"@, "Appearance"@, "Appearance"@), x);
        lemma_concat_contains(r7, field_line(m, "General"@, "Services"@, "Services"@), x);
        lemma_concat_contains(r8, field_line(m, "DeviceID"@, "Source"@, "Device ID source"@), x);
        lemma_concat_contains(r9, field_line(m, "DeviceID"@, "Vendor"@, "Vendor ID"@), x);
        lemma_concat_contains(r10, field_line(m, "DeviceID"@, "Product"@, "Product ID"@), x);
        lemma_concat_contains(r11, field_line(m, "DeviceID"@, "Version"@, "Version"@), x);
        lemma_concat_contains(r12, field_line(m, "LinkKey"@, "Type"@, "Classic key type"@), x);
        lemma_concat_contains(r13, field_line(m, "LinkKey"@, "PINLength"@, "Classic PIN length"@), x);
        lemma_concat_contains(r14, field_line(m, "LongTermKey"@, "Authenticated"@, "BLE authenticated"@), x);
        lemma_concat_contains(r15, field_line(m, "LongTermKey"@, "EncSize"@, "BLE encryption size"@), x);
        lemma_concat_contains(r16, key_line(m, "LinkKey"@, "Classic bond"@), x);
        lemma_concat_contains(r17, key_line(m, "LongTermKey"@, "BLE bond"@), x);
        lemma_concat_contains(r18, key_line(m, "IdentityResolvingKey"@, "Remote IRK"@), x);
    }
}

proof fn lemma_report_field_2(adapter: Seq<char>, device: Seq<char>, m: IniView)
    ensures
        lookup(m, "General"@, "AddressType"@) is Some
            ==> report_spec(adapter, device, m).contains("  Address type: "@ + lookup(m, "General"@, "AddressType"@).unwrap()),
{
    reveal_strlit("  ");
    reveal_strlit(": ");
    reveal_strlit("Address type");
    reveal_strlit("  Address type: ");
    assert("  "@ + "Address type"@ + ": "@ =~= "  Address type: "@);
    let r0 = seq!["Adapter: "@ + adapter + "  Device: "@ + device];
    let r1 = r0 + field_line(m, "General"@, "Name"@, "Name"@);
    let r2 = r1 + field_line(m, "General"@, "Alias"@, "Alias"@);
    let r3 = r2 + field_line(m, "General"@, "AddressType"@, "Address type"@);
    let r4 = r3 + field_line(m, "General"@, "SupportedTechnologies"@, "Technologies"@);
    let r5 = r4 + field_line(m, "General"@, "Trusted"@, "Trusted"@);
    let r6 = r5 + field_line(m, "General"@, "Class"@, "Class"@);
    let r7 = r6 + field_line(m, "General"@, "Appearance"@, "Appearance"@);
    let r8 = r7 + field_line(m, "General"@, "Services"@, "Services"@);
    let r9 = r8 + field_line(m, "DeviceID"@, "Source"@, "Device ID source"@);
    let r10 = r9 + field_line(m, "DeviceID"@, "Vendor"@, "Vendor ID"@);
    let r11 = r10 + field_line(m, "DeviceID"@, "Product"@, "Product ID"@);
    let r12 = r11 + field_line(m, "DeviceID"@, "Version"@, "Version"@);
    let r13 = r12 + field_line(m, "LinkKey"@, "Type"@, "Classic key type"@);
    let r14 = r13 + field_line(m, "LinkKey"@, "PINLength"@, "Classic PIN length"@);
    let r15 = r14 + field_line(m, "LongTermKey"@, "Authenticated"@, "BLE authenticated"@);
    let r16 = r15 + field_line(m, "LongTermKey"@, "EncSize"@, "BLE encryption size"@);
    let r17 = r16 + key_line(m, "LinkKey"@, "Classic bond"@);
    let r18 = r17 + key_line(m, "LongTermKey"@, "BLE bond"@);
    let r19 = r18 + key_line(m, "IdentityResolvingKey"@, "Remote IRK"@);
    assert(r19 == report_spec(adapter, device, m));
    if let Some(v) = lookup(m, "General"@, "AddressType"@) {
        let x = "  Address type: "@ + v;
        let f = field_line(m, "General"@, "AddressType"@, "Address type"@);
        assert(f[0] == x);
        assert(f.contains(x));
        lemma_concat_contains(r2, field_line(m, "General"@, "AddressType"@, "Address type"@), x);
        lemma_concat_contains(r3, field_line(m, "General"@, "SupportedTechnologies"@, "Technologies"@), x);
        lemma_concat_contains(r4, field_line(m, "General"@, "Trusted"@, "Trusted"@), x);
        lemma_concat_contains(r5, field_line(m, "General"@, "Class"@, "Class"@), x);
        lemma_concat_contains(r6, field_line(m, "General"@, "Appearance"@, "Appearance"@), x);
        lemma_concat_contains(r7, field_line(m, "General"@, "Services"@, "Services"@), x);
        lemma_concat_contains(r8, field_line(m, "DeviceID"@, "Source"@, "Device ID source"@), x);
        lemma_concat_contains(r9, field_line(m, "DeviceID"@, "Vendor"@, "Vendor ID"@), x);
        lemma_concat_contains(r10, field_line(m, "DeviceID"@, "Product"@, "Product ID"@), x);
        lemma_concat_contains(r11, field_line(m, "DeviceID"@, "Version"@, "Version"@), x);
        lemma_concat_contains(r12, field_line(m, "LinkKey"@, "Type"@, "Classic key type"@), x);
        lemma_concat_contains(r13, field_line(m, "LinkKey"@, "PINLength"@, "Classic PIN length"@), x);
        lemma_concat_contains(r14, field_line(m, "LongTermKey"@, "Authenticated"@, "BLE authenticated"@), x);
        lemma_concat_contains(r15, field_line(m, "LongTermKey"@, "EncSize"@, "BLE encryption size"@), x);
        lemma_concat_contains(r16, key_line(m, "LinkKey"@, "Classic bond"@), x);
        lemma_concat_contains(r17, key_line(m, "LongTermKey"@, "BLE bond"@), x);
        lemma_concat_contains(r18, key_line(m, "IdentityResolvingKey"@, "Remote IRK"@), x);
    }
}

proof fn lemma_report_field_3(adapter: Seq<char>, device: Seq<char>, m: IniView)
    ensures
        lookup(m, "General"@, "SupportedTechnologies"@) is Some
            ==> report_spec(adapter, device, m).contains("  Technologies: "@ + lookup(m, "General"@, "SupportedTechnologies"@).unwrap()),
{
    reveal_strlit("  ");
    reveal_strlit(": ");
    reveal_strlit("Technologies");
    reveal_strlit("  Technologies: ");
    assert("  "@ + "Technologies"@ + ": "@ =~= "  Technologies: "@);
    let r0 = seq!["Adapter: "@ + adapter + "  Device: "@ + device];
    let r1 = r0 + field_line(m, "General"@, "Name"@, "Name"@);
    let r2 = r1 + field_line(m, "General"@, "Alias"@, "Alias"@);
    let r3 = r2 + field_line(m, "General"@, "AddressType"@, "Address type"@);
    let r4 = r3 + field_line(m, "General"@, "SupportedTechnologies"@, "Technologies"@);
    let r5 = r4 + field_line(m, "General"@, "Trusted"@, "Trusted"@);
    let r6 = r5 + field_line(m, "General"@, "Class"@, "Class"@);
    let r7 = r6 + field_line(m, "General"@, "Appearance"@, "Appearance"@);
    let r8 = r7 + field_line(m, "General"@, "Services"@, "Services"@);
    let r9 = r8 + field_line(m, "DeviceID"@, "Source"@, "Device ID source"@);
    let r10 = r9 + field_line(m, "DeviceID"@, "Vendor"@, "Vendor ID"@);
    let r11 = r10 + field_line(m, "DeviceID"@, "Product"@, "Product ID"@);
    let r12 = r11 + field_line(m, "DeviceID"@, "Version"@, "Version"@);
    let r13 = r12 + field_line(m, "LinkKey"@, "Type"@, "Classic key type"@);
    let r14 = r13 + field_line(m, "LinkKey"@, "PINLength"@, "Classic PIN length"@);
    let r15 = r14 + field_line(m, "LongTermKey"@, "Authenticated"@, "BLE authenticated"@);
    let r16 = r15 + field_line(m, "LongTermKey"@, "EncSize"@, "BLE encryption size"@);
    let r17 = r16 + key_line(m, "LinkKey"@, "Classic bond"@);
    let r18 = r17 + key_line(m, "LongTermKey"@, "BLE bond"@);
    let r19 = r18 + key_line(m, "IdentityResolvingKey"@, "Remote IRK"@);
    assert(r19 == report_spec(adapter, device, m));
    if let Some(v) = lookup(m, "General"@, "SupportedTechnologies"@) {
        let x = "  Technologies: "@ + v;
        let f = field_line(m, "General"@, "SupportedTechnologies"@, "Technologies"@);
        assert(f[0] == x);
        assert(f.contains(x));
        lemma_concat_contains(r3, field_line(m, "General"@, "SupportedTechnologies"@, "Technologies"@), x);
        lemma_concat_contains(r4, field_line(m, "General"@, "Trusted"@, "Trusted"@), x);
        lemma_concat_contains(r5, field_line(m, "General"@, "Class"@, "Class"@), x);
        lemma_concat_contains(r6, field_line(m, "General"@, "Appearance"@, "Appearance"@), x);
        lemma_concat_contains(r7, field_line(m, "General"@, "Services"@, "Services"@), x);
        lemma_concat_contains(r8, field_line(m, "DeviceID"@, "Source"@, "Device ID source"@), x);
        lemma_concat_contains(r9, field_line(m, "DeviceID"@, "Vendor"@, "Vendor ID"@), x);
        lemma_concat_contains(r10, field_line(m, "DeviceID"@, "Product"@, "Product ID"@), x);
        lemma_concat_contains(r11, field_line(m, "DeviceID"@, "Version"@, "Version"@), x);
        lemma_concat_contains(r12, field_line(m, "LinkKey"@, "Type"@, "Classic key type"@), x);
        lemma_concat_contains(r13, field_line(m, "LinkKey"@, "PINLength"@, "Classic PIN length"@), x);
        lemma_concat_contains(r14, field_line(m, "LongTermKey"@, "Authenticated"@, "BLE authenticated"@), x);
        lemma_concat_contains(r15, field_line(m, "LongTermKey"@, "EncSize"@, "BLE encryption size"@), x);
        lemma_concat_contains(r16, key_line(m, "LinkKey"@, "Classic bond"@), x);
        lemma_concat_contains(r17, key_line(m, "LongTermKey"@, "BLE bond"@), x);
        lemma_concat_contains(r18, key_line(m, "IdentityResolvingKey"@, "Remote IRK"@), x);
    }
}

proof fn lemma_report_field_4(adapter: Seq<char>, device: Seq<char>, m: IniView)
    ensures
        lookup(m, "General"@, "Trusted"@) is Some
            ==> report_spec(adapter, device, m).contains("  Trusted: "@ + lookup(m, "General"@, "Trusted"@).unwrap()),
{
    reveal_strlit("  ");
    reveal_strlit(": ");
    reveal_strlit("Trusted");
    reveal_strlit("  Trusted: ");
    assert("  "@ + "Trusted"@ + ": "@ =~= "  Trusted: "@);
    let r0 = seq!["Adapter: "@ + adapter + "  Device: "@ + device];
    let r1 = r0 + field_line(m, "General"@, "Name"@, "Name"@);
    let r2 = r1 + field_line(m, "General"@, "Alias"@, "Alias"@);
    let r3 = r2 + field_line(m, "General"@, "AddressType"@, "Address type"@);
    let r4 = r3 + field_line(m, "General"@, "SupportedTechnologies"@, "Technologies"@);
    let r5 = r4 + field_line(m, "General"@, "Trusted"@, "Trusted"@);
    let r6 = r5 + field_line(m, "General"@, "Class"@, "Class"@);
    let r7 = r6 + field_line(m, "General"@, "Appearance"@, "Appearance"@);
    let r8 = r7 + field_line(m, "General"@, "Services"@, "Services"@);
    let r9 = r8 + field_line(m, "DeviceID"@, "Source"@, "Device ID source"@);
    let r10 = r9 + field_line(m, "DeviceID"@, "Vendor"@, "Vendor ID"@);
    let r11 = r10 + field_line(m, "DeviceID"@, "Product"@, "Product ID"@);
    let r12 = r11 + field_line(m, "DeviceID"@, "Version"@, "Version"@);
    let r13 = r12 + field_line(m, "LinkKey"@, "Type"@, "Classic key type"@);
    let r14 = r13 + field_line(m, "LinkKey"@, "PINLength"@, "Classic PIN length"@);
    let r15 = r14 + field_line(m, "LongTermKey"@, "Authenticated"@, "BLE authenticated"@);
    let r16 = r15 + field_line(m, "LongTermKey"@, "EncSize"@, "BLE encryption size"@);
    let r17 = r16 + key_line(m, "LinkKey"@, "Classic bond"@);
    let r18 = r17 + key_line(m, "LongTermKey"@, "BLE bond"@);
    let r19 = r18 + key_line(m, "IdentityResolvingKey"@, "Remote IRK"@);
    assert(r19 == report_spec(adapter, device, m));
    if let Some(v) = lookup(m, "General"@, "Trusted"@) {
        let x = "  Trusted: "@ + v;
        let f = field_line(m, "General"@, "Trusted"@, "Trusted"@);
        assert(f[0] == x);
        assert(f.contains(x));
        lemma_concat_contains(r4, field_line(m, "General"@, "Trusted"@, "Trusted"@), x);
        lemma_concat_contains(r5, field_line(m, "General"@, "Class"@, "Class"@), x);
        lemma_concat_contains(r6, field_line(m, "General"@, "Appearance"@, "Appearance"@), x);
        lemma_concat_contains(r7, field_line(m, "General"@, "Services"@, "Services"@), x);
        lemma_concat_contains(r8, field_line(m, "DeviceID"@, "Source"@, "Device ID source"@), x);
        lemma_concat_contains(r9, field_line(m, "DeviceID"@, "Vendor"@, "Vendor ID"@), x);
        lemma_concat_contains(r10, field_line(m, "DeviceID"@, "Product"@, "Product ID"@), x);
        lemma_concat_contains(r11, field_line(m, "DeviceID"@, "Version"@, "Version"@), x);
        lemma_concat_contains(r12, field_line(m, "LinkKey"@, "Type"@, "Classic key type"@), x);
        lemma_concat_contains(r13, field_line(m, "LinkKey"@, "PINLength"@, "Classic PIN length"@), x);
        lemma_concat_contains(r14, field_line(m, "LongTermKey"@, "Authenticated"@, "BLE authenticated"@), x);
        lemma_concat_contains(r15, field_line(m, "LongTermKey"@, "EncSize"@, "BLE encryption size"@), x);
        lemma_concat_contains(r16, key_line(m, "LinkKey"@, "Classic bond"@), x);
        lemma_concat_contains(r17, key_line(m, "LongTermKey"@, "BLE bond"@), x);
        lemma_concat_contains(r18, key_line(m, "IdentityResolvingKey"@, "Remote IRK"@), x);
    }
}

proof fn lemma_report_field_5(adapter: Seq<char>, device: Seq<char>, m: IniView)
    ensures
        lookup(m, "General"@, "Class"@) is Some
            ==> report_spec(adapter, device, m).contains("  Class: "@ + lookup(m, "General"@, "Class"@).unwrap()),
{
    reveal_strlit("  ");
    reveal_strlit(": ");
    reveal_strlit("Class");
    reveal_strlit("  Class: ");
    assert("  "@ + "Class"@ + ": "@ =~= "  Class: "@);
    let r0 = seq!["Adapter: "@ + adapter + "  Device: "@ + device];
    let r1 = r0 + field_line(m, "General"@, "Name"@, "Name"@);
    let r2 = r1 + field_line(m, "General"@, "Alias"@, "Alias"@);
    let r3 = r2 + field_line(m, "General"@, "AddressType"@, "Address type"@);
    let r4 = r3 + field_line(m, "General"@, "SupportedTechnologies"@, "Technologies"@);
    let r5 = r4 + field_line(m, "General"@, "Trusted"@, "Trusted"@);
    let r6 = r5 + field_line(m, "General"@, "Class"@, "Class"@);
    let r7 = r6 + field_line(m, "General"@, "Appearance"@, "Appearance"@);
    let r8 = r7 + field_line(m, "General"@, "Services"@, "Services"@);
    let r9 = r8 + field_line(m, "DeviceID"@, "Source"@, "Device ID source"@);
    let r10 = r9 + field_line(m, "DeviceID"@, "Vendor"@, "Vendor ID"@);
    let r11 = r10 + field_line(m, "DeviceID"@, "Product"@, "Product ID"@);
    let r12 = r11 + field_line(m, "DeviceID"@, "Version"@, "Version"@);
    let r13 = r12 + field_line(m, "LinkKey"@, "Type"@, "Classic key type"@);
    let r14 = r13 + field_line(m, "LinkKey"@, "PINLength"@, "Classic PIN length"@);
    let r15 = r14 + field_line(m, "LongTermKey"@, "Authenticated"@, "BLE authenticated"@);
    let r16 = r15 + field_line(m, "LongTermKey"@, "EncSize"@, "BLE encryption size"@);
    let r17 = r16 + key_line(m, "LinkKey"@, "Classic bond"@);
    let r18 = r17 + key_line(m, "LongTermKey"@, "BLE bond"@);
    let r19 = r18 + key_line(m, "IdentityResolvingKey"@, "Remote IRK"@);
    assert(r19 == report_spec(adapter, device, m));
    if let Some(v) = lookup(m, "General"@, "Class"@) {
        let x = "  Class: "@ + v;
        let f = field_line(m, "General"@, "Class"@, "Class"@);
        assert(f[0] == x);
        assert(f.contains(x));
        lemma_concat_contains(r5, field_line(m, "General"@, "Class"@, "Class"@), x);
        lemma_concat_contains(r6, field_line(m, "General"@, "Appearance"@, "Appearance"@), x);
        lemma_concat_contains(r7, field_line(m, "General"@, "Services"@, "Services"@), x);
        lemma_concat_contains(r8, field_line(m, "DeviceID"@, "Source"@, "Device ID source"@), x);
        lemma_concat_contains(r9, field_line(m, "DeviceID"@, "Vendor"@, "Vendor ID"@), x);
        lemma_concat_contains(r10, field_line(m, "DeviceID"@, "Product"@, "Product ID"@), x);
        lemma_concat_contains(r11, field_line(m, "DeviceID"@, "Version"@, "Version"@), x);
        lemma_concat_contains(r12, field_line(m, "LinkKey"@, "Type"@, "Classic key type"@), x);
        lemma_concat_contains(r13, field_line(m, "LinkKey"@, "PINLength"@, "Classic PIN length"@), x);
        lemma_concat_contains(r14, field_line(m, "LongTermKey"@, "Authenticated"@, "BLE authenticated"@), x);
        lemma_concat_contains(r15, field_line(m, "LongTermKey"@, "EncSize"@, "BLE encryption size"@), x);
        lemma_concat_contains(r16, key_line(m, "LinkKey"@, "Classic bond"@), x);
        lemma_concat_contains(r17, key_line(m, "LongTermKey"@, "BLE bond"@), x);
        lemma_concat_contains(r18, key_line(m, "IdentityResolvingKey"@, "Remote IRK"@), x);
    }
}

proof fn lemma_report_field_6(adapter: Seq<char>, device: Seq<char>, m: IniView)
    ensures
        lookup(m, "General"@, "Appearance"@) is Some
            ==> report_spec(adapter, device, m).contains("  Appearance: "@ + lookup(m, "General"@, "Appearance"@).unwrap()),
{
    reveal_strlit("  ");
    reveal_strlit(": ");
    reveal_strlit("Appearance");
    reveal_strlit("  Appearance: ");
    assert("  "@ + "Appearance"@ + ": "@ =~= "  Appearance: "@);
    let r0 = seq!["Adapter: "@ + adapter + "  Device: "@ + device];
    let r1 = r0 + field_line(m, "General"@, "Name"@, "Name"@);
    let r2 = r1 + field_line(m, "General"@, "Alias"@, "Alias"@);
    let r3 = r2 + field_line(m, "General"@, "AddressType"@, "Address type"@);
    let r4 = r3 + field_line(m, "General"@, "SupportedTechnologies"@, "Technologies"@);
    let r5 = r4 + field_line(m, "General"@, "Trusted"@, "Trusted"@);
    let r6 = r5 + field_line(m, "General"@, "Class"@, "Class"@);
    let r7 = r6 + field_line(m, "General"@, "Appearance"@, "Appearance"@);
    let r8 = r7 + field_line(m, "General"@, "Services"@, "Services"@);
    let r9 = r8 + field_line(m, "DeviceID"@, "Source"@, "Device ID source"@);
    let r10 = r9 + field_line(m, "DeviceID"@, "Vendor"@, "Vendor ID"@);
    let r11 = r10 + field_line(m, "DeviceID"@, "Product"@, "Product ID"@);
    let r12 = r11 + field_line(m, "DeviceID"@, "Version"@, "Version"@);
    let r13 = r12 + field_line(m, "LinkKey"@, "Type"@, "Classic key type"@);
    let r14 = r13 + field_line(m, "LinkKey"@, "PINLength"@, "Classic PIN length"@);
    let r15 = r14 + field_line(m, "LongTermKey"@, "Authenticated"@, "BLE authenticated"@);
    let r16 = r15 + field_line(m, "LongTermKey"@, "EncSize"@, "BLE encryption size"@);
    let r17 = r16 + key_line(m, "LinkKey"@, "Classic bond"@);
    let r18 = r17 + key_line(m, "LongTermKey"@, "BLE bond"@);
    let r19 = r18 + key_line(m, "IdentityResolvingKey"@, "Remote IRK"@);
    assert(r19 == report_spec(adapter, device, m));
    if let Some(v) = lookup(m, "General"@, "Appearance"@) {
        let x = "  Appearance: "@ + v;
        let f = field_line(m, "General"@, "Appearance"@, "Appearance"@);
        assert(f[0] == x);
        assert(f.contains(x));
        lemma_concat_contains(r6, field_line(m, "General"@, "Appearance"@, "Appearance"@), x);
        lemma_concat_contains(r7, field_line(m, "General"@, "Services"@, "Services"@), x);
        lemma_concat_contains(r8, field_line(m, "DeviceID"@, "Source"@, "Device ID source"@), x);
        lemma_concat_contains(r9, field_line(m, "DeviceID"@, "Vendor"@, "Vendor ID"@), x);
        lemma_concat_contains(r10, field_line(m, "DeviceID"@, "Product"@, "Product ID"@), x);
        lemma_concat_contains(r11, field_line(m, "DeviceID"@, "Version"@, "Version"@), x);
        lemma_concat_contains(r12, field_line(m, "LinkKey"@, "Type"@, "Classic key type"@), x);
        lemma_concat_contains(r13, field_line(m, "LinkKey"@, "PINLength"@, "Classic PIN length"@), x);
        lemma_concat_contains(r14, field_line(m, "LongTermKey"@, "Authenticated"@, "BLE authenticated"@), x);
        lemma_concat_contains(r15, field_line(m, "LongTermKey"@, "EncSize"@, "BLE encryption size"@), x);
        lemma_concat_contains(r16, key_line(m, "LinkKey"@, "Classic bond"@), x);
        lemma_concat_contains(r17, key_line(m, "LongTermKey"@, "BLE bond"@), x);
        lemma_concat_contains(r18, key_line(m, "IdentityResolvingKey"@, "Remote IRK"@), x);
    }
}

proof fn lemma_report_field_7(adapter: Seq<char>, device: Seq<char>, m: IniView)
    ensures
        lookup(m, "General"@, "Services"@) is Some
            ==> report_spec(adapter, device, m).contains("  Services: "@ + lookup(m, "General"@, "Services"@).unwrap()),
{
    reveal_strlit("  ");
    reveal_strlit(": ");
    reveal_strlit("Services");
    reveal_strlit("  Services: ");
    assert("  "@ + "Services"@ + ": "@ =~= "  Services: "@);
    let r0 = seq!["Adapter: "@ + adapter + "  Device: "@ + device];
    let r1 = r0 + field_line(m, "General"@, "Name"@, "Name"@);
    let r2 = r1 + field_line(m, "General"@, "Alias"@, "Alias"@);
    let r3 = r2 + field_line(m, "General"@, "AddressType"@, "Address type"@);
    let r4 = r3 + field_line(m, "General"@, "SupportedTechnologies"@, "Technologies"@);
    let r5 = r4 + field_line(m, "General"@, "Trusted"@, "Trusted"@);
    let r6 = r5 + field_line(m, "General"@, "Class"@, "Class"@);
    let r7 = r6 + field_line(m, "General"@, "Appearance"@, "Appearance"@);
    let r8 = r7 + field_line(m, "General"@, "Services"@, "Services"@);
    let r9 = r8 + field_line(m, "DeviceID"@, "Source"@, "Device ID source"@);
    let r10 = r9 + field_line(m, "DeviceID"@, "Vendor"@, "Vendor ID"@);
    let r11 = r10 + field_line(m, "DeviceID"@, "Product"@, "Product ID"@);
    let r12 = r11 + field_line(m, "DeviceID"@, "Version"@, "Version"@);
    let r13 = r12 + field_line(m, "LinkKey"@, "Type"@, "Classic key type"@);
    let r14 = r13 + field_line(m, "LinkKey"@, "PINLength"@, "Classic PIN length"@);
    let r15 = r14 + field_line(m, "LongTermKey"@, "Authenticated"@, "BLE authenticated"@);
    let r16 = r15 + field_line(m, "LongTermKey"@, "EncSize"@, "BLE encryption size"@);
    let r17 = r16 + key_line(m, "LinkKey"@, "Classic bond"@);
    let r18 = r17 + key_line(m, "LongTermKey"@, "BLE bond"@);
    let r19 = r18 + key_line(m, "IdentityResolvingKey"@, "Remote IRK"@);
    assert(r19 == report_spec(adapter, device, m));
    if let Some(v) = lookup(m, "General"@, "Services"@) {
        let x = "  Services: "@ + v;
        let f = field_line(m, "General"@, "Services"@, "Services"@);
        assert(f[0] == x);
        assert(f.contains(x));
        lemma_concat_contains(r7, field_line(m, "General"@, "Services"@, "Services"@), x);
        lemma_concat_contains(r8, field_line(m, "DeviceID"@, "Source"@, "Device ID source"@), x);
        lemma_concat_contains(r9, field_line(m, "DeviceID"@, "Vendor"@, "Vendor ID"@), x);
        lemma_concat_contains(r10, field_line(m, "DeviceID"@, "Product"@, "Product ID"@), x);
        lemma_concat_contains(r11, field_line(m, "DeviceID"@, "Version"@, "Version"@), x);
        lemma_concat_contains(r12, field_line(m, "LinkKey"@, "Type"@, "Classic key type"@), x);
        lemma_concat_contains(r13, field_line(m, "LinkKey"@, "PINLength"@, "Classic PIN length"@), x);
        lemma_concat_contains(r14, field_line(m, "LongTermKey"@, "Authenticated"@, "BLE authenticated"@), x);
        lemma_concat_contains(r15, field_line(m, "LongTermKey"@, "EncSize"@, "BLE encryption size"@), x);
        lemma_concat_contains(r16, key_line(m, "LinkKey"@, "Classic bond"@), x);
        lemma_concat_contains(r17, key_line(m, "LongTermKey"@, "BLE bond"@), x);
        lemma_concat_contains(r18, key_line(m, "IdentityResolvingKey"@, "Remote IRK"@), x);
    }
}

proof fn lemma_report_field_8(adapter: Seq<char>, device: Seq<char>, m: IniView)
    ensures
        lookup(m, "DeviceID"@, "Source"@) is Some
            ==> report_spec(adapter, device, m).contains("  Device ID source: "@ + lookup(m, "DeviceID"@, "Source"@).unwrap()),
{
    reveal_strlit("  ");
    reveal_strlit(": ");
    reveal_strlit("Device ID source");
    reveal_strlit("  Device ID source: ");
    assert("  "@ + "Device ID source"@ + ": "@ =~= "  Device ID source: "@);
    let r0 = seq!["Adapter: "@ + adapter + "  Device: "@ + device];
    let r1 = r0 + field_line(m, "General"@, "Name"@, "Name"@);
    let r2 = r1 + field_line(m, "General"@, "Alias"@, "Alias"@);
    let r3 = r2 + field_line(m, "General"@, "AddressType"@, "Address type"@);
    let r4 = r3 + field_line(m, "General"@, "SupportedTechnologies"@, "Technologies"@);
    let r5 = r4 + field_line(m, "General"@, "Trusted"@, "Trusted"@);
    let r6 = r5 + field_line(m, "General"@, "Class"@, "Class"@);
    let r7 = r6 + field_line(m, "General"@, "Appearance"@, "Appearance"@);
    let r8 = r7 + field_line(m, "General"@, "Services"@, "Services"@);
    let r9 = r8 + field_line(m, "DeviceID"@, "Source"@, "Device ID source"@);
    let r10 = r9 + field_line(m, "DeviceID"@, "Vendor"@, "Vendor ID"@);
    let r11 = r10 + field_line(m, "DeviceID"@, "Product"@, "Product ID"@);
    let r12 = r11 + field_line(m, "DeviceID"@, "Version"@, "Version"@);
    let r13 = r12 + field_line(m, "LinkKey"@, "Type"@, "Classic key type"@);
    let r14 = r13 + field_line(m, "LinkKey"@, "PINLength"@, "Classic PIN length"@);
    let r15 = r14 + field_line(m, "LongTermKey"@, "Authenticated"@, "BLE authenticated"@);
    let r16 = r15 + field_line(m, "LongTermKey"@, "EncSize"@, "BLE encryption size"@);
    let r17 = r16 + key_line(m, "LinkKey"@, "Classic bond"@);
    let r18 = r17 + key_line(m, "LongTermKey"@, "BLE bond"@);
    let r19 = r18 + key_line(m, "IdentityResolvingKey"@, "Remote IRK"@);
    assert(r19 == report_spec(adapter, device, m));
    if let Some(v) = lookup(m, "DeviceID"@, "Source"@) {
        let x = "  Device ID source: "@ + v;
        let f = field_line(m, "DeviceID"@, "Source"@, "Device ID source"@);
        assert(f[0] == x);
        assert(f.contains(x));
        lemma_concat_contains(r8, field_line(m, "DeviceID"@, "Source"@, "Device ID source"@), x);
        lemma_concat_contains(r9, field_line(m, "DeviceID"@, "Vendor"@, "Vendor ID"@), x);
        lemma_concat_contains(r10, field_line(m, "DeviceID"@, "Product"@, "Product ID"@), x);
        lemma_concat_contains(r11, field_line(m, "DeviceID"@, "Version"@, "Version"@), x);
        lemma_concat_contains(r12, field_line(m, "LinkKey"@, "Type"@, "Classic key type"@), x);
        lemma_concat_contains(r13, field_line(m, "LinkKey"@, "PINLength"@, "Classic PIN length"@), x);
        lemma_concat_contains(r14, field_line(m, "LongTermKey"@, "Authenticated"@, "BLE authenticated"@), x);
        lemma_concat_contains(r15, field_line(m, "LongTermKey"@, "EncSize"@, "BLE encryption size"@), x);
        lemma_concat_contains(r16, key_line(m, "LinkKey"@, "Classic bond"@), x);
        lemma_concat_contains(r17, key_line(m, "LongTermKey"@, "BLE bond"@), x);
        lemma_concat_contains(r18, key_line(m, "IdentityResolvingKey"@, "Remote IRK"@), x);
    }
}

proof fn lemma_report_field_9(adapter: Seq<char>, device: Seq<char>, m: IniView)
    ensures
        lookup(m, "DeviceID"@, "Vendor"@) is Some
            ==> report_spec(adapter, device, m).contains("  Vendor ID: "@ + lookup(m, "DeviceID"@, "Vendor"@).unwrap()),
{
    reveal_strlit("  ");
    reveal_strlit(": ");
    reveal_strlit("Vendor ID");
    reveal_strlit("  Vendor ID: ");
    assert("  "@ + "Vendor ID"@ + ": "@ =~= "  Vendor ID: "@);
    let r0 = seq!["Adapter: "@ + adapter + "  Device: "@ + device];
    let r1 = r0 + field_line(m, "General"@, "Name"@, "Name"@);
    let r2 = r1 + field_line(m, "General"@, "Alias"@, "Alias"@);
    let r3 = r2 + field_line(m, "General"@, "AddressType"@, "Address type"@);
    let r4 = r3 + field_line(m, "General"@, "SupportedTechnologies"@, "Technologies"@);
    let r5 = r4 + field_line(m, "General"@, "Trusted"@, "Trusted"@);
    let r6 = r5 + field_line(m, "General"@, "Class"@, "Class"@);
    let r7 = r6 + field_line(m, "General"@, "Appearance"@, "Appearance"@);
    let r8 = r7 + field_line(m, "General"@, "Services"@, "Services"@);
    let r9 = r8 + field_line(m, "DeviceID"@, "Source"@, "Device ID source"@);
    let r10 = r9 + field_line(m, "DeviceID"@, "Vendor"@, "Vendor ID"@);
    let r11 = r10 + field_line(m, "DeviceID"@, "Product"@, "Product ID"@);
    let r12 = r11 + field_line(m, "DeviceID"@, "Version"@, "Version"@);
    let r13 = r12 + field_line(m, "LinkKey"@, "Type"@, "Classic key type"@);
    let r14 = r13 + field_line(m, "LinkKey"@, "PINLength"@, "Classic PIN length"@);
    let r15 = r14 + field_line(m, "LongTermKey"@, "Authenticated"@, "BLE authenticated"@);
    let r16 = r15 + field_line(m, "LongTermKey"@, "EncSize"@, "BLE encryption size"@);
    let r17 = r16 + key_line(m, "LinkKey"@, "Classic bond"@);
    let r18 = r17 + key_line(m, "LongTermKey"@, "BLE bond"@);
    let r19 = r18 + key_line(m, "IdentityResolvingKey"@, "Remote IRK"@);
    assert(r19 == report_spec(adapter, device, m));
    if let Some(v) = lookup(m, "DeviceID"@, "Vendor"@) {
        let x = "  Vendor ID: "@ + v;
        let f = field_line(m, "DeviceID"@, "Vendor"@, "Vendor ID"@);
        assert(f[0] == x);
        assert(f.contains(x));
        lemma_concat_contains(r9, field_line(m, "DeviceID"@, "Vendor"@, "Vendor ID"@), x);
        lemma_concat_contains(r10, field_line(m, "DeviceID"@, "Product"@, "Product ID"@), x);
        lemma_concat_contains(r11, field_line(m, "DeviceID"@, "Version"@, "Version"@), x);
        lemma_concat_contains(r12, field_line(m, "LinkKey"@, "Type"@, "Classic key type"@), x);
        lemma_concat_contains(r13, field_line(m, "LinkKey"@, "PINLength"@, "Classic PIN length"@), x);
        lemma_concat_contains(r14, field_line(m, "LongTermKey"@, "Authenticated"@, "BLE authenticated"@), x);
        lemma_concat_contains(r15, field_line(m, "LongTermKey"@, "EncSize"@, "BLE encryption size"@), x);
        lemma_concat_contains(r16, key_line(m, "LinkKey"@, "Classic bond"@), x);
        lemma_concat_contains(r17, key_line(m, "LongTermKey"@, "BLE bond"@), x);
        lemma_concat_contains(r18, key_line(m, "IdentityResolvingKey"@, "Remote IRK"@), x);
    }
}

proof fn lemma_report_field_10(adapter: Seq<char>, device: Seq<char>, m: IniView)
    ensures
        lookup(m, "DeviceID"@, "Product"@) is Some
            ==> report_spec(adapter, device, m).contains("  Product ID: "@ + lookup(m, "DeviceID"@, "Product"@).unwrap()),
{
    reveal_strlit("  ");
    reveal_strlit(": ");
    reveal_strlit("Product ID");
    reveal_strlit("  Product ID: ");
    assert("  "@ + "Product ID"@ + ": "@ =~= "  Product ID: "@);
    let r0 = seq!["Adapter: "@ + adapter + "  Device: "@ + device];
    let r1 = r0 + field_line(m, "General"@, "Name"@, "Name"@);
    let r2 = r1 + field_line(m, "General"@, "Alias"@, "Alias"@);
    let r3 = r2 + field_line(m, "General"@, "AddressType"@, "Address type"@);
    let r4 = r3 + field_line(m, "General"@, "SupportedTechnologies"@, "Technologies"@);
    let r5 = r4 + field_line(m, "General"@, "Trusted"@, "Trusted"@);
    let r6 = r5 + field_line(m, "General"@, "Class"@, "Class"@);
    let r7 = r6 + field_line(m, "General"@, "Appearance"@, "Appearance"@);
    let r8 = r7 + field_line(m, "General"@, "Services"@, "Services"@);
    let r9 = r8 + field_line(m, "DeviceID"@, "Source"@, "Device ID source"@);
    let r10 = r9 + field_line(m, "DeviceID"@, "Vendor"@, "Vendor ID"@);
    let r11 = r10 + field_line(m, "DeviceID"@, "Product"@, "Product ID"@);
    let r12 = r11 + field_line(m, "DeviceID"@, "Version"@, "Version"@);
    let r13 = r12 + field_line(m, "LinkKey"@, "Type"@, "Classic key type"@);
    let r14 = r13 + field_line(m, "LinkKey"@, "PINLength"@, "Classic PIN length"@);
    let r15 = r14 + field_line(m, "LongTermKey"@, "Authenticated"@, "BLE authenticated"@);
    let r16 = r15 + field_line(m, "LongTermKey"@, "EncSize"@, "BLE encryption size"@);
    let r17 = r16 + key_line(m, "LinkKey"@, "Classic bond"@);
    let r18 = r17 + key_line(m, "LongTermKey"@, "BLE bond"@);
    let r19 = r18 + key_line(m, "IdentityResolvingKey"@, "Remote IRK"@);
    assert(r19 == report_spec(adapter, device, m));
    if let Some(v) = lookup(m, "DeviceID"@, "Product"@) {
        let x = "  Product ID: "@ + v;
        let f = field_line(m, "DeviceID"@, "Product"@, "Product ID"@);
        assert(f[0] == x);
        assert(f.contains(x));
        lemma_concat_contains(r10, field_line(m, "DeviceID"@, "Product"@, "Product ID"@), x);
        lemma_concat_contains(r11, field_line(m, "DeviceID"@, "Version"@, "Version"@), x);
        lemma_concat_contains(r12, field_line(m, "LinkKey"@, "Type"@, "Classic key type"@), x);
        lemma_concat_contains(r13, field_line(m, "LinkKey"@, "PINLength"@, "Classic PIN length"@), x);
        lemma_concat_contains(r14, field_line(m, "LongTermKey"@, "Authenticated"@, "BLE authenticated"@), x);
        lemma_concat_contains(r15, field_line(m, "LongTermKey"@, "EncSize"@, "BLE encryption size"@), x);
        lemma_concat_contains(r16, key_line(m, "LinkKey"@, "Classic bond"@), x);
        lemma_concat_contains(r17, key_line(m, "LongTermKey"@, "BLE bond"@), x);
        lemma_concat_contains(r18, key_line(m, "IdentityResolvingKey"@, "Remote IRK"@), x);
    }
}

proof fn lemma_report_field_11(adapter: Seq<char>, device: Seq<char>, m: IniView)
    ensures
        lookup(m, "DeviceID"@, "Version"@) is Some
            ==> report_spec(adapter, device, m).contains("  Version: "@ + lookup(m, "DeviceID"@, "Version"@).unwrap()),
{
    reveal_strlit("  ");
    reveal_strlit(": ");
    reveal_strlit("Version");
    reveal_strlit("  Version: ");
    assert("  "@ + "Version"@ + ": "@ =~= "  Version: "@);
    let r0 = seq!["Adapter: "@ + adapter + "  Device: "@ + device];
    let r1 = r0 + field_line(m, "General"@, "Name"@, "Name"@);
    let r2 = r1 + field_line(m, "General"@, "Alias"@, "Alias"@);
    let r3 = r2 + field_line(m, "General"@, "AddressType"@, "Address type"@);
    let r4 = r3 + field_line(m, "General"@, "SupportedTechnologies"@, "Technologies"@);
    let r5 = r4 + field_line(m, "General"@, "Trusted"@, "Trusted"@);
    let r6 = r5 + field_line(m, "General"@, "Class"@, "Class"@);
    let r7 = r6 + field_line(m, "General"@, "Appearance"@, "Appearance"@);
    let r8 = r7 + field_line(m, "General"@, "Services"@, "Services"@);
    let r9 = r8 + field_line(m, "DeviceID"@, "Source"@, "Device ID source"@);
    let r10 = r9 + field_line(m, "DeviceID"@, "Vendor"@, "Vendor ID"@);
    let r11 = r10 + field_line(m, "DeviceID"@, "Product"@, "Product ID"@);
    let r12 = r11 + field_line(m, "DeviceID"@, "Version"@, "Version"@);
    let r13 = r12 + field_line(m, "LinkKey"@, "Type"@, "Classic key type"@);
    let r14 = r13 + field_line(m, "LinkKey"@, "PINLength"@, "Classic PIN length"@);
    let r15 = r14 + field_line(m, "LongTermKey"@, "Authenticated"@, "BLE authenticated"@);
    let r16 = r15 + field_line(m, "LongTermKey"@, "EncSize"@, "BLE encryption size"@);
    let r17 = r16 + key_line(m, "LinkKey"@, "Classic bond"@);
    let r18 = r17 + key_line(m, "LongTermKey"@, "BLE bond"@);
    let r19 = r18 + key_line(m, "IdentityResolvingKey"@, "Remote IRK"@);
    assert(r19 == report_spec(adapter, device, m));
    if let Some(v) = lookup(m, "DeviceID"@, "Version"@) {
        let x = "  Version: "@ + v;
        let f = field_line(m, "DeviceID"@, "Version"@, "Version"@);
        assert(f[0] == x);
        assert(f.contains(x));
        lemma_concat_contains(r11, field_line(m, "DeviceID"@, "Version"@, "Version"@), x);
        lemma_concat_contains(r12, field_line(m, "LinkKey"@, "Type"@, "Classic key type"@), x);
        lemma_concat_contains(r13, field_line(m, "LinkKey"@, "PINLength"@, "Classic PIN length"@), x);
        lemma_concat_contains(r14, field_line(m, "LongTermKey"@, "Authenticated"@, "BLE authenticated"@), x);
        lemma_concat_contains(r15, field_line(m, "LongTermKey"@, "EncSize"@, "BLE encryption size"@), x);
        lemma_concat_contains(r16, key_line(m, "LinkKey"@, "Classic bond"@), x);
        lemma_concat_contains(r17, key_line(m, "LongTermKey"@, "BLE bond"@), x);
        lemma_concat_contains(r18, key_line(m, "IdentityResolvingKey"@, "Remote IRK"@), x);
    }
}

proof fn lemma_report_field_12(adapter: Seq<char>, device: Seq<char>, m: IniView)
    ensures
        lookup(m, "LinkKey"@, "Type"@) is Some
            ==> report_spec(adapter, device, m).contains("  Classic key type: "@ + lookup(m, "LinkKey"@, "Type"@).unwrap()),
{
    reveal_strlit("  ");
    reveal_strlit(": ");
    reveal_strlit("Classic key type");
    reveal_strlit("  Classic key type: ");
    assert("  "@ + "Classic key type"@ + ": "@ =~= "  Classic key type: "@);
    let r0 = seq!["Adapter: "@ + adapter + "  Device: "@ + device];
    let r1 = r0 + field_line(m, "General"@, "Name"@, "Name"@);
    let r2 = r1 + field_line(m, "General"@, "Alias"@, "Alias"@);
    let r3 = r2 + field_line(m, "General"@, "AddressType"@, "Address type"@);
    let r4 = r3 + field_line(m, "General"@, "SupportedTechnologies"@, "Technologies"@);
    let r5 = r4 + field_line(m, "General"@, "Trusted"@, "Trusted"@);
    let r6 = r5 + field_line(m, "General"@, "Class"@, "Class"@);
    let r7 = r6 + field_line(m, "General"@, "Appearance"@, "Appearance"@);
    let r8 = r7 + field_line(m, "General"@, "Services"@, "Services"@);
    let r9 = r8 + field_line(m, "DeviceID"@, "Source"@, "Device ID source"@);
    let r10 = r9 + field_line(m, "DeviceID"@, "Vendor"@, "Vendor ID"@);
    let r11 = r10 + field_line(m, "DeviceID"@, "Product"@, "Product ID"@);
    let r12 = r11 + field_line(m, "DeviceID"@, "Version"@, "Version"@);
    let r13 = r12 + field_line(m, "LinkKey"@, "Type"@, "Classic key type"@);
    let r14 = r13 + field_line(m, "LinkKey"@, "PINLength"@, "Classic PIN length"@);
    let r15 = r14 + field_line(m, "LongTermKey"@, "Authenticated"@, "BLE authenticated"@);
    let r16 = r15 + field_line(m, "LongTermKey"@, "EncSize"@, "BLE encryption size"@);
    let r17 = r16 + key_line(m, "LinkKey"@, "Classic bond"@);
    let r18 = r17 + key_line(m, "LongTermKey"@, "BLE bond"@);
    let r19 = r18 + key_line(m, "IdentityResolvingKey"@, "Remote IRK"@);
    assert(r19 == report_spec(adapter, device, m));
    if let Some(v) = lookup(m, "LinkKey"@, "Type"@) {
        let x = "  Classic key type: "@ + v;
        let f = field_line(m, "LinkKey"@, "Type"@, "Classic key type"@);
        assert(f[0] == x);
        assert(f.contains(x));
        lemma_concat_contains(r12, field_line(m, "LinkKey"@, "Type"@, "Classic key type"@), x);
        lemma_concat_contains(r13, field_line(m, "LinkKey"@, "PINLength"@, "Classic PIN length"@), x);
        lemma_concat_contains(r14, field_line(m, "LongTermKey"@, "Authenticated"@, "BLE authenticated"@), x);
        lemma_concat_contains(r15, field_line(m, "LongTermKey"@, "EncSize"@, "BLE encryption size"@), x);
        lemma_concat_contains(r16, key_line(m, "LinkKey"@, "Classic bond"@), x);
        lemma_concat_contains(r17, key_line(m, "LongTermKey"@, "BLE bond"@), x);
        lemma_concat_contains(r18, key_line(m, "IdentityResolvingKey"@, "Remote IRK"@), x);
    }
}

proof fn lemma_report_field_13(adapter: Seq<char>, device: Seq<char>, m: IniView)
    ensures
        lookup(m, "LinkKey"@, "PINLength"@) is Some
            ==> report_spec(adapter, device, m).contains("  Classic PIN length: "@ + lookup(m, "LinkKey"@, "PINLength"@).unwrap()),
{
    reveal_strlit("  ");
    reveal_strlit(": ");
    reveal_strlit("Classic PIN length");
    reveal_strlit("  Classic PIN length: ");
    assert("  "@ + "Classic PIN length"@ + ": "@ =~= "  Classic PIN length: "@);
    let r0 = seq!["Adapter: "@ + adapter + "  Device: "@ + device];
    let r1 = r0 + field_line(m, "General"@, "Name"@, "Name"@);
    let r2 = r1 + field_line(m, "General"@, "Alias"@, "Alias"@);
    let r3 = r2 + field_line(m, "General"@, "AddressType"@, "Address type"@);
    let r4 = r3 + field_line(m, "General"@, "SupportedTechnologies"@, "Technologies"@);
    let r5 = r4 + field_line(m, "General"@, "Trusted"@, "Trusted"@);
    let r6 = r5 + field_line(m, "General"@, "Class"@, "Class"@);
    let r7 = r6 + field_line(m, "General"@, "Appearance"@, "Appearance"@);
    let r8 = r7 + field_line(m, "General"@, "Services"@, "Services"@);
    let r9 = r8 + field_line(m, "DeviceID"@, "Source"@, "Device ID source"@);
    let r10 = r9 + field_line(m, "DeviceID"@, "Vendor"@, "Vendor ID"@);
    let r11 = r10 + field_line(m, "DeviceID"@, "Product"@, "Product ID"@);
    let r12 = r11 + field_line(m, "DeviceID"@, "Version"@, "Version"@);
    let r13 = r12 + field_line(m, "LinkKey"@, "Type"@, "Classic key type"@);
    let r14 = r13 + field_line(m, "LinkKey"@, "PINLength"@, "Classic PIN length"@);
    let r15 = r14 + field_line(m, "LongTermKey"@, "Authenticated"@, "BLE authenticated"@);
    let r16 = r15 + field_line(m, "LongTermKey"@, "EncSize"@, "BLE encryption size"@);
    let r17 = r16 + key_line(m, "LinkKey"@, "Classic bond"@);
    let r18 = r17 + key_line(m, "LongTermKey"@, "BLE bond"@);
    let r19 = r18 + key_line(m, "IdentityResolvingKey"@, "Remote IRK"@);
    assert(r19 == report_spec(adapter, device, m));
    if let Some(v) = lookup(m, "LinkKey"@, "PINLength"@) {
        let x = "  Classic PIN length: "@ + v;
        let f = field_line(m, "LinkKey"@, "PINLength"@, "Classic PIN length"@);
        assert(f[0] == x);
        assert(f.contains(x));
        lemma_concat_contains(r13, field_line(m, "LinkKey"@, "PINLength"@, "Classic PIN length"@), x);
        lemma_concat_contains(r14, field_line(m, "LongTermKey"@, "Authenticated"@, "BLE authenticated"@), x);
        lemma_concat_contains(r15, field_line(m, "LongTermKey"@, "EncSize"@, "BLE encryption size"@), x);
        lemma_concat_contains(r16, key_line(m, "LinkKey"@, "Classic bond"@), x);
        lemma_concat_contains(r17, key_line(m, "LongTermKey"@, "BLE bond"@), x);
        lemma_concat_contains(r18, key_line(m, "IdentityResolvingKey"@, "Remote IRK"@), x);
    }
}

proof fn lemma_report_field_14(adapter: Seq<char>, device: Seq<char>, m: IniView)
    ensures
        lookup(m, "LongTermKey"@, "Authenticated"@) is Some
            ==> report_spec(adapter, device, m).contains("  BLE authenticated: "@ + lookup(m, "LongTermKey"@, "Authenticated"@).unwrap()),
{
    reveal_strlit("  ");
    reveal_strlit(": ");
    reveal_strlit("BLE authenticated");
    reveal_strlit("  BLE authenticated: ");
    assert("  "@ + "BLE authenticated"@ + ": "@ =~= "  BLE authenticated: "@);
    let r0 = seq!["Adapter: "@ + adapter + "  Device: "@ + device];
    let r1 = r0 + field_line(m, "General"@, "Name"@, "Name"@);
    let r2 = r1 + field_line(m, "General"@, "Alias"@, "Alias"@);
    let r3 = r2 + field_line(m, "General"@, "AddressType"@, "Address type"@);
    let r4 = r3 + field_line(m, "General"@, "SupportedTechnologies"@, "Technologies"@);
    let r5 = r4 + field_line(m, "General"@, "Trusted"@, "Trusted"@);
    let r6 = r5 + field_line(m, "General"@, "Class"@, "Class"@);
    let r7 = r6 + field_line(m, "General"@, "Appearance"@, "Appearance"@);
    let r8 = r7 + field_line(m, "General"@, "Services"@, "Services"@);
    let r9 = r8 + field_line(m, "DeviceID"@, "Source"@, "Device ID source"@);
    let r10 = r9 + field_line(m, "DeviceID"@, "Vendor"@, "Vendor ID"@);
    let r11 = r10 + field_line(m, "DeviceID"@, "Product"@, "Product ID"@);
    let r12 = r11 + field_line(m, "DeviceID"@, "Version"@, "Version"@);
    let r13 = r12 + field_line(m, "LinkKey"@, "Type"@, "Classic key type"@);
    let r14 = r13 + field_line(m, "LinkKey"@, "PINLength"@, "Classic PIN length"@);
    let r15 = r14 + field_line(m, "LongTermKey"@, "Authenticated"@, "BLE authenticated"@);
    let r16 = r15 + field_line(m, "LongTermKey"@, "EncSize"@, "BLE encryption size"@);
    let r17 = r16 + key_line(m, "LinkKey"@, "Classic bond"@);
    let r18 = r17 + key_line(m, "LongTermKey"@, "BLE bond"@);
    let r19 = r18 + key_line(m, "IdentityResolvingKey"@, "Remote IRK"@);
    assert(r19 == report_spec(adapter, device, m));
    if let Some(v) = lookup(m, "LongTermKey"@, "Authenticated"@) {
        let x = "  BLE authenticated: "@ + v;
        let f = field_line(m, "LongTermKey"@, "Authenticated"@, "BLE authenticated"@);
        assert(f[0] == x);
        assert(f.contains(x));
        lemma_concat_contains(r14, field_line(m, "LongTermKey"@, "Authenticated"@, "BLE authenticated"@), x);
        lemma_concat_contains(r15, field_line(m, "LongTermKey"@, "EncSize"@, "BLE encryption size"@), x);
        lemma_concat_contains(r16, key_line(m, "LinkKey"@, "Classic bond"@), x);
        lemma_concat_contains(r17, key_line(m, "LongTermKey"@, "BLE bond"@), x);
        lemma_concat_contains(r18, key_line(m, "IdentityResolvingKey"@, "Remote IRK"@), x);
    }
}

proof fn lemma_report_field_15(adapter: Seq<char>, device: Seq<char>, m: IniView)
    ensures
        lookup(m, "LongTermKey"@, "EncSize"@) is Some
            ==> report_spec(adapter, device, m).contains("  BLE encryption size: "@ + lookup(m, "LongTermKey"@, "EncSize"@).unwrap()),
{
    reveal_strlit("  ");
    reveal_strlit(": ");
    reveal_strlit("BLE encryption size");
    reveal_strlit("  BLE encryption size: ");
    assert("  "@ + "BLE encryption size"@ + ": "@ =~= "  BLE encryption size: "@);
    let r0 = seq!["Adapter: "@ + adapter + "  Device: "@ + device];
    let r1 = r0 + field_line(m, "General"@, "Name"@, "Name"@);
    let r2 = r1 + field_line(m, "General"@, "Alias"@, "Alias"@);
    let r3 = r2 + field_line(m, "General"@, "AddressType"@, "Address type"@);
    let r4 = r3 + field_line(m, "General"@, "SupportedTechnologies"@, "Technologies"@);
    let r5 = r4 + field_line(m, "General"@, "Trusted"@, "Trusted"@);
    let r6 = r5 + field_line(m, "General"@, "Class"@, "Class"@);
    let r7 = r6 + field_line(m, "General"@, "Appearance"@, "Appearance"@);
    let r8 = r7 + field_line(m, "General"@, "Services"@, "Services"@);
    let r9 = r8 + field_line(m, "DeviceID"@, "Source"@, "Device ID source"@);
    let r10 = r9 + field_line(m, "DeviceID"@, "Vendor"@, "Vendor ID"@);
    let r11 = r10 + field_line(m, "DeviceID"@, "Product"@, "Product ID"@);
    let r12 = r11 + field_line(m, "DeviceID"@, "Version"@, "Version"@);
    let r13 = r12 + field_line(m, "LinkKey"@, "Type"@, "Classic key type"@);
    let r14 = r13 + field_line(m, "LinkKey"@, "PINLength"@, "Classic PIN length"@);
    let r15 = r14 + field_line(m, "LongTermKey"@, "Authenticated"@, "BLE authenticated"@);
    let r16 = r15 + field_line(m, "LongTermKey"@, "EncSize"@, "BLE encryption size"@);
    let r17 = r16 + key_line(m, "LinkKey"@, "Classic bond"@);
    let r18 = r17 + key_line(m, "LongTermKey"@, "BLE bond"@);
    let r19 = r18 + key_line(m, "IdentityResolvingKey"@, "Remote IRK"@);
    assert(r19 == report_spec(adapter, device, m));
    if let Some(v) = lookup(m, "LongTermKey"@, "EncSize"@) {
        let x = "  BLE encryption size: "@ + v;
        let f = field_line(m, "LongTermKey"@, "EncSize"@, "BLE encryption size"@);
        assert(f[0] == x);
        assert(f.contains(x));
        lemma_concat_contains(r15, field_line(m, "LongTermKey"@, "EncSize"@, "BLE encryption size"@), x);
        lemma_concat_contains(r16, key_line(m, "LinkKey"@, "Classic bond"@), x);
        lemma_concat_contains(r17, key_line(m, "LongTermKey"@, "BLE bond"@), x);
        lemma_concat_contains(r18, key_line(m, "IdentityResolvingKey"@, "Remote IRK"@), x);
    }
}

/// `bls info` shows every set field of a device's key file on a line of
/// its own, `  Label: value`, under the field's label.
pub proof fn law_report_fields(adapter: Seq<char>, device: Seq<char>, m: IniView)
    ensures
        lookup(m, "General"@, "Name"@) is Some
            ==> report_spec(adapter, device, m).contains("  Name: "@ + lookup(m, "General"@, "Name"@).unwrap()),
        lookup(m, "General"@, "Alias"@) is Some
            ==> report_spec(adapter, device, m).contains("  Alias: "@ + lookup(m, "General"@, "Alias"@).unwrap()),
        lookup(m, "General"@, "AddressType"@) is Some
            ==> report_spec(adapter, device, m).contains("  Address type: "@ + lookup(m, "General"@, "AddressType"@).unwrap()),
        lookup(m, "General"@, "SupportedTechnologies"@) is Some
            ==> report_spec(adapter, device, m).contains("  Technologies: "@ + lookup(m, "General"@, "SupportedTechnologies"@).unwrap()),
        lookup(m, "General"@, "Trusted"@) is Some
            ==> report_spec(adapter, device, m).contains("  Trusted: "@ + lookup(m, "General"@, "Trusted"@).unwrap()),
        lookup(m, "General"@, "Class"@) is Some
            ==> report_spec(adapter, device, m).contains("  Class: "@ + lookup(m, "General"@, "Class"@).unwrap()),
        lookup(m, "General"@, "Appearance"@) is Some
            ==> report_spec(adapter, device, m).contains("  Appearance: "@ + lookup(m, "General"@, "Appearance"@).unwrap()),
        lookup(m, "General"@, "Services"@) is Some
            ==> report_spec(adapter, device, m).contains("  Services: "@ + lookup(m, "General"@, "Services"@).unwrap()),
        lookup(m, "DeviceID"@, "Source"@) is Some
            ==> report_spec(adapter, device, m).contains("  Device ID source: "@ + lookup(m, "DeviceID"@, "Source"@).unwrap()),
        lookup(m, "DeviceID"@, "Vendor"@) is Some
            ==> report_spec(adapter, device, m).contains("  Vendor ID: "@ + lookup(m, "DeviceID"@, "Vendor"@).unwrap()),
        lookup(m, "DeviceID"@, "Product"@) is Some
            ==> report_spec(adapter, device, m).contains("  Product ID: "@ + lookup(m, "DeviceID"@, "Product"@).unwrap()),
        lookup(m, "DeviceID"@, "Version"@) is Some
            ==> report_spec(adapter, device, m).contains("  Version: "@ + lookup(m, "DeviceID"@, "Version"@).unwrap()),
        lookup(m, "LinkKey"@, "Type"@) is Some
            ==> report_spec(adapter, device, m).contains("  Classic key type: "@ + lookup(m, "LinkKey"@, "Type"@).unwrap()),
        lookup(m, "LinkKey"@, "PINLength"@) is Some
            ==> report_spec(adapter, device, m).contains("  Classic PIN length: "@ + lookup(m, "LinkKey"@, "PINLength"@).unwrap()),
        lookup(m, "LongTermKey"@, "Authenticated"@) is Some
            ==> report_spec(adapter, device, m).contains("  BLE authenticated: "@ + lookup(m, "LongTermKey"@, "Authenticated"@).unwrap()),
        lookup(m, "LongTermKey"@, "EncSize"@) is Some
            ==> report_spec(adapter, device, m).contains("  BLE encryption size: "@ + lookup(m, "LongTermKey"@, "EncSize"@).unwrap()),
{
    lemma_report_field_0(adapter, device, m);
    lemma_report_field_1(adapter, device, m);
    lemma_report_field_2(adapter, device, m);
    lemma_report_field_3(adapter, device, m);
    lemma_report_field_4(adapter, device, m);
    lemma_report_field_5(adapter, device, m);
    lemma_report_field_6(adapter, device, m);
    lemma_report_field_7(adapter, device, m);
    lemma_report_field_8(adapter, device, m);
    lemma_report_field_9(adapter, device, m);
    lemma_report_field_10(adapter, device, m);
    lemma_report_field_11(adapter, device, m);
    lemma_report_field_12(adapter, device, m);
    lemma_report_field_13(adapter, device, m);
    lemma_report_field_14(adapter, device, m);
    lemma_report_field_15(adapter, device, m);
}

} // verus!
