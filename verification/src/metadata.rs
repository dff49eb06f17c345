//! What Windows knows about a device, written into its BlueZ `info` file.
use vstd::prelude::*;
use crate::ini::{Ini, IniView, with_entry, lookup, list_items, list_text, text_or_empty, nonempty_chars, list_text_chars};
use crate::registry::{Values, Registry, bytes, dword, bytes_spec, dword_spec, registry_name, name_spec, service_uuid, uuid_spec, hex, hex_spec};
use crate::strmap::{sorted_keys};
use crate::text::{chars_of, string_of, append_chars, decimal, decimal_chars, hex_fixed, hex_fixed_chars, lower, lower_chars, has_prefix, has_prefix_exec, skip_chars, split_chars, texts, eq_ignore_case, eq_ignore_case_exec, parse_u8, parse_u8_chars};

verus! {

/// `n` in decimal, as `to_string` writes it.
pub fn decimal_string(n: u64) -> (s: String)
    ensures
        s@ == decimal(n as nat),
{
    string_of(&decimal_chars(n))
}

/// `0x` and the last `w` lower-case hexadecimal digits of `n`.
pub fn prefixed_hex(n: u64, w: u64) -> (s: String)
    ensures
        s@ == "0x"@ + hex_fixed(n as nat, w as nat),
{
    let mut v = chars_of("0x");
    append_chars(&mut v, &hex_fixed_chars(n, w));
    string_of(&v)
}

// ----------------------------------------------------------- Classic type

/// The BlueZ Classic key type that Windows's records show, when they show one:
/// `SSP Paired` of 0 is Legacy (0); of 1, when the device's
/// `HostSupportedFeaturesMap` does not offer Secure Connections, SSP without
/// (4) or with (5) MITM protection by `SSP MITM Protected`.
pub open spec fn windows_type_spec(device: Option<&Values>, service: Option<&Values>) -> Option<u8> {
    match service {
        None => None,
        Some(s) => match dword_spec(s@, "SSP Paired"@) {
            None => None,
            Some(paired) => if paired == 0 {
                Some(0u8)
            } else if paired != 1 {
                None
            } else {
                match device {
                    None => None,
                    Some(d) => match bytes_spec(d@, "HostSupportedFeaturesMap"@, 8) {
                        None => None,
                        Some(features) => if features[0] & 0x08 != 0 {
                            None
                        } else {
                            match dword_spec(s@, "SSP MITM Protected"@) {
                                None => None,
                                Some(mitm) => Some(if mitm == 0 { 4u8 } else { 5u8 }),
                            }
                        },
                    },
                }
            },
        },
    }
}

/// Reads the Classic key type from Windows's device and service records.
pub fn windows_classic_type(device: Option<&Values>, service: Option<&Values>) -> (r: Option<u8>)
    requires
        device matches Some(d) ==> d.wf(),
        service matches Some(s) ==> s.wf(),
    ensures
        r == windows_type_spec(device, service),
{
    let s = match service {
        Some(s) => s,
        None => {
            return None;
        },
    };
    let paired = match dword(s, "SSP Paired") {
        Some(p) => p,
        None => {
            return None;
        },
    };
    if paired == 0 {
        return Some(0);
    }
    if paired != 1 {
        return None;
    }
    let d = match device {
        Some(d) => d,
        None => {
            return None;
        },
    };
    let features = match bytes(d, "HostSupportedFeaturesMap", 8) {
        Some(f) => f,
        None => {
            return None;
        },
    };
    if features[0] & 0x08 != 0 {
        return None;
    }
    let mitm = match dword(s, "SSP MITM Protected") {
        Some(m) => m,
        None => {
            return None;
        },
    };
    Some(
        if mitm == 0 {
            4
        } else {
            5
        },
    )
}

/// The Classic key type to write: an override first, then what Windows shows,
/// then the existing `[LinkKey] Type`, then 0 for an existing `[LinkKey] Key`
/// (BlueZ's reading of a missing type), else the default.
pub open spec fn classic_type_spec(m: IniView, override_type: Option<u8>, windows_type: Option<u8>, default_type: u8) -> u8 {
    match override_type {
        Some(t) => t,
        None => match windows_type {
            Some(t) => t,
            None => match lookup(m, "LinkKey"@, "Type"@) {
                Some(s) if parse_u8(s) is Some => parse_u8(s).unwrap(),
                _ => if lookup(m, "LinkKey"@, "Key"@) is Some {
                    0
                } else {
                    default_type
                },
            },
        },
    }
}

/// Chooses the Classic key type to write (see `classic_type_spec`).
pub fn classic_type(ini: &Ini, override_type: Option<u8>, windows_type: Option<u8>, default_type: u8) -> (r: u8)
    requires
        ini.wf(),
    ensures
        r == classic_type_spec(ini@, override_type, windows_type, default_type),
{
    if let Some(t) = override_type {
        return t;
    }
    if let Some(t) = windows_type {
        return t;
    }
    if let Some(s) = ini.get("LinkKey", "Type") {
        if let Some(t) = parse_u8_chars(&chars_of(s)) {
            return t;
        }
    }
    if ini.get("LinkKey", "Key").is_some() {
        0
    } else {
        default_type
    }
}

// -------------------------------------------------------------- LE keys

/// One long-term key group written with the key and its parameters.
pub open spec fn with_ltk_group(
    m: IniView,
    g: Seq<char>,
    key: Seq<u8>,
    enc_size: u32,
    ediv: u32,
    rand: u64,
    authenticated: bool,
) -> IniView {
    let m1 = with_entry(m, g, "Key"@, hex_spec(key));
    let m2 = with_entry(m1, g, "Authenticated"@, if authenticated { "1"@ } else { "0"@ });
    let m3 = with_entry(m2, g, "EncSize"@, decimal(enc_size as nat));
    let m4 = with_entry(m3, g, "EDiv"@, decimal(ediv as nat));
    with_entry(m4, g, "Rand"@, decimal(rand as nat))
}

/// A long-term key written as BlueZ stores it: to `[LongTermKey]`, and also
/// to the peripheral-role groups when `EDiv` and `Rand` are both zero (a
/// Secure Connections key serves both roles).
pub open spec fn with_ltk(
    m: IniView,
    key: Seq<u8>,
    enc_size: u32,
    ediv: u32,
    rand: u64,
    authenticated: bool,
) -> IniView {
    let m1 = with_ltk_group(m, "LongTermKey"@, key, enc_size, ediv, rand, authenticated);
    if ediv == 0 && rand == 0 {
        let m2 = with_ltk_group(m1, "PeripheralLongTermKey"@, key, enc_size, ediv, rand, authenticated);
        with_ltk_group(m2, "SlaveLongTermKey"@, key, enc_size, ediv, rand, authenticated)
    } else {
        m1
    }
}

fn set_ltk_group(ini: &mut Ini, g: &str, key: &str, enc_size: &str, ediv: &str, rand: &str, authenticated: bool)
    requires
        old(ini).wf(),
    ensures
        final(ini).wf(),
        final(ini)@ == {
            let m1 = with_entry(old(ini)@, g@, "Key"@, key@);
            let m2 = with_entry(m1, g@, "Authenticated"@, if authenticated { "1"@ } else { "0"@ });
            let m3 = with_entry(m2, g@, "EncSize"@, enc_size@);
            let m4 = with_entry(m3, g@, "EDiv"@, ediv@);
            with_entry(m4, g@, "Rand"@, rand@)
        },
{
    ini.set(g, "Key", key);
    ini.set(
        g,
        "Authenticated",
        if authenticated {
            "1"
        } else {
            "0"
        },
    );
    ini.set(g, "EncSize", enc_size);
    ini.set(g, "EDiv", ediv);
    ini.set(g, "Rand", rand);
}

/// Writes a long-term key (see `with_ltk`).
pub fn set_ltk(ini: &mut Ini, key: &[u8], enc_size: u32, ediv: u32, rand: u64, authenticated: bool)
    requires
        old(ini).wf(),
    ensures
        final(ini).wf(),
        final(ini)@ == with_ltk(old(ini)@, key@, enc_size, ediv, rand, authenticated),
{
    let k = hex(key);
    let e = decimal_string(enc_size as u64);
    let d = decimal_string(ediv as u64);
    let r = decimal_string(rand);
    set_ltk_group(ini, "LongTermKey", k.as_str(), e.as_str(), d.as_str(), r.as_str(), authenticated);
    if ediv == 0 && rand == 0 {
        set_ltk_group(ini, "PeripheralLongTermKey", k.as_str(), e.as_str(), d.as_str(), r.as_str(), authenticated);
        set_ltk_group(ini, "SlaveLongTermKey", k.as_str(), e.as_str(), d.as_str(), r.as_str(), authenticated);
    }
}

// ------------------------------------------------------ device metadata

/// The name to write: for an LE device its `LEName`, else its `Name`.
pub open spec fn device_name(d: &Values, is_le: bool) -> Option<Seq<char>> {
    if is_le {
        match name_spec(d@, "LEName"@) {
            Some(n) => Some(n),
            None => name_spec(d@, "Name"@),
        }
    } else {
        name_spec(d@, "Name"@)
    }
}

/// `[General] Name` from the device's record, when it has a valid one.
pub open spec fn with_name(m: IniView, d: &Values, is_le: bool) -> IniView {
    match device_name(d, is_le) {
        Some(n) => with_entry(m, "General"@, "Name"@, n),
        None => m,
    }
}

/// `[General] Appearance` (LE, from `LEAppearance`, 1 to 0xffff) or
/// `[General] Class` (Classic, from `COD`, 1 to 0xffffff).
pub open spec fn with_look(m: IniView, d: &Values, is_le: bool) -> IniView {
    if is_le {
        match dword_spec(d@, "LEAppearance"@) {
            Some(v) => if 0 < v <= 0xffff {
                with_entry(m, "General"@, "Appearance"@, "0x"@ + hex_fixed(v as nat, 4))
            } else {
                m
            },
            None => m,
        }
    } else {
        match dword_spec(d@, "COD"@) {
            Some(v) => if 0 < v <= 0xffffff {
                with_entry(m, "General"@, "Class"@, "0x"@ + hex_fixed(v as nat, 6))
            } else {
                m
            },
            None => m,
        }
    }
}

/// The device ID (`VIDType` 1 or 2, `VID`, `PID`, `Version` up to 0xffff),
/// when all four are present and valid.
pub open spec fn device_id(d: &Values) -> Option<(u32, u32, u32, u32)> {
    match (
        dword_spec(d@, "VIDType"@),
        dword_spec(d@, "VID"@),
        dword_spec(d@, "PID"@),
        dword_spec(d@, "Version"@),
    ) {
        (Some(s), Some(v), Some(p), Some(r)) => if (s == 1 || s == 2) && v <= 0xffff && p <= 0xffff
            && r <= 0xffff {
            Some((s, v, p, r))
        } else {
            None
        },
        _ => None,
    }
}

/// `[DeviceID]` from the device ID, when it is valid.
pub open spec fn with_device_id(m: IniView, d: &Values) -> IniView {
    match device_id(d) {
        Some((s, v, p, r)) => {
            let m1 = with_entry(m, "DeviceID"@, "Source"@, decimal(s as nat));
            let m2 = with_entry(m1, "DeviceID"@, "Vendor"@, decimal(v as nat));
            let m3 = with_entry(m2, "DeviceID"@, "Product"@, decimal(p as nat));
            with_entry(m3, "DeviceID"@, "Version"@, decimal(r as nat))
        },
        None => m,
    }
}

/// Name, class or appearance, and device ID from the device's record.
pub open spec fn with_device_info(m: IniView, device: Option<&Values>, is_le: bool) -> IniView {
    match device {
        Some(d) => with_device_id(with_look(with_name(m, d, is_le), d, is_le), d),
        None => m,
    }
}

/// The prefix of the registry paths of a device's service keys.
pub open spec fn service_prefix(services_path: Seq<char>) -> Seq<char> {
    lower(services_path).push('\\')
}

/// Whether `items` holds `u` up to ASCII case.
pub open spec fn holds_ignoring_case(items: Seq<Seq<char>>, u: Seq<char>) -> bool {
    exists|i: int| 0 <= i < items.len() && eq_ignore_case(#[trigger] items[i], u)
}

/// `items` with the service UUIDs of the keys `paths` under `prefix`
/// appended in order, each unless already listed (ignoring case).
pub open spec fn merge_services(items: Seq<Seq<char>>, paths: Seq<Seq<char>>, prefix: Seq<char>) -> Seq<Seq<char>>
    decreases paths.len(),
{
    if paths.len() == 0 {
        items
    } else {
        let l = merge_services(items, paths.drop_last(), prefix);
        let p = paths.last();
        if has_prefix(p, prefix) {
            match uuid_spec(p.skip(prefix.len() as int)) {
                Some(u) => if holds_ignoring_case(l, u) {
                    l
                } else {
                    l.push(u)
                },
                None => l,
            }
        } else {
            l
        }
    }
}

/// `[General] Services` with the device's Windows service UUIDs merged in;
/// unchanged when none is new.
pub open spec fn with_services(m: IniView, paths: Seq<Seq<char>>, services_path: Seq<char>) -> IniView {
    let items = list_items(text_or_empty(m, "General"@, "Services"@));
    let merged = merge_services(items, paths, service_prefix(services_path));
    if merged.len() > items.len() {
        with_entry(m, "General"@, "Services"@, list_text(merged))
    } else {
        m
    }
}

/// Whether `items` holds `u` up to ASCII case.
fn holds_ignoring_case_exec(items: &Vec<Vec<char>>, u: &Vec<char>) -> (r: bool)
    ensures
        r == holds_ignoring_case(texts(items@), u@),
{
    for i in 0..items.len()
        invariant
            forall|j: int| 0 <= j < i ==> !eq_ignore_case(#[trigger] items@[j]@, u@),
    {
        if eq_ignore_case_exec(&items[i], u) {
            assert(eq_ignore_case(texts(items@)[i as int], u@));
            return true;
        }
    }
    assert forall|j: int| 0 <= j < texts(items@).len() implies !eq_ignore_case(#[trigger] texts(items@)[j], u@) by {
        assert(texts(items@)[j] == items@[j]@);
    }
    false
}

fn set_name_and_look(ini: &mut Ini, d: &Values, is_le: bool)
    requires
        old(ini).wf(),
        d.wf(),
    ensures
        final(ini).wf(),
        final(ini)@ == with_look(with_name(old(ini)@, d, is_le), d, is_le),
{
    let name = if is_le {
        match registry_name(d, "LEName") {
            Some(n) => Some(n),
            None => registry_name(d, "Name"),
        }
    } else {
        registry_name(d, "Name")
    };
    if let Some(n) = name {
        ini.set("General", "Name", n.as_str());
    }
    if is_le {
        if let Some(v) = dword(d, "LEAppearance") {
            if v > 0 && v <= 0xffff {
                let text = prefixed_hex(v as u64, 4);
                ini.set("General", "Appearance", text.as_str());
            }
        }
    } else if let Some(v) = dword(d, "COD") {
        if v > 0 && v <= 0xffffff {
            let text = prefixed_hex(v as u64, 6);
            ini.set("General", "Class", text.as_str());
        }
    }
}

fn set_device_id(ini: &mut Ini, d: &Values)
    requires
        old(ini).wf(),
        d.wf(),
    ensures
        final(ini).wf(),
        final(ini)@ == with_device_id(old(ini)@, d),
{
    match (dword(d, "VIDType"), dword(d, "VID"), dword(d, "PID"), dword(d, "Version")) {
        (Some(s), Some(v), Some(p), Some(r)) => {
            if (s == 1 || s == 2) && v <= 0xffff && p <= 0xffff && r <= 0xffff {
                let st = decimal_string(s as u64);
                let vt = decimal_string(v as u64);
                let pt = decimal_string(p as u64);
                let rt = decimal_string(r as u64);
                ini.set("DeviceID", "Source", st.as_str());
                ini.set("DeviceID", "Vendor", vt.as_str());
                ini.set("DeviceID", "Product", pt.as_str());
                ini.set("DeviceID", "Version", rt.as_str());
            }
        },
        _ => {},
    }
}

/// Writes what Windows knows of a device into its BlueZ `info` file: name,
/// class or appearance and device ID from `device` when valid (invalid or
/// missing values leave the file as it was), and the service UUIDs of the
/// `registry` keys directly under `services_path` merged into
/// `[General] Services`. Nothing else is touched.
pub fn apply_windows_metadata(
    ini: &mut Ini,
    device: Option<&Values>,
    registry: &Registry,
    services_path: &str,
    is_le: bool,
)
    requires
        old(ini).wf(),
        device matches Some(d) ==> d.wf(),
        registry.wf(),
    ensures
        final(ini).wf(),
        final(ini)@ == with_services(
            with_device_info(old(ini)@, device, is_le),
            sorted_keys(registry@),
            services_path@,
        ),
{
    if let Some(d) = device {
        set_name_and_look(ini, d, is_le);
        set_device_id(ini, d);
    }
    let ghost m = ini@;
    let mut prefix = lower_chars(&chars_of(services_path));
    prefix.push('\\');
    let current: Vec<char> = match ini.get("General", "Services") {
        Some(old) => chars_of(old),
        None => Vec::new(),
    };
    let mut uuids = nonempty_chars(&split_chars(&current, ';'));
    let ghost items = texts(uuids@);
    assert(items == list_items(text_or_empty(m, "General"@, "Services"@)));
    proof {
        registry.lemma_key_seq();
    }
    let ghost paths = registry.key_seq();
    let base_len = uuids.len();
    let n = registry.len();
    for i in 0..n
        invariant
            n == paths.len(),
            base_len == items.len(),
            paths == registry.key_seq(),
            prefix@ == service_prefix(services_path@),
            texts(uuids@) == merge_services(items, paths.take(i as int), prefix@),
    {
        let path = chars_of(registry.key_at(i).as_str());
        assert(paths.take(i + 1).drop_last() =~= paths.take(i as int));
        assert(paths.take(i + 1).last() == path@);
        if has_prefix_exec(&path, &prefix) {
            let raw = string_of(&skip_chars(&path, prefix.len()));
            if let Some(u) = service_uuid(raw.as_str()) {
                let uc = chars_of(u.as_str());
                if !holds_ignoring_case_exec(&uuids, &uc) {
                    uuids.push(uc);
                    assert(texts(uuids@) =~= merge_services(items, paths.take(i as int), prefix@).push(u@));
                }
            }
        }
    }
    assert(paths.take(n as int) =~= paths);
    if uuids.len() > base_len {
        let text = string_of(&list_text_chars(&uuids));
        ini.set("General", "Services", text.as_str());
    }
}

/// Windows's SSP records give the Classic key type: `SSP Paired` 0 is a
/// legacy key (0). `SSP Paired` 1 is an SSP key, 4 without and 5 with MITM
/// protection, when the device's 8-byte `HostSupportedFeaturesMap` shows no
/// Secure Connections support (bit 3 of its first byte), whatever its other
/// bits; with that bit set the type is unknown.
pub proof fn law_windows_classic_type(d: &Values, s: &Values)
    ensures
        windows_type_spec(Some(d), None) is None,
        dword_spec(s@, "SSP Paired"@) is None ==> windows_type_spec(Some(d), Some(s)) is None,
        dword_spec(s@, "SSP Paired"@) == Some(0u32) ==> windows_type_spec(Some(d), Some(s)) == Some(0u8),
        dword_spec(s@, "SSP Paired"@) == Some(1u32) && bytes_spec(d@, "HostSupportedFeaturesMap"@, 8) is Some
            && (bytes_spec(d@, "HostSupportedFeaturesMap"@, 8).unwrap()[0] / 8) % 2 == 0
            && dword_spec(s@, "SSP MITM Protected"@) is Some
            ==> windows_type_spec(Some(d), Some(s)) == Some(
            if dword_spec(s@, "SSP MITM Protected"@).unwrap() == 0 { 4u8 } else { 5u8 },
        ),
        dword_spec(s@, "SSP Paired"@) == Some(1u32) && bytes_spec(d@, "HostSupportedFeaturesMap"@, 8) is Some
            && (bytes_spec(d@, "HostSupportedFeaturesMap"@, 8).unwrap()[0] / 8) % 2 == 1
            ==> windows_type_spec(Some(d), Some(s)) is None,
{
    if let Some(f) = bytes_spec(d@, "HostSupportedFeaturesMap"@, 8) {
        let b = f[0];
        assert((b & 0x08u8 != 0) == ((b / 8) % 2 == 1)) by (bit_vector);
    }
}

} // verus!
