//! Reading the Windows `BTHPORT` pairing records and turning each one into
//! BlueZ key-file updates.
use vstd::prelude::*;
use crate::address::{mac, mac_spec, without_colons, is_canonical_mac, law_mac_canonical};
use crate::ini::{Ini, IniView, with_entry, lookup, with_technology, with_trust};
use crate::metadata::{
    apply_windows_metadata, with_services, with_device_info, windows_classic_type,
    windows_type_spec, classic_type, classic_type_spec, set_ltk, with_ltk, decimal_string,
};
use crate::options::Options;
use crate::registry::{
    Values, Registry, RegValue, registry_wf, bytes, dword, bytes_spec, dword_spec, hex, hex_spec,
    hive_path, hive_key_path, le_bytes, le_value,
};
use crate::strmap::{StrMap, sorted_keys};
use crate::text::{chars_of, string_of, append_chars, decimal, decimal_fixed, decimal_fixed_chars, lower, lower_chars, has_prefix, has_prefix_exec, skip_chars, contains_char, parse_u8, parse_u8_chars, is_hex_digit, upper};

verus! {

/// The control set Windows boots with: the first `Current` value among the
/// keys read under `Select`, in ascending key order.
pub open spec fn find_current(m: Map<Seq<char>, StrMap<RegValue>>, ks: Seq<Seq<char>>) -> Option<u32>
    decreases ks.len(),
{
    if ks.len() == 0 {
        None
    } else {
        match dword_spec(m[ks[0]]@, "Current"@) {
            Some(v) => Some(v),
            None => find_current(m, ks.drop_first()),
        }
    }
}

/// The current control set's number, from 1 to 999.
pub open spec fn control_set_spec(select: &Registry) -> Result<u32, Seq<char>> {
    match find_current(select@, sorted_keys(select@)) {
        None => Err("SYSTEM hive has no Select\\Current"@),
        Some(v) => if v == 0 || v > 999 {
            Err("invalid Windows CurrentControlSet"@)
        } else {
            Ok(v)
        },
    }
}

/// Finds the current control set in the keys read under `Select`.
pub fn current_control_set(select: &Registry) -> (r: Result<u32, String>)
    requires
        registry_wf(select),
    ensures
        match r {
            Ok(v) => control_set_spec(select) == Ok::<u32, Seq<char>>(v),
            Err(e) => control_set_spec(select) == Err::<u32, Seq<char>>(e@),
        },
{
    proof {
        select.lemma_key_seq();
    }
    let ghost ks = select.key_seq();
    let n = select.len();
    let mut i: usize = 0;
    assert(ks.skip(0) =~= ks);
    while i < n
        invariant
            n == ks.len(),
            ks == select.key_seq(),
            ks == sorted_keys(select@),
            select.laid_out(),
            registry_wf(select),
            i <= n,
            find_current(select@, ks) == find_current(select@, ks.skip(i as int)),
        decreases n - i,
    {
        let values = select.value_at(i);
        let ghost rest = ks.skip(i as int);
        assert(rest[0] == ks[i as int]);
        assert(select@.contains_key(ks[i as int]));
        assert(select@[ks[i as int]] == *values);
        assert(rest.drop_first() =~= ks.skip(i + 1));
        if let Some(v) = dword(values, "Current") {
            assert(find_current(select@, ks) == Some(v));
            if v == 0 || v > 999 {
                return Err(String::from_str("invalid Windows CurrentControlSet"));
            } else {
                return Ok(v);
            }
        }
        i = i + 1;
    }
    assert(ks.skip(i as int) =~= Seq::<Seq<char>>::empty());
    Err(String::from_str("SYSTEM hive has no Select\\Current"))
}

/// The hive key `ControlSetNNN\Services\BTHPORT\Parameters\<leaf>`.
pub open spec fn bthport_key(current: u32, leaf: Seq<char>) -> Seq<char> {
    "ControlSet"@ + decimal_fixed(current as nat, 3) + "\\Services\\BTHPORT\\Parameters\\"@ + leaf
}

/// Where the pairing records (`Keys`) and device records (`Devices`) of a
/// control set are read from, and the paths their keys are reported under.
pub struct BthportPaths {
    pub keys_key: String,
    pub keys_prefix: String,
    pub devices_key: String,
    pub devices_prefix: String,
}

fn bthport_key_exec(current: u32, leaf: &str) -> (r: String)
    ensures
        r@ == bthport_key(current, leaf@),
{
    let mut v = chars_of("ControlSet");
    append_chars(&mut v, &decimal_fixed_chars(current as u64, 3));
    append_chars(&mut v, &chars_of("\\Services\\BTHPORT\\Parameters\\"));
    append_chars(&mut v, &chars_of(leaf));
    string_of(&v)
}

/// The `BTHPORT` paths of control set `current`.
pub fn bthport_paths(current: u32) -> (r: BthportPaths)
    ensures
        r.keys_key@ == bthport_key(current, "Keys"@),
        r.keys_prefix@ == hive_path(bthport_key(current, "Keys"@)),
        r.devices_key@ == bthport_key(current, "Devices"@),
        r.devices_prefix@ == hive_path(bthport_key(current, "Devices"@)),
{
    let keys_key = bthport_key_exec(current, "Keys");
    let devices_key = bthport_key_exec(current, "Devices");
    let keys_prefix = hive_key_path(keys_key.as_str());
    let devices_prefix = hive_key_path(devices_key.as_str());
    BthportPaths { keys_key, keys_prefix, devices_key, devices_prefix }
}

/// The pairing records must include the `Keys` key itself.
pub fn check_keys(keys: &Registry, paths: &BthportPaths) -> (r: Result<(), String>)
    requires
        keys.wf(),
    ensures
        r is Ok <==> keys@.contains_key(paths.keys_prefix@),
        r matches Err(e) ==> e@ == "Windows BTHPORT Keys registry path not found"@,
{
    if keys.get(paths.keys_prefix.as_str()).is_some() {
        Ok(())
    } else {
        Err(String::from_str("Windows BTHPORT Keys registry path not found"))
    }
}

/// `p` followed by a backslash.
pub open spec fn under(p: Seq<char>) -> Seq<char> {
    p.push('\\')
}

/// An adapter's key among the pairing records: directly under the `Keys`
/// prefix and named by an address. Gives the key's name and the address.
pub open spec fn adapter_spec(section: Seq<char>, keys_prefix: Seq<char>) -> Option<(Seq<char>, Seq<char>)> {
    let p = under(keys_prefix);
    if has_prefix(section, p) {
        let raw = section.skip(p.len() as int);
        if raw.contains('\\') {
            None
        } else {
            match mac_spec(raw) {
                Some(m) => Some((raw, m)),
                None => None,
            }
        }
    } else {
        None
    }
}

/// An adapter found among the pairing records.
pub struct Adapter {
    /// The key's name, as the registry spells it.
    pub raw: String,
    /// The adapter's canonical address.
    pub address: String,
}

/// Recognises an adapter's key (see `adapter_spec`).
pub fn adapter_of(section: &str, keys_prefix: &str) -> (r: Option<Adapter>)
    ensures
        r is Some <==> adapter_spec(section@, keys_prefix@) is Some,
        r matches Some(a) ==> (a.raw@, a.address@) == adapter_spec(section@, keys_prefix@).unwrap(),
{
    let s = chars_of(section);
    let mut p = chars_of(keys_prefix);
    p.push('\\');
    if !has_prefix_exec(&s, &p) {
        return None;
    }
    let raw = skip_chars(&s, p.len());
    if contains_char(&raw, '\\') {
        return None;
    }
    let raw_text = string_of(&raw);
    match mac(raw_text.as_str()) {
        Some(address) => Some(Adapter { raw: raw_text, address }),
        None => None,
    }
}

/// The Windows host's own IRK (`CentralIRK`, else `MasterIRK`), stored for
/// the adapter.
pub open spec fn local_irk_spec(values: &Values) -> Option<Seq<u8>> {
    match bytes_spec(values@, "CentralIRK"@, 16) {
        Some(k) => Some(k),
        None => bytes_spec(values@, "MasterIRK"@, 16),
    }
}

/// Reads the Windows host's own IRK from an adapter's record.
pub fn local_irk(values: &Values) -> (r: Option<Vec<u8>>)
    requires
        values.wf(),
    ensures
        r is Some <==> local_irk_spec(values) is Some,
        r matches Some(k) ==> k@ == local_irk_spec(values).unwrap(),
{
    match bytes(values, "CentralIRK", 16) {
        Some(k) => Some(vstd::slice::slice_to_vec(k)),
        None => match bytes(values, "MasterIRK", 16) {
            Some(k) => Some(vstd::slice::slice_to_vec(k)),
            None => None,
        },
    }
}

/// The adapter's `identity` file with the host's IRK as its local IRK.
pub fn set_local_irk(ini: &mut Ini, irk: &[u8])
    requires
        old(ini).wf(),
    ensures
        final(ini).wf(),
        final(ini)@ == with_entry(old(ini)@, "General"@, "IdentityResolvingKey"@, hex_spec(irk@)),
{
    let k = hex(irk);
    ini.set("General", "IdentityResolvingKey", k.as_str());
}

/// The record of `key` in `r`, if there is one.
pub open spec fn entry_of(r: &Registry, key: Seq<char>) -> Option<&Values> {
    if r@.contains_key(key) {
        Some(&r@[key])
    } else {
        None
    }
}

/// The path of a device's record under the `Devices` key.
pub open spec fn device_path(devices_prefix: Seq<char>, name: Seq<char>) -> Seq<char> {
    under(devices_prefix) + name
}

/// The path of a device's services record for one adapter.
pub open spec fn services_path(device_path: Seq<char>, adapter: Seq<char>) -> Seq<char> {
    under(device_path) + "servicesfor"@ + adapter
}

fn child_path(prefix: &str, tail: &str) -> (r: String)
    ensures
        r@ == under(prefix@) + tail@,
{
    let mut v = chars_of(prefix);
    v.push('\\');
    append_chars(&mut v, &chars_of(tail));
    string_of(&v)
}

fn joined_path(prefix: &str, middle: &str, tail: &str) -> (r: String)
    ensures
        r@ == under(prefix@) + middle@ + tail@,
{
    let mut v = chars_of(prefix);
    v.push('\\');
    append_chars(&mut v, &chars_of(middle));
    append_chars(&mut v, &chars_of(tail));
    string_of(&v)
}

/// How one value of an adapter's pairing record is taken.
pub enum ClassicEntry {
    /// Not a Classic link key: not named by an address, or not binary.
    NotDevice,
    /// A link key of the wrong length, which is skipped.
    Invalid,
    /// A 16-byte link key for the device with this canonical address.
    Bond { device: String, link_key: Vec<u8> },
}

/// Classifies one value of an adapter's pairing record.
pub fn classic_entry(name: &str, value: &RegValue) -> (r: ClassicEntry)
    ensures
        (r is NotDevice) <==> (mac_spec(name@) is None || value is Dword),
        (r is Invalid) <==> (mac_spec(name@) is Some && (value matches RegValue::Bytes(k) && k@.len() != 16)),
        r matches ClassicEntry::Bond { device, link_key } ==> (device@ == mac_spec(name@).unwrap()
            && (value matches RegValue::Bytes(k) && k@ == link_key@ && k@.len() == 16)),
{
    let device = match mac(name) {
        Some(d) => d,
        None => {
            return ClassicEntry::NotDevice;
        },
    };
    match value {
        RegValue::Bytes(k) => if k.len() != 16 {
            ClassicEntry::Invalid
        } else {
            ClassicEntry::Bond { device, link_key: vstd::slice::slice_to_vec(k.as_slice()) }
        },
        RegValue::Dword(_) => ClassicEntry::NotDevice,
    }
}

/// The PIN length kept from an existing `[LinkKey]`, 0 when absent or unreadable.
pub open spec fn pin_length_spec(m: IniView) -> u8 {
    match lookup(m, "LinkKey"@, "PINLength"@) {
        Some(s) => match parse_u8(s) {
            Some(p) => p,
            None => 0,
        },
        None => 0,
    }
}

/// `[LinkKey]` with the key, its type and PIN length.
pub open spec fn with_link_key(m: IniView, link_key: Seq<u8>, kind: u8, pin: u8) -> IniView {
    let m1 = with_entry(m, "LinkKey"@, "Key"@, hex_spec(link_key));
    let m2 = with_entry(m1, "LinkKey"@, "Type"@, decimal(kind as nat));
    with_entry(m2, "LinkKey"@, "PINLength"@, decimal(pin as nat))
}

/// The key type override given for `device`, if any.
pub open spec fn override_for(options: &Options, device: Seq<char>) -> Option<u8> {
    if options.classic_types@.contains_key(device) {
        Some(options.classic_types@[device])
    } else {
        None
    }
}

/// The Classic key type written for a device (see `classic_type_spec`).
pub open spec fn classic_kind(
    m: IniView,
    options: &Options,
    device: Seq<char>,
    devices: &Registry,
    dp: Seq<char>,
    sp: Seq<char>,
) -> u8 {
    classic_type_spec(
        m,
        override_for(options, device),
        windows_type_spec(entry_of(devices, dp), entry_of(devices, sp)),
        options.default_classic_type,
    )
}

/// A device's `info` file after its Classic bond is written: BR/EDR among
/// its transports, trusted if new, the link key with its type and PIN
/// length, then Windows's metadata.
pub open spec fn with_classic_bond(
    m: IniView,
    link_key: Seq<u8>,
    kind: u8,
    devices: &Registry,
    dp: Seq<char>,
    sp: Seq<char>,
) -> IniView {
    let m1 = with_trust(with_technology(m, "BR/EDR"@));
    let m2 = with_link_key(m1, link_key, kind, pin_length_spec(m));
    with_services(with_device_info(m2, entry_of(devices, dp), false), sorted_keys(devices@), sp)
}

/// Writes a Classic bond found under adapter `adapter_raw` for the value
/// `name` (see `with_classic_bond`); gives the key type written.
pub fn apply_classic_bond(
    ini: &mut Ini,
    options: &Options,
    devices: &Registry,
    devices_prefix: &str,
    adapter_raw: &str,
    name: &str,
    device: &str,
    link_key: &[u8],
) -> (kind: u8)
    requires
        old(ini).wf(),
        options.classic_types.wf(),
        registry_wf(devices),
    ensures
        final(ini).wf(),
        ({
            let dp = device_path(devices_prefix@, lower(name@));
            let sp = services_path(dp, lower(adapter_raw@));
            &&& kind == classic_kind(old(ini)@, options, device@, devices, dp, sp)
            &&& final(ini)@ == with_classic_bond(old(ini)@, link_key@, kind, devices, dp, sp)
        }),
{
    let dp = child_path(devices_prefix, lower_text_str(name).as_str());
    let sp = joined_path(dp.as_str(), "servicesfor", lower_text_str(adapter_raw).as_str());
    assert(dp@ =~= device_path(devices_prefix@, lower(name@)));
    assert(sp@ =~= services_path(dp@, lower(adapter_raw@)));
    let device_values = devices.get(dp.as_str());
    let service_values = devices.get(sp.as_str());
    let windows_type = windows_classic_type(device_values, service_values);
    let override_type = match options.classic_types.get(device) {
        Some(t) => Some(*t),
        None => None,
    };
    let kind = classic_type(ini, override_type, windows_type, options.default_classic_type);
    let pin: u8 = match ini.get("LinkKey", "PINLength") {
        Some(s) => match parse_u8_chars(&chars_of(s)) {
            Some(p) => p,
            None => 0,
        },
        None => 0,
    };
    ini.add_technology("BR/EDR");
    ini.trust_if_new();
    let key_text = hex(link_key);
    let kind_text = decimal_string(kind as u64);
    let pin_text = decimal_string(pin as u64);
    ini.set("LinkKey", "Key", key_text.as_str());
    ini.set("LinkKey", "Type", kind_text.as_str());
    ini.set("LinkKey", "PINLength", pin_text.as_str());
    apply_windows_metadata(ini, device_values, devices, sp.as_str(), false);
    kind
}

fn lower_text_str(s: &str) -> (r: String)
    ensures
        r@ == lower(s@),
{
    string_of(&lower_chars(&chars_of(s)))
}

/// The key name of a device's LE record under an adapter's record `adapter_raw`.
pub open spec fn ble_device_spec(section: Seq<char>, keys_prefix: Seq<char>, adapter_raw: Seq<char>) -> Option<Seq<char>> {
    let p = under(under(keys_prefix) + adapter_raw);
    if has_prefix(section, p) {
        let rest = section.skip(p.len() as int);
        if rest.contains('\\') {
            None
        } else {
            Some(rest)
        }
    } else {
        None
    }
}

/// Recognises a device's LE record directly under an adapter's record.
pub fn ble_device_of(section: &str, keys_prefix: &str, adapter_raw: &str) -> (r: Option<String>)
    ensures
        r is Some <==> ble_device_spec(section@, keys_prefix@, adapter_raw@) is Some,
        r matches Some(d) ==> d@ == ble_device_spec(section@, keys_prefix@, adapter_raw@).unwrap(),
{
    let s = chars_of(section);
    let mut p = chars_of(keys_prefix);
    p.push('\\');
    append_chars(&mut p, &chars_of(adapter_raw));
    p.push('\\');
    if !has_prefix_exec(&s, &p) {
        return None;
    }
    let rest = skip_chars(&s, p.len());
    if contains_char(&rest, '\\') {
        None
    } else {
        Some(string_of(&rest))
    }
}

/// The value of a hexadecimal digit.
pub open spec fn hex_value(c: char) -> nat {
    let u = c as u32;
    if 48 <= u <= 57 {
        (u - 48) as nat
    } else if 65 <= u <= 70 {
        (u - 55) as nat
    } else {
        (u - 87) as nat
    }
}

/// The first octet of an address text, 0 when it does not start with two
/// hexadecimal digits.
pub open spec fn first_octet(id: Seq<char>) -> u8 {
    if id.len() >= 2 && is_hex_digit(id[0]) && is_hex_digit(id[1]) {
        (hex_value(id[0]) * 16 + hex_value(id[1])) as u8
    } else {
        0
    }
}

fn hex_value_exec(c: char) -> (r: u8)
    requires
        is_hex_digit(c),
    ensures
        r == hex_value(c),
{
    let u = c as u32;
    if 48 <= u && u <= 57 {
        (u - 48) as u8
    } else if 65 <= u && u <= 70 {
        (u - 55) as u8
    } else {
        (u - 87) as u8
    }
}

fn first_octet_exec(id: &Vec<char>) -> (r: u8)
    ensures
        r == first_octet(id@),
{
    if id.len() >= 2 && crate::text::is_hex_digit_exec(id[0]) && crate::text::is_hex_digit_exec(id[1]) {
        hex_value_exec(id[0]) * 16 + hex_value_exec(id[1])
    } else {
        0
    }
}

/// The identity address of an LE device: Windows's `Address` (its first six
/// bytes, stored little-endian) when present, else the record's own address.
pub open spec fn identity_spec(values: &Values, device_key: Seq<char>) -> Seq<char> {
    match bytes_spec(values@, "Address"@, 8) {
        Some(a) => mac_spec(hex_spec(a.take(6).reverse())).unwrap(),
        None => device_key,
    }
}

/// What an LE bond brings, as plain values.
pub struct BleModel {
    pub identity: Seq<char>,
    pub device_key: Seq<char>,
    pub static_address: bool,
    pub ltk: Seq<u8>,
    pub ediv: u32,
    pub rand: u64,
    pub size: u32,
    pub authenticated: bool,
}

/// How a device's LE record is taken.
pub enum BleOutcome {
    NotDevice,
    Invalid,
    Unsupported(Seq<char>),
    NotStatic(Seq<char>),
    Bond(BleModel),
}

/// How a device's LE record is taken: not a device unless named by an
/// address; skipped without a 16-byte `LTK`, with an address type other than
/// public (0) or static random (1), with a random address whose top two bits
/// are not set, with an `EDIV` over 0xffff or a `KeyLength` outside 7 to 16.
pub open spec fn ble_spec(device_raw: Seq<char>, values: &Values) -> BleOutcome {
    match mac_spec(device_raw) {
        None => BleOutcome::NotDevice,
        Some(device_key) => match bytes_spec(values@, "LTK"@, 16) {
            None => BleOutcome::Invalid,
            Some(ltk) => {
                let identity = identity_spec(values, device_key);
                let at = match dword_spec(values@, "AddressType"@) {
                    Some(v) => v,
                    None => 0,
                };
                let ediv = match dword_spec(values@, "EDIV"@) {
                    Some(v) => v,
                    None => 0,
                };
                let rand = match bytes_spec(values@, "ERand"@, 8) {
                    Some(b) => le_value(b) as u64,
                    None => 0,
                };
                let size = match dword_spec(values@, "KeyLength"@) {
                    Some(v) => v,
                    None => 16,
                };
                let auth = match dword_spec(values@, "AuthReq"@) {
                    Some(v) => v,
                    None => 0,
                };
                if at > 1 {
                    BleOutcome::Unsupported(identity)
                } else if at == 1 && (first_octet(identity) & 0xc0u8) != 0xc0u8 {
                    BleOutcome::NotStatic(identity)
                } else if ediv > 0xffff {
                    BleOutcome::Invalid
                } else if !(7 <= size <= 16) {
                    BleOutcome::Invalid
                } else {
                    BleOutcome::Bond(
                        BleModel {
                            identity,
                            device_key,
                            static_address: at == 1,
                            ltk,
                            ediv,
                            rand,
                            size,
                            authenticated: auth & 4u32 != 0,
                        },
                    )
                }
            },
        },
    }
}

/// An LE bond read from Windows.
pub struct BleBond {
    /// The device's identity address, under which BlueZ stores it.
    pub identity: String,
    /// The address naming the Windows record.
    pub device_key: String,
    /// Whether the identity is a static random address (else public).
    pub static_address: bool,
    pub ltk: Vec<u8>,
    pub ediv: u32,
    pub rand: u64,
    pub size: u32,
    pub authenticated: bool,
}

/// A bond as plain values.
pub open spec fn ble_model(b: &BleBond) -> BleModel {
    BleModel {
        identity: b.identity@,
        device_key: b.device_key@,
        static_address: b.static_address,
        ltk: b.ltk@,
        ediv: b.ediv,
        rand: b.rand,
        size: b.size,
        authenticated: b.authenticated,
    }
}

/// How a device's LE record was taken (see `ble_spec`).
pub enum BleEntry {
    NotDevice,
    Invalid,
    Unsupported(String),
    NotStatic(String),
    Bond(BleBond),
}

/// The outcome as plain values.
pub open spec fn ble_outcome(e: &BleEntry) -> BleOutcome {
    match e {
        BleEntry::NotDevice => BleOutcome::NotDevice,
        BleEntry::Invalid => BleOutcome::Invalid,
        BleEntry::Unsupported(i) => BleOutcome::Unsupported(i@),
        BleEntry::NotStatic(i) => BleOutcome::NotStatic(i@),
        BleEntry::Bond(b) => BleOutcome::Bond(ble_model(b)),
    }
}

/// Twelve upper-case hexadecimal digits, without colons, are an address.
proof fn lemma_hex_is_mac(b: Seq<u8>)
    requires
        b.len() == 6,
    ensures
        mac_spec(hex_spec(b)) is Some,
{
    lemma_hex_digits(b);
    let h = hex_spec(b);
    lemma_no_colons(h);
}

proof fn lemma_hex_digits(b: Seq<u8>)
    ensures
        hex_spec(b).len() == 2 * b.len(),
        forall|i: int| 0 <= i < hex_spec(b).len() ==> is_hex_digit(#[trigger] hex_spec(b)[i]),
    decreases b.len(),
{
    if b.len() > 0 {
        lemma_hex_digits(b.drop_last());
        let x = b.last();
        assert(x / 16 < 16 && x % 16 < 16);
        let h = hex_spec(b);
        assert forall|i: int| 0 <= i < h.len() implies is_hex_digit(#[trigger] h[i]) by {
            if i < h.len() - 2 {
                assert(h[i] == hex_spec(b.drop_last())[i]);
            }
        }
    }
}

proof fn lemma_no_colons(s: Seq<char>)
    requires
        forall|i: int| 0 <= i < s.len() ==> is_hex_digit(#[trigger] s[i]),
    ensures
        without_colons(s) == s,
    decreases s.len(),
{
    if s.len() > 0 {
        lemma_no_colons(s.drop_last());
        assert(is_hex_digit(s[s.len() - 1]));
        assert(s.drop_last().push(s.last()) =~= s);
    }
}

/// The first six bytes of `a`, reversed.
fn reversed_six(a: &[u8]) -> (r: Vec<u8>)
    requires
        a@.len() == 8,
    ensures
        r@ == a@.take(6).reverse(),
{
    let mut r: Vec<u8> = Vec::new();
    let mut i: usize = 6;
    while i > 0
        invariant
            i <= 6,
            a@.len() == 8,
            r@ == a@.take(6).reverse().take(6 - i),
        decreases i,
    {
        r.push(a[i - 1]);
        i = i - 1;
        assert(r@ =~= a@.take(6).reverse().take(6 - i));
    }
    assert(a@.take(6).reverse().take(6) =~= a@.take(6).reverse());
    r
}

/// Reads a device's LE record (see `ble_spec`).
pub fn ble_entry(device_raw: &str, values: &Values) -> (r: BleEntry)
    requires
        values.wf(),
    ensures
        ble_outcome(&r) == ble_spec(device_raw@, values),
{
    let device_key = match mac(device_raw) {
        Some(d) => d,
        None => {
            return BleEntry::NotDevice;
        },
    };
    let ltk = match bytes(values, "LTK", 16) {
        Some(k) => vstd::slice::slice_to_vec(k),
        None => {
            return BleEntry::Invalid;
        },
    };
    let identity = match bytes(values, "Address", 8) {
        Some(a) => {
            let rev = reversed_six(a);
            proof {
                lemma_hex_is_mac(rev@);
            }
            let text = hex(rev.as_slice());
            match mac(text.as_str()) {
                Some(m) => m,
                None => {
                    return BleEntry::Invalid;
                },
            }
        },
        None => device_key.clone(),
    };
    assert(identity@ == identity_spec(values, device_key@));
    let at = match dword(values, "AddressType") {
        Some(v) => v,
        None => 0,
    };
    if at > 1 {
        return BleEntry::Unsupported(identity);
    }
    if at == 1 && (first_octet_exec(&chars_of(identity.as_str())) & 0xc0) != 0xc0 {
        return BleEntry::NotStatic(identity);
    }
    let ediv = match dword(values, "EDIV") {
        Some(v) => v,
        None => 0,
    };
    if ediv > 0xffff {
        return BleEntry::Invalid;
    }
    let rand = match bytes(values, "ERand", 8) {
        Some(b) => le_bytes(b),
        None => 0,
    };
    let size = match dword(values, "KeyLength") {
        Some(v) => v,
        None => 16,
    };
    if !(7 <= size && size <= 16) {
        return BleEntry::Invalid;
    }
    let auth = match dword(values, "AuthReq") {
        Some(v) => v,
        None => 0,
    };
    BleEntry::Bond(
        BleBond {
            identity,
            device_key,
            static_address: at == 1,
            ltk,
            ediv,
            rand,
            size,
            authenticated: auth & 4 != 0,
        },
    )
}

/// A signature key group written from `reg_name`, when Windows has it: the
/// key, a counter of 0 unless one is kept, and the authentication flag.
pub open spec fn with_csrk(m: IniView, values: &Values, reg_name: Seq<char>, group: Seq<char>, authenticated: bool) -> IniView {
    match bytes_spec(values@, reg_name, 16) {
        Some(k) => {
            let m1 = with_entry(m, group, "Key"@, hex_spec(k));
            let m2 = if lookup(m1, group, "Counter"@) is Some {
                m1
            } else {
                with_entry(m1, group, "Counter"@, "0"@)
            };
            with_entry(m2, group, "Authenticated"@, if authenticated { "1"@ } else { "0"@ })
        },
        None => m,
    }
}

/// The remote IRK, when Windows has one.
pub open spec fn with_remote_irk(m: IniView, values: &Values) -> IniView {
    match bytes_spec(values@, "IRK"@, 16) {
        Some(k) => with_entry(m, "IdentityResolvingKey"@, "Key"@, hex_spec(k)),
        None => m,
    }
}

/// A device's `info` file after its LE bond is written: its address type,
/// LE among its transports, trusted if new, Windows's metadata, the
/// long-term key, the remote IRK and the signature keys.
pub open spec fn with_ble_bond(
    m: IniView,
    b: BleModel,
    values: &Values,
    devices: &Registry,
    dp: Seq<char>,
    sp: Seq<char>,
) -> IniView {
    let m1 = with_entry(m, "General"@, "AddressType"@, if b.static_address { "static"@ } else { "public"@ });
    let m2 = with_trust(with_technology(m1, "LE"@));
    let m3 = with_services(with_device_info(m2, entry_of(devices, dp), true), sorted_keys(devices@), sp);
    let m4 = with_ltk(m3, b.ltk, b.size, b.ediv, b.rand, b.authenticated);
    let m5 = with_remote_irk(m4, values);
    let m6 = with_csrk(m5, values, "CSRK"@, "LocalSignatureKey"@, b.authenticated);
    with_csrk(m6, values, "CSRKInbound"@, "RemoteSignatureKey"@, b.authenticated)
}

fn set_csrk(ini: &mut Ini, values: &Values, reg_name: &str, group: &str, authenticated: bool)
    requires
        old(ini).wf(),
        values.wf(),
    ensures
        final(ini).wf(),
        final(ini)@ == with_csrk(old(ini)@, values, reg_name@, group@, authenticated),
{
    if let Some(k) = bytes(values, reg_name, 16) {
        let text = hex(k);
        ini.set(group, "Key", text.as_str());
        if ini.get(group, "Counter").is_none() {
            ini.set(group, "Counter", "0");
        }
        ini.set(
            group,
            "Authenticated",
            if authenticated {
                "1"
            } else {
                "0"
            },
        );
    }
}

/// Writes an LE bond found under adapter `adapter_raw` in the record
/// `device_raw` (see `with_ble_bond`).
pub fn apply_ble_bond(
    ini: &mut Ini,
    bond: &BleBond,
    values: &Values,
    devices: &Registry,
    devices_prefix: &str,
    adapter_raw: &str,
    device_raw: &str,
)
    requires
        old(ini).wf(),
        values.wf(),
        registry_wf(devices),
    ensures
        final(ini).wf(),
        ({
            let dp = device_path(devices_prefix@, device_raw@);
            let sp = services_path(dp, adapter_raw@);
            final(ini)@ == with_ble_bond(old(ini)@, ble_model(bond), values, devices, dp, sp)
        }),
{
    ini.set(
        "General",
        "AddressType",
        if bond.static_address {
            "static"
        } else {
            "public"
        },
    );
    ini.add_technology("LE");
    ini.trust_if_new();
    let dp = child_path(devices_prefix, device_raw);
    let sp = joined_path(dp.as_str(), "servicesfor", adapter_raw);
    let device_values = devices.get(dp.as_str());
    apply_windows_metadata(ini, device_values, devices, sp.as_str(), true);
    set_ltk(ini, bond.ltk.as_slice(), bond.size, bond.ediv, bond.rand, bond.authenticated);
    if let Some(irk) = bytes(values, "IRK", 16) {
        let text = hex(irk);
        ini.set("IdentityResolvingKey", "Key", text.as_str());
    }
    set_csrk(ini, values, "CSRK", "LocalSignatureKey", bond.authenticated);
    set_csrk(ini, values, "CSRKInbound", "RemoteSignatureKey", bond.authenticated);
}

/// An LE bond is stored under a canonical identity address.
pub proof fn law_ble_identity_canonical(device_raw: Seq<char>, values: &Values)
    ensures
        ble_spec(device_raw, values) matches BleOutcome::Bond(b) ==> is_canonical_mac(b.identity)
            && is_canonical_mac(b.device_key),
{
    law_mac_canonical(device_raw);
    if let Some(a) = bytes_spec(values@, "Address"@, 8) {
        lemma_hex_is_mac(a.take(6).reverse());
        law_mac_canonical(hex_spec(a.take(6).reverse()));
    }
}

/// Eight little-endian bytes as a number.
proof fn lemma_le_eight(e: Seq<u8>)
    requires
        e.len() == 8,
    ensures
        le_value(e) == e[0] + 256 * e[1] + 65536 * e[2] + 16777216 * e[3] + 4294967296 * e[4]
            + 1099511627776 * e[5] + 281474976710656 * e[6] + 72057594037927936 * e[7],
{
    let s1 = e.drop_first();
    let s2 = s1.drop_first();
    let s3 = s2.drop_first();
    let s4 = s3.drop_first();
    let s5 = s4.drop_first();
    let s6 = s5.drop_first();
    let s7 = s6.drop_first();
    let s8 = s7.drop_first();
    assert(s8.len() == 0);
    assert(le_value(s8) == 0);
    assert(le_value(s7) == s7[0] + 256 * le_value(s8));
    assert(le_value(s6) == s6[0] + 256 * le_value(s7));
    assert(le_value(s5) == s5[0] + 256 * le_value(s6));
    assert(le_value(s4) == s4[0] + 256 * le_value(s5));
    assert(le_value(s3) == s3[0] + 256 * le_value(s4));
    assert(le_value(s2) == s2[0] + 256 * le_value(s3));
    assert(le_value(s1) == s1[0] + 256 * le_value(s2));
    assert(le_value(e) == e[0] + 256 * le_value(s1));
    assert(s1[0] == e[1] && s2[0] == e[2] && s3[0] == e[3] && s4[0] == e[4]);
    assert(s5[0] == e[5] && s6[0] == e[6] && s7[0] == e[7]);
}

/// An LE bond read from a Windows record keeps the record's values: the
/// `LTK`; the record's address, and as identity the six `Address` bytes in
/// reverse (little-endian) order when Windows has them; `ERand` as a
/// little-endian number (0 without one); the static random address flag
/// exactly when `AddressType` is 1; authentication exactly when bit 2
/// (value 4) of `AuthReq` is set; `EDIV` (0 without one) and `KeyLength`
/// (16 without one).
pub proof fn law_ble_record_values(device_raw: Seq<char>, values: &Values)
    ensures
        ble_spec(device_raw, values) matches BleOutcome::Bond(b) ==> {
            &&& Some(b.ltk) == bytes_spec(values@, "LTK"@, 16)
            &&& Some(b.device_key) == mac_spec(device_raw)
            &&& b.identity == match bytes_spec(values@, "Address"@, 8) {
                Some(a) => mac_spec(hex_spec(seq![a[5], a[4], a[3], a[2], a[1], a[0]])).unwrap(),
                None => b.device_key,
            }
            &&& b.rand == match bytes_spec(values@, "ERand"@, 8) {
                Some(e) => e[0] + 256 * e[1] + 65536 * e[2] + 16777216 * e[3] + 4294967296 * e[4]
                    + 1099511627776 * e[5] + 281474976710656 * e[6] + 72057594037927936 * e[7],
                None => 0,
            }
            &&& b.static_address <==> dword_spec(values@, "AddressType"@) == Some(1u32)
            &&& b.authenticated <==> (dword_spec(values@, "AuthReq"@) matches Some(v) && (v / 4) % 2 == 1)
            &&& b.ediv == match dword_spec(values@, "EDIV"@) {
                Some(v) => v,
                None => 0,
            }
            &&& b.size == match dword_spec(values@, "KeyLength"@) {
                Some(v) => v,
                None => 16,
            }
        },
{
    if let BleOutcome::Bond(b) = ble_spec(device_raw, values) {
        if let Some(a) = bytes_spec(values@, "Address"@, 8) {
            assert(a.take(6).reverse() =~= seq![a[5], a[4], a[3], a[2], a[1], a[0]]);
        }
        if let Some(e) = bytes_spec(values@, "ERand"@, 8) {
            lemma_le_eight(e);
            assert(le_value(e) <= 0xffff_ffff_ffff_ffff);
            assert(b.rand == le_value(e));
        }
        if let Some(v) = dword_spec(values@, "AuthReq"@) {
            assert((v & 4u32 != 0) == ((v / 4) % 2 == 1)) by (bit_vector);
        } else {
            assert(0u32 & 4u32 == 0) by (bit_vector);
        }
    }
}

} // verus!
