//! Values read from the Windows `SYSTEM` registry hive, and what the library
//! reads out of them.
use vstd::prelude::*;
use vstd::utf8::{valid_utf8, decode_utf8, encode_utf8};
use vstd::string::StringSliceAdditionalSpecFns;
use crate::strmap::StrMap;
use crate::text::{
    chars_of, string_of, lower, lower_text, lower_chars, trim, trim_chars, is_control,
    is_control_exec, hex_upper, hex_upper_exec, is_hex_digit, is_hex_digit_exec, eq_ignore_case,
    eq_ignore_case_exec, append_chars, utf8_longer_than,
};

verus! {

/// A registry value of one of the kinds the library reads.
#[derive(Debug)]
pub enum RegValue {
    /// `REG_BINARY` or `REG_QWORD` data.
    Bytes(Vec<u8>),
    /// A `REG_DWORD`.
    Dword(u32),
}

/// What a registry value holds.
pub enum RegData {
    Bytes(Seq<u8>),
    Dword(u32),
}

impl View for RegValue {
    type V = RegData;

    open spec fn view(&self) -> RegData {
        match self {
            RegValue::Bytes(v) => RegData::Bytes(v@),
            RegValue::Dword(n) => RegData::Dword(*n),
        }
    }
}

/// What the values of one key hold.
pub open spec fn values_data(m: Map<Seq<char>, RegValue>) -> Map<Seq<char>, RegData> {
    m.map_values(|v: RegValue| v@)
}

/// What every key of a registry holds.
pub open spec fn registry_data(r: &Registry) -> Map<Seq<char>, Map<Seq<char>, RegData>> {
    r@.map_values(|vs: StrMap<RegValue>| values_data(vs@))
}

/// The values of one registry key, by lower-case value name.
pub type Values = StrMap<RegValue>;

/// Registry keys, by lower-case full path, with their values.
pub type Registry = StrMap<StrMap<RegValue>>;

/// Every key's value map keeps its names in order.
pub open spec fn registry_wf(r: &Registry) -> bool {
    &&& r.wf()
    &&& forall|k: Seq<char>| #[trigger] r@.contains_key(k) ==> r@[k].wf()
}

/// The binary value `name` (any case) when it is exactly `len` bytes long.
pub open spec fn bytes_spec(values: Map<Seq<char>, RegValue>, name: Seq<char>, len: nat) -> Option<Seq<u8>> {
    let k = lower(name);
    if values.contains_key(k) {
        match values[k] {
            RegValue::Bytes(v) => if v@.len() == len {
                Some(v@)
            } else {
                None
            },
            RegValue::Dword(_) => None,
        }
    } else {
        None
    }
}

/// The `REG_DWORD` value `name` (any case).
pub open spec fn dword_spec(values: Map<Seq<char>, RegValue>, name: Seq<char>) -> Option<u32> {
    let k = lower(name);
    if values.contains_key(k) {
        match values[k] {
            RegValue::Dword(n) => Some(n),
            RegValue::Bytes(_) => None,
        }
    } else {
        None
    }
}

/// The binary value `name` when it is exactly `len` bytes long.
pub fn bytes<'a>(values: &'a Values, name: &str, len: usize) -> (r: Option<&'a [u8]>)
    requires
        values.wf(),
    ensures
        r is Some <==> bytes_spec(values@, name@, len as nat) is Some,
        r matches Some(b) ==> b@ == bytes_spec(values@, name@, len as nat).unwrap(),
{
    let k = lower_text(name);
    match values.get(k.as_str()) {
        Some(RegValue::Bytes(v)) => if v.len() == len {
            Some(v.as_slice())
        } else {
            None
        },
        _ => None,
    }
}

/// The `REG_DWORD` value `name`.
pub fn dword(values: &Values, name: &str) -> (r: Option<u32>)
    requires
        values.wf(),
    ensures
        r == dword_spec(values@, name@),
{
    let k = lower_text(name);
    match values.get(k.as_str()) {
        Some(RegValue::Dword(n)) => Some(*n),
        _ => None,
    }
}

/// Bytes as upper-case hexadecimal, two digits each.
pub open spec fn hex_spec(b: Seq<u8>) -> Seq<char>
    decreases b.len(),
{
    if b.len() == 0 {
        Seq::empty()
    } else {
        hex_spec(b.drop_last()) + seq![hex_upper((b.last() / 16) as nat), hex_upper((b.last() % 16) as nat)]
    }
}

/// Formats bytes as upper-case hexadecimal, as BlueZ stores keys.
pub fn hex(bytes: &[u8]) -> (r: String)
    ensures
        r@ == hex_spec(bytes@),
{
    let mut out: Vec<char> = Vec::new();
    for i in 0..bytes.len()
        invariant
            out@ == hex_spec(bytes@.take(i as int)),
    {
        let b = bytes[i];
        assert(bytes@.take(i + 1).drop_last() =~= bytes@.take(i as int));
        out.push(hex_upper_exec(b / 16));
        out.push(hex_upper_exec(b % 16));
        assert(out@ =~= hex_spec(bytes@.take(i + 1)));
    }
    assert(bytes@.take(bytes.len() as int) =~= bytes@);
    string_of(&out)
}

/// The bytes before the first zero byte.
pub open spec fn before_nul(b: Seq<u8>) -> Seq<u8>
    decreases b.len(),
{
    if b.len() == 0 {
        b
    } else if b[0] == 0 {
        Seq::empty()
    } else {
        seq![b[0]] + before_nul(b.drop_first())
    }
}

/// A device name stored as NUL-terminated UTF-8: the text before the first
/// NUL, trimmed; refused when it is not UTF-8, empty, longer than 248 bytes
/// or holds a control character.
pub open spec fn name_spec(values: Map<Seq<char>, RegValue>, key: Seq<char>) -> Option<Seq<char>> {
    let k = lower(key);
    if values.contains_key(k) {
        match values[k] {
            RegValue::Bytes(raw) => {
                let piece = before_nul(raw@);
                if valid_utf8(piece) {
                    let n = trim(decode_utf8(piece));
                    if n.len() == 0 || encode_utf8(n).len() > 248 || (exists|i: int|
                        0 <= i < n.len() && is_control(#[trigger] n[i])) {
                        None
                    } else {
                        Some(n)
                    }
                } else {
                    None
                }
            },
            RegValue::Dword(_) => None,
        }
    } else {
        None
    }
}

/// Reads `bytes` as text through `std::str::from_utf8`, trusted (not proved)
/// to succeed exactly on valid UTF-8 (vstd's `valid_utf8`) and to give back
/// text whose UTF-8 bytes are `bytes`.
#[verifier::external_body]
pub(crate) fn utf8_text(bytes: &[u8]) -> (r: Option<&str>)
    ensures
        r is Some <==> valid_utf8(bytes@),
        r matches Some(s) ==> s.spec_bytes() == bytes@,
{
    match std::str::from_utf8(bytes) {
        Ok(s) => Some(s),
        Err(_) => None,
    }
}

/// The bytes of `raw` before its first zero byte.
fn before_nul_exec(raw: &Vec<u8>) -> (r: Vec<u8>)
    ensures
        r@ == before_nul(raw@),
{
    let mut r: Vec<u8> = Vec::new();
    let mut i: usize = 0;
    assert(raw@.skip(0) =~= raw@);
    assert(Seq::<u8>::empty() + before_nul(raw@) =~= before_nul(raw@));
    while i < raw.len() && raw[i] != 0
        invariant
            i <= raw.len(),
            r@ == raw@.take(i as int),
            before_nul(raw@) == r@ + before_nul(raw@.skip(i as int)),
        decreases raw.len() - i,
    {
        let ghost rest = raw@.skip(i as int);
        assert(rest.drop_first() =~= raw@.skip(i + 1));
        assert(rest[0] == raw@[i as int]);
        r.push(raw[i]);
        assert(r@ =~= raw@.take(i + 1));
        assert(before_nul(rest) =~= seq![raw@[i as int]] + before_nul(raw@.skip(i + 1)));
        i = i + 1;
    }
    assert(before_nul(raw@.skip(i as int)) =~= Seq::<u8>::empty());
    assert(r@ + Seq::<u8>::empty() =~= r@);
    r
}

/// Whether `v` holds a control character.
fn has_control(v: &Vec<char>) -> (r: bool)
    ensures
        r == exists|i: int| 0 <= i < v@.len() && is_control(#[trigger] v@[i]),
{
    for i in 0..v.len()
        invariant
            forall|j: int| 0 <= j < i ==> !is_control(#[trigger] v@[j]),
    {
        if is_control_exec(v[i]) {
            assert(is_control(v@[i as int]));
            return true;
        }
    }
    false
}

/// Reads a device name stored by Windows (see `name_spec`).
pub fn registry_name(values: &Values, key: &str) -> (r: Option<String>)
    requires
        values.wf(),
    ensures
        r is Some <==> name_spec(values@, key@) is Some,
        r matches Some(n) ==> n@ == name_spec(values@, key@).unwrap(),
{
    let k = lower_text(key);
    let raw = match values.get(k.as_str()) {
        Some(RegValue::Bytes(raw)) => raw,
        _ => {
            return None;
        },
    };
    let piece = before_nul_exec(raw);
    let text = match utf8_text(piece.as_slice()) {
        Some(t) => t,
        None => {
            return None;
        },
    };
    proof {
        vstd::utf8::encode_utf8_decode_utf8(text@);
    }
    let name_chars = trim_chars(&chars_of(text));
    let name = string_of(&name_chars);
    if name_chars.len() == 0 || utf8_longer_than(&name_chars, 248) || has_control(&name_chars) {
        return None;
    }
    Some(name)
}

/// Windows's placeholder service UUID, which BlueZ does not list.
pub open spec fn placeholder_uuid() -> Seq<char> {
    "99999999-9999-9999-9999-999999999999"@
}

/// The service UUID named by a registry key `{xxxxxxxx-xxxx-xxxx-xxxx-xxxxxxxxxxxx}`,
/// in lower case; `None` for other names and for the placeholder.
pub open spec fn uuid_spec(raw: Seq<char>) -> Option<Seq<char>> {
    if raw.len() >= 2 && raw[0] == '{' && raw.last() == '}' {
        let u = raw.subrange(1, raw.len() - 1);
        if u.len() == 36 && u[8] == '-' && u[13] == '-' && u[18] == '-' && u[23] == '-' && (forall|i: int|
            0 <= i < 36 ==> #[trigger] u[i] == '-' || is_hex_digit(u[i])) && !eq_ignore_case(
            u,
            placeholder_uuid(),
        ) {
            Some(lower(u))
        } else {
            None
        }
    } else {
        None
    }
}

/// Reads a service UUID from a `ServicesFor<adapter>` subkey name.
pub fn service_uuid(raw: &str) -> (r: Option<String>)
    ensures
        r is Some <==> uuid_spec(raw@) is Some,
        r matches Some(u) ==> u@ == uuid_spec(raw@).unwrap(),
{
    let v = chars_of(raw);
    let n = v.len();
    if !(n >= 2 && v[0] == '{' && v[n - 1] == '}') {
        return None;
    }
    let mut u: Vec<char> = Vec::new();
    for i in 1..n - 1
        invariant
            n == v.len(),
            n >= 2,
            v@ == raw@,
            u@ == v@.subrange(1, i as int),
    {
        u.push(v[i]);
        assert(v@.subrange(1, i + 1) =~= v@.subrange(1, i as int).push(v@[i as int]));
    }
    if u.len() != 36 || u[8] != '-' || u[13] != '-' || u[18] != '-' || u[23] != '-' {
        return None;
    }
    for i in 0..36
        invariant
            u.len() == 36,
            u@ == raw@.subrange(1, raw@.len() - 1),
            forall|j: int| 0 <= j < i ==> #[trigger] u@[j] == '-' || is_hex_digit(u@[j]),
    {
        if u[i] != '-' && !is_hex_digit_exec(u[i]) {
            return None;
        }
    }
    let placeholder = chars_of("99999999-9999-9999-9999-999999999999");
    if eq_ignore_case_exec(&u, &placeholder) {
        return None;
    }
    Some(string_of(&lower_chars(&u)))
}

/// The little-endian value of a run of bytes.
pub open spec fn le_value(d: Seq<u8>) -> nat
    decreases d.len(),
{
    if d.len() == 0 {
        0
    } else {
        d[0] as nat + 256 * le_value(d.drop_first())
    }
}

/// `256` to the power `n`.
pub open spec fn pow256(n: nat) -> nat
    decreases n,
{
    if n == 0 {
        1
    } else {
        256 * pow256((n - 1) as nat)
    }
}

proof fn lemma_le_value_bound(d: Seq<u8>)
    ensures
        le_value(d) < pow256(d.len()),
    decreases d.len(),
{
    if d.len() > 0 {
        lemma_le_value_bound(d.drop_first());
    }
}

/// Reads up to eight bytes as a little-endian integer (`u64::from_le_bytes`,
/// `u32::from_le_bytes`).
pub fn le_bytes(d: &[u8]) -> (r: u64)
    requires
        d@.len() <= 8,
    ensures
        r == le_value(d@),
{
    let mut acc: u64 = 0;
    let mut i: usize = d.len();
    assert(d@.skip(d@.len() as int) =~= Seq::<u8>::empty());
    assert(pow256(8) == 0x1_0000_0000_0000_0000) by {
        reveal_with_fuel(pow256, 9);
    }
    while i > 0
        invariant
            i <= d@.len() <= 8,
            acc == le_value(d@.skip(i as int)),
            pow256(8) == 0x1_0000_0000_0000_0000,
        decreases i,
    {
        proof {
            assert(d@.skip(i - 1).drop_first() =~= d@.skip(i as int));
            lemma_le_value_bound(d@.skip(i as int));
            lemma_pow256_monotone((d@.len() - i) as nat, 7);
        }
        acc = d[i - 1] as u64 + 256 * acc;
        i = i - 1;
    }
    assert(d@.skip(0) =~= d@);
    acc
}

proof fn lemma_pow256_monotone(a: nat, b: nat)
    requires
        a <= b,
    ensures
        pow256(a) <= pow256(b),
    decreases b,
{
    if a < b {
        lemma_pow256_monotone(a, (b - 1) as nat);
    }
}

/// The path under which the walk reports a key of the `SYSTEM` hive.
pub open spec fn hive_path(path: Seq<char>) -> Seq<char> {
    "hkey_local_machine\\system\\"@ + lower(path)
}

/// The full lower-case path of the hive key `path`.
pub fn hive_key_path(path: &str) -> (r: String)
    ensures
        r@ == hive_path(path@),
{
    let mut full: Vec<char> = chars_of("hkey_local_machine\\system\\");
    append_chars(&mut full, &lower_chars(&chars_of(path)));
    string_of(&full)
}

/// How a value of native registry `kind` is read: `REG_BINARY` (3) and
/// `REG_QWORD` (11) as bytes, a four-byte `REG_DWORD` (4) as a little-endian
/// integer; values of other kinds are not read.
pub open spec fn value_read(kind: i32, data: Seq<u8>) -> Option<RegData> {
    if kind == 3 || kind == 11 {
        Some(RegData::Bytes(data))
    } else if kind == 4 && data.len() == 4 {
        Some(RegData::Dword(le_value(data) as u32))
    } else {
        None
    }
}

/// The values of the key at `p` once a visit of `name` (if any) has been recorded.
pub open spec fn after_visit(
    tree: Map<Seq<char>, Map<Seq<char>, RegData>>,
    p: Seq<char>,
    name: Option<&str>,
    kind: i32,
    data: Seq<u8>,
) -> Map<Seq<char>, RegData> {
    let old_values = if tree.contains_key(p) {
        tree[p]
    } else {
        Map::empty()
    };
    match (name, value_read(kind, data)) {
        (Some(n), Some(v)) => old_values.insert(lower(n@), v),
        _ => old_values,
    }
}

/// What one walk of an open Windows registry hive has gathered: each key met,
/// under its lower-case `hkey_local_machine\system\...` path, with the values
/// the library reads.
pub struct Hive {
    tree: Registry,
}

impl View for Hive {
    type V = Map<Seq<char>, Map<Seq<char>, RegData>>;

    closed spec fn view(&self) -> Map<Seq<char>, Map<Seq<char>, RegData>> {
        registry_data(&self.tree)
    }
}

impl Hive {
    pub closed spec fn wf(&self) -> bool {
        registry_wf(&self.tree)
    }

    /// Nothing gathered yet.
    pub fn new() -> (h: Hive)
        ensures
            h.wf(),
            h@ == Map::<Seq<char>, Map<Seq<char>, RegData>>::empty(),
    {
        let h = Hive { tree: StrMap::new() };
        assert(h@ =~= Map::<Seq<char>, Map<Seq<char>, RegData>>::empty());
        h
    }

    /// Records what the walk met: the key at `path` (relative to the hive
    /// root), and, when `name` is given, that value if it is of a kind read.
    pub fn collect(&mut self, path: &str, name: Option<&str>, kind: i32, data: &[u8])
        requires
            old(self).wf(),
        ensures
            final(self).wf(),
            final(self)@ == old(self)@.insert(
                hive_path(path@),
                after_visit(old(self)@, hive_path(path@), name, kind, data@),
            ),
    {
        let key = hive_key_path(path);
        let ghost p = hive_path(path@);
        let ghost old_view = self@;
        let ghost old_tree = self.tree@;
        let mut values = match self.tree.take(key.as_str()) {
            Some(v) => v,
            None => StrMap::new(),
        };
        let ghost old_values = if old_view.contains_key(p) { old_view[p] } else { Map::empty() };
        assert(values_data(values@) == old_values);
        if let Some(n) = name {
            let value = if kind == 3 || kind == 11 {
                Some(RegValue::Bytes(vstd::slice::slice_to_vec(data)))
            } else if kind == 4 && data.len() == 4 {
                Some(RegValue::Dword(le_bytes(data) as u32))
            } else {
                None
            };
            if let Some(v) = value {
                let ghost d = v@;
                values.insert(lower_text(n), v);
                assert(values_data(values@) =~= old_values.insert(lower(n@), d));
            }
        }
        let ghost new_values = values_data(values@);
        self.tree.insert(key, values);
        assert(self.tree@ == old_tree.remove(p).insert(p, values));
        assert(self@ =~= old_view.insert(p, new_values));
    }

    /// The keys gathered, once the native walk has reported `status`: `0` on
    /// success, `-1` when `key` does not exist, anything else on a failure.
    pub fn read_tree(self, key: &str, status: i32) -> (r: Result<Registry, String>)
        requires
            self.wf(),
        ensures
            r is Ok <==> status == 0,
            r matches Ok(t) ==> registry_wf(&t) && registry_data(&t) == self@,
            r matches Err(e) ==> e@ == if status == -1 {
                "Windows registry key not found: "@ + key@
            } else {
                "failed reading Windows registry key: "@ + key@
            },
    {
        if status == 0 {
            Ok(self.tree)
        } else if status == -1 {
            let mut e = String::from_str("Windows registry key not found: ");
            e.append(key);
            Err(e)
        } else {
            let mut e = String::from_str("failed reading Windows registry key: ");
            e.append(key);
            Err(e)
        }
    }
}

} // verus!
