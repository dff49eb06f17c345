//! Properties of the library that span its operations.
use vstd::prelude::*;
use crate::ini::{IniView, lookup, with_entry, with_trust, with_technology, list_items, list_text,
    technologies_with, text_or_empty, nonempty, join};
use crate::text::{split, first_index, lemma_first_index, lemma_first_index_concat, lower,
    lower_char, eq_ignore_case, is_hex_digit, decimal, hex_fixed};
use crate::metadata::{with_ltk, with_ltk_group, with_device_info, with_services, device_name, device_id, merge_services, service_prefix, holds_ignoring_case};
use crate::registry::{Values, Registry, hex_spec, dword_spec, bytes_spec, uuid_spec, placeholder_uuid};
use crate::bonds::{with_classic_bond, with_ble_bond, with_link_key, pin_length_spec, entry_of, with_remote_irk, with_csrk,
    classic_kind, BleModel};
use crate::options::Options;
use crate::metadata::{with_name, with_look, with_device_id};
use crate::ini::group_of;
use crate::text::{lemma_parse_u8_decimal, has_prefix};
use crate::strmap::sorted_keys;

verus! {

/// Reading a key back after setting it gives the value written; every other
/// key keeps its value.
pub proof fn law_set_then_get(m: IniView, g: Seq<char>, k: Seq<char>, v: Seq<char>, g2: Seq<char>, k2: Seq<char>)
    ensures
        lookup(with_entry(m, g, k, v), g2, k2) == if g2 == g && k2 == k {
            Some(v)
        } else {
            lookup(m, g2, k2)
        },
{
}

/// Marking a device trusted never overrides a `Trusted` value already set,
/// and touches no other key.
pub proof fn law_trust_kept(m: IniView, g: Seq<char>, k: Seq<char>)
    ensures
        lookup(with_trust(m), "General"@, "Trusted"@) == match lookup(m, "General"@, "Trusted"@) {
            Some(t) => Some(t),
            None => Some("true"@),
        },
        !(g == "General"@ && k == "Trusted"@) ==> lookup(with_trust(m), g, k) == lookup(m, g, k),
{
}

/// A list entry as `;`-lists hold them: non-empty, without `;`.
pub open spec fn plain_item(t: Seq<char>) -> bool {
    t.len() > 0 && !t.contains(';')
}

proof fn lemma_split_cons(a: Seq<char>, rest: Seq<char>, sep: char)
    requires
        !a.contains(sep),
    ensures
        split(a + seq![sep] + rest, sep) == seq![a] + split(rest, sep),
{
    let s = a + seq![sep] + rest;
    assert forall|j: int| 0 <= j < a.len() implies a[j] != sep by {
        if a[j] == sep {
            assert(a.contains(sep));
        }
    }
    lemma_first_index_concat(a, seq![sep] + rest, sep);
    assert(first_index(seq![sep] + rest, sep) == Some(0int));
    assert(s =~= a + (seq![sep] + rest));
    assert(s.take(a.len() as int) =~= a);
    assert(s.skip(a.len() as int + 1) =~= rest);
}

proof fn lemma_join_front(l: Seq<Seq<char>>, sep: char)
    requires
        l.len() >= 2,
    ensures
        join(l, sep) == l[0] + seq![sep] + join(l.drop_first(), sep),
    decreases l.len(),
{
    if l.len() == 2 {
        assert(l.drop_last().len() == 1);
        assert(l.drop_first().len() == 1);
        assert(join(l.drop_first(), sep) == l[1]);
        assert(join(l.drop_last(), sep) == l[0]);
    } else {
        lemma_join_front(l.drop_last(), sep);
        assert(l.drop_last().drop_first() =~= l.drop_first().drop_last());
        assert(l.drop_first().last() == l.last());
    }
}

proof fn lemma_split_list_text(l: Seq<Seq<char>>)
    requires
        l.len() > 0,
        forall|i: int| 0 <= i < l.len() ==> plain_item(#[trigger] l[i]),
    ensures
        split(list_text(l), ';') == l.push(Seq::<char>::empty()),
    decreases l.len(),
{
    let e = Seq::<char>::empty();
    assert(plain_item(l[0]));
    if l.len() == 1 {
        assert(list_text(l) =~= l[0] + seq![';'] + e);
        lemma_split_cons(l[0], e, ';');
        assert(first_index(e, ';') is None);
        assert(split(e, ';') == seq![e]);
        assert(l.push(e) =~= seq![l[0]] + seq![e]);
    } else {
        lemma_join_front(l, ';');
        let r = l.drop_first();
        assert forall|i: int| 0 <= i < r.len() implies plain_item(#[trigger] r[i]) by {
            assert(r[i] == l[i + 1]);
        }
        lemma_split_list_text(r);
        assert(list_text(l) =~= l[0] + seq![';'] + list_text(r));
        lemma_split_cons(l[0], list_text(r), ';');
        assert(l.push(e) =~= seq![l[0]] + r.push(e));
    }
}

proof fn lemma_nonempty_plain(l: Seq<Seq<char>>)
    requires
        forall|i: int| 0 <= i < l.len() ==> plain_item(#[trigger] l[i]),
    ensures
        nonempty(l) == l,
    decreases l.len(),
{
    if l.len() > 0 {
        assert(plain_item(l[l.len() - 1]));
        assert forall|i: int| 0 <= i < l.drop_last().len() implies plain_item(#[trigger] l.drop_last()[i]) by {
            assert(l.drop_last()[i] == l[i]);
        }
        lemma_nonempty_plain(l.drop_last());
        assert(l.drop_last().push(l.last()) =~= l);
    }
}

/// A list written by `list_text` reads back as the same entries.
proof fn lemma_list_round_trip(l: Seq<Seq<char>>)
    requires
        l.len() > 0,
        forall|i: int| 0 <= i < l.len() ==> plain_item(#[trigger] l[i]),
    ensures
        list_items(list_text(l)) == l,
{
    lemma_split_list_text(l);
    let e = Seq::<char>::empty();
    assert(l.push(e).drop_last() =~= l);
    lemma_nonempty_plain(l);
}

/// The pieces of a text split at `sep` do not hold `sep`.
proof fn lemma_split_pieces(s: Seq<char>, sep: char)
    ensures
        forall|i: int| 0 <= i < split(s, sep).len() ==> !(#[trigger] split(s, sep)[i]).contains(sep),
    decreases s.len(),
{
    lemma_first_index(s, sep);
    match first_index(s, sep) {
        Some(k) => {
            lemma_split_pieces(s.skip(k + 1), sep);
            let p = split(s, sep);
            assert forall|i: int| 0 <= i < p.len() implies !(#[trigger] p[i]).contains(sep) by {
                if i == 0 {
                    if s.take(k).contains(sep) {
                        let j = choose|j: int| 0 <= j < s.take(k).len() && s.take(k)[j] == sep;
                        assert(s[j] == sep);
                    }
                } else {
                    assert(p[i] == split(s.skip(k + 1), sep)[i - 1]);
                }
            }
        },
        None => {
            if s.contains(sep) {
                let j = choose|j: int| 0 <= j < s.len() && s[j] == sep;
            }
        },
    }
}

proof fn lemma_nonempty_sub(l: Seq<Seq<char>>, c: char)
    requires
        forall|i: int| 0 <= i < l.len() ==> !(#[trigger] l[i]).contains(c),
    ensures
        forall|i: int| 0 <= i < nonempty(l).len() ==> (#[trigger] nonempty(l)[i]).len() > 0 && !nonempty(l)[i].contains(c),
    decreases l.len(),
{
    if l.len() > 0 {
        assert forall|i: int| 0 <= i < l.drop_last().len() implies !(#[trigger] l.drop_last()[i]).contains(c) by {
            assert(l.drop_last()[i] == l[i]);
        }
        lemma_nonempty_sub(l.drop_last(), c);
        assert(!l[l.len() - 1].contains(c));
        let n = nonempty(l);
        let n0 = nonempty(l.drop_last());
        assert forall|i: int| 0 <= i < n.len() implies (#[trigger] n[i]).len() > 0 && !n[i].contains(c) by {
            if l.last().len() == 0 {
                assert(n == n0);
            } else {
                assert(n == n0.push(l.last()));
                if i < n0.len() {
                    assert(n[i] == n0[i]);
                }
            }
        }
    }
}

/// The entries of a `;`-list are plain.
proof fn lemma_list_items_plain(s: Seq<char>)
    ensures
        forall|i: int| 0 <= i < list_items(s).len() ==> plain_item(#[trigger] list_items(s)[i]),
{
    lemma_split_pieces(s, ';');
    lemma_nonempty_sub(split(s, ';'), ';');
}

/// Adding a transport lists it after the transports already listed, which
/// stay as they were, and adding it again changes nothing.
pub proof fn law_technology_added(m: IniView, t: Seq<char>)
    requires
        plain_item(t),
    ensures
        ({
            let before = list_items(text_or_empty(m, "General"@, "SupportedTechnologies"@));
            let after = list_items(text_or_empty(with_technology(m, t), "General"@, "SupportedTechnologies"@));
            &&& after.contains(t)
            &&& before.len() <= after.len()
            &&& after.take(before.len() as int) == before
            &&& with_technology(with_technology(m, t), t) == with_technology(m, t)
        }),
{
    let before = list_items(text_or_empty(m, "General"@, "SupportedTechnologies"@));
    let l = technologies_with(m, t);
    lemma_list_items_plain(text_or_empty(m, "General"@, "SupportedTechnologies"@));
    assert forall|i: int| 0 <= i < l.len() implies plain_item(#[trigger] l[i]) by {
        if i < before.len() {
            assert(l[i] == before[i]);
        }
    }
    if before.contains(t) {
        let j = choose|j: int| 0 <= j < before.len() && before[j] == t;
        assert(l.len() > 0);
    } else {
        assert(l[l.len() - 1] == t);
    }
    lemma_list_round_trip(l);
    let m1 = with_technology(m, t);
    assert(text_or_empty(m1, "General"@, "SupportedTechnologies"@) == list_text(l));
    let after = list_items(list_text(l));
    assert(after == l);
    if !before.contains(t) {
        assert(l[before.len() as int] == t);
    }
    assert(after.contains(t));
    assert(after.take(before.len() as int) =~= before);
    assert(list_items(text_or_empty(m1, "General"@, "SupportedTechnologies"@)) == l);
    assert(l.contains(t));
    assert(technologies_with(m1, t) == l);
    let gm = crate::ini::group_of(m1, "General"@);
    assert(gm.insert("SupportedTechnologies"@, list_text(l)) =~= gm);
    assert(with_technology(m1, t) =~= m1);
}

/// The five keys of a long-term key group.
pub open spec fn ltk_key(k: Seq<char>) -> bool {
    k == "Key"@ || k == "Authenticated"@ || k == "EncSize"@ || k == "EDiv"@ || k == "Rand"@
}

/// The value a long-term key group holds for its key `k`.
pub open spec fn ltk_value(k: Seq<char>, key: Seq<u8>, e: u32, d: u32, r: u64, a: bool) -> Seq<char> {
    if k == "Key"@ {
        hex_spec(key)
    } else if k == "Authenticated"@ {
        if a { "1"@ } else { "0"@ }
    } else if k == "EncSize"@ {
        decimal(e as nat)
    } else if k == "EDiv"@ {
        decimal(d as nat)
    } else {
        decimal(r as nat)
    }
}

proof fn lemma_ltk_group(m: IniView, g: Seq<char>, key: Seq<u8>, e: u32, d: u32, r: u64, a: bool, g2: Seq<char>, k2: Seq<char>)
    ensures
        g2 != g ==> lookup(with_ltk_group(m, g, key, e, d, r, a), g2, k2) == lookup(m, g2, k2),
        g2 == g && !ltk_key(k2) ==> lookup(with_ltk_group(m, g, key, e, d, r, a), g2, k2) == lookup(m, g2, k2),
        g2 == g && ltk_key(k2) ==> lookup(with_ltk_group(m, g, key, e, d, r, a), g2, k2) == Some(
            ltk_value(k2, key, e, d, r, a),
        ),
{
    reveal_strlit("Key");
    reveal_strlit("Authenticated");
    reveal_strlit("EncSize");
    reveal_strlit("EDiv");
    reveal_strlit("Rand");
    assert("Key"@.len() == 3);
    assert("Authenticated"@.len() == 13);
    assert("EncSize"@.len() == 7);
    assert("EDiv"@.len() == 4);
    assert("Rand"@.len() == 4);
    assert("EDiv"@[0] != "Rand"@[0]);
}

/// A long-term key with zero `EDiv` and `Rand` (Secure Connections) is
/// written alike to `[LongTermKey]` and both peripheral-role groups; any
/// other key leaves the peripheral-role groups as they were.
pub proof fn law_ltk_roles(m: IniView, key: Seq<u8>, enc_size: u32, ediv: u32, rand: u64, authenticated: bool, k: Seq<char>)
    ensures
        ({
            let r = with_ltk(m, key, enc_size, ediv, rand, authenticated);
            &&& lookup(r, "LongTermKey"@, "Key"@) == Some(hex_spec(key))
            &&& lookup(r, "LongTermKey"@, "EDiv"@) == Some(decimal(ediv as nat))
            &&& (ediv == 0 && rand == 0 && ltk_key(k)) ==> lookup(r, "PeripheralLongTermKey"@, k)
                == lookup(r, "LongTermKey"@, k) && lookup(r, "SlaveLongTermKey"@, k) == lookup(r, "LongTermKey"@, k)
            &&& !(ediv == 0 && rand == 0) ==> lookup(r, "PeripheralLongTermKey"@, k) == lookup(m, "PeripheralLongTermKey"@, k)
                && lookup(r, "SlaveLongTermKey"@, k) == lookup(m, "SlaveLongTermKey"@, k)
        }),
{
    reveal_strlit("LongTermKey");
    reveal_strlit("PeripheralLongTermKey");
    reveal_strlit("SlaveLongTermKey");
    reveal_strlit("Key");
    reveal_strlit("EDiv");
    reveal_strlit("Authenticated");
    reveal_strlit("EncSize");
    assert("Key"@.len() == 3 && "Authenticated"@.len() == 13 && "EncSize"@.len() == 7 && "EDiv"@.len() == 4);
    let lt = "LongTermKey"@;
    let pl = "PeripheralLongTermKey"@;
    let sl = "SlaveLongTermKey"@;
    assert(lt.len() == 11 && pl.len() == 21 && sl.len() == 16);
    let m1 = with_ltk_group(m, lt, key, enc_size, ediv, rand, authenticated);
    lemma_ltk_group(m, lt, key, enc_size, ediv, rand, authenticated, lt, "Key"@);
    lemma_ltk_group(m, lt, key, enc_size, ediv, rand, authenticated, lt, "EDiv"@);
    lemma_ltk_group(m, lt, key, enc_size, ediv, rand, authenticated, pl, k);
    lemma_ltk_group(m, lt, key, enc_size, ediv, rand, authenticated, sl, k);
    lemma_ltk_group(m, lt, key, enc_size, ediv, rand, authenticated, lt, k);
    if ediv == 0 && rand == 0 {
        let m2 = with_ltk_group(m1, pl, key, enc_size, ediv, rand, authenticated);
        lemma_ltk_group(m1, pl, key, enc_size, ediv, rand, authenticated, lt, "Key"@);
        lemma_ltk_group(m1, pl, key, enc_size, ediv, rand, authenticated, lt, "EDiv"@);
        lemma_ltk_group(m1, pl, key, enc_size, ediv, rand, authenticated, lt, k);
        lemma_ltk_group(m1, pl, key, enc_size, ediv, rand, authenticated, pl, k);
        lemma_ltk_group(m2, sl, key, enc_size, ediv, rand, authenticated, lt, "Key"@);
        lemma_ltk_group(m2, sl, key, enc_size, ediv, rand, authenticated, lt, "EDiv"@);
        lemma_ltk_group(m2, sl, key, enc_size, ediv, rand, authenticated, lt, k);
        lemma_ltk_group(m2, sl, key, enc_size, ediv, rand, authenticated, pl, k);
        lemma_ltk_group(m2, sl, key, enc_size, ediv, rand, authenticated, sl, k);
    }
}

/// The keys Windows metadata may write: `[General]` `Name`, `Appearance`,
/// `Class`, `Services`, and `[DeviceID]`.
pub open spec fn metadata_key(g: Seq<char>, k: Seq<char>) -> bool {
    g == "DeviceID"@ || (g == "General"@ && (k == "Name"@ || k == "Appearance"@ || k == "Class"@
        || k == "Services"@))
}

/// Writing Windows metadata leaves every other key as it was: aliases,
/// trust, keys, caches.
pub proof fn law_metadata_keeps_others(
    m: IniView,
    device: Option<&Values>,
    is_le: bool,
    paths: Seq<Seq<char>>,
    services_path: Seq<char>,
    g: Seq<char>,
    k: Seq<char>,
)
    requires
        !metadata_key(g, k),
    ensures
        lookup(with_services(with_device_info(m, device, is_le), paths, services_path), g, k) == lookup(m, g, k),
{
}

/// The value Windows's device record gives for a metadata key, when it has
/// a valid one: the name; the class (Classic, 1 to 0xffffff) or appearance
/// (LE, 1 to 0xffff); the four `[DeviceID]` entries, when all four are valid.
pub open spec fn windows_value(device: Option<&Values>, is_le: bool, g: Seq<char>, k: Seq<char>) -> Option<Seq<char>> {
    match device {
        None => None,
        Some(d) => if g == "General"@ && k == "Name"@ {
            device_name(d, is_le)
        } else if g == "General"@ && k == "Class"@ && !is_le {
            match dword_spec(d@, "COD"@) {
                Some(v) => if 0 < v <= 0xffffff {
                    Some("0x"@ + hex_fixed(v as nat, 6))
                } else {
                    None
                },
                None => None,
            }
        } else if g == "General"@ && k == "Appearance"@ && is_le {
            match dword_spec(d@, "LEAppearance"@) {
                Some(v) => if 0 < v <= 0xffff {
                    Some("0x"@ + hex_fixed(v as nat, 4))
                } else {
                    None
                },
                None => None,
            }
        } else if g == "DeviceID"@ {
            match device_id(d) {
                Some((src, vid, pid, ver)) => if k == "Source"@ {
                    Some(decimal(src as nat))
                } else if k == "Vendor"@ {
                    Some(decimal(vid as nat))
                } else if k == "Product"@ {
                    Some(decimal(pid as nat))
                } else if k == "Version"@ {
                    Some(decimal(ver as nat))
                } else {
                    None
                },
                None => None,
            }
        } else {
            None
        },
    }
}

/// Windows metadata overwrites a BlueZ value only with a valid Windows
/// value; where Windows has none (missing or invalid), the BlueZ value
/// stays. (The service list is merged instead: see `law_services_merged`.)
pub proof fn law_metadata_only_when_valid(
    m: IniView,
    device: Option<&Values>,
    is_le: bool,
    paths: Seq<Seq<char>>,
    services_path: Seq<char>,
    g: Seq<char>,
    k: Seq<char>,
)
    requires
        !(g == "General"@ && k == "Services"@),
    ensures
        lookup(with_services(with_device_info(m, device, is_le), paths, services_path), g, k)
            == match windows_value(device, is_le, g, k) {
            Some(v) => Some(v),
            None => lookup(m, g, k),
        },
{
    reveal_strlit("Name");
    reveal_strlit("Appearance");
    reveal_strlit("Class");
    reveal_strlit("Services");
    reveal_strlit("General");
    reveal_strlit("DeviceID");
    reveal_strlit("Source");
    reveal_strlit("Vendor");
    reveal_strlit("Product");
    reveal_strlit("Version");
    assert("Name"@.len() == 4 && "Appearance"@.len() == 10 && "Class"@.len() == 5 && "Services"@.len() == 8);
    assert("General"@.len() == 7 && "DeviceID"@.len() == 8);
    assert("Source"@.len() == 6 && "Vendor"@.len() == 6 && "Product"@.len() == 7 && "Version"@.len() == 7);
    assert("Source"@[0] != "Vendor"@[0] && "Product"@[0] != "Version"@[0]);
}

proof fn lemma_lower_char_twice(c: char)
    ensures
        lower_char(lower_char(c)) == lower_char(c),
{
    if 65 <= (c as u32) <= 90 {
        let d = ((c as u32) + 32) as char;
        assert((d as u32) == (c as u32) + 32);
    }
}

proof fn lemma_lower_twice(s: Seq<char>)
    ensures
        lower(lower(s)) == lower(s),
{
    assert forall|i: int| 0 <= i < s.len() implies #[trigger] lower(lower(s))[i] == lower(s)[i] by {
        lemma_lower_char_twice(s[i]);
    }
    assert(lower(lower(s)) =~= lower(s));
}

/// A service UUID as the library writes it: a plain list entry, never the
/// placeholder.
proof fn lemma_uuid_entry(raw: Seq<char>)
    ensures
        uuid_spec(raw) matches Some(u) ==> plain_item(u) && !eq_ignore_case(u, placeholder_uuid()),
{
    if let Some(u) = uuid_spec(raw) {
        let c = raw.subrange(1, raw.len() - 1);
        assert(u == lower(c));
        lemma_lower_twice(c);
        if u.contains(';') {
            let j = choose|j: int| 0 <= j < u.len() && u[j] == ';';
            assert(c[j] == '-' || is_hex_digit(c[j]));
            if 65 <= (c[j] as u32) <= 90 {
                let d = ((c[j] as u32) + 32) as char;
                assert((d as u32) == (c[j] as u32) + 32);
            }
        }
    }
}

/// What merging service UUIDs keeps and adds.
proof fn lemma_merge(items: Seq<Seq<char>>, paths: Seq<Seq<char>>, prefix: Seq<char>)
    ensures
        ({
            let r = merge_services(items, paths, prefix);
            &&& items.len() <= r.len()
            &&& r.take(items.len() as int) == items
            &&& forall|i: int| items.len() <= i < r.len() ==> plain_item(#[trigger] r[i])
                && !eq_ignore_case(r[i], placeholder_uuid()) && !holds_ignoring_case(r.take(i), r[i])
        }),
    decreases paths.len(),
{
    if paths.len() == 0 {
        assert(items.take(items.len() as int) =~= items);
    } else {
        lemma_merge(items, paths.drop_last(), prefix);
        let l = merge_services(items, paths.drop_last(), prefix);
        let p = paths.last();
        let r = merge_services(items, paths, prefix);
        if crate::text::has_prefix(p, prefix) {
            lemma_uuid_entry(p.skip(prefix.len() as int));
            if let Some(u) = uuid_spec(p.skip(prefix.len() as int)) {
                if !holds_ignoring_case(l, u) {
                    assert(r == l.push(u));
                    assert(r.take(items.len() as int) =~= l.take(items.len() as int));
                    assert forall|i: int| items.len() <= i < r.len() implies plain_item(#[trigger] r[i])
                        && !eq_ignore_case(r[i], placeholder_uuid()) && !holds_ignoring_case(r.take(i), r[i]) by {
                        if i < l.len() {
                            assert(r[i] == l[i]);
                            assert(r.take(i) =~= l.take(i));
                        } else {
                            assert(r.take(i) =~= l);
                        }
                    }
                }
            }
        }
    }
}

/// Merging Windows's service UUIDs keeps the UUIDs BlueZ lists, in order,
/// and adds only UUIDs not listed yet (ignoring case), never the placeholder.
pub proof fn law_services_merged(m: IniView, paths: Seq<Seq<char>>, services_path: Seq<char>)
    ensures
        ({
            let before = list_items(text_or_empty(m, "General"@, "Services"@));
            let after = list_items(text_or_empty(with_services(m, paths, services_path), "General"@, "Services"@));
            &&& before.len() <= after.len()
            &&& after.take(before.len() as int) == before
            &&& forall|i: int| before.len() <= i < after.len() ==> !eq_ignore_case(#[trigger] after[i], placeholder_uuid())
                && !holds_ignoring_case(after.take(i), after[i])
        }),
{
    let before = list_items(text_or_empty(m, "General"@, "Services"@));
    let merged = merge_services(before, paths, service_prefix(services_path));
    lemma_merge(before, paths, service_prefix(services_path));
    lemma_list_items_plain(text_or_empty(m, "General"@, "Services"@));
    if merged.len() > before.len() {
        assert forall|i: int| 0 <= i < merged.len() implies plain_item(#[trigger] merged[i]) by {
            if i < before.len() {
                assert(merged[i] == merged.take(before.len() as int)[i]);
            }
        }
        lemma_list_round_trip(merged);
    } else {
        assert(before.take(before.len() as int) =~= before);
    }
}

/// The keys writing a Classic bond may change: the transports, `Trusted`
/// (only when unset), the `[LinkKey]` key, type and PIN length, and Windows
/// metadata.
pub open spec fn classic_bond_key(g: Seq<char>, k: Seq<char>) -> bool {
    ||| metadata_key(g, k)
    ||| g == "General"@ && (k == "SupportedTechnologies"@ || k == "Trusted"@)
    ||| g == "LinkKey"@ && (k == "Key"@ || k == "Type"@ || k == "PINLength"@)
}

/// Writing a Classic bond leaves every other key as it was (aliases, other
/// groups, caches), keeps a `Trusted` value already set, and stores the link
/// key with its type.
pub proof fn law_classic_bond_keeps_others(
    m: IniView,
    link_key: Seq<u8>,
    kind: u8,
    devices: &Registry,
    dp: Seq<char>,
    sp: Seq<char>,
    g: Seq<char>,
    k: Seq<char>,
)
    ensures
        ({
            let r = with_classic_bond(m, link_key, kind, devices, dp, sp);
            &&& !classic_bond_key(g, k) ==> lookup(r, g, k) == lookup(m, g, k)
            &&& lookup(r, "General"@, "Trusted"@) == match lookup(m, "General"@, "Trusted"@) {
                Some(t) => Some(t),
                None => Some("true"@),
            }
            &&& lookup(r, "LinkKey"@, "Key"@) == Some(hex_spec(link_key))
            &&& lookup(r, "LinkKey"@, "Type"@) == Some(decimal(kind as nat))
        }),
{
    reveal_strlit("General");
    reveal_strlit("DeviceID");
    reveal_strlit("LinkKey");
    reveal_strlit("Trusted");
    reveal_strlit("Name");
    reveal_strlit("Appearance");
    reveal_strlit("Class");
    reveal_strlit("Services");
    reveal_strlit("SupportedTechnologies");
    reveal_strlit("Key");
    reveal_strlit("Type");
    reveal_strlit("PINLength");
    assert("General"@.len() == 7 && "DeviceID"@.len() == 8 && "LinkKey"@.len() == 7);
    assert("General"@[0] != "LinkKey"@[0]);
    assert("Trusted"@.len() == 7 && "Name"@.len() == 4 && "Appearance"@.len() == 10);
    assert("Class"@.len() == 5 && "Services"@.len() == 8 && "SupportedTechnologies"@.len() == 21);
    assert("Trusted"@[0] != "Services"@[0]);
    assert("Key"@.len() == 3 && "Type"@.len() == 4 && "PINLength"@.len() == 9);
    let gen = "General"@;
    let lk = "LinkKey"@;
    let tr = "Trusted"@;
    let m0 = with_technology(m, "BR/EDR"@);
    let m1 = with_trust(m0);
    let m2 = with_link_key(m1, link_key, kind, pin_length_spec(m));
    let ma = with_entry(m1, lk, "Key"@, hex_spec(link_key));
    let mb = with_entry(ma, lk, "Type"@, decimal(kind as nat));
    assert(m2 == with_entry(mb, lk, "PINLength"@, decimal(pin_length_spec(m) as nat)));
    let r = with_classic_bond(m, link_key, kind, devices, dp, sp);
    assert(r == with_services(with_device_info(m2, entry_of(devices, dp), false), sorted_keys(devices@), sp));
    if !classic_bond_key(g, k) {
        law_metadata_keeps_others(m2, entry_of(devices, dp), false, sorted_keys(devices@), sp, g, k);
        law_set_then_get(mb, lk, "PINLength"@, decimal(pin_length_spec(m) as nat), g, k);
        law_set_then_get(ma, lk, "Type"@, decimal(kind as nat), g, k);
        law_set_then_get(m1, lk, "Key"@, hex_spec(link_key), g, k);
        law_trust_kept(m0, g, k);
        law_set_then_get(m, gen, "SupportedTechnologies"@, list_text(technologies_with(m, "BR/EDR"@)), g, k);
    }
    law_metadata_keeps_others(m2, entry_of(devices, dp), false, sorted_keys(devices@), sp, gen, tr);
    law_metadata_keeps_others(m2, entry_of(devices, dp), false, sorted_keys(devices@), sp, lk, "Key"@);
    law_metadata_keeps_others(m2, entry_of(devices, dp), false, sorted_keys(devices@), sp, lk, "Type"@);
    law_set_then_get(mb, lk, "PINLength"@, decimal(pin_length_spec(m) as nat), gen, tr);
    law_set_then_get(mb, lk, "PINLength"@, decimal(pin_length_spec(m) as nat), lk, "Key"@);
    law_set_then_get(mb, lk, "PINLength"@, decimal(pin_length_spec(m) as nat), lk, "Type"@);
    law_set_then_get(ma, lk, "Type"@, decimal(kind as nat), gen, tr);
    law_set_then_get(ma, lk, "Type"@, decimal(kind as nat), lk, "Key"@);
    law_set_then_get(m1, lk, "Key"@, hex_spec(link_key), gen, tr);
    law_set_then_get(m, gen, "SupportedTechnologies"@, list_text(technologies_with(m, "BR/EDR"@)), gen, tr);
    law_trust_kept(m0, gen, tr);
}

/// The keys writing an LE bond may change: the address type, transports,
/// `Trusted` (only when unset), Windows metadata, the long-term key groups,
/// the remote IRK and the signature key groups.
pub open spec fn ble_bond_key(g: Seq<char>, k: Seq<char>) -> bool {
    ||| metadata_key(g, k)
    ||| g == "General"@ && (k == "AddressType"@ || k == "SupportedTechnologies"@ || k == "Trusted"@)
    ||| (g == "LongTermKey"@ || g == "PeripheralLongTermKey"@ || g == "SlaveLongTermKey"@) && ltk_key(k)
    ||| g == "IdentityResolvingKey"@ && k == "Key"@
    ||| (g == "LocalSignatureKey"@ || g == "RemoteSignatureKey"@)
        && (k == "Key"@ || k == "Counter"@ || k == "Authenticated"@)
}

proof fn lemma_ltk_keeps(m: IniView, key: Seq<u8>, e: u32, d: u32, r: u64, a: bool, g: Seq<char>, k: Seq<char>)
    ensures
        !((g == "LongTermKey"@ || g == "PeripheralLongTermKey"@ || g == "SlaveLongTermKey"@) && ltk_key(k))
            ==> lookup(with_ltk(m, key, e, d, r, a), g, k) == lookup(m, g, k),
        lookup(with_ltk(m, key, e, d, r, a), "LongTermKey"@, "Key"@) == Some(hex_spec(key)),
{
    reveal_strlit("LongTermKey");
    reveal_strlit("PeripheralLongTermKey");
    reveal_strlit("SlaveLongTermKey");
    reveal_strlit("Key");
    let lt = "LongTermKey"@;
    let pl = "PeripheralLongTermKey"@;
    let sl = "SlaveLongTermKey"@;
    assert(lt.len() == 11 && pl.len() == 21 && sl.len() == 16);
    let m1 = with_ltk_group(m, lt, key, e, d, r, a);
    let m2 = with_ltk_group(m1, pl, key, e, d, r, a);
    lemma_ltk_group(m, lt, key, e, d, r, a, g, k);
    lemma_ltk_group(m1, pl, key, e, d, r, a, g, k);
    lemma_ltk_group(m2, sl, key, e, d, r, a, g, k);
    lemma_ltk_group(m, lt, key, e, d, r, a, lt, "Key"@);
    lemma_ltk_group(m1, pl, key, e, d, r, a, lt, "Key"@);
    lemma_ltk_group(m2, sl, key, e, d, r, a, lt, "Key"@);
}

proof fn lemma_csrk_keeps(m: IniView, values: &Values, reg: Seq<char>, group: Seq<char>, a: bool, g: Seq<char>, k: Seq<char>)
    ensures
        !(g == group && (k == "Key"@ || k == "Counter"@ || k == "Authenticated"@))
            ==> lookup(with_csrk(m, values, reg, group, a), g, k) == lookup(m, g, k),
{
}

/// The groups and keys of the last steps of an LE bond: the long-term key,
/// the remote IRK and the signature keys.
spec fn ble_key_groups_key(g: Seq<char>, k: Seq<char>) -> bool {
    ||| (g == "LongTermKey"@ || g == "PeripheralLongTermKey"@ || g == "SlaveLongTermKey"@) && ltk_key(k)
    ||| g == "IdentityResolvingKey"@ && k == "Key"@
    ||| (g == "LocalSignatureKey"@ || g == "RemoteSignatureKey"@)
        && (k == "Key"@ || k == "Counter"@ || k == "Authenticated"@)
}

proof fn lemma_ble_keys_keep(m: IniView, b: BleModel, values: &Values, g: Seq<char>, k: Seq<char>)
    ensures
        ({
            let m4 = with_ltk(m, b.ltk, b.size, b.ediv, b.rand, b.authenticated);
            let m5 = with_remote_irk(m4, values);
            let m6 = with_csrk(m5, values, "CSRK"@, "LocalSignatureKey"@, b.authenticated);
            let r = with_csrk(m6, values, "CSRKInbound"@, "RemoteSignatureKey"@, b.authenticated);
            &&& !ble_key_groups_key(g, k) ==> lookup(r, g, k) == lookup(m, g, k)
            &&& lookup(r, "LongTermKey"@, "Key"@) == Some(hex_spec(b.ltk))
        }),
{
    reveal_strlit("LongTermKey");
    reveal_strlit("IdentityResolvingKey");
    reveal_strlit("LocalSignatureKey");
    reveal_strlit("RemoteSignatureKey");
    assert("LongTermKey"@.len() == 11 && "IdentityResolvingKey"@.len() == 20);
    assert("LocalSignatureKey"@.len() == 17 && "RemoteSignatureKey"@.len() == 18);
    let m4 = with_ltk(m, b.ltk, b.size, b.ediv, b.rand, b.authenticated);
    let m5 = with_remote_irk(m4, values);
    let m6 = with_csrk(m5, values, "CSRK"@, "LocalSignatureKey"@, b.authenticated);
    lemma_ltk_keeps(m, b.ltk, b.size, b.ediv, b.rand, b.authenticated, g, k);
    lemma_ltk_keeps(m, b.ltk, b.size, b.ediv, b.rand, b.authenticated, "LongTermKey"@, "Key"@);
    lemma_csrk_keeps(m5, values, "CSRK"@, "LocalSignatureKey"@, b.authenticated, g, k);
    lemma_csrk_keeps(m6, values, "CSRKInbound"@, "RemoteSignatureKey"@, b.authenticated, g, k);
    lemma_csrk_keeps(m5, values, "CSRK"@, "LocalSignatureKey"@, b.authenticated, "LongTermKey"@, "Key"@);
    lemma_csrk_keeps(m6, values, "CSRKInbound"@, "RemoteSignatureKey"@, b.authenticated, "LongTermKey"@, "Key"@);
}

/// Writing an LE bond leaves every other key as it was (aliases, other
/// groups, caches), keeps a `Trusted` value already set, and stores the
/// long-term key.
pub proof fn law_ble_bond_keeps_others(
    m: IniView,
    b: BleModel,
    values: &Values,
    devices: &Registry,
    dp: Seq<char>,
    sp: Seq<char>,
    g: Seq<char>,
    k: Seq<char>,
)
    ensures
        ({
            let r = with_ble_bond(m, b, values, devices, dp, sp);
            &&& !ble_bond_key(g, k) ==> lookup(r, g, k) == lookup(m, g, k)
            &&& lookup(r, "General"@, "Trusted"@) == match lookup(m, "General"@, "Trusted"@) {
                Some(t) => Some(t),
                None => Some("true"@),
            }
            &&& lookup(r, "LongTermKey"@, "Key"@) == Some(hex_spec(b.ltk))
        }),
{
    reveal_strlit("General");
    reveal_strlit("DeviceID");
    reveal_strlit("Trusted");
    reveal_strlit("AddressType");
    reveal_strlit("Name");
    reveal_strlit("Appearance");
    reveal_strlit("Class");
    reveal_strlit("Services");
    reveal_strlit("SupportedTechnologies");
    reveal_strlit("LongTermKey");
    reveal_strlit("PeripheralLongTermKey");
    reveal_strlit("SlaveLongTermKey");
    reveal_strlit("IdentityResolvingKey");
    reveal_strlit("LocalSignatureKey");
    reveal_strlit("RemoteSignatureKey");
    assert("General"@.len() == 7 && "DeviceID"@.len() == 8);
    assert("Trusted"@.len() == 7 && "Name"@.len() == 4 && "Appearance"@.len() == 10);
    assert("Class"@.len() == 5 && "Services"@.len() == 8 && "SupportedTechnologies"@.len() == 21);
    assert("AddressType"@.len() == 11 && "Trusted"@[0] != "Services"@[0]);
    assert("LongTermKey"@.len() == 11 && "PeripheralLongTermKey"@.len() == 21 && "SlaveLongTermKey"@.len() == 16);
    assert("IdentityResolvingKey"@.len() == 20 && "LocalSignatureKey"@.len() == 17);
    assert("RemoteSignatureKey"@.len() == 18);
    let gen = "General"@;
    let tr = "Trusted"@;
    let at = if b.static_address { "static"@ } else { "public"@ };
    let m1 = with_entry(m, gen, "AddressType"@, at);
    let m1b = with_technology(m1, "LE"@);
    let m2 = with_trust(m1b);
    let m3 = with_services(with_device_info(m2, entry_of(devices, dp), true), sorted_keys(devices@), sp);
    lemma_ble_keys_keep(m3, b, values, g, k);
    lemma_ble_keys_keep(m3, b, values, gen, tr);
    if !ble_bond_key(g, k) {
        law_metadata_keeps_others(m2, entry_of(devices, dp), true, sorted_keys(devices@), sp, g, k);
        law_trust_kept(m1b, g, k);
        law_set_then_get(m1, gen, "SupportedTechnologies"@, list_text(technologies_with(m1, "LE"@)), g, k);
        law_set_then_get(m, gen, "AddressType"@, at, g, k);
    }
    law_metadata_keeps_others(m2, entry_of(devices, dp), true, sorted_keys(devices@), sp, gen, tr);
    law_trust_kept(m1b, gen, tr);
    law_set_then_get(m1, gen, "SupportedTechnologies"@, list_text(technologies_with(m1, "LE"@)), gen, tr);
    law_set_then_get(m, gen, "AddressType"@, at, gen, tr);
}

/// Setting a key to the value it already has changes nothing.
proof fn lemma_entry_same(x: IniView, g: Seq<char>, k: Seq<char>, v: Seq<char>)
    requires
        lookup(x, g, k) == Some(v),
    ensures
        with_entry(x, g, k, v) == x,
{
    assert(group_of(x, g).insert(k, v) =~= x[g]);
    assert(x.insert(g, x[g]) =~= x);
}

/// Adding a transport already added (the transports reading as they did
/// after it was added) changes nothing.
proof fn lemma_technology_fixed(x: IniView, y: IniView, t: Seq<char>)
    requires
        plain_item(t),
        lookup(x, "General"@, "SupportedTechnologies"@) == lookup(with_technology(y, t), "General"@, "SupportedTechnologies"@),
    ensures
        with_technology(x, t) == x,
{
    let y1 = with_technology(y, t);
    law_technology_added(y, t);
    let v = list_text(technologies_with(y1, t));
    law_set_then_get(y1, "General"@, "SupportedTechnologies"@, v, "General"@, "SupportedTechnologies"@);
    assert(technologies_with(x, t) == technologies_with(y1, t));
    lemma_entry_same(x, "General"@, "SupportedTechnologies"@, v);
}

/// After merging, every UUID the paths give is listed (ignoring case).
proof fn lemma_merge_holds(items: Seq<Seq<char>>, paths: Seq<Seq<char>>, prefix: Seq<char>)
    ensures
        forall|j: int| 0 <= j < paths.len() && has_prefix(#[trigger] paths[j], prefix)
            && uuid_spec(paths[j].skip(prefix.len() as int)) is Some ==> holds_ignoring_case(
                merge_services(items, paths, prefix),
                uuid_spec(paths[j].skip(prefix.len() as int)).unwrap(),
            ),
    decreases paths.len(),
{
    if paths.len() > 0 {
        let q = paths.drop_last();
        lemma_merge_holds(items, q, prefix);
        let l = merge_services(items, q, prefix);
        let r = merge_services(items, paths, prefix);
        assert forall|j: int| 0 <= j < paths.len() && has_prefix(#[trigger] paths[j], prefix)
            && uuid_spec(paths[j].skip(prefix.len() as int)) is Some implies holds_ignoring_case(
                r,
                uuid_spec(paths[j].skip(prefix.len() as int)).unwrap(),
            ) by {
            let u = uuid_spec(paths[j].skip(prefix.len() as int)).unwrap();
            if j < q.len() {
                assert(q[j] == paths[j]);
                assert(holds_ignoring_case(l, u));
                let i = choose|i: int| 0 <= i < l.len() && eq_ignore_case(#[trigger] l[i], u);
                if r != l {
                    assert(r[i] == l[i]);
                }
                assert(eq_ignore_case(r[i], u));
            } else {
                if !holds_ignoring_case(l, u) {
                    assert(r[l.len() as int] == u);
                    assert(eq_ignore_case(r[l.len() as int], u));
                }
            }
        }
    }
}

/// Merging UUIDs that are all listed already changes nothing.
proof fn lemma_merge_fixed(items: Seq<Seq<char>>, paths: Seq<Seq<char>>, prefix: Seq<char>)
    requires
        forall|j: int| 0 <= j < paths.len() && has_prefix(#[trigger] paths[j], prefix)
            && uuid_spec(paths[j].skip(prefix.len() as int)) is Some ==> holds_ignoring_case(
                items,
                uuid_spec(paths[j].skip(prefix.len() as int)).unwrap(),
            ),
    ensures
        merge_services(items, paths, prefix) == items,
    decreases paths.len(),
{
    if paths.len() > 0 {
        let q = paths.drop_last();
        assert forall|j: int| 0 <= j < q.len() && has_prefix(#[trigger] q[j], prefix)
            && uuid_spec(q[j].skip(prefix.len() as int)) is Some implies holds_ignoring_case(
                items,
                uuid_spec(q[j].skip(prefix.len() as int)).unwrap(),
            ) by {
            assert(q[j] == paths[j]);
        }
        lemma_merge_fixed(items, q, prefix);
        let p = paths.last();
        assert(p == paths[paths.len() - 1]);
    }
}

/// After a merge, merging the same service UUIDs again adds none.
proof fn lemma_services_settled(y: IniView, paths: Seq<Seq<char>>, sp: Seq<char>)
    ensures
        ({
            let items = list_items(text_or_empty(with_services(y, paths, sp), "General"@, "Services"@));
            merge_services(items, paths, service_prefix(sp)).len() <= items.len()
        }),
{
    let prefix = service_prefix(sp);
    let items = list_items(text_or_empty(y, "General"@, "Services"@));
    let merged = merge_services(items, paths, prefix);
    let r = with_services(y, paths, sp);
    lemma_merge(items, paths, prefix);
    lemma_merge_holds(items, paths, prefix);
    if merged.len() > items.len() {
        lemma_list_items_plain(text_or_empty(y, "General"@, "Services"@));
        assert forall|i: int| 0 <= i < merged.len() implies plain_item(#[trigger] merged[i]) by {
            if i < items.len() {
                assert(merged[i] == merged.take(items.len() as int)[i]);
            }
        }
        lemma_list_round_trip(merged);
        law_set_then_get(y, "General"@, "Services"@, list_text(merged), "General"@, "Services"@);
        assert(list_items(text_or_empty(r, "General"@, "Services"@)) == merged);
        lemma_merge_fixed(merged, paths, prefix);
    } else {
        assert(r == y);
    }
}

/// Merging service UUIDs into a key file whose service list reads as it
/// did after the same merge changes nothing.
proof fn lemma_services_fixed(x: IniView, y: IniView, paths: Seq<Seq<char>>, sp: Seq<char>)
    requires
        lookup(x, "General"@, "Services"@) == lookup(with_services(y, paths, sp), "General"@, "Services"@),
    ensures
        with_services(x, paths, sp) == x,
{
    lemma_services_settled(y, paths, sp);
}

/// The metadata keys of Windows's record that a key file already holds.
spec fn holds_windows_values(x: IniView, device: Option<&Values>, is_le: bool) -> bool {
    forall|g: Seq<char>, k: Seq<char>| #[trigger] windows_value(device, is_le, g, k) is Some
        ==> lookup(x, g, k) == windows_value(device, is_le, g, k)
}

/// After Windows metadata is written, the key file holds Windows's values.
proof fn lemma_holds_windows_values(m: IniView, device: Option<&Values>, is_le: bool, paths: Seq<Seq<char>>, sp: Seq<char>)
    ensures
        holds_windows_values(with_services(with_device_info(m, device, is_le), paths, sp), device, is_le),
{
    reveal_strlit("General");
    reveal_strlit("DeviceID");
    reveal_strlit("Services");
    reveal_strlit("Name");
    reveal_strlit("Class");
    reveal_strlit("Appearance");
    assert("Services"@.len() == 8 && "Name"@.len() == 4 && "Class"@.len() == 5 && "Appearance"@.len() == 10);
    assert("General"@.len() == 7 && "DeviceID"@.len() == 8);
    let r = with_services(with_device_info(m, device, is_le), paths, sp);
    assert forall|g: Seq<char>, k: Seq<char>| #[trigger] windows_value(device, is_le, g, k) is Some
        implies lookup(r, g, k) == windows_value(device, is_le, g, k) by {
        law_metadata_only_when_valid(m, device, is_le, paths, sp, g, k);
    }
}

/// Writing Windows metadata into a key file that holds Windows's values
/// already changes nothing.
proof fn lemma_info_fixed(x: IniView, device: Option<&Values>, is_le: bool)
    requires
        holds_windows_values(x, device, is_le),
    ensures
        with_device_info(x, device, is_le) == x,
{
    reveal_strlit("General");
    reveal_strlit("Name");
    reveal_strlit("Class");
    reveal_strlit("Appearance");
    reveal_strlit("DeviceID");
    reveal_strlit("Source");
    reveal_strlit("Vendor");
    reveal_strlit("Product");
    reveal_strlit("Version");
    assert("Name"@.len() == 4 && "Class"@.len() == 5 && "Appearance"@.len() == 10);
    assert("General"@.len() == 7 && "DeviceID"@.len() == 8);
    assert("Source"@.len() == 6 && "Vendor"@.len() == 6 && "Product"@.len() == 7 && "Version"@.len() == 7);
    assert("Source"@[0] != "Vendor"@[0] && "Product"@[0] != "Version"@[0]);
    if let Some(d) = device {
        let gen = "General"@;
        let did = "DeviceID"@;
        if let Some(n) = device_name(d, is_le) {
            assert(windows_value(device, is_le, gen, "Name"@) == Some(n));
            lemma_entry_same(x, gen, "Name"@, n);
        }
        assert(with_name(x, d, is_le) == x);
        if is_le {
            if let Some(v) = windows_value(device, is_le, gen, "Appearance"@) {
                lemma_entry_same(x, gen, "Appearance"@, v);
            }
        } else {
            if let Some(v) = windows_value(device, is_le, gen, "Class"@) {
                lemma_entry_same(x, gen, "Class"@, v);
            }
        }
        assert(with_look(x, d, is_le) == x);
        if let Some((src, vid, pid, ver)) = device_id(d) {
            assert(windows_value(device, is_le, did, "Source"@) == Some(decimal(src as nat)));
            assert(windows_value(device, is_le, did, "Vendor"@) == Some(decimal(vid as nat)));
            assert(windows_value(device, is_le, did, "Product"@) == Some(decimal(pid as nat)));
            assert(windows_value(device, is_le, did, "Version"@) == Some(decimal(ver as nat)));
            lemma_entry_same(x, did, "Source"@, decimal(src as nat));
            lemma_entry_same(x, did, "Vendor"@, decimal(vid as nat));
            lemma_entry_same(x, did, "Product"@, decimal(pid as nat));
            lemma_entry_same(x, did, "Version"@, decimal(ver as nat));
        }
        assert(with_device_id(x, d) == x);
    }
}

/// Syncing an unchanged Classic bond a second time chooses the same key
/// type and leaves the key file exactly as the first sync wrote it.
pub proof fn law_classic_bond_idempotent(
    m: IniView,
    link_key: Seq<u8>,
    options: &Options,
    device: Seq<char>,
    devices: &Registry,
    dp: Seq<char>,
    sp: Seq<char>,
)
    ensures
        ({
            let kind = classic_kind(m, options, device, devices, dp, sp);
            let r = with_classic_bond(m, link_key, kind, devices, dp, sp);
            &&& classic_kind(r, options, device, devices, dp, sp) == kind
            &&& with_classic_bond(r, link_key, kind, devices, dp, sp) == r
        }),
{
    reveal_strlit("General");
    reveal_strlit("LinkKey");
    reveal_strlit("Trusted");
    reveal_strlit("SupportedTechnologies");
    reveal_strlit("Key");
    reveal_strlit("Type");
    reveal_strlit("PINLength");
    reveal_strlit("BR/EDR");
    reveal_strlit("Name");
    reveal_strlit("Appearance");
    reveal_strlit("Class");
    reveal_strlit("Services");
    reveal_strlit("DeviceID");
    assert("General"@.len() == 7 && "LinkKey"@.len() == 7 && "General"@[0] != "LinkKey"@[0]);
    assert("Key"@.len() == 3 && "Type"@.len() == 4 && "PINLength"@.len() == 9);
    assert("Trusted"@.len() == 7 && "SupportedTechnologies"@.len() == 21 && "DeviceID"@.len() == 8);
    assert("Name"@.len() == 4 && "Appearance"@.len() == 10 && "Class"@.len() == 5 && "Services"@.len() == 8);
    assert("BR/EDR"@.len() == 6 && !"BR/EDR"@.contains(';')) by {
        assert forall|i: int| 0 <= i < 6 implies "BR/EDR"@[i] != ';' by {}
    }
    let gen = "General"@;
    let lk = "LinkKey"@;
    let t = "BR/EDR"@;
    let kind = classic_kind(m, options, device, devices, dp, sp);
    let pin = pin_length_spec(m);
    let r = with_classic_bond(m, link_key, kind, devices, dp, sp);
    let m0 = with_technology(m, t);
    let m1 = with_trust(m0);
    let m2 = with_link_key(m1, link_key, kind, pin);
    let dev = entry_of(devices, dp);
    let ks = sorted_keys(devices@);
    assert(r == with_services(with_device_info(m2, dev, false), ks, sp));
    // The link key entries, as `m2` holds them, reach `r`.
    law_metadata_only_when_valid(m2, dev, false, ks, sp, lk, "Key"@);
    law_metadata_only_when_valid(m2, dev, false, ks, sp, lk, "Type"@);
    law_metadata_only_when_valid(m2, dev, false, ks, sp, lk, "PINLength"@);
    law_metadata_only_when_valid(m2, dev, false, ks, sp, gen, "SupportedTechnologies"@);
    law_metadata_only_when_valid(m2, dev, false, ks, sp, gen, "Trusted"@);
    law_classic_bond_keeps_others(m, link_key, kind, devices, dp, sp, gen, "Trusted"@);
    assert(lookup(r, lk, "Type"@) == Some(decimal(kind as nat)));
    lemma_parse_u8_decimal(kind);
    assert(classic_kind(r, options, device, devices, dp, sp) == kind);
    // The transports and trust.
    let ma = with_entry(m1, lk, "Key"@, hex_spec(link_key));
    let mb = with_entry(ma, lk, "Type"@, decimal(kind as nat));
    assert(m2 == with_entry(mb, lk, "PINLength"@, decimal(pin as nat)));
    law_set_then_get(mb, lk, "PINLength"@, decimal(pin as nat), gen, "SupportedTechnologies"@);
    law_set_then_get(ma, lk, "Type"@, decimal(kind as nat), gen, "SupportedTechnologies"@);
    law_set_then_get(m1, lk, "Key"@, hex_spec(link_key), gen, "SupportedTechnologies"@);
    law_trust_kept(m0, gen, "SupportedTechnologies"@);
    lemma_technology_fixed(r, m, t);
    assert(with_trust(r) == r);
    // The link key.
    law_set_then_get(mb, lk, "PINLength"@, decimal(pin as nat), lk, "PINLength"@);
    assert(lookup(r, lk, "PINLength"@) == Some(decimal(pin as nat)));
    lemma_parse_u8_decimal(pin);
    assert(pin_length_spec(r) == pin);
    lemma_entry_same(r, lk, "Key"@, hex_spec(link_key));
    lemma_entry_same(r, lk, "Type"@, decimal(kind as nat));
    lemma_entry_same(r, lk, "PINLength"@, decimal(pin as nat));
    assert(with_link_key(r, link_key, kind, pin_length_spec(r)) == r);
    // The metadata.
    lemma_holds_windows_values(m2, dev, false, ks, sp);
    lemma_info_fixed(r, dev, false);
    lemma_services_fixed(r, with_device_info(m2, dev, false), ks, sp);
}

/// The groups a long-term key is written to: `[LongTermKey]`, and both
/// peripheral-role groups when `EDiv` and `Rand` are zero.
pub open spec fn ltk_group(g: Seq<char>, d: u32, r: u64) -> bool {
    g == "LongTermKey"@ || (d == 0 && r == 0 && (g == "PeripheralLongTermKey"@ || g == "SlaveLongTermKey"@))
}

/// A long-term key group that holds the key's values already is left as it is.
proof fn lemma_ltk_group_fixed(x: IniView, g: Seq<char>, key: Seq<u8>, e: u32, d: u32, r: u64, a: bool)
    requires
        forall|k: Seq<char>| #[trigger] ltk_key(k) ==> lookup(x, g, k) == Some(ltk_value(k, key, e, d, r, a)),
    ensures
        with_ltk_group(x, g, key, e, d, r, a) == x,
{
    reveal_strlit("Key");
    reveal_strlit("Authenticated");
    reveal_strlit("EncSize");
    reveal_strlit("EDiv");
    reveal_strlit("Rand");
    assert("Key"@.len() == 3 && "Authenticated"@.len() == 13 && "EncSize"@.len() == 7);
    assert("EDiv"@.len() == 4 && "Rand"@.len() == 4 && "EDiv"@[0] != "Rand"@[0]);
    assert(ltk_key("Key"@) && ltk_key("Authenticated"@) && ltk_key("EncSize"@) && ltk_key("EDiv"@) && ltk_key("Rand"@));
    lemma_entry_same(x, g, "Key"@, hex_spec(key));
    lemma_entry_same(x, g, "Authenticated"@, if a { "1"@ } else { "0"@ });
    lemma_entry_same(x, g, "EncSize"@, decimal(e as nat));
    lemma_entry_same(x, g, "EDiv"@, decimal(d as nat));
    lemma_entry_same(x, g, "Rand"@, decimal(r as nat));
}

/// Writing a long-term key sets `Key`, `Authenticated`, `EncSize`, `EDiv`
/// and `Rand` in each of its groups (see `ltk_group`) to the key's values,
/// and leaves every other entry as it was.
pub proof fn law_ltk_written(m: IniView, key: Seq<u8>, e: u32, d: u32, r: u64, a: bool, g: Seq<char>, k: Seq<char>)
    ensures
        lookup(with_ltk(m, key, e, d, r, a), g, k) == if ltk_group(g, d, r) && ltk_key(k) {
            Some(ltk_value(k, key, e, d, r, a))
        } else {
            lookup(m, g, k)
        },
{
    reveal_strlit("LongTermKey");
    reveal_strlit("PeripheralLongTermKey");
    reveal_strlit("SlaveLongTermKey");
    let lt = "LongTermKey"@;
    let pl = "PeripheralLongTermKey"@;
    let sl = "SlaveLongTermKey"@;
    assert(lt.len() == 11 && pl.len() == 21 && sl.len() == 16);
    let m1 = with_ltk_group(m, lt, key, e, d, r, a);
    let m2 = with_ltk_group(m1, pl, key, e, d, r, a);
    lemma_ltk_group(m, lt, key, e, d, r, a, g, k);
    lemma_ltk_group(m1, pl, key, e, d, r, a, g, k);
    lemma_ltk_group(m2, sl, key, e, d, r, a, g, k);
}

/// A key file whose long-term key groups hold the key's values already is
/// left as it is.
proof fn lemma_ltk_fixed(x: IniView, key: Seq<u8>, e: u32, d: u32, r: u64, a: bool)
    requires
        forall|g: Seq<char>, k: Seq<char>| #![trigger lookup(x, g, k)] ltk_group(g, d, r) && ltk_key(k)
            ==> lookup(x, g, k) == Some(ltk_value(k, key, e, d, r, a)),
    ensures
        with_ltk(x, key, e, d, r, a) == x,
{
    reveal_strlit("LongTermKey");
    reveal_strlit("PeripheralLongTermKey");
    reveal_strlit("SlaveLongTermKey");
    assert(ltk_group("LongTermKey"@, d, r));
    lemma_ltk_group_fixed(x, "LongTermKey"@, key, e, d, r, a);
    if d == 0 && r == 0 {
        assert(ltk_group("PeripheralLongTermKey"@, d, r) && ltk_group("SlaveLongTermKey"@, d, r));
        lemma_ltk_group_fixed(x, "PeripheralLongTermKey"@, key, e, d, r, a);
        lemma_ltk_group_fixed(x, "SlaveLongTermKey"@, key, e, d, r, a);
    }
}

/// A signature key group that reads as it did after the same write is
/// left as it is.
proof fn lemma_csrk_fixed(x: IniView, y: IniView, values: &Values, reg: Seq<char>, group: Seq<char>, a: bool)
    requires
        lookup(x, group, "Key"@) == lookup(with_csrk(y, values, reg, group, a), group, "Key"@),
        lookup(x, group, "Counter"@) == lookup(with_csrk(y, values, reg, group, a), group, "Counter"@),
        lookup(x, group, "Authenticated"@) == lookup(with_csrk(y, values, reg, group, a), group, "Authenticated"@),
    ensures
        with_csrk(x, values, reg, group, a) == x,
{
    reveal_strlit("Key");
    reveal_strlit("Counter");
    reveal_strlit("Authenticated");
    assert("Key"@.len() == 3 && "Counter"@.len() == 7 && "Authenticated"@.len() == 13);
    if let Some(kk) = bytes_spec(values@, reg, 16) {
        let y1 = with_entry(y, group, "Key"@, hex_spec(kk));
        let y2 = if lookup(y1, group, "Counter"@) is Some {
            y1
        } else {
            with_entry(y1, group, "Counter"@, "0"@)
        };
        let av = if a { "1"@ } else { "0"@ };
        law_set_then_get(y2, group, "Authenticated"@, av, group, "Key"@);
        law_set_then_get(y2, group, "Authenticated"@, av, group, "Counter"@);
        law_set_then_get(y2, group, "Authenticated"@, av, group, "Authenticated"@);
        law_set_then_get(y1, group, "Counter"@, "0"@, group, "Key"@);
        law_set_then_get(y1, group, "Counter"@, "0"@, group, "Counter"@);
        law_set_then_get(y, group, "Key"@, hex_spec(kk), group, "Key"@);
        lemma_entry_same(x, group, "Key"@, hex_spec(kk));
        lemma_entry_same(x, group, "Authenticated"@, av);
    }
}

/// The keys the steps of an LE bond after the metadata write leave alone
/// read as they did before them.
proof fn lemma_ble_tail_keeps(m3: IniView, b: BleModel, values: &Values, g: Seq<char>, k: Seq<char>)
    ensures
        ({
            let m4 = with_ltk(m3, b.ltk, b.size, b.ediv, b.rand, b.authenticated);
            let m5 = with_remote_irk(m4, values);
            let m6 = with_csrk(m5, values, "CSRK"@, "LocalSignatureKey"@, b.authenticated);
            let r = with_csrk(m6, values, "CSRKInbound"@, "RemoteSignatureKey"@, b.authenticated);
            &&& g != "IdentityResolvingKey"@ && g != "LocalSignatureKey"@ && g != "RemoteSignatureKey"@
                ==> lookup(r, g, k) == lookup(m4, g, k)
            &&& g != "LocalSignatureKey"@ && g != "RemoteSignatureKey"@ ==> lookup(r, g, k) == lookup(m5, g, k)
            &&& g != "RemoteSignatureKey"@ ==> lookup(r, g, k) == lookup(m6, g, k)
        }),
{
    let m4 = with_ltk(m3, b.ltk, b.size, b.ediv, b.rand, b.authenticated);
    let m5 = with_remote_irk(m4, values);
    let m6 = with_csrk(m5, values, "CSRK"@, "LocalSignatureKey"@, b.authenticated);
    lemma_csrk_keeps(m5, values, "CSRK"@, "LocalSignatureKey"@, b.authenticated, g, k);
    lemma_csrk_keeps(m6, values, "CSRKInbound"@, "RemoteSignatureKey"@, b.authenticated, g, k);
}

/// Syncing an unchanged LE bond a second time leaves the key file exactly
/// as the first sync wrote it.
pub proof fn law_ble_bond_idempotent(
    m: IniView,
    b: BleModel,
    values: &Values,
    devices: &Registry,
    dp: Seq<char>,
    sp: Seq<char>,
)
    ensures
        ({
            let r = with_ble_bond(m, b, values, devices, dp, sp);
            with_ble_bond(r, b, values, devices, dp, sp) == r
        }),
{
    reveal_strlit("General");
    reveal_strlit("DeviceID");
    reveal_strlit("Trusted");
    reveal_strlit("AddressType");
    reveal_strlit("Services");
    reveal_strlit("SupportedTechnologies");
    reveal_strlit("LE");
    reveal_strlit("LongTermKey");
    reveal_strlit("PeripheralLongTermKey");
    reveal_strlit("SlaveLongTermKey");
    reveal_strlit("IdentityResolvingKey");
    reveal_strlit("LocalSignatureKey");
    reveal_strlit("RemoteSignatureKey");
    reveal_strlit("Name");
    reveal_strlit("Class");
    reveal_strlit("Appearance");
    assert("General"@.len() == 7 && "DeviceID"@.len() == 8 && "Trusted"@.len() == 7);
    assert("AddressType"@.len() == 11 && "Services"@.len() == 8 && "SupportedTechnologies"@.len() == 21);
    assert("Name"@.len() == 4 && "Class"@.len() == 5 && "Appearance"@.len() == 10);
    assert("LongTermKey"@.len() == 11 && "PeripheralLongTermKey"@.len() == 21 && "SlaveLongTermKey"@.len() == 16);
    assert("IdentityResolvingKey"@.len() == 20 && "LocalSignatureKey"@.len() == 17);
    assert("RemoteSignatureKey"@.len() == 18 && "Trusted"@[0] != "Services"@[0]);
    assert("LE"@.len() == 2 && !"LE"@.contains(';')) by {
        assert forall|i: int| 0 <= i < 2 implies "LE"@[i] != ';' by {}
    }
    let gen = "General"@;
    let at = if b.static_address { "static"@ } else { "public"@ };
    let m1 = with_entry(m, gen, "AddressType"@, at);
    let m1b = with_technology(m1, "LE"@);
    let m2 = with_trust(m1b);
    let dev = entry_of(devices, dp);
    let ks = sorted_keys(devices@);
    let m3 = with_services(with_device_info(m2, dev, true), ks, sp);
    let m4 = with_ltk(m3, b.ltk, b.size, b.ediv, b.rand, b.authenticated);
    let m5 = with_remote_irk(m4, values);
    let m6 = with_csrk(m5, values, "CSRK"@, "LocalSignatureKey"@, b.authenticated);
    let r = with_ble_bond(m, b, values, devices, dp, sp);
    assert(r == with_csrk(m6, values, "CSRKInbound"@, "RemoteSignatureKey"@, b.authenticated));
    // The General entries written before the metadata.
    lemma_ble_tail_keeps(m3, b, values, gen, "AddressType"@);
    lemma_ble_tail_keeps(m3, b, values, gen, "SupportedTechnologies"@);
    lemma_ble_tail_keeps(m3, b, values, gen, "Services"@);
    lemma_ltk_keeps(m3, b.ltk, b.size, b.ediv, b.rand, b.authenticated, gen, "AddressType"@);
    lemma_ltk_keeps(m3, b.ltk, b.size, b.ediv, b.rand, b.authenticated, gen, "SupportedTechnologies"@);
    lemma_ltk_keeps(m3, b.ltk, b.size, b.ediv, b.rand, b.authenticated, gen, "Services"@);
    law_metadata_only_when_valid(m2, dev, true, ks, sp, gen, "AddressType"@);
    law_metadata_only_when_valid(m2, dev, true, ks, sp, gen, "SupportedTechnologies"@);
    law_trust_kept(m1b, gen, "AddressType"@);
    law_trust_kept(m1b, gen, "SupportedTechnologies"@);
    law_set_then_get(m1, gen, "SupportedTechnologies"@, list_text(technologies_with(m1, "LE"@)), gen, "AddressType"@);
    law_set_then_get(m, gen, "AddressType"@, at, gen, "AddressType"@);
    assert(lookup(r, gen, "AddressType"@) == Some(at));
    lemma_entry_same(r, gen, "AddressType"@, at);
    lemma_technology_fixed(r, m1, "LE"@);
    law_ble_bond_keeps_others(m, b, values, devices, dp, sp, gen, "Trusted"@);
    assert(with_trust(r) == r);
    // The metadata.
    lemma_holds_windows_values(m2, dev, true, ks, sp);
    assert forall|g: Seq<char>, k: Seq<char>| #[trigger] windows_value(dev, true, g, k) is Some
        implies lookup(r, g, k) == windows_value(dev, true, g, k) by {
        assert(g == gen || g == "DeviceID"@);
        lemma_ble_tail_keeps(m3, b, values, g, k);
        lemma_ltk_keeps(m3, b.ltk, b.size, b.ediv, b.rand, b.authenticated, g, k);
    }
    lemma_info_fixed(r, dev, true);
    lemma_services_fixed(r, with_device_info(m2, dev, true), ks, sp);
    // The long-term key.
    assert forall|g: Seq<char>, k: Seq<char>| #![trigger lookup(r, g, k)] ltk_group(g, b.ediv, b.rand) && ltk_key(k)
        implies lookup(r, g, k) == Some(ltk_value(k, b.ltk, b.size, b.ediv, b.rand, b.authenticated)) by {
        lemma_ble_tail_keeps(m3, b, values, g, k);
        law_ltk_written(m3, b.ltk, b.size, b.ediv, b.rand, b.authenticated, g, k);
    }
    lemma_ltk_fixed(r, b.ltk, b.size, b.ediv, b.rand, b.authenticated);
    // The remote IRK.
    let irk = "IdentityResolvingKey"@;
    if let Some(kk) = bytes_spec(values@, "IRK"@, 16) {
        lemma_ble_tail_keeps(m3, b, values, irk, "Key"@);
        law_set_then_get(m4, irk, "Key"@, hex_spec(kk), irk, "Key"@);
        lemma_entry_same(r, irk, "Key"@, hex_spec(kk));
    }
    assert(with_remote_irk(r, values) == r);
    // The signature keys.
    let local = "LocalSignatureKey"@;
    lemma_ble_tail_keeps(m3, b, values, local, "Key"@);
    lemma_ble_tail_keeps(m3, b, values, local, "Counter"@);
    lemma_ble_tail_keeps(m3, b, values, local, "Authenticated"@);
    lemma_csrk_fixed(r, m5, values, "CSRK"@, local, b.authenticated);
    lemma_csrk_fixed(r, m6, values, "CSRKInbound"@, "RemoteSignatureKey"@, b.authenticated);
}

/// After an LE bond is written, `[General] AddressType` names the kind of
/// identity address: `static` for a static random address, `public`
/// otherwise.
pub proof fn law_ble_address_type(
    m: IniView,
    b: BleModel,
    values: &Values,
    devices: &Registry,
    dp: Seq<char>,
    sp: Seq<char>,
)
    ensures
        lookup(with_ble_bond(m, b, values, devices, dp, sp), "General"@, "AddressType"@)
            == Some(if b.static_address { "static"@ } else { "public"@ }),
{
    reveal_strlit("General");
    reveal_strlit("DeviceID");
    reveal_strlit("Trusted");
    reveal_strlit("AddressType");
    reveal_strlit("SupportedTechnologies");
    reveal_strlit("Name");
    reveal_strlit("Class");
    reveal_strlit("Appearance");
    reveal_strlit("Services");
    reveal_strlit("LongTermKey");
    reveal_strlit("PeripheralLongTermKey");
    reveal_strlit("SlaveLongTermKey");
    reveal_strlit("IdentityResolvingKey");
    reveal_strlit("LocalSignatureKey");
    reveal_strlit("RemoteSignatureKey");
    assert("General"@.len() == 7 && "DeviceID"@.len() == 8 && "Trusted"@.len() == 7);
    assert("AddressType"@.len() == 11 && "SupportedTechnologies"@.len() == 21);
    assert("Name"@.len() == 4 && "Class"@.len() == 5 && "Appearance"@.len() == 10 && "Services"@.len() == 8);
    assert("LongTermKey"@.len() == 11 && "PeripheralLongTermKey"@.len() == 21 && "SlaveLongTermKey"@.len() == 16);
    assert("IdentityResolvingKey"@.len() == 20 && "LocalSignatureKey"@.len() == 17);
    assert("RemoteSignatureKey"@.len() == 18);
    let gen = "General"@;
    let at = if b.static_address { "static"@ } else { "public"@ };
    let m1 = with_entry(m, gen, "AddressType"@, at);
    let m1b = with_technology(m1, "LE"@);
    let m2 = with_trust(m1b);
    let dev = entry_of(devices, dp);
    let ks = sorted_keys(devices@);
    let m3 = with_services(with_device_info(m2, dev, true), ks, sp);
    lemma_ble_tail_keeps(m3, b, values, gen, "AddressType"@);
    lemma_ltk_keeps(m3, b.ltk, b.size, b.ediv, b.rand, b.authenticated, gen, "AddressType"@);
    law_metadata_only_when_valid(m2, dev, true, ks, sp, gen, "AddressType"@);
    law_trust_kept(m1b, gen, "AddressType"@);
    law_set_then_get(m1, gen, "SupportedTechnologies"@, list_text(technologies_with(m1, "LE"@)), gen, "AddressType"@);
    law_set_then_get(m, gen, "AddressType"@, at, gen, "AddressType"@);
}

} // verus!
