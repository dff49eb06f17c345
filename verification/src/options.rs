//! The options of `bls sync`.
use vstd::prelude::*;
use crate::address::{mac, mac_spec, is_canonical_mac, law_mac_canonical};
use crate::config::MountConfig;
use crate::strmap::StrMap;
use crate::text::{
    chars_of, string_of, lower, lower_text, parse_u8, parse_u8_chars, same_text, string_texts,
    first_index, find_char, take_chars, skip_chars, lemma_first_index,
};

verus! {

/// The BlueZ Classic key type named by `s`: `legacy` (0), `ssp` (4) or `sc`
/// (7) in any case, or a number from 0 to 8.
pub open spec fn classic_type_of(s: Seq<char>) -> Result<u8, Seq<char>> {
    if lower(s) == "legacy"@ {
        Ok(0)
    } else if lower(s) == "ssp"@ {
        Ok(4)
    } else if lower(s) == "sc"@ {
        Ok(7)
    } else {
        match parse_u8(s) {
            Some(n) => if n <= 8 {
                Ok(n)
            } else {
                Err("invalid Classic type: "@ + s)
            },
            None => Err("invalid Classic type: "@ + s),
        }
    }
}

/// A result's value or error text.
pub open spec fn result_text<T>(r: Result<T, String>) -> Result<T, Seq<char>> {
    match r {
        Ok(v) => Ok(v),
        Err(e) => Err(e@),
    }
}

fn joined(prefix: &str, tail: &str) -> (s: String)
    ensures
        s@ == prefix@ + tail@,
{
    let mut s = String::from_str(prefix);
    s.append(tail);
    s
}

/// Reads a Classic key type (see `classic_type_of`).
pub fn parse_classic_type(s: &str) -> (r: Result<u8, String>)
    ensures
        result_text(r) == classic_type_of(s@),
{
    let l = lower_text(s);
    if same_text(l.as_str(), "legacy") {
        return Ok(0);
    }
    if same_text(l.as_str(), "ssp") {
        return Ok(4);
    }
    if same_text(l.as_str(), "sc") {
        return Ok(7);
    }
    match parse_u8_chars(&chars_of(s)) {
        Some(n) => if n <= 8 {
            Ok(n)
        } else {
            Err(joined("invalid Classic type: ", s))
        },
        None => Err(joined("invalid Classic type: ", s)),
    }
}

/// What `bls sync` was asked to do.
pub struct Options {
    /// Another BlueZ storage directory than the configured one.
    pub bluez_root: Option<String>,
    /// Only report what would change.
    pub dry_run: bool,
    /// Classic key types to write, by canonical device address.
    pub classic_types: StrMap<u8>,
    /// The Classic key type of new devices that nothing else decides.
    pub default_classic_type: u8,
}

/// The options as plain values.
pub struct OptionsModel {
    pub bluez_root: Option<Seq<char>>,
    pub dry_run: bool,
    pub classic_types: Map<Seq<char>, u8>,
    pub default_classic_type: u8,
}

/// The options as plain values.
pub open spec fn options_model(o: &Options) -> OptionsModel {
    OptionsModel {
        bluez_root: match o.bluez_root {
            Some(p) => Some(p@),
            None => None,
        },
        dry_run: o.dry_run,
        classic_types: o.classic_types@,
        default_classic_type: o.default_classic_type,
    }
}

/// The options before any argument: nothing overridden, new Classic
/// devices SSP without MITM protection (4).
pub open spec fn initial_options() -> OptionsModel {
    OptionsModel {
        bluez_root: None,
        dry_run: false,
        classic_types: Map::empty(),
        default_classic_type: 4,
    }
}

/// What the `bls sync` arguments from position `i` on do to `acc`:
/// `--dry-run`; `--bluez-root PATH`; `--default-classic-type TYPE`;
/// `--classic-type MAC=TYPE`, which may repeat.
pub open spec fn options_from(args: Seq<Seq<char>>, i: int, acc: OptionsModel) -> Result<OptionsModel, Seq<char>>
    decreases args.len() - i,
{
    if i < 0 || i >= args.len() {
        Ok(acc)
    } else {
        let a = args[i];
        if a == "--dry-run"@ {
            options_from(args, i + 1, OptionsModel { dry_run: true, ..acc })
        } else if a == "--bluez-root"@ || a == "--classic-type"@ || a == "--default-classic-type"@ {
            if i + 1 >= args.len() {
                Err("missing value for "@ + a)
            } else {
                let v = args[i + 1];
                if a == "--bluez-root"@ {
                    options_from(args, i + 2, OptionsModel { bluez_root: Some(v), ..acc })
                } else if a == "--default-classic-type"@ {
                    match classic_type_of(v) {
                        Ok(t) => options_from(args, i + 2, OptionsModel { default_classic_type: t, ..acc }),
                        Err(e) => Err(e),
                    }
                } else {
                    match first_index(v, '=') {
                        None => Err("--classic-type needs MAC=TYPE"@),
                        Some(k) => match mac_spec(v.take(k)) {
                            None => Err("invalid Classic MAC"@),
                            Some(m) => match classic_type_of(v.skip(k + 1)) {
                                Ok(t) => options_from(
                                    args,
                                    i + 2,
                                    OptionsModel { classic_types: acc.classic_types.insert(m, t), ..acc },
                                ),
                                Err(e) => Err(e),
                            },
                        },
                    }
                }
            }
        } else {
            Err("unknown argument: "@ + a)
        }
    }
}

/// What the `bls sync` arguments ask for.
pub open spec fn options_spec(args: Seq<Seq<char>>) -> Result<OptionsModel, Seq<char>> {
    options_from(args, 0, initial_options())
}

/// The options read, or the error, as plain values.
pub open spec fn options_result(r: Result<Options, String>) -> Result<OptionsModel, Seq<char>> {
    match r {
        Ok(o) => Ok(options_model(&o)),
        Err(e) => Err(e@),
    }
}

/// Reads the options of `bls sync` (see `options_from`).
pub fn options(args: &[String]) -> (r: Result<Options, String>)
    ensures
        options_result(r) == options_spec(string_texts(args@)),
        r matches Ok(o) ==> o.classic_types.wf(),
{
    let ghost argv = string_texts(args@);
    let mut out = Options {
        bluez_root: None,
        dry_run: false,
        classic_types: StrMap::new(),
        default_classic_type: 4,
    };
    assert(options_model(&out) == initial_options());
    let mut i: usize = 0;
    while i < args.len()
        invariant
            argv == string_texts(args@),
            i <= args.len(),
            out.classic_types.wf(),
            options_spec(argv) == options_from(argv, i as int, options_model(&out)),
        decreases args.len() - i,
    {
        let a = &args[i];
        assert(argv[i as int] == a@);
        if same_text(a.as_str(), "--dry-run") {
            out.dry_run = true;
            i = i + 1;
        } else if same_text(a.as_str(), "--bluez-root") || same_text(a.as_str(), "--classic-type")
            || same_text(a.as_str(), "--default-classic-type") {
            if i + 1 >= args.len() {
                return Err(joined("missing value for ", a.as_str()));
            }
            let value = &args[i + 1];
            assert(argv[i + 1] == value@);
            if same_text(a.as_str(), "--bluez-root") {
                out.bluez_root = Some(value.clone());
            } else if same_text(a.as_str(), "--default-classic-type") {
                match parse_classic_type(value.as_str()) {
                    Ok(t) => {
                        out.default_classic_type = t;
                    },
                    Err(e) => {
                        return Err(e);
                    },
                }
            } else {
                let v = chars_of(value.as_str());
                let k = match find_char(&v, '=') {
                    Some(k) => k,
                    None => {
                        return Err(String::from_str("--classic-type needs MAC=TYPE"));
                    },
                };
                proof {
                    lemma_first_index(v@, '=');
                }
                assert(k < v.len());
                let address = string_of(&take_chars(&v, k));
                let kind = string_of(&skip_chars(&v, k + 1));
                let m = match mac(address.as_str()) {
                    Some(m) => m,
                    None => {
                        return Err(String::from_str("invalid Classic MAC"));
                    },
                };
                match parse_classic_type(kind.as_str()) {
                    Ok(t) => {
                        out.classic_types.insert(m, t);
                    },
                    Err(e) => {
                        return Err(e);
                    },
                }
            }
            i = i + 2;
        } else {
            return Err(joined("unknown argument: ", a.as_str()));
        }
    }
    Ok(out)
}

/// The options with the BlueZ root defaulting to `root`.
pub open spec fn with_root(o: OptionsModel, root: Seq<char>) -> OptionsModel {
    OptionsModel {
        bluez_root: match o.bluez_root {
            Some(p) => Some(p),
            None => Some(root),
        },
        ..o
    }
}

/// The first steps of a sync, before any disk is touched: a Windows
/// partition must be configured, and the BlueZ root defaults to the
/// configured one.
pub fn sync(options: Options, config: &MountConfig) -> (r: Result<Options, String>)
    ensures
        config.device@.len() == 0 <==> (r is Err),
        r matches Err(e) ==> e@ == "Windows partition is unset; run bls config --device DEVICE first"@,
        r matches Ok(o) ==> options_model(&o) == with_root(options_model(&options), config.bluez_root@),
{
    if config.device.as_str().is_empty() {
        return Err(String::from_str("Windows partition is unset; run bls config --device DEVICE first"));
    }
    let mut options = options;
    if options.bluez_root.is_none() {
        options.bluez_root = Some(config.bluez_root.clone());
    }
    Ok(options)
}

/// How a sync ends, once the pairing data has been copied (or not) and the
/// Windows partition unmounted.
pub enum SyncEnd {
    /// Fail with this message.
    Fail(String),
    /// Restart `bluetooth.service` so BlueZ reloads the keys.
    Restart,
    /// Done: a dry run, which restarts nothing.
    Done,
}

/// The end of a sync. The partition is unmounted whatever the copy gave, so
/// both results are at hand: the copy's error is reported before the
/// unmount's; `bluetooth.service` is restarted only when both succeeded and
/// this is not a dry run.
pub fn sync_finish(dry_run: bool, synced: Result<(), String>, unmounted: Result<(), String>) -> (r: SyncEnd)
    ensures
        (match synced {
            Err(e) => r matches SyncEnd::Fail(f) && f@ == e@,
            Ok(_) => match unmounted {
                Err(e) => r matches SyncEnd::Fail(f) && f@ == e@,
                Ok(_) => if dry_run {
                    r is Done
                } else {
                    r is Restart
                },
            },
        }),
{
    match synced {
        Err(e) => SyncEnd::Fail(e),
        Ok(()) => match unmounted {
            Err(e) => SyncEnd::Fail(e),
            Ok(()) => if dry_run {
                SyncEnd::Done
            } else {
                SyncEnd::Restart
            },
        },
    }
}

/// Options whose key types are all BlueZ types (0 to 8), overrides keyed by
/// canonical addresses.
pub open spec fn options_sound(o: OptionsModel) -> bool {
    &&& o.default_classic_type <= 8
    &&& forall|k: Seq<char>| #[trigger] o.classic_types.contains_key(k) ==> o.classic_types[k] <= 8 && is_canonical_mac(k)
}

/// Every key type a name or number gives is a BlueZ type.
pub proof fn law_classic_type_in_range(s: Seq<char>)
    ensures
        classic_type_of(s) matches Ok(t) ==> t <= 8,
{
}

proof fn lemma_options_from_sound(args: Seq<Seq<char>>, i: int, acc: OptionsModel)
    requires
        options_sound(acc),
    ensures
        options_from(args, i, acc) matches Ok(o) ==> options_sound(o),
    decreases args.len() - i,
{
    if 0 <= i < args.len() {
        let a = args[i];
        if a == "--dry-run"@ {
            lemma_options_from_sound(args, i + 1, OptionsModel { dry_run: true, ..acc });
        } else if i + 1 < args.len() {
            let v = args[i + 1];
            lemma_options_from_sound(args, i + 2, OptionsModel { bluez_root: Some(v), ..acc });
            if let Ok(t) = classic_type_of(v) {
                lemma_options_from_sound(args, i + 2, OptionsModel { default_classic_type: t, ..acc });
            }
            if let Some(k) = first_index(v, '=') {
                law_mac_canonical(v.take(k));
                if let Some(m) = mac_spec(v.take(k)) {
                    if let Ok(t) = classic_type_of(v.skip(k + 1)) {
                        let next = OptionsModel { classic_types: acc.classic_types.insert(m, t), ..acc };
                        assert(options_sound(next));
                        lemma_options_from_sound(args, i + 2, next);
                    }
                }
            }
        }
    }
}

/// Whatever the arguments, the options read name only BlueZ key types
/// (0 to 8), and the overrides are keyed by canonical addresses, so one
/// device has one override however its address was written.
pub proof fn law_options_sound(args: Seq<Seq<char>>)
    ensures
        options_spec(args) matches Ok(o) ==> options_sound(o),
{
    lemma_options_from_sound(args, 0, initial_options());
}

} // verus!
