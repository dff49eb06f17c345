//! `/etc/bls.conf`: the Windows partition, its mount point and the BlueZ root,
//! one per line, and the `bls config` options that change them.
use vstd::prelude::*;
use crate::text::{chars_of, string_of, lines, lines_chars, texts, has_prefix, has_prefix_exec, contains_char, same_text, string_texts, lemma_lines_cons};

verus! {

/// Where the Windows partition is and where the BlueZ key files live.
pub struct MountConfig {
    /// The Windows partition's block device (`/dev/...`), empty when unset.
    pub device: String,
    /// Where the partition is mounted while syncing.
    pub mount_point: String,
    /// The BlueZ storage directory.
    pub bluez_root: String,
}

/// The three settings as texts.
pub open spec fn settings(c: &MountConfig) -> (Seq<char>, Seq<char>, Seq<char>) {
    (c.device@, c.mount_point@, c.bluez_root@)
}

impl Default for MountConfig {
    /// No device, `/mnt/blsTemp` and `/var/lib/bluetooth`.
    fn default() -> (c: MountConfig)
        ensures
            settings(&c) == (Seq::<char>::empty(), "/mnt/blsTemp"@, "/var/lib/bluetooth"@),
    {
        MountConfig {
            device: String::new(),
            mount_point: String::from_str("/mnt/blsTemp"),
            bluez_root: String::from_str("/var/lib/bluetooth"),
        }
    }
}

/// An absolute Unix path (`Path::is_absolute`): it starts at the root.
pub open spec fn is_absolute(p: Seq<char>) -> bool {
    p.len() > 0 && p[0] == '/'
}

/// Whether `p` holds a carriage return or a line feed.
pub open spec fn has_line_break(p: Seq<char>) -> bool {
    p.contains('\r') || p.contains('\n')
}

/// A device the configuration accepts: unset, or a direct `/dev/...` path
/// other than `/dev/` itself and not under `/dev/disk/by-uuid/`.
pub open spec fn device_accepted(d: Seq<char>) -> bool {
    d.len() == 0 || (has_prefix(d, "/dev/"@) && d.len() > 5 && !has_prefix(d, "/dev/disk/by-uuid/"@))
}

/// Settings the configuration file can hold.
pub open spec fn settings_valid(d: Seq<char>, m: Seq<char>, b: Seq<char>) -> bool {
    &&& device_accepted(d)
    &&& !has_line_break(d)
    &&& is_absolute(m)
    &&& is_absolute(b)
    &&& !has_line_break(m)
    &&& !has_line_break(b)
}

/// What reading the configuration file's text gives: exactly three lines,
/// holding valid settings.
pub open spec fn config_spec(data: Seq<char>) -> Result<(Seq<char>, Seq<char>, Seq<char>), Seq<char>> {
    let ls = lines(data);
    if ls.len() < 1 {
        Err("missing device in bls.conf"@)
    } else if ls.len() < 2 {
        Err("missing mount point in bls.conf"@)
    } else if ls.len() < 3 {
        Err("missing BlueZ root in bls.conf"@)
    } else if ls.len() > 3 || !settings_valid(ls[0], ls[1], ls[2]) {
        Err("invalid /etc/bls.conf"@)
    } else {
        Ok((ls[0], ls[1], ls[2]))
    }
}

/// A parsed configuration or its error, as texts.
pub open spec fn config_result(r: Result<MountConfig, String>) -> Result<(Seq<char>, Seq<char>, Seq<char>), Seq<char>> {
    match r {
        Ok(c) => Ok(settings(&c)),
        Err(e) => Err(e@),
    }
}

/// Whether `v` holds a carriage return or a line feed.
fn has_line_break_exec(v: &Vec<char>) -> (r: bool)
    ensures
        r == has_line_break(v@),
{
    contains_char(v, '\r') || contains_char(v, '\n')
}

fn settings_valid_exec(d: &Vec<char>, m: &Vec<char>, b: &Vec<char>) -> (r: bool)
    ensures
        r == settings_valid(d@, m@, b@),
{
    let dev = chars_of("/dev/");
    let by_uuid = chars_of("/dev/disk/by-uuid/");
    let device_ok = d.len() == 0 || (has_prefix_exec(d, &dev) && d.len() > 5 && !has_prefix_exec(d, &by_uuid));
    device_ok && !has_line_break_exec(d) && m.len() > 0 && m[0] == '/' && b.len() > 0 && b[0] == '/'
        && !has_line_break_exec(m) && !has_line_break_exec(b)
}

/// Reads `/etc/bls.conf` (see `config_spec`).
pub fn parse_mount_config(data: &str) -> (r: Result<MountConfig, String>)
    ensures
        config_result(r) == config_spec(data@),
{
    let ls = lines_chars(&chars_of(data));
    assert(texts(ls@).len() == ls@.len());
    if ls.len() < 1 {
        return Err(String::from_str("missing device in bls.conf"));
    }
    if ls.len() < 2 {
        return Err(String::from_str("missing mount point in bls.conf"));
    }
    if ls.len() < 3 {
        return Err(String::from_str("missing BlueZ root in bls.conf"));
    }
    assert(texts(ls@)[0] == ls@[0]@ && texts(ls@)[1] == ls@[1]@ && texts(ls@)[2] == ls@[2]@);
    if ls.len() > 3 || !settings_valid_exec(&ls[0], &ls[1], &ls[2]) {
        return Err(String::from_str("invalid /etc/bls.conf"));
    }
    Ok(MountConfig { device: string_of(&ls[0]), mount_point: string_of(&ls[1]), bluez_root: string_of(&ls[2]) })
}

/// The canonical path of the configured device, kept only when it lies
/// under `/dev/`.
pub fn resolved_device(path: &str) -> (r: Result<String, String>)
    ensures
        (match r {
            Ok(p) => has_prefix(path@, "/dev/"@) && p@ == path@,
            Err(e) => !has_prefix(path@, "/dev/"@) && e@ == "device must resolve under /dev"@,
        }),
{
    let dev = chars_of("/dev/");
    if has_prefix_exec(&chars_of(path), &dev) {
        Ok(String::from_str(path))
    } else {
        Err(String::from_str("device must resolve under /dev"))
    }
}

/// The text written to `/etc/bls.conf`: the three settings, one per line.
pub open spec fn config_text(d: Seq<char>, m: Seq<char>, b: Seq<char>) -> Seq<char> {
    d + seq!['\n'] + m + seq!['\n'] + b + seq!['\n']
}

impl MountConfig {
    /// The text of the configuration file for these settings.
    pub fn encode(&self) -> (s: String)
        ensures
            s@ == config_text(self.device@, self.mount_point@, self.bluez_root@),
    {
        let mut s = self.device.clone();
        s.append("\n");
        s.append(self.mount_point.as_str());
        s.append("\n");
        s.append(self.bluez_root.as_str());
        s.append("\n");
        proof {
            reveal_strlit("\n");
        }
        s
    }
}

/// The settings `bls config` was asked to change.
pub struct ConfigOptions {
    pub device: Option<String>,
    pub mount_point: Option<String>,
    pub bluez_root: Option<String>,
}

/// The text of an optional string.
pub open spec fn opt_text(o: Option<String>) -> Option<Seq<char>> {
    match o {
        Some(s) => Some(s@),
        None => None,
    }
}

/// The requested settings as texts.
pub open spec fn requested(o: &ConfigOptions) -> (Option<Seq<char>>, Option<Seq<char>>, Option<Seq<char>>) {
    (opt_text(o.device), opt_text(o.mount_point), opt_text(o.bluez_root))
}

/// What the `bls config` arguments from position `i` on ask for, given what
/// the earlier ones asked for: `--device`, `--mount-point` and
/// `--bluez-root`, each followed by its value; a later flag wins.
pub open spec fn config_args_from(
    args: Seq<Seq<char>>,
    i: int,
    acc: (Option<Seq<char>>, Option<Seq<char>>, Option<Seq<char>>),
) -> Result<(Option<Seq<char>>, Option<Seq<char>>, Option<Seq<char>>), Seq<char>>
    decreases args.len() - i,
{
    if i < 0 || i >= args.len() {
        Ok(acc)
    } else if i + 1 >= args.len() {
        Err("missing value for "@ + args[i])
    } else {
        let flag = args[i];
        let v = args[i + 1];
        if flag == "--device"@ {
            config_args_from(args, i + 2, (Some(v), acc.1, acc.2))
        } else if flag == "--mount-point"@ {
            config_args_from(args, i + 2, (acc.0, Some(v), acc.2))
        } else if flag == "--bluez-root"@ {
            config_args_from(args, i + 2, (acc.0, acc.1, Some(v)))
        } else {
            Err("unknown config option: "@ + flag)
        }
    }
}

/// What the `bls config` arguments ask for.
pub open spec fn config_args_spec(args: Seq<Seq<char>>) -> Result<(Option<Seq<char>>, Option<Seq<char>>, Option<Seq<char>>), Seq<char>> {
    config_args_from(args, 0, (None, None, None))
}

fn joined(prefix: &str, tail: &str) -> (s: String)
    ensures
        s@ == prefix@ + tail@,
{
    let mut s = String::from_str(prefix);
    s.append(tail);
    s
}

/// Reads the options of `bls config` (see `config_args_spec`).
pub fn config_options(args: &[String]) -> (r: Result<ConfigOptions, String>)
    ensures
        match r {
            Ok(o) => config_args_spec(string_texts(args@)) == Ok::<
                (Option<Seq<char>>, Option<Seq<char>>, Option<Seq<char>>),
                Seq<char>,
            >(requested(&o)),
            Err(e) => config_args_spec(string_texts(args@)) == Err::<
                (Option<Seq<char>>, Option<Seq<char>>, Option<Seq<char>>),
                Seq<char>,
            >(e@),
        },
{
    let ghost argv = string_texts(args@);
    let mut out = ConfigOptions { device: None, mount_point: None, bluez_root: None };
    let mut i: usize = 0;
    while i < args.len()
        invariant
            argv == string_texts(args@),
            i <= args.len(),
            config_args_spec(argv) == config_args_from(argv, i as int, requested(&out)),
        decreases args.len() - i,
    {
        let flag = &args[i];
        assert(argv[i as int] == flag@);
        if i + 1 >= args.len() {
            return Err(joined("missing value for ", flag.as_str()));
        }
        let value = &args[i + 1];
        assert(argv[i + 1] == value@);
        if same_text(flag.as_str(), "--device") {
            out.device = Some(value.clone());
        } else if same_text(flag.as_str(), "--mount-point") {
            out.mount_point = Some(value.clone());
        } else if same_text(flag.as_str(), "--bluez-root") {
            out.bluez_root = Some(value.clone());
        } else {
            return Err(joined("unknown config option: ", flag.as_str()));
        }
        i = i + 2;
    }
    Ok(out)
}

/// The settings `bls config` is to save, before the device is resolved.
pub struct ConfigPlan {
    /// The device asked for, if any.
    pub device: Option<String>,
    pub mount_point: String,
    pub bluez_root: String,
    /// Whether the Windows partition must be checked for its `SYSTEM` hive:
    /// when the device or the mount point changes.
    pub verify_windows: bool,
}

impl ConfigOptions {
    /// Combines the requested settings with the current ones: each setting
    /// not asked for keeps its current value. Both paths must be absolute
    /// and free of line breaks.
    pub fn resolve(self, current: &MountConfig) -> (r: Result<ConfigPlan, String>)
        ensures
            ({
                let m = match self.mount_point {
                    Some(p) => p@,
                    None => current.mount_point@,
                };
                let b = match self.bluez_root {
                    Some(p) => p@,
                    None => current.bluez_root@,
                };
                if !is_absolute(m) || has_line_break(m) {
                    r matches Err(e) && e@ == "mount point must be an absolute path without newlines"@
                } else if !is_absolute(b) || has_line_break(b) {
                    r matches Err(e) && e@ == "BlueZ root must be an absolute path without newlines"@
                } else {
                    r matches Ok(p) && p.mount_point@ == m && p.bluez_root@ == b && opt_text(p.device)
                        == opt_text(self.device) && p.verify_windows == (self.device is Some
                        || self.mount_point is Some)
                }
            }),
    {
        let verify_windows = self.device.is_some() || self.mount_point.is_some();
        let mount_point = match self.mount_point {
            Some(p) => p,
            None => current.mount_point.clone(),
        };
        let bluez_root = match self.bluez_root {
            Some(p) => p,
            None => current.bluez_root.clone(),
        };
        let m = chars_of(mount_point.as_str());
        if !(m.len() > 0 && m[0] == '/') || has_line_break_exec(&m) {
            return Err(String::from_str("mount point must be an absolute path without newlines"));
        }
        let b = chars_of(bluez_root.as_str());
        if !(b.len() > 0 && b[0] == '/') || has_line_break_exec(&b) {
            return Err(String::from_str("BlueZ root must be an absolute path without newlines"));
        }
        Ok(ConfigPlan { device: self.device, mount_point, bluez_root, verify_windows })
    }
}

/// The configuration file written by `MountConfig::encode` reads back as the
/// same settings, whenever they are settings the file can hold.
pub proof fn law_config_round_trip(d: Seq<char>, m: Seq<char>, b: Seq<char>)
    requires
        settings_valid(d, m, b),
    ensures
        config_spec(config_text(d, m, b)) == Ok::<(Seq<char>, Seq<char>, Seq<char>), Seq<char>>((d, m, b)),
{
    let empty = Seq::<char>::empty();
    assert(!(b.len() > 0 && b.last() == '\r')) by {
        if b.len() > 0 && b.last() == '\r' {
            assert(b.contains('\r'));
        }
    }
    assert(!(m.len() > 0 && m.last() == '\r')) by {
        if m.len() > 0 && m.last() == '\r' {
            assert(m.contains('\r'));
        }
    }
    assert(!(d.len() > 0 && d.last() == '\r')) by {
        if d.len() > 0 && d.last() == '\r' {
            assert(d.contains('\r'));
        }
    }
    lemma_lines_cons(b, empty);
    assert(b + seq!['\n'] =~= b + seq!['\n'] + empty);
    lemma_lines_cons(m, b + seq!['\n']);
    lemma_lines_cons(d, m + seq!['\n'] + b + seq!['\n']);
    assert(config_text(d, m, b) =~= d + seq!['\n'] + (m + seq!['\n'] + b + seq!['\n']));
    assert(m + seq!['\n'] + (b + seq!['\n']) =~= m + seq!['\n'] + b + seq!['\n']);
    assert(lines(empty) == Seq::<Seq<char>>::empty());
    let ls = lines(config_text(d, m, b));
    assert(ls =~= seq![d, m, b]);
}

/// A flag of `bls config`.
pub open spec fn is_config_flag(f: Seq<char>) -> bool {
    f == "--device"@ || f == "--mount-point"@ || f == "--bluez-root"@
}

/// Arguments made of `FLAG VALUE` pairs, each flag one of `bls config`.
pub open spec fn config_pairs(args: Seq<Seq<char>>) -> bool {
    &&& args.len() % 2 == 0
    &&& forall|j: int| 0 <= j < args.len() && j % 2 == 0 ==> is_config_flag(#[trigger] args[j])
}

/// The value following the last pair of `args` whose flag is `flag`, the
/// pairs read from the end.
pub open spec fn last_value(args: Seq<Seq<char>>, flag: Seq<char>) -> Option<Seq<char>>
    decreases args.len(),
{
    if args.len() < 2 {
        None
    } else if args[args.len() - 2] == flag {
        Some(args[args.len() - 1])
    } else {
        last_value(args.take(args.len() - 2), flag)
    }
}

proof fn lemma_config_args_from(args: Seq<Seq<char>>, i: int)
    requires
        config_pairs(args),
        0 <= i <= args.len(),
        i % 2 == 0,
    ensures
        config_args_from(
            args,
            i,
            (
                last_value(args.take(i), "--device"@),
                last_value(args.take(i), "--mount-point"@),
                last_value(args.take(i), "--bluez-root"@),
            ),
        ) == Ok::<(Option<Seq<char>>, Option<Seq<char>>, Option<Seq<char>>), Seq<char>>(
            (last_value(args, "--device"@), last_value(args, "--mount-point"@), last_value(args, "--bluez-root"@)),
        ),
    decreases args.len() - i,
{
    reveal_strlit("--device");
    reveal_strlit("--mount-point");
    reveal_strlit("--bluez-root");
    assert("--device"@.len() == 8 && "--mount-point"@.len() == 13 && "--bluez-root"@.len() == 12);
    if i == args.len() {
        assert(args.take(i) =~= args);
    } else {
        assert(is_config_flag(args[i]));
        let t = args.take(i + 2);
        assert(t.len() == i + 2 && t[i] == args[i] && t[i + 1] == args[i + 1]);
        assert(t.take(i) =~= args.take(i));
        lemma_config_args_from(args, i + 2);
    }
}

/// For arguments made of `FLAG VALUE` pairs, `bls config` takes each of
/// `--device`, `--mount-point` and `--bluez-root` from the value after its
/// last occurrence, and leaves a setting whose flag is absent unrequested.
pub proof fn law_config_last_flag_wins(args: Seq<Seq<char>>)
    requires
        config_pairs(args),
    ensures
        config_args_spec(args) == Ok::<(Option<Seq<char>>, Option<Seq<char>>, Option<Seq<char>>), Seq<char>>(
            (last_value(args, "--device"@), last_value(args, "--mount-point"@), last_value(args, "--bluez-root"@)),
        ),
{
    assert(args.take(0).len() == 0);
    lemma_config_args_from(args, 0);
}

} // verus!
