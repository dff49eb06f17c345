//! Mounting the Windows partition read-only: the decisions between the
//! `findmnt` and `mount` runs.
use vstd::prelude::*;
use vstd::string::StringSliceAdditionalSpecFns;
use vstd::utf8::{valid_utf8, decode_utf8};
use crate::registry::utf8_text;
use crate::text::{chars_of, string_of, lines, lines_chars, texts};

verus! {

/// What the last step of mounting reported.
pub enum MountEvent {
    /// Nothing run yet.
    Started,
    /// `findmnt --mountpoint` ran; it succeeds when the mount point is in use.
    MountPointQueried { in_use: bool },
    /// `findmnt --source` ran: whether the partition is mounted somewhere, and
    /// what it printed.
    SourceQueried { found: bool, output: Vec<u8> },
    /// The bind mount ran, with its exit status as text.
    Bound { ok: bool, status: String },
    /// The read-only remount of the bind mount ran.
    Remounted { ok: bool },
    /// The read-only `ntfs3` mount ran, with its exit status as text.
    Mounted { ok: bool, status: String },
}

/// What to do next.
pub enum MountAction {
    /// Ask whether the mount point is in use.
    QueryMountPoint,
    /// Ask where the partition is mounted.
    QuerySource,
    /// Bind-mount the partition's existing mount at the mount point.
    Bind { source: String },
    /// Make the bind mount read-only.
    RemountReadOnly,
    /// Mount the partition read-only with `ntfs3`.
    MountNtfs,
    /// Undo the bind mount, then fail with the message.
    UnmountAndFail(String),
    /// The partition is mounted.
    Finish,
    /// Fail with the message.
    Fail(String),
}

/// The next step as plain values.
pub enum MountPlan {
    QueryMountPoint,
    QuerySource,
    Bind(Seq<char>),
    RemountReadOnly,
    MountNtfs,
    UnmountAndFail(Seq<char>),
    Finish,
    Fail(Seq<char>),
}

pub open spec fn plan_of(a: &MountAction) -> MountPlan {
    match a {
        MountAction::QueryMountPoint => MountPlan::QueryMountPoint,
        MountAction::QuerySource => MountPlan::QuerySource,
        MountAction::Bind { source } => MountPlan::Bind(source@),
        MountAction::RemountReadOnly => MountPlan::RemountReadOnly,
        MountAction::MountNtfs => MountPlan::MountNtfs,
        MountAction::UnmountAndFail(m) => MountPlan::UnmountAndFail(m@),
        MountAction::Finish => MountPlan::Finish,
        MountAction::Fail(m) => MountPlan::Fail(m@),
    }
}

/// The next step: first check that nothing is mounted at the mount point;
/// if the partition is already mounted elsewhere, bind its first listed
/// mount point there and make the bind read-only (undoing it if that
/// fails); otherwise mount the partition read-only.
pub open spec fn mount_plan(event: &MountEvent, mount_point: Seq<char>) -> MountPlan {
    match event {
        MountEvent::Started => MountPlan::QueryMountPoint,
        MountEvent::MountPointQueried { in_use } => if *in_use {
            MountPlan::Fail("mount point already in use: "@ + mount_point)
        } else {
            MountPlan::QuerySource
        },
        MountEvent::SourceQueried { found, output } => if !*found {
            MountPlan::MountNtfs
        } else if !valid_utf8(output@) {
            MountPlan::Fail("invalid existing mount path"@)
        } else if lines(decode_utf8(output@)).len() == 0 {
            MountPlan::Fail("missing existing mount path"@)
        } else {
            MountPlan::Bind(lines(decode_utf8(output@))[0])
        },
        MountEvent::Bound { ok, status } => if *ok {
            MountPlan::RemountReadOnly
        } else {
            MountPlan::Fail("bind mount failed: "@ + status@)
        },
        MountEvent::Remounted { ok } => if *ok {
            MountPlan::Finish
        } else {
            MountPlan::UnmountAndFail("could not make bind mount read-only"@)
        },
        MountEvent::Mounted { ok, status } => if *ok {
            MountPlan::Finish
        } else {
            MountPlan::Fail("mount failed: "@ + status@)
        },
    }
}

fn joined(prefix: &str, tail: &str) -> (s: String)
    ensures
        s@ == prefix@ + tail@,
{
    let mut s = String::from_str(prefix);
    s.append(tail);
    s
}

/// Decides the next step of mounting (see `mount_plan`).
pub fn mount_next(event: &MountEvent, mount_point: &str) -> (a: MountAction)
    ensures
        plan_of(&a) == mount_plan(event, mount_point@),
{
    match event {
        MountEvent::Started => MountAction::QueryMountPoint,
        MountEvent::MountPointQueried { in_use } => if *in_use {
            MountAction::Fail(joined("mount point already in use: ", mount_point))
        } else {
            MountAction::QuerySource
        },
        MountEvent::SourceQueried { found, output } => {
            if !*found {
                return MountAction::MountNtfs;
            }
            let text = match utf8_text(output.as_slice()) {
                Some(t) => t,
                None => {
                    return MountAction::Fail(String::from_str("invalid existing mount path"));
                },
            };
            proof {
                vstd::utf8::encode_utf8_decode_utf8(text@);
            }
            let all = lines_chars(&chars_of(text));
            if all.len() == 0 {
                return MountAction::Fail(String::from_str("missing existing mount path"));
            }
            assert(texts(all@)[0] == all@[0]@);
            MountAction::Bind { source: string_of(&all[0]) }
        },
        MountEvent::Bound { ok, status } => if *ok {
            MountAction::RemountReadOnly
        } else {
            MountAction::Fail(joined("bind mount failed: ", status.as_str()))
        },
        MountEvent::Remounted { ok } => if *ok {
            MountAction::Finish
        } else {
            MountAction::UnmountAndFail(String::from_str("could not make bind mount read-only"))
        },
        MountEvent::Mounted { ok, status } => if *ok {
            MountAction::Finish
        } else {
            MountAction::Fail(joined("mount failed: ", status.as_str()))
        },
    }
}

/// The command line that carries out a step: `findmnt` queries, and only
/// read-only mounts (`ntfs3` with `ro,nosuid,nodev,noexec`, or a bind
/// remounted with `remount,bind,ro,nosuid,nodev,noexec`); `umount` to undo a
/// bind. Empty for the steps that run nothing.
pub open spec fn command_spec(p: MountPlan, device: Seq<char>, mount_point: Seq<char>) -> Seq<Seq<char>> {
    match p {
        MountPlan::QueryMountPoint => seq!["findmnt"@, "--mountpoint"@, mount_point],
        MountPlan::QuerySource => seq!["findmnt"@, "-n"@, "-o"@, "TARGET"@, "--source"@, device],
        MountPlan::Bind(source) => seq!["mount"@, "--bind"@, "--"@, source, mount_point],
        MountPlan::RemountReadOnly => seq!["mount"@, "-o"@, "remount,bind,ro,nosuid,nodev,noexec"@, "--"@, mount_point],
        MountPlan::MountNtfs => seq!["mount"@, "-t"@, "ntfs3"@, "-o"@, "ro,nosuid,nodev,noexec"@, "--"@, device, mount_point],
        MountPlan::UnmountAndFail(_) => seq!["umount"@, mount_point],
        MountPlan::Finish => Seq::empty(),
        MountPlan::Fail(_) => Seq::empty(),
    }
}

/// The texts of a list of strings.
pub open spec fn argv_texts(v: Seq<String>) -> Seq<Seq<char>> {
    v.map_values(|s: String| s@)
}

/// The command line of a step (see `command_spec`): program first, then its
/// arguments.
pub fn mount_command(a: &MountAction, device: &str, mount_point: &str) -> (r: Vec<String>)
    ensures
        argv_texts(r@) == command_spec(plan_of(a), device@, mount_point@),
{
    let r = match a {
        MountAction::QueryMountPoint => vec![
            String::from_str("findmnt"),
            String::from_str("--mountpoint"),
            String::from_str(mount_point),
        ],
        MountAction::QuerySource => vec![
            String::from_str("findmnt"),
            String::from_str("-n"),
            String::from_str("-o"),
            String::from_str("TARGET"),
            String::from_str("--source"),
            String::from_str(device),
        ],
        MountAction::Bind { source } => vec![
            String::from_str("mount"),
            String::from_str("--bind"),
            String::from_str("--"),
            String::from_str(source.as_str()),
            String::from_str(mount_point),
        ],
        MountAction::RemountReadOnly => vec![
            String::from_str("mount"),
            String::from_str("-o"),
            String::from_str("remount,bind,ro,nosuid,nodev,noexec"),
            String::from_str("--"),
            String::from_str(mount_point),
        ],
        MountAction::MountNtfs => vec![
            String::from_str("mount"),
            String::from_str("-t"),
            String::from_str("ntfs3"),
            String::from_str("-o"),
            String::from_str("ro,nosuid,nodev,noexec"),
            String::from_str("--"),
            String::from_str(device),
            String::from_str(mount_point),
        ],
        MountAction::UnmountAndFail(_) => vec![String::from_str("umount"), String::from_str(mount_point)],
        MountAction::Finish => Vec::new(),
        MountAction::Fail(_) => Vec::new(),
    };
    assert(argv_texts(r@) =~= command_spec(plan_of(a), device@, mount_point@));
    r
}

} // verus!
