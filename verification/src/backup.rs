//! Backups of the users' system files: a dated tar archive, or an rsync snapshot
//! hard-linked against the previous one.

use vstd::prelude::*;
use crate::clock::{day_stamp, day_stamp_text, second_stamp, second_stamp_text, ClockTime};
use crate::command::{push_str, Command};
use crate::text::copy_str;

verus! {

/// `<destination>/system_backup_<date>.tar.gz`, the archive written on `date`.
pub open spec fn tar_archive_path(destination: Seq<char>, date: Seq<char>) -> Seq<char> {
    destination + "/system_backup_"@ + date + ".tar.gz"@
}

/// `tar -czf <archive> /etc/passwd /etc/group /etc/shadow /etc/gshadow`.
pub open spec fn tar_command(destination: Seq<char>, date: Seq<char>) -> (Seq<char>, Seq<Seq<char>>) {
    (
        "tar"@,
        seq![
            "-czf"@,
            tar_archive_path(destination, date),
            "/etc/passwd"@,
            "/etc/group"@,
            "/etc/shadow"@,
            "/etc/gshadow"@,
        ],
    )
}

/// `<destination>/latest`, the link to the newest snapshot.
pub open spec fn latest_link(destination: Seq<char>) -> Seq<char> {
    destination + "/latest"@
}

/// `<destination>/<stamp>`, the snapshot taken at `stamp`.
pub open spec fn snapshot_dir(destination: Seq<char>, stamp: Seq<char>) -> Seq<char> {
    destination + "/"@ + stamp
}

/// `rsync -avh --delete [--link-dest=<latest>] <source> <snapshot>`: the link-dest
/// option is given when the link to the previous snapshot exists.
pub open spec fn rsync_command(
    source: Seq<char>,
    destination: Seq<char>,
    stamp: Seq<char>,
    latest_exists: bool,
) -> (Seq<char>, Seq<Seq<char>>) {
    let head = seq!["-avh"@, "--delete"@];
    let link = if latest_exists {
        seq!["--link-dest="@ + latest_link(destination)]
    } else {
        Seq::empty()
    };
    ("rsync"@, head + link + seq![source, snapshot_dir(destination, stamp)])
}

/// An rsync snapshot: the command to run, the snapshot directory, and the link that
/// is pointed at it once rsync succeeds.
pub struct RsyncBackup {
    pub command: Command,
    pub snapshot: String,
    pub latest: String,
}

/// `<destination>/latest` (see `latest_link`).
pub fn latest_link_text(destination: &str) -> (s: String)
    ensures
        s@ == latest_link(destination@),
{
    let mut s = copy_str(destination);
    s.append("/latest");
    s
}

/// The tar command that archives the users' system files on `date`.
pub fn tar_backup_command(destination: &str, date: &str) -> (c: Command)
    ensures
        c@ == tar_command(destination@, date@),
{
    let mut archive = copy_str(destination);
    archive.append("/system_backup_");
    archive.append(date);
    archive.append(".tar.gz");
    let mut args: Vec<String> = Vec::new();
    push_str(&mut args, "-czf");
    push_str(&mut args, archive.as_str());
    push_str(&mut args, "/etc/passwd");
    push_str(&mut args, "/etc/group");
    push_str(&mut args, "/etc/shadow");
    push_str(&mut args, "/etc/gshadow");
    let c = Command { program: copy_str("tar"), args };
    assert(c@.1 =~= tar_command(destination@, date@).1);
    c
}

/// The tar command for the day of `t`, written as `%Y%m%d` (see `day_stamp`).
pub fn tar_backup_command_at(destination: &str, t: &ClockTime) -> (c: Command)
    ensures
        c@ == tar_command(destination@, day_stamp(*t)),
{
    let date = day_stamp_text(t);
    tar_backup_command(destination, date.as_str())
}

/// The rsync snapshot of `source` taken at `stamp` (see `rsync_command`).
pub fn rsync_backup(source: &str, destination: &str, stamp: &str, latest_exists: bool) -> (b:
    RsyncBackup)
    ensures
        b.command@ == rsync_command(source@, destination@, stamp@, latest_exists),
        b.snapshot@ == snapshot_dir(destination@, stamp@),
        b.latest@ == latest_link(destination@),
{
    let mut snapshot = copy_str(destination);
    snapshot.append("/");
    snapshot.append(stamp);
    let latest = latest_link_text(destination);
    let mut args: Vec<String> = Vec::new();
    push_str(&mut args, "-avh");
    push_str(&mut args, "--delete");
    if latest_exists {
        let mut link = copy_str("--link-dest=");
        link.append(latest.as_str());
        push_str(&mut args, link.as_str());
    }
    push_str(&mut args, source);
    push_str(&mut args, snapshot.as_str());
    let command = Command { program: copy_str("rsync"), args };
    assert(command@.1 =~= rsync_command(source@, destination@, stamp@, latest_exists).1);
    RsyncBackup { command, snapshot, latest }
}

/// The rsync snapshot taken at `t`, written as `%Y%m%d_%H%M%S` (see
/// `second_stamp`).
pub fn rsync_backup_at(source: &str, destination: &str, t: &ClockTime, latest_exists: bool) -> (b:
    RsyncBackup)
    ensures
        b.command@ == rsync_command(source@, destination@, second_stamp(*t), latest_exists),
        b.snapshot@ == snapshot_dir(destination@, second_stamp(*t)),
        b.latest@ == latest_link(destination@),
{
    let stamp = second_stamp_text(t);
    rsync_backup(source, destination, stamp.as_str(), latest_exists)
}

/// The tar archive of `date` is written into `destination`, named with the date, and
/// holds the four account files: `tar -czf <destination>/system_backup_<date>.tar.gz`
/// followed by `/etc/passwd`, `/etc/group`, `/etc/shadow` and `/etc/gshadow`.
pub proof fn lemma_tar_archive(destination: Seq<char>, date: Seq<char>)
    ensures
        tar_command(destination, date).0 == "tar"@,
        tar_command(destination, date).1 == seq![
            "-czf"@,
            destination + "/system_backup_"@ + date + ".tar.gz"@,
            "/etc/passwd"@,
            "/etc/group"@,
            "/etc/shadow"@,
            "/etc/gshadow"@,
        ],
{
}

/// An rsync snapshot copies `source` into `<destination>/<stamp>`: the arguments are
/// `-avh --delete`, then `--link-dest=<destination>/latest` exactly when the link to
/// the previous snapshot exists, then the source and the snapshot directory last.
pub proof fn lemma_rsync_snapshot(
    source: Seq<char>,
    destination: Seq<char>,
    stamp: Seq<char>,
    latest_exists: bool,
)
    ensures
        rsync_command(source, destination, stamp, latest_exists).0 == "rsync"@,
        ({
            let args = rsync_command(source, destination, stamp, latest_exists).1;
            &&& args.len() == if latest_exists {
                5int
            } else {
                4int
            }
            &&& args[0] == "-avh"@
            &&& args[1] == "--delete"@
            &&& latest_exists ==> args[2] == "--link-dest="@ + destination + "/latest"@
            &&& args[args.len() - 2] == source
            &&& args[args.len() - 1] == destination + "/"@ + stamp
        }),
{
}

} // verus!
