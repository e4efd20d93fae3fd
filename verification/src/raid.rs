//! A level-5 RAID array: creating it with mdadm, formatting it and mounting it.

use vstd::prelude::*;
use crate::command::{push_all, push_str, Command};
use crate::text::{copy_str, decimal, decimal_string};

verus! {

/// Why the array could not be planned.
#[derive(Debug, Clone, Copy, PartialEq, Eq, Structural)]
pub enum RaidError {
    /// RAID 5 needs at least three devices.
    TooFewDevices,
}

/// `mdadm --create /dev/md0 --level=5 --raid-devices <n> <devices>...`, followed by
/// `--spare-devices <m> <spares>...` when there are spare devices.
pub open spec fn mdadm_command(devices: Seq<Seq<char>>, spare: Seq<Seq<char>>) -> (
    Seq<char>,
    Seq<Seq<char>>,
) {
    let head = seq![
        "--create"@,
        "/dev/md0"@,
        "--level=5"@,
        "--raid-devices"@,
        decimal(devices.len()),
    ];
    let spares = if spare.len() > 0 {
        seq!["--spare-devices"@, decimal(spare.len())] + spare
    } else {
        Seq::empty()
    };
    ("mdadm"@, head + devices + spares)
}

/// `mkfs.ext4 /dev/md0`.
pub open spec fn mkfs_command() -> (Seq<char>, Seq<Seq<char>>) {
    ("mkfs.ext4"@, seq!["/dev/md0"@])
}

/// `mount /dev/md0 <mount_point>`.
pub open spec fn mount_command(mount_point: Seq<char>) -> (Seq<char>, Seq<Seq<char>>) {
    ("mount"@, seq!["/dev/md0"@, mount_point])
}

/// The commands that build the array, in the order they run; the mount point is
/// created between formatting and mounting.
pub struct RaidPlan {
    pub create: Command,
    pub format: Command,
    pub mount: Command,
}

/// Plans a RAID 5 array over `devices` with the `spare` devices, mounted at
/// `mount_point`; refused when there are fewer than three devices.
pub fn raid5_plan(mount_point: &str, devices: &Vec<String>, spare: &Vec<String>) -> (r: Result<
    RaidPlan,
    RaidError,
>)
    ensures
        devices.len() < 3 <==> r is Err,
        r matches Err(e) ==> e == RaidError::TooFewDevices,
        r matches Ok(p) ==> {
            &&& p.create@ == mdadm_command(devices.deep_view(), spare.deep_view())
            &&& p.format@ == mkfs_command()
            &&& p.mount@ == mount_command(mount_point@)
        },
{
    if devices.len() < 3 {
        return Err(RaidError::TooFewDevices);
    }
    let mut args: Vec<String> = Vec::new();
    push_str(&mut args, "--create");
    push_str(&mut args, "/dev/md0");
    push_str(&mut args, "--level=5");
    push_str(&mut args, "--raid-devices");
    push_str(&mut args, decimal_string(devices.len() as u64).as_str());
    push_all(&mut args, devices);
    if spare.len() > 0 {
        push_str(&mut args, "--spare-devices");
        push_str(&mut args, decimal_string(spare.len() as u64).as_str());
        push_all(&mut args, spare);
    }
    let create = Command { program: copy_str("mdadm"), args };
    assert(create@.1 =~= mdadm_command(devices.deep_view(), spare.deep_view()).1);
    let mut fargs: Vec<String> = Vec::new();
    push_str(&mut fargs, "/dev/md0");
    let format = Command { program: copy_str("mkfs.ext4"), args: fargs };
    assert(format@.1 =~= mkfs_command().1);
    let mut margs: Vec<String> = Vec::new();
    push_str(&mut margs, "/dev/md0");
    push_str(&mut margs, mount_point);
    let mount = Command { program: copy_str("mount"), args: margs };
    assert(mount@.1 =~= mount_command(mount_point@).1);
    Ok(RaidPlan { create, format, mount })
}

/// The arguments given to mdadm: `--create /dev/md0 --level=5 --raid-devices`, the
/// number of devices, every device in order, and, when there are `m > 0` spare
/// devices, `--spare-devices`, the number `m` and every spare in order; nothing else,
/// so there are `5 + n` arguments, or `5 + n + 2 + m` with spares.
pub proof fn lemma_mdadm_arguments(devices: Seq<Seq<char>>, spare: Seq<Seq<char>>)
    ensures
        mdadm_command(devices, spare).0 == "mdadm"@,
        ({
            let args = mdadm_command(devices, spare).1;
            let n = devices.len() as int;
            let m = spare.len() as int;
            &&& args.len() == if m > 0 {
                5 + n + 2 + m
            } else {
                5 + n
            }
            &&& args[0] == "--create"@
            &&& args[1] == "/dev/md0"@
            &&& args[2] == "--level=5"@
            &&& args[3] == "--raid-devices"@
            &&& args[4] == decimal(devices.len())
            &&& forall|i: int| 0 <= i < n ==> #[trigger] args[5 + i] == devices[i]
            &&& m > 0 ==> {
                &&& args[5 + n] == "--spare-devices"@
                &&& args[5 + n + 1] == decimal(spare.len())
                &&& forall|i: int| 0 <= i < m ==> #[trigger] args[5 + n + 2 + i] == spare[i]
            }
        }),
{
    let args = mdadm_command(devices, spare).1;
    let n = devices.len() as int;
    let m = spare.len() as int;
    assert forall|i: int| 0 <= i < n implies #[trigger] args[5 + i] == devices[i] by {}
    if m > 0 {
        assert forall|i: int| 0 <= i < m implies #[trigger] args[5 + n + 2 + i] == spare[i] by {}
    }
}

} // verus!
