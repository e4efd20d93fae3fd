use sysadmin::backup::{latest_link_text, rsync_backup, rsync_backup_at, tar_backup_command, tar_backup_command_at};
use sysadmin::clock::ClockTime;
use sysadmin::raid::{raid5_plan, RaidError};

fn strings(v: &[&str]) -> Vec<String> {
    v.iter().map(|s| s.to_string()).collect()
}

#[test]
fn tar_backup() {
    let c = tar_backup_command("/backups", "20240615");
    assert_eq!(c.program, "tar");
    assert_eq!(
        c.args,
        strings(&["-czf", "/backups/system_backup_20240615.tar.gz", "/etc/passwd", "/etc/group", "/etc/shadow", "/etc/gshadow"])
    );
}

#[test]
fn tar_backup_is_dated_by_the_clock() {
    let t = ClockTime { year: 2024, month: 6, day: 5, hour: 23, minute: 1, second: 2 };
    let c = tar_backup_command_at("/b", &t);
    assert_eq!(c.args[1], "/b/system_backup_20240605.tar.gz");
    assert_eq!(c.args, tar_backup_command("/b", "20240605").args);
}

#[test]
fn first_rsync_snapshot_has_no_link_dest() {
    let b = rsync_backup("/home", "/backups", "20240615_101500", false);
    assert_eq!(b.command.program, "rsync");
    assert_eq!(b.command.args, strings(&["-avh", "--delete", "/home", "/backups/20240615_101500"]));
    assert_eq!(b.snapshot, "/backups/20240615_101500");
    assert_eq!(b.latest, "/backups/latest");
}

#[test]
fn later_rsync_snapshots_link_to_latest() {
    let b = rsync_backup("/home", "/backups", "20240616_101500", true);
    assert_eq!(
        b.command.args,
        strings(&["-avh", "--delete", "--link-dest=/backups/latest", "/home", "/backups/20240616_101500"])
    );
    assert_eq!(latest_link_text("/backups"), "/backups/latest");
}

#[test]
fn rsync_snapshot_is_stamped_by_the_clock() {
    let t = ClockTime { year: 2024, month: 12, day: 31, hour: 9, minute: 8, second: 7 };
    let b = rsync_backup_at("/home", "/bk", &t, true);
    assert_eq!(b.snapshot, "/bk/20241231_090807");
    assert_eq!(b.command.args[4], b.snapshot);
    assert_eq!(b.latest, "/bk/latest");
}

#[test]
fn raid_needs_three_devices() {
    let r = raid5_plan("/mnt/raid", &strings(&["/dev/sdb", "/dev/sdc"]), &Vec::new());
    assert_eq!(r.err(), Some(RaidError::TooFewDevices));
}

#[test]
fn raid_plan_without_spares() {
    let p = raid5_plan("/mnt/raid", &strings(&["/dev/sdb", "/dev/sdc", "/dev/sdd"]), &Vec::new()).ok().unwrap();
    assert_eq!(p.create.program, "mdadm");
    assert_eq!(
        p.create.args,
        strings(&["--create", "/dev/md0", "--level=5", "--raid-devices", "3", "/dev/sdb", "/dev/sdc", "/dev/sdd"])
    );
    assert_eq!(p.format.program, "mkfs.ext4");
    assert_eq!(p.format.args, strings(&["/dev/md0"]));
    assert_eq!(p.mount.program, "mount");
    assert_eq!(p.mount.args, strings(&["/dev/md0", "/mnt/raid"]));
}

#[test]
fn raid_plan_with_spares() {
    let devices: Vec<String> = (0..12).map(|i| format!("/dev/vd{i}")).collect();
    let p = raid5_plan("/data", &devices, &strings(&["/dev/vde"])).ok().unwrap();
    let args = &p.create.args;
    assert_eq!(args[4], "12");
    assert_eq!(&args[5..17], &devices[..]);
    assert_eq!(&args[17..], &strings(&["--spare-devices", "1", "/dev/vde"])[..]);
}
