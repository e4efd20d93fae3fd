use sysadmin::nfs::{nfs_entry_text, nfs_restart_command, update_exports, NfsAction};

#[test]
fn entry_format() {
    assert_eq!(nfs_entry_text("/srv/share", "192.168.0.0/24", "ro,hide"), "/srv/share 192.168.0.0/24(ro,hide)");
}

#[test]
fn add_appends_only_when_absent() {
    let entry = "/srv/a 10.0.0.0/8(rw)";
    assert_eq!(update_exports("", NfsAction::Add, "/srv/a", entry), entry);
    let content = "/srv/b *(ro)\n";
    let once = update_exports(content, NfsAction::Add, "/srv/a", entry);
    assert_eq!(once, "/srv/b *(ro)\n/srv/a 10.0.0.0/8(rw)");
    assert_eq!(update_exports(&once, NfsAction::Add, "/srv/a", entry), once);
}

#[test]
fn a_longer_path_is_another_share() {
    let entry = nfs_entry_text("/srv/share", "*", "ro");
    assert_eq!(
        update_exports("/srv/share2 *(ro)", NfsAction::Add, "/srv/share", &entry),
        "/srv/share2 *(ro)\n/srv/share *(ro)"
    );
    let indented = "  /srv/share *(rw)";
    assert_eq!(update_exports(indented, NfsAction::Add, "/srv/share", &entry), indented);
}

#[test]
fn remove_drops_only_the_entries_of_the_path() {
    let content = "/srv/a *(ro)\n/srv/b *(ro)\n/srv/ab *(rw)\n# /srv/a was here\n";
    assert_eq!(
        update_exports(content, NfsAction::Remove, "/srv/a", "x"),
        "/srv/b *(ro)\n/srv/ab *(rw)\n# /srv/a was here"
    );
}

#[test]
fn update_replaces_with_entry_at_end() {
    let content = "/srv/a *(ro)\n/srv/b *(ro)\n/srv/a2 *(ro)";
    assert_eq!(
        update_exports(content, NfsAction::Update, "/srv/a", "/srv/a 10.0.0.1(rw)"),
        "/srv/b *(ro)\n/srv/a2 *(ro)\n/srv/a 10.0.0.1(rw)"
    );
}

#[test]
fn update_is_remove_then_add() {
    let content = "/srv/a *(ro)\n/srv/b *(ro)\n/srv/a 10.0.0.0/8(rw)";
    let entry = "/srv/a 10.0.0.1(rw)";
    let removed = update_exports(content, NfsAction::Remove, "/srv/a", entry);
    let added = update_exports(&removed, NfsAction::Add, "/srv/a", entry);
    assert_eq!(update_exports(content, NfsAction::Update, "/srv/a", entry), added);
}

#[test]
fn disable_comments_out_once() {
    let content = "/srv/a *(ro)\n#/srv/a old\n/srv/b *(ro)\n/srv/abc *(ro)";
    let once = update_exports(content, NfsAction::Disable, "/srv/a", "x");
    assert_eq!(once, "#/srv/a *(ro)\n#/srv/a old\n/srv/b *(ro)\n/srv/abc *(ro)");
    assert_eq!(update_exports(&once, NfsAction::Disable, "/srv/a", "x"), once);
}

#[test]
fn restart_command() {
    let c = nfs_restart_command();
    assert_eq!(c.program, "systemctl");
    assert_eq!(c.args, vec!["restart".to_string(), "nfs-server".to_string()]);
}
