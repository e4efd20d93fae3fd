//! NFS exports: adding, removing, replacing and disabling the `/etc/exports`
//! entry of a shared directory. A line is the entry of a directory when its first
//! whitespace-separated field is that directory.

use vstd::prelude::*;
use crate::command::{push_str, Command};
use crate::text::{
    copy_str, first_field, first_field_text, join, join_strings, joinable_lines, lemma_lines_of_join,
    lemma_ws_index, lines, starts_with, str_lines, str_starts_with, trim_start,
    ws_index,
};

verus! {

/// What to do with the export of a directory.
#[derive(Debug, Clone, Copy, PartialEq, Eq, Structural)]
pub enum NfsAction {
    /// Add the entry unless the directory is already exported.
    Add,
    /// Remove the directory's entries.
    Remove,
    /// Replace the directory's entries by the new entry.
    Update,
    /// Comment out the directory's entries.
    Disable,
}

/// `<path> <client>(<options>)`, the exports entry that shares `path` with `client`.
pub open spec fn nfs_entry(path: Seq<char>, client: Seq<char>, options: Seq<char>) -> Seq<char> {
    path + " "@ + client + "("@ + options + ")"@
}

/// The line exports `path`: its first field is `path`.
pub open spec fn exports_path(line: Seq<char>, path: Seq<char>) -> bool {
    first_field(line) == Some(path)
}

/// Some line exports `path`.
pub open spec fn exported(lines: Seq<Seq<char>>, path: Seq<char>) -> bool {
    exists|k: int| 0 <= k < lines.len() && exports_path(#[trigger] lines[k], path)
}

/// The lines that do not export `path`, in order.
pub open spec fn lines_not_exporting(lines: Seq<Seq<char>>, path: Seq<char>) -> Seq<Seq<char>>
    decreases lines.len(),
{
    if lines.len() == 0 {
        Seq::empty()
    } else if exports_path(lines.last(), path) {
        lines_not_exporting(lines.drop_last(), path)
    } else {
        lines_not_exporting(lines.drop_last(), path).push(lines.last())
    }
}

/// The line with a `#` in front when it exports `path` and is not commented out.
pub open spec fn disabled_line(line: Seq<char>, path: Seq<char>) -> Seq<char> {
    if exports_path(line, path) && !starts_with(line, "#"@) {
        "#"@ + line
    } else {
        line
    }
}

/// Every line passed through `disabled_line`.
pub open spec fn disabled_lines(lines: Seq<Seq<char>>, path: Seq<char>) -> Seq<Seq<char>> {
    Seq::new(lines.len(), |k: int| disabled_line(lines[k], path))
}

/// The lines of `/etc/exports` after `action` on `path`, with `entry` its new entry.
pub open spec fn exports_lines_after(
    lines: Seq<Seq<char>>,
    action: NfsAction,
    path: Seq<char>,
    entry: Seq<char>,
) -> Seq<Seq<char>> {
    match action {
        NfsAction::Add => if exported(lines, path) {
            lines
        } else {
            lines.push(entry)
        },
        NfsAction::Remove => lines_not_exporting(lines, path),
        NfsAction::Update => lines_not_exporting(lines, path).push(entry),
        NfsAction::Disable => disabled_lines(lines, path),
    }
}

/// The text of `/etc/exports` after `action`: its lines changed as above and joined
/// by line feeds, with no line feed after the last.
pub open spec fn exports_after(
    content: Seq<char>,
    action: NfsAction,
    path: Seq<char>,
    entry: Seq<char>,
) -> Seq<char> {
    join(exports_lines_after(lines(content), action, path, entry), "\n"@)
}

/// The exports entry that shares `path` with `client` (see `nfs_entry`).
pub fn nfs_entry_text(path: &str, client: &str, options: &str) -> (s: String)
    ensures
        s@ == nfs_entry(path@, client@, options@),
{
    let mut s = String::new();
    s.append(path);
    s.append(" ");
    s.append(client);
    s.append("(");
    s.append(options);
    s.append(")");
    s
}

/// Whether the line exports `path` (see `exports_path`).
pub fn exports_path_text(line: &str, path: &str) -> (b: bool)
    ensures
        b == exports_path(line@, path@),
{
    match first_field_text(line) {
        Some(f) => {
            let p = copy_str(path);
            f == p
        },
        None => false,
    }
}

/// The lines that do not export `path`.
pub fn keep_lines_not_exporting(lines: &Vec<String>, path: &str) -> (out: Vec<String>)
    ensures
        out.deep_view() == lines_not_exporting(lines.deep_view(), path@),
{
    let ghost dv = lines.deep_view();
    let mut out: Vec<String> = Vec::new();
    for i in 0..lines.len()
        invariant
            dv == lines.deep_view(),
            out.deep_view() == lines_not_exporting(dv.take(i as int), path@),
    {
        assert(dv.take(i + 1).drop_last() =~= dv.take(i as int));
        assert(dv.take(i + 1).last() == dv[i as int]);
        assert(lines[i as int]@ == dv[i as int]);
        if !exports_path_text(lines[i].as_str(), path) {
            let ghost before = out.deep_view();
            out.push(copy_str(lines[i].as_str()));
            assert(out.deep_view() =~= before.push(dv[i as int]));
        }
    }
    assert(dv.take(lines.len() as int) =~= dv);
    out
}

/// The lines of `/etc/exports` after `action` on `path` (see `exports_lines_after`).
pub fn update_export_lines(lines: &Vec<String>, action: NfsAction, path: &str, entry: &str) -> (out:
    Vec<String>)
    ensures
        out.deep_view() == exports_lines_after(lines.deep_view(), action, path@, entry@),
{
    let ghost dv = lines.deep_view();
    match action {
        NfsAction::Add => {
            let mut found = false;
            for i in 0..lines.len()
                invariant
                    dv == lines.deep_view(),
                    found == exists|k: int| 0 <= k < i && exports_path(#[trigger] dv[k], path@),
            {
                assert(lines[i as int]@ == dv[i as int]);
                if exports_path_text(lines[i].as_str(), path) {
                    found = true;
                }
            }
            let mut out = lines.clone();
            assert(out.deep_view() =~= dv);
            if !found {
                out.push(copy_str(entry));
                assert(out.deep_view() =~= dv.push(entry@));
            }
            out
        },
        NfsAction::Remove => keep_lines_not_exporting(lines, path),
        NfsAction::Update => {
            let mut out = keep_lines_not_exporting(lines, path);
            let ghost before = out.deep_view();
            out.push(copy_str(entry));
            assert(out.deep_view() =~= before.push(entry@));
            out
        },
        NfsAction::Disable => {
            let mut out: Vec<String> = Vec::new();
            for i in 0..lines.len()
                invariant
                    dv == lines.deep_view(),
                    out.deep_view() =~= disabled_lines(dv, path@).take(i as int),
            {
                assert(lines[i as int]@ == dv[i as int]);
                let line = lines[i].as_str();
                let ghost before = out.deep_view();
                if exports_path_text(line, path) && !str_starts_with(line, "#") {
                    let mut l = String::new();
                    l.append("#");
                    l.append(line);
                    out.push(l);
                } else {
                    out.push(copy_str(line));
                }
                assert(out.deep_view() =~= before.push(disabled_line(dv[i as int], path@)));
            }
            out
        },
    }
}

/// The text of `/etc/exports` after `action` on `path` (see `exports_after`).
pub fn update_exports(content: &str, action: NfsAction, path: &str, entry: &str) -> (s: String)
    ensures
        s@ == exports_after(content@, action, path@, entry@),
{
    let all = str_lines(content);
    let out = update_export_lines(&all, action, path, entry);
    join_strings(&out, "\n")
}

/// `systemctl restart nfs-server`, run after `/etc/exports` is written.
pub fn nfs_restart_command() -> (c: Command)
    ensures
        c@ == ("systemctl"@, seq!["restart"@, "nfs-server"@]),
{
    let mut args: Vec<String> = Vec::new();
    push_str(&mut args, "restart");
    push_str(&mut args, "nfs-server");
    let c = Command { program: copy_str("systemctl"), args };
    assert(c@.1 =~= seq!["restart"@, "nfs-server"@]);
    c
}

/// A directory name that can be a first field: not empty, and free of whitespace.
pub open spec fn plain_path(path: Seq<char>) -> bool {
    path.len() > 0 && forall|k: int| 0 <= k < path.len() ==> !crate::text::is_ws(#[trigger] path[k])
}

/// An entry exports the directory it shares, when that directory is a plain path.
pub proof fn lemma_entry_exports_path(path: Seq<char>, client: Seq<char>, options: Seq<char>)
    requires
        plain_path(path),
    ensures
        exports_path(nfs_entry(path, client, options), path),
{
    reveal_strlit(" ");
    let e = nfs_entry(path, client, options);
    assert(e[0] == path[0]);
    assert(trim_start(e) == e);
    lemma_ws_index(e, 0);
    assert(e[path.len() as int] == ' ');
    assert forall|k: int| 0 <= k < path.len() implies e[k] == path[k] by {}
    let w = ws_index(e, 0);
    assert(w == path.len()) by {
        if w < path.len() {
            assert(crate::text::is_ws(e[w as int]));
            assert(e[w as int] == path[w as int]);
        }
        if w > path.len() {
            assert(!crate::text::is_ws(e[path.len() as int]));
        }
    }
    assert(e.take(w as int) =~= path);
}

/// No line kept by `lines_not_exporting` exports `path`.
pub proof fn lemma_not_exporting_absent(lines: Seq<Seq<char>>, path: Seq<char>)
    ensures
        !exported(lines_not_exporting(lines, path), path),
    decreases lines.len(),
{
    if lines.len() > 0 {
        lemma_not_exporting_absent(lines.drop_last(), path);
        let rest = lines_not_exporting(lines.drop_last(), path);
        if !exports_path(lines.last(), path) {
            let out = rest.push(lines.last());
            assert forall|k: int| 0 <= k < out.len() implies !exports_path(#[trigger] out[k], path) by {
                if k < rest.len() {
                    assert(out[k] == rest[k]);
                }
            }
        }
    }
}

/// Adding the export of a (plain) directory twice gives what adding it once gives.
pub proof fn lemma_add_idempotent(
    lines: Seq<Seq<char>>,
    path: Seq<char>,
    client: Seq<char>,
    options: Seq<char>,
)
    requires
        plain_path(path),
    ensures
        ({
            let entry = nfs_entry(path, client, options);
            let once = exports_lines_after(lines, NfsAction::Add, path, entry);
            exports_lines_after(once, NfsAction::Add, path, entry) == once
        }),
{
    let entry = nfs_entry(path, client, options);
    let once = exports_lines_after(lines, NfsAction::Add, path, entry);
    if !exported(lines, path) {
        lemma_entry_exports_path(path, client, options);
        assert(once[once.len() - 1] == entry);
        assert(exported(once, path));
    }
}

/// After the export of a directory is removed, no line of `/etc/exports` exports it.
pub proof fn lemma_remove_leaves_none(lines: Seq<Seq<char>>, path: Seq<char>, entry: Seq<char>)
    ensures
        !exported(exports_lines_after(lines, NfsAction::Remove, path, entry), path),
{
    lemma_not_exporting_absent(lines, path);
}

/// After the export of a directory is updated, its new entry is the last line and no
/// other line exports the directory.
pub proof fn lemma_update_single_entry(lines: Seq<Seq<char>>, path: Seq<char>, entry: Seq<char>)
    ensures
        ({
            let out = exports_lines_after(lines, NfsAction::Update, path, entry);
            &&& out.len() > 0
            &&& out.last() == entry
            &&& forall|k: int| 0 <= k < out.len() - 1 ==> !exports_path(#[trigger] out[k], path)
        }),
{
    lemma_not_exporting_absent(lines, path);
    let rest = lines_not_exporting(lines, path);
    let out = rest.push(entry);
    assert forall|k: int| 0 <= k < out.len() - 1 implies !exports_path(#[trigger] out[k], path) by {
        assert(out[k] == rest[k]);
    }
}

/// Updating an export is removing it and then adding it, also when `/etc/exports` is
/// written and read back in between (as long as what the removal leaves can be read
/// back unchanged, see `joinable_lines`).
pub proof fn lemma_update_is_remove_then_add(
    content: Seq<char>,
    path: Seq<char>,
    entry: Seq<char>,
)
    requires
        joinable_lines(lines_not_exporting(lines(content), path)),
    ensures
        exports_after(exports_after(content, NfsAction::Remove, path, entry), NfsAction::Add, path, entry)
            == exports_after(content, NfsAction::Update, path, entry),
{
    let kept = lines_not_exporting(lines(content), path);
    lemma_lines_of_join(kept);
    lemma_not_exporting_absent(lines(content), path);
}

/// Disabling the export of a directory twice gives what disabling it once gives.
pub proof fn lemma_disable_idempotent(lines: Seq<Seq<char>>, path: Seq<char>, entry: Seq<char>)
    ensures
        ({
            let once = exports_lines_after(lines, NfsAction::Disable, path, entry);
            exports_lines_after(once, NfsAction::Disable, path, entry) == once
        }),
{
    let once = disabled_lines(lines, path);
    let twice = disabled_lines(once, path);
    assert forall|k: int| 0 <= k < once.len() implies #[trigger] twice[k] == once[k] by {
        let l = lines[k];
        if exports_path(l, path) && !starts_with(l, "#"@) {
            reveal_strlit("#");
            assert(starts_with(once[k], "#"@)) by {
                assert(once[k][0] == '#');
                assert(forall|m: int| 0 <= m < 1 ==> #[trigger] once[k][0 + m] == "#"@[m]);
            }
        }
    }
    assert(twice =~= once);
}

} // verus!
