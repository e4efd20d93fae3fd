//! Apache HTTPD: the virtual host of a domain, its welcome page, and the
//! `Listen` directive of `httpd.conf`.

use vstd::prelude::*;
use crate::text::{
    lemma_lines_of_render, no_line_feed, path_join, path_join_text, plain_line, render, str_trim,
    trim,
};

verus! {

/// `/var/www/html/<domain>`, the document root of `domain`.
pub open spec fn document_root(domain: Seq<char>) -> Seq<char> {
    "/var/www/html/"@ + domain
}

/// The configuration file of `domain`'s virtual host, in `/etc/httpd/conf.d`.
pub open spec fn vhost_conf_path(domain: Seq<char>) -> Seq<char> {
    path_join("/etc/httpd/conf.d"@, domain + ".conf"@)
}

/// `/etc/httpd/conf.d/<domain>.conf`, the virtual-host file removed when `domain`
/// is deleted.
pub open spec fn vhost_file_to_remove(domain: Seq<char>) -> Seq<char> {
    "/etc/httpd/conf.d/"@ + domain + ".conf"@
}

/// The welcome page in `domain`'s document root.
pub open spec fn index_html_path(domain: Seq<char>) -> Seq<char> {
    path_join(document_root(domain), "index.html"@)
}

/// The welcome page of `domain`.
pub open spec fn welcome_page(domain: Seq<char>) -> Seq<char> {
    "<!DOCTYPE html>\n        <html lang=\"en\">\n        <head>\n        <meta charset=\"UTF-8\">\n        <meta name=\"viewport\" content=\"width=device-width, initial-scale=1.0\">\n        <title>Welcome to "@ + domain + "</title>\n        </head>\n        <body>\n        <p>boas-vindas</p>\n        </body>\n        </html>"@
}

/// The virtual-host configuration of `domain` on address `ip`, port 80.
pub open spec fn vhost_config(domain: Seq<char>, ip: Seq<char>) -> Seq<char> {
    let root = document_root(domain);
    "<VirtualHost "@ + ip + ":80>\n            ServerName "@ + domain + "\n            ServerAlias www."@ + domain + "\n            DocumentRoot \""@ + root + "\"\n            <Directory \""@ + root + "\" >\n                Options Indexes FollowSymLinks\n                AllowOverride All\n                Order allow,deny\n                Allow from all\n                Require method GET POST OPTIONS\n            </Directory>\n        </VirtualHost>"@
}

/// `Listen <ip>:80`, the directive that makes Apache listen on `ip`.
pub open spec fn listen_directive(ip: Seq<char>) -> Seq<char> {
    "Listen "@ + ip + ":80"@
}

/// The line, trimmed, already makes Apache listen where `ip` needs it: it is the
/// directive for `ip`, `Listen 80` or `Listen *:80`.
pub open spec fn listens(line: Seq<char>, ip: Seq<char>) -> bool {
    let t = trim(line);
    t == listen_directive(ip) || t == "Listen 80"@ || t == "Listen *:80"@
}

/// `httpd.conf` after the edit: unchanged when a line already listens (see
/// `listens`), otherwise with an empty line and the directive for `ip` appended.
pub open spec fn httpd_conf_with_listen(lines: Seq<Seq<char>>, ip: Seq<char>) -> Seq<Seq<char>> {
    if exists|k: int| 0 <= k < lines.len() && listens(#[trigger] lines[k], ip) {
        lines
    } else {
        lines.push(Seq::empty()).push(listen_directive(ip))
    }
}

/// `/var/www/html/<domain>`, the document root of `domain`.
pub fn document_root_text(domain: &str) -> (s: String)
    ensures
        s@ == document_root(domain@),
{
    let mut s = String::new();
    s.append("/var/www/html/");
    s.append(domain);
    s
}

/// The configuration file of `domain`'s virtual host (see `vhost_conf_path`).
pub fn vhost_conf_path_text(domain: &str) -> (s: String)
    ensures
        s@ == vhost_conf_path(domain@),
{
    let mut name = String::new();
    name.append(domain);
    name.append(".conf");
    path_join_text("/etc/httpd/conf.d", name.as_str())
}

/// The welcome page in `domain`'s document root (see `index_html_path`).
pub fn index_html_path_text(domain: &str) -> (s: String)
    ensures
        s@ == index_html_path(domain@),
{
    path_join_text(document_root_text(domain).as_str(), "index.html")
}

/// The welcome page of `domain`.
pub fn welcome_page_text(domain: &str) -> (s: String)
    ensures
        s@ == welcome_page(domain@),
{
    let mut s = String::new();
    s.append("<!DOCTYPE html>\n        <html lang=\"en\">\n        <head>\n        <meta charset=\"UTF-8\">\n        <meta name=\"viewport\" content=\"width=device-width, initial-scale=1.0\">\n        <title>Welcome to ");
    s.append(domain);
    s.append("</title>\n        </head>\n        <body>\n        <p>boas-vindas</p>\n        </body>\n        </html>");
    s
}

/// The virtual-host configuration of `domain` on address `ip`, port 80.
pub fn vhost_config_text(domain: &str, ip: &str) -> (s: String)
    ensures
        s@ == vhost_config(domain@, ip@),
{
    let root = document_root_text(domain);
    let mut s = String::new();
    s.append("<VirtualHost ");
    s.append(ip);
    s.append(":80>\n            ServerName ");
    s.append(domain);
    s.append("\n            ServerAlias www.");
    s.append(domain);
    s.append("\n            DocumentRoot \"");
    s.append(root.as_str());
    s.append("\"\n            <Directory \"");
    s.append(root.as_str());
    s.append("\" >\n                Options Indexes FollowSymLinks\n                AllowOverride All\n                Order allow,deny\n                Allow from all\n                Require method GET POST OPTIONS\n            </Directory>\n        </VirtualHost>");
    s
}

/// `Listen <ip>:80`.
pub fn listen_directive_text(ip: &str) -> (s: String)
    ensures
        s@ == listen_directive(ip@),
{
    let mut s = String::new();
    s.append("Listen ");
    s.append(ip);
    s.append(":80");
    s
}

/// Makes `httpd.conf` listen where `ip` needs it (see `httpd_conf_with_listen`).
/// Each line of the result is written followed by a line feed.
pub fn ensure_listen_directive(lines: &Vec<String>, ip: &str) -> (out: Vec<String>)
    ensures
        out.deep_view() == httpd_conf_with_listen(lines.deep_view(), ip@),
{
    let ghost dv = lines.deep_view();
    let directive = listen_directive_text(ip);
    let mut found = false;
    for i in 0..lines.len()
        invariant
            dv == lines.deep_view(),
            directive@ == listen_directive(ip@),
            found == exists|k: int| 0 <= k < i && listens(#[trigger] dv[k], ip@),
    {
        assert(lines[i as int]@ == dv[i as int]);
        let t = str_trim(lines[i].as_str());
        let l80 = String::from_str("Listen 80");
        let lstar = String::from_str("Listen *:80");
        if t == directive || t == l80 || t == lstar {
            assert(listens(dv[i as int], ip@));
            found = true;
        } else {
            assert(!listens(dv[i as int], ip@));
        }
    }
    let mut out = lines.clone();
    assert(out.deep_view() =~= dv);
    if !found {
        let ghost before = out.deep_view();
        out.push(String::new());
        out.push(directive);
        assert(out.deep_view() =~= before.push(Seq::empty()).push(listen_directive(ip@)));
    }
    out
}

/// The `Listen` directive has no surrounding whitespace, so a line holding just
/// the directive listens.
pub proof fn lemma_directive_listens(ip: Seq<char>)
    ensures
        trim(listen_directive(ip)) == listen_directive(ip),
        listens(listen_directive(ip), ip),
{
    reveal_strlit("Listen ");
    reveal_strlit(":80");
    let d = listen_directive(ip);
    assert(d[0] == 'L');
    assert(d.last() == '0');
    assert(crate::text::trim_start(d) == d);
    assert(crate::text::trim_end(d) == d);
}

/// Making `httpd.conf` listen for `ip` a second time changes nothing: the edit is
/// idempotent.
pub proof fn lemma_listen_idempotent(lines: Seq<Seq<char>>, ip: Seq<char>)
    ensures
        httpd_conf_with_listen(httpd_conf_with_listen(lines, ip), ip) == httpd_conf_with_listen(
            lines,
            ip,
        ),
{
    let once = httpd_conf_with_listen(lines, ip);
    if !(exists|k: int| 0 <= k < lines.len() && listens(#[trigger] lines[k], ip)) {
        lemma_directive_listens(ip);
        let k = once.len() - 1;
        assert(once[k] == listen_directive(ip));
        assert(listens(once[k], ip));
    }
}

/// `/etc/httpd/conf.d/<domain>.conf` (see `vhost_file_to_remove`).
pub fn vhost_file_to_remove_text(domain: &str) -> (s: String)
    ensures
        s@ == vhost_file_to_remove(domain@),
{
    let mut s = String::new();
    s.append("/etc/httpd/conf.d/");
    s.append(domain);
    s.append(".conf");
    s
}

/// A domain whose files can be removed safely: it names one entry inside
/// `/var/www/html` and `/var/named`, so it is not empty, not `.` or `..`, and holds
/// no `/`.
pub open spec fn removable_domain(domain: Seq<char>) -> bool {
    &&& domain.len() > 0
    &&& domain != "."@
    &&& domain != ".."@
    &&& forall|k: int| 0 <= k < domain.len() ==> domain[k] != '/'
}

/// Whether the files of `domain` can be removed safely (see `removable_domain`).
pub fn is_removable_domain(domain: &str) -> (b: bool)
    ensures
        b == removable_domain(domain@),
{
    proof {
        reveal_strlit(".");
        reveal_strlit("..");
    }
    let d = crate::text::chars_of(domain);
    if d.len() == 0 {
        return false;
    }
    if d.len() == 1 && d[0] == '.' {
        assert(d@ =~= "."@);
        return false;
    }
    if d.len() == 2 && d[0] == '.' && d[1] == '.' {
        assert(d@ =~= ".."@);
        return false;
    }
    assert(d@ != "."@) by {
        if d@ == "."@ {
            assert(d@[0] == '.');
        }
    }
    assert(d@ != ".."@) by {
        if d@ == ".."@ {
            assert(d@[0] == '.' && d@[1] == '.');
        }
    }
    let mut i: usize = 0;
    while i < d.len()
        invariant
            i <= d.len(),
            d@ == domain@,
            forall|k: int| 0 <= k < i ==> d@[k] != '/',
        decreases d.len() - i,
    {
        if d[i] == '/' {
            assert(domain@[i as int] == '/');
            return false;
        }
        i += 1;
    }
    true
}

/// Setting up a virtual host a second time leaves `httpd.conf` as the first setup
/// wrote it: the edited file, written line by line and read back, gives the edited
/// lines, and editing them again for the same address writes the same text. The
/// lines read at first must survive a read-back (see `plain_line`), and the address
/// holds no line feed.
pub proof fn lemma_listen_file_repeatable(lines: Seq<Seq<char>>, ip: Seq<char>)
    requires
        forall|k: int| 0 <= k < lines.len() ==> plain_line(#[trigger] lines[k]),
        no_line_feed(ip),
    ensures
        crate::text::lines(render(httpd_conf_with_listen(lines, ip))) == httpd_conf_with_listen(
            lines,
            ip,
        ),
        render(
            httpd_conf_with_listen(
                crate::text::lines(render(httpd_conf_with_listen(lines, ip))),
                ip,
            ),
        ) == render(httpd_conf_with_listen(lines, ip)),
{
    reveal_strlit("Listen ");
    reveal_strlit(":80");
    let once = httpd_conf_with_listen(lines, ip);
    assert forall|k: int| 0 <= k < once.len() implies plain_line(#[trigger] once[k]) by {
        if k >= lines.len() && once[k] != Seq::<char>::empty() {
            let d = listen_directive(ip);
            assert(once[k] == d);
            assert forall|m: int| 0 <= m < d.len() implies #[trigger] d[m] != '\n' by {
                if 7 <= m < 7 + ip.len() {
                    assert(d[m] == ip[m - 7]);
                }
            }
            assert(d.last() == '0');
        }
    }
    lemma_lines_of_render(once);
    lemma_listen_idempotent(lines, ip);
}

/// Deleting a domain removes the virtual-host file its setup wrote: for a domain that
/// holds no `/`, the file removed is `vhost_conf_path` of the domain, which is
/// `/etc/httpd/conf.d/<domain>.conf`.
pub proof fn lemma_removed_vhost_is_the_written_one(domain: Seq<char>)
    requires
        forall|k: int| 0 <= k < domain.len() ==> domain[k] != '/',
    ensures
        vhost_file_to_remove(domain) == vhost_conf_path(domain),
        vhost_conf_path(domain) == "/etc/httpd/conf.d/"@ + domain + ".conf"@,
{
    reveal_strlit("/etc/httpd/conf.d");
    reveal_strlit("/etc/httpd/conf.d/");
    reveal_strlit("/");
    reveal_strlit(".conf");
    let rel = domain + ".conf"@;
    let base = "/etc/httpd/conf.d"@;
    if domain.len() > 0 {
        assert(rel[0] == domain[0]);
    } else {
        assert(rel[0] == '.');
    }
    assert(base.last() == 'd');
    assert(path_join(base, rel) == base + "/"@ + rel);
    assert(base + "/"@ + rel =~= "/etc/httpd/conf.d/"@ + domain + ".conf"@);
}

/// Making Apache listen on `ip`: when no line, trimmed, is `Listen <ip>:80`,
/// `Listen 80` or `Listen *:80` (a `Listen` line for another address does not
/// count), the lines are followed by an empty line and `Listen <ip>:80`; when one is,
/// the lines are left as they are.
pub proof fn lemma_listen_added_unless_listening(lines: Seq<Seq<char>>, ip: Seq<char>)
    ensures
        (forall|k: int|
            0 <= k < lines.len() ==> {
                &&& trim(#[trigger] lines[k]) != "Listen "@ + ip + ":80"@
                &&& trim(lines[k]) != "Listen 80"@
                &&& trim(lines[k]) != "Listen *:80"@
            }) ==> httpd_conf_with_listen(lines, ip) == lines + seq![
            Seq::<char>::empty(),
            "Listen "@ + ip + ":80"@,
        ],
        (exists|k: int|
            0 <= k < lines.len() && {
                ||| trim(#[trigger] lines[k]) == "Listen "@ + ip + ":80"@
                ||| trim(lines[k]) == "Listen 80"@
                ||| trim(lines[k]) == "Listen *:80"@
            }) ==> httpd_conf_with_listen(lines, ip) == lines,
{
    if forall|k: int|
        0 <= k < lines.len() ==> {
            &&& trim(#[trigger] lines[k]) != "Listen "@ + ip + ":80"@
            &&& trim(lines[k]) != "Listen 80"@
            &&& trim(lines[k]) != "Listen *:80"@
        } {
        assert(!exists|k: int| 0 <= k < lines.len() && listens(#[trigger] lines[k], ip));
        assert(lines.push(Seq::empty()).push(listen_directive(ip)) =~= lines + seq![
            Seq::<char>::empty(),
            "Listen "@ + ip + ":80"@,
        ]);
    }
    if exists|k: int|
        0 <= k < lines.len() && {
            ||| trim(#[trigger] lines[k]) == "Listen "@ + ip + ":80"@
            ||| trim(lines[k]) == "Listen 80"@
            ||| trim(lines[k]) == "Listen *:80"@
        } {
        let k = choose|k: int|
            0 <= k < lines.len() && {
                ||| trim(#[trigger] lines[k]) == "Listen "@ + ip + ":80"@
                ||| trim(lines[k]) == "Listen 80"@
                ||| trim(lines[k]) == "Listen *:80"@
            };
        assert(listens(lines[k], ip));
    }
}

} // verus!
