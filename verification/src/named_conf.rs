//! Editing BIND's `named.conf`: opening the `listen-on port 53` and
//! `allow-query` directives to any client, declaring a master zone, and removing
//! the lines that mention a zone.

use vstd::prelude::*;
use crate::pattern::{captures, regex_captures};
use crate::text::{
    chars_of, contains, joinable_lines, no_line_feed, plain_line, render, is_ws, copy_str, ends_with, ends_with_char, ends_with_char_chars, join,
    join_strings, lemma_contains_trans, lines, matches_at, matches_at_chars, split, split_chars,
    starts_with, str_contains, str_lines, str_starts_with, str_trim, string_from_chars, trim,
    trim_chars,
};

verus! {

/// Why `named.conf` could not be edited.
#[derive(Debug, Clone, Copy, PartialEq, Eq, Structural)]
pub enum ConfEditError {
    /// The `regex` crate refused one of the directive patterns.
    PatternRejected,
    /// A directive pattern matched, but one of its two capture groups took no part.
    GroupMissing,
}

/// The pattern that finds the body of the `listen-on port 53 { ... };` directive.
pub open spec fn listen_on_pattern() -> Seq<char> {
    r"(listen-on port 53\s*\{[^}]*)(\};)"@
}

/// The pattern that finds the body of the `allow-query { ... };` directive.
pub open spec fn allow_query_pattern() -> Seq<char> {
    r"(allow-query\s*\{[^}]*)(\};)"@
}

/// The directive line after its matched body (`content`, up to and not including
/// the closing `};`) has been opened to `any;`; `addr` is the address written in
/// front of `any;` when the body was empty.
pub open spec fn opened_directive(content: Seq<char>, closing: Seq<char>, addr: Seq<char>) -> Seq<
    char,
> {
    if ends_with_char(trim(content), '{') {
        trim(content) + " "@ + addr + "; any; "@ + closing
    } else if ends_with_char(trim(content), ';') {
        content + " any;"@ + closing
    } else {
        content + "; any;"@ + closing
    }
}

/// The directive line `line` once the pattern's answer `found` is known: unchanged
/// when the pattern did not match or the body already holds `any;`, rewritten by
/// `opened_directive` otherwise.
pub open spec fn directive_line(
    line: Seq<char>,
    found: Option<Seq<Option<Seq<char>>>>,
    addr: Seq<char>,
) -> Result<Seq<char>, ConfEditError> {
    match found {
        None => Ok(line),
        Some(groups) => if groups.len() > 2 && groups[1] is Some && groups[2] is Some {
            let content = groups[1]->0;
            if contains(content, "any;"@) {
                Ok(line)
            } else {
                Ok(opened_directive(content, groups[2]->0, addr))
            }
        } else {
            Err(ConfEditError::GroupMissing)
        },
    }
}

/// The directive line `line` searched with `pattern`, then rewritten as above.
pub open spec fn searched_directive_line(line: Seq<char>, pattern: Seq<char>, addr: Seq<char>) -> Result<
    Seq<char>,
    ConfEditError,
> {
    match regex_captures(pattern, line) {
        Err(_) => Err(ConfEditError::PatternRejected),
        Ok(found) => directive_line(line, found, addr),
    }
}

/// One line of `named.conf` with whether the `listen-on` and `allow-query`
/// directives were already met: the first line (trimmed) starting with
/// `listen-on port 53` and the first starting with `allow-query` are rewritten.
pub open spec fn conf_line_step(line: Seq<char>, seen_listen: bool, seen_allow: bool) -> Result<
    (Seq<char>, bool, bool),
    ConfEditError,
> {
    if !seen_listen && starts_with(trim(line), "listen-on port 53"@) {
        match searched_directive_line(line, listen_on_pattern(), "127.0.0.1"@) {
            Err(e) => Err(e),
            Ok(l) => Ok((l, true, seen_allow)),
        }
    } else if !seen_allow && starts_with(trim(line), "allow-query"@) {
        match searched_directive_line(line, allow_query_pattern(), "localhost"@) {
            Err(e) => Err(e),
            Ok(l) => Ok((l, seen_listen, true)),
        }
    } else {
        Ok((line, seen_listen, seen_allow))
    }
}

/// `rest` with `done` in front of it, when it is not an error.
pub open spec fn prepend_lines(done: Seq<Seq<char>>, rest: Result<Seq<Seq<char>>, ConfEditError>) -> Result<
    Seq<Seq<char>>,
    ConfEditError,
> {
    match rest {
        Ok(r) => Ok(done + r),
        Err(e) => Err(e),
    }
}

/// The lines of `named.conf`, each passed through `conf_line_step` in order.
pub open spec fn rewritten_lines(lines: Seq<Seq<char>>, seen_listen: bool, seen_allow: bool) -> Result<
    Seq<Seq<char>>,
    ConfEditError,
>
    decreases lines.len(),
{
    if lines.len() == 0 {
        Ok(Seq::empty())
    } else {
        match conf_line_step(lines[0], seen_listen, seen_allow) {
            Err(e) => Err(e),
            Ok((l, sl, sa)) => prepend_lines(seq![l], rewritten_lines(lines.drop_first(), sl, sa)),
        }
    }
}

/// The text that marks `domain`'s zone as declared: `zone "<domain>" IN`.
pub open spec fn zone_marker(domain: Seq<char>) -> Seq<char> {
    "zone \""@ + domain + "\" IN"@
}

/// The master-zone declaration appended to `named.conf` for `domain`.
pub open spec fn zone_declaration(domain: Seq<char>) -> Seq<char> {
    "\n    zone \""@ + domain + "\" IN {\n        type master;\n        file \"/var/named/"@ + domain
        + ".hosts\";\n    };\n    "@
}

/// Some line of `lines` declares `domain`'s zone.
pub open spec fn declares_zone(lines: Seq<Seq<char>>, domain: Seq<char>) -> bool {
    exists|k: int| 0 <= k < lines.len() && contains(#[trigger] lines[k], zone_marker(domain))
}

/// `named.conf` after the edit: its lines rewritten, then the zone declaration for
/// `domain` added unless a line already declares it.
pub open spec fn named_conf_edit(lines: Seq<Seq<char>>, domain: Seq<char>) -> Result<
    Seq<Seq<char>>,
    ConfEditError,
> {
    match rewritten_lines(lines, false, false) {
        Err(e) => Err(e),
        Ok(out) => Ok(
            if declares_zone(out, domain) {
                out
            } else {
                out.push(zone_declaration(domain))
            },
        ),
    }
}

/// The view of a result of lines.
pub open spec fn lines_result_view(r: Result<Vec<String>, ConfEditError>) -> Result<
    Seq<Seq<char>>,
    ConfEditError,
> {
    match r {
        Ok(v) => Ok(v.deep_view()),
        Err(e) => Err(e),
    }
}

/// Rewrites a directive line once the pattern's answer `found` is known (see
/// `directive_line`).
pub fn open_directive(line: &str, found: Option<Vec<Option<String>>>, addr: &str) -> (res: Result<
    String,
    ConfEditError,
>)
    ensures
        match res {
            Ok(l) => directive_line(line@, found.deep_view(), addr@) == Ok::<_, ConfEditError>(l@),
            Err(e) => directive_line(line@, found.deep_view(), addr@) == Err::<Seq<char>, _>(e),
        },
{
    match found {
        None => Ok(copy_str(line)),
        Some(groups) => {
            if groups.len() <= 2 {
                return Err(ConfEditError::GroupMissing);
            }
            let (content, closing) = match (&groups[1], &groups[2]) {
                (Some(content), Some(closing)) => (content, closing),
                _ => {
                    return Err(ConfEditError::GroupMissing);
                },
            };
            assert(groups.deep_view()[1] == Some(content@));
            assert(groups.deep_view()[2] == Some(closing@));
            if str_contains(content.as_str(), "any;") {
                return Ok(copy_str(line));
            }
            let cs = chars_of(content.as_str());
            let trimmed = trim_chars(&cs);
            let mut out = String::new();
            if ends_with_char_chars(&trimmed, '{') {
                out = string_from_chars(&trimmed);
                out.append(" ");
                out.append(addr);
                out.append("; any; ");
            } else if ends_with_char_chars(&trimmed, ';') {
                out.append(content.as_str());
                out.append(" any;");
            } else {
                out.append(content.as_str());
                out.append("; any;");
            }
            out.append(closing.as_str());
            Ok(out)
        },
    }
}

/// Searches the directive line with `pattern` and rewrites it as `open_directive` does.
pub fn open_searched_directive(line: &str, pattern: &str, addr: &str) -> (res: Result<
    String,
    ConfEditError,
>)
    ensures
        match res {
            Ok(l) => searched_directive_line(line@, pattern@, addr@) == Ok::<_, ConfEditError>(l@),
            Err(e) => searched_directive_line(line@, pattern@, addr@) == Err::<Seq<char>, _>(e),
        },
{
    match captures(pattern, line) {
        Err(_) => Err(ConfEditError::PatternRejected),
        Ok(found) => open_directive(line, found, addr),
    }
}

/// `rest` with `done` in front is `rewritten_lines` of `done`'s source followed by
/// the remaining lines, stepping once.
proof fn lemma_rewritten_step(lines: Seq<Seq<char>>, i: int, sl: bool, sa: bool)
    requires
        0 <= i < lines.len(),
    ensures
        rewritten_lines(lines.skip(i), sl, sa) == match conf_line_step(lines[i], sl, sa) {
            Err(e) => Err(e),
            Ok((l, sl2, sa2)) => prepend_lines(seq![l], rewritten_lines(lines.skip(i + 1), sl2, sa2)),
        },
{
    assert(lines.skip(i).drop_first() =~= lines.skip(i + 1));
    assert(lines.skip(i)[0] == lines[i]);
}

proof fn lemma_prepend_twice(
    a: Seq<Seq<char>>,
    b: Seq<Seq<char>>,
    r: Result<Seq<Seq<char>>, ConfEditError>,
)
    ensures
        prepend_lines(a, prepend_lines(b, r)) == prepend_lines(a + b, r),
{
    if let Ok(x) = r {
        assert(a + (b + x) =~= (a + b) + x);
    }
}

/// Passes the lines of `named.conf` through `conf_line_step`, in order.
pub fn rewrite_conf_lines(lines: &Vec<String>) -> (res: Result<Vec<String>, ConfEditError>)
    ensures
        lines_result_view(res) == rewritten_lines(lines.deep_view(), false, false),
{
    let ghost src = lines.deep_view();
    let mut out: Vec<String> = Vec::new();
    let mut seen_listen = false;
    let mut seen_allow = false;
    assert(src.skip(0) =~= src);
    for i in 0..lines.len()
        invariant
            src == lines.deep_view(),
            rewritten_lines(src, false, false) == prepend_lines(
                out.deep_view(),
                rewritten_lines(src.skip(i as int), seen_listen, seen_allow),
            ),
    {
        proof {
            lemma_rewritten_step(src, i as int, seen_listen, seen_allow);
        }
        let line = lines[i].as_str();
        assert(line@ == src[i as int]);
        let trimmed = str_trim(line);
        let ghost before = out.deep_view();
        if !seen_listen && str_starts_with(trimmed.as_str(), "listen-on port 53") {
            match open_searched_directive(line, r"(listen-on port 53\s*\{[^}]*)(\};)", "127.0.0.1") {
                Err(e) => {
                    return Err(e);
                },
                Ok(l) => {
                    out.push(l);
                    seen_listen = true;
                },
            }
        } else if !seen_allow && str_starts_with(trimmed.as_str(), "allow-query") {
            match open_searched_directive(line, r"(allow-query\s*\{[^}]*)(\};)", "localhost") {
                Err(e) => {
                    return Err(e);
                },
                Ok(l) => {
                    out.push(l);
                    seen_allow = true;
                },
            }
        } else {
            out.push(copy_str(line));
        }
        assert(out.deep_view() =~= before + seq![out.deep_view().last()]);
        proof {
            lemma_prepend_twice(
                before,
                seq![out.deep_view().last()],
                rewritten_lines(src.skip(i + 1), seen_listen, seen_allow),
            );
        }
    }
    assert(src.skip(lines.len() as int) =~= Seq::<Seq<char>>::empty());
    assert(out.deep_view() + Seq::<Seq<char>>::empty() =~= out.deep_view());
    Ok(out)
}

/// `zone "<domain>" IN`, the text that marks `domain`'s zone as declared.
pub fn zone_marker_text(domain: &str) -> (s: String)
    ensures
        s@ == zone_marker(domain@),
{
    let mut s = String::new();
    s.append("zone \"");
    s.append(domain);
    s.append("\" IN");
    s
}

/// The master-zone declaration for `domain`, as it is appended to `named.conf`.
pub fn zone_declaration_text(domain: &str) -> (s: String)
    ensures
        s@ == zone_declaration(domain@),
{
    let mut s = String::new();
    s.append("\n    zone \"");
    s.append(domain);
    s.append("\" IN {\n        type master;\n        file \"/var/named/");
    s.append(domain);
    s.append(".hosts\";\n    };\n    ");
    s
}

/// Whether some line of `lines` contains `needle`.
pub fn any_line_contains(lines: &Vec<String>, needle: &str) -> (b: bool)
    ensures
        b == exists|k: int| 0 <= k < lines.len() && contains(#[trigger] lines.deep_view()[k], needle@),
{
    let ghost dv = lines.deep_view();
    for i in 0..lines.len()
        invariant
            dv == lines.deep_view(),
            forall|k: int| 0 <= k < i ==> !contains(#[trigger] dv[k], needle@),
    {
        if str_contains(lines[i].as_str(), needle) {
            assert(contains(dv[i as int], needle@));
            return true;
        }
    }
    false
}

/// Edits the lines of `named.conf`: the first `listen-on port 53` directive and the
/// first `allow-query` directive are opened to `any;` (see `conf_line_step`), and the
/// master-zone declaration for `domain` is appended unless a line already holds
/// `zone "<domain>" IN`. Each line of the result is written followed by a line feed.
pub fn edit_named_conf(lines: &Vec<String>, domain: &str) -> (res: Result<
    Vec<String>,
    ConfEditError,
>)
    ensures
        lines_result_view(res) == named_conf_edit(lines.deep_view(), domain@),
{
    let mut out = rewrite_conf_lines(lines)?;
    let marker = zone_marker_text(domain);
    if !any_line_contains(&out, marker.as_str()) {
        let ghost before = out.deep_view();
        out.push(zone_declaration_text(domain));
        assert(out.deep_view() =~= before.push(zone_declaration(domain@)));
    }
    Ok(out)
}

/// `zone "<name>"`: the opening of the zone statement for `name`.
pub open spec fn zone_opening(name: Seq<char>) -> Seq<char> {
    "zone \""@ + name + "\""@
}

/// The line, trimmed, ends with `};`: it closes a statement block.
pub open spec fn closes_block(line: Seq<char>) -> bool {
    ends_with(trim(line), "};"@)
}

/// The lines left when every zone statement for `name` is removed, from the line
/// that opens it (see `zone_opening`) to the first line from there on that closes a
/// block; `inside` says that the lines begin inside such a statement.
pub open spec fn without_zone_from(lines: Seq<Seq<char>>, name: Seq<char>, inside: bool) -> Seq<
    Seq<char>,
>
    decreases lines.len(),
{
    if lines.len() == 0 {
        Seq::empty()
    } else if inside || contains(lines[0], zone_opening(name)) {
        without_zone_from(lines.drop_first(), name, !closes_block(lines[0]))
    } else {
        seq![lines[0]] + without_zone_from(lines.drop_first(), name, false)
    }
}

/// `named.conf` without the zone statements for `name`: its lines, the statements
/// removed, joined again by line feeds (with no line feed after the last).
pub open spec fn without_zone(content: Seq<char>, name: Seq<char>) -> Seq<char> {
    join(without_zone_from(lines(content), name, false), "\n"@)
}

/// The reverse zone of `domain` for the address `ip`: with `ip` cut at its dots
/// into exactly four parts `a.b.c.d`, it is `c.b.a.<domain>`; any other number of
/// parts is refused.
pub open spec fn reverse_zone(ip: Seq<char>, domain: Seq<char>) -> Option<Seq<char>> {
    let parts = split(ip, '.');
    if parts.len() == 4 {
        Some(parts[2] + "."@ + parts[1] + "."@ + parts[0] + "."@ + domain)
    } else {
        None
    }
}

/// Whether the line, trimmed, ends with `};`.
pub fn closes_block_text(line: &str) -> (b: bool)
    ensures
        b == closes_block(line@),
{
    let t = trim_chars(&chars_of(line));
    let p = chars_of("};");
    if p.len() > t.len() {
        return false;
    }
    matches_at_chars(&t, &p, t.len() - p.len())
}

/// The lines left when every zone statement for `name` is removed (see
/// `without_zone_from`).
pub fn remove_zone_statements(lines: &Vec<String>, name: &str) -> (out: Vec<String>)
    ensures
        out.deep_view() == without_zone_from(lines.deep_view(), name@, false),
{
    let ghost dv = lines.deep_view();
    let mut opening = String::new();
    opening.append("zone \"");
    opening.append(name);
    opening.append("\"");
    let mut out: Vec<String> = Vec::new();
    let mut inside = false;
    assert(dv.skip(0) =~= dv);
    assert(out.deep_view() + dv =~= dv);
    for i in 0..lines.len()
        invariant
            dv == lines.deep_view(),
            opening@ == zone_opening(name@),
            without_zone_from(dv, name@, false) == out.deep_view() + without_zone_from(
                dv.skip(i as int),
                name@,
                inside,
            ),
    {
        let line = lines[i].as_str();
        assert(line@ == dv[i as int]);
        assert(dv.skip(i as int).drop_first() =~= dv.skip(i + 1));
        assert(dv.skip(i as int)[0] == dv[i as int]);
        let ghost before = out.deep_view();
        if inside || str_contains(line, opening.as_str()) {
            inside = !closes_block_text(line);
        } else {
            out.push(copy_str(line));
            assert(out.deep_view() =~= before.push(dv[i as int]));
            assert(before + (seq![dv[i as int]] + without_zone_from(dv.skip(i + 1), name@, false))
                =~= out.deep_view() + without_zone_from(dv.skip(i + 1), name@, false));
            inside = false;
        }
    }
    assert(dv.skip(lines.len() as int) =~= Seq::<Seq<char>>::empty());
    assert(out.deep_view() + Seq::<Seq<char>>::empty() =~= out.deep_view());
    out
}

/// `named.conf` without the zone statements for `name` (see `without_zone`). Used
/// for a forward zone with the domain and for a reverse zone with its reverse name.
pub fn remove_zone_entries(content: &str, name: &str) -> (s: String)
    ensures
        s@ == without_zone(content@, name@),
{
    let kept = remove_zone_statements(&str_lines(content), name);
    join_strings(&kept, "\n")
}

/// The reverse zone of `domain` for the address `ip` (see `reverse_zone`); `None`
/// when `ip` does not have exactly four dot-separated parts.
pub fn reverse_zone_name(ip: &str, domain: &str) -> (r: Option<String>)
    ensures
        match r {
            Some(z) => reverse_zone(ip@, domain@) == Some(z@),
            None => reverse_zone(ip@, domain@) is None,
        },
{
    let parts = split_chars(&chars_of(ip), '.');
    if parts.len() != 4 {
        return None;
    }
    assert(parts.deep_view()[0] =~= parts[0]@);
    assert(parts.deep_view()[1] =~= parts[1]@);
    assert(parts.deep_view()[2] =~= parts[2]@);
    let mut z = string_from_chars(&parts[2]);
    z.append(".");
    z.append(string_from_chars(&parts[1]).as_str());
    z.append(".");
    z.append(string_from_chars(&parts[0]).as_str());
    z.append(".");
    z.append(domain);
    Some(z)
}

/// The body that `opened_directive` writes before the closing `};`.
pub open spec fn opened_body(content: Seq<char>, addr: Seq<char>) -> Seq<char> {
    if ends_with_char(trim(content), '{') {
        trim(content) + " "@ + addr + "; any; "@
    } else if ends_with_char(trim(content), ';') {
        content + " any;"@
    } else {
        content + "; any;"@
    }
}

/// The pattern's answer finds no directive, or a directive whose body already
/// holds `any;`.
pub open spec fn settled_answer(found: Option<Seq<Option<Seq<char>>>>) -> bool {
    match found {
        None => true,
        Some(groups) => groups.len() > 2 && groups[1] is Some && groups[2] is Some && contains(
            groups[1]->0,
            "any;"@,
        ),
    }
}

/// Searching `line` with `pattern` finds it already open (see `settled_answer`).
pub open spec fn settled(line: Seq<char>, pattern: Seq<char>) -> bool {
    regex_captures(pattern, line) matches Ok(found) && settled_answer(found)
}

/// Each line that the edit would search is found already open by its pattern.
pub open spec fn directives_settled(lines: Seq<Seq<char>>) -> bool {
    forall|k: int|
        0 <= k < lines.len() ==> {
            &&& starts_with(trim(#[trigger] lines[k]), "listen-on port 53"@) ==> settled(
                lines[k],
                listen_on_pattern(),
            )
            &&& starts_with(trim(lines[k]), "allow-query"@) ==> settled(
                lines[k],
                allow_query_pattern(),
            )
        }
}

/// An opened directive is its body followed by the closing text, and the body holds
/// `any;`: a pattern that finds that body again finds the directive open.
pub proof fn lemma_opened_body_holds_any(content: Seq<char>, closing: Seq<char>, addr: Seq<char>)
    ensures
        opened_directive(content, closing, addr) == opened_body(content, addr) + closing,
        contains(opened_body(content, addr), "any;"@),
        settled_answer(
            Some(
                seq![None, Some(opened_body(content, addr)), Some(closing)],
            ),
        ),
{
    reveal_strlit("any;");
    reveal_strlit(" ");
    reveal_strlit("; any; ");
    reveal_strlit(" any;");
    reveal_strlit("; any;");
    let body = opened_body(content, addr);
    let any = "any;"@;
    if ends_with_char(trim(content), '{') {
        let t = trim(content);
        let tail = "; any; "@;
        let off = (t.len() + 1 + addr.len() + 2) as int;
        assert(body == t + " "@ + addr + tail);
        assert(matches_at(body, any, off)) by {
            assert forall|k: int| 0 <= k < any.len() implies #[trigger] body[off + k] == any[k] by {
                assert(body[off + k] == tail[2 + k]);
            }
        }
    } else if ends_with_char(trim(content), ';') {
        let tail = " any;"@;
        let off = (content.len() + 1) as int;
        assert(matches_at(body, any, off)) by {
            assert forall|k: int| 0 <= k < any.len() implies #[trigger] body[off + k] == any[k] by {
                assert(body[off + k] == tail[1 + k]);
            }
        }
    } else {
        let tail = "; any;"@;
        let off = (content.len() + 2) as int;
        assert(matches_at(body, any, off)) by {
            assert forall|k: int| 0 <= k < any.len() implies #[trigger] body[off + k] == any[k] by {
                assert(body[off + k] == tail[2 + k]);
            }
        }
    }
    let groups = seq![None, Some(body), Some(closing)];
    assert(groups[1] == Some(body));
}

/// Opening a directive keeps the entries it held: the rewritten directive holds the
/// matched body (trimmed), ends with the matched closing text, and holds `any;`.
pub proof fn lemma_opened_directive_keeps_entries(
    content: Seq<char>,
    closing: Seq<char>,
    addr: Seq<char>,
)
    ensures
        contains(opened_directive(content, closing, addr), trim(content)),
        ends_with(opened_directive(content, closing, addr), closing),
        contains(opened_directive(content, closing, addr), "any;"@),
{
    let o = opened_directive(content, closing, addr);
    let t = trim(content);
    lemma_opened_body_holds_any(content, closing, addr);
    let body = opened_body(content, addr);
    assert(o == body + closing);
    assert(matches_at(o, closing, o.len() - closing.len())) by {
        assert forall|k: int| 0 <= k < closing.len() implies #[trigger] o[o.len() - closing.len()
            + k] == closing[k] by {
            assert(o[body.len() + k] == closing[k]);
        }
    }
    let i = choose|i: int| matches_at(body, "any;"@, i);
    assert(matches_at(o, "any;"@, i)) by {
        assert forall|k: int| 0 <= k < "any;"@.len() implies #[trigger] o[i + k] == "any;"@[k] by {
            assert(o[i + k] == body[i + k]);
        }
    }
    if ends_with_char(t, '{') {
        assert(matches_at(o, t, 0)) by {
            assert forall|k: int| 0 <= k < t.len() implies #[trigger] o[0 + k] == t[k] by {}
        }
    } else {
        assert(matches_at(o, content, 0)) by {
            assert forall|k: int| 0 <= k < content.len() implies #[trigger] o[0 + k] == content[k] by {}
        }
        crate::text::lemma_trim_within(content);
        lemma_contains_trans(o, content, t);
    }
}

/// Lines whose directives are found open pass through the rewrite unchanged.
pub proof fn lemma_settled_lines_kept(lines: Seq<Seq<char>>, sl: bool, sa: bool)
    requires
        directives_settled(lines),
    ensures
        rewritten_lines(lines, sl, sa) == Ok::<Seq<Seq<char>>, ConfEditError>(lines),
    decreases lines.len(),
{
    if lines.len() > 0 {
        let rest = lines.drop_first();
        assert(directives_settled(rest)) by {
            assert forall|k: int| 0 <= k < rest.len() implies rest[k] == lines[k + 1] by {}
        }
        let l = lines[0];
        assert(starts_with(trim(l), "listen-on port 53"@) ==> settled(l, listen_on_pattern()));
        assert(starts_with(trim(l), "allow-query"@) ==> settled(l, allow_query_pattern()));
        match conf_line_step(l, sl, sa) {
            Ok((l2, sl2, sa2)) => {
                lemma_settled_lines_kept(rest, sl2, sa2);
                assert(l2 == l);
                assert(seq![l] + rest =~= lines);
            },
            Err(_) => {
                assert(false);
            },
        }
    } else {
        assert(lines =~= Seq::<Seq<char>>::empty());
    }
}

/// A second edit of `named.conf` changes nothing: once the first edit has opened the
/// directives (so that their patterns find them open) and declared the zone, editing
/// the result for the same domain gives it back unchanged.
pub proof fn lemma_second_edit_changes_nothing(lines: Seq<Seq<char>>, domain: Seq<char>)
    requires
        named_conf_edit(lines, domain) matches Ok(out) && directives_settled(out),
    ensures
        named_conf_edit(lines, domain) matches Ok(out) && named_conf_edit(out, domain) == Ok::<
            Seq<Seq<char>>,
            ConfEditError,
        >(out),
{
    let out = named_conf_edit(lines, domain)->Ok_0;
    lemma_edit_declares_zone(lines, domain);
    lemma_settled_lines_kept(out, false, false);
}

/// The lines that the declaration of `domain`'s zone makes in `named.conf` once it
/// is written and read back.
pub open spec fn declaration_lines(domain: Seq<char>) -> Seq<Seq<char>> {
    seq![
        Seq::empty(),
        "    zone \""@ + domain + "\" IN {"@,
        "        type master;"@,
        "        file \"/var/named/"@ + domain + ".hosts\";"@,
        "    };"@,
        "    "@,
    ]
}

/// Written line by line, the declaration's lines are the declaration followed by a
/// line feed.
proof fn lemma_declaration_render(domain: Seq<char>)
    ensures
        render(declaration_lines(domain)) == zone_declaration(domain) + "\n"@,
{
    reveal_strlit("\n");
    reveal_strlit("    zone \"");
    reveal_strlit("\" IN {");
    reveal_strlit("        type master;");
    reveal_strlit("        file \"/var/named/");
    reveal_strlit(".hosts\";");
    reveal_strlit("    };");
    reveal_strlit("    ");
    reveal_strlit("\n    zone \"");
    reveal_strlit("\" IN {\n        type master;\n        file \"/var/named/");
    reveal_strlit(".hosts\";\n    };\n    ");
    reveal_with_fuel(render, 7);
    let d = declaration_lines(domain);
    let nl = "\n"@;
    let x = "\n    zone \""@;
    let y = "\" IN {\n        type master;\n        file \"/var/named/"@;
    let z = ".hosts\";\n    };\n    "@;
    assert(Seq::<char>::empty() + nl + "    zone \""@ =~= x);
    assert("\" IN {"@ + nl + "        type master;"@ + nl + "        file \"/var/named/"@ =~= y);
    assert(".hosts\";"@ + nl + "    };"@ + nl + "    "@ =~= z);
    assert(render(d.drop_first().drop_first().drop_first().drop_first().drop_first().drop_first())
        == Seq::<char>::empty());
    assert(render(d) =~= x + domain + y + domain + z + nl);
}

/// With no line holding a zone opening for `name`, the lines in front pass through the
/// removal unchanged.
proof fn lemma_without_zone_prefix(a: Seq<Seq<char>>, b: Seq<Seq<char>>, name: Seq<char>)
    requires
        forall|k: int| 0 <= k < a.len() ==> !contains(#[trigger] a[k], zone_opening(name)),
    ensures
        without_zone_from(a + b, name, false) == a + without_zone_from(b, name, false),
    decreases a.len(),
{
    if a.len() == 0 {
        assert(a + b =~= b);
        assert(a + without_zone_from(b, name, false) =~= without_zone_from(b, name, false));
    } else {
        let r = a.drop_first();
        assert forall|k: int| 0 <= k < r.len() implies !contains(
            #[trigger] r[k],
            zone_opening(name),
        ) by {
            assert(r[k] == a[k + 1]);
        }
        lemma_without_zone_prefix(r, b, name);
        assert((a + b).drop_first() =~= r + b);
        assert((a + b)[0] == a[0]);
        assert(!contains(a[0], zone_opening(name)));
        assert(a + without_zone_from(b, name, false) =~= seq![a[0]] + (r + without_zone_from(
            b,
            name,
            false,
        )));
    }
}

/// Removing the statement for `domain` from the declaration's lines leaves the two
/// blank lines around it.
proof fn lemma_declaration_removed(domain: Seq<char>)
    ensures
        without_zone_from(declaration_lines(domain), domain, false) == seq![
            Seq::<char>::empty(),
            "    "@,
        ],
{
    reveal_strlit("    zone \"");
    reveal_strlit("\" IN {");
    reveal_strlit("        type master;");
    reveal_strlit("        file \"/var/named/");
    reveal_strlit(".hosts\";");
    reveal_strlit("    };");
    reveal_strlit("    ");
    reveal_strlit("};");
    reveal_strlit("zone \"");
    reveal_strlit("\"");
    let d = declaration_lines(domain);
    let open = zone_opening(domain);
    let close = "};"@;
    assert(open.len() >= 7);
    assert(!contains(d[0], open));
    assert(!contains(d[5], open)) by {
        assert(d[5].len() == 4);
    }
    let l1 = d[1];
    assert(matches_at(l1, open, 4)) by {
        assert forall|k: int| 0 <= k < open.len() implies #[trigger] l1[4 + k] == open[k] by {
            if k < 6 {
            } else if k < 6 + domain.len() {
                assert(l1[4 + k] == domain[k - 6]);
            } else {
                assert(l1[4 + k] == "\" IN {"@[0]);
            }
        }
    }
    assert(contains(l1, open));
    assert forall|k: int| 0 <= k < close.len() implies !is_ws(#[trigger] close[k]) by {}
    assert(l1.last() == '{');
    crate::text::lemma_trim_keeps_end(l1, close);
    assert(!ends_with(l1, close)) by {
        if ends_with(l1, close) {
            assert(l1[(l1.len() - 2) + 1] == close[1]);
        }
    }
    assert(!closes_block(l1));
    let l2 = d[2];
    assert(l2.last() == ';');
    crate::text::lemma_trim_keeps_end(l2, close);
    assert(l2[l2.len() - 2] == 'r');
    assert(!ends_with(l2, close)) by {
        if ends_with(l2, close) {
            assert(l2[(l2.len() - 2) + 0] == close[0]);
        }
    }
    assert(!closes_block(l2));
    let l3 = d[3];
    assert(l3.last() == ';');
    assert(l3[l3.len() - 2] == '"');
    crate::text::lemma_trim_keeps_end(l3, close);
    assert(!ends_with(l3, close)) by {
        if ends_with(l3, close) {
            assert(l3[(l3.len() - 2) + 0] == close[0]);
        }
    }
    assert(!closes_block(l3));
    let l4 = d[4];
    assert(l4.last() == ';');
    crate::text::lemma_trim_keeps_end(l4, close);
    assert(ends_with(l4, close)) by {
        assert(matches_at(l4, close, 4));
    }
    assert(closes_block(l4));
    let t1 = d.drop_first();
    let t2 = t1.drop_first();
    let t3 = t2.drop_first();
    let t4 = t3.drop_first();
    let t5 = t4.drop_first();
    let t6 = t5.drop_first();
    assert(t1[0] == l1 && t2[0] == l2 && t3[0] == l3 && t4[0] == l4);
    assert(t5 =~= seq!["    "@]);
    assert(t6.len() == 0);
    assert(without_zone_from(t6, domain, false) == Seq::<Seq<char>>::empty());
    assert(without_zone_from(t5, domain, false) =~= seq!["    "@]);
    assert(without_zone_from(t4, domain, true) == without_zone_from(t5, domain, false));
    assert(without_zone_from(t3, domain, true) == without_zone_from(t4, domain, true));
    assert(without_zone_from(t2, domain, true) == without_zone_from(t3, domain, true));
    assert(without_zone_from(t1, domain, false) == without_zone_from(t2, domain, true));
    assert(without_zone_from(d, domain, false) =~= seq![Seq::<char>::empty()]
        + without_zone_from(t1, domain, false));
}

/// Declaring a zone and then removing it gives `named.conf` back. When the edit
/// leaves the directive lines as they are and no line opened a statement for the
/// zone before, the edited file, with the zone's statements removed, reads back as
/// the lines it had before followed by two blank lines.
pub proof fn lemma_declare_then_remove(before: Seq<Seq<char>>, domain: Seq<char>)
    requires
        forall|k: int|
            0 <= k < before.len() ==> plain_line(#[trigger] before[k]) && !contains(
                before[k],
                zone_opening(domain),
            ),
        no_line_feed(domain),
        rewritten_lines(before, false, false) == Ok::<Seq<Seq<char>>, ConfEditError>(before),
    ensures
        named_conf_edit(before, domain) matches Ok(out) && lines(
            without_zone(render(out), domain),
        ) == before + seq![Seq::<char>::empty(), "    "@],
{
    reveal_strlit("    zone \"");
    reveal_strlit("\" IN {");
    reveal_strlit("        type master;");
    reveal_strlit("        file \"/var/named/");
    reveal_strlit(".hosts\";");
    reveal_strlit("    };");
    reveal_strlit("    ");
    reveal_strlit("\n");
    lemma_marker_holds_opening(domain);
    assert(!declares_zone(before, domain)) by {
        if declares_zone(before, domain) {
            let k = choose|k: int|
                0 <= k < before.len() && contains(#[trigger] before[k], zone_marker(domain));
            lemma_contains_trans(before[k], zone_marker(domain), zone_opening(domain));
        }
    }
    let out = before.push(zone_declaration(domain));
    assert(named_conf_edit(before, domain) == Ok::<Seq<Seq<char>>, ConfEditError>(out));
    let d = declaration_lines(domain);
    lemma_declaration_render(domain);
    reveal_with_fuel(render, 2);
    crate::text::lemma_render_append(before, seq![zone_declaration(domain)]);
    crate::text::lemma_render_append(before, d);
    assert(out =~= before + seq![zone_declaration(domain)]);
    assert(render(seq![zone_declaration(domain)]) =~= zone_declaration(domain) + "\n"@);
    assert(render(out) == render(before + d));
    let all = before + d;
    assert forall|k: int| 0 <= k < all.len() implies plain_line(#[trigger] all[k]) by {
        if k >= before.len() {
            let j = k - before.len();
            assert(all[k] == d[j]);
            if j == 1 || j == 3 {
                assert forall|m: int| 0 <= m < d[j].len() implies #[trigger] d[j][m] != '\n' by {
                    let p = if j == 1 { "    zone \""@ } else { "        file \"/var/named/"@ };
                    if m >= p.len() && m < p.len() + domain.len() {
                        assert(d[j][m] == domain[m - p.len()]);
                    }
                }
            }
        }
    }
    crate::text::lemma_lines_of_render(all);
    lemma_without_zone_prefix(before, d, domain);
    lemma_declaration_removed(domain);
    let kept = before + seq![Seq::<char>::empty(), "    "@];
    assert(joinable_lines(kept)) by {
        assert forall|k: int| 0 <= k < kept.len() implies no_line_feed(#[trigger] kept[k]) by {
            if k < before.len() {
                assert(plain_line(before[k]));
            }
        }
        assert forall|k: int| 0 <= k < kept.len() - 1 implies !ends_with_char(
            #[trigger] kept[k],
            '\r',
        ) by {
            if k < before.len() {
                assert(plain_line(before[k]));
            }
        }
    }
    crate::text::lemma_lines_of_join(kept);
}

/// Line `k` is the first of `lines` whose trimmed text starts with `prefix`.
pub open spec fn first_starting_with(lines: Seq<Seq<char>>, prefix: Seq<char>, k: int) -> bool {
    &&& 0 <= k < lines.len()
    &&& starts_with(trim(lines[k]), prefix)
    &&& forall|j: int| 0 <= j < k ==> !starts_with(trim(#[trigger] lines[j]), prefix)
}

/// No trimmed line starts with both `listen-on port 53` and `allow-query`.
proof fn lemma_directive_prefixes_differ(line: Seq<char>)
    ensures
        !(starts_with(trim(line), "listen-on port 53"@) && starts_with(trim(line), "allow-query"@)),
{
    reveal_strlit("listen-on port 53");
    reveal_strlit("allow-query");
    if starts_with(trim(line), "listen-on port 53"@) && starts_with(trim(line), "allow-query"@) {
        assert(trim(line)[0int + 0] == "listen-on port 53"@[0]);
        assert(trim(line)[0int + 0] == "allow-query"@[0]);
    }
}

/// The rewrite from some point on, with `seen_listen` and `seen_allow` saying whether
/// the directives were met before it: it keeps the number of lines, and a line can
/// change only when it is the first `listen-on port 53` line (not met before) or the
/// first `allow-query` line (not met before).
proof fn lemma_rewrite_touches_first_directives(lines: Seq<Seq<char>>, sl: bool, sa: bool)
    ensures
        rewritten_lines(lines, sl, sa) matches Ok(out) ==> {
            &&& out.len() == lines.len()
            &&& forall|k: int|
                0 <= k < lines.len() ==> #[trigger] out[k] == lines[k] || (!sl
                    && first_starting_with(lines, "listen-on port 53"@, k)) || (!sa
                    && first_starting_with(lines, "allow-query"@, k))
        },
    decreases lines.len(),
{
    if lines.len() > 0 {
        let l = lines[0];
        let rest = lines.drop_first();
        lemma_directive_prefixes_differ(l);
        match conf_line_step(l, sl, sa) {
            Err(_) => {},
            Ok((l2, sl2, sa2)) => {
                lemma_rewrite_touches_first_directives(rest, sl2, sa2);
                if let Ok(tail) = rewritten_lines(rest, sl2, sa2) {
                    let out = seq![l2] + tail;
                    assert(rewritten_lines(lines, sl, sa) == Ok::<Seq<Seq<char>>, ConfEditError>(
                        out,
                    ));
                    assert forall|k: int| 0 <= k < lines.len() implies #[trigger] out[k] == lines[k]
                        || (!sl && first_starting_with(lines, "listen-on port 53"@, k)) || (!sa
                        && first_starting_with(lines, "allow-query"@, k)) by {
                        if k == 0 {
                            if l2 != l {
                                assert(forall|j: int| 0 <= j < 0 ==> !starts_with(
                                    trim(#[trigger] lines[j]),
                                    "allow-query"@,
                                ));
                            }
                        } else {
                            assert(out[k] == tail[k - 1]);
                            assert(rest[k - 1] == lines[k]);
                            if out[k] != lines[k] {
                                if !sl2 && first_starting_with(rest, "listen-on port 53"@, k - 1) {
                                    assert forall|j: int| 0 <= j < k implies !starts_with(
                                        trim(#[trigger] lines[j]),
                                        "listen-on port 53"@,
                                    ) by {
                                        if j > 0 {
                                            assert(lines[j] == rest[j - 1]);
                                        }
                                    }
                                    assert(first_starting_with(lines, "listen-on port 53"@, k));
                                } else {
                                    assert(!sa2 && first_starting_with(rest, "allow-query"@, k - 1));
                                    assert forall|j: int| 0 <= j < k implies !starts_with(
                                        trim(#[trigger] lines[j]),
                                        "allow-query"@,
                                    ) by {
                                        if j > 0 {
                                            assert(lines[j] == rest[j - 1]);
                                        }
                                    }
                                    assert(first_starting_with(lines, "allow-query"@, k));
                                }
                            }
                        }
                    }
                }
            },
        }
    }
}

/// Editing `named.conf` changes at most two of its lines: the first whose trimmed text
/// starts with `listen-on port 53` and the first whose trimmed text starts with
/// `allow-query`. Every other line, later `allow-query` ACLs of zones included, is
/// kept as it is, and at most the zone declaration is added after the lines.
pub proof fn lemma_edit_touches_first_directives(lines: Seq<Seq<char>>, domain: Seq<char>)
    ensures
        named_conf_edit(lines, domain) matches Ok(out) ==> {
            &&& out.len() == lines.len() || out == out.take(lines.len() as int).push(
                zone_declaration(domain),
            )
            &&& lines.len() <= out.len() <= lines.len() + 1
            &&& forall|k: int|
                0 <= k < lines.len() ==> #[trigger] out[k] == lines[k] || first_starting_with(
                    lines,
                    "listen-on port 53"@,
                    k,
                ) || first_starting_with(lines, "allow-query"@, k)
        },
{
    lemma_rewrite_touches_first_directives(lines, false, false);
    if let Ok(r) = rewritten_lines(lines, false, false) {
        if !declares_zone(r, domain) {
            let out = r.push(zone_declaration(domain));
            assert(out.take(lines.len() as int) =~= r);
            assert forall|k: int| 0 <= k < lines.len() implies out[k] == r[k] by {}
        }
    }
}

/// The declaration of a zone holds the text that marks the zone as declared.
pub proof fn lemma_declaration_marks_zone(domain: Seq<char>)
    ensures
        contains(zone_declaration(domain), zone_marker(domain)),
{
    reveal_strlit("\n    zone \"");
    reveal_strlit("zone \"");
    reveal_strlit("\" IN {\n        type master;\n        file \"/var/named/");
    reveal_strlit("\" IN");
    let decl = zone_declaration(domain);
    let marker = zone_marker(domain);
    let a = "\n    zone \""@;
    let b = "\" IN {\n        type master;\n        file \"/var/named/"@;
    assert(matches_at(decl, marker, 5)) by {
        assert forall|k: int| 0 <= k < marker.len() implies #[trigger] decl[5 + k] == marker[k] by {
            if k < 6 {
                assert(decl[5 + k] == a[5 + k]);
            } else if k < 6 + domain.len() {
                assert(decl[5 + k] == domain[k - 6]);
            } else {
                assert(decl[5 + k] == b[k - 6 - domain.len()]);
            }
        }
    }
}

/// After a successful edit, `named.conf` declares the zone of `domain`; an edit is
/// never left without the declaration it was asked for.
pub proof fn lemma_edit_declares_zone(lines: Seq<Seq<char>>, domain: Seq<char>)
    ensures
        named_conf_edit(lines, domain) matches Ok(out) ==> declares_zone(out, domain),
{
    if let Ok(out) = rewritten_lines(lines, false, false) {
        if !declares_zone(out, domain) {
            lemma_declaration_marks_zone(domain);
            let res = out.push(zone_declaration(domain));
            assert(res[out.len() as int] == zone_declaration(domain));
        }
    }
}

/// The opening of a zone statement is part of the text that marks the zone as
/// declared.
pub proof fn lemma_marker_holds_opening(domain: Seq<char>)
    ensures
        contains(zone_marker(domain), zone_opening(domain)),
{
    reveal_strlit("zone \"");
    reveal_strlit("\" IN");
    reveal_strlit("\"");
    let m = zone_marker(domain);
    let o = zone_opening(domain);
    assert(matches_at(m, o, 0)) by {
        assert forall|k: int| 0 <= k < o.len() implies #[trigger] m[0 + k] == o[k] by {
            if k < 6 {
            } else if k < 6 + domain.len() {
                assert(m[k] == domain[k - 6]);
            } else {
                assert(m[k] == "\" IN"@[0]);
            }
        }
    }
}

/// No line kept by `without_zone_from` opens a zone statement for `name`.
pub proof fn lemma_without_zone_absent(lines: Seq<Seq<char>>, name: Seq<char>, inside: bool)
    ensures
        forall|k: int|
            0 <= k < without_zone_from(lines, name, inside).len() ==> !contains(
                #[trigger] without_zone_from(lines, name, inside)[k],
                zone_opening(name),
            ),
    decreases lines.len(),
{
    if lines.len() > 0 {
        let rest = lines.drop_first();
        lemma_without_zone_absent(rest, name, !closes_block(lines[0]));
        lemma_without_zone_absent(rest, name, false);
        if inside || contains(lines[0], zone_opening(name)) {
            let out = without_zone_from(lines, name, inside);
            let tail = without_zone_from(rest, name, !closes_block(lines[0]));
            assert(out == tail);
            assert forall|k: int| 0 <= k < out.len() implies !contains(
                #[trigger] out[k],
                zone_opening(name),
            ) by {
                assert(out[k] == tail[k]);
            }
        } else {
            let out = without_zone_from(lines, name, inside);
            let tail = without_zone_from(rest, name, false);
            assert forall|k: int| 0 <= k < out.len() implies !contains(
                #[trigger] out[k],
                zone_opening(name),
            ) by {
                if k > 0 {
                    assert(out[k] == tail[k - 1]);
                }
            }
        }
    }
}

/// Once the zone statements for `domain` are removed, no line declares its zone: a
/// later edit of `named.conf` declares it afresh.
pub proof fn lemma_removed_zone_undeclared(lines: Seq<Seq<char>>, domain: Seq<char>)
    ensures
        !declares_zone(without_zone_from(lines, domain, false), domain),
{
    let kept = without_zone_from(lines, domain, false);
    lemma_without_zone_absent(lines, domain, false);
    lemma_marker_holds_opening(domain);
    assert forall|k: int| 0 <= k < kept.len() implies !contains(
        #[trigger] kept[k],
        zone_marker(domain),
    ) by {
        if contains(kept[k], zone_marker(domain)) {
            lemma_contains_trans(kept[k], zone_marker(domain), zone_opening(domain));
        }
    }
}

/// The declaration of a zone names the file the zone is written to: a new master
/// zone is declared with `zone_file_path` of its domain, the path `zone_file_text`
/// is saved under.
pub proof fn lemma_declaration_names_zone_file(domain: Seq<char>)
    ensures
        contains(zone_declaration(domain), crate::zone_file::zone_file_path(domain)),
{
    let a = "\n    zone \""@;
    let b = "\" IN {\n        type master;\n        file \"/var/named/"@;
    let c = ".hosts\";\n    };\n    "@;
    let v = "/var/named/"@;
    let h = ".hosts"@;
    reveal_strlit("\n    zone \"");
    reveal_strlit("\" IN {\n        type master;\n        file \"/var/named/");
    reveal_strlit(".hosts\";\n    };\n    ");
    reveal_strlit("/var/named/");
    reveal_strlit(".hosts");
    let decl = zone_declaration(domain);
    let path = crate::zone_file::zone_file_path(domain);
    let n = domain.len();
    let off = a.len() + n + b.len() - v.len();
    assert(decl == a + domain + b + domain + c);
    assert(path == v + domain + h);
    assert(matches_at(decl, path, off)) by {
        assert forall|k: int| 0 <= k < path.len() implies #[trigger] decl[off + k] == path[k] by {
            if k < v.len() {
                assert(decl[off + k] == b[b.len() - v.len() + k]);
            } else if k < v.len() + n {
                assert(decl[off + k] == domain[k - v.len()]);
            } else {
                assert(decl[off + k] == c[k - v.len() - n]);
            }
        }
    }
}

} // verus!
