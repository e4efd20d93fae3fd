//! DNS zone files: the master zone written for a new domain, and the records
//! added to an existing zone, each addition bumping the SOA serial number.

use vstd::prelude::*;
use crate::clock::{hour_stamp, hour_stamp_text, utc_now, ClockTime};
use crate::pattern::{captures, regex_captures};
use crate::text::{
    chars_of, copy_str, decimal, is_whitespace, is_ws, lemma_lines_of_render, lemma_parse_nonempty,
    lemma_split_nonempty, lines, matches_at, matches_at_chars, parse_u64, parse_u64_chars,
    plain_line, push_decimal, render, replace_first, replace_first_chars, split, split_chars,
    str_lines, string_from_chars, trim, trim_chars,
};

verus! {

/// Whether a zone maps names to addresses or addresses back to names.
#[derive(Debug, Clone, Copy, PartialEq, Eq, Structural)]
pub enum ZoneType {
    Forward,
    Reverse,
}

/// The kinds of record that can be added to a zone (the SOA record is kept by the
/// library itself).
#[allow(clippy::upper_case_acronyms)]
#[derive(Debug, Clone, Copy, PartialEq, Eq, Structural)]
pub enum DnsRecordType {
    A,
    AAAA,
    CNAME,
    MX,
    NS,
    PTR,
}

/// Why a record could not be added to a zone file.
#[derive(Debug, Clone, Copy, PartialEq, Eq, Structural)]
pub enum ZoneEditError {
    /// The `regex` crate refused the serial-number pattern.
    PatternRejected,
    /// No line holding `IN SOA` carries a serial number that can be read.
    SerialNotFound,
}

/// `/var/named/<domain>.hosts`, the zone file of `domain`.
pub open spec fn zone_file_path(domain: Seq<char>) -> Seq<char> {
    "/var/named/"@ + domain + ".hosts"@
}

/// The address part of `ip`: what comes before a `/`, so that a network such as
/// `192.168.0.0/24` gives `192.168.0.0`.
pub open spec fn address_part(ip: Seq<char>) -> Seq<char> {
    split(ip, '/')[0]
}

/// The last dot-separated part of the address part of `ip`: the owner of a reverse
/// zone's PTR record.
pub open spec fn ptr_fragment(ip: Seq<char>) -> Seq<char> {
    split(address_part(ip), '.').last()
}

/// The text of a new zone file with the given serial number. The SOA record (and,
/// in a reverse zone, the PTR record) starts in the first column with its owner;
/// the NS and A records are indented and so belong to the zone's origin.
pub open spec fn zone_text(
    zone_type: ZoneType,
    ip: Seq<char>,
    ns_fqdn: Seq<char>,
    soa_email: Seq<char>,
    serial: Seq<char>,
) -> Seq<char> {
    match zone_type {
        ZoneType::Forward => "$ttl 38400\n@   IN  SOA "@ + ns_fqdn + ".  "@ + soa_email + ".    (\n                "@ + serial + " ; serial\n                10800 ; refresh\n                3600 ; retry\n                604800 ; expire\n                38400 ; minimum\n                )\n    IN  NS  "@ + ns_fqdn + ".\n    IN  A   "@ + ip + "\n"@,
        ZoneType::Reverse => {
            let addr = address_part(ip);
            let ptr = ptr_fragment(ip);
            "$ttl 38400\n@   IN  SOA "@ + ns_fqdn + ".  "@ + soa_email + ".    (\n                "@ + serial + " ; serial\n                10800 ; refresh\n                3600 ; retry\n                604800 ; expire\n                38400 ; minimum\n                )\n    IN  NS  "@ + ns_fqdn + ".\n    IN  A   "@ + addr + "\n"@ + ptr + "   IN  PTR "@ + ns_fqdn + ".\n"@
        },
    }
}

/// The lines of a new zone file (see `zone_text`), each written followed by a line
/// feed.
pub open spec fn zone_lines(
    zone_type: ZoneType,
    ip: Seq<char>,
    ns_fqdn: Seq<char>,
    soa_email: Seq<char>,
    serial: Seq<char>,
) -> Seq<Seq<char>> {
    let head = seq![
        "$ttl 38400"@,
        "@   IN  SOA "@ + ns_fqdn + ".  "@ + soa_email + ".    ("@,
        "                "@ + serial + " ; serial"@,
        "                10800 ; refresh"@,
        "                3600 ; retry"@,
        "                604800 ; expire"@,
        "                38400 ; minimum"@,
        "                )"@,
        "    IN  NS  "@ + ns_fqdn + "."@,
    ];
    match zone_type {
        ZoneType::Forward => head.push("    IN  A   "@ + ip),
        ZoneType::Reverse => head.push("    IN  A   "@ + address_part(ip)).push(
            ptr_fragment(ip) + "   IN  PTR "@ + ns_fqdn + "."@,
        ),
    }
}

/// The text of a new zone file is its lines, each followed by a line feed.
#[verifier::spinoff_prover]
#[verifier::rlimit(40)]
pub proof fn lemma_zone_text_lines(
    zone_type: ZoneType,
    ip: Seq<char>,
    ns_fqdn: Seq<char>,
    soa_email: Seq<char>,
    serial: Seq<char>,
)
    ensures
        zone_text(zone_type, ip, ns_fqdn, soa_email, serial) == render(
            zone_lines(zone_type, ip, ns_fqdn, soa_email, serial),
        ),
{
    reveal_strlit("\n");
    reveal_strlit("$ttl 38400");
    reveal_strlit("@   IN  SOA ");
    reveal_strlit(".  ");
    reveal_strlit(".    (");
    reveal_strlit("                ");
    reveal_strlit(" ; serial");
    reveal_strlit("                10800 ; refresh");
    reveal_strlit("                3600 ; retry");
    reveal_strlit("                604800 ; expire");
    reveal_strlit("                38400 ; minimum");
    reveal_strlit("                )");
    reveal_strlit("    IN  NS  ");
    reveal_strlit(".");
    reveal_strlit("    IN  A   ");
    reveal_strlit("   IN  PTR ");
    reveal_strlit("$ttl 38400\n@   IN  SOA ");
    reveal_strlit(".    (\n                ");
    reveal_strlit(
        " ; serial\n                10800 ; refresh\n                3600 ; retry\n                604800 ; expire\n                38400 ; minimum\n                )\n    IN  NS  ",
    );
    reveal_strlit(".\n    IN  A   ");
    reveal_strlit(".\n");
    reveal_with_fuel(render, 12);
    let nl = "\n"@;
    assert("$ttl 38400"@ + nl + "@   IN  SOA "@ =~= "$ttl 38400\n@   IN  SOA "@);
    assert(".    ("@ + nl + "                "@ =~= ".    (\n                "@);
    assert(" ; serial"@ + nl + "                10800 ; refresh"@ + nl
        + "                3600 ; retry"@ + nl + "                604800 ; expire"@ + nl
        + "                38400 ; minimum"@ + nl + "                )"@ + nl + "    IN  NS  "@
        =~= " ; serial\n                10800 ; refresh\n                3600 ; retry\n                604800 ; expire\n                38400 ; minimum\n                )\n    IN  NS  "@);
    assert("."@ + nl + "    IN  A   "@ =~= ".\n    IN  A   "@);
    assert("."@ + nl =~= ".\n"@);
    let zl = zone_lines(zone_type, ip, ns_fqdn, soa_email, serial);
    assert(render(zl) =~= zone_text(zone_type, ip, ns_fqdn, soa_email, serial));
}

/// The first line of a new zone file does not open the SOA record; the second does.
proof fn lemma_zone_lines_soa(
    zone_type: ZoneType,
    ip: Seq<char>,
    ns_fqdn: Seq<char>,
    soa_email: Seq<char>,
    serial: Seq<char>,
)
    ensures
        !is_soa_line(zone_lines(zone_type, ip, ns_fqdn, soa_email, serial)[0]),
        is_soa_line(zone_lines(zone_type, ip, ns_fqdn, soa_email, serial)[1]),
{
    reveal_strlit("$ttl 38400");
    reveal_strlit("@   IN  SOA ");
    reveal_strlit("IN");
    reveal_strlit("SOA");
    let zl = zone_lines(zone_type, ip, ns_fqdn, soa_email, serial);
    let l0 = zl[0];
    assert(l0 == "$ttl 38400"@);
    assert forall|i: int, j: int| !in_soa_at(l0, i, j) by {
        if in_soa_at(l0, i, j) {
            assert(l0[i + 0] == 'I');
            assert(0 <= i < 10);
            if i == 0 {} else if i == 1 {} else if i == 2 {} else if i == 3 {} else if i == 4 {}
            else if i == 5 {} else if i == 6 {} else if i == 7 {} else if i == 8 {} else {}
        }
    }
    let l1 = zl[1];
    let p = "@   IN  SOA "@;
    assert forall|k: int| 0 <= k < p.len() implies #[trigger] l1[k] == p[k] by {}
    assert(matches_at(l1, "IN"@, 4)) by {
        assert(l1[4int + 0] == p[4]);
        assert(l1[4int + 1] == p[5]);
    }
    assert(matches_at(l1, "SOA"@, 8)) by {
        assert(l1[8int + 0] == p[8]);
        assert(l1[8int + 1] == p[9]);
        assert(l1[8int + 2] == p[10]);
    }
    assert(is_ws(l1[6]) && is_ws(l1[7])) by {
        assert(l1[6] == p[6]);
        assert(l1[7] == p[7]);
    }
    assert(in_soa_at(l1, 4, 8));
}

/// Records can be added to a zone written here. Read back, a new zone file gives its
/// lines again; the serial search passes its first line, begins at the SOA line on
/// the second, and, once the serial pattern finds no serial there and finds one on
/// the third line, where `zone_text` writes the serial, that is the zone's serial.
pub proof fn lemma_new_zone_serial_found(
    zone_type: ZoneType,
    ip: Seq<char>,
    ns_fqdn: Seq<char>,
    soa_email: Seq<char>,
    serial: Seq<char>,
)
    requires
        forall|k: int|
            0 <= k < zone_lines(zone_type, ip, ns_fqdn, soa_email, serial).len() ==> plain_line(
                #[trigger] zone_lines(zone_type, ip, ns_fqdn, soa_email, serial)[k],
            ),
        line_serial(zone_lines(zone_type, ip, ns_fqdn, soa_email, serial)[1]) == Ok::<
            Option<(Seq<char>, Seq<char>)>,
            ZoneEditError,
        >(None),
        line_serial(zone_lines(zone_type, ip, ns_fqdn, soa_email, serial)[2]) matches Ok(Some(_)),
    ensures
        lines(zone_text(zone_type, ip, ns_fqdn, soa_email, serial)) == zone_lines(
            zone_type,
            ip,
            ns_fqdn,
            soa_email,
            serial,
        ),
        zone_lines(zone_type, ip, ns_fqdn, soa_email, serial)[2] == "                "@ + serial
            + " ; serial"@,
        line_serial(zone_lines(zone_type, ip, ns_fqdn, soa_email, serial)[2]) matches Ok(
            Some((whole, text)),
        ) && zone_serial(lines(zone_text(zone_type, ip, ns_fqdn, soa_email, serial))) == Ok::<
            Option<(nat, Seq<char>, Seq<char>)>,
            ZoneEditError,
        >(Some((2, whole, text))),
{
    let zl = zone_lines(zone_type, ip, ns_fqdn, soa_email, serial);
    lemma_zone_text_lines(zone_type, ip, ns_fqdn, soa_email, serial);
    lemma_lines_of_render(zl);
    lemma_zone_lines_soa(zone_type, ip, ns_fqdn, soa_email, serial);
    assert(serial_from(zl, 0, false) == serial_from(zl, 1, false));
    assert(serial_from(zl, 1, false) == serial_from(zl, 2, true));
}

/// The mnemonic of a record type in a zone file.
pub open spec fn record_type_name(t: DnsRecordType) -> Seq<char> {
    match t {
        DnsRecordType::A => "A"@,
        DnsRecordType::AAAA => "AAAA"@,
        DnsRecordType::CNAME => "CNAME"@,
        DnsRecordType::MX => "MX"@,
        DnsRecordType::NS => "NS"@,
        DnsRecordType::PTR => "PTR"@,
    }
}

/// The zone-file line of a record: host, class `IN`, type and value separated by
/// tabs, with preference 10 before the value of an MX record.
pub open spec fn record_line(host: Seq<char>, t: DnsRecordType, value: Seq<char>) -> Seq<char> {
    if t == DnsRecordType::MX {
        host + "\tIN\tMX\t10\t"@ + value
    } else {
        host + "\tIN\t"@ + record_type_name(t) + "\t"@ + value
    }
}

/// `/var/named/<domain>.hosts`, the zone file of `domain`.
pub fn zone_file_path_text(domain: &str) -> (s: String)
    ensures
        s@ == zone_file_path(domain@),
{
    let mut s = String::new();
    s.append("/var/named/");
    s.append(domain);
    s.append(".hosts");
    s
}

/// The text of a new zone file with the given serial number: a forward zone holds
/// the SOA, NS and A records; a reverse zone holds them and a PTR record for the
/// last part of `ip`.
pub fn zone_file_text(
    zone_type: ZoneType,
    ip: &str,
    ns_fqdn: &str,
    soa_email: &str,
    serial: &str,
) -> (s: String)
    ensures
        s@ == zone_text(zone_type, ip@, ns_fqdn@, soa_email@, serial@),
{
    let mut s = String::new();
    match zone_type {
        ZoneType::Forward => {
            s.append("$ttl 38400\n@   IN  SOA ");
            s.append(ns_fqdn);
            s.append(".  ");
            s.append(soa_email);
            s.append(".    (\n                ");
            s.append(serial);
            s.append(" ; serial\n                10800 ; refresh\n                3600 ; retry\n                604800 ; expire\n                38400 ; minimum\n                )\n    IN  NS  ");
            s.append(ns_fqdn);
            s.append(".\n    IN  A   ");
            s.append(ip);
            s.append("\n");
        },
        ZoneType::Reverse => {
            let pieces = split_chars(&chars_of(ip), '/');
            proof {
                lemma_split_nonempty(ip@, '/');
            }
            let addr_chars = &pieces[0];
            assert(pieces.deep_view()[0] =~= addr_chars@);
            let parts = split_chars(addr_chars, '.');
            proof {
                lemma_split_nonempty(addr_chars@, '.');
            }
            let last = string_from_chars(&parts[parts.len() - 1]);
            assert(parts.deep_view()[parts.len() - 1] =~= last@);
            let addr_string = string_from_chars(addr_chars);
            let addr = addr_string.as_str();
            let ptr = last.as_str();
            s.append("$ttl 38400\n@   IN  SOA ");
            s.append(ns_fqdn);
            s.append(".  ");
            s.append(soa_email);
            s.append(".    (\n                ");
            s.append(serial);
            s.append(" ; serial\n                10800 ; refresh\n                3600 ; retry\n                604800 ; expire\n                38400 ; minimum\n                )\n    IN  NS  ");
            s.append(ns_fqdn);
            s.append(".\n    IN  A   ");
            s.append(addr);
            s.append("\n");
            s.append(ptr);
            s.append("   IN  PTR ");
            s.append(ns_fqdn);
            s.append(".\n");
        },
    }
    s
}

/// The text of a new zone file whose serial number is the hour of `t`, written as
/// `%Y%m%d%H` (see `hour_stamp`).
pub fn zone_file_text_at(
    zone_type: ZoneType,
    ip: &str,
    ns_fqdn: &str,
    soa_email: &str,
    t: &ClockTime,
) -> (s: String)
    ensures
        s@ == zone_text(zone_type, ip@, ns_fqdn@, soa_email@, hour_stamp(*t)),
{
    let serial = hour_stamp_text(t);
    zone_file_text(zone_type, ip, ns_fqdn, soa_email, serial.as_str())
}

/// The text of a new zone file whose serial number is the current UTC hour (see
/// `zone_file_text_at`); `None` when the system clock reads a time outside the dates
/// that `chrono` represents.
pub fn new_zone_file_text(zone_type: ZoneType, ip: &str, ns_fqdn: &str, soa_email: &str) -> (s:
    Option<String>)
    ensures
        s matches Some(text) ==> exists|t: ClockTime|
            t.valid() && text@ == zone_text(zone_type, ip@, ns_fqdn@, soa_email@, hour_stamp(t)),
{
    match utc_now() {
        Some(now) => Some(zone_file_text_at(zone_type, ip, ns_fqdn, soa_email, &now)),
        None => None,
    }
}

/// Whether the zone file is (re)written: a reverse zone is created only when its
/// file does not exist yet, a forward zone is written afresh.
pub open spec fn zone_file_written(zone_type: ZoneType, exists: bool) -> bool {
    !(zone_type == ZoneType::Reverse && exists)
}

/// Whether the zone file is written (see `zone_file_written`).
pub fn writes_zone_file(zone_type: ZoneType, exists: bool) -> (b: bool)
    ensures
        b == zone_file_written(zone_type, exists),
{
    !(zone_type == ZoneType::Reverse && exists)
}

/// The mnemonic of a record type (see `record_type_name`).
pub fn record_type_name_text(t: DnsRecordType) -> (n: &'static str)
    ensures
        n@ == record_type_name(t),
{
    match t {
        DnsRecordType::A => "A",
        DnsRecordType::AAAA => "AAAA",
        DnsRecordType::CNAME => "CNAME",
        DnsRecordType::MX => "MX",
        DnsRecordType::NS => "NS",
        DnsRecordType::PTR => "PTR",
    }
}

/// The zone-file line of a record (see `record_line`).
pub fn record_line_text(host: &str, t: DnsRecordType, value: &str) -> (s: String)
    ensures
        s@ == record_line(host@, t, value@),
{
    let mut s = String::new();
    s.append(host);
    if t == DnsRecordType::MX {
        s.append("\tIN\tMX\t10\t");
    } else {
        s.append("\tIN\t");
        s.append(record_type_name_text(t));
        s.append("\t");
    }
    s.append(value);
    s
}

/// The pattern that finds the serial number: whitespace, digits, then `; serial`.
pub open spec fn soa_pattern() -> Seq<char> {
    r"(\s+\d+)\s*;\s*serial"@
}

/// `IN`, whitespace, then `SOA` run from position `i` to position `j` of `line`.
pub open spec fn in_soa_at(line: Seq<char>, i: int, j: int) -> bool {
    &&& matches_at(line, "IN"@, i)
    &&& i + 2 < j
    &&& forall|k: int| i + 2 <= k < j ==> is_ws(#[trigger] line[k])
    &&& matches_at(line, "SOA"@, j)
}

/// The line opens the SOA record: it holds `IN`, whitespace, `SOA`.
pub open spec fn is_soa_line(line: Seq<char>) -> bool {
    exists|i: int, j: int| in_soa_at(line, i, j)
}

/// The serial number in the pattern's answer `found`: the whole match, and its first
/// group trimmed, when that reads as a 64-bit number.
pub open spec fn serial_in_groups(found: Option<Seq<Option<Seq<char>>>>) -> Option<
    (Seq<char>, Seq<char>),
> {
    match found {
        None => None,
        Some(groups) => if groups.len() > 1 && groups[0] is Some && groups[1] is Some && parse_u64(
            trim(groups[1]->0),
        ) is Some {
            Some((groups[0]->0, trim(groups[1]->0)))
        } else {
            None
        },
    }
}

/// The serial number that `line` carries (see `serial_in_groups`).
pub open spec fn line_serial(line: Seq<char>) -> Result<
    Option<(Seq<char>, Seq<char>)>,
    ZoneEditError,
> {
    match regex_captures(soa_pattern(), line) {
        Err(_) => Err(ZoneEditError::PatternRejected),
        Ok(found) => Ok(serial_in_groups(found)),
    }
}

/// The first line from position `i` on that carries a serial number, at or after
/// the line that opens the SOA record (`seen_soa`: that line was already passed),
/// with the text the pattern matched there and the number's text.
pub open spec fn serial_from(lines: Seq<Seq<char>>, i: nat, seen_soa: bool) -> Result<
    Option<(nat, Seq<char>, Seq<char>)>,
    ZoneEditError,
>
    decreases lines.len() - i,
{
    if i >= lines.len() {
        Ok(None)
    } else if !seen_soa && !is_soa_line(lines[i as int]) {
        serial_from(lines, i + 1, false)
    } else {
        match line_serial(lines[i as int]) {
            Err(e) => Err(e),
            Ok(Some((whole, t))) => Ok(Some((i, whole, t))),
            Ok(None) => serial_from(lines, i + 1, true),
        }
    }
}

/// The serial number of the zone: on the line that opens the SOA record or on a later
/// one, as in a zone file written by `zone_file_text`.
pub open spec fn zone_serial(lines: Seq<Seq<char>>) -> Result<
    Option<(nat, Seq<char>, Seq<char>)>,
    ZoneEditError,
> {
    serial_from(lines, 0, false)
}

/// A line found by `serial_from` lies between `i` and the end of the zone.
pub proof fn lemma_serial_from_in_zone(lines: Seq<Seq<char>>, i: nat, seen: bool)
    ensures
        serial_from(lines, i, seen) matches Ok(Some((k, _, _))) ==> i <= k < lines.len(),
    decreases lines.len() - i,
{
    if i < lines.len() {
        lemma_serial_from_in_zone(lines, i + 1, false);
        lemma_serial_from_in_zone(lines, i + 1, true);
    }
}

/// The serial number of the zone can be raised by one without overflow.
pub open spec fn serial_can_grow(lines: Seq<Seq<char>>) -> bool {
    match zone_serial(lines) {
        Ok(Some((_, _, t))) => parse_u64(t).unwrap() < u64::MAX,
        _ => true,
    }
}

/// The serial line after the serial number `text`, matched as `whole`, is raised to
/// `next`: only the matched text changes, its number replaced.
pub open spec fn bumped_line(line: Seq<char>, whole: Seq<char>, text: Seq<char>, next: Seq<char>) -> Seq<
    char,
> {
    replace_first(line, whole, replace_first(whole, text, next))
}

/// The zone's lines after a record is added: the serial number raised by one on its
/// line (see `bumped_line`), and the record line appended.
pub open spec fn zone_with_record(
    lines: Seq<Seq<char>>,
    host: Seq<char>,
    t: DnsRecordType,
    value: Seq<char>,
) -> Result<Seq<Seq<char>>, ZoneEditError> {
    match zone_serial(lines) {
        Err(e) => Err(e),
        Ok(None) => Err(ZoneEditError::SerialNotFound),
        Ok(Some((i, whole, text))) => {
            let next = decimal((parse_u64(text).unwrap() + 1) as nat);
            Ok(lines.update(i as int, bumped_line(lines[i as int], whole, text, next)).push(
                record_line(host, t, value),
            ))
        },
    }
}

/// The view of a result of lines.
pub open spec fn zone_result_view(r: Result<Vec<String>, ZoneEditError>) -> Result<
    Seq<Seq<char>>,
    ZoneEditError,
> {
    match r {
        Ok(v) => Ok(v.deep_view()),
        Err(e) => Err(e),
    }
}

/// Where the serial number of a zone stands: the line, the text the pattern
/// matched there, the number's text and its value.
pub struct SoaSerial {
    pub line: usize,
    pub matched: String,
    pub text: String,
    pub value: u64,
}

/// The serial number in the pattern's answer `found` (see `serial_in_groups`).
pub fn serial_from_groups(found: &Option<Vec<Option<String>>>) -> (r: Option<(String, String, u64)>)
    ensures
        match r {
            Some((whole, text, value)) => serial_in_groups(found.deep_view()) == Some(
                (whole@, text@),
            ) && parse_u64(text@) == Some(value),
            None => serial_in_groups(found.deep_view()) is None,
        },
{
    match found {
        None => None,
        Some(groups) => {
            if groups.len() <= 1 {
                return None;
            }
            match (&groups[0], &groups[1]) {
                (Some(whole), Some(g)) => {
                    assert(groups.deep_view()[0] == Some(whole@));
                    assert(groups.deep_view()[1] == Some(g@));
                    let t = trim_chars(&chars_of(g.as_str()));
                    match parse_u64_chars(&t) {
                        Some(v) => Some((copy_str(whole.as_str()), string_from_chars(&t), v)),
                        None => None,
                    }
                },
                _ => {
                    assert(groups.deep_view()[0] is None || groups.deep_view()[1] is None);
                    None
                },
            }
        },
    }
}

/// The serial number that `line` carries, if any (see `line_serial`).
pub fn serial_on_line(line: &str) -> (r: Result<Option<(String, String, u64)>, ZoneEditError>)
    ensures
        match r {
            Ok(Some((whole, text, value))) => line_serial(line@) == Ok::<_, ZoneEditError>(
                Some((whole@, text@)),
            ) && parse_u64(text@) == Some(value),
            Ok(None) => line_serial(line@) == Ok::<Option<(Seq<char>, Seq<char>)>, ZoneEditError>(
                None,
            ),
            Err(e) => line_serial(line@) == Err::<Option<(Seq<char>, Seq<char>)>, _>(e),
        },
{
    match captures(r"(\s+\d+)\s*;\s*serial", line) {
        Err(_) => Err(ZoneEditError::PatternRejected),
        Ok(found) => Ok(serial_from_groups(&found)),
    }
}

/// Whether the line opens the SOA record (see `is_soa_line`).
pub fn is_soa_line_text(line: &str) -> (b: bool)
    ensures
        b == is_soa_line(line@),
{
    proof {
        reveal_strlit("IN");
        reveal_strlit("SOA");
    }
    let l = chars_of(line);
    let in_word = chars_of("IN");
    let soa = chars_of("SOA");
    let mut i: usize = 0;
    while i < l.len()
        invariant
            i <= l.len(),
            l@ == line@,
            in_word@ == "IN"@,
            soa@ == "SOA"@,
            in_word@.len() == 2,
            soa@ == seq!['S', 'O', 'A'],
            forall|a: int, b: int| 0 <= a < i ==> !in_soa_at(l@, a, b),
        decreases l.len() - i,
    {
        if matches_at_chars(&l, &in_word, i) {
            let mut j: usize = i + 2;
            while j < l.len() && is_whitespace(l[j])
                invariant
                    i + 2 <= j <= l.len(),
                    forall|k: int| i + 2 <= k < j ==> is_ws(#[trigger] l@[k]),
                decreases l.len() - j,
            {
                j += 1;
            }
            assert(j == l.len() || !is_ws(l@[j as int]));
            if j > i + 2 && matches_at_chars(&l, &soa, j) {
                assert(in_soa_at(l@, i as int, j as int));
                return true;
            }
            assert forall|b: int| !in_soa_at(l@, i as int, b) by {
                if in_soa_at(l@, i as int, b) {
                    assert(l@[b + 0] == 'S');
                    if b < j {
                        assert(is_ws(l@[b]));
                    } else if b > j {
                        assert(is_ws(l@[j as int]));
                    }
                }
            }
        } else {
            assert forall|b: int| !in_soa_at(l@, i as int, b) by {}
        }
        i += 1;
    }
    assert forall|a: int, b: int| !in_soa_at(l@, a, b) by {
        if in_soa_at(l@, a, b) {
            assert(0 <= a < l.len());
        }
    }
    false
}

/// Finds the serial number of the zone (see `zone_serial`).
pub fn find_soa_serial(lines: &Vec<String>) -> (r: Result<Option<SoaSerial>, ZoneEditError>)
    ensures
        match r {
            Ok(Some(s)) => zone_serial(lines.deep_view()) == Ok::<_, ZoneEditError>(
                Some((s.line as nat, s.matched@, s.text@)),
            ) && parse_u64(s.text@) == Some(s.value),
            Ok(None) => zone_serial(lines.deep_view()) == Ok::<
                Option<(nat, Seq<char>, Seq<char>)>,
                ZoneEditError,
            >(None),
            Err(e) => zone_serial(lines.deep_view()) == Err::<
                Option<(nat, Seq<char>, Seq<char>)>,
                _,
            >(e),
        },
{
    let ghost dv = lines.deep_view();
    let mut seen = false;
    for i in 0..lines.len()
        invariant
            dv == lines.deep_view(),
            zone_serial(dv) == serial_from(dv, i as nat, seen),
    {
        assert(lines[i as int]@ == dv[i as int]);
        if seen || is_soa_line_text(lines[i].as_str()) {
            match serial_on_line(lines[i].as_str()) {
                Err(e) => {
                    return Err(e);
                },
                Ok(Some((matched, text, value))) => {
                    return Ok(Some(SoaSerial { line: i, matched, text, value }));
                },
                Ok(None) => {},
            }
            seen = true;
        }
    }
    Ok(None)
}

/// Adds a record to the lines of a zone file: the serial number is raised by one and
/// the record line appended (see `zone_with_record`). Each line of the result is
/// written followed by a line feed.
pub fn add_dns_record(lines: &Vec<String>, host: &str, t: DnsRecordType, value: &str) -> (res:
    Result<Vec<String>, ZoneEditError>)
    requires
        serial_can_grow(lines.deep_view()),
    ensures
        zone_result_view(res) == zone_with_record(lines.deep_view(), host@, t, value@),
{
    let found = find_soa_serial(lines);
    let serial = match found {
        Err(e) => {
            return Err(e);
        },
        Ok(None) => {
            return Err(ZoneEditError::SerialNotFound);
        },
        Ok(Some(s)) => s,
    };
    let ghost dv = lines.deep_view();
    proof {
        lemma_serial_from_in_zone(dv, 0, false);
        lemma_parse_nonempty(serial.text@);
    }
    let next = decimal_next(serial.value);
    let new_match = replace_first_text(serial.matched.as_str(), serial.text.as_str(), next.as_str());
    let new_line = replace_first_text(lines[serial.line].as_str(), serial.matched.as_str(), new_match.as_str());
    assert(new_line@ == bumped_line(dv[serial.line as int], serial.matched@, serial.text@, next@));
    let mut out: Vec<String> = Vec::new();
    for i in 0..lines.len()
        invariant
            dv == lines.deep_view(),
            serial.line < lines.len(),
            out.deep_view() == dv.update(serial.line as int, new_line@).take(i as int),
    {
        let ghost before = out.deep_view();
        assert(lines[i as int]@ == dv[i as int]);
        if i == serial.line {
            out.push(copy_str(new_line.as_str()));
            assert(out.deep_view() =~= before.push(new_line@));
        } else {
            out.push(copy_str(lines[i].as_str()));
            assert(out.deep_view() =~= before.push(dv[i as int]));
        }
        assert(out.deep_view() =~= dv.update(serial.line as int, new_line@).take(i + 1));
    }
    let ghost before = out.deep_view();
    out.push(record_line_text(host, t, value));
    assert(before =~= dv.update(serial.line as int, new_line@));
    assert(out.deep_view() =~= before.push(record_line(host@, t, value@)));
    Ok(out)
}

/// `s` with the first occurrence of `p` replaced by `r` (see `replace_first`).
fn replace_first_text(s: &str, p: &str, r: &str) -> (out: String)
    ensures
        out@ == replace_first(s@, p@, r@),
{
    string_from_chars(&replace_first_chars(&chars_of(s), &chars_of(p), &chars_of(r)))
}

/// The decimal text of the number after `n`.
fn decimal_next(n: u64) -> (s: String)
    requires
        n < u64::MAX,
    ensures
        s@ == decimal((n + 1) as nat),
{
    let mut s = String::new();
    push_decimal(&mut s, n + 1);
    s
}

/// Adds a record as `add_dns_record` does, when the serial number can grow; `None`
/// when the serial number is already the largest 64-bit number.
pub fn add_dns_record_checked(lines: &Vec<String>, host: &str, t: DnsRecordType, value: &str) -> (res:
    Option<Result<Vec<String>, ZoneEditError>>)
    ensures
        match res {
            None => !serial_can_grow(lines.deep_view()),
            Some(r) => serial_can_grow(lines.deep_view()) && zone_result_view(r) == zone_with_record(
                lines.deep_view(),
                host@,
                t,
                value@,
            ),
        },
{
    if let Ok(Some(s)) = find_soa_serial(lines) {
        if s.value == u64::MAX {
            return None;
        }
    }
    Some(add_dns_record(lines, host, t, value))
}

/// The zone of a blacklisted domain, built from the lines of a new forward zone for
/// `ip` with serial `serial`: an `A` record for the domain itself (`@`) and one for
/// every name under it (`*`), both pointing at `ip`, added one after the other (see
/// `zone_with_record`). `None` when the serial number cannot grow before one of the
/// additions.
pub open spec fn blacklist_zone(
    ip: Seq<char>,
    ns_fqdn: Seq<char>,
    soa_email: Seq<char>,
    serial: Seq<char>,
) -> Option<Result<Seq<Seq<char>>, ZoneEditError>> {
    let zone = lines(zone_text(ZoneType::Forward, ip, ns_fqdn, soa_email, serial));
    if !serial_can_grow(zone) {
        None
    } else {
        match zone_with_record(zone, "@"@, DnsRecordType::A, ip) {
            Err(e) => Some(Err(e)),
            Ok(with_apex) => if !serial_can_grow(with_apex) {
                None
            } else {
                Some(zone_with_record(with_apex, "*"@, DnsRecordType::A, ip))
            },
        }
    }
}

/// The lines of the zone file of a blacklisted domain, its serial number the hour of
/// `t` (see `blacklist_zone`).
pub fn blacklist_zone_lines(ip: &str, ns_fqdn: &str, soa_email: &str, t: &ClockTime) -> (res:
    Option<Result<Vec<String>, ZoneEditError>>)
    ensures
        match res {
            None => blacklist_zone(ip@, ns_fqdn@, soa_email@, hour_stamp(*t)) is None,
            Some(r) => blacklist_zone(ip@, ns_fqdn@, soa_email@, hour_stamp(*t)) == Some(
                zone_result_view(r),
            ),
        },
{
    let text = zone_file_text_at(ZoneType::Forward, ip, ns_fqdn, soa_email, t);
    let zone = str_lines(text.as_str());
    match add_dns_record_checked(&zone, "@", DnsRecordType::A, ip) {
        None => None,
        Some(Err(e)) => Some(Err(e)),
        Some(Ok(with_apex)) => {
            proof {
                reveal_strlit("@");
            }
            add_dns_record_checked(&with_apex, "*", DnsRecordType::A, ip)
        },
    }
}

/// The serial pattern lets any run of whitespace (`\s*`, none included) stand between
/// the number and the `;`, and between the `;` and `serial`: the number group is
/// followed by `\s*;\s*serial`, as aligned zone files write `2024010100  ; serial`.
/// What the pattern matches is the `regex` crate's to decide; this fixes the pattern
/// handed to it.
pub proof fn lemma_serial_pattern_allows_spacing()
    ensures
        soa_pattern() == r"(\s+\d+)"@ + r"\s*"@ + ";"@ + r"\s*"@ + "serial"@,
{
    reveal_strlit(r"(\s+\d+)\s*;\s*serial");
    reveal_strlit(r"(\s+\d+)");
    reveal_strlit(r"\s*");
    reveal_strlit(";");
    reveal_strlit("serial");
    assert(soa_pattern() =~= r"(\s+\d+)"@ + r"\s*"@ + ";"@ + r"\s*"@ + "serial"@);
}

/// Adding a record to a zone whose serial number is found on line `i`: the result
/// has one line more, the record line last; every line but line `i` is kept; line `i`
/// has the matched text rewritten with the number replaced by one that reads back as
/// the serial plus one. With no serial found, the addition is refused.
pub proof fn lemma_record_addition(
    lines: Seq<Seq<char>>,
    host: Seq<char>,
    t: DnsRecordType,
    value: Seq<char>,
)
    requires
        serial_can_grow(lines),
    ensures
        zone_serial(lines) matches Ok(Some((i, whole, text))) ==> {
            &&& zone_with_record(lines, host, t, value) matches Ok(out)
            &&& out.len() == lines.len() + 1
            &&& out[lines.len() as int] == record_line(host, t, value)
            &&& forall|k: int| 0 <= k < lines.len() && k != i ==> #[trigger] out[k] == lines[k]
            &&& exists|n: Seq<char>|
                parse_u64(n) == Some((parse_u64(text).unwrap() + 1) as u64) && out[i as int]
                    == replace_first(lines[i as int], whole, replace_first(whole, text, n))
        },
        zone_serial(lines) == Ok::<Option<(nat, Seq<char>, Seq<char>)>, ZoneEditError>(None)
            ==> zone_with_record(lines, host, t, value) == Err::<Seq<Seq<char>>, ZoneEditError>(
            ZoneEditError::SerialNotFound,
        ),
{
    lemma_serial_from_in_zone(lines, 0, false);
    if let Ok(Some((i, whole, text))) = zone_serial(lines) {
        let v = parse_u64(text).unwrap();
        assert(v < u64::MAX);
        let n = decimal((v + 1) as nat);
        crate::text::lemma_parse_decimal((v + 1) as u64);
        let out = lines.update(i as int, bumped_line(lines[i as int], whole, text, n)).push(
            record_line(host, t, value),
        );
        assert(zone_with_record(lines, host, t, value) == Ok::<Seq<Seq<char>>, ZoneEditError>(out));
        assert(parse_u64(n) == Some((v + 1) as u64));
        assert(out[i as int] == replace_first(lines[i as int], whole, replace_first(whole, text, n)));
    }
}

/// Different record types are written with different names.
pub proof fn lemma_record_type_names_differ(a: DnsRecordType, b: DnsRecordType)
    requires
        a != b,
    ensures
        record_type_name(a) != record_type_name(b),
{
    reveal_strlit("A");
    reveal_strlit("AAAA");
    reveal_strlit("CNAME");
    reveal_strlit("MX");
    reveal_strlit("NS");
    reveal_strlit("PTR");
    assert(record_type_name(a).len() != record_type_name(b).len() || record_type_name(a)[0]
        != record_type_name(b)[0]);
}

} // verus!
