use sysadmin::clock::ClockTime;
use sysadmin::zone_file::{
    add_dns_record, add_dns_record_checked, blacklist_zone_lines, find_soa_serial,
    new_zone_file_text, record_line_text, writes_zone_file, zone_file_path_text, zone_file_text,
    zone_file_text_at, DnsRecordType, ZoneEditError, ZoneType,
};

fn strings(v: &[&str]) -> Vec<String> {
    v.iter().map(|s| s.to_string()).collect()
}

fn lines_of(text: &str) -> Vec<String> {
    text.lines().map(|l| l.to_string()).collect()
}

fn soa_and_ns(ns_fqdn: &str, soa_email: &str, serial: &str) -> String {
    format!(
        "$ttl 38400\n@   IN  SOA {ns_fqdn}.  {soa_email}.    (\n                {serial} ; serial\n                10800 ; refresh\n                3600 ; retry\n                604800 ; expire\n                38400 ; minimum\n                )\n    IN  NS  {ns_fqdn}.\n"
    )
}

fn forward(ns_fqdn: &str, soa_email: &str, serial: &str, ip: &str) -> String {
    format!("{}    IN  A   {ip}\n", soa_and_ns(ns_fqdn, soa_email, serial))
}

#[test]
fn forward_zone_text() {
    let text = zone_file_text(ZoneType::Forward, "10.2.0.1", "dns.estig.pt", "mail.as.com", "2024061512");
    assert_eq!(text, forward("dns.estig.pt", "mail.as.com", "2024061512", "10.2.0.1"));
}

#[test]
fn zone_owners_start_in_the_first_column() {
    let text = zone_file_text(ZoneType::Reverse, "192.168.0.10", "dns.example.com", "hostmaster.example.com", "1");
    let lines = lines_of(&text);
    assert!(lines[1].starts_with("@   IN  SOA"));
    assert!(lines[8].starts_with("    IN  NS"));
    assert!(lines[9].starts_with("    IN  A"));
    assert!(lines[10].starts_with("10   IN  PTR"));
}

#[test]
fn reverse_zone_text_has_ptr_for_last_part() {
    let ns_fqdn = "dns.example.com";
    let soa_email = "hostmaster.example.com";
    let serial = "2024061512";
    let expected = format!(
        "{}    IN  A   192.168.0.0\n0   IN  PTR {ns_fqdn}.\n",
        soa_and_ns(ns_fqdn, soa_email, serial)
    );
    let text = zone_file_text(ZoneType::Reverse, "192.168.0.0/24", ns_fqdn, soa_email, serial);
    assert_eq!(text, expected);
    assert!(!text.contains('/'));
}

#[test]
fn reverse_zone_without_dots_uses_whole_address() {
    let text = zone_file_text(ZoneType::Reverse, "host", "ns", "mail", "1");
    assert!(text.ends_with("\n    IN  A   host\nhost   IN  PTR ns.\n"));
}

#[test]
fn new_zone_text_uses_a_ten_digit_serial() {
    let text = new_zone_file_text(ZoneType::Forward, "10.0.0.1", "ns.example.com", "hostmaster.example.com").unwrap();
    let serial_line = text.lines().nth(2).unwrap().trim().to_string();
    let serial = serial_line.strip_suffix(" ; serial").unwrap();
    assert_eq!(serial.len(), 10);
    assert!(serial.chars().all(|c| c.is_ascii_digit()));
    assert_eq!(text, forward("ns.example.com", "hostmaster.example.com", serial, "10.0.0.1"));
}

#[test]
fn zone_file_path() {
    assert_eq!(zone_file_path_text("example.com"), "/var/named/example.com.hosts");
}

#[test]
fn record_lines() {
    assert_eq!(record_line_text("www", DnsRecordType::A, "10.0.0.1"), "www\tIN\tA\t10.0.0.1");
    assert_eq!(record_line_text("www", DnsRecordType::AAAA, "::1"), "www\tIN\tAAAA\t::1");
    assert_eq!(record_line_text("ftp", DnsRecordType::CNAME, "www"), "ftp\tIN\tCNAME\twww");
    assert_eq!(record_line_text("@", DnsRecordType::MX, "mail.example.com."), "@\tIN\tMX\t10\tmail.example.com.");
    assert_eq!(record_line_text("@", DnsRecordType::NS, "ns1"), "@\tIN\tNS\tns1");
    assert_eq!(record_line_text("1", DnsRecordType::PTR, "host."), "1\tIN\tPTR\thost.");
}

#[test]
fn adding_record_bumps_serial_and_appends_line() {
    let lines = strings(&["$ttl 38400", "@ IN SOA ns. mail. ( 2024010100 ; serial", "  IN NS ns."]);
    let out = add_dns_record(&lines, "www", DnsRecordType::A, "10.0.0.1").unwrap();
    assert_eq!(
        out,
        strings(&[
            "$ttl 38400",
            "@ IN SOA ns. mail. ( 2024010101 ; serial",
            "  IN NS ns.",
            "www\tIN\tA\t10.0.0.1",
        ])
    );
}

#[test]
fn only_the_serial_field_changes() {
    let lines = strings(&["@ IN SOA ns1.example.com. admin.example.com. 1 ; serial"]);
    let out = add_dns_record(&lines, "www", DnsRecordType::A, "10.0.0.1").unwrap();
    assert_eq!(
        out,
        strings(&["@ IN SOA ns1.example.com. admin.example.com. 2 ; serial", "www\tIN\tA\t10.0.0.1"])
    );
    let twice = strings(&["@ IN SOA 5 5 ; serial"]);
    let out = add_dns_record(&twice, "@", DnsRecordType::NS, "ns1").unwrap();
    assert_eq!(out, strings(&["@ IN SOA 5 6 ; serial", "@\tIN\tNS\tns1"]));
}

#[test]
fn records_can_be_added_to_a_zone_written_here() {
    let text = zone_file_text(ZoneType::Forward, "10.0.0.1", "dns.example.com", "hostmaster.example.com", "2024061512");
    let lines = lines_of(&text);
    let found = find_soa_serial(&lines).unwrap().unwrap();
    assert_eq!(found.line, 2);
    assert_eq!(found.text, "2024061512");
    assert_eq!(found.value, 2024061512);
    let out = add_dns_record(&lines, "www", DnsRecordType::A, "10.0.0.2").unwrap();
    let mut expected = lines_of(&forward("dns.example.com", "hostmaster.example.com", "2024061513", "10.0.0.1"));
    expected.push("www\tIN\tA\t10.0.0.2".to_string());
    assert_eq!(out, expected);
}

#[test]
fn records_can_be_added_to_a_new_zone() {
    let text = new_zone_file_text(ZoneType::Forward, "10.0.0.1", "dns.example.com", "hostmaster.example.com").unwrap();
    let lines = lines_of(&text);
    let serial: u64 = lines[2].trim().strip_suffix(" ; serial").unwrap().parse().unwrap();
    let out = add_dns_record(&lines, "www", DnsRecordType::A, "10.0.0.2").unwrap();
    assert_eq!(out.len(), lines.len() + 1);
    assert_eq!(out[2], format!("                {} ; serial", serial + 1));
    assert_eq!(out[out.len() - 1], "www\tIN\tA\t10.0.0.2");
    for i in 0..lines.len() {
        if i != 2 {
            assert_eq!(out[i], lines[i]);
        }
    }
}

#[test]
fn soa_line_without_serial_looks_further() {
    let lines = strings(&["@ IN SOA ns. mail. (", "x IN SOA 7 ; serial"]);
    let found = find_soa_serial(&lines).unwrap().unwrap();
    assert_eq!(found.line, 1);
    assert_eq!(found.matched, " 7 ; serial");
    assert_eq!(found.text, "7");
    assert_eq!(found.value, 7);
}

#[test]
fn serial_before_the_soa_line_is_ignored() {
    let lines = strings(&["; 3 ; serial", "@   IN  SOA ns. mail. (", "    9 ; serial"]);
    let found = find_soa_serial(&lines).unwrap().unwrap();
    assert_eq!(found.line, 2);
    assert_eq!(found.value, 9);
    let no_soa = strings(&["  3 ; serial"]);
    assert!(find_soa_serial(&no_soa).unwrap().is_none());
}

#[test]
fn serial_too_large_to_parse_is_skipped() {
    let lines = strings(&["@ IN SOA 18446744073709551616 ; serial"]);
    assert!(find_soa_serial(&lines).unwrap().is_none());
}

#[test]
fn largest_serial_cannot_grow() {
    let lines = strings(&["@ IN SOA 18446744073709551615 ; serial"]);
    assert!(add_dns_record_checked(&lines, "a", DnsRecordType::A, "1.2.3.4").is_none());
    let ok = strings(&["@ IN SOA 18446744073709551614 ; serial"]);
    let out = add_dns_record_checked(&ok, "a", DnsRecordType::A, "1.2.3.4").unwrap().unwrap();
    assert_eq!(out[0], "@ IN SOA 18446744073709551615 ; serial");
}

#[test]
fn empty_zone_has_no_serial() {
    assert_eq!(add_dns_record(&Vec::new(), "a", DnsRecordType::A, "1.2.3.4"), Err(ZoneEditError::SerialNotFound));
    assert_ne!(ZoneEditError::SerialNotFound, ZoneEditError::PatternRejected);
}

#[test]
fn zone_text_at_a_time_uses_its_hour() {
    let t = ClockTime { year: 2024, month: 6, day: 15, hour: 12, minute: 30, second: 0 };
    assert_eq!(
        zone_file_text_at(ZoneType::Forward, "10.2.0.1", "dns.estig.pt", "mail.as.com", &t),
        forward("dns.estig.pt", "mail.as.com", "2024061512", "10.2.0.1")
    );
}

#[test]
fn only_an_existing_reverse_zone_is_kept() {
    assert!(writes_zone_file(ZoneType::Forward, false));
    assert!(writes_zone_file(ZoneType::Forward, true));
    assert!(writes_zone_file(ZoneType::Reverse, false));
    assert!(!writes_zone_file(ZoneType::Reverse, true));
}

#[test]
fn blacklist_zone_points_every_name_at_the_address() {
    let t = ClockTime { year: 2024, month: 6, day: 15, hour: 12, minute: 0, second: 0 };
    let lines = blacklist_zone_lines("0.0.0.0", "dns.example.com", "hostmaster.example.com", &t)
        .unwrap()
        .unwrap();
    let mut expected = lines_of(&forward("dns.example.com", "hostmaster.example.com", "2024061514", "0.0.0.0"));
    expected.push("@\tIN\tA\t0.0.0.0".to_string());
    expected.push("*\tIN\tA\t0.0.0.0".to_string());
    assert_eq!(lines, expected);
}
