use sysadmin::named_conf::{
    edit_named_conf, remove_zone_entries, reverse_zone_name, zone_declaration_text, ConfEditError,
};

fn strings(v: &[&str]) -> Vec<String> {
    v.iter().map(|s| s.to_string()).collect()
}

const DECL: &str = "\n    zone \"example.com\" IN {\n        type master;\n        file \"/var/named/example.com.hosts\";\n    };\n    ";

#[test]
fn listen_on_with_addresses_gets_any_appended() {
    let lines = strings(&[
        "options {",
        "    listen-on port 53 { 127.0.0.1; };",
        "    allow-query     { localhost; };",
        "};",
    ]);
    let out = edit_named_conf(&lines, "example.com").unwrap();
    assert_eq!(
        out,
        strings(&[
            "options {",
            "listen-on port 53 { 127.0.0.1;  any;};",
            "allow-query     { localhost;  any;};",
            "};",
            DECL,
        ])
    );
}

#[test]
fn empty_listen_on_gets_default_address() {
    let lines = strings(&["listen-on port 53 {};"]);
    let out = edit_named_conf(&lines, "example.com").unwrap();
    assert_eq!(out[0], "listen-on port 53 { 127.0.0.1; any; };");
}

#[test]
fn listen_on_without_semicolon_gets_one() {
    let lines = strings(&["listen-on port 53 { 127.0.0.1 };"]);
    let out = edit_named_conf(&lines, "example.com").unwrap();
    assert_eq!(out[0], "listen-on port 53 { 127.0.0.1 ; any;};");
}

#[test]
fn listen_on_with_any_is_left_alone() {
    let lines = strings(&["  listen-on port 53 { 127.0.0.1; any; };"]);
    let out = edit_named_conf(&lines, "example.com").unwrap();
    assert_eq!(out[0], "  listen-on port 53 { 127.0.0.1; any; };");
}

#[test]
fn only_first_listen_on_is_rewritten() {
    let lines = strings(&["listen-on port 53 { 10.0.0.1; };", "listen-on port 53 { 10.0.0.2; };"]);
    let out = edit_named_conf(&lines, "example.com").unwrap();
    assert_eq!(out[0], "listen-on port 53 { 10.0.0.1;  any;};");
    assert_eq!(out[1], "listen-on port 53 { 10.0.0.2; };");
}

#[test]
fn allow_query_is_opened_to_any() {
    let lines = strings(&["\tallow-query     { localhost; };"]);
    let out = edit_named_conf(&lines, "example.com").unwrap();
    assert_eq!(out[0], "allow-query     { localhost;  any;};");
    let lines = strings(&["allow-query {};"]);
    let out = edit_named_conf(&lines, "example.com").unwrap();
    assert_eq!(out[0], "allow-query { localhost; any; };");
    let lines = strings(&["allow-query { any; };"]);
    assert_eq!(edit_named_conf(&lines, "example.com").unwrap()[0], "allow-query { any; };");
}

#[test]
fn declared_zone_is_not_declared_again() {
    let lines = strings(&["zone \"example.com\" IN {", "};"]);
    let out = edit_named_conf(&lines, "example.com").unwrap();
    assert_eq!(out, lines);
}

#[test]
fn zone_declaration_text_matches_named_conf_layout() {
    assert_eq!(zone_declaration_text("example.com"), DECL);
}

#[test]
fn conf_edit_error_variants_compare() {
    assert_ne!(ConfEditError::PatternRejected, ConfEditError::GroupMissing);
}

#[test]
fn removing_zone_drops_its_whole_statement() {
    let content = "options {};\nzone \"x.com\" IN {\n\ttype master;\n\tfile \"/var/named/x.com.hosts\";\n};\nzone \"y.com\" IN {\n};\n";
    assert_eq!(remove_zone_entries(content, "x.com"), "options {};\nzone \"y.com\" IN {\n};");
}

#[test]
fn removing_one_line_zone_strips_carriage_returns() {
    assert_eq!(remove_zone_entries("a\r\nzone \"d\" IN { type master; };\r\nb", "d"), "a\nb");
}

#[test]
fn removing_reverse_zone_keeps_longer_names() {
    let content = "zone \"0.168.192.example.com\" IN { type master; };\nzone \"10.0.168.192.example.com\" IN { type master; };\n";
    let name = reverse_zone_name("192.168.0.10", "example.com").unwrap();
    assert_eq!(name, "0.168.192.example.com");
    assert_eq!(
        remove_zone_entries(content, &name),
        "zone \"10.0.168.192.example.com\" IN { type master; };"
    );
}

#[test]
fn declaring_then_removing_a_zone_restores_the_conf() {
    let conf = "options {\n\tdirectory \"/var/named\";\n};\n";
    let lines: Vec<String> = conf.lines().map(|l| l.to_string()).collect();
    let edited = edit_named_conf(&lines, "example.com").unwrap();
    let written = sysadmin::text::render_lines(&edited);
    let removed = remove_zone_entries(&written, "example.com");
    let non_blank: Vec<&str> = removed.lines().filter(|l| !l.trim().is_empty()).collect();
    assert_eq!(non_blank, conf.lines().collect::<Vec<_>>());
    let mut expected: Vec<&str> = conf.lines().collect();
    expected.push("");
    expected.push("    ");
    assert_eq!(removed.lines().collect::<Vec<_>>(), expected);
}

#[test]
fn reverse_zone_reverses_first_three_octets() {
    assert_eq!(reverse_zone_name("192.168.0.1", "example.com"), Some("0.168.192.example.com".to_string()));
}

#[test]
fn reverse_zone_needs_four_parts() {
    assert_eq!(reverse_zone_name("192.168.0", "example.com"), None);
    assert_eq!(reverse_zone_name("1.2.3.4.5", "example.com"), None);
    assert_eq!(reverse_zone_name("", "example.com"), None);
}

#[test]
fn removed_zone_is_declared_again() {
    let conf = "options {};\n\n    zone \"example.com\" IN {\n        type master;\n    };\n";
    let removed = remove_zone_entries(conf, "example.com");
    let lines: Vec<String> = removed.lines().map(|l| l.to_string()).collect();
    assert!(!lines.iter().any(|l| l.contains("zone \"example.com\" IN")));
    let edited = edit_named_conf(&lines, "example.com").unwrap();
    assert_eq!(edited.last().unwrap(), DECL);
}

#[test]
fn second_edit_changes_nothing() {
    let lines = strings(&[
        "options {",
        "    listen-on port 53 { 127.0.0.1; };",
        "    allow-query     { localhost; };",
        "};",
    ]);
    let once = edit_named_conf(&lines, "example.com").unwrap();
    let twice = edit_named_conf(&once, "example.com").unwrap();
    assert_eq!(twice, once);
    let empty = strings(&["listen-on port 53 {};", "allow-query {};"]);
    let once = edit_named_conf(&empty, "example.com").unwrap();
    assert_eq!(once[0], "listen-on port 53 { 127.0.0.1; any; };");
    assert_eq!(once[1], "allow-query { localhost; any; };");
    assert_eq!(edit_named_conf(&once, "example.com").unwrap(), once);
}
