use sysadmin::httpd::is_removable_domain;
use sysadmin::text::path_join_text;
use sysadmin::httpd::{
    document_root_text, ensure_listen_directive, index_html_path_text, listen_directive_text,
    vhost_conf_path_text, vhost_config_text, welcome_page_text,
};

fn strings(v: &[&str]) -> Vec<String> {
    v.iter().map(|s| s.to_string()).collect()
}

#[test]
fn paths_of_a_domain() {
    assert_eq!(document_root_text("example.com"), "/var/www/html/example.com");
    assert_eq!(vhost_conf_path_text("example.com"), "/etc/httpd/conf.d/example.com.conf");
    assert_eq!(index_html_path_text("example.com"), "/var/www/html/example.com/index.html");
}

#[test]
fn path_join_follows_std() {
    for (base, rel) in [("/a", "b"), ("/a/", "b"), ("", "b"), ("/a", "/b"), ("/a", "")] {
        let expected = std::path::Path::new(base).join(rel);
        assert_eq!(path_join_text(base, rel), expected.to_str().unwrap());
    }
}

#[test]
fn welcome_page() {
    let domain = "example.com";
    let expected = format!(
        r#"<!DOCTYPE html>
        <html lang="en">
        <head>
        <meta charset="UTF-8">
        <meta name="viewport" content="width=device-width, initial-scale=1.0">
        <title>Welcome to {domain}</title>
        </head>
        <body>
        <p>boas-vindas</p>
        </body>
        </html>"#,
    );
    assert_eq!(welcome_page_text(domain), expected);
}

#[test]
fn vhost_config() {
    let domain = "example.com";
    let ip = "10.0.0.5";
    let root = "/var/www/html/example.com";
    let expected = format!(
        r#"<VirtualHost {ip}:80>
            ServerName {domain}
            ServerAlias www.{domain}
            DocumentRoot "{}"
            <Directory "{}" >
                Options Indexes FollowSymLinks
                AllowOverride All
                Order allow,deny
                Allow from all
                Require method GET POST OPTIONS
            </Directory>
        </VirtualHost>"#,
        root, root
    );
    assert_eq!(vhost_config_text(domain, ip), expected);
}

#[test]
fn listen_directive_is_appended_after_blank_line() {
    let lines = strings(&["ServerRoot \"/etc/httpd\"", "Listen 8080"]);
    let out = ensure_listen_directive(&lines, "10.0.0.5");
    assert_eq!(out, strings(&["ServerRoot \"/etc/httpd\"", "Listen 8080", "", "Listen 10.0.0.5:80"]));
    assert_eq!(ensure_listen_directive(&out, "10.0.0.5"), out);
}

#[test]
fn existing_listen_lines_are_kept() {
    for line in ["Listen 80", "  Listen *:80  ", "\tListen 10.0.0.5:80"] {
        let lines = strings(&["a", line]);
        assert_eq!(ensure_listen_directive(&lines, "10.0.0.5"), lines);
    }
    assert_eq!(listen_directive_text("0.0.0.0"), "Listen 0.0.0.0:80");
}

#[test]
fn removable_domains() {
    assert!(is_removable_domain("example.com"));
    assert!(is_removable_domain("0.168.192.example.com"));
    assert!(!is_removable_domain(""));
    assert!(!is_removable_domain("."));
    assert!(!is_removable_domain(".."));
    assert!(!is_removable_domain("a/b"));
    assert!(!is_removable_domain("../etc"));
    assert!(is_removable_domain("..a"));
}
