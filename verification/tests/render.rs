use msdp::client::client::Client;
use msdp::prometheus_exporter::exporter::{
    exposition, metrics_response, record_group, scrape_target,
};
use msdp::server::proxy_server::json_response;
use msdp::structs::entry::Entry;

const ID: [u8; 16] = [
    0xe8, 0xfb, 0xe7, 0xf7, 0x83, 0x6e, 0x48, 0xed, 0xac, 0x75, 0xcd, 0xba, 0xd1, 0xa6, 0x1e,
    0xcc,
];

fn syslog(last_seen: u64) -> Entry {
    Entry {
        unique_id: ID,
        system_name: "syslog.example.net".to_string(),
        system_platform: "Linux".to_string(),
        system_version: "5.14.0-503.38.1.el9_5.x86_64".to_string(),
        keepalive_timer: 5,
        address: "10.0.0.149".to_string(),
        last_seen,
        uptime: 5 * 86400 + 21 * 3600 + 25 * 60 + 11,
        load: [0, 0, 0],
    }
}

const SYSLOG_TEXT: &str = "Entry: syslog.example.net (e8fbe7f7-836e-48ed-ac75-cdbad1a61ecc)
 \u{25aa} Address: 10.0.0.149
 \u{25aa} Platform: Linux
 \u{25aa} System version: 5.14.0-503.38.1.el9_5.x86_64
 \u{25aa} Keepalive timer: 5s
 \u{25aa} Last seen: 00:00:06
 \u{25aa} Uptime: 5d 21:25:11
 \u{25aa} Load: 0.00 0.00 0.00";

#[test]
fn entry_text_as_in_readme() {
    assert_eq!(syslog(1000).format_at(1006), SYSLOG_TEXT);
    // an entry stamped after `now` counts the distance the other way
    assert_eq!(syslog(1006).format_at(1000), SYSLOG_TEXT);
}

#[test]
fn entry_loads_with_two_decimals() {
    let mut e = syslog(0);
    e.load = [11, 60, 70];
    assert!(e.format_at(0).ends_with(" \u{25aa} Load: 0.11 0.60 0.70"));
    e.load = [65535, 100, 5];
    assert!(e.format_at(0).ends_with(" \u{25aa} Load: 655.35 1.00 0.05"));
}

#[test]
fn entry_text_with_clock() {
    let text = syslog(0).format();
    assert!(text.starts_with("Entry: syslog.example.net (e8fbe7f7-836e-48ed-ac75-cdbad1a61ecc)\n"));
    assert!(text.contains(" \u{25aa} Uptime: 5d 21:25:11\n"));
}

#[test]
fn entries_joined_by_line_breaks() {
    assert_eq!(Client::format_entries_at(&vec![], 5), "");
    let one = Client::format_entries_at(&vec![syslog(1000)], 1006);
    assert_eq!(one, SYSLOG_TEXT);
    let two = Client::format_entries_at(&vec![syslog(1000), syslog(1000)], 1006);
    assert_eq!(two, format!("{}\n{}", SYSLOG_TEXT, SYSLOG_TEXT));
    let now = Client::format_entries(&vec![syslog(0), syslog(0)]);
    assert_eq!(now.matches("Entry: ").count(), 2);
}

#[test]
fn proxy_json_response() {
    let json = "[{\"a\":\"\u{e9}\"}]".to_string();
    let r = json_response(&json);
    assert_eq!(
        r,
        "HTTP/1.1 200 OK\r\nContent-Type: application/json\r\nContent-Length: 12\r\nConnection: close\r\nAccess-Control-Allow-Origin: *\r\n\r\n[{\"a\":\"\u{e9}\"}]"
    );
}

#[test]
fn prometheus_exposition() {
    let mut e = syslog(0);
    e.uptime = 42;
    e.load = [150, 7, 200];
    let body = exposition(&vec![("proxy".to_string(), vec![e])]);
    let expected = "# HELP msdp_entry_uptime Uptime of a server\n\
# TYPE msdp_entry_uptime counter\n\
# HELP msdp_entry_load Uptime of a server\n\
# TYPE msdp_entry_load gauge\n\
msdp_entry_uptime{proxy_server_name=\"proxy\", address=\"10.0.0.149\", system_name=\"syslog.example.net\"} 42\n\
msdp_entry_load{proxy_server_name=\"proxy\", address=\"10.0.0.149\", system_name=\"syslog.example.net\", type=\"5\"} 1.5\n\
msdp_entry_load{proxy_server_name=\"proxy\", address=\"10.0.0.149\", system_name=\"syslog.example.net\", type=\"10\"} 0.07\n\
msdp_entry_load{proxy_server_name=\"proxy\", address=\"10.0.0.149\", system_name=\"syslog.example.net\", type=\"15\"} 2\n";
    assert_eq!(body, expected);
    let empty = exposition(&vec![]);
    assert_eq!(empty.lines().count(), 4);
}

#[test]
fn prometheus_response_framing() {
    let r = metrics_response(&"abc\n".to_string());
    assert_eq!(
        r,
        "HTTP/1.1 200 OK\r\nContent-Type: text/plain; version=0.0.4\r\nConnection: close\r\nContent-Length: 4\r\n\r\nabc\n"
    );
}

#[test]
fn scrape_targets() {
    let (name, addr) = scrape_target(
        &"vlan".to_string(),
        &"10.0.0.1".to_string(),
        &"10002".to_string(),
        None,
    );
    assert_eq!(name, "vlan");
    assert_eq!(addr, "10.0.0.1:10002");
    let shown = "Management VLAN".to_string();
    let (name, _) =
        scrape_target(&"vlan".to_string(), &"h".to_string(), &"1".to_string(), Some(&shown));
    assert_eq!(name, "Management VLAN");
}

#[test]
fn groups_replace_by_name() {
    let mut groups = Vec::new();
    record_group(&mut groups, "a".to_string(), vec![syslog(1)]);
    record_group(&mut groups, "b".to_string(), vec![]);
    record_group(&mut groups, "a".to_string(), vec![syslog(2), syslog(3)]);
    assert_eq!(groups.len(), 2);
    assert_eq!(groups[0].0, "a");
    assert_eq!(groups[0].1.len(), 2);
    assert_eq!(groups[1].0, "b");
}
