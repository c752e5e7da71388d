use captive_portal_finder::detectors::dhcp_lease::extract_quoted;
use captive_portal_finder::detectors::gateway_probe::decode_hex_ip;
use captive_portal_finder::detectors::networkmanager_device::parse_nm_device_file;
use captive_portal_finder::detectors::nm_connectivity_conf::parse_connectivity_uri;

#[test]
fn parses_quoted_uri() {
    let line = r#"  option dhcp-captive-portal-uri "http://192.168.1.1/portal";"#;
    assert_eq!(extract_quoted(line), Some("http://192.168.1.1/portal"));
}

#[test]
fn empty_string_returns_none() {
    assert_eq!(extract_quoted("option dhcp-captive-portal-uri"), None);
}

#[test]
fn decodes_typical_gateway() {
    // 0101A8C0 (LE) == 192.168.1.1
    assert_eq!(decode_hex_ip("0101A8C0"), Some("192.168.1.1".to_owned()));
}

#[test]
fn decodes_another_gateway() {
    // FE01A8C0 (LE) == 192.168.1.254
    assert_eq!(decode_hex_ip("FE01A8C0"), Some("192.168.1.254".to_owned()));
}

#[test]
fn rejects_invalid_hex() {
    assert_eq!(decode_hex_ip("ZZZZZZZZ"), None);
}

#[test]
fn finds_portal_uri_in_dhcp4_section() {
    let content = "[device]\ninterface=eth0\n[dhcp4]\nip_address=10.0.0.5\ncaptive-portal-uri=http://10.0.0.1/portal\n[dhcp6]\n";
    assert_eq!(
        parse_nm_device_file(content),
        Some("http://10.0.0.1/portal".to_owned())
    );
}

#[test]
fn ignores_uri_outside_dhcp4_section() {
    let content = "[device]\ncaptive-portal-uri=http://ignored.example/\n[dhcp4]\nip_address=10.0.0.5\n";
    assert_eq!(parse_nm_device_file(content), None);
}

#[test]
fn parses_connectivity_uri() {
    let content = "[connectivity]\nuri=http://connectivity-check.ubuntu.com./\ninterval=300\n";
    assert_eq!(
        parse_connectivity_uri(content),
        Some("http://connectivity-check.ubuntu.com./".to_owned())
    );
}
