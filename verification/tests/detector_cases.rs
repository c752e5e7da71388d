use captive_portal_finder::detectors::dhcp_lease::{
    default_lease_paths, extract_quoted, lease_file_uris, lease_paths, lease_results,
};
use captive_portal_finder::detectors::gateway_probe::{
    decode_hex_ip, gateway_ip_from_route_table, gateway_probe_url, gateway_results,
    gateway_target, is_redirection, GatewayError,
};
use captive_portal_finder::detectors::http_probe::{
    collect_probe_results, default_probes, probe_endpoints, probe_result,
};
use captive_portal_finder::detectors::networkmanager_device::{
    device_paths, device_results, parse_nm_device_file,
};
use captive_portal_finder::detectors::nm_connectivity_conf::{
    conf_dirs, connectivity_results, is_conf_file_name, parse_connectivity_uri,
};
use captive_portal_finder::detectors::nmcli::nmcli_notes;
use captive_portal_finder::detectors::wpa_supplicant::{is_interface_name, parse_wpa_status};
use captive_portal_finder::detectors::{DetectorConfig, DetectorResults};
use captive_portal_finder::types::{PortalUrl, Source, StatusNote};

fn portal(url: &str, source: Source, confidence: u8) -> PortalUrl {
    PortalUrl { url: url.to_owned(), source, confidence }
}

#[test]
fn extract_quoted_needs_text_between_quotes() {
    assert_eq!(extract_quoted("\"\""), None);
    assert_eq!(extract_quoted("a \"x\" b"), Some("x"));
    assert_eq!(extract_quoted("only \" one"), None);
    assert_eq!(extract_quoted("\"a\" and \"b\""), Some("a\" and \"b"));
}

#[test]
fn lease_file_yields_valid_uris_only() {
    let content = "lease {\n  option dhcp-captive-portal-uri \"http://192.168.1.1/portal\";\n  option dhcp-captive-portal-uri \"not a url\";\n  option routers 192.168.1.1;\n}\n";
    assert_eq!(lease_file_uris(content), vec!["http://192.168.1.1/portal".to_owned()]);
}

#[test]
fn lease_results_keep_last_occurrence() {
    let line = "option dhcp-captive-portal-uri \"http://10.0.0.1/login\";\n";
    let other = "option dhcp-captive-portal-uri \"http://10.0.0.2/login\";\n";
    let files = vec![format!("{line}{line}"), format!("{other}{line}")];
    let r = lease_results(&files);
    let urls: Vec<&str> = r.iter().map(|p| p.url.as_str()).collect();
    assert_eq!(urls, vec!["http://10.0.0.2/login", "http://10.0.0.1/login"]);
    let r2 = lease_results(&vec![format!("{line}{other}{line}{other}")]);
    let urls2: Vec<&str> = r2.iter().map(|p| p.url.as_str()).collect();
    assert_eq!(urls2, vec!["http://10.0.0.1/login", "http://10.0.0.2/login"]);
    assert!(r.iter().all(|p| p.confidence == 95 && p.source == Source::DhcpLease));
}

#[test]
fn lease_paths_overrides_replace_defaults() {
    assert_eq!(lease_paths(&vec![]), default_lease_paths());
    assert_eq!(default_lease_paths().len(), 4);
    assert_eq!(default_lease_paths()[0], "/var/lib/dhcp/dhclient.leases");
    let custom = vec!["/custom/path/leases".to_owned()];
    assert_eq!(lease_paths(&custom), custom);
}

#[test]
fn decode_hex_ip_edge_cases() {
    assert_eq!(decode_hex_ip("  0101A8C0\n"), Some("192.168.1.1".to_owned()));
    assert_eq!(decode_hex_ip("+0101a8c0"), Some("192.168.1.1".to_owned()));
    assert_eq!(decode_hex_ip("0"), Some("0.0.0.0".to_owned()));
    assert_eq!(decode_hex_ip("FFFFFFFF"), Some("255.255.255.255".to_owned()));
    assert_eq!(decode_hex_ip("100000000"), None);
    assert_eq!(decode_hex_ip(""), None);
    assert_eq!(decode_hex_ip("+"), None);
    assert_eq!(decode_hex_ip("-1"), None);
}

#[test]
fn route_table_default_gateway() {
    let table = "Iface\tDestination\tGateway \tFlags\tRefCnt\tUse\tMetric\tMask\t\tMTU\tWindow\tIRTT\n\
wlan0\t0000A8C0\t00000000\t0001\t0\t0\t600\t00FFFFFF\t0\t0\t0\n\
wlan0\t00000000\t0101A8C0\t0003\t0\t0\t600\t00000000\t0\t0\t0\n";
    assert_eq!(gateway_ip_from_route_table(table), Ok("192.168.1.1".to_owned()));
}

#[test]
fn route_table_errors() {
    let header_only = "Iface\tDestination\tGateway\n";
    assert_eq!(gateway_ip_from_route_table(header_only), Err(GatewayError::NoDefaultRoute));
    assert_eq!(gateway_ip_from_route_table(""), Err(GatewayError::NoDefaultRoute));
    let bad = "Iface\tDestination\tGateway\neth0\t00000000\tXYZ\n";
    assert_eq!(gateway_ip_from_route_table(bad), Err(GatewayError::InvalidGatewayHex));
    let no_gateway = "Iface\tDestination\tGateway\neth0\t00000000\t00000000\n";
    assert_eq!(gateway_ip_from_route_table(no_gateway), Err(GatewayError::NoDefaultRoute));
    let default_in_header = "x 00000000 0101A8C0\n";
    assert_eq!(gateway_ip_from_route_table(default_in_header), Err(GatewayError::NoDefaultRoute));
}

#[test]
fn gateway_override_skips_route_table() {
    assert_eq!(gateway_target(Some("10.0.0.1"), None), Ok("10.0.0.1".to_owned()));
    assert_eq!(gateway_target(None, None), Err(GatewayError::RouteTableUnreadable));
    assert_eq!(
        gateway_target(None, Some("h\neth0 00000000 0101A8C0\n")),
        Ok("192.168.1.1".to_owned())
    );
}

#[test]
fn gateway_probe_reports_redirect_location() {
    assert_eq!(gateway_probe_url("192.168.1.1"), "http://192.168.1.1/");
    assert!(is_redirection(302) && is_redirection(300) && is_redirection(399));
    assert!(!is_redirection(200) && !is_redirection(400) && !is_redirection(299));
    let r = gateway_results("192.168.1.1", 302, Some("http://192.168.1.1/login"));
    assert_eq!(r.len(), 1);
    assert_eq!(r[0].url, "http://192.168.1.1/login");
    assert_eq!(r[0].confidence, 60);
    assert_eq!(r[0].source, Source::GatewayProbe { gateway_ip: "192.168.1.1".to_owned() });
    assert!(gateway_results("192.168.1.1", 200, Some("http://192.168.1.1/login")).is_empty());
    assert!(gateway_results("192.168.1.1", 302, None).is_empty());
    assert!(gateway_results("192.168.1.1", 302, Some("/relative")).is_empty());
}

#[test]
fn probe_endpoints_overrides_replace_defaults() {
    let d = default_probes();
    assert_eq!(d.len(), 6);
    assert_eq!(d[0], "http://connectivity-check.ubuntu.com./");
    assert_eq!(probe_endpoints(&vec![]), d);
    let custom = vec!["http://captive.apple.com/".to_owned()];
    assert_eq!(probe_endpoints(&custom), custom);
}

#[test]
fn probe_result_resolves_relative_redirects() {
    let r = probe_result("http://captive.apple.com/hotspot", 302, Some("/login.html")).unwrap();
    assert_eq!(r.url, "http://captive.apple.com/login.html");
    assert_eq!(r.confidence, 85);
    assert_eq!(r.source, Source::HttpProbe { endpoint: "http://captive.apple.com/hotspot".to_owned() });
    let abs = probe_result("http://captive.apple.com/", 307, Some("https://portal.example/x")).unwrap();
    assert_eq!(abs.url, "https://portal.example/x");
    assert!(probe_result("http://captive.apple.com/", 200, Some("/login")).is_none());
    assert!(probe_result("http://captive.apple.com/", 302, None).is_none());
    assert!(probe_result("not a url", 302, Some("/login")).is_none());
    assert!(probe_result("http://a/", 302, Some("http://")).is_none());
}

#[test]
fn probe_results_keep_order() {
    let r = collect_probe_results(vec![
        None,
        Some(portal("http://a/", Source::HttpProbe { endpoint: "e1".to_owned() }, 85)),
        None,
        Some(portal("http://b/", Source::HttpProbe { endpoint: "e2".to_owned() }, 85)),
    ]);
    let urls: Vec<&str> = r.iter().map(|p| p.url.as_str()).collect();
    assert_eq!(urls, vec!["http://a/", "http://b/"]);
}

#[test]
fn nm_device_uri_is_unquoted_and_trimmed() {
    let content = "[dhcp4]\n  captive-portal-uri= \"http://10.0.0.1/p\" \n";
    assert_eq!(parse_nm_device_file(content), Some("http://10.0.0.1/p".to_owned()));
    let invalid_first = "[dhcp4]\ncaptive-portal-uri=nope\ncaptive-portal-uri=http://x/\n";
    assert_eq!(parse_nm_device_file(invalid_first), Some("http://x/".to_owned()));
    let paths = device_paths();
    assert_eq!(paths.len(), 16);
    assert_eq!(paths[0], "/run/NetworkManager/devices/1");
    assert_eq!(paths[15], "/run/NetworkManager/devices/16");
    let r = device_results(&vec![
        "[dhcp4]\ncaptive-portal-uri=http://a/\n".to_owned(),
        "[dhcp6]\n".to_owned(),
    ]);
    assert_eq!(r.len(), 1);
    assert_eq!(r[0].confidence, 90);
    assert_eq!(r[0].source, Source::NetworkManagerDevice);
}

#[test]
fn connectivity_conf_first_file_wins() {
    assert_eq!(parse_connectivity_uri("uri=http://x/\n"), None);
    assert_eq!(parse_connectivity_uri("[connectivity]\nuri= http://y/ \n"), Some("http://y/".to_owned()));
    assert_eq!(conf_dirs().len(), 3);
    assert!(is_conf_file_name("20-connectivity.conf"));
    assert!(!is_conf_file_name(".conf"));
    assert!(is_conf_file_name("..conf"));
    assert!(!is_conf_file_name("a.conf.bak"));
    let r = connectivity_results(&vec![
        "[main]\n".to_owned(),
        "[connectivity]\nuri=http://first/\n".to_owned(),
        "[connectivity]\nuri=http://second/\n".to_owned(),
    ]);
    assert_eq!(r.len(), 1);
    assert_eq!(r[0].url, "http://first/");
    assert_eq!(r[0].confidence, 70);
    assert!(connectivity_results(&vec![]).is_empty());
}

#[test]
fn nmcli_notes_by_state() {
    let portal = nmcli_notes("PORTAL\n");
    assert_eq!(portal.len(), 1);
    assert_eq!(portal[0].message, "nmcli reports CONNECTIVITY=portal (captive portal confirmed)");
    let limited = nmcli_notes("full\n limited \r\n");
    assert_eq!(limited.len(), 1);
    assert_eq!(limited[0].message, "nmcli reports CONNECTIVITY=limited (possible captive portal)");
    assert!(nmcli_notes("full\n").is_empty());
    assert!(nmcli_notes("").is_empty());
}

#[test]
fn wpa_status_needs_both_fields() {
    assert!(is_interface_name("wlan0"));
    assert!(!is_interface_name("wlan0.lock"));
    let text = "bssid=00:11:22:33:44:55\nssid=CafeWifi\nwpa_state=COMPLETED\n";
    assert_eq!(parse_wpa_status(text), Some(("CafeWifi".to_owned(), "COMPLETED".to_owned())));
    assert_eq!(parse_wpa_status("ssid=a\n"), None);
    assert_eq!(
        parse_wpa_status("ssid=a\nwpa_state=X\nssid=b\n"),
        Some(("b".to_owned(), "X".to_owned()))
    );
}

#[test]
fn detector_results_keep_batch_order() {
    let cfg = DetectorConfig::default();
    assert_eq!(cfg.timeout_secs, 0);
    assert!(cfg.probe_endpoints.is_empty() && cfg.dhcp_files.is_empty() && cfg.gateway_ip.is_none());
    let r = DetectorResults::from_batches(
        vec![
            vec![portal("http://a/", Source::DhcpLease, 95)],
            vec![],
            vec![portal("http://b/", Source::NmConnectivityConf, 70), portal("http://c/", Source::NmConnectivityConf, 70)],
        ],
        vec![StatusNote { message: "m".to_owned() }],
    );
    let urls: Vec<&str> = r.urls.iter().map(|p| p.url.as_str()).collect();
    assert_eq!(urls, vec!["http://a/", "http://b/", "http://c/"]);
    assert_eq!(r.notes.len(), 1);
}
