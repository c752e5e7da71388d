use captive_portal_finder::install::{
    dependency_report, deps, install_command, missing_deps, no_manager_report, DetectStep,
    PackageManager,
};
use captive_portal_finder::output::{deduplicate_and_sort, normalize, render_results};
use captive_portal_finder::types::{PortalUrl, Source, StatusNote};

fn portal(url: &str, source: Source, confidence: u8) -> PortalUrl {
    PortalUrl { url: url.to_owned(), source, confidence }
}

fn urls_of(v: &[PortalUrl]) -> Vec<(String, u8)> {
    v.iter().map(|p| (p.url.clone(), p.confidence)).collect()
}

#[test]
fn normalize_strips_root_slash() {
    assert_eq!(normalize("http://x/"), "http://x");
    assert_eq!(normalize("http://x"), "http://x");
    assert_eq!(normalize("http://x/a/"), "http://x/a/");
    assert_eq!(normalize("HTTP://X/"), "http://x");
    assert_eq!(normalize("not a url"), "not a url");
    assert_eq!(normalize("http://x/?next=/"), "http://x/?next=/");
    assert_eq!(normalize("http://x/#top/"), "http://x/#top/");
}

#[test]
fn dedup_sorts_by_confidence_and_keeps_best() {
    let input = vec![
        portal("http://192.168.1.1/", Source::GatewayProbe { gateway_ip: "192.168.1.1".to_owned() }, 60),
        portal("http://192.168.1.1/login.html", Source::HttpProbe { endpoint: "e".to_owned() }, 85),
        portal("http://192.168.1.1/portal", Source::DhcpLease, 95),
        portal("http://192.168.1.1", Source::NmConnectivityConf, 70),
        portal("http://192.168.1.1/login.html", Source::HttpProbe { endpoint: "f".to_owned() }, 85),
    ];
    let out = deduplicate_and_sort(input);
    assert_eq!(
        urls_of(&out),
        vec![
            ("http://192.168.1.1/portal".to_owned(), 95),
            ("http://192.168.1.1/login.html".to_owned(), 85),
            ("http://192.168.1.1".to_owned(), 70),
        ]
    );
    assert_eq!(out[1].source, Source::HttpProbe { endpoint: "e".to_owned() });
}

#[test]
fn dedup_is_idempotent_on_example() {
    let input = vec![
        portal("http://b/", Source::DhcpLease, 10),
        portal("http://a/", Source::DhcpLease, 20),
        portal("http://b", Source::DhcpLease, 30),
        portal("http://c/", Source::DhcpLease, 20),
    ];
    let once = deduplicate_and_sort(input);
    let twice = deduplicate_and_sort(once.clone());
    assert_eq!(urls_of(&once), urls_of(&twice));
    assert_eq!(
        urls_of(&once),
        vec![("http://b".to_owned(), 30), ("http://a/".to_owned(), 20), ("http://c/".to_owned(), 20)]
    );
}

#[test]
fn render_text_report() {
    let urls = vec![
        portal("http://192.168.1.1/", Source::GatewayProbe { gateway_ip: "192.168.1.1".to_owned() }, 60),
        portal("http://192.168.1.1/portal", Source::DhcpLease, 95),
    ];
    let notes = vec![StatusNote { message: "nmcli reports CONNECTIVITY=portal (captive portal confirmed)".to_owned() }];
    let rule = "\u{2500}".repeat(60);
    let expected = format!(
        "Captive portal URLs detected:\n{rule}\n {:>3}  {:<45}  [{}]\n {:>3}  {:<45}  [{}]\n{rule}\nStatus: {}\n",
        95, "http://192.168.1.1/portal", "dhcp-lease",
        60, "http://192.168.1.1/", "gateway-probe: 192.168.1.1",
        "nmcli reports CONNECTIVITY=portal (captive portal confirmed)"
    );
    assert_eq!(render_results(urls, &notes, false, false), expected);
}

#[test]
fn render_text_empty() {
    assert_eq!(render_results(vec![], &vec![], false, false), "No captive portal URLs detected.\n");
    assert_eq!(
        render_results(vec![], &vec![], false, true),
        "No captive portal URLs detected.\n(no detectors found anything)\n"
    );
}

#[test]
fn render_json_report() {
    let urls = vec![portal("http://x/\"q\"", Source::HttpProbe { endpoint: "http://e/".to_owned() }, 85)];
    let notes = vec![StatusNote { message: "say \"hi\"".to_owned() }];
    assert_eq!(
        render_results(urls, &notes, true, false),
        "[{\"url\":\"http://x/\\\"q\\\"\",\"source\":\"http-probe: http://e/\",\"confidence\":85},{\"status\":\"say \\\"hi\\\"\"}]\n"
    );
    assert_eq!(render_results(vec![], &vec![], true, false), "[]\n");
    assert_eq!(
        render_results(vec![], &vec![StatusNote { message: "a\\b\nc\td\u{1}".to_owned() }], true, false),
        "[{\"status\":\"a\\\\b\\nc\\td\\u0001\"}]\n"
    );
    assert_eq!(
        render_results(vec![], &vec![StatusNote { message: "a".to_owned() }, StatusNote { message: "b".to_owned() }], true, false),
        "[{\"status\":\"a\"},{\"status\":\"b\"}]\n"
    );
}

#[test]
fn source_labels() {
    assert_eq!(Source::DhcpLease.to_string(), "dhcp-lease");
    assert_eq!(Source::NetworkManagerDevice.to_string(), "networkmanager-device");
    assert_eq!(Source::HttpProbe { endpoint: "captive.apple.com".to_owned() }.to_string(), "http-probe: captive.apple.com");
    assert_eq!(Source::NmConnectivityConf.to_string(), "nm-connectivity-conf");
    assert_eq!(Source::GatewayProbe { gateway_ip: "192.168.1.1".to_owned() }.to_string(), "gateway-probe: 192.168.1.1");
}

/// Drives the detection steps with `in_path`; the managers probed and the end.
fn drive(in_path: &[PackageManager]) -> (Vec<PackageManager>, Option<PackageManager>) {
    let mut probed = Vec::new();
    let mut step = PackageManager::first_probe();
    loop {
        match step {
            DetectStep::Probe(pm) => {
                probed.push(pm);
                step = PackageManager::detect(pm, in_path.contains(&pm));
            }
            DetectStep::Found(pm) => return (probed, Some(pm)),
            DetectStep::NoneFound => return (probed, None),
        }
    }
}

#[test]
fn package_manager_detection_order() {
    let (apt, dnf, yum, pacman, zypper, apk) = (
        PackageManager::Apt,
        PackageManager::Dnf,
        PackageManager::Yum,
        PackageManager::Pacman,
        PackageManager::Zypper,
        PackageManager::Apk,
    );
    assert_eq!(drive(&[dnf, yum]), (vec![apt, dnf], Some(dnf)));
    assert_eq!(drive(&[apt, dnf, yum, pacman, zypper, apk]), (vec![apt], Some(apt)));
    assert_eq!(drive(&[]), (vec![apt, dnf, yum, pacman, zypper, apk], None));
    assert_eq!(drive(&[apk]), (vec![apt, dnf, yum, pacman, zypper, apk], Some(apk)));
    assert_eq!(PackageManager::detect(zypper, false), DetectStep::Probe(apk));
    assert_eq!(PackageManager::detect(apk, false), DetectStep::NoneFound);
    let names: Vec<&str> = PackageManager::all().iter().map(|p| p.name()).collect();
    assert_eq!(names, vec!["apt-get", "dnf", "yum", "pacman", "zypper", "apk"]);
}

#[test]
fn install_commands_per_manager() {
    assert_eq!(PackageManager::Apt.install_cmd(&["a", "b"]), vec!["sudo", "apt-get", "install", "-y", "a", "b"]);
    assert_eq!(PackageManager::Pacman.install_cmd(&["x"]), vec!["sudo", "pacman", "-S", "--noconfirm", "x"]);
    assert_eq!(PackageManager::Apk.install_cmd(&[]), vec!["sudo", "apk", "add"]);
    let d = deps();
    assert_eq!(d.len(), 2);
    assert_eq!(PackageManager::Yum.package_for(&d[0]), "NetworkManager");
    assert_eq!(PackageManager::Apt.package_for(&d[1]), "wpasupplicant");
    let missing = missing_deps(&d, &vec![true, false]);
    assert_eq!(missing.len(), 1);
    assert_eq!(missing[0].binary, "wpa_cli");
    assert_eq!(install_command(PackageManager::Zypper, &missing), vec!["sudo", "zypper", "install", "-y", "wpa_supplicant"]);
    assert_eq!(missing_deps(&d, &vec![]).len(), 2);
}

#[test]
fn dependency_reports() {
    let d = deps();
    assert_eq!(
        dependency_report(&d, &vec![true, true]),
        "All dependencies are already installed:\n  \u{2713}  nmcli (NetworkManager CLI (connectivity status detection))\n  \u{2713}  wpa_cli (WPA supplicant CLI (Wi-Fi connection context))\n"
    );
    assert_eq!(
        dependency_report(&d, &vec![true, false]),
        "  ok   nmcli \u{2014} NetworkManager CLI (connectivity status detection)\n  miss wpa_cli \u{2014} WPA supplicant CLI (Wi-Fi connection context)\n\n"
    );
    let missing = missing_deps(&d, &vec![false, true]);
    assert_eq!(
        no_manager_report(&missing),
        "Could not detect a supported package manager.\nPlease install the following manually:\n  nmcli (NetworkManager CLI (connectivity status detection))\n"
    );
}
