//! The captive-portal URI that NetworkManager stored for a device after
//! parsing DHCP, in its per-device state files.
use vstd::prelude::*;
use crate::detectors::section::{find_section_url, section_url};
use crate::text::{append_chars, chars_of, decimal, decimal_of, lines_spec, string_of, strings};
use crate::types::{portal_views, PortalUrl, PortalUrlView, Source, SourceView};

verus! {

/// The URI that a device state file gives: the first
/// `captive-portal-uri=` entry of its `[dhcp4]` section, trimmed and
/// unquoted, that parses as a URL.
pub open spec fn nm_device_uri_spec(content: Seq<char>) -> Option<Seq<char>> {
    section_url(lines_spec(content), false, "[dhcp4]"@, "captive-portal-uri="@, true)
}

/// Parses an INI-style NetworkManager device file, returning the
/// captive-portal URI of its `[dhcp4]` section if present.
pub fn parse_nm_device_file(content: &str) -> (r: Option<String>)
    ensures
        match r {
            Some(u) => nm_device_uri_spec(content@) == Some(u@),
            None => nm_device_uri_spec(content@) is None,
        },
{
    find_section_url(content, "[dhcp4]", "captive-portal-uri=", true)
}

/// The device state files: NetworkManager writes one per device index,
/// typically 1 to 16.
pub open spec fn device_paths_spec() -> Seq<Seq<char>> {
    Seq::new(16, |k: int| "/run/NetworkManager/devices/"@ + decimal((k + 1) as nat))
}

/// The device state files to read, in order.
pub fn device_paths() -> (r: Vec<String>)
    ensures
        strings(r@) == device_paths_spec(),
{
    let prefix = chars_of("/run/NetworkManager/devices/");
    let mut r: Vec<String> = Vec::new();
    let mut i: u64 = 1;
    while i <= 16
        invariant
            1 <= i <= 17,
            prefix@ == "/run/NetworkManager/devices/"@,
            strings(r@) == device_paths_spec().take(i - 1),
        decreases 17 - i,
    {
        let mut path: Vec<char> = Vec::new();
        append_chars(&mut path, &prefix);
        append_chars(&mut path, &decimal_of(i));
        let ghost before = r@;
        let item = string_of(&path);
        assert(item@ == device_paths_spec()[i - 1]);
        r.push(item);
        assert(strings(r@) =~= strings(before).push(item@));
        assert(device_paths_spec().take(i as int) =~= device_paths_spec().take(i - 1).push(
            device_paths_spec()[i - 1],
        ));
        i = i + 1;
    }
    assert(device_paths_spec().take(16) == device_paths_spec());
    r
}

/// The URIs that the readable device files give, in order.
pub open spec fn device_uris(files: Seq<Seq<char>>) -> Seq<Seq<char>>
    decreases files.len(),
{
    if files.len() == 0 {
        Seq::empty()
    } else {
        match nm_device_uri_spec(files.last()) {
            Some(u) => device_uris(files.drop_last()).push(u),
            None => device_uris(files.drop_last()),
        }
    }
}

/// The portal URL reported for a device URI.
pub open spec fn device_portal(u: Seq<char>) -> PortalUrlView {
    PortalUrlView { url: u, source: SourceView::NetworkManagerDevice, confidence: 90 }
}

/// The portal URLs that the device files give, from the contents of those
/// that could be read, in order.
pub fn device_results(contents: &Vec<String>) -> (r: Vec<PortalUrl>)
    ensures
        portal_views(r@) == device_uris(strings(contents@)).map_values(
            |u: Seq<char>| device_portal(u),
        ),
{
    let ghost files = strings(contents@);
    let mut r: Vec<PortalUrl> = Vec::new();
    let mut i: usize = 0;
    while i < contents.len()
        invariant
            i <= contents.len(),
            files == strings(contents@),
            portal_views(r@) == device_uris(files.take(i as int)).map_values(
                |u: Seq<char>| device_portal(u),
            ),
        decreases contents.len() - i,
    {
        assert(files.take(i + 1).drop_last() == files.take(i as int));
        assert(files.take(i + 1).last() == contents@[i as int]@);
        match parse_nm_device_file(contents[i].as_str()) {
            Some(url) => {
                let ghost before = r@;
                let ghost u = url@;
                r.push(PortalUrl { url, source: Source::NetworkManagerDevice, confidence: 90 });
                assert(device_uris(files.take(i + 1)) == device_uris(files.take(i as int)).push(u));
                assert(portal_views(r@) =~= portal_views(before).push(device_portal(u)));
                assert(portal_views(r@) =~= device_uris(files.take(i + 1)).map_values(
                    |u: Seq<char>| device_portal(u),
                ));
            },
            None => {},
        }
        i = i + 1;
    }
    assert(files.take(contents.len() as int) == files);
    r
}

} // verus!
