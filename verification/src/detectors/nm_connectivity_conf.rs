//! The connectivity-check URI configured for NetworkManager in its
//! `conf.d` directories.
use vstd::prelude::*;
use crate::detectors::section::{find_section_url, section_url};
use crate::text::{chars_of, ends_with, has_suffix, lines_spec, strings};
use crate::types::{portal_views, PortalUrl, PortalUrlView, Source, SourceView};

verus! {

/// The URI that a configuration file gives: the first `uri=` entry of its
/// `[connectivity]` section, trimmed, that parses as a URL.
pub open spec fn connectivity_uri_spec(content: Seq<char>) -> Option<Seq<char>> {
    section_url(lines_spec(content), false, "[connectivity]"@, "uri="@, false)
}

/// The connectivity-check URI that a NetworkManager configuration file
/// sets, if any.
pub fn parse_connectivity_uri(content: &str) -> (r: Option<String>)
    ensures
        match r {
            Some(u) => connectivity_uri_spec(content@) == Some(u@),
            None => connectivity_uri_spec(content@) is None,
        },
{
    find_section_url(content, "[connectivity]", "uri=", false)
}

/// The configuration directories searched, in order.
pub open spec fn conf_dirs_spec() -> Seq<Seq<char>> {
    seq![
        "/usr/lib/NetworkManager/conf.d"@,
        "/etc/NetworkManager/conf.d"@,
        "/run/NetworkManager/conf.d"@,
    ]
}

/// The NetworkManager `conf.d` directories of the common distributions.
pub fn conf_dirs() -> (r: Vec<String>)
    ensures
        strings(r@) == conf_dirs_spec(),
{
    let mut r: Vec<String> = Vec::new();
    r.push(String::from_str("/usr/lib/NetworkManager/conf.d"));
    r.push(String::from_str("/etc/NetworkManager/conf.d"));
    r.push(String::from_str("/run/NetworkManager/conf.d"));
    assert(strings(r@) =~= conf_dirs_spec());
    r
}

/// Whether a file name has the extension `conf`: it ends with `.conf` and
/// something stands before that dot.
pub open spec fn is_conf_name_spec(name: Seq<char>) -> bool {
    has_suffix(name, ".conf"@) && name.len() > ".conf"@.len()
}

/// Whether a directory entry's file name has the extension `conf`.
pub fn is_conf_file_name(name: &str) -> (r: bool)
    ensures
        r == is_conf_name_spec(name@),
{
    let v = chars_of(name);
    let suffix = chars_of(".conf");
    ends_with(&v, &suffix) && v.len() > suffix.len()
}

/// The URI of the first file, in the order read, that sets one.
pub open spec fn first_conf_uri(files: Seq<Seq<char>>) -> Option<Seq<char>>
    decreases files.len(),
{
    if files.len() == 0 {
        None
    } else {
        match connectivity_uri_spec(files[0]) {
            Some(u) => Some(u),
            None => first_conf_uri(files.drop_first()),
        }
    }
}

/// The portal URL reported for a configured URI.
pub open spec fn conf_portal(u: Seq<char>) -> PortalUrlView {
    PortalUrlView { url: u, source: SourceView::NmConnectivityConf, confidence: 70 }
}

/// The portal URL that the configuration gives, from the contents of the
/// `.conf` files that could be read, in the order searched: that of the
/// first file that sets a URI.
pub fn connectivity_results(contents: &Vec<String>) -> (r: Vec<PortalUrl>)
    ensures
        portal_views(r@) == match first_conf_uri(strings(contents@)) {
            Some(u) => seq![conf_portal(u)],
            None => Seq::<PortalUrlView>::empty(),
        },
{
    let ghost files = strings(contents@);
    let mut i: usize = 0;
    assert(files.skip(0) == files);
    while i < contents.len()
        invariant
            i <= contents.len(),
            files == strings(contents@),
            first_conf_uri(files) == first_conf_uri(files.skip(i as int)),
        decreases contents.len() - i,
    {
        assert(files.skip(i as int)[0] == contents@[i as int]@);
        assert(files.skip(i as int).drop_first() == files.skip(i + 1));
        match parse_connectivity_uri(contents[i].as_str()) {
            Some(uri) => {
                let mut r: Vec<PortalUrl> = Vec::new();
                let ghost u = uri@;
                r.push(PortalUrl { url: uri, source: Source::NmConnectivityConf, confidence: 70 });
                assert(portal_views(r@) =~= seq![conf_portal(u)]);
                return r;
            },
            None => {},
        }
        i = i + 1;
    }
    let r: Vec<PortalUrl> = Vec::new();
    assert(portal_views(r@) =~= Seq::<PortalUrlView>::empty());
    r
}

} // verus!
