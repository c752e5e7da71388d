//! Known connectivity-check endpoints, probed over HTTP: on a captive
//! portal they are redirected to the login page.
use vstd::prelude::*;
use crate::detectors::gateway_probe::{is_redirection, is_redirection_status};
use crate::text::{chars_of, clone_strings, has_prefix, opt_str, starts_with, strings};
use crate::types::{portal_views, PortalUrl, PortalUrlView, Source, SourceView};
use crate::urls::{is_valid_url, join_url, url_join_spec, url_parse_spec};

verus! {

/// The endpoints probed when no override is given.
pub open spec fn default_probes_spec() -> Seq<Seq<char>> {
    seq![
        "http://connectivity-check.ubuntu.com./"@,
        "http://captive.apple.com/"@,
        "http://www.gstatic.com/generate_204"@,
        "http://detectportal.firefox.com/success.txt"@,
        "http://nmcheck.gnome.org/check_network_status.txt"@,
        "http://network-test.debian.org/nm"@,
    ]
}

/// The connectivity-check endpoints of major OS and browser vendors.
pub fn default_probes() -> (r: Vec<String>)
    ensures
        strings(r@) == default_probes_spec(),
{
    let mut r: Vec<String> = Vec::new();
    r.push(String::from_str("http://connectivity-check.ubuntu.com./"));
    r.push(String::from_str("http://captive.apple.com/"));
    r.push(String::from_str("http://www.gstatic.com/generate_204"));
    r.push(String::from_str("http://detectportal.firefox.com/success.txt"));
    r.push(String::from_str("http://nmcheck.gnome.org/check_network_status.txt"));
    r.push(String::from_str("http://network-test.debian.org/nm"));
    assert(strings(r@) =~= default_probes_spec());
    r
}

/// The endpoints to probe: the overrides when any are given (they replace
/// the defaults entirely), else the defaults.
pub fn probe_endpoints(overrides: &Vec<String>) -> (r: Vec<String>)
    ensures
        strings(r@) == if overrides.len() > 0 {
            strings(overrides@)
        } else {
            default_probes_spec()
        },
{
    if overrides.len() > 0 {
        clone_strings(overrides)
    } else {
        default_probes()
    }
}

/// Where a redirect to `location` leads from `endpoint`: an absolute
/// `http://` or `https://` location as it stands, any other resolved
/// against the endpoint.
pub open spec fn resolve_location_spec(endpoint: Seq<char>, location: Seq<char>) -> Option<
    Seq<char>,
> {
    if has_prefix(location, "http://"@) || has_prefix(location, "https://"@) {
        Some(location)
    } else if url_parse_spec(endpoint) is Some {
        url_join_spec(endpoint, location)
    } else {
        None
    }
}

/// What probing `endpoint` reports, given the status of the answer and its
/// `Location` header (`None` when absent or not visible ASCII): the
/// resolved location, where the answer is a redirect and the resolved
/// location parses as a URL.
pub open spec fn probe_result_spec(endpoint: Seq<char>, status: u16, location: Option<Seq<char>>) -> Option<
    PortalUrlView,
> {
    if !is_redirection_status(status) {
        None
    } else {
        match location {
            None => None,
            Some(l) => match resolve_location_spec(endpoint, l) {
                Some(u) => if url_parse_spec(u) is Some {
                    Some(
                        PortalUrlView {
                            url: u,
                            source: SourceView::HttpProbe { endpoint },
                            confidence: 85,
                        },
                    )
                } else {
                    None
                },
                None => None,
            },
        }
    }
}

/// Resolves a redirect location against the probed endpoint.
fn resolve_location(endpoint: &str, location: &str) -> (r: Option<String>)
    ensures
        match r {
            Some(u) => resolve_location_spec(endpoint@, location@) == Some(u@),
            None => resolve_location_spec(endpoint@, location@) is None,
        },
{
    let l = chars_of(location);
    if starts_with(&l, &chars_of("http://")) || starts_with(&l, &chars_of("https://")) {
        Some(location.to_owned())
    } else {
        join_url(endpoint, location)
    }
}

/// The portal URL that one probe's answer reveals, if any.
pub fn probe_result(endpoint: &str, status: u16, location: Option<&str>) -> (r: Option<PortalUrl>)
    ensures
        match r {
            Some(p) => probe_result_spec(endpoint@, status, opt_str(location)) == Some(p@),
            None => probe_result_spec(endpoint@, status, opt_str(location)) is None,
        },
{
    if !is_redirection(status) {
        return None;
    }
    match location {
        None => None,
        Some(l) => match resolve_location(endpoint, l) {
            Some(resolved) => {
                if is_valid_url(resolved.as_str()) {
                    Some(
                        PortalUrl {
                            url: resolved,
                            source: Source::HttpProbe { endpoint: endpoint.to_owned() },
                            confidence: 85,
                        },
                    )
                } else {
                    None
                }
            },
            None => None,
        },
    }
}

/// The views of optional portal URLs.
pub open spec fn optional_views(s: Seq<Option<PortalUrl>>) -> Seq<Option<PortalUrlView>> {
    s.map_values(
        |o: Option<PortalUrl>|
            match o {
                Some(p) => Some(p@),
                None => None,
            },
    )
}

/// The present values of `s`, in order.
pub open spec fn present(s: Seq<Option<PortalUrlView>>) -> Seq<PortalUrlView>
    decreases s.len(),
{
    if s.len() == 0 {
        Seq::empty()
    } else {
        match s.last() {
            Some(p) => present(s.drop_last()).push(p),
            None => present(s.drop_last()),
        }
    }
}

/// The portal URLs that the probes revealed, in the order of the probes.
pub fn collect_probe_results(results: Vec<Option<PortalUrl>>) -> (r: Vec<PortalUrl>)
    ensures
        portal_views(r@) == present(optional_views(results@)),
{
    let ghost s = optional_views(results@);
    let mut r: Vec<PortalUrl> = Vec::new();
    let mut i: usize = 0;
    while i < results.len()
        invariant
            i <= results.len(),
            s == optional_views(results@),
            portal_views(r@) == present(s.take(i as int)),
        decreases results.len() - i,
    {
        assert(s.take(i + 1).drop_last() == s.take(i as int));
        assert(s.take(i + 1).last() == s[i as int]);
        match &results[i] {
            Some(p) => {
                let ghost before = r@;
                r.push(p.duplicate());
                assert(portal_views(r@) =~= portal_views(before).push(p@));
            },
            None => {},
        }
        i = i + 1;
    }
    assert(s.take(results.len() as int) == s);
    r
}

/// A redirect's location that is not an absolute `http://` or `https://`
/// URL (`login.html`, `/login`, `?x`, ...) is joined to the probed
/// endpoint with the URL join, whatever its first character, and reported
/// when the joined URL parses; an absolute one is reported as it stands
/// when it parses; an answer that is no redirect reports nothing.
pub proof fn law_relative_redirects_are_joined(
    endpoint: Seq<char>,
    status: u16,
    location: Seq<char>,
)
    ensures
        !(300 <= status && status < 400) ==> probe_result_spec(endpoint, status, Some(location))
            is None,
        300 <= status && status < 400 && !has_prefix(location, "http://"@) && !has_prefix(
            location,
            "https://"@,
        ) && url_parse_spec(endpoint) is Some ==> probe_result_spec(
            endpoint,
            status,
            Some(location),
        ) == match url_join_spec(endpoint, location) {
            Some(u) => if url_parse_spec(u) is Some {
                Some(
                    PortalUrlView {
                        url: u,
                        source: SourceView::HttpProbe { endpoint },
                        confidence: 85,
                    },
                )
            } else {
                None
            },
            None => None,
        },
        300 <= status && status < 400 && (has_prefix(location, "http://"@) || has_prefix(
            location,
            "https://"@,
        )) ==> probe_result_spec(endpoint, status, Some(location)) == if url_parse_spec(
            location,
        ) is Some {
            Some(
                PortalUrlView {
                    url: location,
                    source: SourceView::HttpProbe { endpoint },
                    confidence: 85,
                },
            )
        } else {
            None
        },
{
}

} // verus!
