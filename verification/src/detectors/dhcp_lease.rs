//! Captive-portal URIs that a DHCP server advertised (option 114), as
//! dhclient records them in its lease files.
use vstd::prelude::*;
use crate::text::{
    char_vecs, chars_of, clone_strings, has_prefix, lines_of, lines_spec, string_of, strings,
    starts_with, trim_chars, trim_spec,
};
use crate::types::{portal_views, PortalUrl, PortalUrlView, Source, SourceView};
use crate::urls::{is_valid_url, url_parse_spec};

verus! {

/// The index of the first `c` in `s`, or `s.len()` when there is none.
pub open spec fn first_index(s: Seq<char>, c: char) -> int
    decreases s.len(),
{
    if s.len() == 0 {
        0
    } else if s[0] == c {
        0
    } else {
        1 + first_index(s.drop_first(), c)
    }
}

/// The index of the last `c` in `s`, or `-1` when there is none.
pub open spec fn last_index(s: Seq<char>, c: char) -> int
    decreases s.len(),
{
    if s.len() == 0 {
        -1
    } else if s.last() == c {
        s.len() - 1
    } else {
        last_index(s.drop_last(), c)
    }
}

/// The text between the first and the last double quote of `line`, when
/// there is at least one character between them.
pub open spec fn extract_quoted_spec(line: Seq<char>) -> Option<Seq<char>> {
    let first = first_index(line, '"');
    let last = last_index(line, '"');
    if first + 1 < last {
        Some(line.subrange(first + 1, last))
    } else {
        None
    }
}

proof fn lemma_first_index(s: Seq<char>, c: char, i: int)
    requires
        0 <= i <= s.len(),
        forall|j: int| 0 <= j < i ==> s[j] != c,
        i == s.len() || s[i] == c,
    ensures
        first_index(s, c) == i,
    decreases i,
{
    if i > 0 {
        lemma_first_index(s.drop_first(), c, i - 1);
    }
}

proof fn lemma_last_index(s: Seq<char>, c: char, i: int)
    requires
        -1 <= i < s.len(),
        forall|j: int| i < j < s.len() ==> s[j] != c,
        i == -1 || s[i] == c,
    ensures
        last_index(s, c) == i,
    decreases s.len(),
{
    if s.len() > 0 && i < s.len() - 1 {
        lemma_last_index(s.drop_last(), c, i);
    }
}

/// The text between the first and the last `"` of `line`, if any
/// character stands between them.
pub fn extract_quoted(line: &str) -> (r: Option<&str>)
    ensures
        match r {
            Some(q) => extract_quoted_spec(line@) == Some(q@),
            None => extract_quoted_spec(line@) is None,
        },
{
    let v = chars_of(line);
    let mut first: usize = 0;
    while first < v.len() && v[first] != '"'
        invariant
            first <= v.len(),
            forall|j: int| 0 <= j < first ==> v@[j] != '"',
        decreases v.len() - first,
    {
        first = first + 1;
    }
    proof {
        lemma_first_index(v@, '"', first as int);
    }
    let mut end: usize = v.len();
    while end > 0 && v[end - 1] != '"'
        invariant
            end <= v.len(),
            forall|j: int| end <= j < v.len() ==> v@[j] != '"',
        decreases end,
    {
        end = end - 1;
    }
    proof {
        lemma_last_index(v@, '"', end - 1);
    }
    if end > 1 && first < end - 2 {
        Some(line.substring_char(first + 1, end - 1))
    } else {
        None
    }
}

/// The URI that one lease-file line advertises: a line that starts, after
/// trimming, with `option dhcp-captive-portal-uri` and quotes a URL that
/// parses.
pub open spec fn lease_line_uri(line: Seq<char>) -> Option<Seq<char>> {
    let t = trim_spec(line);
    if has_prefix(t, "option dhcp-captive-portal-uri"@) {
        match extract_quoted_spec(t) {
            Some(u) => if url_parse_spec(u) is Some {
                Some(u)
            } else {
                None
            },
            None => None,
        }
    } else {
        None
    }
}

/// The URIs that the lines advertise, in order.
pub open spec fn lease_uris(lines: Seq<Seq<char>>) -> Seq<Seq<char>>
    decreases lines.len(),
{
    if lines.len() == 0 {
        Seq::empty()
    } else {
        let r = lease_uris(lines.drop_last());
        match lease_line_uri(lines.last()) {
            Some(u) => r.push(u),
            None => r,
        }
    }
}

/// The URIs that the lease files advertise, file after file.
pub open spec fn all_lease_uris(files: Seq<Seq<char>>) -> Seq<Seq<char>>
    decreases files.len(),
{
    if files.len() == 0 {
        Seq::empty()
    } else {
        all_lease_uris(files.drop_last()) + lease_uris(lines_spec(files.last()))
    }
}

/// The distinct entries of `s`, each placed at its last occurrence: an
/// entry is kept unless it occurs again later.
pub open spec fn keep_last(s: Seq<Seq<char>>) -> Seq<Seq<char>>
    decreases s.len(),
{
    if s.len() == 0 {
        s
    } else if s.drop_first().contains(s[0]) {
        keep_last(s.drop_first())
    } else {
        seq![s[0]] + keep_last(s.drop_first())
    }
}

proof fn lemma_keep_last(s: Seq<Seq<char>>)
    ensures
        forall|x: Seq<char>| keep_last(s).contains(x) <==> s.contains(x),
        forall|i: int, j: int|
            0 <= i < j < keep_last(s).len() ==> keep_last(s)[i] != keep_last(s)[j],
    decreases s.len(),
{
    if s.len() > 0 {
        let d = s.drop_first();
        lemma_keep_last(d);
        let k = keep_last(d);
        assert forall|x: Seq<char>| s.contains(x) <==> d.contains(x) || x == s[0] by {
            if s.contains(x) && x != s[0] {
                let i = choose|i: int| 0 <= i < s.len() && s[i] == x;
                assert(d[i - 1] == x);
            }
            if d.contains(x) {
                let i = choose|i: int| 0 <= i < d.len() && d[i] == x;
                assert(s[i + 1] == x);
            }
            if x == s[0] {
                assert(s.contains(s[0]));
            }
        }
        if !d.contains(s[0]) {
            let r = seq![s[0]] + k;
            assert forall|x: Seq<char>| r.contains(x) <==> s.contains(x) by {
                if r.contains(x) && x != s[0] {
                    let i = choose|i: int| 0 <= i < r.len() && r[i] == x;
                    assert(k[i - 1] == x);
                }
                if k.contains(x) {
                    let i = choose|i: int| 0 <= i < k.len() && k[i] == x;
                    assert(r[i + 1] == x);
                }
                assert(r[0] == s[0]);
            }
            assert forall|i: int, j: int| 0 <= i < j < r.len() implies r[i] != r[j] by {
                if i == 0 {
                    assert(r[j] == k[j - 1]);
                    assert(k.contains(k[j - 1]));
                } else {
                    assert(r[i] == k[i - 1] && r[j] == k[j - 1]);
                }
            }
        }
    }
}

/// The portal URL reported for an advertised URI.
pub open spec fn lease_portal(u: Seq<char>) -> PortalUrlView {
    PortalUrlView { url: u, source: SourceView::DhcpLease, confidence: 95 }
}

/// What the detector reports for the contents of the lease files it read.
pub open spec fn lease_results_spec(files: Seq<Seq<char>>) -> Seq<PortalUrlView> {
    keep_last(all_lease_uris(files)).map_values(|u: Seq<char>| lease_portal(u))
}

/// The lease files read when no override is given, in the order tried.
pub open spec fn default_lease_paths_spec() -> Seq<Seq<char>> {
    seq![
        "/var/lib/dhcp/dhclient.leases"@,
        "/var/lib/dhclient/dhclient.leases"@,
        "/var/lib/dhclient/dhclient6.leases"@,
        "/var/lib/NetworkManager/dhclient.conf"@,
    ]
}

/// The lease files read when no override is given: Debian/Ubuntu,
/// RHEL/Fedora/CentOS (v4 and v6), and NetworkManager's dhclient.
pub fn default_lease_paths() -> (r: Vec<String>)
    ensures
        strings(r@) == default_lease_paths_spec(),
{
    let mut r: Vec<String> = Vec::new();
    r.push(String::from_str("/var/lib/dhcp/dhclient.leases"));
    r.push(String::from_str("/var/lib/dhclient/dhclient.leases"));
    r.push(String::from_str("/var/lib/dhclient/dhclient6.leases"));
    r.push(String::from_str("/var/lib/NetworkManager/dhclient.conf"));
    assert(strings(r@) =~= default_lease_paths_spec());
    r
}

/// The lease files to read: the overrides when any are given (they replace
/// the defaults entirely), else the defaults.
pub fn lease_paths(overrides: &Vec<String>) -> (r: Vec<String>)
    ensures
        strings(r@) == if overrides.len() > 0 {
            strings(overrides@)
        } else {
            default_lease_paths_spec()
        },
{
    if overrides.len() > 0 {
        clone_strings(overrides)
    } else {
        default_lease_paths()
    }
}

/// The URIs that the lines of one lease file advertise, in order.
pub fn lease_file_uris(content: &str) -> (r: Vec<String>)
    ensures
        strings(r@) == lease_uris(lines_spec(content@)),
{
    let lines = lines_of(&chars_of(content));
    let prefix = chars_of("option dhcp-captive-portal-uri");
    let mut r: Vec<String> = Vec::new();
    let mut i: usize = 0;
    while i < lines.len()
        invariant
            i <= lines.len(),
            prefix@ == "option dhcp-captive-portal-uri"@,
            char_vecs(lines@) == lines_spec(content@),
            strings(r@) == lease_uris(char_vecs(lines@).take(i as int)),
        decreases lines.len() - i,
    {
        let ghost ls = char_vecs(lines@);
        assert(ls.take(i + 1).drop_last() == ls.take(i as int));
        assert(ls.take(i + 1).last() == lines@[i as int]@);
        let trimmed = trim_chars(&lines[i]);
        if starts_with(&trimmed, &prefix) {
            let t = string_of(&trimmed);
            match extract_quoted(t.as_str()) {
                Some(url) => {
                    if is_valid_url(url) {
                        let ghost before = r@;
                        r.push(url.to_owned());
                        assert(strings(r@) =~= strings(before).push(url@));
                    }
                },
                None => {},
            }
        }
        i = i + 1;
    }
    assert(char_vecs(lines@).take(lines.len() as int) == char_vecs(lines@));
    r
}

/// Whether `all[i]` occurs again after position `i`.
fn occurs_later(all: &Vec<String>, i: usize) -> (r: bool)
    requires
        i < all.len(),
    ensures
        r == strings(all@).skip(i + 1).contains(all@[i as int]@),
{
    let ghost later = strings(all@).skip(i + 1);
    let mut j: usize = i + 1;
    while j < all.len()
        invariant
            i < j <= all.len(),
            later == strings(all@).skip(i + 1),
            forall|k: int| i < k < j ==> all@[k]@ != all@[i as int]@,
        decreases all.len() - j,
    {
        if all[j] == all[i] {
            assert(later[j - i - 1] == all@[j as int]@);
            return true;
        }
        j = j + 1;
    }
    assert forall|m: int| 0 <= m < later.len() implies later[m] != all@[i as int]@ by {
        assert(later[m] == all@[i + 1 + m]@);
    }
    false
}

/// The portal URLs that the lease files advertise, given the contents of
/// the files that could be read, in the order tried: option 114 URIs that
/// parse as URLs, each distinct URI once, at its last occurrence (the most
/// recent lease).
pub fn lease_results(contents: &Vec<String>) -> (r: Vec<PortalUrl>)
    ensures
        portal_views(r@) == lease_results_spec(strings(contents@)),
        forall|i: int, j: int| 0 <= i < j < r@.len() ==> r@[i].url@ != r@[j].url@,
        forall|x: Seq<char>|
            all_lease_uris(strings(contents@)).contains(x) <==> exists|i: int|
                0 <= i < r@.len() && (#[trigger] r@[i]).url@ == x,
{
    let ghost files = strings(contents@);
    let mut all: Vec<String> = Vec::new();
    let mut i: usize = 0;
    while i < contents.len()
        invariant
            i <= contents.len(),
            files == strings(contents@),
            strings(all@) == all_lease_uris(files.take(i as int)),
        decreases contents.len() - i,
    {
        assert(files.take(i + 1).drop_last() == files.take(i as int));
        assert(files.take(i + 1).last() == contents@[i as int]@);
        let uris = lease_file_uris(contents[i].as_str());
        let mut j: usize = 0;
        let ghost base = strings(all@);
        while j < uris.len()
            invariant
                j <= uris.len(),
                strings(all@) == base + strings(uris@).take(j as int),
            decreases uris.len() - j,
        {
            let ghost before = all@;
            let item: String = uris[j].clone();
            assert(item@ == uris@[j as int]@);
            all.push(item);
            assert(strings(all@) =~= strings(before).push(item@));
            assert(strings(uris@).take(j + 1) =~= strings(uris@).take(j as int).push(item@));
            assert(strings(all@) =~= base + strings(uris@).take(j + 1));
            j = j + 1;
        }
        assert(strings(uris@).take(uris.len() as int) == strings(uris@));
        i = i + 1;
    }
    assert(files.take(contents.len() as int) == files);
    let ghost u = strings(all@);
    let mut kept: Vec<String> = Vec::new();
    let mut k: usize = 0;
    assert(u.skip(0) == u);
    while k < all.len()
        invariant
            k <= all.len(),
            u == strings(all@),
            strings(kept@) + keep_last(u.skip(k as int)) == keep_last(u),
        decreases all.len() - k,
    {
        let ghost t = u.skip(k as int);
        assert(t[0] == all@[k as int]@);
        assert(t.drop_first() == u.skip(k + 1));
        if !occurs_later(&all, k) {
            let ghost before = kept@;
            let item = all[k].clone();
            kept.push(item);
            assert(strings(kept@) =~= strings(before).push(item@));
            assert(strings(kept@) + keep_last(u.skip(k + 1)) =~= strings(before) + (seq![t[0]]
                + keep_last(t.drop_first())));
        }
        k = k + 1;
    }
    assert(u.skip(all.len() as int) =~= Seq::<Seq<char>>::empty());
    assert(strings(kept@) =~= keep_last(u));
    let mut r: Vec<PortalUrl> = Vec::new();
    let mut m: usize = 0;
    while m < kept.len()
        invariant
            m <= kept.len(),
            portal_views(r@) == strings(kept@).take(m as int).map_values(
                |x: Seq<char>| lease_portal(x),
            ),
        decreases kept.len() - m,
    {
        let ghost before = r@;
        let url: String = kept[m].clone();
        assert(url@ == strings(kept@)[m as int]);
        r.push(PortalUrl { url, source: Source::DhcpLease, confidence: 95 });
        assert(portal_views(r@) =~= portal_views(before).push(lease_portal(strings(kept@)[m as int])));
        assert(strings(kept@).take(m + 1) =~= strings(kept@).take(m as int).push(strings(kept@)[m as int]));
        assert(portal_views(r@) =~= strings(kept@).take(m + 1).map_values(
            |x: Seq<char>| lease_portal(x),
        ));
        m = m + 1;
    }
    assert(strings(kept@).take(kept.len() as int) == strings(kept@));
    proof {
        lemma_keep_last(u);
        let kl = keep_last(u);
        assert forall|a: int| 0 <= a < r@.len() implies (#[trigger] r@[a]).url@ == kl[a] by {
            assert(portal_views(r@)[a] == lease_portal(kl[a]));
        }
        assert forall|x: Seq<char>| u.contains(x) <==> exists|a: int|
            0 <= a < r@.len() && (#[trigger] r@[a]).url@ == x by {
            if u.contains(x) {
                assert(kl.contains(x));
                let a = choose|a: int| 0 <= a < kl.len() && kl[a] == x;
                assert(r@[a].url@ == x);
            }
            if exists|a: int| 0 <= a < r@.len() && (#[trigger] r@[a]).url@ == x {
                let a = choose|a: int| 0 <= a < r@.len() && (#[trigger] r@[a]).url@ == x;
                assert(kl[a] == x);
                assert(kl.contains(x));
            }
        }
    }
    r
}

} // verus!
