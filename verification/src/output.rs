//! Ranking, de-duplication and rendering of the detected portal URLs.
use vstd::prelude::*;
use crate::text::{
    append_str, contains_char, has_char, hex_upper, hex_upper_of,
    append_chars, char_vecs, chars_eq, chars_of, decimal, decimal_of, slice_chars, string_of,
};
use crate::types::{
    note_views, portal_views, source_label, PortalUrl, PortalUrlView, StatusNote,
};
use crate::urls::{parse_url, url_parse_spec};

verus! {

/// The key by which two URLs count as the same: the URL's serialization,
/// without its final `/` when the path is just `/` and there is neither a
/// query nor a fragment (so `http://x/` and `http://x` share a key, while
/// `http://x/?next=/` keeps its text); or the text itself when it does
/// not parse.
pub open spec fn normalize_spec(url: Seq<char>) -> Seq<char> {
    match url_parse_spec(url) {
        Some((ser, path)) => if ser.len() > 0 && ser.last() == '/' && path == seq!['/']
            && !has_char(ser, '?') && !has_char(ser, '#') {
            ser.drop_last()
        } else {
            ser
        },
        None => url,
    }
}

/// The de-duplication key of `url`.
pub fn normalize(url: &str) -> (r: String)
    ensures
        r@ == normalize_spec(url@),
{
    match parse_url(url) {
        Some(u) => {
            let ser = chars_of(u.serialization.as_str());
            let path = chars_of(u.path.as_str());
            let root = path.len() == 1 && path[0] == '/';
            proof {
                if path@.len() == 1 {
                    assert(root == (path@ == seq!['/'])) by {
                        if path@[0] == '/' {
                            assert(path@ =~= seq!['/']);
                        }
                    }
                } else {
                    assert(path@ != seq!['/']);
                }
            }
            if ser.len() > 0 && ser[ser.len() - 1] == '/' && root && !contains_char(&ser, '?')
                && !contains_char(&ser, '#') {
                string_of(&slice_chars(&ser, 0, ser.len() - 1))
            } else {
                u.serialization
            }
        },
        None => url.to_owned(),
    }
}

/// The entries of `s` whose confidence is `c`, in order.
pub open spec fn with_confidence(s: Seq<PortalUrlView>, c: u8) -> Seq<PortalUrlView>
    decreases s.len(),
{
    if s.len() == 0 {
        s
    } else {
        let r = with_confidence(s.drop_last(), c);
        if s.last().confidence == c {
            r.push(s.last())
        } else {
            r
        }
    }
}

/// The entries of `s` with the `k` highest confidences (255, 254, ...),
/// highest first, keeping the input order among equal confidences.
pub open spec fn ranked_upto(s: Seq<PortalUrlView>, k: nat) -> Seq<PortalUrlView>
    decreases k,
{
    if k == 0 {
        Seq::empty()
    } else {
        ranked_upto(s, (k - 1) as nat) + with_confidence(s, (256 - k) as u8)
    }
}

/// `s` stably sorted by confidence, highest first.
pub open spec fn ranked(s: Seq<PortalUrlView>) -> Seq<PortalUrlView> {
    ranked_upto(s, 256)
}

/// The de-duplication keys of the entries of `s`.
pub open spec fn url_keys(s: Seq<PortalUrlView>) -> Seq<Seq<char>> {
    s.map_values(|p: PortalUrlView| normalize_spec(p.url))
}

/// The entries of `s` whose key does not occur earlier in `s`.
pub open spec fn first_per_key(s: Seq<PortalUrlView>) -> Seq<PortalUrlView>
    decreases s.len(),
{
    if s.len() == 0 {
        s
    } else {
        let r = first_per_key(s.drop_last());
        if url_keys(s.drop_last()).contains(normalize_spec(s.last().url)) {
            r
        } else {
            r.push(s.last())
        }
    }
}

/// What `deduplicate_and_sort` makes of `s`.
pub open spec fn dedup_sorted_spec(s: Seq<PortalUrlView>) -> Seq<PortalUrlView> {
    first_per_key(ranked(s))
}

/// Confidences never increase along `s`.
pub open spec fn sorted_by_confidence(s: Seq<PortalUrlView>) -> bool {
    forall|i: int, j: int| 0 <= i < j < s.len() ==> s[i].confidence >= s[j].confidence
}

/// No two entries of `s` share a de-duplication key.
pub open spec fn unique_keys(s: Seq<PortalUrlView>) -> bool {
    forall|i: int, j: int|
        0 <= i < j < s.len() ==> normalize_spec(s[i].url) != normalize_spec(s[j].url)
}

proof fn lemma_portal_views_push(s: Seq<PortalUrl>, x: PortalUrl)
    ensures
        portal_views(s.push(x)) == portal_views(s).push(x@),
{
    assert(portal_views(s.push(x)) =~= portal_views(s).push(x@));
}

proof fn lemma_url_keys_push(s: Seq<PortalUrlView>, x: PortalUrlView)
    ensures
        url_keys(s.push(x)) == url_keys(s).push(normalize_spec(x.url)),
{
    assert(url_keys(s.push(x)) =~= url_keys(s).push(normalize_spec(x.url)));
}

/// Stably sorts `urls` by confidence, highest first.
fn rank_by_confidence(urls: &Vec<PortalUrl>) -> (r: Vec<PortalUrl>)
    ensures
        portal_views(r@) == ranked(portal_views(urls@)),
{
    let ghost s = portal_views(urls@);
    let mut out: Vec<PortalUrl> = Vec::new();
    let mut k: u16 = 0;
    while k < 256
        invariant
            k <= 256,
            s == portal_views(urls@),
            portal_views(out@) == ranked_upto(s, k as nat),
        decreases 256 - k,
    {
        let c: u8 = (255 - k) as u8;
        let ghost base = portal_views(out@);
        let mut j: usize = 0;
        while j < urls.len()
            invariant
                j <= urls.len(),
                s == portal_views(urls@),
                c == (256 - (k + 1)) as u8,
                portal_views(out@) == base + with_confidence(s.take(j as int), c),
            decreases urls.len() - j,
        {
            assert(s.take(j + 1).drop_last() == s.take(j as int));
            assert(s.take(j + 1).last() == urls@[j as int]@);
            if urls[j].confidence == c {
                let ghost before = out@;
                out.push(urls[j].duplicate());
                proof {
                    lemma_portal_views_push(before, out@.last());
                }
            }
            j = j + 1;
        }
        assert(s.take(urls.len() as int) == s);
        k = k + 1;
    }
    out
}

proof fn lemma_push_contains<A>(s: Seq<A>, e: A, x: A)
    ensures
        s.push(e).contains(x) <==> s.contains(x) || e == x,
{
    let t = s.push(e);
    if t.contains(x) && !s.contains(x) {
        let i = choose|i: int| 0 <= i < t.len() && t[i] == x;
        if i < s.len() {
            assert(s[i] == x);
        }
    }
    if s.contains(x) {
        let i = choose|i: int| 0 <= i < s.len() && s[i] == x;
        assert(t[i] == x);
    }
    if e == x {
        assert(t[s.len() as int] == x);
    }
}

proof fn lemma_keys_of_first_per_key(s: Seq<PortalUrlView>, k: Seq<char>)
    ensures
        url_keys(first_per_key(s)).contains(k) <==> url_keys(s).contains(k),
    decreases s.len(),
{
    if s.len() > 0 {
        let dl = s.drop_last();
        let kl = normalize_spec(s.last().url);
        lemma_keys_of_first_per_key(dl, k);
        assert(dl.push(s.last()) == s);
        lemma_url_keys_push(dl, s.last());
        lemma_push_contains(url_keys(dl), kl, k);
        if !url_keys(dl).contains(kl) {
            lemma_url_keys_push(first_per_key(dl), s.last());
            lemma_push_contains(url_keys(first_per_key(dl)), kl, k);
        } else if k == kl {
        }
    }
}

/// Whether `key` is one of `seen`.
fn contains_key(seen: &Vec<Vec<char>>, key: &Vec<char>) -> (r: bool)
    ensures
        r == char_vecs(seen@).contains(key@),
{
    let mut i: usize = 0;
    while i < seen.len()
        invariant
            i <= seen.len(),
            forall|j: int| 0 <= j < i ==> seen@[j]@ != key@,
        decreases seen.len() - i,
    {
        if chars_eq(&seen[i], key) {
            assert(char_vecs(seen@)[i as int] == key@);
            return true;
        }
        i = i + 1;
    }
    assert forall|j: int| 0 <= j < char_vecs(seen@).len() implies char_vecs(seen@)[j] != key@ by {
        assert(char_vecs(seen@)[j] == seen@[j]@);
    }
    false
}

/// Keeps the first entry of `t` for each de-duplication key.
fn keep_first_per_key(t: &Vec<PortalUrl>) -> (r: Vec<PortalUrl>)
    ensures
        portal_views(r@) == first_per_key(portal_views(t@)),
{
    let ghost s = portal_views(t@);
    let mut out: Vec<PortalUrl> = Vec::new();
    let mut seen: Vec<Vec<char>> = Vec::new();
    let mut i: usize = 0;
    while i < t.len()
        invariant
            i <= t.len(),
            s == portal_views(t@),
            portal_views(out@) == first_per_key(s.take(i as int)),
            char_vecs(seen@) == url_keys(portal_views(out@)),
        decreases t.len() - i,
    {
        let ghost pre = s.take(i as int);
        assert(s.take(i + 1).drop_last() == pre);
        assert(s.take(i + 1).last() == t@[i as int]@);
        let key_string = normalize(t[i].url.as_str());
        let key = chars_of(key_string.as_str());
        let found = contains_key(&seen, &key);
        proof {
            lemma_keys_of_first_per_key(pre, key@);
        }
        if !found {
            let ghost before = out@;
            let ghost before_seen = seen@;
            out.push(t[i].duplicate());
            seen.push(key);
            proof {
                lemma_portal_views_push(before, out@.last());
                lemma_url_keys_push(portal_views(before), t@[i as int]@);
                assert(char_vecs(seen@) =~= char_vecs(before_seen).push(key@));
            }
        }
        i = i + 1;
    }
    assert(s.take(t.len() as int) == s);
    out
}

/// Sorts the candidates by confidence, highest first (keeping their order
/// among equal confidences), then keeps only the first entry for each URL,
/// where URLs that differ only by a trailing `/` on an empty path count as
/// the same.
pub fn deduplicate_and_sort(urls: Vec<PortalUrl>) -> (r: Vec<PortalUrl>)
    ensures
        portal_views(r@) == dedup_sorted_spec(portal_views(urls@)),
{
    let sorted = rank_by_confidence(&urls);
    keep_first_per_key(&sorted)
}

// ---------------------------------------------------------------------
// Laws of `deduplicate_and_sort`.
proof fn lemma_with_confidence_members(s: Seq<PortalUrlView>, c: u8)
    ensures
        forall|i: int|
            0 <= i < with_confidence(s, c).len() ==> (#[trigger] with_confidence(s, c)[i]).confidence
                == c,
        forall|x: PortalUrlView|
            with_confidence(s, c).contains(x) <==> s.contains(x) && x.confidence == c,
    decreases s.len(),
{
    if s.len() > 0 {
        let dl = s.drop_last();
        let last = s.last();
        lemma_with_confidence_members(dl, c);
        assert(dl.push(last) == s);
        let w = with_confidence(s, c);
        let wd = with_confidence(dl, c);
        assert forall|x: PortalUrlView| w.contains(x) <==> s.contains(x) && x.confidence == c by {
            lemma_push_contains(dl, last, x);
            if last.confidence == c {
                lemma_push_contains(wd, last, x);
            }
        }
        assert forall|i: int| 0 <= i < w.len() implies (#[trigger] w[i]).confidence == c by {
            if i < wd.len() {
                assert(w[i] == wd[i]);
            }
        }
    }
}

proof fn lemma_with_confidence_absent(s: Seq<PortalUrlView>, c: u8)
    requires
        forall|i: int| 0 <= i < s.len() ==> s[i].confidence != c,
    ensures
        with_confidence(s, c) == Seq::<PortalUrlView>::empty(),
    decreases s.len(),
{
    if s.len() > 0 {
        lemma_with_confidence_absent(s.drop_last(), c);
    }
}

proof fn lemma_ranked_upto_members(s: Seq<PortalUrlView>, k: nat)
    requires
        k <= 256,
    ensures
        sorted_by_confidence(ranked_upto(s, k)),
        forall|i: int|
            0 <= i < ranked_upto(s, k).len() ==> (#[trigger] ranked_upto(s, k)[i]).confidence
                >= 256 - k,
        forall|x: PortalUrlView|
            ranked_upto(s, k).contains(x) <==> s.contains(x) && x.confidence >= 256 - k,
    decreases k,
{
    if k > 0 {
        let c = (256 - k) as u8;
        lemma_ranked_upto_members(s, (k - 1) as nat);
        lemma_with_confidence_members(s, c);
        let a = ranked_upto(s, (k - 1) as nat);
        let b = with_confidence(s, c);
        let r = ranked_upto(s, k);
        assert(r == a + b);
        assert forall|i: int| 0 <= i < r.len() implies (#[trigger] r[i]).confidence >= 256 - k by {
            if i < a.len() {
                assert(r[i] == a[i]);
            } else {
                assert(r[i] == b[i - a.len()]);
            }
        }
        assert forall|i: int, j: int| 0 <= i < j < r.len() implies r[i].confidence
            >= r[j].confidence by {
            if j < a.len() {
                assert(r[i] == a[i] && r[j] == a[j]);
            } else if i < a.len() {
                assert(r[i] == a[i] && r[j] == b[j - a.len()]);
            } else {
                assert(r[i] == b[i - a.len()] && r[j] == b[j - a.len()]);
            }
        }
        assert forall|x: PortalUrlView| r.contains(x) <==> s.contains(x) && x.confidence >= 256
            - k by {
            if r.contains(x) {
                let i = choose|i: int| 0 <= i < r.len() && r[i] == x;
                if i < a.len() {
                    assert(a[i] == x);
                } else {
                    assert(b[i - a.len()] == x);
                }
            }
            if s.contains(x) && x.confidence >= 256 - k {
                if x.confidence == c {
                    let i = choose|i: int| 0 <= i < b.len() && b[i] == x;
                    assert(r[a.len() + i] == x);
                } else {
                    let i = choose|i: int| 0 <= i < a.len() && a[i] == x;
                    assert(r[i] == x);
                }
            }
        }
    }
}

proof fn lemma_first_per_key_members(s: Seq<PortalUrlView>)
    ensures
        forall|x: PortalUrlView|
            first_per_key(s).contains(x) ==> exists|i: int|
                0 <= i < s.len() && s[i] == x && forall|j: int|
                    0 <= j < i ==> normalize_spec(#[trigger] s[j].url) != normalize_spec(x.url),
        unique_keys(first_per_key(s)),
    decreases s.len(),
{
    if s.len() > 0 {
        let dl = s.drop_last();
        lemma_first_per_key_members(dl);
        let r = first_per_key(dl);
        let f = first_per_key(s);
        let kl = normalize_spec(s.last().url);
        assert forall|x: PortalUrlView| f.contains(x) implies exists|i: int|
            0 <= i < s.len() && s[i] == x && forall|j: int|
                0 <= j < i ==> normalize_spec(#[trigger] s[j].url) != normalize_spec(x.url) by {
            let m = choose|m: int| 0 <= m < f.len() && f[m] == x;
            if m < r.len() {
                assert(r[m] == x);
                assert(r.contains(x));
                let i = choose|i: int|
                    0 <= i < dl.len() && dl[i] == x && forall|j: int|
                        0 <= j < i ==> normalize_spec(#[trigger] dl[j].url) != normalize_spec(
                            x.url,
                        );
                assert(s[i] == x);
                assert forall|j: int| 0 <= j < i implies normalize_spec(#[trigger] s[j].url)
                    != normalize_spec(x.url) by {
                    assert(s[j] == dl[j]);
                }
            } else {
                assert(x == s.last());
                assert(!url_keys(dl).contains(kl));
                assert forall|j: int| 0 <= j < s.len() - 1 implies normalize_spec(
                    #[trigger] s[j].url,
                ) != normalize_spec(x.url) by {
                    assert(url_keys(dl)[j] == normalize_spec(s[j].url));
                }
                assert(s[s.len() - 1] == x);
            }
        }
        if !url_keys(dl).contains(kl) {
            lemma_keys_of_first_per_key(dl, kl);
            assert forall|i: int, j: int| 0 <= i < j < f.len() implies normalize_spec(f[i].url)
                != normalize_spec(f[j].url) by {
                if j == f.len() - 1 {
                    assert(url_keys(r)[i] == normalize_spec(r[i].url));
                    assert(f[i] == r[i]);
                } else {
                    assert(f[i] == r[i] && f[j] == r[j]);
                }
            }
        }
    }
}

proof fn lemma_first_per_key_sorted(s: Seq<PortalUrlView>)
    requires
        sorted_by_confidence(s),
    ensures
        sorted_by_confidence(first_per_key(s)),
    decreases s.len(),
{
    if s.len() > 0 {
        let dl = s.drop_last();
        lemma_first_per_key_sorted(dl);
        lemma_first_per_key_members(dl);
        let r = first_per_key(dl);
        let f = first_per_key(s);
        if !url_keys(dl).contains(normalize_spec(s.last().url)) {
            assert forall|i: int, j: int| 0 <= i < j < f.len() implies f[i].confidence
                >= f[j].confidence by {
                if j == f.len() - 1 {
                    assert(f[i] == r[i]);
                    assert(r.contains(r[i]));
                    let m = choose|m: int|
                        0 <= m < dl.len() && dl[m] == r[i] && forall|j: int|
                            0 <= j < m ==> normalize_spec(#[trigger] dl[j].url) != normalize_spec(
                                r[i].url,
                            );
                    assert(s[m] == dl[m]);
                } else {
                    assert(f[i] == r[i] && f[j] == r[j]);
                }
            }
        }
    }
}

proof fn lemma_ranked_of_sorted(t: Seq<PortalUrlView>, k: nat)
    requires
        sorted_by_confidence(t),
        t.len() > 0,
        k <= 256,
    ensures
        ranked_upto(t, k) == ranked_upto(t.drop_last(), k) + if t.last().confidence >= 256 - k {
            seq![t.last()]
        } else {
            Seq::<PortalUrlView>::empty()
        },
    decreases k,
{
    let dl = t.drop_last();
    let last = t.last();
    if k > 0 {
        let c = (256 - k) as u8;
        lemma_ranked_of_sorted(t, (k - 1) as nat);
        assert(dl.push(last) == t);
        assert(with_confidence(t, c) == with_confidence(dl, c) + if last.confidence == c {
            seq![last]
        } else {
            Seq::<PortalUrlView>::empty()
        });
        if last.confidence > c {
            assert forall|i: int| 0 <= i < dl.len() implies dl[i].confidence != c by {
                assert(t[i] == dl[i]);
                assert(t[i].confidence >= t[t.len() - 1].confidence);
            }
            lemma_with_confidence_absent(dl, c);
        }
        assert(ranked_upto(t, k) =~= ranked_upto(dl, k) + if last.confidence >= 256 - k {
            seq![last]
        } else {
            Seq::<PortalUrlView>::empty()
        });
    }
}

proof fn lemma_ranked_sorted_identity(t: Seq<PortalUrlView>)
    requires
        sorted_by_confidence(t),
    ensures
        ranked(t) == t,
    decreases t.len(),
{
    if t.len() == 0 {
        lemma_ranked_upto_members(t, 256);
        let r = ranked(t);
        assert(r.len() == 0) by {
            if r.len() > 0 {
                assert(r.contains(r[0]));
                assert(t.contains(r[0]));
            }
        }
        assert(r =~= t);
    } else {
        let dl = t.drop_last();
        assert forall|i: int, j: int| 0 <= i < j < dl.len() implies dl[i].confidence
            >= dl[j].confidence by {
            assert(dl[i] == t[i] && dl[j] == t[j]);
        }
        lemma_ranked_sorted_identity(dl);
        lemma_ranked_of_sorted(t, 256);
        assert(t.last().confidence >= 256 - 256);
        assert(ranked(t) == dl + seq![t.last()]);
        assert(ranked(t) =~= t);
    }
}

proof fn lemma_first_per_key_unique_identity(t: Seq<PortalUrlView>)
    requires
        unique_keys(t),
    ensures
        first_per_key(t) == t,
    decreases t.len(),
{
    if t.len() > 0 {
        let dl = t.drop_last();
        lemma_first_per_key_unique_identity(dl);
        assert forall|i: int| 0 <= i < url_keys(dl).len() implies url_keys(dl)[i]
            != normalize_spec(t.last().url) by {
            assert(dl[i] == t[i]);
        }
        assert(dl.push(t.last()) == t);
    }
}

/// The list that `deduplicate_and_sort` returns is ranked: confidences
/// never increase along it.
pub proof fn law_result_is_ranked(s: Seq<PortalUrlView>)
    ensures
        sorted_by_confidence(dedup_sorted_spec(s)),
{
    lemma_ranked_upto_members(s, 256);
    lemma_first_per_key_sorted(ranked(s));
}

/// No two entries that `deduplicate_and_sort` returns share a normalized
/// URL.
pub proof fn law_no_duplicate_urls(s: Seq<PortalUrlView>)
    ensures
        unique_keys(dedup_sorted_spec(s)),
{
    lemma_first_per_key_members(ranked(s));
}

/// Every URL of the input is still represented after
/// `deduplicate_and_sort`, by an entry with the same normalized URL.
pub proof fn law_every_url_represented(s: Seq<PortalUrlView>)
    ensures
        forall|i: int|
            0 <= i < s.len() ==> url_keys(dedup_sorted_spec(s)).contains(
                normalize_spec(#[trigger] s[i].url),
            ),
{
    lemma_ranked_upto_members(s, 256);
    let t = ranked(s);
    assert forall|i: int| 0 <= i < s.len() implies url_keys(dedup_sorted_spec(s)).contains(
        normalize_spec(#[trigger] s[i].url),
    ) by {
        assert(s.contains(s[i]));
        assert(t.contains(s[i]));
        let m = choose|m: int| 0 <= m < t.len() && t[m] == s[i];
        assert(url_keys(t)[m] == normalize_spec(s[i].url));
        lemma_keys_of_first_per_key(t, normalize_spec(s[i].url));
    }
}

/// Each entry that `deduplicate_and_sort` keeps is an entry of the input,
/// and no input entry with the same normalized URL has a higher confidence.
pub proof fn law_kept_entry_is_most_confident(s: Seq<PortalUrlView>)
    ensures
        forall|q: PortalUrlView|
            dedup_sorted_spec(s).contains(q) ==> s.contains(q) && forall|i: int|
                0 <= i < s.len() && normalize_spec(#[trigger] s[i].url) == normalize_spec(q.url)
                    ==> s[i].confidence <= q.confidence,
{
    lemma_ranked_upto_members(s, 256);
    let t = ranked(s);
    lemma_first_per_key_members(t);
    assert forall|q: PortalUrlView| dedup_sorted_spec(s).contains(q) implies s.contains(q)
        && forall|i: int|
        0 <= i < s.len() && normalize_spec(#[trigger] s[i].url) == normalize_spec(q.url)
            ==> s[i].confidence <= q.confidence by {
        let m = choose|m: int|
            0 <= m < t.len() && t[m] == q && forall|j: int|
                0 <= j < m ==> normalize_spec(#[trigger] t[j].url) != normalize_spec(q.url);
        assert(t.contains(q));
        assert(s.contains(q));
        assert forall|i: int|
            0 <= i < s.len() && normalize_spec(#[trigger] s[i].url) == normalize_spec(q.url)
                implies s[i].confidence <= q.confidence by {
            assert(s.contains(s[i]));
            assert(t.contains(s[i]));
            let n = choose|n: int| 0 <= n < t.len() && t[n] == s[i];
            if n < m {
                assert(normalize_spec(t[n].url) != normalize_spec(q.url));
            } else if n > m {
                assert(t[m].confidence >= t[n].confidence);
            }
        }
    }
}

/// `deduplicate_and_sort` changes nothing in a list that it returned.
pub proof fn law_idempotent(s: Seq<PortalUrlView>)
    ensures
        dedup_sorted_spec(dedup_sorted_spec(s)) == dedup_sorted_spec(s),
{
    let o = dedup_sorted_spec(s);
    law_result_is_ranked(s);
    law_no_duplicate_urls(s);
    lemma_ranked_sorted_identity(o);
    lemma_first_per_key_unique_identity(o);
}

// ---------------------------------------------------------------------
// Rendering.
/// `n` spaces.
pub open spec fn spaces(n: nat) -> Seq<char> {
    Seq::new(n, |i: int| ' ')
}

/// `s` right-aligned in a field of `w` characters (`{:>w}`).
pub open spec fn pad_left(s: Seq<char>, w: nat) -> Seq<char> {
    if s.len() < w {
        spaces((w - s.len()) as nat) + s
    } else {
        s
    }
}

/// `s` left-aligned in a field of `w` characters (`{:<w}`).
pub open spec fn pad_right(s: Seq<char>, w: nat) -> Seq<char> {
    if s.len() < w {
        s + spaces((w - s.len()) as nat)
    } else {
        s
    }
}

/// The horizontal rule above and below the table, with its line end.
pub open spec fn rule_line() -> Seq<char> {
    Seq::new(60, |i: int| '\u{2500}').push('\n')
}

/// The table row of one portal URL, with its line end.
pub open spec fn url_row(p: PortalUrlView) -> Seq<char> {
    " "@ + pad_left(decimal(p.confidence as nat), 3) + "  "@ + pad_right(p.url, 45) + "  ["@
        + source_label(p.source) + "]\n"@
}

/// The table rows of `s`, in order.
pub open spec fn url_rows(s: Seq<PortalUrlView>) -> Seq<char>
    decreases s.len(),
{
    if s.len() == 0 {
        Seq::empty()
    } else {
        url_rows(s.drop_last()) + url_row(s.last())
    }
}

/// One `Status:` line for each note, in order.
pub open spec fn status_lines(n: Seq<Seq<char>>) -> Seq<char>
    decreases n.len(),
{
    if n.len() == 0 {
        Seq::empty()
    } else {
        status_lines(n.drop_last()) + "Status: "@ + n.last() + "\n"@
    }
}

/// The text report of the (already ranked and de-duplicated) `urls` and
/// the `notes`.
pub open spec fn text_report(urls: Seq<PortalUrlView>, notes: Seq<Seq<char>>, verbose: bool) -> Seq<
    char,
> {
    (if urls.len() == 0 {
        "No captive portal URLs detected.\n"@
    } else {
        "Captive portal URLs detected:\n"@ + rule_line() + url_rows(urls) + rule_line()
    }) + status_lines(notes) + if verbose && urls.len() == 0 && notes.len() == 0 {
        "(no detectors found anything)\n"@
    } else {
        Seq::empty()
    }
}

/// The JSON string escape of one character: a double quote or a
/// backslash gets a backslash before it, line feed, carriage return and
/// tab get their short escapes (`\n`, `\r`, `\t`), every other control
/// character (below U+0020) gets a `\u00XX` escape, and any other
/// character stands as it is.
pub open spec fn json_escape_char(c: char) -> Seq<char> {
    if c == '"' {
        seq!['\\', '"']
    } else if c == '\\' {
        seq!['\\', '\\']
    } else if c == '\n' {
        seq!['\\', 'n']
    } else if c == '\r' {
        seq!['\\', 'r']
    } else if c == '\t' {
        seq!['\\', 't']
    } else if (c as int) < 0x20 {
        seq![
            '\\',
            'u',
            '0',
            '0',
            hex_upper(((c as int) / 16) as nat),
            hex_upper(((c as int) % 16) as nat),
        ]
    } else {
        seq![c]
    }
}

/// `s` escaped for use inside a JSON string.
pub open spec fn json_escape(s: Seq<char>) -> Seq<char>
    decreases s.len(),
{
    if s.len() == 0 {
        Seq::empty()
    } else {
        json_escape(s.drop_last()) + json_escape_char(s.last())
    }
}

/// The JSON object of one portal URL.
pub open spec fn url_json(p: PortalUrlView) -> Seq<char> {
    "{\"url\":\""@ + json_escape(p.url) + "\",\"source\":\""@ + json_escape(
        source_label(p.source),
    ) + "\",\"confidence\":"@ + decimal(p.confidence as nat) + "}"@
}

/// The JSON object of one status note.
pub open spec fn note_json(m: Seq<char>) -> Seq<char> {
    "{\"status\":\""@ + json_escape(m) + "\"}"@
}

/// The items joined with commas between them.
pub open spec fn join_commas(items: Seq<Seq<char>>) -> Seq<char>
    decreases items.len(),
{
    if items.len() == 0 {
        Seq::empty()
    } else if items.len() == 1 {
        items[0]
    } else {
        join_commas(items.drop_last()) + seq![','] + items.last()
    }
}

/// The JSON report: an array of the URL objects, then the note objects,
/// and a line end.
pub open spec fn json_report(urls: Seq<PortalUrlView>, notes: Seq<Seq<char>>) -> Seq<char> {
    "["@ + join_commas(
        urls.map_values(|p: PortalUrlView| url_json(p)) + notes.map_values(
            |m: Seq<char>| note_json(m),
        ),
    ) + "]\n"@
}

/// What the tool prints for the detected `urls` and `notes`.
pub open spec fn results_report(
    urls: Seq<PortalUrlView>,
    notes: Seq<Seq<char>>,
    json: bool,
    verbose: bool,
) -> Seq<char> {
    let ranked_urls = dedup_sorted_spec(urls);
    if json {
        json_report(ranked_urls, notes)
    } else {
        text_report(ranked_urls, notes, verbose)
    }
}

/// Appends `n` spaces.
fn append_spaces(dst: &mut Vec<char>, n: usize)
    ensures
        final(dst)@ == old(dst)@ + spaces(n as nat),
{
    let ghost start = dst@;
    let mut i: usize = 0;
    while i < n
        invariant
            i <= n,
            dst@ == start + spaces(i as nat),
        decreases n - i,
    {
        dst.push(' ');
        assert(spaces((i + 1) as nat) == spaces(i as nat).push(' '));
        i = i + 1;
    }
}

/// Appends the JSON escape of `c`.
fn append_json_escaped_char(dst: &mut Vec<char>, c: char)
    ensures
        final(dst)@ == old(dst)@ + json_escape_char(c),
{
    let ghost start = dst@;
    if c == '"' {
        dst.push('\\');
        dst.push('"');
    } else if c == '\\' {
        dst.push('\\');
        dst.push('\\');
    } else if c == '\n' {
        dst.push('\\');
        dst.push('n');
    } else if c == '\r' {
        dst.push('\\');
        dst.push('r');
    } else if c == '\t' {
        dst.push('\\');
        dst.push('t');
    } else if (c as u32) < 0x20 {
        let code = c as u32;
        dst.push('\\');
        dst.push('u');
        dst.push('0');
        dst.push('0');
        dst.push(hex_upper_of(code / 16));
        dst.push(hex_upper_of(code % 16));
    } else {
        dst.push(c);
    }
    assert(dst@ =~= start + json_escape_char(c));
}

/// Appends `s` escaped for use inside a JSON string.
fn append_escaped(dst: &mut Vec<char>, s: &Vec<char>)
    ensures
        final(dst)@ == old(dst)@ + json_escape(s@),
{
    let ghost start = dst@;
    let mut i: usize = 0;
    while i < s.len()
        invariant
            i <= s.len(),
            dst@ == start + json_escape(s@.take(i as int)),
        decreases s.len() - i,
    {
        assert(s@.take(i + 1).drop_last() == s@.take(i as int));
        assert(s@.take(i + 1).last() == s@[i as int]);
        append_json_escaped_char(dst, s[i]);
        assert(dst@ =~= start + json_escape(s@.take(i + 1)));
        i = i + 1;
    }
    assert(s@.take(s.len() as int) == s@);
}

/// Appends the horizontal rule with its line end.
fn append_rule(dst: &mut Vec<char>)
    ensures
        final(dst)@ == old(dst)@ + rule_line(),
{
    let ghost start = dst@;
    let mut i: usize = 0;
    while i < 60
        invariant
            i <= 60,
            dst@ == start + Seq::new(i as nat, |k: int| '\u{2500}'),
        decreases 60 - i,
    {
        dst.push('\u{2500}');
        assert(Seq::new((i + 1) as nat, |k: int| '\u{2500}') == Seq::new(
            i as nat,
            |k: int| '\u{2500}',
        ).push('\u{2500}'));
        i = i + 1;
    }
    dst.push('\n');
}

/// Appends the table row of `p`.
fn append_url_row(dst: &mut Vec<char>, p: &PortalUrl)
    ensures
        final(dst)@ == old(dst)@ + url_row(p@),
{
    let ghost start = dst@;
    append_str(dst, " ");
    let conf = decimal_of(p.confidence as u64);
    if conf.len() < 3 {
        append_spaces(dst, 3 - conf.len());
    }
    append_chars(dst, &conf);
    append_str(dst, "  ");
    let url = chars_of(p.url.as_str());
    append_chars(dst, &url);
    if url.len() < 45 {
        append_spaces(dst, 45 - url.len());
    }
    append_str(dst, "  [");
    let label = p.source.to_string();
    append_str(dst, label.as_str());
    append_str(dst, "]\n");
    assert(dst@ =~= start + url_row(p@));
}

/// The text report.
fn render_text(urls: &Vec<PortalUrl>, notes: &Vec<StatusNote>, verbose: bool) -> (r: Vec<char>)
    ensures
        r@ == text_report(portal_views(urls@), note_views(notes@), verbose),
{
    let ghost u = portal_views(urls@);
    let ghost n = note_views(notes@);
    let mut out: Vec<char> = Vec::new();
    if urls.len() == 0 {
        append_str(&mut out, "No captive portal URLs detected.\n");
    } else {
        append_str(&mut out, "Captive portal URLs detected:\n");
        append_rule(&mut out);
        let ghost head = out@;
        let mut i: usize = 0;
        while i < urls.len()
            invariant
                i <= urls.len(),
                u == portal_views(urls@),
                out@ == head + url_rows(u.take(i as int)),
            decreases urls.len() - i,
        {
            assert(u.take(i + 1).drop_last() == u.take(i as int));
            assert(u.take(i + 1).last() == urls@[i as int]@);
            append_url_row(&mut out, &urls[i]);
            assert(out@ =~= head + url_rows(u.take(i + 1)));
            i = i + 1;
        }
        assert(u.take(urls.len() as int) == u);
        append_rule(&mut out);
    }
    let ghost head = out@;
    let mut j: usize = 0;
    while j < notes.len()
        invariant
            j <= notes.len(),
            n == note_views(notes@),
            out@ == head + status_lines(n.take(j as int)),
        decreases notes.len() - j,
    {
        assert(n.take(j + 1).drop_last() == n.take(j as int));
        assert(n.take(j + 1).last() == notes@[j as int]@);
        append_str(&mut out, "Status: ");
        append_str(&mut out, notes[j].message.as_str());
        append_str(&mut out, "\n");
        assert(out@ =~= head + status_lines(n.take(j + 1)));
        j = j + 1;
    }
    assert(n.take(notes.len() as int) == n);
    if verbose && urls.len() == 0 && notes.len() == 0 {
        append_str(&mut out, "(no detectors found anything)\n");
    }
    assert(out@ =~= text_report(u, n, verbose));
    out
}

proof fn lemma_join_commas_step(items: Seq<Seq<char>>, k: int)
    requires
        0 <= k < items.len(),
    ensures
        join_commas(items.take(k + 1)) == join_commas(items.take(k)) + (if k > 0 {
            seq![',']
        } else {
            Seq::empty()
        }) + items[k],
{
    let t = items.take(k + 1);
    assert(t.drop_last() == items.take(k));
    assert(t.last() == items[k]);
    if k == 0 {
        assert(join_commas(items.take(0)) == Seq::<char>::empty());
        assert(t[0] == items[0]);
        assert(join_commas(t) =~= Seq::<char>::empty() + Seq::<char>::empty() + items[0]);
    }
}

/// The JSON object of `p`.
fn url_json_of(p: &PortalUrl) -> (r: Vec<char>)
    ensures
        r@ == url_json(p@),
{
    let mut out: Vec<char> = Vec::new();
    append_str(&mut out, "{\"url\":\"");
    append_escaped(&mut out, &chars_of(p.url.as_str()));
    append_str(&mut out, "\",\"source\":\"");
    let label = p.source.to_string();
    append_escaped(&mut out, &chars_of(label.as_str()));
    append_str(&mut out, "\",\"confidence\":");
    append_chars(&mut out, &decimal_of(p.confidence as u64));
    append_str(&mut out, "}");
    assert(out@ =~= url_json(p@));
    out
}

/// The JSON object of the note `m`.
fn note_json_of(m: &StatusNote) -> (r: Vec<char>)
    ensures
        r@ == note_json(m@),
{
    let mut out: Vec<char> = Vec::new();
    append_str(&mut out, "{\"status\":\"");
    append_escaped(&mut out, &chars_of(m.message.as_str()));
    append_str(&mut out, "\"}");
    assert(out@ =~= note_json(m@));
    out
}

/// The JSON report.
fn render_json(urls: &Vec<PortalUrl>, notes: &Vec<StatusNote>) -> (r: Vec<char>)
    ensures
        r@ == json_report(portal_views(urls@), note_views(notes@)),
{
    let ghost items = portal_views(urls@).map_values(|p: PortalUrlView| url_json(p))
        + note_views(notes@).map_values(|m: Seq<char>| note_json(m));
    let mut out: Vec<char> = Vec::new();
    append_str(&mut out, "[");
    let ghost head = out@;
    let mut i: usize = 0;
    while i < urls.len()
        invariant
            i <= urls.len(),
            items == portal_views(urls@).map_values(|p: PortalUrlView| url_json(p))
                + note_views(notes@).map_values(|m: Seq<char>| note_json(m)),
            out@ == head + join_commas(items.take(i as int)),
        decreases urls.len() - i,
    {
        proof {
            lemma_join_commas_step(items, i as int);
            assert(items[i as int] == url_json(urls@[i as int]@));
        }
        if i > 0 {
            out.push(',');
        }
        let obj = url_json_of(&urls[i]);
        append_chars(&mut out, &obj);
        assert(out@ =~= head + join_commas(items.take(i + 1)));
        i = i + 1;
    }
    let mut j: usize = 0;
    while j < notes.len()
        invariant
            j <= notes.len(),
            items == portal_views(urls@).map_values(|p: PortalUrlView| url_json(p))
                + note_views(notes@).map_values(|m: Seq<char>| note_json(m)),
            out@ == head + join_commas(items.take(urls.len() + j)),
        decreases notes.len() - j,
    {
        proof {
            lemma_join_commas_step(items, urls.len() + j);
            assert(items[urls.len() + j] == note_json(notes@[j as int]@));
        }
        if urls.len() > 0 || j > 0 {
            out.push(',');
        }
        let obj = note_json_of(&notes[j]);
        append_chars(&mut out, &obj);
        assert(out@ =~= head + join_commas(items.take(urls.len() + j + 1)));
        j = j + 1;
    }
    assert(items.take(urls.len() + notes.len()) == items);
    append_str(&mut out, "]\n");
    assert(out@ =~= json_report(portal_views(urls@), note_views(notes@)));
    out
}

/// What the tool prints: the candidates ranked and de-duplicated, as a
/// table followed by the status notes, or as one JSON array when `json`.
pub fn render_results(urls: Vec<PortalUrl>, notes: &Vec<StatusNote>, json: bool, verbose: bool) -> (r:
    String)
    ensures
        r@ == results_report(portal_views(urls@), note_views(notes@), json, verbose),
{
    let ranked_urls = deduplicate_and_sort(urls);
    let out = if json {
        render_json(&ranked_urls, notes)
    } else {
        render_text(&ranked_urls, notes, verbose)
    };
    string_of(&out)
}

proof fn lemma_dedup_nonempty(urls: Seq<PortalUrlView>)
    ensures
        dedup_sorted_spec(urls).len() > 0 <==> urls.len() > 0,
{
    let d = dedup_sorted_spec(urls);
    if urls.len() > 0 {
        law_every_url_represented(urls);
        assert(url_keys(d).contains(normalize_spec(urls[0].url)));
    } else {
        lemma_ranked_upto_members(urls, 256);
        let t = ranked(urls);
        assert(t.len() == 0) by {
            if t.len() > 0 {
                assert(t.contains(t[0]));
                assert(urls.contains(t[0]));
            }
        }
        assert(t =~= Seq::<PortalUrlView>::empty());
        assert(d.len() == 0);
    }
}

/// The verbose flag only ever adds the line `(no detectors found
/// anything)`, and only when no URL and no note was found. When a URL was
/// found, the text report ends with the closing rule and then the status
/// lines, verbose or not; when a note was found, verbose changes nothing;
/// when nothing was found, the verbose report is the plain one followed by
/// that line. The JSON report ignores the flag.
pub proof fn law_verbose_only_reports_empty_runs(
    urls: Seq<PortalUrlView>,
    notes: Seq<Seq<char>>,
    verbose: bool,
)
    ensures
        urls.len() > 0 || notes.len() > 0 ==> results_report(urls, notes, false, true)
            == results_report(urls, notes, false, false),
        urls.len() == 0 && notes.len() == 0 ==> results_report(urls, notes, false, true)
            == results_report(urls, notes, false, false) + "(no detectors found anything)\n"@,
        urls.len() > 0 ==> ({
            let r = results_report(urls, notes, false, verbose);
            let tail = rule_line() + status_lines(notes);
            r.len() >= tail.len() && r.skip(r.len() - tail.len()) == tail
        }),
        results_report(urls, notes, true, true) == results_report(urls, notes, true, false),
{
    lemma_dedup_nonempty(urls);
    let d = dedup_sorted_spec(urls);
    if urls.len() > 0 {
        let head = "Captive portal URLs detected:\n"@ + rule_line() + url_rows(d);
        let tail = rule_line() + status_lines(notes);
        let r = results_report(urls, notes, false, verbose);
        assert(r =~= head + tail);
        assert(r.skip(r.len() - tail.len()) =~= tail);
    }
    if urls.len() == 0 && notes.len() == 0 {
        assert(results_report(urls, notes, false, true) =~= results_report(urls, notes, false, false)
            + "(no detectors found anything)\n"@);
    }
    if notes.len() > 0 {
        assert(results_report(urls, notes, false, true) =~= results_report(urls, notes, false, false));
    }
}

} // verus!
