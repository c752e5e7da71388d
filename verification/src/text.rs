//! Character-level text helpers: whitespace trimming, line and word
//! splitting, prefix tests and decimal rendering, each stated over
//! `Seq<char>` so that the parsers built on them can be specified exactly.
use vstd::prelude::*;

verus! {

/// Unicode `White_Space`, the set that `char::is_whitespace` tests.
pub open spec fn is_ws(c: char) -> bool {
    ||| ('\u{9}' <= c && c <= '\u{d}')
    ||| c == ' '
    ||| c == '\u{85}'
    ||| c == '\u{a0}'
    ||| c == '\u{1680}'
    ||| ('\u{2000}' <= c && c <= '\u{200a}')
    ||| c == '\u{2028}'
    ||| c == '\u{2029}'
    ||| c == '\u{202f}'
    ||| c == '\u{205f}'
    ||| c == '\u{3000}'
}

pub fn is_whitespace(c: char) -> (r: bool)
    ensures
        r == is_ws(c),
{
    ('\u{9}' <= c && c <= '\u{d}') || c == ' ' || c == '\u{85}' || c == '\u{a0}' || c == '\u{1680}'
        || ('\u{2000}' <= c && c <= '\u{200a}') || c == '\u{2028}' || c == '\u{2029}' || c
        == '\u{202f}' || c == '\u{205f}' || c == '\u{3000}'
}

/// `s` with its leading whitespace removed (`str::trim_start`).
pub open spec fn trim_start_spec(s: Seq<char>) -> Seq<char>
    decreases s.len(),
{
    if s.len() > 0 && is_ws(s[0]) {
        trim_start_spec(s.drop_first())
    } else {
        s
    }
}

/// `s` with its trailing whitespace removed (`str::trim_end`).
pub open spec fn trim_end_spec(s: Seq<char>) -> Seq<char>
    decreases s.len(),
{
    if s.len() > 0 && is_ws(s.last()) {
        trim_end_spec(s.drop_last())
    } else {
        s
    }
}

/// `s` with whitespace removed from both ends (`str::trim`).
pub open spec fn trim_spec(s: Seq<char>) -> Seq<char> {
    trim_end_spec(trim_start_spec(s))
}

/// `s` with every leading and trailing occurrence of `c` removed
/// (`str::trim_matches` with a single character).
pub open spec fn trim_char_start_spec(s: Seq<char>, c: char) -> Seq<char>
    decreases s.len(),
{
    if s.len() > 0 && s[0] == c {
        trim_char_start_spec(s.drop_first(), c)
    } else {
        s
    }
}

pub open spec fn trim_char_end_spec(s: Seq<char>, c: char) -> Seq<char>
    decreases s.len(),
{
    if s.len() > 0 && s.last() == c {
        trim_char_end_spec(s.drop_last(), c)
    } else {
        s
    }
}

pub open spec fn trim_char_spec(s: Seq<char>, c: char) -> Seq<char> {
    trim_char_end_spec(trim_char_start_spec(s, c), c)
}

/// Whether `p` is a prefix of `s`.
pub open spec fn has_prefix(s: Seq<char>, p: Seq<char>) -> bool {
    p.len() <= s.len() && s.take(p.len() as int) == p
}

/// Whether `p` is a suffix of `s`.
pub open spec fn has_suffix(s: Seq<char>, p: Seq<char>) -> bool {
    p.len() <= s.len() && s.skip(s.len() - p.len()) == p
}

/// Whether `c` occurs in `s`.
pub open spec fn has_char(s: Seq<char>, c: char) -> bool {
    exists|i: int| 0 <= i < s.len() && s[i] == c
}

/// The pieces of `s` between separators, as `str::split` gives them:
/// one more piece than there are separators, empty pieces included.
pub open spec fn split_by(s: Seq<char>, sep: spec_fn(char) -> bool) -> Seq<Seq<char>>
    decreases s.len(),
{
    if s.len() == 0 {
        seq![Seq::empty()]
    } else {
        let p = split_by(s.drop_last(), sep);
        if sep(s.last()) {
            p.push(Seq::empty())
        } else {
            p.update(p.len() - 1, p.last().push(s.last()))
        }
    }
}

pub proof fn lemma_split_by_nonempty(s: Seq<char>, sep: spec_fn(char) -> bool)
    ensures
        split_by(s, sep).len() >= 1,
    decreases s.len(),
{
    if s.len() > 0 {
        lemma_split_by_nonempty(s.drop_last(), sep);
    }
}

pub open spec fn newline_sep() -> spec_fn(char) -> bool {
    |c: char| c == '\n'
}

pub open spec fn ws_sep() -> spec_fn(char) -> bool {
    |c: char| is_ws(c)
}

/// `l` without one trailing carriage return.
pub open spec fn strip_cr(l: Seq<char>) -> Seq<char> {
    if l.len() > 0 && l.last() == '\r' {
        l.drop_last()
    } else {
        l
    }
}

/// The lines of `s` as `str::lines` yields them: split at `'\n'`, a `'\r'`
/// just before a `'\n'` removed, and no empty last line after a final
/// line ending.
pub open spec fn lines_spec(s: Seq<char>) -> Seq<Seq<char>> {
    let p = split_by(s, newline_sep());
    let n = p.len();
    Seq::new((n - 1) as nat, |i: int| strip_cr(p[i])) + if p[n - 1].len() > 0 {
        seq![p[n - 1]]
    } else {
        Seq::empty()
    }
}

/// The pieces of `p` that are not empty, in order.
pub open spec fn drop_empty(p: Seq<Seq<char>>) -> Seq<Seq<char>>
    decreases p.len(),
{
    if p.len() == 0 {
        p
    } else if p.last().len() > 0 {
        drop_empty(p.drop_last()).push(p.last())
    } else {
        drop_empty(p.drop_last())
    }
}

/// The whitespace-separated words of `s` (`str::split_whitespace`).
pub open spec fn words_spec(s: Seq<char>) -> Seq<Seq<char>> {
    drop_empty(split_by(s, ws_sep()))
}

/// The views of a sequence of character vectors.
pub open spec fn char_vecs(v: Seq<Vec<char>>) -> Seq<Seq<char>> {
    v.map_values(|w: Vec<char>| w@)
}

/// The views of a sequence of strings.
pub open spec fn strings(v: Seq<String>) -> Seq<Seq<char>> {
    v.map_values(|w: String| w@)
}

/// The decimal digit for `d`.
pub open spec fn digit_char(d: nat) -> char {
    if d == 0 {
        '0'
    } else if d == 1 {
        '1'
    } else if d == 2 {
        '2'
    } else if d == 3 {
        '3'
    } else if d == 4 {
        '4'
    } else if d == 5 {
        '5'
    } else if d == 6 {
        '6'
    } else if d == 7 {
        '7'
    } else if d == 8 {
        '8'
    } else {
        '9'
    }
}

/// The decimal representation of `n`, without leading zeros.
pub open spec fn decimal(n: nat) -> Seq<char>
    decreases n,
{
    if n < 10 {
        seq![digit_char(n)]
    } else {
        decimal(n / 10).push(digit_char(n % 10))
    }
}

/// Calls `String::push`. The contract claims that afterwards the string
/// holds its former characters followed by `c`.
#[verifier::external_body]
pub fn push_char(s: &mut String, c: char)
    ensures
        final(s)@ == old(s)@.push(c),
{
    s.push(c);
}

/// The characters of `s`, in order.
pub fn chars_of(s: &str) -> (r: Vec<char>)
    ensures
        r@ == s@,
{
    let mut r: Vec<char> = Vec::new();
    for c in it: s.chars()
        invariant
            r@ == it.seq().take(it.index() as int),
            it.seq() == s@,
    {
        r.push(c);
    }
    r
}

/// A string holding the characters of `v`.
pub fn string_of(v: &Vec<char>) -> (r: String)
    ensures
        r@ == v@,
{
    let mut r = String::new();
    let mut i: usize = 0;
    while i < v.len()
        invariant
            i <= v.len(),
            r@ == v@.take(i as int),
        decreases v.len() - i,
    {
        push_char(&mut r, v[i]);
        assert(v@.take(i + 1) == v@.take(i as int).push(v@[i as int]));
        i = i + 1;
    }
    assert(v@.take(v.len() as int) == v@);
    r
}

/// Appends all characters of `src` to `dst`.
pub fn append_chars(dst: &mut Vec<char>, src: &Vec<char>)
    ensures
        final(dst)@ == old(dst)@ + src@,
{
    let ghost start = dst@;
    let mut i: usize = 0;
    while i < src.len()
        invariant
            i <= src.len(),
            dst@ == start + src@.take(i as int),
        decreases src.len() - i,
    {
        dst.push(src[i]);
        assert(src@.take(i + 1) == src@.take(i as int).push(src@[i as int]));
        i = i + 1;
    }
    assert(src@.take(src.len() as int) == src@);
}

/// The characters `v[from..to]`.
pub fn slice_chars(v: &Vec<char>, from: usize, to: usize) -> (r: Vec<char>)
    requires
        from <= to <= v.len(),
    ensures
        r@ == v@.subrange(from as int, to as int),
{
    let mut r: Vec<char> = Vec::new();
    let mut i = from;
    while i < to
        invariant
            from <= i <= to <= v.len(),
            r@ == v@.subrange(from as int, i as int),
        decreases to - i,
    {
        r.push(v[i]);
        assert(v@.subrange(from as int, i + 1) == v@.subrange(from as int, i as int).push(
            v@[i as int],
        ));
        i = i + 1;
    }
    r
}

/// Whether the two character sequences are equal.
pub fn chars_eq(a: &Vec<char>, b: &Vec<char>) -> (r: bool)
    ensures
        r == (a@ == b@),
{
    if a.len() != b.len() {
        return false;
    }
    let mut i: usize = 0;
    while i < a.len()
        invariant
            i <= a.len() == b.len(),
            a@.take(i as int) == b@.take(i as int),
        decreases a.len() - i,
    {
        if a[i] != b[i] {
            assert(a@[i as int] != b@[i as int]);
            return false;
        }
        assert(a@.take(i + 1) == a@.take(i as int).push(a@[i as int]));
        assert(b@.take(i + 1) == b@.take(i as int).push(b@[i as int]));
        i = i + 1;
    }
    assert(a@.take(a.len() as int) == a@);
    assert(b@.take(b.len() as int) == b@);
    true
}

/// Whether `p` is a prefix of `s`.
pub fn starts_with(s: &Vec<char>, p: &Vec<char>) -> (r: bool)
    ensures
        r == has_prefix(s@, p@),
{
    if p.len() > s.len() {
        return false;
    }
    let head = slice_chars(s, 0, p.len());
    assert(head@ == s@.take(p.len() as int));
    chars_eq(&head, p)
}

/// Whether `p` is a suffix of `s`.
pub fn ends_with(s: &Vec<char>, p: &Vec<char>) -> (r: bool)
    ensures
        r == has_suffix(s@, p@),
{
    if p.len() > s.len() {
        return false;
    }
    let tail = slice_chars(s, s.len() - p.len(), s.len());
    assert(tail@ == s@.skip(s.len() - p.len()));
    chars_eq(&tail, p)
}

/// Whether `c` occurs in `s`.
pub fn contains_char(s: &Vec<char>, c: char) -> (r: bool)
    ensures
        r == has_char(s@, c),
{
    let mut i: usize = 0;
    while i < s.len()
        invariant
            i <= s.len(),
            forall|j: int| 0 <= j < i ==> s@[j] != c,
        decreases s.len() - i,
    {
        if s[i] == c {
            return true;
        }
        i = i + 1;
    }
    false
}

proof fn lemma_trim_start_skip(s: Seq<char>, k: int)
    requires
        0 <= k <= s.len(),
        forall|j: int| 0 <= j < k ==> is_ws(s[j]),
    ensures
        trim_start_spec(s) == trim_start_spec(s.skip(k)),
    decreases k,
{
    if k > 0 {
        assert(s.drop_first().skip(k - 1) == s.skip(k));
        lemma_trim_start_skip(s.drop_first(), k - 1);
    } else {
        assert(s.skip(0) == s);
    }
}

proof fn lemma_trim_end_take(s: Seq<char>, k: int)
    requires
        0 <= k <= s.len(),
        forall|j: int| k <= j < s.len() ==> is_ws(s[j]),
    ensures
        trim_end_spec(s) == trim_end_spec(s.take(k)),
    decreases s.len() - k,
{
    if k < s.len() {
        assert(s.drop_last().take(k) == s.take(k));
        lemma_trim_end_take(s.drop_last(), k);
    } else {
        assert(s.take(k) == s);
    }
}

/// `s` with leading and trailing whitespace removed.
pub fn trim_chars(s: &Vec<char>) -> (r: Vec<char>)
    ensures
        r@ == trim_spec(s@),
{
    let mut a: usize = 0;
    while a < s.len() && is_whitespace(s[a])
        invariant
            a <= s.len(),
            forall|j: int| 0 <= j < a ==> is_ws(s@[j]),
        decreases s.len() - a,
    {
        a = a + 1;
    }
    proof {
        lemma_trim_start_skip(s@, a as int);
    }
    let mut b: usize = s.len();
    while b > a && is_whitespace(s[b - 1])
        invariant
            a <= b <= s.len(),
            forall|j: int| b <= j < s.len() ==> is_ws(s@[j]),
        decreases b,
    {
        b = b - 1;
    }
    let r = slice_chars(s, a, b);
    proof {
        let t = s@.skip(a as int);
        assert(a == s.len() || !is_ws(t[0]));
        assert(trim_start_spec(t) == t);
        assert forall|j: int| (b - a) <= j < t.len() implies is_ws(t[j]) by {
            assert(t[j] == s@[a + j]);
        }
        lemma_trim_end_take(t, b - a);
        assert(t.take(b - a) == s@.subrange(a as int, b as int));
        let u = t.take(b - a);
        assert(u.len() == 0 || !is_ws(u.last())) by {
            if u.len() > 0 {
                assert(u.last() == s@[b - 1]);
            }
        }
        assert(trim_end_spec(u) == u);
    }
    r
}

proof fn lemma_trim_char_start_skip(s: Seq<char>, c: char, k: int)
    requires
        0 <= k <= s.len(),
        forall|j: int| 0 <= j < k ==> s[j] == c,
    ensures
        trim_char_start_spec(s, c) == trim_char_start_spec(s.skip(k), c),
    decreases k,
{
    if k > 0 {
        assert(s.drop_first().skip(k - 1) == s.skip(k));
        lemma_trim_char_start_skip(s.drop_first(), c, k - 1);
    } else {
        assert(s.skip(0) == s);
    }
}

proof fn lemma_trim_char_end_take(s: Seq<char>, c: char, k: int)
    requires
        0 <= k <= s.len(),
        forall|j: int| k <= j < s.len() ==> s[j] == c,
    ensures
        trim_char_end_spec(s, c) == trim_char_end_spec(s.take(k), c),
    decreases s.len() - k,
{
    if k < s.len() {
        assert(s.drop_last().take(k) == s.take(k));
        lemma_trim_char_end_take(s.drop_last(), c, k);
    } else {
        assert(s.take(k) == s);
    }
}

/// `s` with every leading and trailing `c` removed.
pub fn trim_char(s: &Vec<char>, c: char) -> (r: Vec<char>)
    ensures
        r@ == trim_char_spec(s@, c),
{
    let mut a: usize = 0;
    while a < s.len() && s[a] == c
        invariant
            a <= s.len(),
            forall|j: int| 0 <= j < a ==> s@[j] == c,
        decreases s.len() - a,
    {
        a = a + 1;
    }
    proof {
        lemma_trim_char_start_skip(s@, c, a as int);
    }
    let mut b: usize = s.len();
    while b > a && s[b - 1] == c
        invariant
            a <= b <= s.len(),
            forall|j: int| b <= j < s.len() ==> s@[j] == c,
        decreases b,
    {
        b = b - 1;
    }
    let r = slice_chars(s, a, b);
    proof {
        let t = s@.skip(a as int);
        assert(trim_char_start_spec(t, c) == t);
        assert forall|j: int| (b - a) <= j < t.len() implies t[j] == c by {
            assert(t[j] == s@[a + j]);
        }
        lemma_trim_char_end_take(t, c, b - a);
        assert(t.take(b - a) == s@.subrange(a as int, b as int));
        let u = t.take(b - a);
        assert(u.len() == 0 || u.last() != c) by {
            if u.len() > 0 {
                assert(u.last() == s@[b - 1]);
            }
        }
        assert(trim_char_end_spec(u, c) == u);
    }
    r
}

/// Splits `s` at every separator: `'\n'` when `newline`, whitespace
/// otherwise.
pub fn split_chars(s: &Vec<char>, newline: bool) -> (r: Vec<Vec<char>>)
    ensures
        char_vecs(r@) == split_by(s@, if newline { newline_sep() } else { ws_sep() }),
{
    let ghost sep = if newline { newline_sep() } else { ws_sep() };
    let mut done: Vec<Vec<char>> = Vec::new();
    let mut cur: Vec<char> = Vec::new();
    let mut i: usize = 0;
    assert(s@.take(0) == Seq::<char>::empty());
    assert(char_vecs(done@).push(cur@) == split_by(s@.take(0), sep));
    while i < s.len()
        invariant
            i <= s.len(),
            sep == (if newline { newline_sep() } else { ws_sep() }),
            char_vecs(done@).push(cur@) == split_by(s@.take(i as int), sep),
        decreases s.len() - i,
    {
        let c = s[i];
        let is_sep = if newline { c == '\n' } else { is_whitespace(c) };
        let ghost pre = s@.take(i as int);
        assert(s@.take(i + 1).drop_last() == pre);
        assert(s@.take(i + 1).last() == c);
        assert(is_sep == sep(c));
        if is_sep {
            let ghost old_done = done@;
            let w = cur;
            done.push(w);
            cur = Vec::new();
            assert(char_vecs(done@) == char_vecs(old_done).push(w@));
        } else {
            let ghost old_cur = cur@;
            cur.push(c);
            proof {
                lemma_split_by_nonempty(pre, sep);
                let p = split_by(pre, sep);
                assert(p.last() == old_cur);
                assert(char_vecs(done@).push(cur@) == p.update(p.len() - 1, p.last().push(c)));
            }
        }
        i = i + 1;
    }
    assert(s@.take(s.len() as int) == s@);
    let ghost old_done = done@;
    done.push(cur);
    assert(char_vecs(done@) == char_vecs(old_done).push(cur@));
    done
}

/// The lines of `s`, as `str::lines` yields them.
pub fn lines_of(s: &Vec<char>) -> (r: Vec<Vec<char>>)
    ensures
        char_vecs(r@) == lines_spec(s@),
{
    let pieces = split_chars(s, true);
    proof {
        lemma_split_by_nonempty(s@, newline_sep());
    }
    let n = pieces.len();
    let mut r: Vec<Vec<char>> = Vec::new();
    let mut i: usize = 0;
    while i + 1 < n
        invariant
            n == pieces.len() >= 1,
            i <= n - 1,
            char_vecs(pieces@) == split_by(s@, newline_sep()),
            char_vecs(r@) == Seq::new(i as nat, |k: int| strip_cr(char_vecs(pieces@)[k])),
        decreases n - i,
    {
        let p = &pieces[i];
        let line = if p.len() > 0 && p[p.len() - 1] == '\r' {
            slice_chars(p, 0, p.len() - 1)
        } else {
            slice_chars(p, 0, p.len())
        };
        proof {
            assert(p@ == char_vecs(pieces@)[i as int]);
            assert(p@.subrange(0, p@.len() as int) == p@);
            assert(line@ == strip_cr(p@));
        }
        let ghost old_r = r@;
        r.push(line);
        assert(char_vecs(r@) == char_vecs(old_r).push(line@));
        i = i + 1;
    }
    let last = &pieces[n - 1];
    assert(last@ == char_vecs(pieces@)[n - 1]);
    if last.len() > 0 {
        let ghost old_r = r@;
        r.push(slice_chars(last, 0, last.len()));
        assert(last@.subrange(0, last@.len() as int) == last@);
        assert(char_vecs(r@) == char_vecs(old_r).push(last@));
    }
    r
}

/// The whitespace-separated words of `s`.
pub fn words_of(s: &Vec<char>) -> (r: Vec<Vec<char>>)
    ensures
        char_vecs(r@) == words_spec(s@),
{
    let pieces = split_chars(s, false);
    let mut r: Vec<Vec<char>> = Vec::new();
    let mut i: usize = 0;
    while i < pieces.len()
        invariant
            i <= pieces.len(),
            char_vecs(pieces@) == split_by(s@, ws_sep()),
            char_vecs(r@) == drop_empty(char_vecs(pieces@).take(i as int)),
        decreases pieces.len() - i,
    {
        let ghost pre = char_vecs(pieces@).take(i as int);
        let ghost next = char_vecs(pieces@).take(i + 1);
        assert(next.drop_last() == pre);
        assert(next.last() == pieces@[i as int]@);
        if pieces[i].len() > 0 {
            let w = slice_chars(&pieces[i], 0, pieces[i].len());
            assert(pieces@[i as int]@.subrange(0, pieces@[i as int]@.len() as int)
                == pieces@[i as int]@);
            let ghost old_r = r@;
            r.push(w);
            assert(char_vecs(r@) == char_vecs(old_r).push(w@));
        }
        i = i + 1;
    }
    assert(char_vecs(pieces@).take(pieces.len() as int) == char_vecs(pieces@));
    r
}

/// The decimal representation of `n`.
pub fn decimal_of(n: u64) -> (r: Vec<char>)
    ensures
        r@ == decimal(n as nat),
    decreases n,
{
    let d = n % 10;
    let c = if d == 0 {
        '0'
    } else if d == 1 {
        '1'
    } else if d == 2 {
        '2'
    } else if d == 3 {
        '3'
    } else if d == 4 {
        '4'
    } else if d == 5 {
        '5'
    } else if d == 6 {
        '6'
    } else if d == 7 {
        '7'
    } else if d == 8 {
        '8'
    } else {
        '9'
    };
    assert(c == digit_char(d as nat));
    if n < 10 {
        let mut r = Vec::new();
        r.push(c);
        r
    } else {
        let mut r = decimal_of(n / 10);
        r.push(c);
        r
    }
}

/// A copy of a list of strings.
pub fn clone_strings(v: &Vec<String>) -> (r: Vec<String>)
    ensures
        strings(r@) == strings(v@),
{
    let mut r: Vec<String> = Vec::new();
    let mut i: usize = 0;
    while i < v.len()
        invariant
            i <= v.len(),
            strings(r@) == strings(v@.take(i as int)),
        decreases v.len() - i,
    {
        let ghost before = r@;
        let item: String = v[i].clone();
        assert(item@ == v@[i as int]@);
        r.push(item);
        assert(strings(r@) =~= strings(before).push(item@));
        assert(strings(v@.take(i + 1)) =~= strings(v@.take(i as int)).push(v@[i as int]@));
        i = i + 1;
    }
    assert(v@.take(v.len() as int) == v@);
    r
}

/// The view of an optional string slice.
pub open spec fn opt_str(o: Option<&str>) -> Option<Seq<char>> {
    match o {
        Some(s) => Some(s@),
        None => None,
    }
}

/// The upper-case hexadecimal digit for `d` (for `d < 16`).
pub open spec fn hex_upper(d: nat) -> char {
    if d == 0 {
        '0'
    } else if d == 1 {
        '1'
    } else if d == 2 {
        '2'
    } else if d == 3 {
        '3'
    } else if d == 4 {
        '4'
    } else if d == 5 {
        '5'
    } else if d == 6 {
        '6'
    } else if d == 7 {
        '7'
    } else if d == 8 {
        '8'
    } else if d == 9 {
        '9'
    } else if d == 10 {
        'A'
    } else if d == 11 {
        'B'
    } else if d == 12 {
        'C'
    } else if d == 13 {
        'D'
    } else if d == 14 {
        'E'
    } else {
        'F'
    }
}

/// The upper-case hexadecimal digit for `d`.
pub fn hex_upper_of(d: u32) -> (r: char)
    requires
        d < 16,
    ensures
        r == hex_upper(d as nat),
{
    if d == 0 {
        '0'
    } else if d == 1 {
        '1'
    } else if d == 2 {
        '2'
    } else if d == 3 {
        '3'
    } else if d == 4 {
        '4'
    } else if d == 5 {
        '5'
    } else if d == 6 {
        '6'
    } else if d == 7 {
        '7'
    } else if d == 8 {
        '8'
    } else if d == 9 {
        '9'
    } else if d == 10 {
        'A'
    } else if d == 11 {
        'B'
    } else if d == 12 {
        'C'
    } else if d == 13 {
        'D'
    } else if d == 14 {
        'E'
    } else {
        'F'
    }
}

/// Appends the characters of a string slice.
pub fn append_str(dst: &mut Vec<char>, s: &str)
    ensures
        final(dst)@ == old(dst)@ + s@,
{
    let v = chars_of(s);
    append_chars(dst, &v);
}

} // verus!
