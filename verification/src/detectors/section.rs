//! A URL given as `key=value` inside one `[section]` of an INI-style file,
//! as NetworkManager writes its device state and configuration.
use vstd::prelude::*;
use crate::text::{
    char_vecs, chars_eq, chars_of, has_prefix, lines_of, lines_spec, slice_chars, starts_with,
    string_of, trim_char, trim_char_spec, trim_chars, trim_spec,
};
use crate::urls::{is_valid_url, url_parse_spec};

verus! {

/// The value of a `key=value` line (already trimmed): the text after the
/// key, trimmed, and with surrounding double quotes removed when
/// `unquote`.
pub open spec fn entry_value(t: Seq<char>, key: Seq<char>, unquote: bool) -> Seq<char> {
    let v = trim_spec(t.skip(key.len() as int));
    if unquote {
        trim_char_spec(v, '"')
    } else {
        v
    }
}

/// Scanning `lines` with `in_section` telling whether the lines before
/// were inside the `header` section: the value of the first `key` line
/// inside that section whose value parses as a URL. A line that starts,
/// trimmed, with `[` opens a section, the one wanted when it is exactly
/// `header`.
pub open spec fn section_url(
    lines: Seq<Seq<char>>,
    in_section: bool,
    header: Seq<char>,
    key: Seq<char>,
    unquote: bool,
) -> Option<Seq<char>>
    decreases lines.len(),
{
    if lines.len() == 0 {
        None
    } else {
        let t = trim_spec(lines[0]);
        if t.len() > 0 && t[0] == '[' {
            section_url(lines.drop_first(), t == header, header, key, unquote)
        } else if in_section && has_prefix(t, key) && url_parse_spec(
            entry_value(t, key, unquote),
        ) is Some {
            Some(entry_value(t, key, unquote))
        } else {
            section_url(lines.drop_first(), in_section, header, key, unquote)
        }
    }
}

/// The URL that `content` gives for `key` inside its `header` section,
/// as `section_url` describes it, scanning from outside any section.
pub fn find_section_url(content: &str, header: &str, key: &str, unquote: bool) -> (r: Option<
    String,
>)
    ensures
        match r {
            Some(u) => section_url(lines_spec(content@), false, header@, key@, unquote) == Some(
                u@,
            ),
            None => section_url(lines_spec(content@), false, header@, key@, unquote) is None,
        },
{
    let lines = lines_of(&chars_of(content));
    let ghost ls = char_vecs(lines@);
    let h = chars_of(header);
    let k = chars_of(key);
    let mut in_section = false;
    let mut i: usize = 0;
    assert(ls.skip(0) == ls);
    while i < lines.len()
        invariant
            i <= lines.len(),
            ls == char_vecs(lines@),
            ls == lines_spec(content@),
            h@ == header@,
            k@ == key@,
            section_url(ls, false, header@, key@, unquote) == section_url(
                ls.skip(i as int),
                in_section,
                header@,
                key@,
                unquote,
            ),
        decreases lines.len() - i,
    {
        let ghost rest = ls.skip(i as int);
        assert(rest[0] == lines@[i as int]@);
        assert(rest.drop_first() == ls.skip(i + 1));
        let t = trim_chars(&lines[i]);
        if t.len() > 0 && t[0] == '[' {
            in_section = chars_eq(&t, &h);
        } else if in_section && starts_with(&t, &k) {
            let rest_chars = slice_chars(&t, k.len(), t.len());
            assert(rest_chars@ == t@.skip(k@.len() as int));
            let trimmed = trim_chars(&rest_chars);
            let value = if unquote {
                trim_char(&trimmed, '"')
            } else {
                trimmed
            };
            let candidate = string_of(&value);
            if is_valid_url(candidate.as_str()) {
                return Some(candidate);
            }
        }
        i = i + 1;
    }
    None
}

} // verus!
