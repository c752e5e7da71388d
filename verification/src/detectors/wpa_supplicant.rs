//! Wi-Fi context from wpa_supplicant, shown in verbose mode: the SSID and
//! connection state that `wpa_cli status` reports for each interface.
use vstd::prelude::*;
use crate::text::{
    char_vecs, chars_of, contains_char, has_char, has_prefix, lines_of, lines_spec, slice_chars,
    starts_with, string_of,
};

verus! {

/// Whether a control-socket directory entry names an interface: socket
/// files have no extension, so a name with a `.` is skipped.
pub fn is_interface_name(name: &str) -> (r: bool)
    ensures
        r == !has_char(name@, '.'),
{
    !contains_char(&chars_of(name), '.')
}

/// The SSID and the state that the lines report: the values of the last
/// `ssid=` line and of the last `wpa_state=` line.
pub open spec fn wpa_fields(lines: Seq<Seq<char>>) -> (Option<Seq<char>>, Option<Seq<char>>)
    decreases lines.len(),
{
    if lines.len() == 0 {
        (None, None)
    } else {
        let (ssid, state) = wpa_fields(lines.drop_last());
        let l = lines.last();
        (
            if has_prefix(l, "ssid="@) {
                Some(l.skip("ssid="@.len() as int))
            } else {
                ssid
            },
            if has_prefix(l, "wpa_state="@) {
                Some(l.skip("wpa_state="@.len() as int))
            } else {
                state
            },
        )
    }
}

/// The SSID and state that `wpa_cli status` output reports, when it
/// reports both.
pub open spec fn wpa_status_spec(text: Seq<char>) -> Option<(Seq<char>, Seq<char>)> {
    match wpa_fields(lines_spec(text)) {
        (Some(ssid), Some(state)) => Some((ssid, state)),
        _ => None,
    }
}

/// The SSID and the connection state in `wpa_cli status` output, when both
/// are given.
pub fn parse_wpa_status(text: &str) -> (r: Option<(String, String)>)
    ensures
        match r {
            Some((ssid, state)) => wpa_status_spec(text@) == Some((ssid@, state@)),
            None => wpa_status_spec(text@) is None,
        },
{
    let lines = lines_of(&chars_of(text));
    let ghost ls = char_vecs(lines@);
    let ssid_key = chars_of("ssid=");
    let state_key = chars_of("wpa_state=");
    let mut ssid: Option<Vec<char>> = None;
    let mut state: Option<Vec<char>> = None;
    let mut i: usize = 0;
    while i < lines.len()
        invariant
            i <= lines.len(),
            ls == char_vecs(lines@),
            ls == lines_spec(text@),
            ssid_key@ == "ssid="@,
            state_key@ == "wpa_state="@,
            wpa_fields(ls.take(i as int)) == (
                match ssid {
                    Some(v) => Some(v@),
                    None => None::<Seq<char>>,
                },
                match state {
                    Some(v) => Some(v@),
                    None => None::<Seq<char>>,
                },
            ),
        decreases lines.len() - i,
    {
        assert(ls.take(i + 1).drop_last() == ls.take(i as int));
        assert(ls.take(i + 1).last() == lines@[i as int]@);
        let l = &lines[i];
        if starts_with(l, &ssid_key) {
            let v = slice_chars(l, ssid_key.len(), l.len());
            assert(v@ == l@.skip(ssid_key@.len() as int));
            ssid = Some(v);
        }
        if starts_with(l, &state_key) {
            let v = slice_chars(l, state_key.len(), l.len());
            assert(v@ == l@.skip(state_key@.len() as int));
            state = Some(v);
        }
        i = i + 1;
    }
    assert(ls.take(lines.len() as int) == ls);
    match (ssid, state) {
        (Some(a), Some(b)) => Some((string_of(&a), string_of(&b))),
        _ => None,
    }
}

} // verus!
