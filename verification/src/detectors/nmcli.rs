//! NetworkManager's own verdict on connectivity, as `nmcli` reports it: it
//! confirms a portal but gives no URL.
use vstd::prelude::*;
use crate::text::{chars_eq, chars_of, lines_of, lines_spec, trim_chars, trim_spec};
use crate::types::{note_views, StatusNote};

verus! {

/// `c` with an ASCII upper-case letter made lower case.
pub open spec fn ascii_lower(c: char) -> char {
    if 'A' <= c && c <= 'Z' {
        ((c as int) + 32) as char
    } else {
        c
    }
}

/// The connectivity state that terse `nmcli` output reports: its last
/// line (empty when there is none), trimmed and in ASCII lower case.
pub open spec fn nmcli_state(stdout: Seq<char>) -> Seq<char> {
    let ls = lines_spec(stdout);
    let last = if ls.len() > 0 {
        ls.last()
    } else {
        Seq::empty()
    };
    trim_spec(last).map_values(|c: char| ascii_lower(c))
}

/// The notes for the reported state: `portal` confirms a captive portal,
/// `limited` suggests one, anything else gives none.
pub open spec fn nmcli_notes_spec(stdout: Seq<char>) -> Seq<Seq<char>> {
    let state = nmcli_state(stdout);
    if state == "portal"@ {
        seq!["nmcli reports CONNECTIVITY=portal (captive portal confirmed)"@]
    } else if state == "limited"@ {
        seq!["nmcli reports CONNECTIVITY=limited (possible captive portal)"@]
    } else {
        Seq::empty()
    }
}

fn lower_ascii(c: char) -> (r: char)
    ensures
        r == ascii_lower(c),
{
    if 'A' <= c && c <= 'Z' {
        ((c as u8) + 32) as char
    } else {
        c
    }
}

/// The status notes for the output of `nmcli -t -f CONNECTIVITY general
/// status`.
pub fn nmcli_notes(stdout: &str) -> (r: Vec<StatusNote>)
    ensures
        note_views(r@) == nmcli_notes_spec(stdout@),
{
    let lines = lines_of(&chars_of(stdout));
    let last: Vec<char> = if lines.len() > 0 {
        trim_chars(&lines[lines.len() - 1])
    } else {
        Vec::new()
    };
    let mut state: Vec<char> = Vec::new();
    let mut i: usize = 0;
    while i < last.len()
        invariant
            i <= last.len(),
            state@ == last@.take(i as int).map_values(|c: char| ascii_lower(c)),
        decreases last.len() - i,
    {
        state.push(lower_ascii(last[i]));
        assert(last@.take(i + 1).map_values(|c: char| ascii_lower(c)) =~= last@.take(
            i as int,
        ).map_values(|c: char| ascii_lower(c)).push(ascii_lower(last@[i as int])));
        i = i + 1;
    }
    assert(last@.take(last.len() as int) == last@);
    proof {
        let ls = lines_spec(stdout@);
        if ls.len() > 0 {
            assert(ls.last() == lines@[lines.len() - 1]@);
        } else {
            assert(trim_spec(Seq::<char>::empty()) == Seq::<char>::empty());
        }
    }
    assert(state@ == nmcli_state(stdout@));
    let mut r: Vec<StatusNote> = Vec::new();
    if chars_eq(&state, &chars_of("portal")) {
        r.push(
            StatusNote {
                message: String::from_str(
                    "nmcli reports CONNECTIVITY=portal (captive portal confirmed)",
                ),
            },
        );
    } else if chars_eq(&state, &chars_of("limited")) {
        r.push(
            StatusNote {
                message: String::from_str(
                    "nmcli reports CONNECTIVITY=limited (possible captive portal)",
                ),
            },
        );
    }
    assert(note_views(r@) =~= nmcli_notes_spec(stdout@));
    r
}

/// Only the states `portal` and `limited` give a note, one each, with
/// its own message; any other state (`none`, `full`, `unknown`, ...) gives
/// none. The state is the last line of the output (none when there is no
/// line), trimmed, with ASCII letters in lower case.
pub proof fn law_only_portal_or_limited_give_notes(stdout: Seq<char>)
    ensures
        ({
            let ls = lines_spec(stdout);
            let last = if ls.len() > 0 {
                ls.last()
            } else {
                Seq::<char>::empty()
            };
            let state = trim_spec(last).map_values(|c: char| ascii_lower(c));
            &&& state == "portal"@ ==> nmcli_notes_spec(stdout) == seq![
                "nmcli reports CONNECTIVITY=portal (captive portal confirmed)"@,
            ]
            &&& state == "limited"@ ==> nmcli_notes_spec(stdout) == seq![
                "nmcli reports CONNECTIVITY=limited (possible captive portal)"@,
            ]
            &&& state != "portal"@ && state != "limited"@ ==> nmcli_notes_spec(stdout).len() == 0
        }),
{
    let ls = lines_spec(stdout);
    let last = if ls.len() > 0 {
        ls.last()
    } else {
        Seq::<char>::empty()
    };
    let state = trim_spec(last).map_values(|c: char| ascii_lower(c));
    assert(state =~= nmcli_state(stdout));
    reveal_strlit("portal");
    reveal_strlit("limited");
    assert("portal"@.len() != "limited"@.len());
}

} // verus!
