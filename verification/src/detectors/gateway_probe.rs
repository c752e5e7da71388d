//! The default gateway, read from the kernel's routing table, probed over
//! HTTP: a redirect from it points at the portal.
use vstd::prelude::*;
use crate::text::{
    char_vecs, chars_eq, chars_of, decimal, decimal_of, lines_of, lines_spec, string_of,
    trim_chars, trim_spec, trim_start_spec, trim_end_spec, words_of, words_spec, append_chars,
    opt_str, is_ws, hex_upper,
};
use crate::types::{portal_views, PortalUrl, PortalUrlView, Source, SourceView};
use crate::urls::{is_valid_url, url_parse_spec};

verus! {

/// The value of a hexadecimal digit (either case).
pub open spec fn hex_digit_value(c: char) -> Option<nat> {
    if '0' <= c && c <= '9' {
        Some((c as int - '0' as int) as nat)
    } else if 'a' <= c && c <= 'f' {
        Some((c as int - 'a' as int + 10) as nat)
    } else if 'A' <= c && c <= 'F' {
        Some((c as int - 'A' as int + 10) as nat)
    } else {
        None
    }
}

/// Whether every character of `s` is a hexadecimal digit.
pub open spec fn all_hex_digits(s: Seq<char>) -> bool {
    forall|i: int| 0 <= i < s.len() ==> (#[trigger] hex_digit_value(s[i])) is Some
}

/// The number that the hexadecimal digits `s` denote.
pub open spec fn hex_value(s: Seq<char>) -> nat
    decreases s.len(),
{
    if s.len() == 0 {
        0
    } else {
        hex_value(s.drop_last()) * 16 + match hex_digit_value(s.last()) {
            Some(d) => d,
            None => 0,
        }
    }
}

/// What `u32::from_str_radix(s, 16)` accepts: an optional `+`, then one or
/// more hexadecimal digits whose value fits in 32 bits.
pub open spec fn parse_hex_u32_spec(s: Seq<char>) -> Option<u32> {
    let digits = if s.len() > 0 && s[0] == '+' {
        s.drop_first()
    } else {
        s
    };
    if digits.len() > 0 && all_hex_digits(digits) && hex_value(digits) <= u32::MAX {
        Some(hex_value(digits) as u32)
    } else {
        None
    }
}

/// The dotted-quad form of the address whose bytes, least significant
/// first, are the bytes of `n` (`n.to_le_bytes()`).
pub open spec fn dotted_quad(n: u32) -> Seq<char> {
    decimal((n % 256) as nat) + seq!['.'] + decimal(((n / 256) % 256) as nat) + seq!['.']
        + decimal(((n / 65536) % 256) as nat) + seq!['.'] + decimal((n / 16777216) as nat)
}

/// The address that a routing-table gateway field denotes: the kernel
/// writes it as a little-endian 32-bit hexadecimal number.
pub open spec fn decode_hex_ip_spec(hex: Seq<char>) -> Option<Seq<char>> {
    match parse_hex_u32_spec(trim_spec(hex)) {
        Some(n) => Some(dotted_quad(n)),
        None => None,
    }
}

fn hex_digit(c: char) -> (r: Option<u64>)
    ensures
        match r {
            Some(d) => hex_digit_value(c) == Some(d as nat) && d < 16,
            None => hex_digit_value(c) is None,
        },
{
    if '0' <= c && c <= '9' {
        Some(((c as u32) - ('0' as u32)) as u64)
    } else if 'a' <= c && c <= 'f' {
        Some(((c as u32) - ('a' as u32) + 10) as u64)
    } else if 'A' <= c && c <= 'F' {
        Some(((c as u32) - ('A' as u32) + 10) as u64)
    } else {
        None
    }
}

proof fn lemma_hex_value_grows(s: Seq<char>, k: int)
    requires
        0 <= k <= s.len(),
    ensures
        hex_value(s.take(k)) <= hex_value(s),
    decreases s.len() - k,
{
    if k < s.len() {
        lemma_hex_value_grows(s, k + 1);
        assert(s.take(k + 1).drop_last() == s.take(k));
    } else {
        assert(s.take(k) == s);
    }
}

/// Parses hexadecimal digits as `u32::from_str_radix(s, 16)` does.
fn parse_hex_u32(s: &Vec<char>) -> (r: Option<u32>)
    ensures
        r == parse_hex_u32_spec(s@),
{
    let start: usize = if s.len() > 0 && s[0] == '+' {
        1
    } else {
        0
    };
    let ghost digits = if s@.len() > 0 && s@[0] == '+' {
        s@.drop_first()
    } else {
        s@
    };
    assert(digits == s@.skip(start as int));
    if start >= s.len() {
        return None;
    }
    let mut acc: u64 = 0;
    let mut i: usize = start;
    while i < s.len()
        invariant
            start <= i <= s.len(),
            digits == s@.skip(start as int),
            digits == (if s@.len() > 0 && s@[0] == '+' {
                s@.drop_first()
            } else {
                s@
            }),
            acc as nat == hex_value(digits.take(i - start)),
            acc <= u32::MAX,
            all_hex_digits(digits.take(i - start)),
        decreases s.len() - i,
    {
        let ghost pre = digits.take(i - start);
        let ghost next = digits.take(i - start + 1);
        assert(next.drop_last() == pre);
        assert(next.last() == s@[i as int]);
        match hex_digit(s[i]) {
            Some(d) => {
                acc = acc * 16 + d;
                assert(all_hex_digits(next)) by {
                    assert forall|j: int| 0 <= j < next.len() implies (#[trigger] hex_digit_value(
                        next[j],
                    )) is Some by {
                        if j < pre.len() {
                            assert(next[j] == pre[j]);
                        }
                    }
                }
                if acc > 0xffff_ffff {
                    proof {
                        lemma_hex_value_grows(digits, i - start + 1);
                    }
                    return None;
                }
            },
            None => {
                assert(!all_hex_digits(digits)) by {
                    assert(digits[i - start] == s@[i as int]);
                }
                return None;
            },
        }
        i = i + 1;
    }
    assert(digits.take(s.len() - start) == digits);
    Some(acc as u32)
}

/// Appends the decimal form of `b`.
fn append_decimal(dst: &mut Vec<char>, b: u32)
    ensures
        final(dst)@ == old(dst)@ + decimal(b as nat),
{
    let d = decimal_of(b as u64);
    append_chars(dst, &d);
}

/// The dotted-quad address that the little-endian hexadecimal field `hex`
/// denotes, e.g. `0101A8C0` gives `192.168.1.1`; `None` when the field,
/// trimmed, is not a hexadecimal `u32`.
pub fn decode_hex_ip(hex: &str) -> (r: Option<String>)
    ensures
        match r {
            Some(ip) => decode_hex_ip_spec(hex@) == Some(ip@),
            None => decode_hex_ip_spec(hex@) is None,
        },
{
    let t = trim_chars(&chars_of(hex));
    match parse_hex_u32(&t) {
        Some(n) => {
            let mut out: Vec<char> = Vec::new();
            append_decimal(&mut out, n % 256);
            out.push('.');
            append_decimal(&mut out, (n / 256) % 256);
            out.push('.');
            append_decimal(&mut out, (n / 65536) % 256);
            out.push('.');
            append_decimal(&mut out, n / 16777216);
            assert(out@ =~= dotted_quad(n));
            Some(string_of(&out))
        },
        None => None,
    }
}

/// Why no gateway address came out of the routing table.
#[derive(Debug, PartialEq, Eq)]
pub enum GatewayError {
    /// The default route's gateway field is not a hexadecimal address.
    InvalidGatewayHex,
    /// No line describes a default route with a gateway.
    NoDefaultRoute,
    /// The routing table could not be read.
    RouteTableUnreadable,
}

/// The gateway field of the first line that describes a default route
/// (destination `00000000`) through a gateway (gateway not `00000000`).
pub open spec fn first_default_route(lines: Seq<Seq<char>>) -> Option<Seq<char>>
    decreases lines.len(),
{
    if lines.len() == 0 {
        None
    } else {
        let w = words_spec(lines[0]);
        if w.len() >= 3 && w[1] == "00000000"@ && w[2] != "00000000"@ {
            Some(w[2])
        } else {
            first_default_route(lines.drop_first())
        }
    }
}

/// The default gateway that the text of `/proc/net/route` names: its first
/// line is a header; of the others, the first default route through a
/// gateway decides.
pub open spec fn route_gateway_spec(content: Seq<char>) -> Result<Seq<char>, GatewayError> {
    let ls = lines_spec(content);
    let body = if ls.len() > 0 {
        ls.drop_first()
    } else {
        ls
    };
    match first_default_route(body) {
        Some(g) => match decode_hex_ip_spec(g) {
            Some(ip) => Ok(ip),
            None => Err(GatewayError::InvalidGatewayHex),
        },
        None => Err(GatewayError::NoDefaultRoute),
    }
}

/// The default gateway's address, from the text of `/proc/net/route`.
pub fn gateway_ip_from_route_table(content: &str) -> (r: Result<String, GatewayError>)
    ensures
        match r {
            Ok(ip) => route_gateway_spec(content@) == Ok::<Seq<char>, GatewayError>(ip@),
            Err(e) => route_gateway_spec(content@) == Err::<Seq<char>, GatewayError>(e),
        },
{
    let lines = lines_of(&chars_of(content));
    let ghost ls = char_vecs(lines@);
    let zeros = chars_of("00000000");
    if lines.len() == 0 {
        return Err(GatewayError::NoDefaultRoute);
    }
    assert(ls.skip(1) == ls.drop_first());
    let mut i: usize = 1;
    while i < lines.len()
        invariant
            1 <= i <= lines.len(),
            ls == char_vecs(lines@),
            ls == lines_spec(content@),
            zeros@ == "00000000"@,
            first_default_route(ls.drop_first()) == first_default_route(ls.skip(i as int)),
        decreases lines.len() - i,
    {
        let ghost rest = ls.skip(i as int);
        assert(rest[0] == lines@[i as int]@);
        assert(rest.drop_first() == ls.skip(i + 1));
        let cols = words_of(&lines[i]);
        let ghost w = char_vecs(cols@);
        if cols.len() >= 3 {
            assert(w[1] == cols@[1]@ && w[2] == cols@[2]@);
            if chars_eq(&cols[1], &zeros) && !chars_eq(&cols[2], &zeros) {
                let field = string_of(&cols[2]);
                return match decode_hex_ip(field.as_str()) {
                    Some(ip) => Ok(ip),
                    None => Err(GatewayError::InvalidGatewayHex),
                };
            }
        }
        i = i + 1;
    }
    Err(GatewayError::NoDefaultRoute)
}

/// The gateway to probe: the override when one is given (then the routing
/// table is not consulted), else the default gateway that the routing
/// table names.
pub open spec fn gateway_target_spec(override_ip: Option<Seq<char>>, route_table: Option<Seq<char>>) -> Result<
    Seq<char>,
    GatewayError,
> {
    match override_ip {
        Some(ip) => Ok(ip),
        None => match route_table {
            Some(content) => route_gateway_spec(content),
            None => Err(GatewayError::RouteTableUnreadable),
        },
    }
}

/// The gateway to probe, from the override if any, else from the text of
/// `/proc/net/route` (`None` when it could not be read).
pub fn gateway_target(override_ip: Option<&str>, route_table: Option<&str>) -> (r: Result<
    String,
    GatewayError,
>)
    ensures
        match r {
            Ok(ip) => gateway_target_spec(opt_str(override_ip), opt_str(route_table)) == Ok::<
                Seq<char>,
                GatewayError,
            >(ip@),
            Err(e) => gateway_target_spec(opt_str(override_ip), opt_str(route_table)) == Err::<
                Seq<char>,
                GatewayError,
            >(e),
        },
{
    match override_ip {
        Some(ip) => Ok(ip.to_owned()),
        None => match route_table {
            Some(content) => gateway_ip_from_route_table(content),
            None => Err(GatewayError::RouteTableUnreadable),
        },
    }
}

/// Whether an HTTP status is a redirection (300 to 399).
pub open spec fn is_redirection_status(status: u16) -> bool {
    300 <= status && status < 400
}

/// Whether an HTTP status is a redirection (`StatusCode::is_redirection`).
pub fn is_redirection(status: u16) -> (r: bool)
    ensures
        r == is_redirection_status(status),
{
    300 <= status && status < 400
}

/// The URL that the gateway is probed at.
pub fn gateway_probe_url(gateway_ip: &str) -> (r: String)
    ensures
        r@ == "http://"@ + gateway_ip@ + "/"@,
{
    let mut s = String::from_str("http://");
    s.append(gateway_ip);
    s.append("/");
    s
}

/// What the gateway probe reports, given the probed gateway, the status
/// of its answer and the answer's `Location` header (`None` when absent
/// or not visible ASCII): the location, where the answer is a redirect
/// and the location parses as a URL.
pub open spec fn gateway_results_spec(
    gateway_ip: Seq<char>,
    status: u16,
    location: Option<Seq<char>>,
) -> Seq<PortalUrlView> {
    match location {
        Some(l) => if is_redirection_status(status) && url_parse_spec(l) is Some {
            seq![
                PortalUrlView {
                    url: l,
                    source: SourceView::GatewayProbe { gateway_ip },
                    confidence: 60,
                },
            ]
        } else {
            Seq::empty()
        },
        None => Seq::empty(),
    }
}

/// The portal URL that the gateway's answer reveals, if any.
pub fn gateway_results(gateway_ip: &str, status: u16, location: Option<&str>) -> (r: Vec<PortalUrl>)
    ensures
        portal_views(r@) == gateway_results_spec(
            gateway_ip@,
            status,
            match location {
                Some(l) => Some(l@),
                None => None,
            },
        ),
{
    let mut r: Vec<PortalUrl> = Vec::new();
    match location {
        Some(l) => {
            if is_redirection(status) && is_valid_url(l) {
                r.push(
                    PortalUrl {
                        url: l.to_owned(),
                        source: Source::GatewayProbe { gateway_ip: gateway_ip.to_owned() },
                        confidence: 60,
                    },
                );
                assert(portal_views(r@) =~= gateway_results_spec(gateway_ip@, status, Some(l@)));
            } else {
                assert(portal_views(r@) =~= Seq::<PortalUrlView>::empty());
            }
        },
        None => {
            assert(portal_views(r@) =~= Seq::<PortalUrlView>::empty());
        },
    }
    r
}

/// The `k` lowest hexadecimal digits of `n`, upper case, most significant
/// first: what `%0kX` writes for `n < 16^k`.
pub open spec fn hex_field(n: nat, k: nat) -> Seq<char>
    decreases k,
{
    if k == 0 {
        Seq::empty()
    } else {
        hex_field(n / 16, (k - 1) as nat).push(hex_upper(n % 16))
    }
}

/// `16^k`.
pub open spec fn pow16(k: nat) -> nat
    decreases k,
{
    if k == 0 {
        1
    } else {
        16 * pow16((k - 1) as nat)
    }
}

proof fn lemma_hex_field(n: nat, k: nat)
    ensures
        hex_field(n, k).len() == k,
        all_hex_digits(hex_field(n, k)),
        hex_value(hex_field(n, k)) == n % pow16(k),
        forall|i: int|
            0 <= i < k ==> !is_ws(#[trigger] hex_field(n, k)[i]) && hex_field(n, k)[i] != '+',
    decreases k,
{
    if k > 0 {
        let km = (k - 1) as nat;
        lemma_hex_field(n / 16, km);
        let s = hex_field(n, k);
        let p = hex_field(n / 16, km);
        let d = n % 16;
        assert(s.drop_last() == p);
        assert(hex_digit_value(hex_upper(d)) == Some(d));
        assert forall|i: int| 0 <= i < s.len() implies (#[trigger] hex_digit_value(s[i])) is Some by {
            if i < p.len() {
                assert(s[i] == p[i]);
            }
        }
        assert forall|i: int| 0 <= i < k implies !is_ws(#[trigger] hex_field(n, k)[i])
            && hex_field(n, k)[i] != '+' by {
            if i < p.len() {
                assert(s[i] == p[i]);
            }
        }
        assert(pow16(km) > 0) by {
            lemma_pow16_positive(km);
        }
        vstd::arithmetic::div_mod::lemma_mod_breakdown(n as int, 16, pow16(km) as int);
    }
}

proof fn lemma_pow16_positive(k: nat)
    ensures
        pow16(k) > 0,
    decreases k,
{
    if k > 0 {
        lemma_pow16_positive((k - 1) as nat);
    }
}

/// A gateway `a.b.c.d`, which the kernel writes in `/proc/net/route` as
/// the eight upper-case hexadecimal digits of the little-endian number
/// `a + 256·b + 65536·c + 16777216·d`, decodes to the dotted quad
/// `a.b.c.d`.
pub proof fn law_kernel_gateway_field_decodes(a: u8, b: u8, c: u8, d: u8)
    ensures
        decode_hex_ip_spec(hex_field((a + 256 * b + 65536 * c + 16777216 * d) as nat, 8))
            == Some(
            decimal(a as nat) + seq!['.'] + decimal(b as nat) + seq!['.'] + decimal(c as nat)
                + seq!['.'] + decimal(d as nat),
        ),
{
    let n = (a + 256 * b + 65536 * c + 16777216 * d) as nat;
    let s = hex_field(n, 8);
    lemma_hex_field(n, 8);
    assert(pow16(8) == 4294967296) by {
        reveal_with_fuel(pow16, 9);
    }
    assert(n < 4294967296);
    assert(!is_ws(s[0]) && s[0] != '+');
    assert(!is_ws(s[7]));
    assert(trim_start_spec(s) == s);
    assert(trim_end_spec(s) == s);
    assert(parse_hex_u32_spec(s) == Some(n as u32));
    let m = n as u32;
    assert(m % 256 == a && (m / 256) % 256 == b && (m / 65536) % 256 == c && m / 16777216 == d)
        by (nonlinear_arith)
        requires
            m == a + 256 * b + 65536 * c + 16777216 * d,
    ;
}

proof fn lemma_first_default_route_at(lines: Seq<Seq<char>>, k: int)
    requires
        0 <= k < lines.len(),
        words_spec(lines[k]).len() >= 3,
        words_spec(lines[k])[1] == "00000000"@,
        words_spec(lines[k])[2] != "00000000"@,
        forall|j: int|
            0 <= j < k ==> !(words_spec(#[trigger] lines[j]).len() >= 3 && words_spec(lines[j])[1]
                == "00000000"@ && words_spec(lines[j])[2] != "00000000"@),
    ensures
        first_default_route(lines) == Some(words_spec(lines[k])[2]),
    decreases k,
{
    if k > 0 {
        let d = lines.drop_first();
        assert forall|j: int| 0 <= j < k - 1 implies !(words_spec(#[trigger] d[j]).len() >= 3
            && words_spec(d[j])[1] == "00000000"@ && words_spec(d[j])[2] != "00000000"@) by {
            assert(d[j] == lines[j + 1]);
        }
        assert(d[k - 1] == lines[k]);
        assert(!(words_spec(lines[0]).len() >= 3 && words_spec(lines[0])[1] == "00000000"@
            && words_spec(lines[0])[2] != "00000000"@));
        lemma_first_default_route_at(d, k - 1);
    }
}

proof fn lemma_no_default_route(lines: Seq<Seq<char>>)
    requires
        forall|j: int|
            0 <= j < lines.len() ==> !(words_spec(#[trigger] lines[j]).len() >= 3
                && words_spec(lines[j])[1] == "00000000"@ && words_spec(lines[j])[2]
                != "00000000"@),
    ensures
        first_default_route(lines) is None,
    decreases lines.len(),
{
    if lines.len() > 0 {
        let d = lines.drop_first();
        assert forall|j: int| 0 <= j < d.len() implies !(words_spec(#[trigger] d[j]).len() >= 3
            && words_spec(d[j])[1] == "00000000"@ && words_spec(d[j])[2] != "00000000"@) by {
            assert(d[j] == lines[j + 1]);
        }
        assert(!(words_spec(lines[0]).len() >= 3 && words_spec(lines[0])[1] == "00000000"@
            && words_spec(lines[0])[2] != "00000000"@));
        lemma_no_default_route(d);
    }
}

/// The first default route decides: when line `i` of the routing table
/// (after its header line) has destination `00000000` and a gateway other
/// than `00000000`, and no line between the header and it does, the
/// gateway is line `i`'s gateway field decoded, whatever the lines after
/// it say; with no such line there is no default route.
pub proof fn law_first_default_route_wins(content: Seq<char>, i: int)
    ensures
        ({
            let ls = lines_spec(content);
            (1 <= i < ls.len() && words_spec(ls[i]).len() >= 3 && words_spec(ls[i])[1]
                == "00000000"@ && words_spec(ls[i])[2] != "00000000"@ && (forall|j: int|
                1 <= j < i ==> !(words_spec(#[trigger] ls[j]).len() >= 3 && words_spec(ls[j])[1]
                    == "00000000"@ && words_spec(ls[j])[2] != "00000000"@))) ==> route_gateway_spec(
                content,
            ) == match decode_hex_ip_spec(words_spec(ls[i])[2]) {
                Some(ip) => Ok::<Seq<char>, GatewayError>(ip),
                None => Err(GatewayError::InvalidGatewayHex),
            }
        }),
        ({
            let ls = lines_spec(content);
            (forall|j: int|
                1 <= j < ls.len() ==> !(words_spec(#[trigger] ls[j]).len() >= 3 && words_spec(
                    ls[j],
                )[1] == "00000000"@ && words_spec(ls[j])[2] != "00000000"@)) ==> route_gateway_spec(
                content,
            ) == Err::<Seq<char>, GatewayError>(GatewayError::NoDefaultRoute)
        }),
{
    let ls = lines_spec(content);
    if ls.len() > 0 {
        let body = ls.drop_first();
        if 1 <= i < ls.len() && words_spec(ls[i]).len() >= 3 && words_spec(ls[i])[1] == "00000000"@
            && words_spec(ls[i])[2] != "00000000"@ && (forall|j: int|
            1 <= j < i ==> !(words_spec(#[trigger] ls[j]).len() >= 3 && words_spec(ls[j])[1]
                == "00000000"@ && words_spec(ls[j])[2] != "00000000"@)) {
            assert forall|j: int| 0 <= j < i - 1 implies !(words_spec(#[trigger] body[j]).len()
                >= 3 && words_spec(body[j])[1] == "00000000"@ && words_spec(body[j])[2]
                != "00000000"@) by {
                assert(body[j] == ls[j + 1]);
            }
            assert(body[i - 1] == ls[i]);
            lemma_first_default_route_at(body, i - 1);
        }
        if forall|j: int|
            1 <= j < ls.len() ==> !(words_spec(#[trigger] ls[j]).len() >= 3 && words_spec(ls[j])[1]
                == "00000000"@ && words_spec(ls[j])[2] != "00000000"@) {
            assert forall|j: int| 0 <= j < body.len() implies !(words_spec(#[trigger] body[j]).len()
                >= 3 && words_spec(body[j])[1] == "00000000"@ && words_spec(body[j])[2]
                != "00000000"@) by {
                assert(body[j] == ls[j + 1]);
            }
            lemma_no_default_route(body);
        }
    }
}

} // verus!
