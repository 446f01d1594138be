//! Reading JSON envelope text back: a parser for the JSON string literals
//! the serializer emits and for the envelope shapes this library produces
//! (error, health, root), with proofs that parsing recovers exactly what
//! was serialized.

use vstd::prelude::*;
use vstd::string::StrSliceExecFns;

use crate::json::spec_escape;
use crate::json::spec_escape_char;
use crate::json::spec_hex_digit;
use crate::json::spec_quote;
use crate::json::ToJson;

verus! {

/// The characters that may follow a backslash as a two-character escape.
pub open spec fn spec_is_short_escape(e: char) -> bool {
    e == '"' || e == '\\' || e == 'b' || e == 't' || e == 'n' || e == 'f' || e == 'r'
}

/// The character a two-character escape stands for.
pub open spec fn spec_unescape_short(e: char) -> char {
    if e == '"' {
        '"'
    } else if e == '\\' {
        '\\'
    } else if e == 'b' {
        '\u{8}'
    } else if e == 't' {
        '\t'
    } else if e == 'n' {
        '\n'
    } else if e == 'f' {
        '\u{c}'
    } else {
        '\r'
    }
}

/// Whether `c` is a lowercase hex digit.
pub open spec fn spec_is_hex(c: char) -> bool {
    (48 <= (c as u32) && (c as u32) <= 57) || (97 <= (c as u32) && (c as u32) <= 102)
}

/// The value of a lowercase hex digit.
pub open spec fn spec_hex_val(c: char) -> u32 {
    if 48 <= (c as u32) && (c as u32) <= 57 {
        ((c as u32) - 48) as u32
    } else {
        ((c as u32) - 87) as u32
    }
}

/// Parse the body of a JSON string literal (everything after the opening
/// quote). On success, the decoded content and what follows the closing
/// quote.
pub open spec fn spec_parse_string_body(t: Seq<char>) -> Option<(Seq<char>, Seq<char>)>
    decreases t.len(),
{
    if t.len() == 0 {
        None
    } else if t[0] == '"' {
        Some((Seq::empty(), t.skip(1)))
    } else if t[0] == '\\' {
        if t.len() < 2 {
            None
        } else if spec_is_short_escape(t[1]) {
            match spec_parse_string_body(t.skip(2)) {
                Some(p) => Some((seq![spec_unescape_short(t[1])] + p.0, p.1)),
                None => None,
            }
        } else if t[1] == 'u' {
            if t.len() < 6 {
                None
            } else if t[2] == '0' && t[3] == '0' && spec_is_hex(t[4]) && spec_is_hex(t[5]) {
                match spec_parse_string_body(t.skip(6)) {
                    Some(p) => Some(
                        (seq![((spec_hex_val(t[4]) * 16 + spec_hex_val(t[5])) as char)] + p.0, p.1),
                    ),
                    None => None,
                }
            } else {
                None
            }
        } else {
            None
        }
    } else if (t[0] as u32) < 32 {
        None
    } else {
        match spec_parse_string_body(t.skip(1)) {
            Some(p) => Some((seq![t[0]] + p.0, p.1)),
            None => None,
        }
    }
}

/// Reading back a hex digit gives the encoded value.
proof fn lemma_hex_val_digit(d: u32)
    requires
        d < 16,
    ensures
        spec_is_hex(spec_hex_digit(d)),
        spec_hex_val(spec_hex_digit(d)) == d,
{
}

/// Parsing an escaped string body recovers the original string: the decoded
/// content is exactly `s` and the remainder is exactly `rest`.
pub proof fn lemma_parse_escape(s: Seq<char>, rest: Seq<char>)
    ensures
        spec_parse_string_body(spec_escape(s) + seq!['"'] + rest) == Some((s, rest)),
    decreases s.len(),
{
    let t = spec_escape(s) + seq!['"'] + rest;
    if s.len() == 0 {
        assert(spec_escape(s) == Seq::<char>::empty());
        assert(t =~= seq!['"'] + rest);
        assert(t[0] == '"');
        assert(t.skip(1) =~= rest);
        assert(Seq::<char>::empty() =~= s);
    } else {
        let c = s[0];
        let e = spec_escape_char(c);
        let tail = spec_escape(s.skip(1)) + seq!['"'] + rest;
        assert(spec_escape(s) == e + spec_escape(s.skip(1)));
        assert(t =~= e + tail);
        lemma_parse_escape(s.skip(1), rest);
        assert(seq![c] + s.skip(1) =~= s);
        if c == '"' || c == '\\' || c == '\u{8}' || c == '\t' || c == '\n' || c == '\u{c}' || c
            == '\r' {
            assert(t[0] == '\\');
            assert(spec_is_short_escape(t[1]));
            assert(spec_unescape_short(t[1]) == c);
            assert(t.skip(2) =~= tail);
        } else if (c as u32) < 32 {
            let n = c as u32;
            assert(e == seq!['\\', 'u', '0', '0', spec_hex_digit(n / 16), spec_hex_digit(n % 16)]);
            assert(t.len() >= 6);
            assert(t[0] == '\\');
            assert(t[1] == 'u');
            assert(!spec_is_short_escape('u'));
            assert(t[2] == '0');
            assert(t[3] == '0');
            lemma_hex_val_digit(n / 16);
            lemma_hex_val_digit(n % 16);
            assert(spec_hex_val(t[4]) * 16 + spec_hex_val(t[5]) == n);
            vstd::utf8::char_u32_cast(c, n);
            assert(((spec_hex_val(t[4]) * 16 + spec_hex_val(t[5])) as char) == c);
            assert(t.skip(6) =~= tail);
        } else {
            assert(e == seq![c]);
            assert(t[0] == c);
            assert(t[0] != '"' && t[0] != '\\');
            assert(t.skip(1) =~= tail);
        }
    }
}

/// Parse a JSON array of string literals, starting just past the opening
/// bracket, reading at most `fuel` elements. On success, the decoded
/// elements and what follows the closing bracket.
pub open spec fn spec_parse_string_list(t: Seq<char>, fuel: nat) -> Option<
    (Seq<Seq<char>>, Seq<char>),
>
    decreases fuel,
{
    if t.len() == 0 {
        None
    } else if t[0] == ']' {
        Some((Seq::empty(), t.skip(1)))
    } else if t[0] == '"' {
        if fuel == 0 {
            None
        } else {
            match spec_parse_string_body(t.skip(1)) {
                Some(p) => {
                    let u = p.1;
                    if u.len() == 0 {
                        None
                    } else if u[0] == ']' {
                        Some((seq![p.0], u.skip(1)))
                    } else if u[0] == ',' {
                        match spec_parse_string_list(u.skip(1), (fuel - 1) as nat) {
                            Some(q) => if q.0.len() > 0 {
                                Some((seq![p.0] + q.0, q.1))
                            } else {
                                None
                            },
                            None => None,
                        }
                    } else {
                        None
                    }
                },
                None => None,
            }
        }
    } else {
        None
    }
}

/// Parsing a serialized quoted list recovers the original elements, for any
/// fuel bound at least the element count.
pub proof fn lemma_parse_string_list(items: Seq<Seq<char>>, rest: Seq<char>, fuel: nat)
    requires
        fuel >= items.len(),
    ensures
        spec_parse_string_list(crate::json::spec_quoted_list(items) + seq![']'] + rest, fuel)
            == Some((items, rest)),
    decreases items.len(),
{
    let t = crate::json::spec_quoted_list(items) + seq![']'] + rest;
    if items.len() == 0 {
        assert(t =~= seq![']'] + rest);
        assert(t[0] == ']');
        assert(t.skip(1) =~= rest);
        assert(Seq::<Seq<char>>::empty() =~= items);
    } else if items.len() == 1 {
        assert(crate::json::spec_quoted_list(items) == spec_quote(items[0]));
        assert(t[0] == '"');
        assert(t.skip(1) =~= spec_escape(items[0]) + seq!['"'] + (seq![']'] + rest));
        lemma_parse_escape(items[0], seq![']'] + rest);
        let u = seq![']'] + rest;
        assert(u[0] == ']');
        assert(u.skip(1) =~= rest);
        assert(seq![items[0]] =~= items);
    } else {
        assert(crate::json::spec_quoted_list(items) == spec_quote(items[0]) + ","@
            + crate::json::spec_quoted_list(items.skip(1)));
        reveal_strlit(",");
        assert(","@ =~= seq![',']);
        let inner_rest = seq![','] + crate::json::spec_quoted_list(items.skip(1)) + seq![']']
            + rest;
        assert(t[0] == '"');
        assert(t.skip(1) =~= spec_escape(items[0]) + seq!['"'] + inner_rest);
        lemma_parse_escape(items[0], inner_rest);
        assert(inner_rest[0] == ',');
        assert(inner_rest.skip(1) =~= crate::json::spec_quoted_list(items.skip(1)) + seq![']']
            + rest);
        lemma_parse_string_list(items.skip(1), rest, (fuel - 1) as nat);
        assert(seq![items[0]] + items.skip(1) =~= items);
    }
}

/// Everything of an error envelope before the message: the fixed fields and
/// the message's opening quote.
pub open spec fn spec_error_prefix() -> Seq<char> {
    "{\"success\":false,\"error\":"@ + seq!['"']
}

/// Parse the JSON text of an error envelope. On success, the message.
pub open spec fn spec_parse_error_body(t: Seq<char>) -> Option<Seq<char>> {
    let p = spec_error_prefix();
    if t.len() >= p.len() && t.take(p.len() as int) == p {
        match spec_parse_string_body(t.skip(p.len() as int)) {
            Some(pr) => if pr.1 == "}"@ {
                Some(pr.0)
            } else {
                None
            },
            None => None,
        }
    } else {
        None
    }
}

/// Everything of a health envelope before the status value.
pub open spec fn spec_health_prefix() -> Seq<char> {
    "{\"success\":true,\"data\":"@ + "{\"status\":"@ + seq!['"']
}

/// What stands between the status value and the version value.
pub open spec fn spec_version_sep() -> Seq<char> {
    ",\"version\":"@ + seq!['"']
}

/// Parse the JSON text of a success envelope around a health payload. On
/// success, the status and version strings.
pub open spec fn spec_parse_health_body(t: Seq<char>) -> Option<(Seq<char>, Seq<char>)> {
    let p = spec_health_prefix();
    if t.len() >= p.len() && t.take(p.len() as int) == p {
        match spec_parse_string_body(t.skip(p.len() as int)) {
            Some(pr1) => {
                let u = pr1.1;
                let sep = spec_version_sep();
                if u.len() >= sep.len() && u.take(sep.len() as int) == sep {
                    match spec_parse_string_body(u.skip(sep.len() as int)) {
                        Some(pr2) => if pr2.1 == "}"@ + "}"@ {
                            Some((pr1.0, pr2.0))
                        } else {
                            None
                        },
                        None => None,
                    }
                } else {
                    None
                }
            },
            None => None,
        }
    } else {
        None
    }
}

/// Everything of a root envelope before the name value.
pub open spec fn spec_root_prefix() -> Seq<char> {
    "{\"success\":true,\"data\":"@ + "{\"name\":"@ + seq!['"']
}

/// What stands between the version value and the endpoint list.
pub open spec fn spec_endpoints_sep() -> Seq<char> {
    ",\"endpoints\":["@
}

/// Parse the JSON text of a success envelope around a root payload. On
/// success, the name, version, and endpoint strings.
pub open spec fn spec_parse_root_body(t: Seq<char>) -> Option<
    (Seq<char>, Seq<char>, Seq<Seq<char>>),
> {
    let p = spec_root_prefix();
    if t.len() >= p.len() && t.take(p.len() as int) == p {
        match spec_parse_string_body(t.skip(p.len() as int)) {
            Some(pr1) => {
                let u = pr1.1;
                let sep = spec_version_sep();
                if u.len() >= sep.len() && u.take(sep.len() as int) == sep {
                    match spec_parse_string_body(u.skip(sep.len() as int)) {
                        Some(pr2) => {
                            let w = pr2.1;
                            let sep2 = spec_endpoints_sep();
                            if w.len() >= sep2.len() && w.take(sep2.len() as int) == sep2 {
                                match spec_parse_string_list(
                                    w.skip(sep2.len() as int),
                                    (w.len() - sep2.len()) as nat,
                                ) {
                                    Some(pr3) => if pr3.1 == "}"@ + "}"@ {
                                        Some((pr1.0, pr2.0, pr3.0))
                                    } else {
                                        None
                                    },
                                    None => None,
                                }
                            } else {
                                None
                            }
                        },
                        None => None,
                    }
                } else {
                    None
                }
            },
            None => None,
        }
    } else {
        None
    }
}

/// Round trip for root envelopes: parsing the serialized success envelope
/// around a root payload recovers exactly the original name, version, and
/// endpoint list.
pub proof fn lemma_root_round_trip(name: Seq<char>, version: Seq<char>, endpoints: Seq<Seq<char>>)
    ensures
        spec_parse_root_body(
            crate::envelope::spec_success_body(
                "{\"name\":"@ + spec_quote(name) + ",\"version\":"@ + spec_quote(version)
                    + ",\"endpoints\":["@ + crate::json::spec_quoted_list(endpoints) + "]}"@,
            ),
        ) == Some((name, version, endpoints)),
{
    let p = spec_root_prefix();
    let sep = spec_version_sep();
    let sep2 = spec_endpoints_sep();
    let list = crate::json::spec_quoted_list(endpoints);
    let body = crate::envelope::spec_success_body(
        "{\"name\":"@ + spec_quote(name) + ",\"version\":"@ + spec_quote(version)
            + ",\"endpoints\":["@ + list + "]}"@,
    );
    reveal_strlit("}");
    reveal_strlit("]}");
    assert("}"@ =~= seq!['}']);
    assert("]}"@ =~= seq![']'] + ("}"@ + "}"@).take(1));
    let rest1 = ",\"version\":"@ + spec_quote(version) + ",\"endpoints\":["@ + list + "]}"@
        + "}"@;
    assert(body.len() >= p.len());
    assert(body.take(p.len() as int) =~= p);
    assert(body.skip(p.len() as int) =~= spec_escape(name) + seq!['"'] + rest1);
    lemma_parse_escape(name, rest1);
    let rest2 = ",\"endpoints\":["@ + list + "]}"@ + "}"@;
    assert(rest1.len() >= sep.len());
    assert(rest1.take(sep.len() as int) =~= sep);
    assert(rest1.skip(sep.len() as int) =~= spec_escape(version) + seq!['"'] + rest2);
    lemma_parse_escape(version, rest2);
    assert(rest2.len() >= sep2.len());
    assert(rest2.take(sep2.len() as int) =~= sep2);
    assert(rest2.skip(sep2.len() as int) =~= list + seq![']'] + ("}"@ + "}"@));
    crate::json::lemma_quoted_list_len(endpoints);
    assert((rest2.len() - sep2.len()) as nat >= endpoints.len());
    lemma_parse_string_list(endpoints, "}"@ + "}"@, (rest2.len() - sep2.len()) as nat);
}

/// Round trip for the root payload as serialized by the library: parsing
/// the JSON of `ApiResponse::success(info)` recovers `info`'s fields.
pub proof fn lemma_root_envelope_round_trip(info: crate::router::RootInfo)
    ensures
        spec_parse_root_body(crate::envelope::spec_success_body(info.json_spec())) == Some(
            (info.name@, info.version@, info.endpoints@.map_values(|e: String| e@)),
        ),
{
    lemma_root_round_trip(info.name@, info.version@, info.endpoints@.map_values(|e: String| e@));
}

/// Round trip for error envelopes: parsing the serialized error envelope
/// recovers exactly the original message.
pub proof fn lemma_error_round_trip(message: Seq<char>)
    ensures
        spec_parse_error_body(crate::envelope::spec_error_body(message)) == Some(message),
{
    let p = spec_error_prefix();
    let body = crate::envelope::spec_error_body(message);
    reveal_strlit("}");
    assert("}"@ =~= seq!['}']);
    assert(body.len() >= p.len());
    assert(body.take(p.len() as int) =~= p);
    assert(body.skip(p.len() as int) =~= spec_escape(message) + seq!['"'] + "}"@);
    lemma_parse_escape(message, "}"@);
}

/// Round trip for health envelopes: parsing the serialized success envelope
/// around a health payload recovers exactly the original status and version.
pub proof fn lemma_health_round_trip(status: Seq<char>, version: Seq<char>)
    ensures
        spec_parse_health_body(
            crate::envelope::spec_success_body(
                "{\"status\":"@ + spec_quote(status) + ",\"version\":"@ + spec_quote(version)
                    + "}"@,
            ),
        ) == Some((status, version)),
{
    let p = spec_health_prefix();
    let sep = spec_version_sep();
    let body = crate::envelope::spec_success_body(
        "{\"status\":"@ + spec_quote(status) + ",\"version\":"@ + spec_quote(version) + "}"@,
    );
    reveal_strlit("}");
    assert("}"@ =~= seq!['}']);
    let rest1 = ",\"version\":"@ + spec_quote(version) + "}"@ + "}"@;
    assert(body.len() >= p.len());
    assert(body.take(p.len() as int) =~= p);
    assert(body.skip(p.len() as int) =~= spec_escape(status) + seq!['"'] + rest1);
    lemma_parse_escape(status, rest1);
    assert(rest1.len() >= sep.len());
    assert(rest1.take(sep.len() as int) =~= sep);
    assert(rest1.skip(sep.len() as int) =~= spec_escape(version) + seq!['"'] + ("}"@ + "}"@));
    lemma_parse_escape(version, "}"@ + "}"@);
}

/// Round trip for the health payload as serialized by the library: parsing
/// the JSON of `ApiResponse::success(h)` recovers `h`'s fields.
pub proof fn lemma_health_envelope_round_trip(h: crate::health::HealthResponse)
    ensures
        spec_parse_health_body(crate::envelope::spec_success_body(h.json_spec()))
            == Some((h.status@, h.version@)),
{
    lemma_health_round_trip(h.status@, h.version@);
}

/// `r` with `prefix` prepended to the decoded content.
pub open spec fn spec_prepend(prefix: Seq<char>, r: Option<(Seq<char>, Seq<char>)>) -> Option<
    (Seq<char>, Seq<char>),
> {
    match r {
        Some(p) => Some((prefix + p.0, p.1)),
        None => None,
    }
}

proof fn lemma_prepend_push(a: Seq<char>, d: char, r: Option<(Seq<char>, Seq<char>)>)
    ensures
        spec_prepend(a, spec_prepend(seq![d], r)) == spec_prepend(a.push(d), r),
{
    match r {
        Some(p) => {
            assert(a + (seq![d] + p.0) =~= a.push(d) + p.0);
        },
        None => {},
    }
}

/// The value of a lowercase hex digit character, if it is one.
fn hex_val(c: char) -> (r: Option<u8>)
    ensures
        r matches Some(v) ==> spec_is_hex(c) && v as u32 == spec_hex_val(c),
        r is None ==> !spec_is_hex(c),
{
    let n = c as u32;
    if 48 <= n && n <= 57 {
        Some((n - 48) as u8)
    } else if 97 <= n && n <= 102 {
        Some((n - 87) as u8)
    } else {
        None
    }
}

/// Parse the body of a JSON string literal starting at character index
/// `start` in `s` (just past the opening quote). On success, the decoded
/// content and the index just past the closing quote.
pub fn parse_string_body(s: &str, start: usize) -> (r: Option<(String, usize)>)
    requires
        start <= s@.len(),
    ensures
        r matches Some(p) ==> p.1 <= s@.len() && spec_parse_string_body(s@.skip(start as int))
            == Some((p.0@, s@.skip(p.1 as int))),
        r is None ==> spec_parse_string_body(s@.skip(start as int)) is None,
{
    let len = s.unicode_len();
    let mut i: usize = start;
    let mut out = String::new();
    loop
        invariant
            start <= i <= len,
            len == s@.len(),
            spec_parse_string_body(s@.skip(start as int)) == spec_prepend(
                out@,
                spec_parse_string_body(s@.skip(i as int)),
            ),
        decreases len - i,
    {
        let ghost t = s@.skip(i as int);
        if i == len {
            assert(t.len() == 0);
            return None;
        }
        let c = s.get_char(i);
        assert(t[0] == c);
        if c == '"' {
            proof {
                assert(t.skip(1) =~= s@.skip(i + 1));
                assert(out@ + Seq::<char>::empty() =~= out@);
            }
            return Some((out, i + 1));
        } else if c == '\\' {
            if len - i < 2 {
                assert(t.len() < 2);
                return None;
            }
            let e = s.get_char(i + 1);
            assert(t[1] == e);
            if e == '"' || e == '\\' || e == 'b' || e == 't' || e == 'n' || e == 'f' || e == 'r' {
                let d = if e == '"' {
                    '"'
                } else if e == '\\' {
                    '\\'
                } else if e == 'b' {
                    '\u{8}'
                } else if e == 't' {
                    '\t'
                } else if e == 'n' {
                    '\n'
                } else if e == 'f' {
                    '\u{c}'
                } else {
                    '\r'
                };
                assert(d == spec_unescape_short(t[1]));
                proof {
                    assert(t.skip(2) =~= s@.skip(i + 2));
                    lemma_prepend_push(out@, d, spec_parse_string_body(s@.skip(i + 2)));
                }
                out.push(d);
                i = i + 2;
            } else if e == 'u' {
                if len - i < 6 {
                    assert(t.len() < 6);
                    return None;
                }
                let c2 = s.get_char(i + 2);
                let c3 = s.get_char(i + 3);
                let h1 = hex_val(s.get_char(i + 4));
                let h2 = hex_val(s.get_char(i + 5));
                assert(t[2] == c2 && t[3] == c3);
                assert(t[4] == s@[i + 4] && t[5] == s@[i + 5]);
                match (h1, h2) {
                    (Some(v1), Some(v2)) => {
                        if c2 == '0' && c3 == '0' {
                            let code: u8 = v1 * 16 + v2;
                            let d = code as char;
                            assert(d == ((spec_hex_val(t[4]) * 16 + spec_hex_val(t[5])) as char));
                            proof {
                                assert(t.skip(6) =~= s@.skip(i + 6));
                                lemma_prepend_push(out@, d, spec_parse_string_body(s@.skip(i + 6)));
                            }
                            out.push(d);
                            i = i + 6;
                        } else {
                            return None;
                        }
                    },
                    _ => {
                        return None;
                    },
                }
            } else {
                return None;
            }
        } else if (c as u32) < 32 {
            return None;
        } else {
            proof {
                assert(t.skip(1) =~= s@.skip(i + 1));
                lemma_prepend_push(out@, c, spec_parse_string_body(s@.skip(i + 1)));
            }
            out.push(c);
            i = i + 1;
        }
    }
}

/// Whether `lit` occurs in `s` starting at character index `i`.
fn match_at(s: &str, i: usize, lit: &str) -> (r: bool)
    requires
        i <= s@.len(),
    ensures
        r <==> (i + lit@.len() <= s@.len() && s@.subrange(i as int, i + lit@.len()) == lit@),
{
    let slen = s.unicode_len();
    let llen = lit.unicode_len();
    if llen > slen - i {
        return false;
    }
    let mut j: usize = 0;
    while j < llen
        invariant
            i + llen <= slen,
            slen == s@.len(),
            llen == lit@.len(),
            j <= llen,
            forall|k: int| 0 <= k < j ==> s@[i + k] == lit@[k],
        decreases llen - j,
    {
        if s.get_char(i + j) != lit.get_char(j) {
            proof {
                assert(s@.subrange(i as int, i + lit@.len())[j as int] == s@[i + j]);
            }
            return false;
        }
        j = j + 1;
    }
    proof {
        assert(s@.subrange(i as int, i + lit@.len()) =~= lit@);
    }
    true
}

/// Parse the JSON text of an error envelope, as [`spec_parse_error_body`]
/// reads it. On success, the message the envelope carries.
pub fn parse_error_envelope(s: &str) -> (r: Option<String>)
    ensures
        r matches Some(m) ==> spec_parse_error_body(s@) == Some(m@),
        r is None ==> spec_parse_error_body(s@) is None,
{
    let lit = "{\"success\":false,\"error\":";
    let llen = lit.unicode_len();
    let slen = s.unicode_len();
    let ghost p = spec_error_prefix();
    if !match_at(s, 0, lit) {
        proof {
            if s@.len() >= p.len() && s@.take(p.len() as int) == p {
                assert(s@.subrange(0, lit@.len() as int) =~= lit@);
            }
        }
        return None;
    }
    if llen == slen || s.get_char(llen) != '"' {
        proof {
            if s@.len() >= p.len() && s@.take(p.len() as int) == p {
                assert(s@[llen as int] == p[llen as int]);
            }
        }
        return None;
    }
    proof {
        assert(s@.take(p.len() as int) =~= p);
    }
    match parse_string_body(s, llen + 1) {
        None => {
            return None;
        },
        Some((m, j)) => {
            proof {
                reveal_strlit("}");
                assert("}"@ =~= seq!['}']);
            }
            if slen - j == 1 && s.get_char(j) == '}' {
                proof {
                    assert(s@.skip(j as int) =~= "}"@);
                }
                Some(m)
            } else {
                proof {
                    if s@.skip(j as int) == "}"@ {
                        assert(s@.skip(j as int).len() == 1);
                        assert(s@.skip(j as int)[0] == s@[j as int]);
                        assert(s@[j as int] == '}');
                    }
                }
                None
            }
        },
    }
}

/// Parse the JSON text of a success envelope around a health payload, as
/// [`spec_parse_health_body`] reads it. On success, the payload.
pub fn parse_health_envelope(s: &str) -> (r: Option<crate::health::HealthResponse>)
    ensures
        r matches Some(h) ==> spec_parse_health_body(s@) == Some((h.status@, h.version@)),
        r is None ==> spec_parse_health_body(s@) is None,
{
    let lit_a = "{\"success\":true,\"data\":";
    let lit_b = "{\"status\":";
    let lit_c = ",\"version\":";
    let a_len = lit_a.unicode_len();
    let slen = s.unicode_len();
    let ghost p = spec_health_prefix();
    let ghost sep = spec_version_sep();
    if !match_at(s, 0, lit_a) {
        proof {
            if s@.len() >= p.len() && s@.take(p.len() as int) == p {
                assert(s@.subrange(0, lit_a@.len() as int) =~= lit_a@);
            }
        }
        return None;
    }
    if !match_at(s, a_len, lit_b) {
        proof {
            if s@.len() >= p.len() && s@.take(p.len() as int) == p {
                assert(p == lit_a@ + lit_b@ + seq!['"']);
                assert(a_len + lit_b@.len() <= s@.len());
                assert forall|k: int| 0 <= k < lit_b@.len() implies s@.subrange(
                    a_len as int,
                    a_len + lit_b@.len(),
                )[k] == lit_b@[k] by {
                    assert(p[a_len + k] == (lit_a@ + lit_b@)[a_len + k]);
                    assert((lit_a@ + lit_b@)[a_len + k] == lit_b@[k]);
                    assert(s@.take(p.len() as int)[a_len + k] == s@[a_len + k]);
                }
                assert(s@.subrange(a_len as int, a_len + lit_b@.len()) =~= lit_b@);
            }
        }
        return None;
    }
    let q = a_len + lit_b.unicode_len();
    if q == slen || s.get_char(q) != '"' {
        proof {
            if s@.len() >= p.len() && s@.take(p.len() as int) == p {
                assert(s@[q as int] == p[q as int]);
            }
        }
        return None;
    }
    proof {
        assert(s@.take(p.len() as int) =~= p);
    }
    match parse_string_body(s, q + 1) {
        None => {
            return None;
        },
        Some((status, j)) => {
            let ghost u = s@.skip(j as int);
            if !match_at(s, j, lit_c) {
                proof {
                    if u.len() >= sep.len() && u.take(sep.len() as int) == sep {
                        assert(sep == lit_c@ + seq!['"']);
                        assert(j + lit_c@.len() <= s@.len());
                        assert forall|k: int| 0 <= k < lit_c@.len() implies s@.subrange(
                            j as int,
                            j + lit_c@.len(),
                        )[k] == lit_c@[k] by {
                            assert(u.take(sep.len() as int)[k] == u[k]);
                            assert(u[k] == s@[j + k]);
                            assert(sep[k] == lit_c@[k]);
                        }
                        assert(s@.subrange(j as int, j + lit_c@.len()) =~= lit_c@);
                    }
                }
                return None;
            }
            let q2 = j + lit_c.unicode_len();
            if q2 == slen || s.get_char(q2) != '"' {
                proof {
                    if u.len() >= sep.len() && u.take(sep.len() as int) == sep {
                        assert(u[lit_c@.len() as int] == sep[lit_c@.len() as int]);
                    }
                }
                return None;
            }
            proof {
                assert(u.take(sep.len() as int) =~= sep);
                assert(u.skip(sep.len() as int) =~= s@.skip(q2 + 1));
            }
            match parse_string_body(s, q2 + 1) {
                None => {
                    return None;
                },
                Some((version, j2)) => {
                    proof {
                        reveal_strlit("}");
                        assert("}"@ =~= seq!['}']);
                        assert("}"@ + "}"@ =~= seq!['}', '}']);
                    }
                    if slen - j2 == 2 && s.get_char(j2) == '}' && s.get_char(j2 + 1) == '}' {
                        proof {
                            assert(s@.skip(j2 as int) =~= "}"@ + "}"@);
                        }
                        Some(crate::health::HealthResponse { status, version })
                    } else {
                        proof {
                            if s@.skip(j2 as int) == "}"@ + "}"@ {
                                assert(s@.skip(j2 as int).len() == 2);
                                assert(s@[j2 as int] == '}');
                                assert(s@[j2 + 1] == '}');
                            }
                        }
                        None
                    }
                },
            }
        },
    }
}

/// Parse a JSON array of string literals starting just past the opening
/// bracket at character index `start`, reading at most `fuel` elements, as
/// [`spec_parse_string_list`] reads it.
fn parse_string_list(s: &str, start: usize, fuel: usize) -> (r: Option<(Vec<String>, usize)>)
    requires
        start <= s@.len(),
    ensures
        r matches Some(p) ==> p.1 <= s@.len() && spec_parse_string_list(
            s@.skip(start as int),
            fuel as nat,
        ) == Some((p.0@.map_values(|e: String| e@), s@.skip(p.1 as int))),
        r is None ==> spec_parse_string_list(s@.skip(start as int), fuel as nat) is None,
    decreases fuel,
{
    let slen = s.unicode_len();
    let ghost t = s@.skip(start as int);
    if start == slen {
        return None;
    }
    let c = s.get_char(start);
    assert(t[0] == c);
    if c == ']' {
        proof {
            assert(t.skip(1) =~= s@.skip(start + 1));
            assert(Seq::<String>::empty().map_values(|e: String| e@) =~= Seq::<
                Seq<char>,
            >::empty());
        }
        return Some((Vec::new(), start + 1));
    }
    if c != '"' {
        return None;
    }
    if fuel == 0 {
        return None;
    }
    proof {
        assert(t.skip(1) =~= s@.skip(start + 1));
    }
    match parse_string_body(s, start + 1) {
        None => None,
        Some((first, j)) => {
            let ghost u = s@.skip(j as int);
            if j == slen {
                return None;
            }
            let d = s.get_char(j);
            assert(u[0] == d);
            if d == ']' {
                let mut v: Vec<String> = Vec::new();
                v.push(first);
                proof {
                    assert(u.skip(1) =~= s@.skip(j + 1));
                    assert(v@.map_values(|e: String| e@) =~= seq![v@[0]@]);
                }
                return Some((v, j + 1));
            }
            if d != ',' {
                return None;
            }
            proof {
                assert(u.skip(1) =~= s@.skip(j + 1));
            }
            match parse_string_list(s, j + 1, fuel - 1) {
                None => None,
                Some((mut tail, end)) => {
                    if tail.len() == 0 {
                        return None;
                    }
                    let ghost tail0 = tail@;
                    let mut v: Vec<String> = Vec::new();
                    v.push(first);
                    v.append(&mut tail);
                    proof {
                        assert(v@ == seq![v@[0]] + tail0);
                        assert(v@.map_values(|e: String| e@) =~= seq![v@[0]@] + tail0.map_values(
                            |e: String| e@,
                        ));
                    }
                    Some((v, end))
                },
            }
        },
    }
}

/// Parse the JSON text of a success envelope around a root payload, as
/// [`spec_parse_root_body`] reads it. On success, the payload.
pub fn parse_root_envelope(s: &str) -> (r: Option<crate::router::RootInfo>)
    ensures
        r matches Some(info) ==> spec_parse_root_body(s@) == Some(
            (info.name@, info.version@, info.endpoints@.map_values(|e: String| e@)),
        ),
        r is None ==> spec_parse_root_body(s@) is None,
{
    let lit_a = "{\"success\":true,\"data\":";
    let lit_b = "{\"name\":";
    let lit_c = ",\"version\":";
    let lit_d = ",\"endpoints\":[";
    let a_len = lit_a.unicode_len();
    let slen = s.unicode_len();
    let ghost p = spec_root_prefix();
    let ghost sep = spec_version_sep();
    let ghost sep2 = spec_endpoints_sep();
    if !match_at(s, 0, lit_a) {
        proof {
            if s@.len() >= p.len() && s@.take(p.len() as int) == p {
                assert(s@.subrange(0, lit_a@.len() as int) =~= lit_a@);
            }
        }
        return None;
    }
    if !match_at(s, a_len, lit_b) {
        proof {
            if s@.len() >= p.len() && s@.take(p.len() as int) == p {
                assert(p == lit_a@ + lit_b@ + seq!['"']);
                assert(a_len + lit_b@.len() <= s@.len());
                assert forall|k: int| 0 <= k < lit_b@.len() implies s@.subrange(
                    a_len as int,
                    a_len + lit_b@.len(),
                )[k] == lit_b@[k] by {
                    assert(p[a_len + k] == (lit_a@ + lit_b@)[a_len + k]);
                    assert((lit_a@ + lit_b@)[a_len + k] == lit_b@[k]);
                    assert(s@.take(p.len() as int)[a_len + k] == s@[a_len + k]);
                }
                assert(s@.subrange(a_len as int, a_len + lit_b@.len()) =~= lit_b@);
            }
        }
        return None;
    }
    let q = a_len + lit_b.unicode_len();
    if q == slen || s.get_char(q) != '"' {
        proof {
            if s@.len() >= p.len() && s@.take(p.len() as int) == p {
                assert(s@[q as int] == p[q as int]);
            }
        }
        return None;
    }
    proof {
        assert(s@.take(p.len() as int) =~= p);
    }
    match parse_string_body(s, q + 1) {
        None => {
            return None;
        },
        Some((name, j)) => {
            let ghost u = s@.skip(j as int);
            if !match_at(s, j, lit_c) {
                proof {
                    if u.len() >= sep.len() && u.take(sep.len() as int) == sep {
                        assert(sep == lit_c@ + seq!['"']);
                        assert(j + lit_c@.len() <= s@.len());
                        assert forall|k: int| 0 <= k < lit_c@.len() implies s@.subrange(
                            j as int,
                            j + lit_c@.len(),
                        )[k] == lit_c@[k] by {
                            assert(u.take(sep.len() as int)[k] == u[k]);
                            assert(u[k] == s@[j + k]);
                            assert(sep[k] == lit_c@[k]);
                        }
                        assert(s@.subrange(j as int, j + lit_c@.len()) =~= lit_c@);
                    }
                }
                return None;
            }
            let q2 = j + lit_c.unicode_len();
            if q2 == slen || s.get_char(q2) != '"' {
                proof {
                    if u.len() >= sep.len() && u.take(sep.len() as int) == sep {
                        assert(u[lit_c@.len() as int] == sep[lit_c@.len() as int]);
                    }
                }
                return None;
            }
            proof {
                assert(u.take(sep.len() as int) =~= sep);
                assert(u.skip(sep.len() as int) =~= s@.skip(q2 + 1));
            }
            match parse_string_body(s, q2 + 1) {
                None => {
                    return None;
                },
                Some((version, j2)) => {
                    let ghost w = s@.skip(j2 as int);
                    if !match_at(s, j2, lit_d) {
                        proof {
                            if w.len() >= sep2.len() && w.take(sep2.len() as int) == sep2 {
                                assert(sep2 == lit_d@);
                                assert(j2 + lit_d@.len() <= s@.len());
                                assert forall|k: int| 0 <= k < lit_d@.len() implies s@.subrange(
                                    j2 as int,
                                    j2 + lit_d@.len(),
                                )[k] == lit_d@[k] by {
                                    assert(w.take(sep2.len() as int)[k] == w[k]);
                                    assert(w[k] == s@[j2 + k]);
                                }
                                assert(s@.subrange(j2 as int, j2 + lit_d@.len()) =~= lit_d@);
                            }
                        }
                        return None;
                    }
                    let q3 = j2 + lit_d.unicode_len();
                    proof {
                        assert(sep2 == lit_d@);
                        assert(w.len() >= sep2.len());
                        assert(w.take(sep2.len() as int) =~= sep2);
                        assert(w.skip(sep2.len() as int) =~= s@.skip(q3 as int));
                        assert((w.len() - sep2.len()) as nat == (slen - q3) as nat);
                    }
                    match parse_string_list(s, q3, slen - q3) {
                        None => {
                            return None;
                        },
                        Some((endpoints, j3)) => {
                            proof {
                                reveal_strlit("}");
                                assert("}"@ =~= seq!['}']);
                                assert("}"@ + "}"@ =~= seq!['}', '}']);
                            }
                            if slen - j3 == 2 && s.get_char(j3) == '}' && s.get_char(j3 + 1)
                                == '}' {
                                proof {
                                    assert(s@.skip(j3 as int) =~= "}"@ + "}"@);
                                }
                                Some(crate::router::RootInfo { name, version, endpoints })
                            } else {
                                proof {
                                    if s@.skip(j3 as int) == "}"@ + "}"@ {
                                        assert(s@.skip(j3 as int).len() == 2);
                                        assert(s@.skip(j3 as int)[0] == s@[j3 as int]);
                                        assert(s@.skip(j3 as int)[1] == s@[j3 + 1]);
                                        assert(s@[j3 as int] == '}');
                                        assert(s@[j3 + 1] == '}');
                                    }
                                }
                                None
                            }
                        },
                    }
                },
            }
        },
    }
}

} // verus!
