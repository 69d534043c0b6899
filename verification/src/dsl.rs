//! Mathematical model of the domain-spec mini-language.
//!
//! The wire format is a whitespace-separated list of tokens, each of the form
//! `HOSTNAME(:PARAM)*` where `HOSTNAME` is an alphanumeric-delimited run of
//! host characters with an optional trailing dot, and each `PARAM` is `http`
//! or `https`, optionally followed by `=PORT`.  The scan is lenient: text
//! that does not start a token is skipped without error.  The functions here
//! define, over sequences of characters, exactly which tokens are recognised
//! and what each one parses to; the executable parser is proved against them.

use vstd::prelude::*;

verus! {

/// Cause of a failed port-number parse, mirroring how a strict decimal
/// reader classifies its inputs.
#[derive(Debug, Clone, Copy, PartialEq, Eq, Structural)]
pub enum PortParseError {
    /// The value after `=` was the empty string.
    Empty,
    /// A character that is not a decimal digit was found.
    InvalidDigit,
    /// The digits denote a value that does not fit in a 16-bit port.
    Overflow,
}

/// Model of one parsed domain spec.
#[verifier::ext_equal]
pub struct DomainSpecView {
    pub domain_name: Seq<char>,
    pub http_port: Option<u16>,
    pub https_port: Option<u16>,
}

/// Model of a parse failure: the token's domain name, the parameter key
/// (`http` or `https`) whose port value was bad, and the cause.
#[verifier::ext_equal]
pub struct DomainSpecErrorView {
    pub domain_name: Seq<char>,
    pub key: Option<Seq<char>>,
    pub cause: PortParseError,
}

pub open spec fn is_alnum(c: char) -> bool {
    ('a' <= c && c <= 'z') || ('A' <= c && c <= 'Z') || ('0' <= c && c <= '9')
}

/// Characters allowed in the interior of a hostname.
pub open spec fn is_host_char(c: char) -> bool {
    is_alnum(c) || c == '.' || c == '-'
}

/// The Unicode white-space characters; token separators.
pub open spec fn is_space(c: char) -> bool {
    ||| c == '\u{09}'
    ||| c == '\u{0a}'
    ||| c == '\u{0b}'
    ||| c == '\u{0c}'
    ||| c == '\u{0d}'
    ||| c == ' '
    ||| c == '\u{85}'
    ||| c == '\u{a0}'
    ||| c == '\u{1680}'
    ||| ('\u{2000}' <= c && c <= '\u{200a}')
    ||| c == '\u{2028}'
    ||| c == '\u{2029}'
    ||| c == '\u{202f}'
    ||| c == '\u{205f}'
    ||| c == '\u{3000}'
}

pub open spec fn is_digit(c: char) -> bool {
    '0' <= c && c <= '9'
}

pub open spec fn digit_val(c: char) -> int {
    if c == '0' { 0 } else if c == '1' { 1 } else if c == '2' { 2 } else if c == '3' { 3 }
    else if c == '4' { 4 } else if c == '5' { 5 } else if c == '6' { 6 } else if c == '7' { 7 }
    else if c == '8' { 8 } else if c == '9' { 9 } else { 10 }
}

/// First index in `[j, s.len())` holding a non-host character, or `s.len()`.
pub open spec fn host_run_end(s: Seq<char>, j: int) -> int
    decreases s.len() - j,
{
    if j < 0 || j >= s.len() || !is_host_char(s[j]) {
        j
    } else {
        host_run_end(s, j + 1)
    }
}

/// First index in `[j, s.len())` holding a white-space character, or `s.len()`.
pub open spec fn nonspace_run_end(s: Seq<char>, j: int) -> int
    decreases s.len() - j,
{
    if j < 0 || j >= s.len() || is_space(s[j]) {
        j
    } else {
        nonspace_run_end(s, j + 1)
    }
}

/// Largest index in `[lo, hi]` holding an alphanumeric character, or `lo - 1`.
pub open spec fn last_alnum(s: Seq<char>, lo: int, hi: int) -> int
    decreases hi - lo + 1,
{
    if hi < lo {
        lo - 1
    } else if 0 <= hi < s.len() && is_alnum(s[hi]) {
        hi
    } else {
        last_alnum(s, lo, hi - 1)
    }
}

/// First index in `[from, to)` holding `c`, or `to`.
pub open spec fn find_in(s: Seq<char>, c: char, from: int, to: int) -> int
    decreases to - from,
{
    if from < 0 || from >= to {
        to
    } else if s[from] == c {
        from
    } else {
        find_in(s, c, from + 1, to)
    }
}

pub proof fn lemma_find_in_bounds(s: Seq<char>, c: char, from: int, to: int)
    requires
        from <= to,
    ensures
        from <= find_in(s, c, from, to) <= to,
    decreases to - from,
{
    if 0 <= from && from < to && s[from] != c {
        lemma_find_in_bounds(s, c, from + 1, to);
    }
}

pub proof fn lemma_host_run_end(s: Seq<char>, j: int)
    requires
        0 <= j <= s.len(),
    ensures
        j <= host_run_end(s, j) <= s.len(),
        forall|k: int| j <= k < host_run_end(s, j) ==> is_host_char(s[k]),
        host_run_end(s, j) < s.len() ==> !is_host_char(s[host_run_end(s, j)]),
    decreases s.len() - j,
{
    if j < s.len() && is_host_char(s[j]) {
        lemma_host_run_end(s, j + 1);
    }
}

pub proof fn lemma_nonspace_run_end(s: Seq<char>, j: int)
    requires
        0 <= j <= s.len(),
    ensures
        j <= nonspace_run_end(s, j) <= s.len(),
        forall|k: int| j <= k < nonspace_run_end(s, j) ==> !is_space(s[k]),
        nonspace_run_end(s, j) < s.len() ==> is_space(s[nonspace_run_end(s, j)]),
    decreases s.len() - j,
{
    if j < s.len() && !is_space(s[j]) {
        lemma_nonspace_run_end(s, j + 1);
    }
}

pub proof fn lemma_last_alnum(s: Seq<char>, lo: int, hi: int)
    requires
        0 <= lo,
        hi < s.len(),
    ensures
        lo - 1 <= last_alnum(s, lo, hi),
        last_alnum(s, lo, hi) <= hi || last_alnum(s, lo, hi) == lo - 1,
        last_alnum(s, lo, hi) >= lo ==> is_alnum(s[last_alnum(s, lo, hi)]),
        forall|k: int| lo <= k <= hi && k > last_alnum(s, lo, hi) ==> !is_alnum(s[k]),
    decreases hi - lo + 1,
{
    if hi >= lo && !(0 <= hi < s.len() && is_alnum(s[hi])) {
        lemma_last_alnum(s, lo, hi - 1);
    }
}

/// Index of the final alphanumeric character of a hostname token starting at
/// `i`: the hostname is greedy, so this is the last alphanumeric inside the
/// host-character run that follows `i`.  Less than `i + 2` when no hostname
/// starts at `i`.
pub open spec fn host_tail(s: Seq<char>, i: int) -> int {
    last_alnum(s, i + 2, host_run_end(s, i + 1) - 1)
}

/// Whether a token begins at position `i`: an alphanumeric head followed by
/// at least one host character and a final alphanumeric.
pub open spec fn match_at(s: Seq<char>, i: int) -> bool {
    &&& 0 <= i < s.len()
    &&& is_alnum(s[i])
    &&& host_tail(s, i) >= i + 2
}

/// End of the domain name proper (exclusive), before any trailing dot.
pub open spec fn name_end(s: Seq<char>, i: int) -> int {
    host_tail(s, i) + 1
}

/// End of the hostname capture (exclusive), including a trailing dot if one
/// directly follows the final alphanumeric.
pub open spec fn host_end(s: Seq<char>, i: int) -> int {
    if name_end(s, i) < s.len() && s[name_end(s, i)] == '.' {
        name_end(s, i) + 1
    } else {
        name_end(s, i)
    }
}

/// Whether the token at `i` carries a parameter block: a colon directly after
/// the hostname followed by at least one non-space character.
pub open spec fn has_params(s: Seq<char>, i: int) -> bool {
    &&& host_end(s, i) < s.len()
    &&& s[host_end(s, i)] == ':'
    &&& host_end(s, i) + 1 < s.len()
    &&& !is_space(s[host_end(s, i) + 1])
}

/// End of the parameter block (exclusive): the greedy non-space run.
pub open spec fn params_end(s: Seq<char>, i: int) -> int {
    nonspace_run_end(s, host_end(s, i) + 1)
}

/// End of the whole token at `i` (exclusive); the scan resumes here.
pub open spec fn match_end(s: Seq<char>, i: int) -> int {
    if has_params(s, i) {
        params_end(s, i)
    } else {
        host_end(s, i)
    }
}

/// The domain name of the token at `i`, with any trailing dot stripped.
pub open spec fn token_name(s: Seq<char>, i: int) -> Seq<char> {
    s.subrange(i, name_end(s, i))
}

pub open spec fn http_key() -> Seq<char> {
    seq!['h', 't', 't', 'p']
}

pub open spec fn https_key() -> Seq<char> {
    seq!['h', 't', 't', 'p', 's']
}

pub open spec fn eq_ci(c: char, lower: char, upper: char) -> bool {
    c == lower || c == upper
}

/// Case-insensitive comparison of `s[from..to]` with `http`.
pub open spec fn is_http_key(s: Seq<char>, from: int, to: int) -> bool {
    &&& to - from == 4
    &&& eq_ci(s[from], 'h', 'H')
    &&& eq_ci(s[from + 1], 't', 'T')
    &&& eq_ci(s[from + 2], 't', 'T')
    &&& eq_ci(s[from + 3], 'p', 'P')
}

/// Case-insensitive comparison of `s[from..to]` with `https`.
pub open spec fn is_https_key(s: Seq<char>, from: int, to: int) -> bool {
    &&& to - from == 5
    &&& eq_ci(s[from], 'h', 'H')
    &&& eq_ci(s[from + 1], 't', 'T')
    &&& eq_ci(s[from + 2], 't', 'T')
    &&& eq_ci(s[from + 3], 'p', 'P')
    &&& eq_ci(s[from + 4], 's', 'S')
}

/// Strict decimal scan of `s[k..to]` with accumulator `acc`, reporting the
/// first offending position: a non-digit is `InvalidDigit`, a digit that
/// pushes the value past 16 bits is `Overflow`.
pub open spec fn parse_port_digits(s: Seq<char>, k: int, to: int, acc: int) -> Result<u16, PortParseError>
    decreases to - k,
{
    if k < 0 || k >= to {
        Ok(acc as u16)
    } else if !is_digit(s[k]) {
        Err(PortParseError::InvalidDigit)
    } else if acc * 10 + digit_val(s[k]) > 0xFFFF {
        Err(PortParseError::Overflow)
    } else {
        parse_port_digits(s, k + 1, to, acc * 10 + digit_val(s[k]))
    }
}

/// Decimal port value of `s[from..to]`: optionally `+`-signed digits that
/// fit in 16 bits, empty input rejected.
pub open spec fn parse_port(s: Seq<char>, from: int, to: int) -> Result<u16, PortParseError> {
    if from >= to {
        Err(PortParseError::Empty)
    } else if s[from] == '+' {
        if from + 1 >= to {
            Err(PortParseError::InvalidDigit)
        } else {
            parse_port_digits(s, from + 1, to, 0)
        }
    } else {
        parse_port_digits(s, from, to, 0)
    }
}

/// Folds the colon-separated parameters in `s[cur..pe]` over the port pair
/// `(http, https)`.  A bare `http`/`https` key enables the default port (80
/// or 443), `key=VALUE` uses the parsed value, unrecognised keys are ignored,
/// and the first bad port value aborts the fold with the offending key.
pub open spec fn apply_params(s: Seq<char>, cur: int, pe: int, http: Option<u16>, https: Option<u16>)
    -> Result<(Option<u16>, Option<u16>), (Seq<char>, PortParseError)>
    decreases pe - cur,
    via apply_params_decreases
{
    let cut = find_in(s, ':', cur, pe);
    let eq = find_in(s, '=', cur, cut);
    let step: Result<(Option<u16>, Option<u16>), (Seq<char>, PortParseError)> =
        if is_http_key(s, cur, eq) {
            if eq >= cut {
                Ok((Some(80u16), https))
            } else {
                match parse_port(s, eq + 1, cut) {
                    Ok(p) => Ok((Some(p), https)),
                    Err(e) => Err((http_key(), e)),
                }
            }
        } else if is_https_key(s, cur, eq) {
            if eq >= cut {
                Ok((http, Some(443u16)))
            } else {
                match parse_port(s, eq + 1, cut) {
                    Ok(p) => Ok((http, Some(p))),
                    Err(e) => Err((https_key(), e)),
                }
            }
        } else {
            Ok((http, https))
        };
    match step {
        Err(e) => Err(e),
        Ok((h2, s2)) => {
            if cut >= pe {
                Ok((h2, s2))
            } else {
                apply_params(s, cut + 1, pe, h2, s2)
            }
        },
    }
}

#[via_fn]
proof fn apply_params_decreases(s: Seq<char>, cur: int, pe: int, http: Option<u16>, https: Option<u16>) {
    if cur <= pe {
        lemma_find_in_bounds(s, ':', cur, pe);
    }
}

/// What the token at `i` parses to.  When no parameter names a protocol the
/// spec defaults to both standard ports.
pub open spec fn token_model(s: Seq<char>, i: int) -> Result<DomainSpecView, DomainSpecErrorView> {
    let name = token_name(s, i);
    let folded: Result<(Option<u16>, Option<u16>), (Seq<char>, PortParseError)> =
        if has_params(s, i) {
            apply_params(s, host_end(s, i) + 1, params_end(s, i), None, None)
        } else {
            Ok((None, None))
        };
    match folded {
        Ok((http, https)) => {
            if http is None && https is None {
                Ok(DomainSpecView { domain_name: name, http_port: Some(80u16), https_port: Some(443u16) })
            } else {
                Ok(DomainSpecView { domain_name: name, http_port: http, https_port: https })
            }
        },
        Err((key, cause)) => Err(DomainSpecErrorView { domain_name: name, key: Some(key), cause }),
    }
}

/// Basic geometry of a token match: how its landmarks are ordered, and what
/// is known of the characters of its name.
pub proof fn lemma_match_geometry(s: Seq<char>, i: int)
    requires
        match_at(s, i),
    ensures
        i + 2 <= host_tail(s, i) < host_run_end(s, i + 1) <= s.len(),
        is_alnum(s[host_tail(s, i)]),
        i + 3 <= name_end(s, i) <= host_end(s, i) <= name_end(s, i) + 1,
        host_end(s, i) <= match_end(s, i) <= s.len(),
        forall|k: int| i <= k < name_end(s, i) ==> is_host_char(s[k]),
        has_params(s, i) ==> host_end(s, i) + 1 <= params_end(s, i) <= s.len(),
{
    lemma_host_run_end(s, i + 1);
    lemma_last_alnum(s, i + 2, host_run_end(s, i + 1) - 1);
    assert(is_host_char(s[i]));
    if has_params(s, i) {
        lemma_nonspace_run_end(s, host_end(s, i) + 1);
    }
}

/// The left-to-right scan: at each position either a token begins (parse it
/// and resume after it, stopping the whole scan at the first bad port) or
/// the position is skipped.
pub open spec fn scan_from(s: Seq<char>, i: int) -> (Seq<DomainSpecView>, Option<DomainSpecErrorView>)
    decreases s.len() - i,
    via scan_from_decreases
{
    if i < 0 || i >= s.len() {
        (Seq::empty(), None)
    } else if match_at(s, i) {
        match token_model(s, i) {
            Ok(m) => {
                let rest = scan_from(s, match_end(s, i));
                (seq![m] + rest.0, rest.1)
            },
            Err(e) => (Seq::empty(), Some(e)),
        }
    } else {
        scan_from(s, i + 1)
    }
}

#[via_fn]
proof fn scan_from_decreases(s: Seq<char>, i: int) {
    if 0 <= i < s.len() && match_at(s, i) {
        lemma_match_geometry(s, i);
    }
}

/// The meaning of a raw domain-spec string: the specs of its tokens in
/// order, and the error that stopped the scan, if any.
pub open spec fn parse_dsl(s: Seq<char>) -> (Seq<DomainSpecView>, Option<DomainSpecErrorView>) {
    scan_from(s, 0)
}

/// Shape of every domain name the parser produces: at least three host
/// characters, delimited by alphanumerics, and in particular no trailing
/// dot.
pub open spec fn valid_domain_name(name: Seq<char>) -> bool {
    &&& name.len() >= 3
    &&& is_alnum(name[0])
    &&& is_alnum(name[name.len() - 1])
    &&& forall|k: int| 0 <= k < name.len() ==> is_host_char(#[trigger] name[k])
}

/// Invariant of every parsed spec: a valid domain name and at least one
/// port (absence of both is normalised to the standard pair at parse time).
pub open spec fn valid_spec(m: DomainSpecView) -> bool {
    &&& valid_domain_name(m.domain_name)
    &&& (m.http_port is Some || m.https_port is Some)
}

/// A successfully parsed token satisfies the spec invariant.
pub proof fn lemma_token_valid(s: Seq<char>, i: int)
    requires
        match_at(s, i),
        token_model(s, i) is Ok,
    ensures
        valid_spec(token_model(s, i)->Ok_0),
{
    lemma_match_geometry(s, i);
    let name = token_name(s, i);
    assert(name.len() == name_end(s, i) - i >= 3);
    assert(name[0] == s[i]);
    assert(name[name.len() - 1] == s[host_tail(s, i)]);
    assert(forall|k: int| 0 <= k < name.len() ==> is_host_char(#[trigger] name[k]));
}

/// Every spec produced by the scan satisfies the spec invariant.
pub proof fn lemma_scan_valid(s: Seq<char>, i: int)
    ensures
        forall|k: int| 0 <= k < scan_from(s, i).0.len() ==> valid_spec(
            #[trigger] scan_from(s, i).0[k],
        ),
    decreases s.len() - i,
{
    if i < 0 || i >= s.len() {
        assert(scan_from(s, i).0.len() == 0);
    } else if match_at(s, i) {
        if token_model(s, i) is Ok {
            let m = token_model(s, i)->Ok_0;
            lemma_token_valid(s, i);
            lemma_match_geometry(s, i);
            lemma_scan_valid(s, match_end(s, i));
            let rest = scan_from(s, match_end(s, i));
            assert(scan_from(s, i).0 == seq![m] + rest.0);
            assert forall|k: int| 0 <= k < scan_from(s, i).0.len() implies valid_spec(
                #[trigger] scan_from(s, i).0[k],
            ) by {
                if k == 0 {
                    assert(scan_from(s, i).0[k] == m);
                } else {
                    assert(scan_from(s, i).0[k] == rest.0[k - 1]);
                }
            }
        } else {
            assert(scan_from(s, i).0.len() == 0);
        }
    } else {
        lemma_scan_valid(s, i + 1);
        assert(scan_from(s, i).0 == scan_from(s, i + 1).0);
    }
}

/// Characters allowed in a sanitised spec identifier.
pub open spec fn is_id_char(c: char) -> bool {
    is_alnum(c) || c == '_'
}

/// The derived identifier of a domain name: every character outside
/// `[A-Za-z0-9_]` is replaced by an underscore.
pub open spec fn sanitize_id(name: Seq<char>) -> Seq<char> {
    name.map_values(|c: char| if is_id_char(c) { c } else { '_' })
}

/// Id sanitation: the identifier derived from any valid domain name is
/// non-empty and consists of identifier characters only.
pub proof fn lemma_spec_id_sanitized(name: Seq<char>)
    requires
        valid_domain_name(name),
    ensures
        sanitize_id(name).len() == name.len(),
        sanitize_id(name).len() > 0,
        forall|k: int| 0 <= k < sanitize_id(name).len() ==> is_id_char(
            #[trigger] sanitize_id(name)[k],
        ),
{
}

pub open spec fn digit_char(d: int) -> char {
    if d == 0 { '0' } else if d == 1 { '1' } else if d == 2 { '2' } else if d == 3 { '3' }
    else if d == 4 { '4' } else if d == 5 { '5' } else if d == 6 { '6' } else if d == 7 { '7' }
    else if d == 8 { '8' } else { '9' }
}

/// Decimal rendering of a non-negative number, most significant digit
/// first.
pub open spec fn dec_str(n: int) -> Seq<char>
    decreases n,
{
    if n < 10 {
        seq![digit_char(n)]
    } else {
        dec_str(n / 10).push(digit_char(n % 10))
    }
}

pub open spec fn http_param() -> Seq<char> {
    seq![':', 'h', 't', 't', 'p', '=']
}

pub open spec fn https_param() -> Seq<char> {
    seq![':', 'h', 't', 't', 'p', 's', '=']
}

/// Canonical wire form of one spec: the domain name followed by an explicit
/// `:http=PORT` and/or `:https=PORT` parameter per configured port.
pub open spec fn render_spec(m: DomainSpecView) -> Seq<char> {
    m.domain_name + (match m.http_port {
        Some(p) => http_param() + dec_str(p as int),
        None => Seq::empty(),
    }) + (match m.https_port {
        Some(p) => https_param() + dec_str(p as int),
        None => Seq::empty(),
    })
}

pub proof fn lemma_host_run_end_is(s: Seq<char>, j: int, e: int)
    requires
        0 <= j <= e <= s.len(),
        forall|k: int| j <= k < e ==> is_host_char(#[trigger] s[k]),
        e < s.len() ==> !is_host_char(s[e]),
    ensures
        host_run_end(s, j) == e,
    decreases e - j,
{
    if j < e {
        lemma_host_run_end_is(s, j + 1, e);
    }
}

pub proof fn lemma_nonspace_run_end_is(s: Seq<char>, j: int, e: int)
    requires
        0 <= j <= e <= s.len(),
        forall|k: int| j <= k < e ==> !is_space(#[trigger] s[k]),
        e < s.len() ==> is_space(s[e]),
    ensures
        nonspace_run_end(s, j) == e,
    decreases e - j,
{
    if j < e {
        lemma_nonspace_run_end_is(s, j + 1, e);
    }
}

pub proof fn lemma_last_alnum_is(s: Seq<char>, lo: int, hi: int, h: int)
    requires
        0 <= lo <= h <= hi < s.len(),
        is_alnum(s[h]),
        forall|k: int| h < k <= hi ==> !is_alnum(#[trigger] s[k]),
    ensures
        last_alnum(s, lo, hi) == h,
    decreases hi - h,
{
    if hi > h {
        lemma_last_alnum_is(s, lo, hi - 1, h);
    }
}

pub proof fn lemma_find_in_is(s: Seq<char>, c: char, from: int, to: int, at: int)
    requires
        0 <= from <= at <= to,
        forall|k: int| from <= k < at ==> (#[trigger] s[k]) != c,
        at < to ==> s[at] == c,
    ensures
        find_in(s, c, from, to) == at,
    decreases at - from,
{
    if from < at {
        lemma_find_in_is(s, c, from + 1, to, at);
    }
}

/// Every decimal rendering is a non-empty string of digits.
pub proof fn lemma_dec_str_digits(n: int)
    requires
        0 <= n,
    ensures
        dec_str(n).len() >= 1,
        forall|k: int| 0 <= k < dec_str(n).len() ==> is_digit(#[trigger] dec_str(n)[k]),
    decreases n,
{
    if n >= 10 {
        lemma_dec_str_digits(n / 10);
        assert forall|k: int| 0 <= k < dec_str(n).len() implies is_digit(
            #[trigger] dec_str(n)[k],
        ) by {
            if k < dec_str(n / 10).len() {
                assert(dec_str(n)[k] == dec_str(n / 10)[k]);
            } else {
                assert(dec_str(n)[k] == digit_char(n % 10));
            }
        }
    }
}

/// Reading one digit more multiplies the value read so far by ten.
proof fn lemma_parse_digits_extend(s: Seq<char>, from: int, to: int, acc: int, v: u16)
    requires
        0 <= from <= to,
        parse_port_digits(s, from, to, acc) == Ok::<u16, PortParseError>(v),
        is_digit(s[to]),
        v * 10 + digit_val(s[to]) <= 0xFFFF,
        0 <= acc <= 0xFFFF,
    ensures
        parse_port_digits(s, from, to + 1, acc) == Ok::<u16, PortParseError>(
            (v * 10 + digit_val(s[to])) as u16,
        ),
    decreases to - from,
{
    if from == to {
        assert(acc == v);
    } else {
        assert(is_digit(s[from]) && acc * 10 + digit_val(s[from]) <= 0xFFFF);
        lemma_parse_digits_extend(s, from + 1, to, acc * 10 + digit_val(s[from]), v);
    }
}

/// A rendered port number reads back as itself.
pub proof fn lemma_parse_render_port(s: Seq<char>, from: int, n: int)
    requires
        0 <= n <= 0xFFFF,
        0 <= from,
        from + dec_str(n).len() <= s.len(),
        s.subrange(from, from + dec_str(n).len()) == dec_str(n),
    ensures
        parse_port_digits(s, from, from + dec_str(n).len(), 0) == Ok::<u16, PortParseError>(
            n as u16,
        ),
    decreases n,
{
    let d = dec_str(n);
    if n < 10 {
        assert(d.len() == 1);
        assert(s.subrange(from, from + d.len() as int)[0] == d[0]);
        assert(s[from] == digit_char(n));
        assert(digit_val(digit_char(n)) == n);
        assert(parse_port_digits(s, from + 1, from + 1, n) == Ok::<u16, PortParseError>(
            n as u16,
        ));
    } else {
        let prefix = dec_str(n / 10);
        assert(d == prefix.push(digit_char(n % 10)));
        assert(s.subrange(from, from + prefix.len()) =~= prefix);
        lemma_parse_render_port(s, from, n / 10);
        assert(s.subrange(from, from + d.len() as int)[prefix.len() as int] == d[
            prefix.len() as int
        ]);
        assert(s[from + prefix.len()] == digit_char(n % 10));
        assert(digit_val(digit_char(n % 10)) == n % 10);
        assert((n / 10) * 10 + n % 10 == n);
        lemma_parse_digits_extend(s, from, from + prefix.len(), 0, (n / 10) as u16);
    }
}

/// Canonical wire form of a list of specs: the tokens separated by single
/// spaces.
pub open spec fn render_all(ms: Seq<DomainSpecView>) -> Seq<char>
    decreases ms.len(),
{
    if ms.len() == 0 {
        Seq::empty()
    } else if ms.len() == 1 {
        render_spec(ms[0])
    } else {
        render_spec(ms[0]) + seq![' '] + render_all(ms.drop_first())
    }
}

/// A decimal digit is none of the characters that delimit or sign the
/// wire format.
proof fn lemma_digit_is_plain(c: char)
    requires
        is_digit(c),
    ensures
        !is_space(c),
        c != ':',
        c != '=',
        c != '+',
{
}

/// One unfolding of the parameter fold over a rendered `http=PORT` part.
proof fn lemma_apply_step_http(
    s: Seq<char>,
    cur: int,
    pe: int,
    v: int,
    http0: Option<u16>,
    https0: Option<u16>,
)
    requires
        0 <= cur,
        cur + 5 + dec_str(v).len() <= pe <= s.len(),
        0 <= v <= 0xFFFF,
        s[cur] == 'h',
        s[cur + 1] == 't',
        s[cur + 2] == 't',
        s[cur + 3] == 'p',
        s[cur + 4] == '=',
        s.subrange(cur + 5, cur + 5 + dec_str(v).len() as int) == dec_str(v),
        cur + 5 + dec_str(v).len() < pe ==> s[cur + 5 + dec_str(v).len() as int] == ':',
    ensures
        ({
            let x = cur + 5 + dec_str(v).len() as int;
            apply_params(s, cur, pe, http0, https0) == (if x >= pe {
                Ok::<(Option<u16>, Option<u16>), (Seq<char>, PortParseError)>(
                    (Some(v as u16), https0),
                )
            } else {
                apply_params(s, x + 1, pe, Some(v as u16), https0)
            })
        }),
{
    let d = dec_str(v);
    let x = cur + 5 + d.len() as int;
    lemma_dec_str_digits(v);
    assert forall|k: int| cur + 5 <= k < x implies is_digit(#[trigger] s[k]) by {
        assert(s.subrange(cur + 5, x)[k - (cur + 5)] == d[k - (cur + 5)]);
    }
    assert forall|k: int| cur <= k < x implies (#[trigger] s[k]) != ':' by {
        if k >= cur + 5 {
            lemma_digit_is_plain(s[k]);
        }
    }
    lemma_find_in_is(s, ':', cur, pe, x);
    assert forall|k: int| cur <= k < cur + 4 implies (#[trigger] s[k]) != '=' by {}
    lemma_find_in_is(s, '=', cur, x, cur + 4);
    assert(is_http_key(s, cur, cur + 4));
    assert(s[cur + 5] == d[0]) by {
        assert(s.subrange(cur + 5, x)[0] == d[0]);
    }
    lemma_digit_is_plain(s[cur + 5]);
    lemma_parse_render_port(s, cur + 5, v);
    assert(parse_port(s, cur + 5, x) == Ok::<u16, PortParseError>(v as u16));
}

/// One unfolding of the parameter fold over a rendered `https=PORT` part.
proof fn lemma_apply_step_https(
    s: Seq<char>,
    cur: int,
    pe: int,
    v: int,
    http0: Option<u16>,
    https0: Option<u16>,
)
    requires
        0 <= cur,
        cur + 6 + dec_str(v).len() <= pe <= s.len(),
        0 <= v <= 0xFFFF,
        s[cur] == 'h',
        s[cur + 1] == 't',
        s[cur + 2] == 't',
        s[cur + 3] == 'p',
        s[cur + 4] == 's',
        s[cur + 5] == '=',
        s.subrange(cur + 6, cur + 6 + dec_str(v).len() as int) == dec_str(v),
        cur + 6 + dec_str(v).len() < pe ==> s[cur + 6 + dec_str(v).len() as int] == ':',
    ensures
        ({
            let x = cur + 6 + dec_str(v).len() as int;
            apply_params(s, cur, pe, http0, https0) == (if x >= pe {
                Ok::<(Option<u16>, Option<u16>), (Seq<char>, PortParseError)>(
                    (http0, Some(v as u16)),
                )
            } else {
                apply_params(s, x + 1, pe, http0, Some(v as u16))
            })
        }),
{
    let d = dec_str(v);
    let x = cur + 6 + d.len() as int;
    lemma_dec_str_digits(v);
    assert forall|k: int| cur + 6 <= k < x implies is_digit(#[trigger] s[k]) by {
        assert(s.subrange(cur + 6, x)[k - (cur + 6)] == d[k - (cur + 6)]);
    }
    assert forall|k: int| cur <= k < x implies (#[trigger] s[k]) != ':' by {
        if k >= cur + 6 {
            lemma_digit_is_plain(s[k]);
        }
    }
    lemma_find_in_is(s, ':', cur, pe, x);
    assert forall|k: int| cur <= k < cur + 5 implies (#[trigger] s[k]) != '=' by {}
    lemma_find_in_is(s, '=', cur, x, cur + 5);
    assert(!is_http_key(s, cur, cur + 5));
    assert(is_https_key(s, cur, cur + 5));
    assert(s[cur + 6] == d[0]) by {
        assert(s.subrange(cur + 6, x)[0] == d[0]);
    }
    lemma_digit_is_plain(s[cur + 6]);
    lemma_parse_render_port(s, cur + 6, v);
    assert(parse_port(s, cur + 6, x) == Ok::<u16, PortParseError>(v as u16));
}

/// Hostname geometry of a token whose name is followed by a colon.
proof fn lemma_name_geometry(s: Seq<char>, p: int, name: Seq<char>)
    requires
        valid_domain_name(name),
        0 <= p,
        p + name.len() < s.len(),
        forall|q: int| 0 <= q < name.len() ==> s[p + q] == #[trigger] name[q],
        s[p + name.len()] == ':',
    ensures
        match_at(s, p),
        host_tail(s, p) == p + name.len() - 1,
        name_end(s, p) == p + name.len(),
        host_end(s, p) == p + name.len(),
        token_name(s, p) == name,
{
    let nn = name.len() as int;
    assert(s[p] == name[0]);
    assert forall|k: int| p + 1 <= k < p + nn implies is_host_char(#[trigger] s[k]) by {
        assert(s[k] == name[k - p]);
    }
    assert(!is_host_char(':'));
    lemma_host_run_end_is(s, p + 1, p + nn);
    assert(s[p + nn - 1] == name[nn - 1]);
    lemma_last_alnum_is(s, p + 2, p + nn - 1, p + nn - 1);
    assert(token_name(s, p) =~= name);
}

/// A rendered token, delimited by white space or the end of the input,
/// is recognised exactly and parses back to the spec it renders.
#[verifier::spinoff_prover]
#[verifier::rlimit(30)]
pub proof fn lemma_token_parse(s: Seq<char>, p: int, m: DomainSpecView)
    requires
        valid_spec(m),
        0 <= p,
        p + render_spec(m).len() <= s.len(),
        s.subrange(p, p + render_spec(m).len() as int) == render_spec(m),
        p + render_spec(m).len() < s.len() ==> is_space(s[p + render_spec(m).len()]),
    ensures
        match_at(s, p),
        match_end(s, p) == p + render_spec(m).len(),
        token_model(s, p) == Ok::<DomainSpecView, DomainSpecErrorView>(m),
{
    let t = render_spec(m);
    let ll = t.len() as int;
    let name = m.domain_name;
    let nn = name.len() as int;
    assert forall|q: int| 0 <= q < ll implies s[p + q] == #[trigger] t[q] by {
        assert(s.subrange(p, p + ll)[q] == t[q]);
    }
    assert forall|q: int| 0 <= q < nn implies s[p + q] == #[trigger] name[q] by {
        assert(t[q] == name[q]);
        assert(s[p + q] == t[q]);
    }
    let hp = http_param();
    let sp = https_param();
    if m.http_port is Some && m.https_port is Some {
        let v1 = m.http_port->0 as int;
        let v2 = m.https_port->0 as int;
        let d1 = dec_str(v1);
        let d2 = dec_str(v2);
        assert(t == name + (hp + d1) + (sp + d2));
        let a = nn + 6 + d1.len() as int;
        assert(ll == a + 7 + d2.len());
        assert(s[p + nn] == ':') by { assert(t[nn] == ':'); }
        lemma_name_geometry(s, p, name);
        assert(s[p + nn + 1] == 'h') by { assert(t[nn + 1] == 'h'); }
        assert(!is_space('h'));
        assert(has_params(s, p));
        lemma_dec_str_digits(v1);
        lemma_dec_str_digits(v2);
        assert forall|k: int| p + nn + 1 <= k < p + ll implies !is_space(#[trigger] s[k]) by {
            let q = k - p;
            if q < nn + 6 {
                assert(t[q] == hp[q - nn]);
            } else if q < a {
                assert(t[q] == d1[q - nn - 6]);
                lemma_digit_is_plain(t[q]);
            } else if q < a + 7 {
                if q == a {
                    assert(t[q] == ':');
                } else {
                    assert(t[q] == sp[q - a]);
                }
            } else {
                assert(t[q] == d2[q - a - 7]);
                lemma_digit_is_plain(t[q]);
            }
        }
        lemma_nonspace_run_end_is(s, p + nn + 1, p + ll);
        assert(params_end(s, p) == p + ll);
        assert(match_end(s, p) == p + ll);
        // First parameter: `http=PORT`, then a colon and the second.
        assert(s[p + nn + 2] == 't') by { assert(t[nn + 2] == 't'); }
        assert(s[p + nn + 3] == 't') by { assert(t[nn + 3] == 't'); }
        assert(s[p + nn + 4] == 'p') by { assert(t[nn + 4] == 'p'); }
        assert(s[p + nn + 5] == '=') by { assert(t[nn + 5] == '='); }
        assert(s.subrange(p + nn + 6, p + a) =~= d1) by {
            assert forall|q: int| 0 <= q < d1.len() implies s.subrange(p + nn + 6, p + a)[q]
                == d1[q] by {
                assert(t[nn + 6 + q] == d1[q]);
                assert(s[p + nn + 6 + q] == t[nn + 6 + q]);
            }
        }
        assert(s[p + a] == ':') by { assert(t[a] == ':'); }
        lemma_apply_step_http(s, p + nn + 1, p + ll, v1, None, None);
        // Second parameter: `https=PORT` to the end of the token.
        assert(s[p + a + 1] == 'h') by { assert(t[a + 1] == 'h'); }
        assert(s[p + a + 2] == 't') by { assert(t[a + 2] == 't'); }
        assert(s[p + a + 3] == 't') by { assert(t[a + 3] == 't'); }
        assert(s[p + a + 4] == 'p') by { assert(t[a + 4] == 'p'); }
        assert(s[p + a + 5] == 's') by { assert(t[a + 5] == 's'); }
        assert(s[p + a + 6] == '=') by { assert(t[a + 6] == '='); }
        assert(s.subrange(p + a + 7, p + ll) =~= d2) by {
            assert forall|q: int| 0 <= q < d2.len() implies s.subrange(p + a + 7, p + ll)[q]
                == d2[q] by {
                assert(t[a + 7 + q] == d2[q]);
                assert(s[p + a + 7 + q] == t[a + 7 + q]);
            }
        }
        lemma_apply_step_https(s, p + a + 1, p + ll, v2, Some(v1 as u16), None);
        assert(apply_params(s, p + nn + 1, p + ll, None, None) == Ok::<
            (Option<u16>, Option<u16>),
            (Seq<char>, PortParseError),
        >((m.http_port, m.https_port)));
        assert(token_model(s, p)->Ok_0 =~= m);
    } else if m.http_port is Some {
        let v1 = m.http_port->0 as int;
        let d1 = dec_str(v1);
        assert(t == name + (hp + d1) + Seq::<char>::empty());
        assert(ll == nn + 6 + d1.len());
        assert(s[p + nn] == ':') by { assert(t[nn] == ':'); }
        lemma_name_geometry(s, p, name);
        assert(s[p + nn + 1] == 'h') by { assert(t[nn + 1] == 'h'); }
        assert(!is_space('h'));
        assert(has_params(s, p));
        lemma_dec_str_digits(v1);
        assert forall|k: int| p + nn + 1 <= k < p + ll implies !is_space(#[trigger] s[k]) by {
            let q = k - p;
            if q < nn + 6 {
                assert(t[q] == hp[q - nn]);
            } else {
                assert(t[q] == d1[q - nn - 6]);
                lemma_digit_is_plain(t[q]);
            }
        }
        lemma_nonspace_run_end_is(s, p + nn + 1, p + ll);
        assert(params_end(s, p) == p + ll);
        assert(s[p + nn + 2] == 't') by { assert(t[nn + 2] == 't'); }
        assert(s[p + nn + 3] == 't') by { assert(t[nn + 3] == 't'); }
        assert(s[p + nn + 4] == 'p') by { assert(t[nn + 4] == 'p'); }
        assert(s[p + nn + 5] == '=') by { assert(t[nn + 5] == '='); }
        assert(s.subrange(p + nn + 6, p + ll) =~= d1) by {
            assert forall|q: int| 0 <= q < d1.len() implies s.subrange(p + nn + 6, p + ll)[q]
                == d1[q] by {
                assert(t[nn + 6 + q] == d1[q]);
                assert(s[p + nn + 6 + q] == t[nn + 6 + q]);
            }
        }
        lemma_apply_step_http(s, p + nn + 1, p + ll, v1, None, None);
        assert(apply_params(s, p + nn + 1, p + ll, None, None) == Ok::<
            (Option<u16>, Option<u16>),
            (Seq<char>, PortParseError),
        >((m.http_port, None)));
        assert(token_model(s, p)->Ok_0 =~= m);
    } else {
        let v2 = m.https_port->0 as int;
        let d2 = dec_str(v2);
        assert(t == name + Seq::<char>::empty() + (sp + d2));
        assert(ll == nn + 7 + d2.len());
        assert(s[p + nn] == ':') by { assert(t[nn] == ':'); }
        lemma_name_geometry(s, p, name);
        assert(s[p + nn + 1] == 'h') by { assert(t[nn + 1] == 'h'); }
        assert(!is_space('h'));
        assert(has_params(s, p));
        lemma_dec_str_digits(v2);
        assert forall|k: int| p + nn + 1 <= k < p + ll implies !is_space(#[trigger] s[k]) by {
            let q = k - p;
            if q < nn + 7 {
                assert(t[q] == sp[q - nn]);
            } else {
                assert(t[q] == d2[q - nn - 7]);
                lemma_digit_is_plain(t[q]);
            }
        }
        lemma_nonspace_run_end_is(s, p + nn + 1, p + ll);
        assert(params_end(s, p) == p + ll);
        assert(s[p + nn + 2] == 't') by { assert(t[nn + 2] == 't'); }
        assert(s[p + nn + 3] == 't') by { assert(t[nn + 3] == 't'); }
        assert(s[p + nn + 4] == 'p') by { assert(t[nn + 4] == 'p'); }
        assert(s[p + nn + 5] == 's') by { assert(t[nn + 5] == 's'); }
        assert(s[p + nn + 6] == '=') by { assert(t[nn + 6] == '='); }
        assert(s.subrange(p + nn + 7, p + ll) =~= d2) by {
            assert forall|q: int| 0 <= q < d2.len() implies s.subrange(p + nn + 7, p + ll)[q]
                == d2[q] by {
                assert(t[nn + 7 + q] == d2[q]);
                assert(s[p + nn + 7 + q] == t[nn + 7 + q]);
            }
        }
        lemma_apply_step_https(s, p + nn + 1, p + ll, v2, None, None);
        assert(apply_params(s, p + nn + 1, p + ll, None, None) == Ok::<
            (Option<u16>, Option<u16>),
            (Seq<char>, PortParseError),
        >((None, m.https_port)));
        assert(token_model(s, p)->Ok_0 =~= m);
    }
}

/// The scan of a rendered token list, starting where the rendering
/// starts, yields exactly that list.
#[verifier::spinoff_prover]
#[verifier::rlimit(30)]
proof fn lemma_scan_render(s: Seq<char>, p: int, ms: Seq<DomainSpecView>)
    requires
        forall|k: int| 0 <= k < ms.len() ==> valid_spec(#[trigger] ms[k]),
        0 <= p <= s.len(),
        s.len() == p + render_all(ms).len(),
        s.subrange(p, s.len() as int) == render_all(ms),
    ensures
        scan_from(s, p) == (ms, None::<DomainSpecErrorView>),
    decreases ms.len(),
{
    if ms.len() == 0 {
        assert(p == s.len());
        assert(scan_from(s, p).0 =~= ms);
    } else if ms.len() == 1 {
        let m = ms[0];
        let ll = render_spec(m).len() as int;
        assert(render_all(ms) == render_spec(m));
        lemma_token_parse(s, p, m);
        assert(scan_from(s, p + ll).0 =~= Seq::<DomainSpecView>::empty());
        assert(scan_from(s, p).0 =~= ms);
        assert(scan_from(s, p).1 is None);
        assert(scan_from(s, p) == (ms, None::<DomainSpecErrorView>));
    } else {
        let m = ms[0];
        let rest = ms.drop_first();
        let ll = render_spec(m).len() as int;
        assert(render_all(ms) == render_spec(m) + seq![' '] + render_all(rest));
        assert forall|q: int| p <= q < s.len() implies s[q] == render_all(ms)[q - p] by {
            assert(s.subrange(p, s.len() as int)[q - p] == render_all(ms)[q - p]);
        }
        assert(s.subrange(p, p + ll) =~= render_spec(m)) by {
            assert forall|q: int| 0 <= q < ll implies s.subrange(p, p + ll)[q]
                == render_spec(m)[q] by {
                assert(s[p + q] == render_all(ms)[q]);
            }
        }
        assert(s[p + ll] == ' ') by {
            assert(render_all(ms)[ll] == ' ');
        }
        assert(is_space(' '));
        lemma_token_parse(s, p, m);
        assert(!is_alnum(' '));
        assert(!match_at(s, p + ll));
        assert(s.subrange(p + ll + 1, s.len() as int) =~= render_all(rest)) by {
            assert forall|q: int| 0 <= q < render_all(rest).len() implies s.subrange(
                p + ll + 1,
                s.len() as int,
            )[q] == render_all(rest)[q] by {
                assert(s[p + ll + 1 + q] == render_all(ms)[ll + 1 + q]);
            }
        }
        assert forall|k: int| 0 <= k < rest.len() implies valid_spec(#[trigger] rest[k]) by {
            assert(rest[k] == ms[k + 1]);
        }
        lemma_scan_render(s, p + ll + 1, rest);
        assert(scan_from(s, p + ll) == scan_from(s, p + ll + 1));
        assert(scan_from(s, p).0 =~= ms);
        assert(scan_from(s, p).1 is None);
        assert(scan_from(s, p) == (ms, None::<DomainSpecErrorView>));
    }
}

/// Round trip: any well-formed spec list, rendered to the wire format and
/// parsed back, yields exactly itself, with no error.  In particular the
/// default-filling of the parser is idempotent: parsing what a parse
/// produced changes nothing.
pub proof fn lemma_parse_render_roundtrip(ms: Seq<DomainSpecView>)
    requires
        forall|k: int| 0 <= k < ms.len() ==> valid_spec(#[trigger] ms[k]),
    ensures
        parse_dsl(render_all(ms)) == (ms, None::<DomainSpecErrorView>),
{
    let s = render_all(ms);
    assert(s.subrange(0, s.len() as int) =~= s);
    lemma_scan_render(s, 0, ms);
}

} // verus!
