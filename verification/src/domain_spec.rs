//! Parsed domain specifications and the executable domain-spec parser,
//! proved against the model in [`crate::dsl`].

use vstd::prelude::*;
use vstd::string::StrSliceExecFns;
use vstd::string::StringExecFns;
use crate::dsl::{
    DomainSpecErrorView, DomainSpecView, PortParseError, apply_params, dec_str, digit_char,
    digit_val, find_in, has_params, host_end, host_run_end, host_tail, is_alnum, is_digit,
    is_host_char, is_http_key, is_https_key, is_space, last_alnum, lemma_match_geometry,
    match_at, match_end, nonspace_run_end, parse_dsl, parse_port, parse_port_digits,
    render_spec, sanitize_id, scan_from, token_model,
};

verus! {

/// Specification for a single domain: which HTTP and HTTPS ports to publish
/// for it.  Values produced by [`DomainSpec::parse_all`] carry at least one
/// port and a domain name that never ends in a dot.
#[derive(Debug, Clone, PartialEq, Eq)]
pub struct DomainSpec {
    pub domain_name: String,
    pub http_port: Option<u16>,
    pub https_port: Option<u16>,
}

impl View for DomainSpec {
    type V = DomainSpecView;

    open spec fn view(&self) -> DomainSpecView {
        DomainSpecView {
            domain_name: self.domain_name@,
            http_port: self.http_port,
            https_port: self.https_port,
        }
    }
}

impl DeepView for DomainSpec {
    type V = DomainSpecView;

    open spec fn deep_view(&self) -> DomainSpecView {
        self.view()
    }
}

/// Failure to parse a domain-spec option: the port value of `key` on the
/// token for `domain_name` was not a 16-bit decimal number.
#[derive(Debug, Clone)]
pub struct DomainSpecError {
    pub domain_name: String,
    pub cause: PortParseError,
    pub key: Option<String>,
}

impl View for DomainSpecError {
    type V = DomainSpecErrorView;

    open spec fn view(&self) -> DomainSpecErrorView {
        DomainSpecErrorView {
            domain_name: self.domain_name@,
            key: match self.key {
                Some(k) => Some(k@),
                None => None,
            },
            cause: self.cause,
        }
    }
}

fn char_is_alnum(c: char) -> (r: bool)
    ensures
        r == is_alnum(c),
{
    ('a' <= c && c <= 'z') || ('A' <= c && c <= 'Z') || ('0' <= c && c <= '9')
}

fn char_is_host(c: char) -> (r: bool)
    ensures
        r == is_host_char(c),
{
    char_is_alnum(c) || c == '.' || c == '-'
}

fn char_is_space(c: char) -> (r: bool)
    ensures
        r == is_space(c),
{
    c == '\u{09}' || c == '\u{0a}' || c == '\u{0b}' || c == '\u{0c}' || c == '\u{0d}' || c == ' '
        || c == '\u{85}' || c == '\u{a0}' || c == '\u{1680}'
        || ('\u{2000}' <= c && c <= '\u{200a}') || c == '\u{2028}' || c == '\u{2029}'
        || c == '\u{202f}' || c == '\u{205f}' || c == '\u{3000}'
}

fn char_is_digit(c: char) -> (r: bool)
    ensures
        r == is_digit(c),
{
    '0' <= c && c <= '9'
}

fn digit_value(c: char) -> (r: u16)
    requires
        is_digit(c),
    ensures
        r as int == digit_val(c),
        r <= 9,
{
    if c == '0' { 0 } else if c == '1' { 1 } else if c == '2' { 2 } else if c == '3' { 3 }
    else if c == '4' { 4 } else if c == '5' { 5 } else if c == '6' { 6 } else if c == '7' { 7 }
    else if c == '8' { 8 } else { 9 }
}

/// Walks the host-character run that starts at `j`.
fn host_run_upto(s: &str, j: usize, len: usize) -> (r: usize)
    requires
        j <= len,
        len == s@.len(),
    ensures
        r as int == host_run_end(s@, j as int),
        j <= r <= len,
{
    let mut k = j;
    loop
        invariant
            j <= k <= len,
            len == s@.len(),
            host_run_end(s@, j as int) == host_run_end(s@, k as int),
        ensures
            j <= k <= len,
            k as int == host_run_end(s@, j as int),
        decreases len - k,
    {
        if k >= len {
            break;
        }
        let c = s.get_char(k);
        if !char_is_host(c) {
            break;
        }
        k = k + 1;
    }
    k
}

/// Walks the non-white-space run that starts at `j`.
fn nonspace_run_upto(s: &str, j: usize, len: usize) -> (r: usize)
    requires
        j <= len,
        len == s@.len(),
    ensures
        r as int == nonspace_run_end(s@, j as int),
        j <= r <= len,
{
    let mut k = j;
    loop
        invariant
            j <= k <= len,
            len == s@.len(),
            nonspace_run_end(s@, j as int) == nonspace_run_end(s@, k as int),
        ensures
            j <= k <= len,
            k as int == nonspace_run_end(s@, j as int),
        decreases len - k,
    {
        if k >= len {
            break;
        }
        let c = s.get_char(k);
        if char_is_space(c) {
            break;
        }
        k = k + 1;
    }
    k
}

/// Finds the last alphanumeric character in `s[lo..hi_plus]`, scanning from
/// the right.
fn last_alnum_before(s: &str, lo: usize, hi_plus: usize, len: usize) -> (r: Option<usize>)
    requires
        1 <= lo,
        hi_plus <= len,
        len == s@.len(),
    ensures
        match r {
            Some(j) => j as int == last_alnum(s@, lo as int, hi_plus as int - 1) && lo <= j
                && (j as int) < hi_plus as int,
            None => last_alnum(s@, lo as int, hi_plus as int - 1) == lo as int - 1,
        },
{
    let mut k = hi_plus;
    let mut r: Option<usize> = None;
    loop
        invariant_except_break
            k <= hi_plus,
            hi_plus <= len,
            len == s@.len(),
            1 <= lo,
            last_alnum(s@, lo as int, hi_plus as int - 1) == last_alnum(s@, lo as int, k as int - 1),
        ensures
            match r {
                Some(j) => j as int == last_alnum(s@, lo as int, hi_plus as int - 1) && lo <= j
                    && (j as int) < hi_plus as int,
                None => last_alnum(s@, lo as int, hi_plus as int - 1) == lo as int - 1,
            },
        decreases k,
    {
        if k <= lo {
            r = None;
            break;
        }
        let c = s.get_char(k - 1);
        if char_is_alnum(c) {
            r = Some(k - 1);
            break;
        }
        k = k - 1;
    }
    r
}

/// Finds the first occurrence of `c` in `s[from..to]`.
pub(crate) fn find_char_in(s: &str, c: char, from: usize, to: usize, len: usize) -> (r: usize)
    requires
        from <= to,
        to <= len,
        len == s@.len(),
    ensures
        r as int == find_in(s@, c, from as int, to as int),
        from <= r <= to,
{
    let mut k = from;
    loop
        invariant
            from <= k <= to,
            to <= len,
            len == s@.len(),
            find_in(s@, c, from as int, to as int) == find_in(s@, c, k as int, to as int),
        ensures
            from <= k <= to,
            k as int == find_in(s@, c, from as int, to as int),
        decreases to - k,
    {
        if k >= to {
            break;
        }
        if s.get_char(k) == c {
            break;
        }
        k = k + 1;
    }
    k
}

/// Reads `s[from..to]` as a decimal 16-bit port number.
fn parse_port_num(s: &str, from: usize, to: usize, len: usize) -> (r: Result<u16, PortParseError>)
    requires
        from <= len,
        to <= len,
        len == s@.len(),
    ensures
        r == parse_port(s@, from as int, to as int),
{
    if from >= to {
        return Err(PortParseError::Empty);
    }
    let first = s.get_char(from);
    let start: usize = if first == '+' {
        if from + 1 >= to {
            return Err(PortParseError::InvalidDigit);
        }
        from + 1
    } else {
        from
    };
    let mut k = start;
    let mut acc: u16 = 0;
    let mut r: Result<u16, PortParseError> = Ok(0);
    loop
        invariant_except_break
            start <= k <= to,
            to <= len,
            len == s@.len(),
            parse_port_digits(s@, start as int, to as int, 0) == parse_port_digits(
                s@,
                k as int,
                to as int,
                acc as int,
            ),
        ensures
            r == parse_port_digits(s@, start as int, to as int, 0),
        decreases to - k,
    {
        if k >= to {
            r = Ok(acc);
            break;
        }
        let c = s.get_char(k);
        if !char_is_digit(c) {
            r = Err(PortParseError::InvalidDigit);
            break;
        }
        let d = digit_value(c);
        let wide: u32 = acc as u32 * 10 + d as u32;
        if wide > 0xFFFF {
            r = Err(PortParseError::Overflow);
            break;
        }
        acc = wide as u16;
        k = k + 1;
    }
    r
}

/// Case-insensitive test of `s[from..to]` against `http`.
fn key_is_http(s: &str, from: usize, to: usize, len: usize) -> (r: bool)
    requires
        from <= to,
        to <= len,
        len == s@.len(),
    ensures
        r == is_http_key(s@, from as int, to as int),
{
    if to - from != 4 {
        return false;
    }
    let c0 = s.get_char(from);
    let c1 = s.get_char(from + 1);
    let c2 = s.get_char(from + 2);
    let c3 = s.get_char(from + 3);
    (c0 == 'h' || c0 == 'H') && (c1 == 't' || c1 == 'T') && (c2 == 't' || c2 == 'T')
        && (c3 == 'p' || c3 == 'P')
}

/// Case-insensitive test of `s[from..to]` against `https`.
fn key_is_https(s: &str, from: usize, to: usize, len: usize) -> (r: bool)
    requires
        from <= to,
        to <= len,
        len == s@.len(),
    ensures
        r == is_https_key(s@, from as int, to as int),
{
    if to - from != 5 {
        return false;
    }
    let c0 = s.get_char(from);
    let c1 = s.get_char(from + 1);
    let c2 = s.get_char(from + 2);
    let c3 = s.get_char(from + 3);
    let c4 = s.get_char(from + 4);
    (c0 == 'h' || c0 == 'H') && (c1 == 't' || c1 == 'T') && (c2 == 't' || c2 == 'T')
        && (c3 == 'p' || c3 == 'P') && (c4 == 's' || c4 == 'S')
}

/// Folds the parameter block `s[start..pe]` into a port pair.  An error
/// reports which protocol key carried the bad value (`true` for `https`).
fn apply_params_all(s: &str, start: usize, pe: usize, len: usize) -> (r: Result<
    (Option<u16>, Option<u16>),
    (bool, PortParseError),
>)
    requires
        start <= pe,
        pe <= len,
        len == s@.len(),
    ensures
        match r {
            Ok(pair) => apply_params(s@, start as int, pe as int, None, None) == Result::<
                (Option<u16>, Option<u16>),
                (Seq<char>, PortParseError),
            >::Ok(pair),
            Err((https_k, cause)) => apply_params(s@, start as int, pe as int, None, None)
                == Result::<(Option<u16>, Option<u16>), (Seq<char>, PortParseError)>::Err(
                (if https_k { crate::dsl::https_key() } else { crate::dsl::http_key() }, cause),
            ),
        },
{
    let mut cur = start;
    let mut http: Option<u16> = None;
    let mut https: Option<u16> = None;
    let mut r: Result<(Option<u16>, Option<u16>), (bool, PortParseError)> = Ok((None, None));
    loop
        invariant_except_break
            start <= cur <= pe,
            pe <= len,
            len == s@.len(),
            apply_params(s@, start as int, pe as int, None, None) == apply_params(
                s@,
                cur as int,
                pe as int,
                http,
                https,
            ),
        ensures
            match r {
                Ok(pair) => apply_params(s@, start as int, pe as int, None, None) == Result::<
                    (Option<u16>, Option<u16>),
                    (Seq<char>, PortParseError),
                >::Ok(pair),
                Err((https_k, cause)) => apply_params(s@, start as int, pe as int, None, None)
                    == Result::<(Option<u16>, Option<u16>), (Seq<char>, PortParseError)>::Err(
                    (
                        if https_k {
                            crate::dsl::https_key()
                        } else {
                            crate::dsl::http_key()
                        },
                        cause,
                    ),
                ),
            },
        decreases pe - cur,
    {
        let cut = find_char_in(s, ':', cur, pe, len);
        let eq = find_char_in(s, '=', cur, cut, len);
        if key_is_http(s, cur, eq, len) {
            if eq >= cut {
                http = Some(80);
            } else {
                match parse_port_num(s, eq + 1, cut, len) {
                    Ok(p) => {
                        http = Some(p);
                    },
                    Err(e) => {
                        r = Err((false, e));
                        break;
                    },
                }
            }
        } else if key_is_https(s, cur, eq, len) {
            if eq >= cut {
                https = Some(443);
            } else {
                match parse_port_num(s, eq + 1, cut, len) {
                    Ok(p) => {
                        https = Some(p);
                    },
                    Err(e) => {
                        r = Err((true, e));
                        break;
                    },
                }
            }
        }
        if cut >= pe {
            r = Ok((http, https));
            break;
        }
        cur = cut + 1;
    }
    r
}

/// Whether `s[from..to]` holds exactly the characters of `t`.
pub(crate) fn substr_eq(s: &str, from: usize, to: usize, t: &str) -> (r: bool)
    requires
        from <= to,
        to <= s@.len(),
    ensures
        r == (s@.subrange(from as int, to as int) == t@),
{
    let tlen = t.unicode_len();
    if to - from != tlen {
        proof {
            assert(s@.subrange(from as int, to as int).len() != t@.len());
        }
        return false;
    }
    let mut k: usize = 0;
    loop
        invariant_except_break
            k <= tlen,
            to - from == tlen,
            from <= to <= s@.len(),
            tlen == t@.len(),
            forall|m: int| 0 <= m < k ==> s@[from + m] == t@[m],
        ensures
            (k == tlen && forall|m: int| 0 <= m < k ==> s@[from + m] == t@[m]) || (k < tlen
                && s@[from + k] != t@[k as int]),
        decreases tlen - k,
    {
        if k >= tlen {
            break;
        }
        if s.get_char(from + k) != t.get_char(k) {
            break;
        }
        k = k + 1;
    }
    if k == tlen {
        proof {
            assert(s@.subrange(from as int, to as int) =~= t@);
        }
        true
    } else {
        proof {
            assert(s@.subrange(from as int, to as int)[k as int] != t@[k as int]);
        }
        false
    }
}

/// The explanatory text for a cause of a port-parse failure.
pub open spec fn cause_text(c: PortParseError) -> Seq<char> {
    match c {
        PortParseError::Empty => "cannot parse integer from empty string"@,
        PortParseError::InvalidDigit => "invalid digit found in string"@,
        PortParseError::Overflow => "number too large to fit in target type"@,
    }
}

/// The rendered description of a domain-spec parse failure.
pub open spec fn error_message(e: DomainSpecErrorView) -> Seq<char> {
    "Failed to parse domain spec option. Domain name: \""@ + e.domain_name + "\""@ + (match e.key {
        Some(k) => " Option name: \""@ + k + "\""@,
        None => Seq::<char>::empty(),
    }) + " Cause: "@ + cause_text(e.cause)
}

impl DomainSpecError {
    /// A human-readable description of this failure, naming the domain,
    /// the offending option and the cause.
    pub fn message(&self) -> (r: String)
        ensures
            r@ == error_message(self@),
    {
        let mut out: String = "Failed to parse domain spec option. Domain name: \"".to_owned();
        out.append(self.domain_name.as_str());
        out.append("\"");
        match &self.key {
            Some(k) => {
                out.append(" Option name: \"");
                out.append(k.as_str());
                out.append("\"");
            },
            None => {},
        }
        out.append(" Cause: ");
        match self.cause {
            PortParseError::Empty => out.append("cannot parse integer from empty string"),
            PortParseError::InvalidDigit => out.append("invalid digit found in string"),
            PortParseError::Overflow => out.append("number too large to fit in target type"),
        }
        proof {
            assert(out@ =~= error_message(self@));
        }
        out
    }
}

/// Appends one decimal digit character to `out`.
fn push_digit(out: &mut String, d: u16)
    requires
        d <= 9,
    ensures
        final(out)@ == old(out)@.push(digit_char(d as int)),
{
    proof {
        reveal_strlit("0");
        reveal_strlit("1");
        reveal_strlit("2");
        reveal_strlit("3");
        reveal_strlit("4");
        reveal_strlit("5");
        reveal_strlit("6");
        reveal_strlit("7");
        reveal_strlit("8");
        reveal_strlit("9");
    }
    if d == 0 { out.append("0"); } else if d == 1 { out.append("1"); }
    else if d == 2 { out.append("2"); } else if d == 3 { out.append("3"); }
    else if d == 4 { out.append("4"); } else if d == 5 { out.append("5"); }
    else if d == 6 { out.append("6"); } else if d == 7 { out.append("7"); }
    else if d == 8 { out.append("8"); } else { out.append("9"); }
    proof {
        assert(final(out)@ =~= old(out)@.push(digit_char(d as int)));
    }
}

/// Appends the decimal rendering of `n` to `out`.
pub(crate) fn push_decimal(out: &mut String, n: u16)
    ensures
        final(out)@ == old(out)@ + dec_str(n as int),
    decreases n,
{
    if n < 10 {
        push_digit(out, n);
        proof {
            assert(final(out)@ =~= old(out)@ + dec_str(n as int));
        }
    } else {
        push_decimal(out, n / 10);
        push_digit(out, n % 10);
        proof {
            assert(dec_str(n as int) == dec_str(n as int / 10).push(digit_char(n as int % 10)));
            assert(final(out)@ =~= old(out)@ + dec_str(n as int));
        }
    }
}

impl DomainSpec {
    /// The identifier under which this spec is published: the domain name
    /// with every character outside `[A-Za-z0-9_]` replaced by `_`.
    pub fn spec_id(&self) -> (r: String)
        ensures
            r@ == sanitize_id(self.domain_name@),
    {
        let name = self.domain_name.as_str();
        let n = name.unicode_len();
        let mut out = String::new();
        let mut k: usize = 0;
        while k < n
            invariant
                k <= n,
                n == name@.len(),
                name@ == self.domain_name@,
                out@ == sanitize_id(self.domain_name@).take(k as int),
            decreases n - k,
        {
            let c = name.get_char(k);
            if char_is_alnum(c) || c == '_' {
                let piece = name.substring_char(k, k + 1);
                out.append(piece);
            } else {
                proof {
                    reveal_strlit("_");
                }
                out.append("_");
            }
            proof {
                assert(out@ =~= sanitize_id(self.domain_name@).take(k as int + 1));
            }
            k = k + 1;
        }
        proof {
            assert(out@ =~= sanitize_id(self.domain_name@));
        }
        out
    }

    /// Renders this spec back into its canonical wire form, with every
    /// configured port written out explicitly.
    pub fn to_dsl(&self) -> (r: String)
        ensures
            r@ == render_spec(self@),
    {
        let mut out = self.domain_name.clone();
        match self.http_port {
            Some(p) => {
                proof {
                    reveal_strlit(":http=");
                    assert(":http="@ =~= crate::dsl::http_param());
                }
                out.append(":http=");
                push_decimal(&mut out, p);
            },
            None => {},
        }
        match self.https_port {
            Some(p) => {
                proof {
                    reveal_strlit(":https=");
                    assert(":https="@ =~= crate::dsl::https_param());
                }
                out.append(":https=");
                push_decimal(&mut out, p);
            },
            None => {},
        }
        proof {
            assert(out@ =~= render_spec(self@));
        }
        out
    }

    /// Parses every domain-spec token of `raw`, appending the parsed specs
    /// to `specs` in order of appearance.  Text that forms no token is
    /// skipped without error; the first malformed port value stops the scan
    /// and is returned, with the specs of all earlier tokens already
    /// appended (best effort so far).
    pub fn parse_all(raw: &str, specs: &mut Vec<DomainSpec>) -> (r: Result<(), DomainSpecError>)
        ensures
            final(specs).deep_view() == old(specs).deep_view() + parse_dsl(raw@).0,
            match r {
                Ok(()) => parse_dsl(raw@).1 is None,
                Err(e) => parse_dsl(raw@).1 == Some(e@),
            },
    {
        let ghost old_models = specs.deep_view();
        let ghost n0 = old_models.len() as int;
        let len = raw.unicode_len();
        let mut i: usize = 0;
        while i < len
            invariant
                i <= len,
                len == raw@.len(),
                specs.deep_view().len() >= n0,
                specs.deep_view().take(n0) == old_models,
                n0 == old_models.len(),
                old_models == old(specs).deep_view(),
                scan_from(raw@, 0).0 == specs.deep_view().skip(n0) + scan_from(raw@, i as int).0,
                scan_from(raw@, 0).1 == scan_from(raw@, i as int).1,
            decreases len - i,
        {
            let ghost gi = i as int;
            let c = raw.get_char(i);
            if !char_is_alnum(c) {
                proof {
                    assert(!match_at(raw@, gi));
                }
                i = i + 1;
                continue;
            }
            let e = host_run_upto(raw, i + 1, len);
            if e == i + 1 {
                proof {
                    assert(host_tail(raw@, gi) == gi + 1);
                    assert(!match_at(raw@, gi));
                }
                i = i + 1;
                continue;
            }
            let tail_opt = last_alnum_before(raw, i + 2, e, len);
            let j = match tail_opt {
                None => {
                    proof {
                        assert(!match_at(raw@, gi));
                    }
                    i = i + 1;
                    continue;
                },
                Some(j) => j,
            };
            proof {
                assert(match_at(raw@, gi));
                lemma_match_geometry(raw@, gi);
            }
            // The domain name runs to the final alphanumeric; a trailing
            // FQDN dot is part of the token but stripped from the name.
            let name_str = raw.substring_char(i, j + 1);
            let domain_name: String = name_str.to_owned();
            let mut hend = j + 1;
            if j + 1 < len {
                if raw.get_char(j + 1) == '.' {
                    hend = j + 2;
                }
            }
            proof {
                assert(hend as int == host_end(raw@, gi));
            }
            let mut has_p = false;
            if hend < len {
                if raw.get_char(hend) == ':' {
                    if hend + 1 < len {
                        if !char_is_space(raw.get_char(hend + 1)) {
                            has_p = true;
                        }
                    }
                }
            }
            proof {
                assert(has_p == has_params(raw@, gi));
            }
            let mut http: Option<u16> = None;
            let mut https: Option<u16> = None;
            let mut mend = hend;
            if has_p {
                let pe = nonspace_run_upto(raw, hend + 1, len);
                mend = pe;
                match apply_params_all(raw, hend + 1, pe, len) {
                    Ok(pair) => {
                        http = pair.0;
                        https = pair.1;
                    },
                    Err((https_k, cause)) => {
                        let key: String = if https_k {
                            "https".to_owned()
                        } else {
                            "http".to_owned()
                        };
                        proof {
                            reveal_strlit("https");
                            reveal_strlit("http");
                            assert("https"@ =~= crate::dsl::https_key());
                            assert("http"@ =~= crate::dsl::http_key());
                        }
                        let err = DomainSpecError { domain_name, cause, key: Some(key) };
                        proof {
                            assert(token_model(raw@, gi) == Result::<
                                DomainSpecView,
                                DomainSpecErrorView,
                            >::Err(err@));
                            assert(scan_from(raw@, gi).0 =~= Seq::<DomainSpecView>::empty());
                            assert(specs.deep_view() =~= old_models + scan_from(raw@, 0).0);
                        }
                        return Err(err);
                    },
                }
            }
            proof {
                assert(mend as int == match_end(raw@, gi));
            }
            let built = if http.is_none() && https.is_none() {
                DomainSpec { domain_name, http_port: Some(80), https_port: Some(443) }
            } else {
                DomainSpec { domain_name, http_port: http, https_port: https }
            };
            proof {
                assert(token_model(raw@, gi) == Result::<
                    DomainSpecView,
                    DomainSpecErrorView,
                >::Ok(built@));
            }
            let ghost pre_models = specs.deep_view();
            specs.push(built);
            proof {
                assert(specs.deep_view() =~= pre_models.push(built@));
                assert(specs.deep_view().take(n0) =~= old_models);
                assert(scan_from(raw@, gi).0 == seq![built@] + scan_from(raw@, mend as int).0);
                assert(specs.deep_view().skip(n0) =~= pre_models.skip(n0).push(built@));
                assert(pre_models.skip(n0).push(built@) + scan_from(raw@, mend as int).0
                    =~= pre_models.skip(n0) + scan_from(raw@, gi).0);
            }
            i = mend;
        }
        proof {
            assert(scan_from(raw@, i as int).0 =~= Seq::<DomainSpecView>::empty());
            assert(specs.deep_view() =~= old_models + scan_from(raw@, 0).0);
        }
        Ok(())
    }
}

} // verus!
