//! The registry record format: the JSON text written for a container's
//! domain specs.  Each spec becomes an object with its sanitised `id`, the
//! `domain` itself, and a `{host, port}` object per configured protocol;
//! a publication is the array of these objects.  Keys appear in sorted
//! order and strings are escaped as JSON requires.

use vstd::prelude::*;
use vstd::string::StrSliceExecFns;
use vstd::string::StringExecFns;
use crate::domain_spec::DomainSpec;
use crate::dsl::{DomainSpecView, dec_str, sanitize_id};

verus! {

/// The JSON escape of one character: quote and backslash get a backslash,
/// the named control characters their short forms, the remaining control
/// characters (and delete) a `\u` form, and everything else stands for
/// itself.
pub open spec fn json_escape_char(c: char) -> Seq<char> {
    if c == '"' {
        seq!['\\', '"']
    } else if c == '\\' {
        seq!['\\', '\\']
    } else if c == '\u{08}' {
        seq!['\\', 'b']
    } else if c == '\u{0c}' {
        seq!['\\', 'f']
    } else if c == '\n' {
        seq!['\\', 'n']
    } else if c == '\r' {
        seq!['\\', 'r']
    } else if c == '\t' {
        seq!['\\', 't']
    } else if c < '\u{20}' || c == '\u{7f}' {
        seq!['\\', 'u', '0', '0', digit_16(c)] + seq![digit_1(c)]
    } else {
        seq![c]
    }
}

/// The first hex digit of the `\u00..` form of a control character.
pub open spec fn digit_16(c: char) -> char {
    if (c as int) < 0x10 {
        '0'
    } else if (c as int) < 0x20 {
        '1'
    } else {
        '7'
    }
}

/// The second hex digit of the `\u00..` form of a control character.
pub open spec fn digit_1(c: char) -> char {
    let low = (c as int) % 16;
    if low < 10 {
        digit_from(low)
    } else {
        letter_from(low - 10)
    }
}

pub open spec fn digit_from(d: int) -> char {
    crate::dsl::digit_char(d)
}

pub open spec fn letter_from(d: int) -> char {
    if d == 0 { 'a' } else if d == 1 { 'b' } else if d == 2 { 'c' } else if d == 3 { 'd' }
    else if d == 4 { 'e' } else { 'f' }
}

/// The JSON string form of `s`: quoted, with every character escaped.
pub open spec fn json_string(s: Seq<char>) -> Seq<char> {
    seq!['"'] + json_escaped(s) + seq!['"']
}

pub open spec fn json_escaped(s: Seq<char>) -> Seq<char>
    decreases s.len(),
{
    if s.len() == 0 {
        Seq::empty()
    } else {
        json_escape_char(s[0]) + json_escaped(s.drop_first())
    }
}

/// The backend object for one protocol: where the registry's consumers
/// reach the container for that protocol.
pub open spec fn backend_json(host: Seq<char>, port: u16) -> Seq<char> {
    "{\"host\":"@ + json_string(host) + ",\"port\":"@ + dec_str(port as int) + "}"@
}

/// The record for one domain spec on `host`: keys in sorted order, with
/// the `http`/`https` members present exactly for the configured ports.
pub open spec fn domain_json(host: Seq<char>, m: DomainSpecView) -> Seq<char> {
    "{\"domain\":"@ + json_string(m.domain_name) + (match m.http_port {
        Some(p) => ",\"http\":"@ + backend_json(host, p),
        None => Seq::<char>::empty(),
    }) + (match m.https_port {
        Some(p) => ",\"https\":"@ + backend_json(host, p),
        None => Seq::<char>::empty(),
    }) + ",\"id\":"@ + json_string(sanitize_id(m.domain_name)) + "}"@
}

/// The full registry value for a publication: the array of its domain
/// records, in the publication's order.
pub open spec fn domains_json(host: Seq<char>, ms: Seq<DomainSpecView>) -> Seq<char> {
    seq!['['] + domains_json_items(host, ms) + seq![']']
}

pub open spec fn domains_json_items(host: Seq<char>, ms: Seq<DomainSpecView>) -> Seq<char>
    decreases ms.len(),
{
    if ms.len() == 0 {
        Seq::empty()
    } else if ms.len() == 1 {
        domain_json(host, ms[0])
    } else {
        domain_json(host, ms[0]) + seq![','] + domains_json_items(host, ms.drop_first())
    }
}

/// Escaping one character more extends the escaped text by that
/// character's escape.
proof fn lemma_json_escaped_push(s: Seq<char>, c: char)
    ensures
        json_escaped(s.push(c)) == json_escaped(s) + json_escape_char(c),
    decreases s.len(),
{
    if s.len() == 0 {
        assert(s.push(c)[0] == c);
        assert(s.push(c).drop_first() =~= Seq::<char>::empty());
        assert(json_escaped(Seq::<char>::empty()) =~= Seq::<char>::empty());
        assert(json_escaped(s.push(c)) =~= json_escaped(s) + json_escape_char(c));
    } else {
        assert(s.push(c)[0] == s[0]);
        assert(s.push(c).drop_first() =~= s.drop_first().push(c));
        lemma_json_escaped_push(s.drop_first(), c);
        assert(s.push(c).len() > 0);
        assert(json_escaped(s.push(c)) == json_escape_char(s.push(c)[0]) + json_escaped(
            s.push(c).drop_first(),
        ));
        assert(json_escaped(s.push(c).drop_first()) == json_escaped(s.drop_first())
            + json_escape_char(c));
        assert(json_escaped(s) == json_escape_char(s[0]) + json_escaped(s.drop_first()));
        assert(json_escaped(s.push(c)) =~= json_escaped(s) + json_escape_char(c));
    }
}

/// Appends the JSON string form of `s` (quotes and escapes included) to
/// `out`.
fn push_json_string(out: &mut String, s: &str)
    ensures
        final(out)@ == old(out)@ + json_string(s@),
{
    proof {
        reveal_strlit("\"");
    }
    out.append("\"");
    let len = s.unicode_len();
    let mut k: usize = 0;
    while k < len
        invariant
            k <= len,
            len == s@.len(),
            out@ == old(out)@ + seq!['"'] + json_escaped(s@.take(k as int)),
        decreases len - k,
    {
        let ghost pre = out@;
        let c = s.get_char(k);
        if c == '"' {
            proof {
                reveal_strlit("\\\"");
            }
            out.append("\\\"");
        } else if c == '\\' {
            proof {
                reveal_strlit("\\\\");
            }
            out.append("\\\\");
        } else if c == '\u{08}' {
            proof {
                reveal_strlit("\\b");
            }
            out.append("\\b");
        } else if c == '\u{0c}' {
            proof {
                reveal_strlit("\\f");
            }
            out.append("\\f");
        } else if c == '\n' {
            proof {
                reveal_strlit("\\n");
            }
            out.append("\\n");
        } else if c == '\r' {
            proof {
                reveal_strlit("\\r");
            }
            out.append("\\r");
        } else if c == '\t' {
            proof {
                reveal_strlit("\\t");
            }
            out.append("\\t");
        } else if c < '\u{20}' || c == '\u{7f}' {
            proof {
                reveal_strlit("\\u00");
            }
            out.append("\\u00");
            let code: u32 = c as u32;
            if code < 0x10 {
                proof {
                    reveal_strlit("0");
                }
                out.append("0");
            } else if code < 0x20 {
                proof {
                    reveal_strlit("1");
                }
                out.append("1");
            } else {
                proof {
                    reveal_strlit("7");
                }
                out.append("7");
            }
            let low: u32 = code % 16;
            proof {
                reveal_strlit("0");
                reveal_strlit("1");
                reveal_strlit("2");
                reveal_strlit("3");
                reveal_strlit("4");
                reveal_strlit("5");
                reveal_strlit("6");
                reveal_strlit("7");
                reveal_strlit("8");
                reveal_strlit("9");
                reveal_strlit("a");
                reveal_strlit("b");
                reveal_strlit("c");
                reveal_strlit("d");
                reveal_strlit("e");
                reveal_strlit("f");
            }
            if low == 0 { out.append("0"); } else if low == 1 { out.append("1"); }
            else if low == 2 { out.append("2"); } else if low == 3 { out.append("3"); }
            else if low == 4 { out.append("4"); } else if low == 5 { out.append("5"); }
            else if low == 6 { out.append("6"); } else if low == 7 { out.append("7"); }
            else if low == 8 { out.append("8"); } else if low == 9 { out.append("9"); }
            else if low == 10 { out.append("a"); } else if low == 11 { out.append("b"); }
            else if low == 12 { out.append("c"); } else if low == 13 { out.append("d"); }
            else if low == 14 { out.append("e"); } else { out.append("f"); }
        } else {
            let piece = s.substring_char(k, k + 1);
            out.append(piece);
        }
        proof {
            assert(out@ =~= pre + json_escape_char(s@[k as int]));
            assert(s@.take(k as int + 1) =~= s@.take(k as int).push(s@[k as int]));
            lemma_json_escaped_push(s@.take(k as int), s@[k as int]);
            assert(out@ =~= old(out)@ + seq!['"'] + json_escaped(s@.take(k as int + 1)));
        }
        k = k + 1;
    }
    proof {
        assert(s@.take(len as int) =~= s@);
    }
    out.append("\"");
    proof {
        assert(out@ =~= old(out)@ + json_string(s@));
    }
}

/// Builds the backend object naming `host` and `port` for one protocol.
pub fn backend_setup(host: &str, port: u16) -> (r: String)
    ensures
        r@ == backend_json(host@, port),
{
    let mut out: String = "{\"host\":".to_owned();
    push_json_string(&mut out, host);
    out.append(",\"port\":");
    crate::domain_spec::push_decimal(&mut out, port);
    out.append("}");
    proof {
        assert(out@ =~= backend_json(host@, port));
    }
    out
}

/// Builds the registry record for one domain spec on `container_host`.
pub fn domain_config(container_host: &str, spec: &DomainSpec) -> (r: String)
    ensures
        r@ == domain_json(container_host@, spec@),
{
    let mut out: String = "{\"domain\":".to_owned();
    push_json_string(&mut out, spec.domain_name.as_str());
    match spec.http_port {
        Some(p) => {
            out.append(",\"http\":");
            let backend = backend_setup(container_host, p);
            out.append(backend.as_str());
        },
        None => {},
    }
    match spec.https_port {
        Some(p) => {
            out.append(",\"https\":");
            let backend = backend_setup(container_host, p);
            out.append(backend.as_str());
        },
        None => {},
    }
    out.append(",\"id\":");
    let id = spec.spec_id();
    push_json_string(&mut out, id.as_str());
    out.append("}");
    proof {
        assert(out@ =~= domain_json(container_host@, spec@));
    }
    out
}

/// One record more extends the array items by a comma and that record —
/// except for the first, which stands alone.
proof fn lemma_domains_json_items_push(host: Seq<char>, ms: Seq<DomainSpecView>, m: DomainSpecView)
    ensures
        ms.len() == 0 ==> domains_json_items(host, ms.push(m)) == domain_json(host, m),
        ms.len() > 0 ==> domains_json_items(host, ms.push(m)) == domains_json_items(host, ms)
            + seq![','] + domain_json(host, m),
    decreases ms.len(),
{
    if ms.len() == 0 {
        assert(ms.push(m)[0] == m);
        assert(domains_json_items(host, ms.push(m)) == domain_json(host, m));
    } else if ms.len() == 1 {
        assert(ms.push(m)[0] == ms[0]);
        assert(ms.push(m).drop_first() =~= ms.drop_first().push(m));
        assert(ms.drop_first().push(m).len() == 1);
        assert(ms.drop_first().push(m)[0] == m);
        assert(domains_json_items(host, ms.drop_first().push(m)) == domain_json(host, m));
        assert(domains_json_items(host, ms.push(m)) =~= domains_json_items(host, ms) + seq![',']
            + domain_json(host, m));
    } else {
        assert(ms.push(m)[0] == ms[0]);
        assert(ms.push(m).drop_first() =~= ms.drop_first().push(m));
        lemma_domains_json_items_push(host, ms.drop_first(), m);
        assert(domains_json_items(host, ms.push(m)) =~= domains_json_items(host, ms) + seq![',']
            + domain_json(host, m));
    }
}

/// Builds the full registry value for `container_host`: the JSON array of
/// the records of `specs`, in order.
pub fn domain_configs(container_host: &str, specs: &Vec<DomainSpec>) -> (r: String)
    ensures
        r@ == domains_json(container_host@, specs.deep_view()),
{
    let ghost dv = specs.deep_view();
    let mut out: String = "[".to_owned();
    proof {
        reveal_strlit("[");
        assert(dv.take(0) =~= Seq::<DomainSpecView>::empty());
        assert(domains_json_items(container_host@, Seq::<DomainSpecView>::empty())
            =~= Seq::<char>::empty());
        assert(out@ =~= seq!['['] + domains_json_items(container_host@, dv.take(0)));
    }
    let n = specs.len();
    let mut k: usize = 0;
    while k < n
        invariant
            k <= n,
            n == specs@.len(),
            dv == specs.deep_view(),
            dv.len() == n,
            out@ == seq!['['] + domains_json_items(container_host@, dv.take(k as int)),
        decreases n - k,
    {
        let ghost pre = out@;
        if k > 0 {
            out.append(",");
        }
        let config = domain_config(container_host, &specs[k]);
        out.append(config.as_str());
        proof {
            reveal_strlit(",");
            assert(specs@[k as int]@ == dv[k as int]);
            assert(dv.take(k as int + 1) =~= dv.take(k as int).push(dv[k as int]));
            lemma_domains_json_items_push(container_host@, dv.take(k as int), dv[k as int]);
            assert(out@ =~= seq!['['] + domains_json_items(
                container_host@,
                dv.take(k as int + 1),
            ));
        }
        k = k + 1;
    }
    out.append("]");
    proof {
        reveal_strlit("]");
        assert(dv.take(n as int) =~= dv);
        assert(out@ =~= domains_json(container_host@, dv));
    }
    out
}

} // verus!
