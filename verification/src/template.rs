//! The private-key path template: literal text with `{hostname}` and
//! `{wireguard_ip}` directives, `{{` and `}}` standing for literal braces.

use vstd::prelude::*;

use crate::errors::Error;
use crate::ip::{ipv4_seq, Ipv4};
use crate::text::str_eq;

verus! {

/// The result of substituting into a template: literal characters are kept,
/// `{hostname}` and `{wireguard_ip}` are replaced by the given texts, `{{`
/// and `}}` denote literal braces, and any other directive or unbalanced
/// brace makes the whole template invalid.
pub open spec fn subst(t: Seq<char>, host: Seq<char>, ip: Seq<char>) -> Option<Seq<char>>
    decreases t.len(),
{
    if t.len() == 0 {
        Some(Seq::empty())
    } else if t[0] == '{' {
        if t.len() >= 2 && t[1] == '{' {
            match subst(t.skip(2), host, ip) {
                Some(rest) => Some(seq!['{'] + rest),
                None => None,
            }
        } else if t.len() >= 10 && t.subrange(0, 10) == "{hostname}"@ {
            match subst(t.skip(10), host, ip) {
                Some(rest) => Some(host + rest),
                None => None,
            }
        } else if t.len() >= 14 && t.subrange(0, 14) == "{wireguard_ip}"@ {
            match subst(t.skip(14), host, ip) {
                Some(rest) => Some(ip + rest),
                None => None,
            }
        } else {
            None
        }
    } else if t[0] == '}' {
        if t.len() >= 2 && t[1] == '}' {
            match subst(t.skip(2), host, ip) {
                Some(rest) => Some(seq!['}'] + rest),
                None => None,
            }
        } else {
            None
        }
    } else {
        match subst(t.skip(1), host, ip) {
            Some(rest) => Some(seq![t[0]] + rest),
            None => None,
        }
    }
}

/// Substitutes the hostname and the address's dotted-quad text into a
/// private-key path template.
pub fn render_path_template(template: &str, hostname: &str, wireguard_ip: Ipv4) -> (r: Result<
    String,
    Error,
>)
    ensures
        (r is Ok) == (subst(template@, hostname@, ipv4_seq(wireguard_ip)) is Some),
        r matches Ok(p) ==> subst(template@, hostname@, ipv4_seq(wireguard_ip)) == Some(p@),
        r matches Err(e) ==> e == Error::FormatString,
{
    let ip_text = wireguard_ip.to_text();
    let tlen = template.unicode_len();
    let mut out = String::new();
    let mut i: usize = 0;
    proof {
        assert(template@.skip(0) =~= template@);
    }
    while i < tlen
        invariant
            i <= tlen,
            tlen == template@.len(),
            ip_text@ == ipv4_seq(wireguard_ip),
            match subst(template@.skip(i as int), hostname@, ip_text@) {
                Some(rest) => subst(template@, hostname@, ip_text@) == Some(out@ + rest),
                None => subst(template@, hostname@, ip_text@) is None,
            },
        decreases tlen - i,
    {
        let ghost t = template@.skip(i as int);
        let c = template.get_char(i);
        proof {
            assert(t[0] == c);
        }
        if c == '{' {
            if i + 1 < tlen && template.get_char(i + 1) == '{' {
                proof {
                    reveal_strlit("{");
                    assert(t[1] == template@[i + 1]);
                    assert(t.skip(2) =~= template@.skip(i + 2));
                    assert("{"@ =~= seq!['{']);
                    lemma_step(out@, seq!['{'], t.skip(2), hostname@, ip_text@);
                }
                out.append("{");
                i += 2;
            } else if tlen - i >= 10 && str_eq(template.substring_char(i, i + 10), "{hostname}") {
                proof {
                    reveal_strlit("{hostname}");
                    assert(t.subrange(0, 10) =~= template@.subrange(i as int, i + 10));
                    assert(t[1] == t.subrange(0, 10)[1]);
                    assert("{hostname}"@[1] == 'h');
                    assert(t.skip(10) =~= template@.skip(i + 10));
                    lemma_step(out@, hostname@, t.skip(10), hostname@, ip_text@);
                }
                out.append(hostname);
                i += 10;
            } else if tlen - i >= 14 && str_eq(template.substring_char(i, i + 14), "{wireguard_ip}") {
                proof {
                    reveal_strlit("{wireguard_ip}");
                    assert(t.subrange(0, 14) =~= template@.subrange(i as int, i + 14));
                    assert(t[1] == t.subrange(0, 14)[1]);
                    assert("{wireguard_ip}"@[1] == 'w');
                    // the previous test failed, so this is not a hostname directive
                    assert(t.subrange(0, 10) =~= template@.subrange(i as int, i + 10));
                    assert(t.skip(14) =~= template@.skip(i + 14));
                    lemma_step(out@, ip_text@, t.skip(14), hostname@, ip_text@);
                }
                out.append(ip_text.as_str());
                i += 14;
            } else {
                proof {
                    if t.len() >= 2 && t[1] == '{' {
                        assert(t[1] == template@[i + 1]);
                        assert(false);
                    }
                    if t.len() >= 10 && t.subrange(0, 10) == "{hostname}"@ {
                        assert(t.subrange(0, 10) =~= template@.subrange(i as int, i + 10));
                        assert(false);
                    }
                    if t.len() >= 14 && t.subrange(0, 14) == "{wireguard_ip}"@ {
                        assert(t.subrange(0, 14) =~= template@.subrange(i as int, i + 14));
                        assert(false);
                    }
                    assert(subst(t, hostname@, ip_text@) is None);
                }
                return Err(Error::FormatString);
            }
        } else if c == '}' {
            if i + 1 < tlen && template.get_char(i + 1) == '}' {
                proof {
                    reveal_strlit("}");
                    assert(t[1] == template@[i + 1]);
                    assert(t.skip(2) =~= template@.skip(i + 2));
                    assert("}"@ =~= seq!['}']);
                    lemma_step(out@, seq!['}'], t.skip(2), hostname@, ip_text@);
                }
                out.append("}");
                i += 2;
            } else {
                proof {
                    if t.len() >= 2 && t[1] == '}' {
                        assert(t[1] == template@[i + 1]);
                        assert(false);
                    }
                    assert(subst(t, hostname@, ip_text@) is None);
                }
                return Err(Error::FormatString);
            }
        } else {
            let piece = template.substring_char(i, i + 1);
            proof {
                assert(piece@ =~= seq![t[0]]);
                assert(t.skip(1) =~= template@.skip(i + 1));
                lemma_step(out@, seq![t[0]], t.skip(1), hostname@, ip_text@);
            }
            out.append(piece);
            i += 1;
        }
    }
    proof {
        assert(template@.skip(tlen as int) =~= Seq::<char>::empty());
        assert(out@ + Seq::<char>::empty() =~= out@);
    }
    Ok(out)
}

/// Appending a substituted piece keeps the compositional reading: what the
/// whole template denotes is the text built so far plus what the rest
/// denotes.
proof fn lemma_step(
    done: Seq<char>,
    piece: Seq<char>,
    rest_t: Seq<char>,
    host: Seq<char>,
    ip: Seq<char>,
)
    ensures
        match subst(rest_t, host, ip) {
            Some(rest) => done + (piece + rest) =~= (done + piece) + rest,
            None => true,
        },
{
}

} // verus!
