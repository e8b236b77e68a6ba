//! IPv4 host addresses: the inventory's own representation, ordered as a
//! big-endian 32-bit counter so that address ranges can be scanned.

use vstd::prelude::*;

use crate::text::{
    all_digits, char_val, dec_rep, dec_val, digit, digit_of, is_digit, lemma_dec_rep_props,
    lemma_dec_rep_small, lemma_digit_roundtrip, u32_to_string,
};

verus! {

/// An IPv4 host address, stored as its four octets.
#[derive(Clone, Copy, Debug, PartialEq, Eq, Structural)]
pub struct Ipv4 {
    pub a: u8,
    pub b: u8,
    pub c: u8,
    pub d: u8,
}

impl Ipv4 {
    /// The address read as a big-endian 32-bit counter.
    pub open spec fn num(self) -> int {
        self.a * 0x1000000 + self.b * 0x10000 + self.c * 0x100 + self.d
    }

    pub fn new(a: u8, b: u8, c: u8, d: u8) -> (r: Ipv4)
        ensures
            r == (Ipv4 { a, b, c, d }),
    {
        Ipv4 { a, b, c, d }
    }

    /// The next address in big-endian octet-counter order, with per-octet
    /// carry; `255.255.255.255` has no successor.
    pub fn increment(self) -> (r: Option<Ipv4>)
        ensures
            self.num() == 0xFFFFFFFF ==> r is None,
            self.num() < 0xFFFFFFFF ==> (r matches Some(next) && next.num() == self.num() + 1),
    {
        if self.d < 255 {
            Some(Ipv4 { a: self.a, b: self.b, c: self.c, d: self.d + 1 })
        } else if self.c < 255 {
            Some(Ipv4 { a: self.a, b: self.b, c: self.c + 1, d: 0 })
        } else if self.b < 255 {
            Some(Ipv4 { a: self.a, b: self.b + 1, c: 0, d: 0 })
        } else if self.a < 255 {
            Some(Ipv4 { a: self.a + 1, b: 0, c: 0, d: 0 })
        } else {
            None
        }
    }
}

/// The canonical dotted-quad text of an address: each octet in minimal
/// decimal, joined by dots.
pub open spec fn ipv4_seq(ip: Ipv4) -> Seq<char> {
    dec_rep(ip.a as int) + seq!['.'] + dec_rep(ip.b as int) + seq!['.'] + dec_rep(ip.c as int)
        + seq!['.'] + dec_rep(ip.d as int)
}

impl Ipv4 {
    /// Renders the address as canonical dotted-quad text.
    pub fn to_text(&self) -> (r: String)
        ensures
            r@ == ipv4_seq(*self),
    {
        let mut s = u32_to_string(self.a as u32);
        s.append(".");
        let t1 = u32_to_string(self.b as u32);
        s.append(t1.as_str());
        s.append(".");
        let t2 = u32_to_string(self.c as u32);
        s.append(t2.as_str());
        s.append(".");
        let t3 = u32_to_string(self.d as u32);
        s.append(t3.as_str());
        proof {
            reveal_strlit(".");
            assert("."@ =~= seq!['.']);
            assert(s@ =~= ipv4_seq(*self));
        }
        s
    }
}

/// Whether the text at position `i` of `s` is the minimal decimal rendering
/// of the octet value `v`, ended by a dot or by the end of the text.
pub open spec fn octet_at(s: Seq<char>, i: int, v: int) -> bool {
    &&& i + dec_rep(v).len() <= s.len()
    &&& s.subrange(i, i + dec_rep(v).len()) == dec_rep(v)
    &&& (i + dec_rep(v).len() == s.len() || s[i + dec_rep(v).len()] == '.')
}

/// Reads one octet of canonical dotted-quad text starting at position `i`:
/// returns the value and the position just past its digits. Exactly the
/// minimal decimal renderings of `0 ..= 255` are read, greedily, so that a
/// dotted quad matches if and only if every octet and dot falls into place.
fn scan_octet(s: &str, i: usize) -> (r: Option<(u8, usize)>)
    requires
        i <= s@.len(),
    ensures
        r matches Some(p) ==> i < p.1 <= s@.len() && p.1 - i <= 3
            && s@.subrange(i as int, p.1 as int) == dec_rep(p.0 as int),
        forall|v: u8| #[trigger] octet_at(s@, i as int, v as int)
            ==> r == Some((v, (i + dec_rep(v as int).len()) as usize)),
{
    broadcast use lemma_dec_rep_props;

    let len = s.unicode_len();
    if i == len {
        return None;
    }
    let c0 = s.get_char(i);
    let d0 = match digit_of(c0) {
        Some(d) => d,
        None => {
            proof {
                assert forall|v: u8| !octet_at(s@, i as int, v as int) by {
                    if octet_at(s@, i as int, v as int) {
                        let rep = dec_rep(v as int);
                        assert(s@.subrange(i as int, i + rep.len())[0] == s@[i as int]);
                        assert(is_digit(rep[0]));
                    }
                }
            }
            return None;
        },
    };
    proof {
        lemma_digit_roundtrip(c0);
        assert(c0 == digit(d0 as int));
    }
    if d0 == 0 {
        proof {
            assert(s@.subrange(i as int, i + 1) =~= seq![c0]);
            assert(dec_rep(0) =~= seq![digit(0)]);
            assert forall|v: u8| octet_at(s@, i as int, v as int) implies v == 0 by {
                let rep = dec_rep(v as int);
                assert(s@.subrange(i as int, i + rep.len())[0] == s@[i as int]);
                assert(rep[0] == '0');
                if v >= 10 {
                    assert(rep[0] != '0');
                }
                if 0 < v < 10 {
                    assert(rep =~= seq![digit(v as int)]);
                    assert(char_val(digit(v as int)) == v);
                }
            }
        }
        return Some((0, i + 1));
    }
    // d0 is 1 ..= 9
    let more1 = if i + 1 == len {
        None
    } else {
        digit_of(s.get_char(i + 1))
    };
    let d1 = match more1 {
        None => {
            proof {
                assert(dec_rep(d0 as int) =~= seq![digit(d0 as int)]);
                assert(s@.subrange(i as int, i + 1) =~= seq![c0]);
                assert forall|v: u8| octet_at(s@, i as int, v as int) implies v == d0 by {
                    let rep = dec_rep(v as int);
                    assert(s@.subrange(i as int, i + rep.len())[0] == s@[i as int]);
                    if v >= 10 {
                        assert(rep.len() >= 2);
                        assert(s@.subrange(i as int, i + rep.len())[1] == s@[i + 1]);
                        assert(is_digit(rep[1]));
                    } else {
                        assert(rep =~= seq![digit(v as int)]);
                        assert(char_val(digit(v as int)) == v);
                        assert(char_val(c0) == d0);
                    }
                }
            }
            return Some((d0, i + 1));
        },
        Some(d) => d,
    };
    let c1 = s.get_char(i + 1);
    proof {
        lemma_digit_roundtrip(c1);
        assert(c1 == digit(d1 as int));
    }
    let more2 = if i + 2 == len {
        None
    } else {
        digit_of(s.get_char(i + 2))
    };
    let d2 = match more2 {
        None => {
            let v2: u8 = 10 * d0 + d1;
            proof {
                lemma_dec_rep_small(v2 as int);
                assert(v2 as int / 10 == d0 && v2 as int % 10 == d1) by (nonlinear_arith)
                    requires
                        v2 == 10 * d0 + d1,
                        1 <= d0 <= 9,
                        0 <= d1 <= 9,
                {
                }
                assert(s@.subrange(i as int, i + 2) =~= seq![c0, c1]);
                assert(dec_rep(v2 as int) =~= seq![c0, c1]);
                assert forall|v: u8| octet_at(s@, i as int, v as int) implies v == v2 by {
                    let rep = dec_rep(v as int);
                    assert(s@.subrange(i as int, i + rep.len())[0] == s@[i as int]);
                    if v < 10 {
                        // a one-digit octet would have to end here, but a digit follows
                        assert(rep.len() == 1);
                        assert(is_digit(c1));
                    } else if v >= 100 {
                        assert(rep.len() == 3);
                        assert(s@.subrange(i as int, i + rep.len())[2] == s@[i + 2]);
                        assert(is_digit(rep[2]));
                    } else {
                        lemma_dec_rep_small(v as int);
                        assert(rep[0] == digit(v as int / 10) && rep[1] == digit(v as int % 10));
                        assert(s@.subrange(i as int, i + rep.len())[1] == s@[i + 1]);
                        assert(char_val(digit(v as int / 10)) == v as int / 10);
                        assert(char_val(digit(v as int % 10)) == v as int % 10);
                        assert(v as int == 10 * (v as int / 10) + v as int % 10);
                    }
                }
            }
            return Some((v2, i + 2));
        },
        Some(d) => d,
    };
    let c2 = s.get_char(i + 2);
    proof {
        lemma_digit_roundtrip(c2);
        assert(c2 == digit(d2 as int));
    }
    let big: u32 = 100 * (d0 as u32) + 10 * (d1 as u32) + (d2 as u32);
    proof {
        assert(big as int / 100 == d0 && (big as int / 10) % 10 == d1 && big as int % 10 == d2)
            by (nonlinear_arith)
            requires
                big == 100 * d0 + 10 * d1 + d2,
                1 <= d0 <= 9,
                0 <= d1 <= 9,
                0 <= d2 <= 9,
        {
        }
        lemma_dec_rep_small(big as int);
        assert(s@.subrange(i as int, i + 3) =~= seq![c0, c1, c2]);
        assert(dec_rep(big as int) =~= seq![c0, c1, c2]);
        assert forall|v: u8| octet_at(s@, i as int, v as int) implies v as int == big by {
            let rep = dec_rep(v as int);
            assert(s@.subrange(i as int, i + rep.len())[0] == s@[i as int]);
            if v < 10 {
                assert(rep.len() == 1);
                assert(is_digit(c1));
            } else if v < 100 {
                assert(rep.len() == 2);
                assert(is_digit(c2));
            } else {
                lemma_dec_rep_small(v as int);
                assert(rep =~= seq![digit(v as int / 100), digit((v as int / 10) % 10), digit(
                    v as int % 10,
                )]);
                assert(s@.subrange(i as int, i + rep.len())[1] == s@[i + 1]);
                assert(s@.subrange(i as int, i + rep.len())[2] == s@[i + 2]);
                assert(char_val(digit(v as int / 100)) == v as int / 100);
                assert(char_val(digit((v as int / 10) % 10)) == (v as int / 10) % 10);
                assert(char_val(digit(v as int % 10)) == v as int % 10);
                assert(v as int == 100 * (v as int / 100) + 10 * ((v as int / 10) % 10) + v as int
                    % 10) by (nonlinear_arith)
                    requires
                        100 <= v < 1000,
                {
                }
            }
        }
    }
    if big > 255 {
        return None;
    }
    Some((big as u8, i + 3))
}

/// Parses canonical dotted-quad text. Returns the address whose canonical
/// text equals the input, if there is one: `parse_ipv4(s) == Some(ip)` holds
/// exactly when `s` is `ipv4_seq(ip)`.
#[verifier::spinoff_prover]
#[verifier::rlimit(100)]
pub fn parse_ipv4(s: &str) -> (r: Option<Ipv4>)
    ensures
        r matches Some(ip) ==> s@ == ipv4_seq(ip),
        r is None ==> forall|ip: Ipv4| s@ != ipv4_seq(ip),
{
    let len = s.unicode_len();
    let (v0, j0) = match scan_octet(s, 0) {
        Some(p) => p,
        None => {
            proof {
                assert forall|ip: Ipv4| s@ != ipv4_seq(ip) by {
                    if s@ == ipv4_seq(ip) {
                        lemma_ipv4_seq_parts(s@, ip);
                    }
                }
            }
            return None;
        },
    };
    if j0 == len || s.get_char(j0) != '.' {
        proof {
            assert forall|ip: Ipv4| s@ != ipv4_seq(ip) by {
                if s@ == ipv4_seq(ip) {
                    lemma_ipv4_seq_parts(s@, ip);
                }
            }
        }
        return None;
    }
    let (v1, j1) = match scan_octet(s, j0 + 1) {
        Some(p) => p,
        None => {
            proof {
                assert forall|ip: Ipv4| s@ != ipv4_seq(ip) by {
                    if s@ == ipv4_seq(ip) {
                        lemma_ipv4_seq_parts(s@, ip);
                    }
                }
            }
            return None;
        },
    };
    if j1 == len || s.get_char(j1) != '.' {
        proof {
            assert forall|ip: Ipv4| s@ != ipv4_seq(ip) by {
                if s@ == ipv4_seq(ip) {
                    lemma_ipv4_seq_parts(s@, ip);
                }
            }
        }
        return None;
    }
    let (v2, j2) = match scan_octet(s, j1 + 1) {
        Some(p) => p,
        None => {
            proof {
                assert forall|ip: Ipv4| s@ != ipv4_seq(ip) by {
                    if s@ == ipv4_seq(ip) {
                        lemma_ipv4_seq_parts(s@, ip);
                    }
                }
            }
            return None;
        },
    };
    if j2 == len || s.get_char(j2) != '.' {
        proof {
            assert forall|ip: Ipv4| s@ != ipv4_seq(ip) by {
                if s@ == ipv4_seq(ip) {
                    lemma_ipv4_seq_parts(s@, ip);
                }
            }
        }
        return None;
    }
    let (v3, j3) = match scan_octet(s, j2 + 1) {
        Some(p) => p,
        None => {
            proof {
                assert forall|ip: Ipv4| s@ != ipv4_seq(ip) by {
                    if s@ == ipv4_seq(ip) {
                        lemma_ipv4_seq_parts(s@, ip);
                    }
                }
            }
            return None;
        },
    };
    if j3 != len {
        proof {
            assert forall|ip: Ipv4| s@ != ipv4_seq(ip) by {
                if s@ == ipv4_seq(ip) {
                    lemma_ipv4_seq_parts(s@, ip);
                }
            }
        }
        return None;
    }
    let ip = Ipv4 { a: v0, b: v1, c: v2, d: v3 };
    proof {
        assert(s@ =~= ipv4_seq(ip)) by {
            assert(s@.subrange(0, j0 as int) == dec_rep(v0 as int));
            assert(s@.subrange(j0 + 1, j1 as int) == dec_rep(v1 as int));
            assert(s@.subrange(j1 + 1, j2 as int) == dec_rep(v2 as int));
            assert(s@.subrange(j2 + 1, j3 as int) == dec_rep(v3 as int));
            assert(s@[j0 as int] == '.' && s@[j1 as int] == '.' && s@[j2 as int] == '.');
        }
    }
    Some(ip)
}

/// Two octet renderings claiming the same place in a dotted-quad text are
/// the same octet: the following dot (or the end) pins the length.
proof fn lemma_octet_at_align(s: Seq<char>, i: int, v1: int, v2: int)
    requires
        0 <= v1 < 1000,
        0 <= v2 < 1000,
        0 <= i,
        octet_at(s, i, v1),
        octet_at(s, i, v2),
    ensures
        v1 == v2,
{
    lemma_dec_rep_props(v1);
    lemma_dec_rep_props(v2);
    let l1 = rep_len(v1);
    let l2 = rep_len(v2);
    if l1 < l2 {
        assert(s.subrange(i, i + l2)[l1] == s[i + l1]);
        assert(is_digit(dec_rep(v2)[l1]));
        assert(i + l1 < s.len());
        assert(s[i + l1] == '.');
        assert(false);
    }
    if l2 < l1 {
        assert(s.subrange(i, i + l1)[l2] == s[i + l2]);
        assert(is_digit(dec_rep(v1)[l2]));
        assert(i + l2 < s.len());
        assert(s[i + l2] == '.');
        assert(false);
    }
    assert(dec_rep(v1) == s.subrange(i, i + l1));
    assert(dec_rep(v2) == s.subrange(i, i + l1));
    assert(dec_val(dec_rep(v1)) == dec_val(dec_rep(v2)));
}

/// Two addresses with the same canonical text are the same address.
pub proof fn lemma_ipv4_seq_injective(x: Ipv4, y: Ipv4)
    requires
        ipv4_seq(x) == ipv4_seq(y),
    ensures
        x == y,
{
    let s = ipv4_seq(x);
    lemma_ipv4_seq_parts(s, x);
    lemma_ipv4_seq_parts(s, y);
    lemma_octet_at_align(s, 0, x.a as int, y.a as int);
    let la = rep_len(x.a as int);
    lemma_octet_at_align(s, la + 1, x.b as int, y.b as int);
    let lb = rep_len(x.b as int);
    lemma_octet_at_align(s, la + lb + 2, x.c as int, y.c as int);
    let lc = rep_len(x.c as int);
    lemma_octet_at_align(s, la + lb + lc + 3, x.d as int, y.d as int);
}

/// The length of the minimal decimal rendering of `v`.
pub open spec fn rep_len(v: int) -> int {
    dec_rep(v).len() as int
}

/// The structure of canonical dotted-quad text: each octet's rendering sits
/// at its place, ended by a dot or by the end.
proof fn lemma_ipv4_seq_parts(s: Seq<char>, ip: Ipv4)
    requires
        s == ipv4_seq(ip),
    ensures
        octet_at(s, 0, ip.a as int),
        s[rep_len(ip.a as int)] == '.',
        octet_at(s, rep_len(ip.a as int) + 1, ip.b as int),
        s[rep_len(ip.a as int) + 1 + rep_len(ip.b as int)] == '.',
        octet_at(s, rep_len(ip.a as int) + rep_len(ip.b as int) + 2, ip.c as int),
        s[rep_len(ip.a as int) + rep_len(ip.b as int) + 2 + rep_len(ip.c as int)] == '.',
        octet_at(
            s,
            rep_len(ip.a as int) + rep_len(ip.b as int) + rep_len(ip.c as int) + 3,
            ip.d as int,
        ),
        s.len() == rep_len(ip.a as int) + rep_len(ip.b as int) + rep_len(ip.c as int) + rep_len(
            ip.d as int,
        ) + 3,
{
    broadcast use lemma_dec_rep_props;

    let ra = dec_rep(ip.a as int);
    let rb = dec_rep(ip.b as int);
    let rc = dec_rep(ip.c as int);
    let rd = dec_rep(ip.d as int);
    let la = ra.len() as int;
    let lb = rb.len() as int;
    let lc = rc.len() as int;
    let ld = rd.len() as int;
    assert(s.subrange(0, la) =~= ra);
    assert(s.subrange(la + 1, la + 1 + lb) =~= rb);
    assert(s.subrange(la + lb + 2, la + lb + 2 + lc) =~= rc);
    assert(s.subrange(la + lb + lc + 3, la + lb + lc + 3 + ld) =~= rd);
}

/// Two addresses with the same counter value have the same octets.
pub proof fn lemma_num_injective(x: Ipv4, y: Ipv4)
    requires
        x.num() == y.num(),
    ensures
        x == y,
{
    assert(x.a == y.a && x.b == y.b && x.c == y.c && x.d == y.d) by (nonlinear_arith)
        requires
            x.a * 0x1000000 + x.b * 0x10000 + x.c * 0x100 + x.d
                == y.a * 0x1000000 + y.b * 0x10000 + y.c * 0x100 + y.d,
            x.a <= 255 && x.b <= 255 && x.c <= 255 && x.d <= 255,
            y.a <= 255 && y.b <= 255 && y.c <= 255 && y.d <= 255,
    {
    }
}

} // verus!
