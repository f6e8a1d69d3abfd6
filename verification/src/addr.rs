//! The target address model and the IPv4 literal parser. An address is
//! held as plain numeric components, so the logic that reads it is
//! verified; the dotted-quad parser is proved to accept exactly the
//! well-formed IPv4 literals. IPv6 literals reach the model through their
//! eight groups, parsed by the surrounding binary.

use vstd::prelude::*;
use vstd::string::StrSliceExecFns;
use crate::num::{all_digits, dec_val, is_digit, lemma_dec_val_take};
use crate::range::PortRange;

verus! {

/// A validated IP address, held as its numeric components.
#[derive(Clone, Copy, Debug, PartialEq, Eq, Structural)]
pub enum IpAddress {
    V4 { a: u8, b: u8, c: u8, d: u8 },
    V6 { g0: u16, g1: u16, g2: u16, g3: u16, g4: u16, g5: u16, g6: u16, g7: u16 },
}

/// The validated pair that drives one scan: an address and a non-empty
/// port range.
#[derive(Clone, Copy, Debug, PartialEq, Eq, Structural)]
pub struct Target {
    pub addr: IpAddress,
    pub range: PortRange,
}

impl Target {
    /// The range is non-empty and within the 16-bit port space.
    pub open spec fn wf(self) -> bool {
        self.range.wf()
    }

    /// Builds a target from a validated address and range.
    pub fn new(addr: IpAddress, range: PortRange) -> (t: Target)
        requires
            range.wf(),
        ensures
            t.wf(),
            t.addr == addr,
            t.range == range,
    {
        Target { addr, range }
    }
}

/// A well-formed IPv4 octet text: decimal digits denoting at most 255,
/// with no leading zero.
pub open spec fn is_octet_text(s: Seq<char>) -> bool {
    &&& s.len() > 0
    &&& all_digits(s)
    &&& dec_val(s) <= 255
    &&& (s.len() > 1 ==> s[0] != '0')
}

/// Positions `i < j < k` split the string into four well-formed octet
/// texts around three dots: the shape of an IPv4 literal.
pub open spec fn ipv4_dots(s: Seq<char>, i: int, j: int, k: int) -> bool {
    &&& 0 <= i < j < k < s.len()
    &&& s[i] == '.'
    &&& s[j] == '.'
    &&& s[k] == '.'
    &&& is_octet_text(s.take(i))
    &&& is_octet_text(s.subrange(i + 1, j))
    &&& is_octet_text(s.subrange(j + 1, k))
    &&& is_octet_text(s.skip(k + 1))
}

/// The string is a well-formed IPv4 literal.
pub open spec fn is_ipv4(s: Seq<char>) -> bool {
    exists|i: int, j: int, k: int| ipv4_dots(s, i, j, k)
}

/// The address an IPv4 literal denotes (meaningful only when it is one).
pub open spec fn ipv4_spec(s: Seq<char>) -> Option<IpAddress> {
    if is_ipv4(s) {
        let (i, j, k) = choose|i: int, j: int, k: int| ipv4_dots(s, i, j, k);
        Some(
            IpAddress::V4 {
                a: dec_val(s.take(i)) as u8,
                b: dec_val(s.subrange(i + 1, j)) as u8,
                c: dec_val(s.subrange(j + 1, k)) as u8,
                d: dec_val(s.skip(k + 1)) as u8,
            },
        )
    } else {
        None
    }
}

/// Every position of an IPv4 literal outside its three dots is a digit.
proof fn lemma_ipv4_digits(s: Seq<char>, i: int, j: int, k: int, t: int)
    requires
        ipv4_dots(s, i, j, k),
        0 <= t < s.len(),
        t != i,
        t != j,
        t != k,
    ensures
        is_digit(s[t]),
{
    if t < i {
        assert(s.take(i)[t] == s[t]);
        assert(is_digit(s.take(i)[t]));
    } else if t < j {
        assert(s.subrange(i + 1, j)[t - i - 1] == s[t]);
        assert(is_digit(s.subrange(i + 1, j)[t - i - 1]));
    } else if t < k {
        assert(s.subrange(j + 1, k)[t - j - 1] == s[t]);
        assert(is_digit(s.subrange(j + 1, k)[t - j - 1]));
    } else {
        assert(s.skip(k + 1)[t - k - 1] == s[t]);
        assert(is_digit(s.skip(k + 1)[t - k - 1]));
    }
}

/// Every dot of an IPv4 literal is one of its three splitting dots.
proof fn lemma_ipv4_dot_positions(s: Seq<char>, i: int, j: int, k: int, t: int)
    requires
        ipv4_dots(s, i, j, k),
        0 <= t < s.len(),
        s[t] == '.',
    ensures
        t == i || t == j || t == k,
{
    if t != i && t != j && t != k {
        lemma_ipv4_digits(s, i, j, k, t);
    }
}

/// An IPv4 literal splits at its dots in exactly one way.
proof fn lemma_ipv4_dots_unique(s: Seq<char>, i: int, j: int, k: int, x: int, y: int, z: int)
    requires
        ipv4_dots(s, i, j, k),
        ipv4_dots(s, x, y, z),
    ensures
        i == x && j == y && k == z,
{
    lemma_ipv4_dot_positions(s, i, j, k, x);
    lemma_ipv4_dot_positions(s, i, j, k, y);
    lemma_ipv4_dot_positions(s, i, j, k, z);
    lemma_ipv4_dot_positions(s, x, y, z, i);
    lemma_ipv4_dot_positions(s, x, y, z, j);
    lemma_ipv4_dot_positions(s, x, y, z, k);
}

/// What one octet segment `s[from..to]` denotes, if it is well-formed.
pub open spec fn octet_spec(s: Seq<char>) -> Option<u8> {
    if is_octet_text(s) {
        Some(dec_val(s) as u8)
    } else {
        None
    }
}

/// Parses one octet segment of a dotted-quad literal.
fn parse_octet(s: &str, from: usize, to: usize) -> (r: Option<u8>)
    requires
        from <= to <= s@.len(),
    ensures
        r == octet_spec(s@.subrange(from as int, to as int)),
{
    let ghost seg = s@.subrange(from as int, to as int);
    if from == to {
        return None;
    }
    let mut j: usize = from;
    while j < to
        invariant
            from <= j <= to <= s@.len(),
            seg == s@.subrange(from as int, to as int),
            forall|t: int| 0 <= t < j - from ==> is_digit(seg[t]),
        decreases to - j,
    {
        let c = s.get_char(j);
        let cu = c as u32;
        proof {
            assert(seg[j - from] == s@[j as int]);
        }
        if !(48 <= cu && cu <= 57) {
            proof {
                assert(!is_digit(seg[j - from]));
            }
            return None;
        }
        j += 1;
    }
    proof {
        assert(all_digits(seg));
    }
    if to - from > 1 && s.get_char(from) == '0' {
        proof {
            assert(seg[0] == s@[from as int]);
        }
        return None;
    }
    let mut v: u32 = 0;
    let mut k: usize = from;
    while k < to
        invariant
            from <= k <= to <= s@.len(),
            seg == s@.subrange(from as int, to as int),
            all_digits(seg),
            v == dec_val(seg.take(k - from)),
            v <= 255,
        decreases to - k,
    {
        let c = s.get_char(k);
        let cu = c as u32;
        proof {
            assert(seg[k - from] == s@[k as int]);
            assert(is_digit(seg[k - from]));
            assert(48 <= cu <= 57);
        }
        let d: u32 = cu - 48;
        proof {
            assert(seg.take(k - from + 1).drop_last() =~= seg.take(k - from));
            assert(seg.take(k - from + 1).last() == c);
            assert(d == crate::num::digit_val(c));
        }
        let nv: u32 = v * 10 + d;
        proof {
            assert(nv == dec_val(seg.take(k - from + 1)));
        }
        if nv > 255 {
            proof {
                lemma_dec_val_take(seg, k - from + 1);
            }
            return None;
        }
        v = nv;
        k += 1;
    }
    proof {
        assert(seg.take(to - from) =~= seg);
    }
    Some(v as u8)
}

/// Parses a dotted-quad IPv4 literal, returning exactly what `ipv4_spec`
/// says of it: the address when the text is a well-formed literal, and
/// nothing otherwise.
pub fn parse_ipv4(s: &str) -> (r: Option<IpAddress>)
    ensures
        r == ipv4_spec(s@),
{
    let n = s.unicode_len();
    let mut i: usize = 0;
    let mut n_dots: usize = 0;
    let mut d1: usize = 0;
    let mut d2: usize = 0;
    let mut d3: usize = 0;
    while i < n
        invariant
            n == s@.len(),
            i <= n,
            n_dots <= 3,
            n_dots >= 1 ==> d1 < i && s@[d1 as int] == '.',
            n_dots >= 2 ==> d1 < d2 < i && s@[d2 as int] == '.',
            n_dots >= 3 ==> d2 < d3 < i && s@[d3 as int] == '.',
            forall|t: int|
                0 <= t < i && s@[t] == '.' ==> ((n_dots >= 1 && t == d1) || (n_dots >= 2 && t
                    == d2) || (n_dots >= 3 && t == d3)),
        decreases n - i,
    {
        let c = s.get_char(i);
        if c == '.' {
            if n_dots == 0 {
                d1 = i;
            } else if n_dots == 1 {
                d2 = i;
            } else if n_dots == 2 {
                d3 = i;
            } else {
                proof {
                    assert(!is_ipv4(s@)) by {
                        if is_ipv4(s@) {
                            let (x, y, z) = choose|x: int, y: int, z: int| ipv4_dots(s@, x, y, z);
                            lemma_ipv4_dot_positions(s@, x, y, z, d1 as int);
                            lemma_ipv4_dot_positions(s@, x, y, z, d2 as int);
                            lemma_ipv4_dot_positions(s@, x, y, z, d3 as int);
                            lemma_ipv4_dot_positions(s@, x, y, z, i as int);
                        }
                    }
                }
                return None;
            }
            n_dots += 1;
        }
        i += 1;
    }
    if n_dots != 3 {
        proof {
            assert(!is_ipv4(s@)) by {
                if is_ipv4(s@) {
                    let (x, y, z) = choose|x: int, y: int, z: int| ipv4_dots(s@, x, y, z);
                }
            }
        }
        return None;
    }
    proof {
        assert(d1 < d2 < d3 < n);
    }
    let oa = parse_octet(s, 0, d1);
    let ob = parse_octet(s, d1 + 1, d2);
    let oc = parse_octet(s, d2 + 1, d3);
    let od = parse_octet(s, d3 + 1, n);
    proof {
        assert(s@.subrange(0, d1 as int) =~= s@.take(d1 as int));
        assert(s@.subrange(d3 + 1, n as int) =~= s@.skip(d3 + 1));
    }
    match (oa, ob, oc, od) {
        (Some(a), Some(b), Some(c), Some(d)) => {
            proof {
                assert(ipv4_dots(s@, d1 as int, d2 as int, d3 as int));
                let (x, y, z) = choose|x: int, y: int, z: int| ipv4_dots(s@, x, y, z);
                lemma_ipv4_dots_unique(s@, x, y, z, d1 as int, d2 as int, d3 as int);
            }
            Some(IpAddress::V4 { a, b, c, d })
        },
        _ => {
            proof {
                assert(!is_ipv4(s@)) by {
                    if is_ipv4(s@) {
                        let (x, y, z) = choose|x: int, y: int, z: int| ipv4_dots(s@, x, y, z);
                        lemma_ipv4_dot_positions(s@, x, y, z, d1 as int);
                        lemma_ipv4_dot_positions(s@, x, y, z, d2 as int);
                        lemma_ipv4_dot_positions(s@, x, y, z, d3 as int);
                        lemma_ipv4_dots_unique(s@, x, y, z, d1 as int, d2 as int, d3 as int);
                    }
                }
            }
            None
        },
    }
}

} // verus!
