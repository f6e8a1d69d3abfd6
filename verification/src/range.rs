//! The port-range parser: turns a textual port specification — `"P"`,
//! `"LOW-HIGH"` or `"LOW:HIGH"` — into a validated inclusive range of
//! 16-bit port numbers, rejecting malformed, out-of-bounds and inverted
//! input. `parse_spec` is the full functional specification; the executable
//! parser is proved to return exactly what it says.

use vstd::prelude::*;
use vstd::string::StrSliceExecFns;
use crate::num::{all_digits, dec_val, is_digit, lemma_dec_val_take};

verus! {

/// Why a port specification was rejected.
#[derive(Clone, Copy, Debug, PartialEq, Eq, Structural)]
pub enum RangeError {
    /// Not of the form `P`, `LOW-HIGH` or `LOW:HIGH` with numeric segments.
    InvalidFormat,
    /// A numeric segment exceeds 65535.
    OutOfRange,
    /// The lower bound exceeds the upper bound.
    InvertedRange,
}

/// An inclusive, non-empty range of ports within the 16-bit port space.
#[derive(Clone, Copy, Debug, PartialEq, Eq, Structural)]
pub struct PortRange {
    pub low: u16,
    pub high: u16,
}

impl PortRange {
    /// The range is non-empty: its bounds are ordered.
    pub open spec fn wf(self) -> bool {
        self.low <= self.high
    }

    /// How many ports the range spans.
    pub open spec fn size(self) -> int {
        self.high - self.low + 1
    }
}

/// A range-separator character.
pub open spec fn is_sep(c: char) -> bool {
    c == ':' || c == '-'
}

/// Some character of the string is a separator.
pub open spec fn has_sep(s: Seq<char>) -> bool {
    exists|i: int| 0 <= i < s.len() && is_sep(s[i])
}

/// Two distinct characters of the string are separators, so the string has
/// three or more segments.
pub open spec fn two_seps(s: Seq<char>) -> bool {
    exists|i: int, j: int| 0 <= i < j < s.len() && is_sep(s[i]) && is_sep(s[j])
}

/// Position `k` holds the first separator of the string.
pub open spec fn first_sep_is(s: Seq<char>, k: int) -> bool {
    &&& 0 <= k < s.len()
    &&& is_sep(s[k])
    &&& forall|j: int| 0 <= j < k ==> !is_sep(s[j])
}

/// The position of the first separator (meaningful only when one exists).
pub open spec fn first_sep(s: Seq<char>) -> int {
    choose|k: int| first_sep_is(s, k)
}

/// At most one position holds the first separator.
pub proof fn lemma_first_sep_unique(s: Seq<char>, k1: int, k2: int)
    requires
        first_sep_is(s, k1),
        first_sep_is(s, k2),
    ensures
        k1 == k2,
{
}

/// A non-empty, all-digit segment: the only shape a port numeral may take.
pub open spec fn is_port_text(s: Seq<char>) -> bool {
    s.len() > 0 && all_digits(s)
}

/// What one numeric segment denotes: its value if it is a well-formed
/// 16-bit numeral, otherwise the reason it is rejected.
pub open spec fn seg_spec(s: Seq<char>) -> Result<u16, RangeError> {
    if !is_port_text(s) {
        Err(RangeError::InvalidFormat)
    } else if dec_val(s) > 65535 {
        Err(RangeError::OutOfRange)
    } else {
        Ok(dec_val(s) as u16)
    }
}

/// The full meaning of a port specification: a single numeral names the
/// one-port range; two numerals around one separator name the inclusive
/// range between them; everything else is rejected, format errors first,
/// then bounds, then inversion.
pub open spec fn parse_spec(s: Seq<char>) -> Result<PortRange, RangeError> {
    if two_seps(s) {
        Err(RangeError::InvalidFormat)
    } else if !has_sep(s) {
        match seg_spec(s) {
            Ok(v) => Ok(PortRange { low: v, high: v }),
            Err(e) => Err(e),
        }
    } else {
        let k = first_sep(s);
        let a = s.take(k);
        let b = s.skip(k + 1);
        if !is_port_text(a) || !is_port_text(b) {
            Err(RangeError::InvalidFormat)
        } else if dec_val(a) > 65535 || dec_val(b) > 65535 {
            Err(RangeError::OutOfRange)
        } else if dec_val(a) > dec_val(b) {
            Err(RangeError::InvertedRange)
        } else {
            Ok(PortRange { low: dec_val(a) as u16, high: dec_val(b) as u16 })
        }
    }
}

/// Law: a digit string is free of separators, so a single numeral is parsed
/// as the one-port range `[P, P]` whenever its value fits a port, and is
/// rejected as out of range otherwise.
pub proof fn lemma_parse_single(s: Seq<char>)
    requires
        is_port_text(s),
    ensures
        parse_spec(s) == (if dec_val(s) > 65535 {
            Err::<PortRange, RangeError>(RangeError::OutOfRange)
        } else {
            Ok::<PortRange, RangeError>(
                PortRange { low: dec_val(s) as u16, high: dec_val(s) as u16 },
            )
        }),
{
    assert forall|i: int| 0 <= i < s.len() implies !is_sep(s[i]) by {
        assert(is_digit(s[i]));
    }
    assert(!has_sep(s));
    assert(!two_seps(s));
}

/// Law: two numerals around one separator are parsed as the inclusive range
/// `[LOW, HIGH]` when both fit a port and `LOW <= HIGH`; an oversized
/// numeral is rejected as out of range, and an ordered pair with
/// `LOW > HIGH` as inverted, never silently swapped.
pub proof fn lemma_parse_pair(a: Seq<char>, sep: char, b: Seq<char>)
    requires
        is_sep(sep),
        is_port_text(a),
        is_port_text(b),
    ensures
        parse_spec(a + seq![sep] + b) == (if dec_val(a) > 65535 || dec_val(b) > 65535 {
            Err::<PortRange, RangeError>(RangeError::OutOfRange)
        } else if dec_val(a) > dec_val(b) {
            Err::<PortRange, RangeError>(RangeError::InvertedRange)
        } else {
            Ok::<PortRange, RangeError>(
                PortRange { low: dec_val(a) as u16, high: dec_val(b) as u16 },
            )
        }),
{
    let s = a + seq![sep] + b;
    let k = a.len() as int;
    assert(s.len() == a.len() + 1 + b.len());
    assert(s[k] == sep);
    assert forall|i: int| 0 <= i < s.len() && i != k implies is_digit(s[i]) by {
        if i < k {
            assert(s[i] == a[i]);
        } else {
            assert(s[i] == b[i - k - 1]);
        }
    }
    assert forall|i: int| 0 <= i < s.len() && i != k implies !is_sep(s[i]) by {
        assert(is_digit(s[i]));
    }
    assert(!two_seps(s)) by {
        if two_seps(s) {
            let (j1, j2) = choose|j1: int, j2: int|
                0 <= j1 < j2 < s.len() && is_sep(s[j1]) && is_sep(s[j2]);
            assert(j1 != k || j2 != k);
        }
    }
    assert(has_sep(s));
    assert(first_sep_is(s, k));
    assert(first_sep_is(s, first_sep(s)));
    lemma_first_sep_unique(s, first_sep(s), k);
    assert(s.take(k) =~= a);
    assert(s.skip(k + 1) =~= b);
}

/// Law: rendering a port in decimal and parsing the text back yields the
/// one-port range of that very port.
pub proof fn lemma_render_parses_back(n: u16)
    ensures
        parse_spec(crate::num::dec_seq(n as nat)) == Ok::<PortRange, RangeError>(
            PortRange { low: n, high: n },
        ),
{
    crate::num::lemma_dec_seq_val(n as nat);
    lemma_parse_single(crate::num::dec_seq(n as nat));
}

/// Law: the empty string is rejected as malformed.
pub proof fn lemma_parse_rejects_empty(s: Seq<char>)
    requires
        s.len() == 0,
    ensures
        parse_spec(s) == Err::<PortRange, RangeError>(RangeError::InvalidFormat),
{
}

/// Law: a string with three or more segments is rejected as malformed.
pub proof fn lemma_parse_rejects_extra_segments(s: Seq<char>)
    requires
        two_seps(s),
    ensures
        parse_spec(s) == Err::<PortRange, RangeError>(RangeError::InvalidFormat),
{
}

/// Law: a string holding a character that is neither a digit nor a
/// separator is rejected as malformed, whatever surrounds it.
pub proof fn lemma_parse_rejects_stray(s: Seq<char>, i: int)
    requires
        0 <= i < s.len(),
        !is_digit(s[i]),
        !is_sep(s[i]),
    ensures
        parse_spec(s) == Err::<PortRange, RangeError>(RangeError::InvalidFormat),
{
    if !two_seps(s) {
        if !has_sep(s) {
            assert(!is_port_text(s));
        } else {
            let w = choose|w: int| 0 <= w < s.len() && is_sep(s[w]);
            assert forall|t: int| 0 <= t < w implies !is_sep(s[t]) by {
                if is_sep(s[t]) {
                    assert(two_seps(s));
                }
            }
            assert(first_sep_is(s, w));
            let k = first_sep(s);
            assert(first_sep_is(s, k));
            assert(i != k);
            if i < k {
                assert(s.take(k)[i] == s[i]);
                assert(!is_port_text(s.take(k)));
            } else {
                assert(s.skip(k + 1)[i - k - 1] == s[i]);
                assert(!is_port_text(s.skip(k + 1)));
            }
        }
    }
}

/// Parses one numeric segment `s[from..to]` as a 16-bit port numeral.
fn parse_seg(s: &str, from: usize, to: usize) -> (r: Result<u16, RangeError>)
    requires
        from <= to <= s@.len(),
    ensures
        r == seg_spec(s@.subrange(from as int, to as int)),
{
    let ghost seg = s@.subrange(from as int, to as int);
    if from == to {
        return Err(RangeError::InvalidFormat);
    }
    let mut j: usize = from;
    while j < to
        invariant
            from <= j <= to <= s@.len(),
            seg == s@.subrange(from as int, to as int),
            forall|t: int| 0 <= t < j - from ==> is_digit(seg[t]),
        decreases to - j,
    {
        let c = s.get_char(j);
        let cu = c as u32;
        proof {
            assert(seg[j - from] == s@[j as int]);
        }
        if !(48 <= cu && cu <= 57) {
            proof {
                assert(!is_digit(seg[j - from]));
            }
            return Err(RangeError::InvalidFormat);
        }
        j += 1;
    }
    proof {
        assert(all_digits(seg));
        assert(is_port_text(seg));
    }
    let mut v: u32 = 0;
    let mut k: usize = from;
    while k < to
        invariant
            from <= k <= to <= s@.len(),
            seg == s@.subrange(from as int, to as int),
            is_port_text(seg),
            v == dec_val(seg.take(k - from)),
            v <= 65535,
        decreases to - k,
    {
        let c = s.get_char(k);
        let cu = c as u32;
        proof {
            assert(seg[k - from] == s@[k as int]);
            assert(is_digit(seg[k - from]));
            assert(48 <= cu <= 57);
        }
        let d: u32 = cu - 48;
        proof {
            assert(seg.take(k - from + 1).drop_last() =~= seg.take(k - from));
            assert(seg.take(k - from + 1).last() == c);
            assert(d == crate::num::digit_val(c));
        }
        let nv: u32 = v * 10 + d;
        proof {
            assert(nv == dec_val(seg.take(k - from + 1)));
        }
        if nv > 65535 {
            proof {
                lemma_dec_val_take(seg, k - from + 1);
            }
            return Err(RangeError::OutOfRange);
        }
        v = nv;
        k += 1;
    }
    proof {
        assert(seg.take(to - from) =~= seg);
    }
    Ok(v as u16)
}

/// Parses a textual port specification, returning exactly what
/// `parse_spec` says of it: the validated range on success, and the first
/// applicable rejection otherwise.
pub fn parse_port_range(s: &str) -> (r: Result<PortRange, RangeError>)
    ensures
        r == parse_spec(s@),
        r matches Ok(pr) ==> pr.wf(),
{
    let n = s.unicode_len();
    let mut i: usize = 0;
    let mut found: bool = false;
    let mut first: usize = 0;
    let mut second: bool = false;
    while i < n
        invariant
            n == s@.len(),
            i <= n,
            !found ==> forall|j: int| 0 <= j < i ==> !is_sep(s@[j]),
            found ==> first < i && first_sep_is(s@, first as int),
            !found ==> !second,
            second <==> exists|j1: int, j2: int|
                0 <= j1 < j2 < i && is_sep(s@[j1]) && is_sep(s@[j2]),
        decreases n - i,
    {
        let c = s.get_char(i);
        if c == ':' || c == '-' {
            if !found {
                found = true;
                first = i;
            } else {
                proof {
                    assert(is_sep(s@[first as int]) && is_sep(s@[i as int]));
                }
                second = true;
            }
        } else {
            proof {
                assert(!is_sep(s@[i as int]));
                if second {
                    let (j1, j2) = choose|j1: int, j2: int|
                        0 <= j1 < j2 < i && is_sep(s@[j1]) && is_sep(s@[j2]);
                    assert(0 <= j1 < j2 < i + 1 && is_sep(s@[j1]) && is_sep(s@[j2]));
                }
            }
        }
        i += 1;
    }
    if second {
        proof {
            assert(two_seps(s@));
        }
        return Err(RangeError::InvalidFormat);
    }
    proof {
        assert(!two_seps(s@));
    }
    if !found {
        proof {
            assert(!has_sep(s@));
        }
        match parse_seg(s, 0, n) {
            Ok(v) => {
                proof {
                    assert(s@.subrange(0, n as int) =~= s@);
                }
                Ok(PortRange { low: v, high: v })
            },
            Err(e) => {
                proof {
                    assert(s@.subrange(0, n as int) =~= s@);
                }
                Err(e)
            },
        }
    } else {
        proof {
            assert(has_sep(s@));
            assert(first_sep_is(s@, first_sep(s@)));
            lemma_first_sep_unique(s@, first_sep(s@), first as int);
            assert(s@.subrange(0, first as int) =~= s@.take(first as int));
            assert(s@.subrange(first + 1, n as int) =~= s@.skip(first + 1));
        }
        let ra = parse_seg(s, 0, first);
        let rb = parse_seg(s, first + 1, n);
        match (ra, rb) {
            (Ok(va), Ok(vb)) => {
                if va > vb {
                    Err(RangeError::InvertedRange)
                } else {
                    Ok(PortRange { low: va, high: vb })
                }
            },
            (Err(RangeError::InvalidFormat), _) => Err(RangeError::InvalidFormat),
            (_, Err(RangeError::InvalidFormat)) => Err(RangeError::InvalidFormat),
            (Err(e), _) => Err(e),
            (_, Err(e)) => Err(e),
        }
    }
}

} // verus!
