//! The reporter: renders probe results as the scanner's output lines.
//! Every line's text is pinned by contract; the optional colorization goes
//! through the `colored` crate behind trusted wrappers whose promise —
//! the status word still appears in the painted text — is all the rest of
//! the proof relies on.

use vstd::prelude::*;
use vstd::string::StringExecFns;
use colored::Colorize;
use crate::num::{dec_seq, u16_to_string};
use crate::probe::{PortStatus, ProbeResult};

verus! {

/// The needle occurs contiguously somewhere in the haystack.
pub open spec fn contains_seq(hay: Seq<char>, needle: Seq<char>) -> bool {
    exists|k: int|
        0 <= k && k + needle.len() <= hay.len() && #[trigger] hay.subrange(
            k,
            k + needle.len() as int,
        ) == needle
}

/// The string holds no ANSI escape character.
pub open spec fn esc_free(s: Seq<char>) -> bool {
    forall|i: int| 0 <= i < s.len() ==> s[i] != '\u{1b}'
}

/// The status word a port is reported with.
pub open spec fn status_seq(st: PortStatus) -> Seq<char> {
    if st == PortStatus::Open {
        "OPEN"@
    } else {
        "CLOSE"@
    }
}

/// Relies on `colored::Colorize::green` and `ColoredString`'s `Display`:
/// the result is the input either unchanged or wrapped between an ANSI
/// style prefix and a reset suffix, depending on the process-wide color
/// choice; either way an input free of escape characters appears in the
/// result contiguously, and the result is never shorter than the input.
#[verifier::external_body]
fn paint_green(s: &str) -> (r: String)
    ensures
        r@.len() >= s@.len(),
        esc_free(s@) ==> contains_seq(r@, s@),
{
    s.green().to_string()
}

/// Relies on `colored::Colorize::red` and `ColoredString`'s `Display`:
/// same promise as for the green painter.
#[verifier::external_body]
fn paint_red(s: &str) -> (r: String)
    ensures
        r@.len() >= s@.len(),
        esc_free(s@) ==> contains_seq(r@, s@),
{
    s.red().to_string()
}

/// The plain status word: `OPEN` or `CLOSE`.
pub fn status_text(st: PortStatus) -> (r: String)
    ensures
        r@ == status_seq(st),
{
    match st {
        PortStatus::Open => String::from_str("OPEN"),
        PortStatus::Closed => String::from_str("CLOSE"),
    }
}

/// The status word, painted green (open) or red (closed) when color is
/// enabled. Plain output is pinned exactly; painted output still shows the
/// status word.
pub fn paint_status(st: PortStatus, color: bool) -> (r: String)
    ensures
        !color ==> r@ == status_seq(st),
        contains_seq(r@, status_seq(st)),
{
    if !color {
        let r = status_text(st);
        proof {
            assert(r@.subrange(0, 0 + status_seq(st).len() as int) =~= status_seq(st));
        }
        r
    } else {
        proof {
            reveal_strlit("OPEN");
            reveal_strlit("CLOSE");
            assert(esc_free("OPEN"@));
            assert(esc_free("CLOSE"@));
        }
        match st {
            PortStatus::Open => paint_green("OPEN"),
            PortStatus::Closed => paint_red("CLOSE"),
        }
    }
}

/// One report line: the port in decimal, the word `is`, and the status
/// word, painted when color is enabled. Without color the whole line is
/// pinned; with color the prefix is pinned and the status word is shown.
pub fn format_result_line(res: &ProbeResult, color: bool) -> (r: String)
    ensures
        !color ==> r@ == dec_seq(res.port as nat) + " is "@ + status_seq(res.status),
        r@.subrange(0, (dec_seq(res.port as nat).len() + " is "@.len()) as int) == dec_seq(
            res.port as nat,
        ) + " is "@,
        contains_seq(r@, status_seq(res.status)),
{
    let mut line = u16_to_string(res.port);
    line.append(" is ");
    let ghost prefix = dec_seq(res.port as nat) + " is "@;
    proof {
        assert(line@ =~= prefix);
    }
    let painted = paint_status(res.status, color);
    line.append(painted.as_str());
    proof {
        assert(line@.subrange(0, prefix.len() as int) =~= prefix);
        let k = choose|k: int|
            0 <= k && k + status_seq(res.status).len() <= painted@.len() && #[trigger] painted@
                .subrange(k, k + status_seq(res.status).len() as int) == status_seq(res.status);
        assert(line@.subrange(
            prefix.len() + k,
            prefix.len() + k + status_seq(res.status).len() as int,
        ) =~= painted@.subrange(k, k + status_seq(res.status).len() as int));
        if !color {
            assert(line@ =~= prefix + status_seq(res.status));
        }
    }
    line
}

/// The header line announcing the target and range before scanning starts.
pub fn format_header(addr: &str, low: u16, high: u16) -> (r: String)
    ensures
        r@ == "Checking port(s) on "@ + addr@ + " from "@ + dec_seq(low as nat) + " to "@
            + dec_seq(high as nat),
{
    let mut line = String::from_str("Checking port(s) on ");
    line.append(addr);
    line.append(" from ");
    let lo = u16_to_string(low);
    line.append(lo.as_str());
    line.append(" to ");
    let hi = u16_to_string(high);
    line.append(hi.as_str());
    proof {
        assert(line@ =~= "Checking port(s) on "@ + addr@ + " from "@ + dec_seq(low as nat)
            + " to "@ + dec_seq(high as nat));
    }
    line
}

/// How many of the results are classified open.
pub open spec fn open_count(rs: Seq<ProbeResult>) -> nat
    decreases rs.len(),
{
    if rs.len() == 0 {
        0
    } else {
        open_count(rs.drop_last()) + (if rs.last().status == PortStatus::Open {
            1nat
        } else {
            0nat
        })
    }
}

/// The ports reported open, in the order their results stand.
pub open spec fn open_ports_of(rs: Seq<ProbeResult>) -> Seq<u16>
    decreases rs.len(),
{
    if rs.len() == 0 {
        Seq::empty()
    } else if rs.last().status == PortStatus::Open {
        open_ports_of(rs.drop_last()).push(rs.last().port)
    } else {
        open_ports_of(rs.drop_last())
    }
}

/// Counts the open ports among the results, for the final summary.
pub fn count_open(results: &Vec<ProbeResult>) -> (r: usize)
    ensures
        r == open_count(results@),
{
    let mut c: usize = 0;
    let mut i: usize = 0;
    let n = results.len();
    while i < n
        invariant
            i <= n == results@.len(),
            c == open_count(results@.take(i as int)),
            c <= i,
        decreases n - i,
    {
        proof {
            assert(results@.take(i + 1).drop_last() =~= results@.take(i as int));
            assert(results@.take(i + 1).last() == results@[i as int]);
        }
        if matches!(results[i].status, PortStatus::Open) {
            c += 1;
        }
        i += 1;
    }
    proof {
        assert(results@.take(n as int) =~= results@);
    }
    c
}

/// Collects the ports reported open, in result order.
pub fn open_ports(results: &Vec<ProbeResult>) -> (r: Vec<u16>)
    ensures
        r@ == open_ports_of(results@),
{
    let mut out: Vec<u16> = Vec::new();
    let mut i: usize = 0;
    let n = results.len();
    while i < n
        invariant
            i <= n == results@.len(),
            out@ == open_ports_of(results@.take(i as int)),
        decreases n - i,
    {
        proof {
            assert(results@.take(i + 1).drop_last() =~= results@.take(i as int));
            assert(results@.take(i + 1).last() == results@[i as int]);
        }
        if matches!(results[i].status, PortStatus::Open) {
            out.push(results[i].port);
        }
        i += 1;
    }
    proof {
        assert(results@.take(n as int) =~= results@);
    }
    out
}

} // verus!
