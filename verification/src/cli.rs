//! The command-line contract: when usage is printed instead of scanning,
//! and how user input turns into a validated target or a `UsageError`.
//! Reading the arguments and printing is done by the surrounding binary;
//! every decision it takes comes from here.

use vstd::prelude::*;
use vstd::string::StringExecFns;
use crate::addr::{ipv4_spec, parse_ipv4, Target};
use crate::range::{parse_port_range, parse_spec, PortRange, RangeError};

verus! {

/// Why an invocation was rejected before any network activity.
#[derive(Clone, Copy, Debug, PartialEq, Eq, Structural)]
pub enum UsageError {
    /// The address is not a literal IP address.
    BadAddress,
    /// The port range was rejected, for the reason carried.
    BadRange(RangeError),
}

/// The diagnostic text of a usage error.
pub open spec fn usage_message(e: UsageError) -> Seq<char> {
    match e {
        UsageError::BadAddress => "invalid IP address"@,
        UsageError::BadRange(RangeError::InvalidFormat) => "invalid port range"@,
        UsageError::BadRange(RangeError::OutOfRange) => "port out of range"@,
        UsageError::BadRange(RangeError::InvertedRange) => "inverted port range"@,
    }
}

impl UsageError {
    /// The diagnostic the operator is shown, pinned per error.
    pub fn message(&self) -> (r: String)
        ensures
            r@ == usage_message(*self),
    {
        match self {
            UsageError::BadAddress => String::from_str("invalid IP address"),
            UsageError::BadRange(RangeError::InvalidFormat) => String::from_str(
                "invalid port range",
            ),
            UsageError::BadRange(RangeError::OutOfRange) => String::from_str("port out of range"),
            UsageError::BadRange(RangeError::InvertedRange) => String::from_str(
                "inverted port range",
            ),
        }
    }
}

/// Whether the invocation asks for the usage text instead of a scan:
/// help was requested, or fewer than the two positional arguments
/// (address and range) are present. Usage display exits cleanly, without
/// scanning, even when other arguments are present.
pub fn wants_usage(help: bool, free_count: usize) -> (r: bool)
    ensures
        r == (help || free_count < 2),
{
    help || free_count < 2
}

/// Validates the two positional arguments into a scan target: the address
/// must be an IPv4 literal and the range must parse. Exactly the inputs
/// `ipv4_spec` and `parse_spec` accept are accepted, the address checked
/// first; nothing else reaches the network.
pub fn validate_target(addr_text: &str, range_text: &str) -> (r: Result<Target, UsageError>)
    ensures
        match r {
            Ok(t) => {
                &&& t.wf()
                &&& ipv4_spec(addr_text@) == Some(t.addr)
                &&& parse_spec(range_text@) == Ok::<PortRange, RangeError>(t.range)
            },
            Err(UsageError::BadAddress) => ipv4_spec(addr_text@) is None,
            Err(UsageError::BadRange(e)) => {
                &&& ipv4_spec(addr_text@) is Some
                &&& parse_spec(range_text@) == Err::<PortRange, RangeError>(e)
            },
        },
{
    let addr = match parse_ipv4(addr_text) {
        Some(a) => a,
        None => {
            return Err(UsageError::BadAddress);
        },
    };
    let range = match parse_port_range(range_text) {
        Ok(pr) => pr,
        Err(e) => {
            return Err(UsageError::BadRange(e));
        },
    };
    Ok(Target::new(addr, range))
}

} // verus!
