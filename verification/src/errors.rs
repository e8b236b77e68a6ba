//! The errors the inventory core can report. Each carries the context an
//! operator needs: the offending hostname, variable name, or address bounds.

use vstd::prelude::*;

use crate::ip::Ipv4;

verus! {

#[derive(Clone, Debug, PartialEq, Eq)]
pub enum Error {
    /// The machine named as the resolution source is not in the inventory.
    MissingSourceMachine { source_machine: String },
    /// A required configuration variable is unset.
    Var { var: String },
    /// A configuration variable did not parse as an integer in range.
    ParseInt { var: String },
    /// A configuration variable did not parse as an IPv4 address.
    AddrParse { var: String },
    /// Every address in the configured WireGuard range is taken.
    NoWireGuardAddressAvailable { start: Ipv4, end: Ipv4 },
    /// The private-key path template holds a directive other than
    /// `{hostname}` or `{wireguard_ip}`, or an unbalanced brace.
    FormatString,
}

} // verus!
