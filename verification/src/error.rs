//! The reasons for which a request can be refused.

use crate::kinds::{Kind, Method};
use vstd::prelude::*;

verus! {

/// Why a request was refused.
#[derive(Debug)]
pub enum Error {
    /// No kind of match has this name.
    UnknownKind(String),
    /// No matching method has this name.
    UnknownMethod(String),
    /// No direction has this name.
    UnknownDirection(String),
    /// A match has no such field.
    UnknownMatchField(String),
    /// The configuration has no such field.
    UnknownConfigField(String),
    /// Not an unsigned number that fits.
    BadNumber(String),
    /// Neither `true` nor `false`.
    BadBool(String),
    /// Not an IPv4 address in dotted notation.
    BadAddress(String),
    /// Not an address followed by a prefix length.
    BadSubnet(String),
    /// The method makes no sense for that kind of match.
    InvalidMethod(Method, Kind),
    /// The patterns do not compile.
    Regex(String),
    /// The automaton supports no search of the wanted kind.
    NoStart,
    /// The automaton has more transitions than fit.
    TooManyStates(usize),
    /// The automaton accepts nothing.
    NoFinalState,
    /// No such match is configured.
    NoSuchMatch,
    /// A domain name that cannot be read.
    BadName(String),
    /// No active DNS record fits the request.
    NoSuchRecord,
    /// The DNS message cannot be read.
    BadMessage(String),
    /// The DNS message holds neither queries nor answers.
    EmptyMessage,
    /// The DNS message is no response.
    NotAResponse,
    /// The DNS response reports a failure.
    FailedResponse(u16),
    /// Both starting enabled and starting disabled were asked for.
    EnableAndDisable,
    /// No firewall rule carries the mark.
    NoSuchRule,
    /// The reply of the kernel lacks an attribute.
    MissingAttribute,
}

} // verus!
