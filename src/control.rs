//! The sniffer's runtime switch, as the HTTP layer drives it.

use vstd::prelude::*;
use crate::sniffer::NetworkSniffer;

verus! {

/// What a switch request did.
#[derive(Debug, Clone, Copy, PartialEq, Eq, Structural)]
pub enum SnifferReply {
    AlreadyActive,
    Activated,
    Deactivated,
}

/// The sniffer's state as reported to the HTTP layer.
#[derive(Debug, Clone)]
pub struct SnifferStatus {
    pub active: bool,
    pub interface: String,
    pub filter: String,
}

/// Reports whether capture runs, and on what.
pub fn sniffer_status(active: bool, sniffer: &NetworkSniffer) -> (r: SnifferStatus)
    ensures
        r.active == active,
        r.interface@ == sniffer.interface@,
        r.filter@ == sniffer.filter@,
{
    SnifferStatus {
        active,
        interface: sniffer.interface.clone(),
        filter: sniffer.filter.clone(),
    }
}

/// Turns capture on; idempotent. Returns the new flag and the reply.
pub fn enable_sniffer(active: bool) -> (r: (bool, SnifferReply))
    ensures
        r.0,
        r.1 == if active {
            SnifferReply::AlreadyActive
        } else {
            SnifferReply::Activated
        },
{
    if active {
        (true, SnifferReply::AlreadyActive)
    } else {
        (true, SnifferReply::Activated)
    }
}

/// Turns capture off; idempotent. Returns the new flag and the reply.
pub fn disable_sniffer(active: bool) -> (r: (bool, SnifferReply))
    ensures
        !r.0,
        r.1 == SnifferReply::Deactivated,
{
    (false, SnifferReply::Deactivated)
}

} // verus!
