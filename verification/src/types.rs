//! Plain values that the health decisions read.

use crate::key_map::MapKey;
use crate::ranking::{lex_less, Ranked};
use vstd::prelude::*;

verus! {

/// Address family of a middle-proxy endpoint.
#[derive(Clone, Copy, Debug, PartialEq, Eq, Structural, Hash)]
pub enum IpFamily {
    V4,
    V6,
}

/// How the number of writers per data centre is chosen.
#[derive(Clone, Copy, Debug, PartialEq, Eq, Structural)]
pub enum MeFloorMode {
    Static,
    Adaptive,
}

/// Health of one address family as a whole.
#[derive(Clone, Copy, Debug, PartialEq, Eq, Structural)]
pub enum MeFamilyRuntimeState {
    Healthy,
    Degraded,
    Suppressed,
    Recovering,
}

/// What a writer is kept for.
#[derive(Clone, Copy, Debug, PartialEq, Eq, Structural)]
pub enum WriterContour {
    Warm,
    Active,
    Draining,
}

/// Socket address of a middle-proxy endpoint.
#[derive(Clone, Copy, Debug, PartialEq, Eq, Structural, Hash)]
#[allow(inconsistent_fields)]
pub enum Endpoint {
    V4 { ip: u32, port: u16 },
    V6 { ip: u128, port: u16, flowinfo: u32, scope_id: u32 },
}

impl Endpoint {
    /// Family of the address.
    pub open spec fn spec_family(self) -> IpFamily {
        match self {
            Endpoint::V4 { .. } => IpFamily::V4,
            Endpoint::V6 { .. } => IpFamily::V6,
        }
    }

    /// Family of the address.
    pub fn family(&self) -> (family: IpFamily)
        ensures
            family == self.spec_family(),
    {
        match self {
            Endpoint::V4 { .. } => IpFamily::V4,
            Endpoint::V6 { .. } => IpFamily::V6,
        }
    }
}

/// Version 4 addresses come first; within a version the order is by address,
/// then port, flow label and scope.
impl Ranked for Endpoint {
    open spec fn rank(&self) -> Seq<int> {
        match *self {
            Endpoint::V4 { ip, port } => seq![0int, ip as int, port as int, 0int, 0int],
            Endpoint::V6 { ip, port, flowinfo, scope_id } => seq![
                1int,
                ip as int,
                port as int,
                flowinfo as int,
                scope_id as int,
            ],
        }
    }

    fn ranks_before(&self, other: &Self) -> (before: bool) {
        proof {
            reveal_with_fuel(lex_less, 6);
        }
        match (*self, *other) {
            (Endpoint::V4 { ip: a, port: p }, Endpoint::V4 { ip: b, port: q }) => a < b || (a == b
                && p < q),
            (Endpoint::V4 { .. }, Endpoint::V6 { .. }) => true,
            (Endpoint::V6 { .. }, Endpoint::V4 { .. }) => false,
            (
                Endpoint::V6 { ip: a, port: p, flowinfo: f, scope_id: s },
                Endpoint::V6 { ip: b, port: q, flowinfo: g, scope_id: t },
            ) => a < b || (a == b && (p < q || (p == q && (f < g || (f == g && s < t))))),
        }
    }
}

/// A data centre seen over one address family.
#[derive(Clone, Copy, Debug, PartialEq, Eq, Structural, Hash)]
pub struct DcKey {
    pub dc: i32,
    pub family: IpFamily,
}

impl MapKey for DcKey {
    fn same(&self, other: &Self) -> (same: bool) {
        *self == *other
    }
}

/// An endpoint of a data centre.
#[derive(Clone, Copy, Debug, PartialEq, Eq, Structural, Hash)]
pub struct DcEndpoint {
    pub dc: i32,
    pub addr: Endpoint,
}

impl MapKey for DcEndpoint {
    fn same(&self, other: &Self) -> (same: bool) {
        *self == *other
    }
}

/// State of one writer of the pool at the moment it was read.
///
/// Instants are nanoseconds of a monotonic clock, counted from an origin that
/// lies before every instant in use.
#[derive(Clone, Copy, Debug, PartialEq, Eq, Structural)]
pub struct WriterSnapshot {
    pub id: u64,
    pub writer_dc: i32,
    pub addr: Endpoint,
    pub contour: WriterContour,
    pub created_at: u128,
    pub draining: bool,
    pub draining_started_at_epoch_secs: u64,
    pub drain_deadline_epoch_secs: u64,
}

/// One address comes before another: version 4 before version 6, then by
/// address, by port, by flow label and by scope.
pub open spec fn comes_before(a: Endpoint, b: Endpoint) -> bool {
    match (a, b) {
        (Endpoint::V4 { ip: x, port: p }, Endpoint::V4 { ip: y, port: q }) => if x != y {
            x < y
        } else {
            p < q
        },
        (Endpoint::V4 { .. }, Endpoint::V6 { .. }) => true,
        (Endpoint::V6 { .. }, Endpoint::V4 { .. }) => false,
        (
            Endpoint::V6 { ip: x, port: p, flowinfo: f, scope_id: s },
            Endpoint::V6 { ip: y, port: q, flowinfo: g, scope_id: t },
        ) => if x != y {
            x < y
        } else if p != q {
            p < q
        } else if f != g {
            f < g
        } else {
            s < t
        },
    }
}

/// Endpoints are ranked as their addresses come, and any two that differ are
/// told apart. The family of an endpoint is that of its address.
pub proof fn endpoints_rank_as_they_come(a: Endpoint, b: Endpoint)
    ensures
        lex_less(a.rank(), b.rank()) <==> comes_before(a, b),
        a != b ==> comes_before(a, b) || comes_before(b, a),
        a.spec_family() == IpFamily::V4 <==> a is V4,
        a.spec_family() == IpFamily::V6 <==> a is V6,
{
    reveal_with_fuel(lex_less, 6);
}

} // verus!
