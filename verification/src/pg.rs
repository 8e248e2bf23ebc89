//! The outbound relational-database factor and its address gate.
//!
//! Before a connection is opened, every host/port pair the client
//! configuration names must pass the component's capability gate.

use vstd::prelude::*;

use crate::errors::Error;
use crate::gate::{
    bytes_copy, config_allows, denied_event_recorded, memo_config, memo_error, memo_is_err,
    memo_is_ok, resolution_settled, OutboundAllowedHosts, Target, TargetView, VariableSet,
};

verus! {

/// A factor that provides outbound relational-database connections.
pub struct OutboundPgFactor {
    _priv: (),
}

impl OutboundPgFactor {
    /// Creates the factor.
    pub fn new() -> (f: OutboundPgFactor) {
        OutboundPgFactor { _priv: () }
    }
}

/// The scheme under which database addresses are checked.
pub open spec fn postgres_scheme() -> Seq<u8> {
    seq![0x70u8, 0x6fu8, 0x73u8, 0x74u8, 0x67u8, 0x72u8, 0x65u8, 0x73u8]
}

/// The target that one configured host addresses, with the port it
/// is paired with, if any.
pub open spec fn pg_target(host: Vec<u8>, port: Option<u16>) -> TargetView {
    TargetView { scheme: postgres_scheme(), host: host@, port: port }
}

/// The port paired with the host at `i`: the port at the same index;
/// a single configured port applies to every host; otherwise a host
/// beyond the configured ports is checked without a port, so the
/// scheme's default applies.
pub open spec fn pair_port(ports: Seq<u16>, i: int) -> Option<u16> {
    if 0 <= i < ports.len() {
        Some(ports[i])
    } else if ports.len() == 1 {
        Some(ports[0])
    } else {
        None
    }
}

/// Whether every configured host/port pair is allowed.
pub open spec fn all_pairs_allowed(
    cv: crate::gate::ConfigView,
    hosts: Seq<Vec<u8>>,
    ports: Seq<u16>,
) -> bool {
    forall|i: int|
        0 <= i < hosts.len() ==> config_allows(cv, #[trigger] pg_target(hosts[i], pair_port(ports, i)))
}

/// The address gate of one outbound database connection attempt.
pub struct AllowedHostChecker {
    gate: OutboundAllowedHosts,
}

impl AllowedHostChecker {
    /// The capability gate this checker consults.
    pub closed spec fn gate(self) -> OutboundAllowedHosts {
        self.gate
    }

    /// Creates a checker over the component's gate.
    pub fn new(gate: OutboundAllowedHosts) -> (c: AllowedHostChecker)
        ensures
            c.gate() == gate,
    {
        AllowedHostChecker { gate }
    }

    /// Checks every configured host/port pair against the allow-list
    /// before any connection is opened, under the database scheme.
    ///
    /// The pairing is positional; a single configured port applies to
    /// every host, and a host beyond the configured ports is checked
    /// without a port, so the scheme's default applies.  A denied
    /// pair fails with `AccessDenied` after recording exactly one
    /// denial notification for the first denied pair; a resolution
    /// failure is replayed as the cached error.
    pub fn ensure_address_allowed(
        &mut self,
        vars: &VariableSet,
        hosts: &Vec<Vec<u8>>,
        ports: &Vec<u16>,
    ) -> (r: Result<(), Error>)
        ensures
            hosts@.len() == 0 ==> r is Ok && *final(self) == *old(self),
            hosts@.len() > 0 ==> resolution_settled(
                old(self).gate(),
                final(self).gate(),
                *vars,
            ),
            hosts@.len() > 0 && memo_is_err(final(self).gate()) ==> r == Result::<(), Error>::Err(
                memo_error(final(self).gate()),
            ) && final(self).gate().spec_events() == old(self).gate().spec_events(),
            hosts@.len() > 0 && memo_is_ok(final(self).gate()) && all_pairs_allowed(
                memo_config(final(self).gate()),
                hosts@,
                ports@,
            ) ==> r is Ok && final(self).gate().spec_events() == old(self).gate().spec_events(),
            hosts@.len() > 0 && memo_is_ok(final(self).gate()) && !all_pairs_allowed(
                memo_config(final(self).gate()),
                hosts@,
                ports@,
            ) ==> r == Result::<(), Error>::Err(Error::AccessDenied) && (exists|i: int|
                0 <= i < hosts@.len() && !config_allows(
                    memo_config(final(self).gate()),
                    #[trigger] pg_target(hosts@[i], pair_port(ports@, i)),
                ) && denied_event_recorded(
                    old(self).gate().spec_events(),
                    final(self).gate().spec_events(),
                    pg_target(hosts@[i], pair_port(ports@, i)),
                ) && (forall|j: int|
                    0 <= j < i ==> config_allows(
                        memo_config(final(self).gate()),
                        #[trigger] pg_target(hosts@[j], pair_port(ports@, j)),
                    ))),
    {
        let n = hosts.len();
        let mut i: usize = 0;
        while i < n
            invariant
                n == hosts@.len(),
                i <= n,
                i > 0 ==> resolution_settled(old(self).gate(), self.gate, *vars),
                i > 0 ==> memo_is_ok(self.gate),
                i > 0 ==> self.gate.spec_events() == old(self).gate().spec_events(),
                i == 0 ==> self.gate == old(self).gate(),
                forall|j: int|
                    0 <= j < i ==> config_allows(
                        memo_config(self.gate),
                        #[trigger] pg_target(hosts@[j], pair_port(ports@, j)),
                    ),
            decreases n - i,
        {
            let port: Option<u16> = if i < ports.len() {
                Some(ports[i])
            } else if ports.len() == 1 {
                Some(ports[0])
            } else {
                None
            };
            let scheme: Vec<u8> = vec![0x70u8, 0x6fu8, 0x73u8, 0x74u8, 0x67u8, 0x72u8, 0x65u8, 0x73u8];
            proof {
                assert(scheme@ =~= postgres_scheme());
            }
            let host = bytes_copy(&hosts[i]);
            let target = Target { scheme, host, port };
            proof {
                assert(target.view_target() == pg_target(hosts@[i as int], pair_port(
                    ports@,
                    i as int,
                )));
            }
            match self.gate.check_target(vars, target) {
                Err(e) => {
                    return Err(e);
                },
                Ok(false) => {
                    return Err(Error::AccessDenied);
                },
                Ok(true) => {},
            }
            i += 1;
        }
        Ok(())
    }
}

} // verus!
