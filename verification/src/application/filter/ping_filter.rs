//! Filtering servers by their ping.
use vstd::prelude::*;
use crate::application::promised_value::PromisedValue;
use crate::application::server::Server;

verus! {

pub struct PingFilter {
    pub max_ping: u32,
    pub accept_ping_timeout: bool,
    pub enabled: bool,
}

impl PingFilter {
    /// A disabled filter accepts every server; a ping still measured is
    /// accepted; a server that did not answer is accepted when
    /// `accept_ping_timeout` is set; else the ping, in whole milliseconds, must
    /// not exceed `max_ping`.
    pub open spec fn spec_accept(&self, server: &Server) -> bool {
        if !self.enabled {
            true
        } else {
            match server.ping {
                PromisedValue::Ready(ping) => ping@ / 1_000_000 <= self.max_ping,
                PromisedValue::Loading => true,
                PromisedValue::Absent => self.accept_ping_timeout,
            }
        }
    }

    pub fn accept(&self, server: &Server) -> (r: bool)
        ensures
            r == self.spec_accept(server),
    {
        if !self.enabled {
            return true;
        }
        match &server.ping {
            PromisedValue::Ready(ping) => ping.as_millis() <= self.max_ping as u128,
            PromisedValue::Loading => true,
            PromisedValue::Absent => self.accept_ping_timeout,
        }
    }
}

/// A ping filter accepts every server whose ping is still being measured; a
/// server that did not answer exactly when timeouts are accepted; a server
/// with a ping exactly when it is, in whole milliseconds, at most the maximum.
/// A disabled filter accepts every server.
pub proof fn lemma_ping_filter(f: PingFilter, server: Server)
    ensures
        !f.enabled ==> f.spec_accept(&server),
        server.ping is Loading ==> f.spec_accept(&server),
        f.enabled && server.ping is Absent ==> (f.spec_accept(&server) <==> f.accept_ping_timeout),
        f.enabled && (server.ping matches PromisedValue::Ready(d) && d@ >= (f.max_ping + 1) * 1_000_000)
            ==> !f.spec_accept(&server),
        f.enabled && (server.ping matches PromisedValue::Ready(d) && d@ < (f.max_ping + 1) * 1_000_000)
            ==> f.spec_accept(&server),
{
    if f.enabled {
        if let PromisedValue::Ready(d) = server.ping {
            let n: int = d@ as int;
            let m: int = f.max_ping as int;
            assert(n >= (m + 1) * 1_000_000 ==> n / 1_000_000 > m) by (nonlinear_arith);
            assert(0 <= n < (m + 1) * 1_000_000 ==> n / 1_000_000 <= m) by (nonlinear_arith);
        }
    }
}

/// A larger maximum ping keeps every server that was accepted.
pub proof fn lemma_ping_filter_larger_maximum(f: PingFilter, g: PingFilter, server: Server)
    requires
        g.enabled == f.enabled,
        g.accept_ping_timeout == f.accept_ping_timeout,
        g.max_ping >= f.max_ping,
        f.spec_accept(&server),
    ensures
        g.spec_accept(&server),
{
}

impl Default for PingFilter {
    fn default() -> (f: PingFilter)
        ensures
            f.max_ping == 0,
            !f.accept_ping_timeout,
            !f.enabled,
    {
        PingFilter { max_ping: 0, accept_ping_timeout: false, enabled: false }
    }
}

} // verus!
