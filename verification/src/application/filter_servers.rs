//! The servers filter with fixed property switches.
use vstd::prelude::*;
use crate::application::bookmarks::Bookmarks;
use crate::application::country_filter::CountryFilter;
use crate::application::filter::text_filter::TextFilter;
use crate::application::game_mode_filter::GameModeFilter;
use crate::application::promised_value::PromisedValue;
use crate::application::server::Server;
use crate::ordered_map::OrderedKey;

verus! {

pub struct Filter {
    pub text: TextFilter,
    pub country: CountryFilter,
    pub game_modes: GameModeFilter,
    pub bookmarked_only: bool,
    pub max_ping: u32,
    pub accept_ping_timeout: bool,
    pub vac_secured_only: bool,
    pub with_rtd_only: bool,
    pub with_all_talk_only: bool,
    pub with_no_respawn_time_only: bool,
    pub with_random_crits: bool,
    pub exclude_password: bool,
}

/// The ping criterion accepts every server whose ping is still being measured;
/// a server that did not answer exactly when timeouts are accepted; a server
/// with a ping exactly when it is, in whole milliseconds, at most the maximum.
pub proof fn lemma_accepts_ping(f: Filter, server: Server)
    ensures
        server.ping is Loading ==> f.accepts_ping(&server),
        server.ping is Absent ==> (f.accepts_ping(&server) <==> f.accept_ping_timeout),
        (server.ping matches PromisedValue::Ready(d) && d@ >= (f.max_ping + 1) * 1_000_000) ==> !f.accepts_ping(&server),
        (server.ping matches PromisedValue::Ready(d) && d@ < (f.max_ping + 1) * 1_000_000) ==> f.accepts_ping(&server),
{
    if let PromisedValue::Ready(d) = server.ping {
        let n: int = d@ as int;
        let m: int = f.max_ping as int;
        assert(n >= (m + 1) * 1_000_000 ==> n / 1_000_000 > m) by (nonlinear_arith);
        assert(0 <= n < (m + 1) * 1_000_000 ==> n / 1_000_000 <= m) by (nonlinear_arith);
    }
}

impl Filter {
    pub open spec fn wf(&self) -> bool {
        self.country.wf() && self.game_modes.wf()
    }

    /// A ping still measured is accepted; a missing one when timeouts are
    /// accepted; else it must not exceed `max_ping` whole milliseconds.
    pub open spec fn accepts_ping(&self, server: &Server) -> bool {
        match server.ping {
            PromisedValue::Ready(ping) => ping@ / 1_000_000 <= self.max_ping,
            PromisedValue::Loading => true,
            PromisedValue::Absent => self.accept_ping_timeout,
        }
    }

    pub open spec fn accepts_properties(&self, server: &Server) -> bool {
        &&& !self.with_all_talk_only || server.has_all_talk
        &&& !self.with_random_crits || server.has_random_crits
        &&& !self.with_rtd_only || server.has_rtd
        &&& !self.with_no_respawn_time_only || server.has_no_respawn_time
        &&& !self.exclude_password || !server.need_password
    }

    /// A server is shown when every criterion accepts it.
    pub open spec fn spec_accept(&self, server: &Server, bookmarks: &Bookmarks) -> bool {
        &&& !self.bookmarked_only || bookmarks.servers().contains(server.ip_port.key_model())
        &&& self.text.spec_accept(server.name@)
        &&& self.country.spec_accept(server.country)
        &&& self.accepts_ping(server)
        &&& self.game_modes.spec_accept(server)
        &&& !self.vac_secured_only || server.vac_secured
        &&& self.accepts_properties(server)
    }

    pub fn accept(&self, server: &Server, bookmarks: &Bookmarks) -> (r: bool)
        requires
            self.wf(),
            bookmarks.wf(),
        ensures
            r == self.spec_accept(server, bookmarks),
    {
        self.filter_by_bookmark(server, bookmarks) && self.filter_by_text(server)
            && self.filter_by_countries(server) && self.filter_by_ping(server)
            && self.filter_by_game_mode(server) && self.filter_by_vac(server)
            && self.filter_by_properties(server)
    }

    fn filter_by_countries(&self, server: &Server) -> (r: bool)
        requires
            self.wf(),
        ensures
            r == self.country.spec_accept(server.country),
    {
        self.country.accept(&server.country)
    }

    fn filter_by_text(&self, server: &Server) -> (r: bool)
        ensures
            r == self.text.spec_accept(server.name@),
    {
        self.text.accept(server.name.as_str())
    }

    fn filter_by_bookmark(&self, server: &Server, bookmarks: &Bookmarks) -> (r: bool)
        requires
            bookmarks.wf(),
        ensures
            r == (!self.bookmarked_only || bookmarks.servers().contains(server.ip_port.key_model())),
    {
        !self.bookmarked_only || bookmarks.is_bookmarked(&server.ip_port)
    }

    fn filter_by_ping(&self, server: &Server) -> (r: bool)
        ensures
            r == self.accepts_ping(server),
    {
        match &server.ping {
            PromisedValue::Ready(ping) => ping.as_millis() <= self.max_ping as u128,
            PromisedValue::Loading => true,
            PromisedValue::Absent => self.accept_ping_timeout,
        }
    }

    fn filter_by_game_mode(&self, server: &Server) -> (r: bool)
        requires
            self.wf(),
        ensures
            r == self.game_modes.spec_accept(server),
    {
        self.game_modes.accept(server)
    }

    fn filter_by_vac(&self, server: &Server) -> (r: bool)
        ensures
            r == (!self.vac_secured_only || server.vac_secured),
    {
        !self.vac_secured_only || server.vac_secured
    }

    fn filter_by_properties(&self, server: &Server) -> (r: bool)
        ensures
            r == self.accepts_properties(server),
    {
        (!self.with_all_talk_only || server.has_all_talk) && (!self.with_random_crits
            || server.has_random_crits) && (!self.with_rtd_only || server.has_rtd) && (
        !self.with_no_respawn_time_only || server.has_no_respawn_time) && (!self.exclude_password
            || !server.need_password)
    }
}

impl Default for Filter {
    /// Pings up to 50 ms and timeouts accepted, VAC required, nothing else required.
    fn default() -> (f: Filter)
        ensures
            f.wf(),
            !f.bookmarked_only,
            f.max_ping == 50,
            f.accept_ping_timeout,
            f.vac_secured_only,
            !f.with_rtd_only,
            !f.with_all_talk_only,
            !f.with_no_respawn_time_only,
            !f.with_random_crits,
            !f.exclude_password,
            !f.country.spec_enabled(),
            !f.game_modes.spec_enabled(),
            f.text.spec_text() == Seq::<char>::empty(),
    {
        Filter {
            text: TextFilter::default(),
            country: CountryFilter::default(),
            game_modes: GameModeFilter::default(),
            bookmarked_only: false,
            max_ping: 50,
            accept_ping_timeout: true,
            vac_secured_only: true,
            with_rtd_only: false,
            with_all_talk_only: false,
            with_no_respawn_time_only: false,
            with_random_crits: false,
            exclude_password: false,
        }
    }
}

} // verus!
