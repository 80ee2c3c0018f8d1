//! The whole filter of the servers list, with its sort order.
use vstd::prelude::*;
use crate::application::filter::text_filter::lemma_empty_text_accepts;
use crate::application::bookmarks::Bookmarks;
use crate::application::filter::country_filter::CountryFilter;
use crate::application::filter::game_mode_filter::GameModeFilter;
use crate::application::filter::map_filter::MapFilter;
use crate::application::filter::ping_filter::PingFilter;
use crate::application::filter::player_filter::PlayerFilter;
use crate::application::filter::properties_filter::{PropertyFilterSwitch, switch_accepts};
use crate::application::filter::provider_filter::ProviderFilter;
use crate::application::filter::sort_servers::{SortCriterion, SortDirection};
use crate::application::filter::text_filter::TextFilter;
use crate::application::server::Server;
use crate::ordered_map::OrderedKey;

verus! {

fn has_all_talk(s: &Server) -> (b: bool)
    ensures
        b == s.has_all_talk,
{
    s.has_all_talk
}

fn is_vac_secured(s: &Server) -> (b: bool)
    ensures
        b == s.vac_secured,
{
    s.vac_secured
}

fn has_rtd(s: &Server) -> (b: bool)
    ensures
        b == s.has_rtd,
{
    s.has_rtd
}

fn has_no_respawn_time(s: &Server) -> (b: bool)
    ensures
        b == s.has_no_respawn_time,
{
    s.has_no_respawn_time
}

fn needs_password(s: &Server) -> (b: bool)
    ensures
        b == s.need_password,
{
    s.need_password
}

fn has_random_crits(s: &Server) -> (b: bool)
    ensures
        b == s.has_random_crits,
{
    s.has_random_crits
}

pub struct Filter {
    pub text: TextFilter,
    pub country: CountryFilter,
    pub game_modes: GameModeFilter,
    pub players: PlayerFilter,
    pub maps: MapFilter,
    pub providers: ProviderFilter,
    pub bookmarked_only: bool,
    pub ping: PingFilter,
    pub vac_secured: PropertyFilterSwitch,
    pub rtd: PropertyFilterSwitch,
    pub all_talk: PropertyFilterSwitch,
    pub no_respawn_time: PropertyFilterSwitch,
    pub random_crits: PropertyFilterSwitch,
    pub password: PropertyFilterSwitch,
    pub sort_criterion: SortCriterion,
    pub sort_direction: SortDirection,
}

impl Filter {
    pub open spec fn wf(&self) -> bool {
        &&& self.country.wf()
        &&& self.game_modes.wf()
        &&& self.maps.wf()
        &&& self.providers.wf()
    }

    pub open spec fn accepts_bookmark(&self, server: &Server, bookmarks: &Bookmarks) -> bool {
        !self.bookmarked_only || bookmarks.servers().contains(server.ip_port.key_model())
    }

    pub open spec fn accepts_properties(&self, server: &Server) -> bool {
        &&& switch_accepts(self.all_talk, server.has_all_talk)
        &&& switch_accepts(self.vac_secured, server.vac_secured)
        &&& switch_accepts(self.rtd, server.has_rtd)
        &&& switch_accepts(self.no_respawn_time, server.has_no_respawn_time)
        &&& switch_accepts(self.password, server.need_password)
        &&& switch_accepts(self.random_crits, server.has_random_crits)
    }

    pub open spec fn accepts_map(&self, server: &Server) -> bool {
        !self.maps.enabled || self.maps.dictionary.spec_is_checked(server.map.key_model())
    }

    /// A server is shown when every criterion accepts it.
    pub open spec fn spec_accept(&self, server: &Server, bookmarks: &Bookmarks) -> bool {
        &&& self.accepts_bookmark(server, bookmarks)
        &&& self.text.spec_accept(server.name@)
        &&& self.players.spec_accept(server)
        &&& self.country.spec_accept(server.country)
        &&& self.ping.spec_accept(server)
        &&& self.game_modes.spec_accept(server)
        &&& self.accepts_properties(server)
        &&& self.accepts_map(server)
        &&& self.providers.spec_accept(server)
    }

    pub fn accept(&self, server: &Server, bookmarks: &Bookmarks) -> (r: bool)
        requires
            self.wf(),
            bookmarks.wf(),
        ensures
            r == self.spec_accept(server, bookmarks),
    {
        self.filter_by_bookmark(server, bookmarks) && self.filter_by_text(server)
            && self.filter_by_player(server) && self.filter_by_countries(server)
            && self.filter_by_ping(server) && self.filter_by_game_mode(server)
            && self.filter_by_properties(server) && self.filter_by_maps(server)
            && self.filter_by_providers(server)
    }

    fn filter_by_countries(&self, server: &Server) -> (r: bool)
        requires
            self.wf(),
        ensures
            r == self.country.spec_accept(server.country),
    {
        self.country.accept(&server.country)
    }

    fn filter_by_text(&self, server: &Server) -> (r: bool)
        ensures
            r == self.text.spec_accept(server.name@),
    {
        self.text.accept(server.name.as_str())
    }

    fn filter_by_bookmark(&self, server: &Server, bookmarks: &Bookmarks) -> (r: bool)
        requires
            bookmarks.wf(),
        ensures
            r == self.accepts_bookmark(server, bookmarks),
    {
        !self.bookmarked_only || bookmarks.is_bookmarked(&server.ip_port)
    }

    fn filter_by_ping(&self, server: &Server) -> (r: bool)
        ensures
            r == self.ping.spec_accept(server),
    {
        self.ping.accept(server)
    }

    fn filter_by_game_mode(&self, server: &Server) -> (r: bool)
        requires
            self.wf(),
        ensures
            r == self.game_modes.spec_accept(server),
    {
        self.game_modes.accept(server)
    }

    fn filter_by_properties(&self, server: &Server) -> (r: bool)
        ensures
            r == self.accepts_properties(server),
    {
        let all_talk = self.all_talk.accept(has_all_talk, server);
        let vac = self.vac_secured.accept(is_vac_secured, server);
        let rtd = self.rtd.accept(has_rtd, server);
        let no_respawn = self.no_respawn_time.accept(has_no_respawn_time, server);
        let password = self.password.accept(needs_password, server);
        let random_crits = self.random_crits.accept(has_random_crits, server);
        all_talk && vac && rtd && no_respawn && password && random_crits
    }

    fn filter_by_player(&self, server: &Server) -> (r: bool)
        ensures
            r == self.players.spec_accept(server),
    {
        self.players.accept(server)
    }

    fn filter_by_maps(&self, server: &Server) -> (r: bool)
        requires
            self.wf(),
        ensures
            r == self.accepts_map(server),
    {
        if !self.maps.enabled {
            return true;
        }
        self.maps.dictionary.is_checked(&server.map)
    }

    fn filter_by_providers(&self, server: &Server) -> (r: bool)
        requires
            self.wf(),
        ensures
            r == self.providers.spec_accept(server),
    {
        self.providers.accept(server)
    }
}

impl Default for Filter {
    /// Every criterion off but VAC, which is required; sorted by address, ascending.
    fn default() -> (f: Filter)
        ensures
            f.wf(),
            !f.bookmarked_only,
            !f.country.enabled,
            !f.game_modes.enabled,
            !f.players.enabled,
            !f.maps.enabled,
            !f.providers.enabled,
            !f.ping.enabled,
            f.text.spec_text() == Seq::<char>::empty(),
            f.vac_secured == PropertyFilterSwitch::With,
            f.rtd == PropertyFilterSwitch::Ignore,
            f.all_talk == PropertyFilterSwitch::Ignore,
            f.no_respawn_time == PropertyFilterSwitch::Ignore,
            f.random_crits == PropertyFilterSwitch::Ignore,
            f.password == PropertyFilterSwitch::Ignore,
            f.sort_criterion == SortCriterion::Ip,
            f.sort_direction == SortDirection::Ascending,
    {
        Filter {
            text: TextFilter::default(),
            country: CountryFilter::default(),
            game_modes: GameModeFilter::default(),
            players: PlayerFilter::default(),
            maps: MapFilter::default(),
            providers: ProviderFilter::default(),
            bookmarked_only: false,
            ping: PingFilter::default(),
            vac_secured: PropertyFilterSwitch::With,
            rtd: PropertyFilterSwitch::Ignore,
            all_talk: PropertyFilterSwitch::Ignore,
            no_respawn_time: PropertyFilterSwitch::Ignore,
            random_crits: PropertyFilterSwitch::Ignore,
            password: PropertyFilterSwitch::Ignore,
            sort_criterion: SortCriterion::Ip,
            sort_direction: SortDirection::Ascending,
        }
    }
}


/// With every criterion off, no text, and every property switch ignored but
/// VAC's (as the default filter has it), a server is shown exactly when the
/// VAC switch lets it through.
pub proof fn lemma_criteria_off(filter: Filter, server: Server, bookmarks: Bookmarks)
    requires
        !filter.bookmarked_only,
        !filter.country.enabled,
        !filter.game_modes.enabled,
        !filter.players.enabled,
        !filter.maps.enabled,
        !filter.providers.enabled,
        !filter.ping.enabled,
        filter.text.spec_text().len() == 0,
        filter.rtd == PropertyFilterSwitch::Ignore,
        filter.all_talk == PropertyFilterSwitch::Ignore,
        filter.no_respawn_time == PropertyFilterSwitch::Ignore,
        filter.random_crits == PropertyFilterSwitch::Ignore,
        filter.password == PropertyFilterSwitch::Ignore,
    ensures
        filter.spec_accept(&server, &bookmarks) == switch_accepts(filter.vac_secured, server.vac_secured),
{
    lemma_empty_text_accepts(filter.text, server.name@);
}

} // verus!
