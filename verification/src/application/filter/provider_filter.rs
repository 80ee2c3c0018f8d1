//! Filtering servers by their provider.
use vstd::prelude::*;
use crate::application::filter_dictionary::FilterDictionary;
use crate::application::server::Server;
use crate::keys::text_model;

verus! {

pub struct ProviderFilter {
    pub enabled: bool,
    pub dictionary: FilterDictionary<String>,
}

impl ProviderFilter {
    pub open spec fn wf(&self) -> bool {
        self.dictionary.wf()
    }

    /// A disabled filter accepts every server; else its provider must be checked.
    pub open spec fn spec_accept(&self, server: &Server) -> bool {
        !self.enabled || self.dictionary.spec_is_checked(text_model(server.provider@))
    }

    pub fn accept(&self, server: &Server) -> (r: bool)
        requires
            self.wf(),
        ensures
            r == self.spec_accept(server),
    {
        if !self.enabled {
            return true;
        }
        self.dictionary.is_checked(&server.provider)
    }
}

impl Default for ProviderFilter {
    fn default() -> (f: ProviderFilter)
        ensures
            f.wf(),
            f.dictionary.checks() == Map::<Seq<u32>, bool>::empty(),
            !f.enabled,
    {
        ProviderFilter { enabled: false, dictionary: FilterDictionary::new() }
    }
}

} // verus!
