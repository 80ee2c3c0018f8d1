//! Filtering servers by the map they run.
use vstd::prelude::*;
use crate::application::filter_dictionary::FilterDictionary;
use crate::application::map::MapName;

verus! {

pub struct MapFilter {
    pub dictionary: FilterDictionary<MapName>,
    pub enabled: bool,
    pub text: String,
}

impl MapFilter {
    pub open spec fn wf(&self) -> bool {
        self.dictionary.wf()
    }
}

impl Default for MapFilter {
    /// No map known, disabled, no text.
    fn default() -> (f: MapFilter)
        ensures
            f.wf(),
            f.dictionary.checks() == Map::<Seq<u32>, bool>::empty(),
            !f.enabled,
            f.text@ == Seq::<char>::empty(),
    {
        MapFilter { dictionary: FilterDictionary::new(), enabled: false, text: String::new() }
    }
}

} // verus!
