//! Filtering servers by the country they are located in.
use vstd::prelude::*;
use crate::application::country::Country;
use crate::application::filter_dictionary::FilterDictionary;
use crate::application::promised_value::PromisedValue;
use crate::ordered_map::OrderedKey;

verus! {

pub struct CountryFilter {
    pub dictionary: FilterDictionary<Country>,
    pub no_countries: bool,
    pub enabled: bool,
}

impl CountryFilter {
    pub open spec fn wf(&self) -> bool {
        self.dictionary.wf()
    }

    /// A disabled filter accepts every server; a server whose country is still
    /// being located is accepted; one without a country is accepted when
    /// `no_countries` is set; else its country must be checked.
    pub open spec fn spec_accept(&self, country: PromisedValue<Country>) -> bool {
        if !self.enabled {
            true
        } else {
            match country {
                PromisedValue::Ready(c) => self.dictionary.spec_is_checked(c.key_model()),
                PromisedValue::Loading => true,
                PromisedValue::Absent => self.no_countries,
            }
        }
    }

    pub fn accept(&self, country: &PromisedValue<Country>) -> (r: bool)
        requires
            self.wf(),
        ensures
            r == self.spec_accept(*country),
    {
        if !self.enabled {
            return true;
        }
        match country {
            PromisedValue::Ready(country) => self.dictionary.is_checked(country),
            PromisedValue::Loading => true,
            PromisedValue::Absent => self.no_countries,
        }
    }
}

impl Default for CountryFilter {
    /// No country known, servers without a country accepted, disabled.
    fn default() -> (f: CountryFilter)
        ensures
            f.wf(),
            f.dictionary.checks() == Map::<Seq<u32>, bool>::empty(),
            f.no_countries,
            !f.enabled,
    {
        CountryFilter { dictionary: FilterDictionary::new(), no_countries: true, enabled: false }
    }
}

} // verus!
