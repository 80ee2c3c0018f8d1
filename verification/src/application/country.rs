//! Countries, known by their ISO 3166-1 alpha-2 code.
use vstd::prelude::*;
use crate::keys::{text_codes, text_model};
use crate::ordered_map::OrderedKey;
use crate::text::copy_text;

verus! {

#[derive(Debug, Hash, Eq, PartialEq, PartialOrd, Ord)]
pub struct Country {
    code: String,
}

impl View for Country {
    type V = Seq<char>;

    /// The country code.
    closed spec fn view(&self) -> Seq<char> {
        self.code@
    }
}

impl Clone for Country {
    fn clone(&self) -> (r: Self)
        ensures
            r == *self,
    {
        Country { code: self.code.clone() }
    }
}

/// The English name that `iso_country` gives the code, when the code is one it knows.
pub uninterp spec fn iso_country_name(code: Seq<char>) -> Option<Seq<char>>;

/// Looks the code up with `iso_country::Country::from_str` and, when it is known,
/// takes `iso_country::Country::name` of it: the result is `iso_country_name` of
/// the code, a fixed table of the crate.
#[verifier::external_body]
fn lookup_country_name(code: &str) -> (r: Option<String>)
    ensures
        r is Some <==> iso_country_name(code@) is Some,
        r matches Some(name) ==> iso_country_name(code@) == Some(name@),
{
    match <iso_country::Country as std::str::FromStr>::from_str(code) {
        Ok(country) => Some(country.name().to_string()),
        Err(_) => None,
    }
}

/// The name shown for a country: the name found for its code, else the code itself.
pub open spec fn country_display_name(code: Seq<char>, found: Option<Seq<char>>) -> Seq<char> {
    match found {
        Some(name) => name,
        None => code,
    }
}

impl Country {
    pub fn new(code: &str) -> (c: Country)
        ensures
            c@ == code@,
    {
        Country { code: copy_text(code) }
    }

    pub fn code(&self) -> (c: &str)
        ensures
            c@ == self@,
    {
        self.code.as_str()
    }

    /// The name shown for this country given the result of the code lookup.
    pub fn name_from_lookup(&self, found: Option<String>) -> (name: String)
        ensures
            name@ == country_display_name(
                self@,
                match found {
                    Some(n) => Some(n@),
                    None => None,
                },
            ),
    {
        match found {
            Some(name) => name,
            None => self.code.clone(),
        }
    }

    /// The country's English name, or its code when the code is unknown.
    pub fn name(&self) -> (name: String)
        ensures
            name@ == country_display_name(self@, iso_country_name(self@)),
    {
        let found = lookup_country_name(self.code.as_str());
        self.name_from_lookup(found)
    }
}

impl OrderedKey for Country {
    open spec fn key_model(&self) -> Seq<u32> {
        text_model(self@)
    }

    fn key_code(&self) -> (r: Vec<u32>) {
        text_codes(self.code.as_str())
    }
}

} // verus!
