//! Map names.
use vstd::prelude::*;
use crate::keys::{text_codes, text_model};
use crate::ordered_map::OrderedKey;
use crate::text::copy_text;

verus! {

#[derive(Ord, PartialOrd, Eq, PartialEq, Hash, Debug)]
pub struct MapName(String);

impl View for MapName {
    type V = Seq<char>;

    closed spec fn view(&self) -> Seq<char> {
        self.0@
    }
}

impl Clone for MapName {
    fn clone(&self) -> (r: Self)
        ensures
            r == *self,
    {
        MapName(self.0.clone())
    }
}

impl Default for MapName {
    fn default() -> (r: Self)
        ensures
            r@ == Seq::<char>::empty(),
    {
        MapName(String::new())
    }
}

impl MapName {
    pub fn new(name: &str) -> (m: MapName)
        ensures
            m@ == name@,
    {
        MapName(copy_text(name))
    }

    pub fn as_str(&self) -> (s: &str)
        ensures
            s@ == self@,
    {
        self.0.as_str()
    }

    /// The name, as `Display` writes it.
    pub fn to_string(&self) -> (s: String)
        ensures
            s@ == self@,
    {
        self.0.clone()
    }
}

impl OrderedKey for MapName {
    open spec fn key_model(&self) -> Seq<u32> {
        text_model(self@)
    }

    fn key_code(&self) -> (r: Vec<u32>) {
        text_codes(self.0.as_str())
    }
}

impl OrderedKey for String {
    open spec fn key_model(&self) -> Seq<u32> {
        text_model(self@)
    }

    fn key_code(&self) -> (r: Vec<u32>) {
        text_codes(self.as_str())
    }
}

} // verus!
