//! A value that may be known, still awaited, or missing.
use vstd::prelude::*;

verus! {

#[derive(Debug, Hash, Clone, Eq, PartialEq)]
pub enum PromisedValue<T> {
    Ready(T),
    Loading,
    Absent,
}

impl<T> PromisedValue<T> {
    pub fn is_none(&self) -> (r: bool)
        ensures
            r == (*self is Absent),
    {
        matches!(self, PromisedValue::Absent)
    }

    pub fn is_ready(&self) -> (r: bool)
        ensures
            r == (*self is Ready),
    {
        matches!(self, PromisedValue::Ready(_))
    }

    pub fn get(&self) -> (r: Option<&T>)
        ensures
            match *self {
                PromisedValue::Ready(v) => r == Some(&v),
                _ => r is None,
            },
    {
        match self {
            PromisedValue::Ready(value) => Some(value),
            _ => None,
        }
    }

    /// `Ready` of a known value, `None` of a missing one.
    pub fn from_option(value: Option<T>) -> (r: PromisedValue<T>)
        ensures
            match value {
                Some(v) => r == PromisedValue::Ready(v),
                None => r is Absent,
            },
    {
        match value {
            Some(value) => PromisedValue::Ready(value),
            None => PromisedValue::Absent,
        }
    }
}

impl<T> Default for PromisedValue<T> {
    fn default() -> (r: Self)
        ensures
            r is Absent,
    {
        PromisedValue::Absent
    }
}

} // verus!
