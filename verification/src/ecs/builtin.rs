use vstd::prelude::*;

use super::entity::Entity;

verus! {

/// An optional human-readable name attached to an important entity.
#[derive(Debug, PartialEq, Eq, Hash)]
pub struct Name(String);

impl Name {
    pub closed spec fn spec_text(&self) -> Seq<char> {
        self.0@
    }

    pub fn new(name: &str) -> (r: Self)
        ensures
            r.spec_text() == name@,
    {
        Name(name.to_owned())
    }

    pub fn as_str(&self) -> (r: &str)
        ensures
            r@ == self.spec_text(),
    {
        self.0.as_str()
    }

    /// Whether this name is exactly `other`.
    pub fn matches(&self, other: &String) -> (r: bool)
        ensures
            r == (self.spec_text() == other@),
    {
        self.0 == *other
    }
}

impl Clone for Name {
    fn clone(&self) -> (r: Self)
        ensures
            r.spec_text() == self.spec_text(),
    {
        Name(self.0.clone())
    }
}

/// Failure to resolve exactly one entity by name.
#[derive(Clone, Debug, PartialEq, Eq)]
pub enum FindNameError {
    NotFound(String),
    Ambiguous { name: String, matches: Vec<Entity> },
}

} // verus!
