//! One line of a package listing.
use vstd::prelude::*;

verus! {

/// A package's identifier and one-line comment, as listed for a prefix.
#[derive(Debug)]
pub struct AvailablePackage {
    pub pkgname: String,
    pub comment: String,
}

impl AvailablePackage {
    pub fn pkgname(&self) -> (r: &String)
        ensures
            r@ == self.pkgname@,
    {
        &self.pkgname
    }

    pub fn comment(&self) -> (r: &String)
        ensures
            r@ == self.comment@,
    {
        &self.comment
    }
}

} // verus!
