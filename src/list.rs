//! A package as the store holds it.
use vstd::prelude::*;

verus! {

/// The stored form of one package: the scalar fields of its entry, with the
/// lists of categories and description lines joined into single strings.
/// Fields that one domain does not record stay at their default.
#[derive(Clone, Debug, Default)]
pub struct PackageList {
    pub id: i64,
    pub repository_id: i64,
    pub automatic: bool,
    pub build_date: String,
    pub categories: String,
    pub comment: String,
    pub description: String,
    pub file_name: String,
    pub file_size: i64,
    pub homepage: String,
    pub license: String,
    pub opsys: String,
    pub os_version: String,
    pub pkg_options: String,
    pub pkgbase: String,
    pub pkgname: String,
    pub pkgpath: String,
    pub pkgtools_version: String,
    pub pkgversion: String,
    pub size_pkg: i64,
}


impl PackageList {
    pub fn id(&self) -> (r: &i64)
        ensures
            *r == self.id,
    {
        &self.id
    }

    pub fn repository_id(&self) -> (r: &i64)
        ensures
            *r == self.repository_id,
    {
        &self.repository_id
    }

    pub fn automatic(&self) -> (r: &bool)
        ensures
            *r == self.automatic,
    {
        &self.automatic
    }

    pub fn file_size(&self) -> (r: &i64)
        ensures
            *r == self.file_size,
    {
        &self.file_size
    }

    pub fn size_pkg(&self) -> (r: &i64)
        ensures
            *r == self.size_pkg,
    {
        &self.size_pkg
    }

    pub fn build_date(&self) -> (r: &String)
        ensures
            r@ == self.build_date@,
    {
        &self.build_date
    }

    pub fn categories(&self) -> (r: &String)
        ensures
            r@ == self.categories@,
    {
        &self.categories
    }

    pub fn comment(&self) -> (r: &String)
        ensures
            r@ == self.comment@,
    {
        &self.comment
    }

    pub fn description(&self) -> (r: &String)
        ensures
            r@ == self.description@,
    {
        &self.description
    }

    pub fn file_name(&self) -> (r: &String)
        ensures
            r@ == self.file_name@,
    {
        &self.file_name
    }

    pub fn homepage(&self) -> (r: &String)
        ensures
            r@ == self.homepage@,
    {
        &self.homepage
    }

    pub fn license(&self) -> (r: &String)
        ensures
            r@ == self.license@,
    {
        &self.license
    }

    pub fn opsys(&self) -> (r: &String)
        ensures
            r@ == self.opsys@,
    {
        &self.opsys
    }

    pub fn os_version(&self) -> (r: &String)
        ensures
            r@ == self.os_version@,
    {
        &self.os_version
    }

    pub fn pkg_options(&self) -> (r: &String)
        ensures
            r@ == self.pkg_options@,
    {
        &self.pkg_options
    }

    pub fn pkgbase(&self) -> (r: &String)
        ensures
            r@ == self.pkgbase@,
    {
        &self.pkgbase
    }

    pub fn pkgname(&self) -> (r: &String)
        ensures
            r@ == self.pkgname@,
    {
        &self.pkgname
    }

    pub fn pkgpath(&self) -> (r: &String)
        ensures
            r@ == self.pkgpath@,
    {
        &self.pkgpath
    }

    pub fn pkgtools_version(&self) -> (r: &String)
        ensures
            r@ == self.pkgtools_version@,
    {
        &self.pkgtools_version
    }

    pub fn pkgversion(&self) -> (r: &String)
        ensures
            r@ == self.pkgversion@,
    {
        &self.pkgversion
    }
}

} // verus!
