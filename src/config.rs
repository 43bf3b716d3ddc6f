//! Resolved configuration: the prefixes to manage and the repositories that
//! serve each of them.
use crate::summary::{opt_str, or_empty};
use vstd::prelude::*;
use vstd::string::*;

verus! {

pub struct RepositoryView {
    pub url: Seq<char>,
    pub name: Option<Seq<char>>,
    pub summary_extension: Option<Seq<char>>,
}

/// A remote repository, with the document suffix to use if one is fixed.
#[derive(Clone, Debug)]
pub struct Repository {
    url: String,
    name: Option<String>,
    summary_extension: Option<String>,
}

impl View for Repository {
    type V = RepositoryView;

    closed spec fn view(&self) -> RepositoryView {
        RepositoryView {
            url: self.url@,
            name: opt_str(self.name),
            summary_extension: opt_str(self.summary_extension),
        }
    }
}

impl Repository {
    pub fn new(url: String, name: Option<String>, summary_extension: Option<String>) -> (r:
        Repository)
        ensures
            r@ == (RepositoryView {
                url: url@,
                name: opt_str(name),
                summary_extension: opt_str(summary_extension),
            }),
    {
        Repository { url, name, summary_extension }
    }

    pub fn url(&self) -> (r: &String)
        ensures
            r@ == self@.url,
    {
        &self.url
    }

    pub fn summary_extension(&self) -> (r: &Option<String>)
        ensures
            opt_str(*r) == self@.summary_extension,
    {
        &self.summary_extension
    }
}

pub open spec fn repository_views(v: Seq<Repository>) -> Seq<RepositoryView> {
    v.map_values(|r: Repository| r@)
}

pub struct PrefixView {
    pub path: Seq<char>,
    pub pkg_admin: Option<Seq<char>>,
    pub pkg_info: Option<Seq<char>>,
    pub pkgdb: Option<Seq<char>>,
    pub repositories: Option<Seq<RepositoryView>>,
}

/// One installation root, with the tools that manage it and the
/// repositories that serve it.
#[derive(Clone, Debug)]
pub struct Prefix {
    path: String,
    pkg_admin: Option<String>,
    pkg_info: Option<String>,
    pkgdb: Option<String>,
    repository: Option<Vec<Repository>>,
}

impl View for Prefix {
    type V = PrefixView;

    closed spec fn view(&self) -> PrefixView {
        PrefixView {
            path: self.path@,
            pkg_admin: opt_str(self.pkg_admin),
            pkg_info: opt_str(self.pkg_info),
            pkgdb: opt_str(self.pkgdb),
            repositories: match self.repository {
                Some(v) => Some(repository_views(v@)),
                None => None,
            },
        }
    }
}

impl Prefix {
    pub fn new(
        path: String,
        pkg_admin: Option<String>,
        pkg_info: Option<String>,
        pkgdb: Option<String>,
        repository: Option<Vec<Repository>>,
    ) -> (r: Prefix)
        ensures
            r@ == (PrefixView {
                path: path@,
                pkg_admin: opt_str(pkg_admin),
                pkg_info: opt_str(pkg_info),
                pkgdb: opt_str(pkgdb),
                repositories: match repository {
                    Some(v) => Some(repository_views(v@)),
                    None => None,
                },
            }),
    {
        Prefix { path, pkg_admin, pkg_info, pkgdb, repository }
    }

    pub fn path(&self) -> (r: &str)
        ensures
            r@ == self@.path,
    {
        self.path.as_str()
    }

    /// The pkg_admin tool; empty until it is set.
    pub fn pkg_admin(&self) -> (r: &str)
        ensures
            r@ == or_empty(self@.pkg_admin),
    {
        match &self.pkg_admin {
            Some(s) => s.as_str(),
            None => {
                proof {
                    reveal_strlit("");
                }
                ""
            },
        }
    }

    /// The pkg_info tool; empty until it is set.
    pub fn pkg_info(&self) -> (r: &str)
        ensures
            r@ == or_empty(self@.pkg_info),
    {
        match &self.pkg_info {
            Some(s) => s.as_str(),
            None => {
                proof {
                    reveal_strlit("");
                }
                ""
            },
        }
    }

    /// The installed-package database directory; empty until it is set.
    pub fn pkgdb(&self) -> (r: &str)
        ensures
            r@ == or_empty(self@.pkgdb),
    {
        match &self.pkgdb {
            Some(s) => s.as_str(),
            None => {
                proof {
                    reveal_strlit("");
                }
                ""
            },
        }
    }

    pub fn repositories(&self) -> (r: &Option<Vec<Repository>>)
        ensures
            r is Some <==> self@.repositories is Some,
            r is Some ==> repository_views(r->Some_0@) == self@.repositories->Some_0,
    {
        &self.repository
    }

    /// Gives tools that were not configured their place under the prefix:
    /// `<path>/sbin/pkg_admin` and `<path>/sbin/pkg_info`.
    pub fn fill_tool_paths(&mut self)
        ensures
            final(self)@ == (PrefixView {
                pkg_admin: Some(
                    match old(self)@.pkg_admin {
                        Some(p) => p,
                        None => old(self)@.path + "/sbin/pkg_admin"@,
                    },
                ),
                pkg_info: Some(
                    match old(self)@.pkg_info {
                        Some(p) => p,
                        None => old(self)@.path + "/sbin/pkg_info"@,
                    },
                ),
                ..old(self)@
            }),
    {
        if self.pkg_admin.is_none() {
            let mut p = self.path.clone();
            p.append("/sbin/pkg_admin");
            self.pkg_admin = Some(p);
        }
        if self.pkg_info.is_none() {
            let mut p = self.path.clone();
            p.append("/sbin/pkg_info");
            self.pkg_info = Some(p);
        }
    }

    /// Records the installed-package database directory.
    pub fn set_pkgdb(&mut self, pkgdb: String)
        ensures
            final(self)@ == (PrefixView { pkgdb: Some(pkgdb@), ..old(self)@ }),
    {
        self.pkgdb = Some(pkgdb);
    }
}

/// The resolved configuration.
#[derive(Debug)]
pub struct Config {
    prefix: String,
    prefixes: Vec<Prefix>,
    verbose: bool,
}

pub open spec fn prefix_views(v: Seq<Prefix>) -> Seq<PrefixView> {
    v.map_values(|p: Prefix| p@)
}

impl View for Config {
    type V = (Seq<char>, Seq<PrefixView>, bool);

    closed spec fn view(&self) -> (Seq<char>, Seq<PrefixView>, bool) {
        (self.prefix@, prefix_views(self.prefixes@), self.verbose)
    }
}

/// The prefix that commands act on: the one given on the command line, else
/// the configured default, else the first configured prefix, else none.
pub open spec fn default_prefix(
    given: Option<Seq<char>>,
    configured: Option<Seq<char>>,
    first: Option<Seq<char>>,
) -> Seq<char> {
    match given {
        Some(p) => p,
        None => match configured {
            Some(p) => p,
            None => or_empty(first),
        },
    }
}

impl Config {
    /// A configuration over the usable prefixes; the default prefix is
    /// resolved as `default_prefix` says.
    pub fn new(
        given: Option<String>,
        configured: Option<String>,
        first: Option<String>,
        prefixes: Vec<Prefix>,
        verbose: bool,
    ) -> (r: Config)
        ensures
            r@ == (
                default_prefix(opt_str(given), opt_str(configured), opt_str(first)),
                prefix_views(prefixes@),
                verbose,
            ),
    {
        let prefix = match given {
            Some(p) => p,
            None => match configured {
                Some(p) => p,
                None => match first {
                    Some(p) => p,
                    None => String::new(),
                },
            },
        };
        Config { prefix, prefixes, verbose }
    }

    pub fn prefix(&self) -> (r: &str)
        ensures
            r@ == self@.0,
    {
        self.prefix.as_str()
    }

    pub fn prefixes(&self) -> (r: &Vec<Prefix>)
        ensures
            prefix_views(r@) == self@.1,
    {
        &self.prefixes
    }

    pub fn verbose(&self) -> (r: bool)
        ensures
            r == self@.2,
    {
        self.verbose
    }
}

} // verus!
