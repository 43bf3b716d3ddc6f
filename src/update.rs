//! The decisions of a refresh: which documents to try, whether the store is
//! already fresh, and which write brings it up to date.  Fetching the
//! documents and reading file times is left to the caller.
use crate::config::Repository;
use crate::pmdb::{
    has_key, insert_result, key_index, local_inserted, local_updated, remote_inserted,
    remote_updated, store_wf, StoreError, StoreModel, PMDB,
};
use crate::summary::{entry_views, strs, SummaryEntry};
use vstd::prelude::*;
use vstd::string::*;

verus! {

/// The document suffixes to try, in order: the configured one alone, or
/// else the default order, best compression first.
pub open spec fn summary_extensions(configured: Option<Seq<char>>) -> Seq<Seq<char>> {
    match configured {
        Some(e) => seq![e],
        None => seq!["xz"@, "bz2"@, "gz"@],
    }
}

pub fn get_summary_extensions(repo: &Repository) -> (r: Vec<String>)
    ensures
        strs(r@) == summary_extensions(repo@.summary_extension),
{
    let mut r: Vec<String> = Vec::new();
    match repo.summary_extension() {
        Some(e) => {
            r.push(e.clone());
        },
        None => {
            r.push(String::from_str("xz"));
            r.push(String::from_str("bz2"));
            r.push(String::from_str("gz"));
        },
    }
    assert(strs(r@) =~= summary_extensions(repo@.summary_extension));
    r
}

/// What a refresh of one target has to do.
#[derive(Clone, Copy, Debug, PartialEq, Eq, Structural)]
pub enum RefreshAction {
    /// The stored token equals the observed one: nothing is written.
    UpToDate,
    /// The target is not in the store yet.
    Insert,
    /// The target is stored with another token: its packages are replaced.
    Replace,
}

pub open spec fn local_action(s: StoreModel, prefix: Seq<char>, mtime: i64, ntime: i32) -> RefreshAction {
    if !has_key(s.local, prefix) {
        RefreshAction::Insert
    } else if s.local[key_index(s.local, prefix)].mtime == mtime && s.local[key_index(
        s.local,
        prefix,
    )].ntime == ntime {
        RefreshAction::UpToDate
    } else {
        RefreshAction::Replace
    }
}

pub open spec fn remote_action(s: StoreModel, url: Seq<char>, mtime: i64, suffix: Seq<char>) -> RefreshAction {
    if !has_key(s.remote, url) {
        RefreshAction::Insert
    } else if s.remote[key_index(s.remote, url)].mtime == mtime && s.remote[key_index(
        s.remote,
        url,
    )].suffix == suffix {
        RefreshAction::UpToDate
    } else {
        RefreshAction::Replace
    }
}

/// Compares the token observed for a local installation with the stored one.
pub fn local_refresh_action(db: &PMDB, prefix: &str, mtime: i64, ntime: i32) -> (r: RefreshAction)
    requires
        store_wf(db@),
    ensures
        r == local_action(db@, prefix@, mtime, ntime),
{
    match db.get_local_repository(prefix) {
        Some(repo) => if repo.up_to_date(mtime, ntime) {
            RefreshAction::UpToDate
        } else {
            RefreshAction::Replace
        },
        None => RefreshAction::Insert,
    }
}

/// Compares the token observed for a remote document with the stored one.
pub fn remote_refresh_action(db: &PMDB, url: &str, mtime: i64, summary_suffix: &str) -> (r:
    RefreshAction)
    requires
        store_wf(db@),
    ensures
        r == remote_action(db@, url@, mtime, summary_suffix@),
{
    match db.get_remote_repository(url) {
        Some(repo) => if repo.up_to_date(mtime, summary_suffix) {
            RefreshAction::UpToDate
        } else {
            RefreshAction::Replace
        },
        None => RefreshAction::Insert,
    }
}

/// Brings the local installation under `prefix` up to date with the
/// entries read from it.
pub fn record_local(
    db: &mut PMDB,
    action: RefreshAction,
    prefix: &str,
    mtime: i64,
    ntime: i32,
    pkgs: &[SummaryEntry],
) -> (r: Result<(), StoreError>)
    requires
        store_wf(old(db)@),
    ensures
        store_wf(final(db)@),
        action == RefreshAction::UpToDate ==> r is Ok && final(db)@ == old(db)@,
        action == RefreshAction::Insert ==> r == insert_result(
            old(db)@.local,
            prefix@,
            old(db)@.next_id,
        ) && final(db)@ == local_inserted(old(db)@, prefix@, mtime, ntime, entry_views(pkgs@)),
        action == RefreshAction::Replace ==> (r is Ok <==> has_key(old(db)@.local, prefix@))
            && final(db)@ == local_updated(old(db)@, prefix@, mtime, ntime, entry_views(pkgs@)),
{
    match action {
        RefreshAction::UpToDate => Ok(()),
        RefreshAction::Insert => db.insert_local_repository(prefix, mtime, ntime, pkgs),
        RefreshAction::Replace => db.update_local_repository(prefix, mtime, ntime, pkgs),
    }
}

/// Brings the remote repository at `url`, serving `prefix`, up to date with
/// the entries of its document.
pub fn record_remote(
    db: &mut PMDB,
    action: RefreshAction,
    url: &str,
    prefix: &str,
    mtime: i64,
    summary_suffix: &str,
    pkgs: &[SummaryEntry],
) -> (r: Result<(), StoreError>)
    requires
        store_wf(old(db)@),
    ensures
        store_wf(final(db)@),
        action == RefreshAction::UpToDate ==> r is Ok && final(db)@ == old(db)@,
        action == RefreshAction::Insert ==> r == insert_result(
            old(db)@.remote,
            url@,
            old(db)@.next_id,
        ) && final(db)@ == remote_inserted(
            old(db)@,
            url@,
            prefix@,
            mtime,
            summary_suffix@,
            entry_views(pkgs@),
        ),
        action == RefreshAction::Replace ==> (r is Ok <==> has_key(old(db)@.remote, url@))
            && final(db)@ == remote_updated(
            old(db)@,
            url@,
            mtime,
            summary_suffix@,
            entry_views(pkgs@),
        ),
{
    match action {
        RefreshAction::UpToDate => Ok(()),
        RefreshAction::Insert => db.insert_remote_repository(
            url,
            prefix,
            mtime,
            summary_suffix,
            pkgs,
        ),
        RefreshAction::Replace => db.update_remote_repository(url, mtime, summary_suffix, pkgs),
    }
}

/// When the token observed for a local installation equals the stored one,
/// the refresh writes nothing: the action is `UpToDate`, and recording it
/// leaves the store as it was.
pub proof fn lemma_local_fresh_token_writes_nothing(
    s: StoreModel,
    prefix: Seq<char>,
    mtime: i64,
    ntime: i32,
)
    requires
        store_wf(s),
        has_key(s.local, prefix),
        s.local[key_index(s.local, prefix)].mtime == mtime,
        s.local[key_index(s.local, prefix)].ntime == ntime,
    ensures
        local_action(s, prefix, mtime, ntime) == RefreshAction::UpToDate,
{
}

/// When the token observed for a remote document equals the stored one, the
/// refresh writes nothing: the action is `UpToDate`.
pub proof fn lemma_remote_fresh_token_writes_nothing(
    s: StoreModel,
    url: Seq<char>,
    mtime: i64,
    suffix: Seq<char>,
)
    requires
        store_wf(s),
        has_key(s.remote, url),
        s.remote[key_index(s.remote, url)].mtime == mtime,
        s.remote[key_index(s.remote, url)].suffix == suffix,
    ensures
        remote_action(s, url, mtime, suffix) == RefreshAction::UpToDate,
{
}

/// What a remote document offers, judged from its response.
#[derive(Clone, Copy, Debug, PartialEq, Eq, Structural)]
pub enum Candidate {
    /// Not retrievable, or without a Last-Modified time: try the next suffix.
    Skip,
    /// Retrievable, last modified at this many seconds after the epoch.
    Use(i64),
    /// The Last-Modified time is malformed: the target fails.
    Fail,
}

/// Seconds after the Unix epoch of an HTTP date, when it is one.
pub uninterp spec fn http_date_seconds(s: Seq<char>) -> Option<u64>;

/// Relies on `httpdate::parse_http_date`: the time it reads from the text
/// depends on the text alone.
#[verifier::external_body]
fn parse_last_modified(s: &str) -> (r: Option<u64>)
    ensures
        r == http_date_seconds(s@),
{
    match httpdate::parse_http_date(s) {
        Ok(t) => t.duration_since(std::time::UNIX_EPOCH).ok().map(|d| d.as_secs()),
        Err(_) => None,
    }
}

/// A response: whether it succeeded, and its Last-Modified time as read
/// (outer `None`: no such header; inner `None`: not a date).
pub open spec fn candidate_of(success: bool, stamp: Option<Option<u64>>) -> Candidate {
    if !success {
        Candidate::Skip
    } else {
        match stamp {
            None => Candidate::Skip,
            Some(None) => Candidate::Fail,
            Some(Some(t)) => if t <= i64::MAX as u64 {
                Candidate::Use(t as i64)
            } else {
                Candidate::Fail
            },
        }
    }
}

pub fn judge_candidate(success: bool, stamp: Option<Option<u64>>) -> (r: Candidate)
    ensures
        r == candidate_of(success, stamp),
{
    if !success {
        return Candidate::Skip;
    }
    match stamp {
        None => Candidate::Skip,
        Some(None) => Candidate::Fail,
        Some(Some(t)) => if t <= i64::MAX as u64 {
            Candidate::Use(t as i64)
        } else {
            Candidate::Fail
        },
    }
}

/// Judges a response from its success and its Last-Modified header.
pub fn check_candidate(success: bool, last_modified: Option<&str>) -> (r: Candidate)
    ensures
        r == candidate_of(
            success,
            match last_modified {
                Some(h) => Some(http_date_seconds(h@)),
                None => None,
            },
        ),
{
    if !success {
        return Candidate::Skip;
    }
    let stamp = match last_modified {
        Some(h) => Some(parse_last_modified(h)),
        None => None,
    };
    judge_candidate(success, stamp)
}

/// The marker file whose presence says a package was installed
/// automatically: `<pkgdb>/<pkgname>/+INSTALLED_INFO`.
pub fn installed_info_path(pkgdb: &str, pkgname: &str) -> (r: String)
    ensures
        r@ == pkgdb@ + "/"@ + pkgname@ + "/+INSTALLED_INFO"@,
{
    let mut r = String::from_str(pkgdb);
    r.append("/");
    r.append(pkgname);
    r.append("/+INSTALLED_INFO");
    r
}

} // verus!
