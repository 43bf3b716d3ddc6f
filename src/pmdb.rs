//! The metadata store.  Two independent domains, local installations keyed
//! by prefix and remote repositories keyed by URL, each repository owning
//! the rows of its packages.  Every write either succeeds whole or leaves
//! the store as it was.
use crate::avail::AvailablePackage;
use crate::list::PackageList;
use crate::summary::{
    entry_views, lemma_entry_views_push, lemma_strs_push, or_empty, str_eq, strs, EntryView,
    SummaryEntry,
};
use vstd::prelude::*;
use vstd::string::*;

verus! {

/// The schema generation this library writes.
pub const DB_VERSION: i64 = 20191101;

/// What opening a store must do with the schema it finds.
#[derive(Clone, Copy, Debug, PartialEq, Eq, Structural)]
pub enum SchemaAction {
    /// No schema yet: create it.
    Create,
    /// The schema is current: use it as it is.
    Keep,
    /// Another generation: drop everything and create it anew.
    Recreate,
}

/// Decides from the stored version stamp, if any, how to open the store.
pub fn schema_action(stored: Option<i64>) -> (r: SchemaAction)
    ensures
        r == match stored {
            None => SchemaAction::Create,
            Some(v) => if v == DB_VERSION {
                SchemaAction::Keep
            } else {
                SchemaAction::Recreate
            },
        },
{
    match stored {
        None => SchemaAction::Create,
        Some(v) => if v == DB_VERSION {
            SchemaAction::Keep
        } else {
            SchemaAction::Recreate
        },
    }
}

/// Why a write to the store was refused.  A refused write changes nothing.
#[derive(Clone, Copy, Debug, PartialEq, Eq, Structural)]
pub enum StoreError {
    /// Insert of a key that the domain already holds.
    DuplicateKey,
    /// Replace of a key that the domain does not hold.
    NotFound,
    /// No repository identifier is left to hand out.
    IdsExhausted,
}

/// The parts joined, with `sep` between each two.
pub open spec fn join(parts: Seq<Seq<char>>, sep: Seq<char>) -> Seq<char>
    decreases parts.len(),
{
    if parts.len() == 0 {
        Seq::empty()
    } else if parts.len() == 1 {
        parts[0]
    } else {
        join(parts.drop_last(), sep) + sep + parts.last()
    }
}

fn join_strings(parts: &Vec<String>, sep: &str) -> (r: String)
    ensures
        r@ == join(strs(parts@), sep@),
{
    let mut r = String::new();
    let mut i: usize = 0;
    assert(strs(parts@).subrange(0, 0) =~= Seq::<Seq<char>>::empty());
    while i < parts.len()
        invariant
            0 <= i <= parts@.len(),
            r@ == join(strs(parts@).subrange(0, i as int), sep@),
        decreases parts@.len() - i,
    {
        let ghost before = r@;
        if i > 0 {
            r.append(sep);
        }
        r.append(parts[i].as_str());
        proof {
            let s = strs(parts@).subrange(0, i + 1);
            assert(s.drop_last() =~= strs(parts@).subrange(0, i as int));
            if i == 0 {
                assert(r@ =~= s[0]);
            } else {
                assert(r@ =~= before + sep@ + s.last());
            }
        }
        i += 1;
    }
    assert(strs(parts@).subrange(0, parts@.len() as int) =~= strs(parts@));
    r
}

/// One stored package, as plain values.
pub struct RowView {
    pub automatic: bool,
    pub build_date: Seq<char>,
    pub categories: Seq<char>,
    pub comment: Seq<char>,
    pub description: Seq<char>,
    pub file_size: i64,
    pub homepage: Seq<char>,
    pub license: Seq<char>,
    pub opsys: Seq<char>,
    pub os_version: Seq<char>,
    pub pkg_options: Seq<char>,
    pub pkgbase: Seq<char>,
    pub pkgname: Seq<char>,
    pub pkgpath: Seq<char>,
    pub pkgtools_version: Seq<char>,
    pub pkgversion: Seq<char>,
    pub size_pkg: i64,
    pub conflicts: Seq<Seq<char>>,
    pub depends: Seq<Seq<char>>,
    pub provides: Seq<Seq<char>>,
    pub requirements: Seq<Seq<char>>,
}

pub open spec fn or_zero(o: Option<i64>) -> i64 {
    match o {
        Some(v) => v,
        None => 0,
    }
}

/// The row stored for an entry.  Categories are joined by spaces and the
/// description lines by line feeds; the local domain keeps the automatic
/// flag and the remote domain the file size.
pub open spec fn entry_row(e: EntryView, local: bool) -> RowView {
    RowView {
        automatic: local && or_zero(e.automatic) != 0,
        build_date: e.build_date,
        categories: join(e.categories, " "@),
        comment: e.comment,
        description: join(e.description, "\n"@),
        file_size: if local {
            0
        } else {
            or_zero(e.file_size)
        },
        homepage: or_empty(e.homepage),
        license: or_empty(e.license),
        opsys: e.opsys,
        os_version: e.os_version,
        pkg_options: or_empty(e.pkg_options),
        pkgbase: e.pkgbase,
        pkgname: e.pkgname,
        pkgpath: e.pkgpath,
        pkgtools_version: e.pkgtools_version,
        pkgversion: e.pkgversion,
        size_pkg: or_zero(e.size_pkg),
        conflicts: e.conflicts,
        depends: e.depends,
        provides: e.provides,
        requirements: e.requires,
    }
}

pub open spec fn entry_rows(es: Seq<EntryView>, local: bool) -> Seq<RowView> {
    es.map_values(|e: EntryView| entry_row(e, local))
}

/// A package row with the lists that hang off it.
#[derive(Debug)]
pub struct StoredPackage {
    pub pkg: PackageList,
    pub conflicts: Vec<String>,
    pub depends: Vec<String>,
    pub provides: Vec<String>,
    pub requirements: Vec<String>,
}

pub open spec fn row_view(p: StoredPackage) -> RowView {
    RowView {
        automatic: p.pkg.automatic,
        build_date: p.pkg.build_date@,
        categories: p.pkg.categories@,
        comment: p.pkg.comment@,
        description: p.pkg.description@,
        file_size: p.pkg.file_size,
        homepage: p.pkg.homepage@,
        license: p.pkg.license@,
        opsys: p.pkg.opsys@,
        os_version: p.pkg.os_version@,
        pkg_options: p.pkg.pkg_options@,
        pkgbase: p.pkg.pkgbase@,
        pkgname: p.pkg.pkgname@,
        pkgpath: p.pkg.pkgpath@,
        pkgtools_version: p.pkg.pkgtools_version@,
        pkgversion: p.pkg.pkgversion@,
        size_pkg: p.pkg.size_pkg,
        conflicts: strs(p.conflicts@),
        depends: strs(p.depends@),
        provides: strs(p.provides@),
        requirements: strs(p.requirements@),
    }
}

pub open spec fn row_views(v: Seq<StoredPackage>) -> Seq<RowView> {
    v.map_values(|p: StoredPackage| row_view(p))
}

fn copy_strings(v: &Vec<String>) -> (r: Vec<String>)
    ensures
        strs(r@) == strs(v@),
{
    let mut r: Vec<String> = Vec::new();
    let mut i: usize = 0;
    while i < v.len()
        invariant
            0 <= i <= v@.len(),
            strs(r@) == strs(v@.subrange(0, i as int)),
        decreases v@.len() - i,
    {
        let c = v[i].clone();
        proof {
            lemma_strs_push(r@, c);
            lemma_strs_push(v@.subrange(0, i as int), v@[i as int]);
            assert(v@.subrange(0, i + 1) =~= v@.subrange(0, i as int).push(v@[i as int]));
        }
        r.push(c);
        i += 1;
    }
    assert(v@.subrange(0, v@.len() as int) =~= v@);
    r
}

/// Builds the row of an entry.
fn stored_row(e: &SummaryEntry, local: bool, repository_id: i64, id: i64) -> (r: StoredPackage)
    ensures
        row_view(r) == entry_row(e@, local),
{
    let size = match e.size_pkg() {
        Some(v) => *v,
        None => 0,
    };
    let automatic = local && e.automatic() != 0;
    let file_size = if local {
        0
    } else {
        e.file_size()
    };
    let pkg = PackageList {
        id,
        repository_id,
        automatic,
        build_date: e.build_date().clone(),
        categories: join_strings(e.categories(), " "),
        comment: e.comment().clone(),
        description: join_strings(e.description(), "\n"),
        file_name: String::new(),
        file_size,
        homepage: String::from_str(e.homepage()),
        license: String::from_str(e.license()),
        opsys: e.opsys().clone(),
        os_version: e.os_version().clone(),
        pkg_options: String::from_str(e.pkg_options()),
        pkgbase: e.pkgbase().clone(),
        pkgname: e.pkgname().clone(),
        pkgpath: e.pkgpath().clone(),
        pkgtools_version: e.pkgtools_version().clone(),
        pkgversion: e.pkgversion().clone(),
        size_pkg: size,
    };
    StoredPackage {
        pkg,
        conflicts: copy_strings(e.conflicts()),
        depends: copy_strings(e.depends()),
        provides: copy_strings(e.provides()),
        requirements: copy_strings(e.requirements()),
    }
}

/// Builds the rows of a list of entries, in order.
fn stored_rows(pkgs: &[SummaryEntry], local: bool, repository_id: i64) -> (r: Vec<StoredPackage>)
    ensures
        row_views(r@) == entry_rows(entry_views(pkgs@), local),
{
    let mut r: Vec<StoredPackage> = Vec::new();
    let mut i: usize = 0;
    while i < pkgs.len()
        invariant
            0 <= i <= pkgs@.len(),
            row_views(r@) == entry_rows(entry_views(pkgs@.subrange(0, i as int)), local),
        decreases pkgs@.len() - i,
    {
        let row = stored_row(&pkgs[i], local, repository_id, #[verifier::truncate] (i as i64));
        proof {
            let es = pkgs@.subrange(0, i as int);
            assert(pkgs@.subrange(0, i + 1) =~= es.push(pkgs@[i as int]));
            lemma_entry_views_push(es, pkgs@[i as int]);
            assert(entry_rows(entry_views(es).push(pkgs@[i as int]@), local) =~= entry_rows(
                entry_views(es),
                local,
            ).push(entry_row(pkgs@[i as int]@, local)));
            assert(row_views(r@.push(row)) =~= row_views(r@).push(row_view(row)));
        }
        r.push(row);
        i += 1;
    }
    assert(pkgs@.subrange(0, pkgs@.len() as int) =~= pkgs@);
    r
}

/// One repository: its key (prefix or URL), the prefix it serves, its
/// freshness token, and the rows it owns.
pub struct RepoView {
    pub id: i64,
    pub key: Seq<char>,
    pub prefix: Seq<char>,
    pub mtime: i64,
    pub ntime: i32,
    pub suffix: Seq<char>,
    pub pkgs: Seq<RowView>,
}

#[derive(Debug)]
pub struct StoredRepository {
    pub id: i64,
    pub key: String,
    pub prefix: String,
    pub mtime: i64,
    pub ntime: i32,
    pub suffix: String,
    pub pkgs: Vec<StoredPackage>,
}

pub open spec fn repo_view(r: StoredRepository) -> RepoView {
    RepoView {
        id: r.id,
        key: r.key@,
        prefix: r.prefix@,
        mtime: r.mtime,
        ntime: r.ntime,
        suffix: r.suffix@,
        pkgs: row_views(r.pkgs@),
    }
}

pub open spec fn repo_views(v: Seq<StoredRepository>) -> Seq<RepoView> {
    v.map_values(|r: StoredRepository| repo_view(r))
}

/// The whole store: both domains and the next repository identifier.
pub struct StoreModel {
    pub local: Seq<RepoView>,
    pub remote: Seq<RepoView>,
    pub next_id: i64,
}

pub open spec fn has_key(repos: Seq<RepoView>, k: Seq<char>) -> bool {
    exists|i: int| 0 <= i < repos.len() && #[trigger] repos[i].key == k
}

/// Where the repository with key `k` stands.
pub open spec fn key_index(repos: Seq<RepoView>, k: Seq<char>) -> int {
    choose|i: int| 0 <= i < repos.len() && #[trigger] repos[i].key == k
}

/// No two repositories of a domain share a key.
pub open spec fn unique_keys(repos: Seq<RepoView>) -> bool {
    forall|i: int, j: int|
        0 <= i < repos.len() && 0 <= j < repos.len() && #[trigger] repos[i].key
            == #[trigger] repos[j].key ==> i == j
}

pub open spec fn store_wf(s: StoreModel) -> bool {
    unique_keys(s.local) && unique_keys(s.remote) && s.next_id >= 1
}

proof fn lemma_key_index(repos: Seq<RepoView>, k: Seq<char>, i: int)
    requires
        unique_keys(repos),
        0 <= i < repos.len(),
        repos[i].key == k,
    ensures
        has_key(repos, k),
        key_index(repos, k) == i,
{
    assert(repos[i].key == k);
    let j = key_index(repos, k);
    assert(0 <= j < repos.len() && repos[j].key == k);
}

/// A domain after its repository at `i` is given a new token and rows.
pub open spec fn replaced(
    repos: Seq<RepoView>,
    i: int,
    mtime: i64,
    ntime: i32,
    suffix: Seq<char>,
    pkgs: Seq<RowView>,
) -> Seq<RepoView> {
    repos.update(i, RepoView { mtime, ntime, suffix, pkgs, ..repos[i] })
}



/// Whether inserting key `k` into a domain succeeds, and if not why.
pub open spec fn insert_result(repos: Seq<RepoView>, k: Seq<char>, next_id: i64) -> Result<
    (),
    StoreError,
> {
    if has_key(repos, k) {
        Err(StoreError::DuplicateKey)
    } else if next_id == i64::MAX {
        Err(StoreError::IdsExhausted)
    } else {
        Ok(())
    }
}

/// The store after a new local installation is recorded; unchanged when
/// the insert is refused.
pub open spec fn local_inserted(
    s: StoreModel,
    prefix: Seq<char>,
    mtime: i64,
    ntime: i32,
    entries: Seq<EntryView>,
) -> StoreModel {
    if insert_result(s.local, prefix, s.next_id) is Ok {
        StoreModel {
            local: s.local.push(
                RepoView {
                    id: s.next_id,
                    key: prefix,
                    prefix,
                    mtime,
                    ntime,
                    suffix: Seq::empty(),
                    pkgs: entry_rows(entries, true),
                },
            ),
            next_id: (s.next_id + 1) as i64,
            ..s
        }
    } else {
        s
    }
}

/// The store after a new remote repository is recorded; unchanged when the
/// insert is refused.
pub open spec fn remote_inserted(
    s: StoreModel,
    url: Seq<char>,
    prefix: Seq<char>,
    mtime: i64,
    suffix: Seq<char>,
    entries: Seq<EntryView>,
) -> StoreModel {
    if insert_result(s.remote, url, s.next_id) is Ok {
        StoreModel {
            remote: s.remote.push(
                RepoView {
                    id: s.next_id,
                    key: url,
                    prefix,
                    mtime,
                    ntime: 0,
                    suffix,
                    pkgs: entry_rows(entries, false),
                },
            ),
            next_id: (s.next_id + 1) as i64,
            ..s
        }
    } else {
        s
    }
}

/// The store after the local installation under `prefix` gets new rows and
/// token; unchanged when there is no such installation.
pub open spec fn local_updated(
    s: StoreModel,
    prefix: Seq<char>,
    mtime: i64,
    ntime: i32,
    entries: Seq<EntryView>,
) -> StoreModel {
    if has_key(s.local, prefix) {
        let i = key_index(s.local, prefix);
        StoreModel {
            local: replaced(s.local, i, mtime, ntime, s.local[i].suffix, entry_rows(entries, true)),
            ..s
        }
    } else {
        s
    }
}

/// The store after the remote repository at `url` gets new rows and token;
/// unchanged when there is no such repository.
pub open spec fn remote_updated(
    s: StoreModel,
    url: Seq<char>,
    mtime: i64,
    suffix: Seq<char>,
    entries: Seq<EntryView>,
) -> StoreModel {
    if has_key(s.remote, url) {
        let i = key_index(s.remote, url);
        StoreModel {
            remote: replaced(s.remote, i, mtime, s.remote[i].ntime, suffix, entry_rows(entries, false)),
            ..s
        }
    } else {
        s
    }
}

proof fn lemma_replaced_keeps_keys(
    repos: Seq<RepoView>,
    i: int,
    mtime: i64,
    ntime: i32,
    suffix: Seq<char>,
    pkgs: Seq<RowView>,
)
    requires
        unique_keys(repos),
        0 <= i < repos.len(),
    ensures
        unique_keys(replaced(repos, i, mtime, ntime, suffix, pkgs)),
        replaced(repos, i, mtime, ntime, suffix, pkgs)[i].key == repos[i].key,
{
    let t = replaced(repos, i, mtime, ntime, suffix, pkgs);
    assert forall|a: int, b: int|
        0 <= a < t.len() && 0 <= b < t.len() && #[trigger] t[a].key == #[trigger] t[b].key implies a
        == b by {
        assert(t[a].key == repos[a].key);
        assert(t[b].key == repos[b].key);
    }
}

/// Replacing a local installation's packages twice in a row, with the same
/// entries and token, leaves the store as replacing them once does.
pub proof fn lemma_local_replace_idempotent(
    s: StoreModel,
    prefix: Seq<char>,
    mtime: i64,
    ntime: i32,
    entries: Seq<EntryView>,
)
    requires
        store_wf(s),
    ensures
        local_updated(local_updated(s, prefix, mtime, ntime, entries), prefix, mtime, ntime, entries)
            == local_updated(s, prefix, mtime, ntime, entries),
{
    let s1 = local_updated(s, prefix, mtime, ntime, entries);
    if has_key(s.local, prefix) {
        let i = key_index(s.local, prefix);
        lemma_replaced_keeps_keys(s.local, i, mtime, ntime, s.local[i].suffix, entry_rows(entries, true));
        lemma_key_index(s1.local, prefix, i);
        assert(s1.local.update(i, RepoView { mtime, ntime, suffix: s1.local[i].suffix, pkgs: entry_rows(entries, true), ..s1.local[i] }) =~= s1.local);
    }
}

/// Replacing a remote repository's packages twice in a row, with the same
/// entries and token, leaves the store as replacing them once does.
pub proof fn lemma_remote_replace_idempotent(
    s: StoreModel,
    url: Seq<char>,
    mtime: i64,
    suffix: Seq<char>,
    entries: Seq<EntryView>,
)
    requires
        store_wf(s),
    ensures
        remote_updated(remote_updated(s, url, mtime, suffix, entries), url, mtime, suffix, entries)
            == remote_updated(s, url, mtime, suffix, entries),
{
    let s1 = remote_updated(s, url, mtime, suffix, entries);
    if has_key(s.remote, url) {
        let i = key_index(s.remote, url);
        lemma_replaced_keeps_keys(s.remote, i, mtime, s.remote[i].ntime, suffix, entry_rows(entries, false));
        lemma_key_index(s1.remote, url, i);
        assert(s1.remote.update(i, RepoView { mtime, ntime: s1.remote[i].ntime, suffix, pkgs: entry_rows(entries, false), ..s1.remote[i] }) =~= s1.remote);
    }
}

fn find_repo(repos: &Vec<StoredRepository>, key: &str) -> (r: Option<usize>)
    ensures
        match r {
            Some(i) => i < repos@.len() && repos@[i as int].key@ == key@,
            None => !has_key(repo_views(repos@), key@),
        },
{
    let mut i: usize = 0;
    while i < repos.len()
        invariant
            0 <= i <= repos@.len(),
            forall|j: int| 0 <= j < i ==> repos@[j].key@ != key@,
        decreases repos@.len() - i,
    {
        if str_eq(repos[i].key.as_str(), key) {
            return Some(i);
        }
        i += 1;
    }
    proof {
        if has_key(repo_views(repos@), key@) {
            let j = choose|j: int|
                0 <= j < repo_views(repos@).len() && #[trigger] repo_views(repos@)[j].key == key@;
            assert(repos@[j].key@ == key@);
        }
    }
    None
}


/// Byte-wise lexicographic order, the order in which the store lists
/// identifiers.
pub open spec fn lex_lt(a: Seq<u8>, b: Seq<u8>) -> bool
    decreases a.len(),
{
    if a.len() == 0 {
        b.len() > 0
    } else if b.len() == 0 {
        false
    } else if a[0] != b[0] {
        a[0] < b[0]
    } else {
        lex_lt(a.drop_first(), b.drop_first())
    }
}

/// `a` sorts before `b`: compares their UTF-8 encodings byte by byte.
pub open spec fn name_lt(a: Seq<char>, b: Seq<char>) -> bool {
    lex_lt(vstd::utf8::encode_utf8(a), vstd::utf8::encode_utf8(b))
}

pub open spec fn sorted_by_name(v: Seq<(Seq<char>, Seq<char>)>) -> bool {
    forall|i: int, j: int| 0 <= i < j < v.len() ==> !name_lt(#[trigger] v[j].0, #[trigger] v[i].0)
}

pub open spec fn listed(v: Seq<AvailablePackage>) -> Seq<(Seq<char>, Seq<char>)> {
    v.map_values(|a: AvailablePackage| (a.pkgname@, a.comment@))
}

pub open spec fn pkg_names(pkgs: Seq<RowView>) -> Seq<(Seq<char>, Seq<char>)> {
    pkgs.map_values(|p: RowView| (p.pkgname, p.comment))
}

/// (identifier, comment) of every package of the repositories that serve
/// `prefix`, repository by repository.
pub open spec fn listing(repos: Seq<RepoView>, prefix: Seq<char>) -> Seq<(Seq<char>, Seq<char>)>
    decreases repos.len(),
{
    if repos.len() == 0 {
        Seq::empty()
    } else {
        listing(repos.drop_last(), prefix) + if repos.last().prefix == prefix {
            pkg_names(repos.last().pkgs)
        } else {
            Seq::empty()
        }
    }
}

proof fn lemma_lex_lt_irreflexive(a: Seq<u8>)
    ensures
        !lex_lt(a, a),
    decreases a.len(),
{
    if a.len() > 0 {
        lemma_lex_lt_irreflexive(a.drop_first());
    }
}

proof fn lemma_lex_lt_transitive(a: Seq<u8>, b: Seq<u8>, c: Seq<u8>)
    requires
        lex_lt(a, b),
        lex_lt(b, c),
    ensures
        lex_lt(a, c),
    decreases a.len(),
{
    if a.len() > 0 && a[0] == b[0] && b[0] == c[0] {
        lemma_lex_lt_transitive(a.drop_first(), b.drop_first(), c.drop_first());
    }
}

proof fn lemma_lex_lt_total(a: Seq<u8>, b: Seq<u8>)
    ensures
        a == b || lex_lt(a, b) || lex_lt(b, a),
    decreases a.len(),
{
    if a.len() > 0 && b.len() > 0 && a[0] == b[0] {
        lemma_lex_lt_total(a.drop_first(), b.drop_first());
        if a.drop_first() == b.drop_first() {
            assert(a =~= seq![a[0]] + a.drop_first());
            assert(b =~= seq![b[0]] + b.drop_first());
        }
    } else if a.len() == 0 && b.len() == 0 {
        assert(a =~= b);
    }
}

/// In a listing sorted by name, distinct names stand in strictly
/// ascending order.
pub proof fn lemma_sorted_strict(v: Seq<(Seq<char>, Seq<char>)>)
    requires
        sorted_by_name(v),
    ensures
        forall|i: int, j: int|
            0 <= i < j < v.len() && #[trigger] v[i].0 != #[trigger] v[j].0 ==> name_lt(v[i].0, v[j].0),
{
    broadcast use vstd::utf8::encode_utf8_decode_utf8;

    assert forall|i: int, j: int|
        0 <= i < j < v.len() && #[trigger] v[i].0 != #[trigger] v[j].0 implies name_lt(
        v[i].0,
        v[j].0,
    ) by {
        let a = vstd::utf8::encode_utf8(v[i].0);
        let b = vstd::utf8::encode_utf8(v[j].0);
        lemma_lex_lt_total(a, b);
        if a == b {
            assert(vstd::utf8::decode_utf8(a) == vstd::utf8::decode_utf8(b));
        }
    }
}

/// Whether `a` sorts before `b`.
fn name_less(a: &String, b: &String) -> (r: bool)
    ensures
        r == name_lt(a@, b@),
{
    let x = a.as_str().as_bytes();
    let y = b.as_str().as_bytes();
    let mut k: usize = 0;
    assert(x@.subrange(0, x@.len() as int) =~= x@);
    assert(y@.subrange(0, y@.len() as int) =~= y@);
    while k < x.len() && k < y.len()
        invariant
            0 <= k <= x@.len(),
            k <= y@.len(),
            lex_lt(x@, y@) == lex_lt(x@.subrange(k as int, x@.len() as int), y@.subrange(k as int, y@.len() as int)),
            x@ == vstd::utf8::encode_utf8(a@),
            y@ == vstd::utf8::encode_utf8(b@),
        decreases x@.len() - k,
    {
        let ghost xs = x@.subrange(k as int, x@.len() as int);
        let ghost ys = y@.subrange(k as int, y@.len() as int);
        assert(xs[0] == x@[k as int]);
        assert(ys[0] == y@[k as int]);
        if x[k] != y[k] {
            return x[k] < y[k];
        }
        assert(xs.drop_first() =~= x@.subrange(k + 1, x@.len() as int));
        assert(ys.drop_first() =~= y@.subrange(k + 1, y@.len() as int));
        k += 1;
    }
    k < y.len()
}

/// Inserts `item` after every element that does not sort after it.
fn insert_sorted(out: &mut Vec<AvailablePackage>, item: AvailablePackage)
    requires
        sorted_by_name(listed(old(out)@)),
    ensures
        sorted_by_name(listed(final(out)@)),
        listed(final(out)@).to_multiset() == listed(old(out)@).to_multiset().insert(
            (item.pkgname@, item.comment@),
        ),
{
    let ghost v = listed(out@);
    let ghost x = (item.pkgname@, item.comment@);
    let mut p: usize = 0;
    while p < out.len()
        invariant
            0 <= p <= out@.len(),
            v == listed(out@),
            x == (item.pkgname@, item.comment@),
            forall|q: int| 0 <= q < p ==> !name_lt(x.0, #[trigger] v[q].0),
        ensures
            0 <= p <= out@.len(),
            forall|q: int| 0 <= q < p ==> !name_lt(x.0, #[trigger] v[q].0),
            p < out@.len() ==> name_lt(x.0, v[p as int].0),
        decreases out@.len() - p,
    {
        assert(v[p as int].0 == out@[p as int].pkgname@);
        if name_less(&item.pkgname, &out[p].pkgname) {
            break;
        }
        p += 1;
    }
    out.insert(p, item);
    proof {
        let w = listed(out@);
        assert(w =~= v.insert(p as int, x));
        vstd::seq_lib::to_multiset_insert(v, p as int, x);
        assert forall|i: int, j: int| 0 <= i < j < w.len() implies !name_lt(
            #[trigger] w[j].0,
            #[trigger] w[i].0,
        ) by {
            if i < p && j < p {
                assert(w[i] == v[i] && w[j] == v[j]);
            } else if i < p && j == p {
            } else if i < p {
                assert(w[i] == v[i] && w[j] == v[j - 1]);
            } else if i == p {
                assert(w[j] == v[j - 1]);
                let a = vstd::utf8::encode_utf8(v[j - 1].0);
                let b = vstd::utf8::encode_utf8(x.0);
                let c = vstd::utf8::encode_utf8(v[p as int].0);
                if lex_lt(a, b) {
                    if j - 1 == p {
                        lemma_lex_lt_transitive(a, b, c);
                        lemma_lex_lt_irreflexive(a);
                    } else {
                        lemma_lex_lt_transitive(a, b, c);
                    }
                }
            } else {
                assert(w[i] == v[i - 1] && w[j] == v[j - 1]);
            }
        }
    }
}

fn list_by_prefix(repos: &Vec<StoredRepository>, prefix: &str) -> (r: Vec<AvailablePackage>)
    ensures
        sorted_by_name(listed(r@)),
        listed(r@).to_multiset() == listing(repo_views(repos@), prefix@).to_multiset(),
{
    let mut out: Vec<AvailablePackage> = Vec::new();
    let mut i: usize = 0;
    assert(listed(out@) =~= Seq::<(Seq<char>, Seq<char>)>::empty());
    assert(repo_views(repos@).subrange(0, 0) =~= Seq::<RepoView>::empty());
    while i < repos.len()
        invariant
            0 <= i <= repos@.len(),
            sorted_by_name(listed(out@)),
            listed(out@).to_multiset() == listing(
                repo_views(repos@).subrange(0, i as int),
                prefix@,
            ).to_multiset(),
        decreases repos@.len() - i,
    {
        let ghost done = listing(repo_views(repos@).subrange(0, i as int), prefix@);
        let ghost rv = repo_views(repos@)[i as int];
        assert(repo_views(repos@).subrange(0, i + 1).drop_last() =~= repo_views(repos@).subrange(
            0,
            i as int,
        ));
        if str_eq(repos[i].prefix.as_str(), prefix) {
            let pkgs = &repos[i].pkgs;
            let mut j: usize = 0;
            assert(done + pkg_names(rv.pkgs).subrange(0, 0) =~= done);
            while j < pkgs.len()
                invariant
                    0 <= j <= pkgs@.len(),
                    i < repos@.len(),
                    pkgs@ == repos@[i as int].pkgs@,
                    rv == repo_views(repos@)[i as int],
                    sorted_by_name(listed(out@)),
                    listed(out@).to_multiset() == (done + pkg_names(rv.pkgs).subrange(
                        0,
                        j as int,
                    )).to_multiset(),
                decreases pkgs@.len() - j,
            {
                let item = AvailablePackage {
                    pkgname: pkgs[j].pkg.pkgname.clone(),
                    comment: pkgs[j].pkg.comment.clone(),
                };
                proof {
                    let names = pkg_names(rv.pkgs);
                    assert(rv == repo_view(repos@[i as int]));
                    assert(rv.pkgs[j as int] == row_view(pkgs@[j as int]));
                    assert(names.len() == pkgs@.len());
                    assert(names[j as int] == (item.pkgname@, item.comment@));
                    assert(done + names.subrange(0, j + 1) =~= (done + names.subrange(
                        0,
                        j as int,
                    )).push(names[j as int]));
                    vstd::seq_lib::to_multiset_build(
                        done + names.subrange(0, j as int),
                        names[j as int],
                    );
                }
                insert_sorted(&mut out, item);
                j += 1;
            }
            assert(pkg_names(rv.pkgs).subrange(0, pkgs@.len() as int) =~= pkg_names(rv.pkgs));
        } else {
            assert(done + Seq::<(Seq<char>, Seq<char>)>::empty() =~= done);
        }
        i += 1;
    }
    assert(repo_views(repos@).subrange(0, repos@.len() as int) =~= repo_views(repos@));
    out
}

/// What the store knows of a local installation: its freshness token.
#[derive(Debug)]
pub struct LocalRepository {
    prefix: String,
    mtime: i64,
    ntime: i32,
}

impl View for LocalRepository {
    type V = (Seq<char>, i64, i32);

    closed spec fn view(&self) -> (Seq<char>, i64, i32) {
        (self.prefix@, self.mtime, self.ntime)
    }
}

impl LocalRepository {
    /// The stored token equals the one observed now.
    pub fn up_to_date(&self, mtime: i64, ntime: i32) -> (r: bool)
        ensures
            r == (self@.1 == mtime && self@.2 == ntime),
    {
        self.mtime == mtime && self.ntime == ntime
    }
}

/// What the store knows of a remote repository: its freshness token.
#[derive(Debug)]
pub struct RemoteRepository {
    url: String,
    mtime: i64,
    summary_suffix: String,
}

impl View for RemoteRepository {
    type V = (Seq<char>, i64, Seq<char>);

    closed spec fn view(&self) -> (Seq<char>, i64, Seq<char>) {
        (self.url@, self.mtime, self.summary_suffix@)
    }
}

impl RemoteRepository {
    /// The stored token equals the one observed now.
    pub fn up_to_date(&self, mtime: i64, summary_suffix: &str) -> (r: bool)
        ensures
            r == (self@.1 == mtime && self@.2 == summary_suffix@),
    {
        self.mtime == mtime && str_eq(self.summary_suffix.as_str(), summary_suffix)
    }
}

/// The package metadata store.
#[derive(Debug)]
pub struct PMDB {
    local: Vec<StoredRepository>,
    remote: Vec<StoredRepository>,
    next_id: i64,
}

impl View for PMDB {
    type V = StoreModel;

    closed spec fn view(&self) -> StoreModel {
        StoreModel {
            local: repo_views(self.local@),
            remote: repo_views(self.remote@),
            next_id: self.next_id,
        }
    }
}

impl PMDB {
    /// An empty store.
    pub fn new() -> (r: PMDB)
        ensures
            r@ == (StoreModel { local: Seq::empty(), remote: Seq::empty(), next_id: 1 }),
            store_wf(r@),
    {
        let r = PMDB { local: Vec::new(), remote: Vec::new(), next_id: 1 };
        assert(r@.local =~= Seq::<RepoView>::empty());
        assert(r@.remote =~= Seq::<RepoView>::empty());
        r
    }

    /// The freshness token of the local installation under `prefix`.
    pub fn get_local_repository(&self, prefix: &str) -> (r: Option<LocalRepository>)
        requires
            store_wf(self@),
        ensures
            match r {
                Some(l) => has_key(self@.local, prefix@) && l@ == (
                    prefix@,
                    self@.local[key_index(self@.local, prefix@)].mtime,
                    self@.local[key_index(self@.local, prefix@)].ntime,
                ),
                None => !has_key(self@.local, prefix@),
            },
    {
        match find_repo(&self.local, prefix) {
            Some(i) => {
                proof {
                    lemma_key_index(self@.local, prefix@, i as int);
                }
                Some(
                    LocalRepository {
                        prefix: String::from_str(prefix),
                        mtime: self.local[i].mtime,
                        ntime: self.local[i].ntime,
                    },
                )
            },
            None => None,
        }
    }

    /// The freshness token of the remote repository at `url`.
    pub fn get_remote_repository(&self, url: &str) -> (r: Option<RemoteRepository>)
        requires
            store_wf(self@),
        ensures
            match r {
                Some(l) => has_key(self@.remote, url@) && l@ == (
                    url@,
                    self@.remote[key_index(self@.remote, url@)].mtime,
                    self@.remote[key_index(self@.remote, url@)].suffix,
                ),
                None => !has_key(self@.remote, url@),
            },
    {
        match find_repo(&self.remote, url) {
            Some(i) => {
                proof {
                    lemma_key_index(self@.remote, url@, i as int);
                }
                Some(
                    RemoteRepository {
                        url: String::from_str(url),
                        mtime: self.remote[i].mtime,
                        summary_suffix: self.remote[i].suffix.clone(),
                    },
                )
            },
            None => None,
        }
    }

    /// Records a new local installation and its packages.
    pub fn insert_local_repository(
        &mut self,
        prefix: &str,
        mtime: i64,
        ntime: i32,
        pkgs: &[SummaryEntry],
    ) -> (r: Result<(), StoreError>)
        requires
            store_wf(old(self)@),
        ensures
            store_wf(final(self)@),
            r == insert_result(old(self)@.local, prefix@, old(self)@.next_id),
            final(self)@ == local_inserted(old(self)@, prefix@, mtime, ntime, entry_views(pkgs@)),
    {
        if let Some(i) = find_repo(&self.local, prefix) {
            proof {
                assert(repo_views(self.local@)[i as int].key == prefix@);
            }
            return Err(StoreError::DuplicateKey);
        }
        if self.next_id == i64::MAX {
            return Err(StoreError::IdsExhausted);
        }
        let id = self.next_id;
        let repo = StoredRepository {
            id,
            key: String::from_str(prefix),
            prefix: String::from_str(prefix),
            mtime,
            ntime,
            suffix: String::new(),
            pkgs: stored_rows(pkgs, true, id),
        };
        self.local.push(repo);
        self.next_id = id + 1;
        proof {
            assert(repo_views(self.local@) =~= repo_views(old(self).local@).push(repo_view(repo)));
        }
        Ok(())
    }

    /// Records a new remote repository, serving `prefix`, and its packages.
    pub fn insert_remote_repository(
        &mut self,
        url: &str,
        prefix: &str,
        mtime: i64,
        summary_suffix: &str,
        pkgs: &[SummaryEntry],
    ) -> (r: Result<(), StoreError>)
        requires
            store_wf(old(self)@),
        ensures
            store_wf(final(self)@),
            r == insert_result(old(self)@.remote, url@, old(self)@.next_id),
            final(self)@ == remote_inserted(
                old(self)@,
                url@,
                prefix@,
                mtime,
                summary_suffix@,
                entry_views(pkgs@),
            ),
    {
        if let Some(i) = find_repo(&self.remote, url) {
            proof {
                assert(repo_views(self.remote@)[i as int].key == url@);
            }
            return Err(StoreError::DuplicateKey);
        }
        if self.next_id == i64::MAX {
            return Err(StoreError::IdsExhausted);
        }
        let id = self.next_id;
        let repo = StoredRepository {
            id,
            key: String::from_str(url),
            prefix: String::from_str(prefix),
            mtime,
            ntime: 0,
            suffix: String::from_str(summary_suffix),
            pkgs: stored_rows(pkgs, false, id),
        };
        self.remote.push(repo);
        self.next_id = id + 1;
        proof {
            assert(repo_views(self.remote@) =~= repo_views(old(self).remote@).push(
                repo_view(repo),
            ));
        }
        Ok(())
    }

    /// Replaces every package of the local installation under `prefix` and
    /// its token.
    pub fn update_local_repository(
        &mut self,
        prefix: &str,
        mtime: i64,
        ntime: i32,
        pkgs: &[SummaryEntry],
    ) -> (r: Result<(), StoreError>)
        requires
            store_wf(old(self)@),
        ensures
            store_wf(final(self)@),
            r == (if has_key(old(self)@.local, prefix@) {
                Ok(())
            } else {
                Err(StoreError::NotFound)
            }),
            final(self)@ == local_updated(old(self)@, prefix@, mtime, ntime, entry_views(pkgs@)),
    {
        let i = match find_repo(&self.local, prefix) {
            Some(i) => i,
            None => return Err(StoreError::NotFound),
        };
        proof {
            lemma_key_index(self@.local, prefix@, i as int);
        }
        let rows = stored_rows(pkgs, true, self.local[i].id);
        let ghost before = self.local@;
        let repo = StoredRepository {
            id: self.local[i].id,
            key: self.local[i].key.clone(),
            prefix: self.local[i].prefix.clone(),
            mtime,
            ntime,
            suffix: self.local[i].suffix.clone(),
            pkgs: rows,
        };
        self.local.set(i, repo);
        proof {
            assert(repo_views(self.local@) =~= replaced(
                repo_views(before),
                i as int,
                mtime,
                ntime,
                repo_views(before)[i as int].suffix,
                entry_rows(entry_views(pkgs@), true),
            ));
            assert forall|a: int, b: int|
                0 <= a < self@.local.len() && 0 <= b < self@.local.len() && #[trigger] self@.local[a].key
                    == #[trigger] self@.local[b].key implies a == b by {
                assert(self@.local[a].key == old(self)@.local[a].key);
                assert(self@.local[b].key == old(self)@.local[b].key);
            }
        }
        Ok(())
    }

    /// Replaces every package of the remote repository at `url` and its
    /// token.
    pub fn update_remote_repository(
        &mut self,
        url: &str,
        mtime: i64,
        summary_suffix: &str,
        pkgs: &[SummaryEntry],
    ) -> (r: Result<(), StoreError>)
        requires
            store_wf(old(self)@),
        ensures
            store_wf(final(self)@),
            r == (if has_key(old(self)@.remote, url@) {
                Ok(())
            } else {
                Err(StoreError::NotFound)
            }),
            final(self)@ == remote_updated(
                old(self)@,
                url@,
                mtime,
                summary_suffix@,
                entry_views(pkgs@),
            ),
    {
        let i = match find_repo(&self.remote, url) {
            Some(i) => i,
            None => return Err(StoreError::NotFound),
        };
        proof {
            lemma_key_index(self@.remote, url@, i as int);
        }
        let rows = stored_rows(pkgs, false, self.remote[i].id);
        let ghost before = self.remote@;
        let repo = StoredRepository {
            id: self.remote[i].id,
            key: self.remote[i].key.clone(),
            prefix: self.remote[i].prefix.clone(),
            mtime,
            ntime: self.remote[i].ntime,
            suffix: String::from_str(summary_suffix),
            pkgs: rows,
        };
        self.remote.set(i, repo);
        proof {
            assert(repo_views(self.remote@) =~= replaced(
                repo_views(before),
                i as int,
                mtime,
                repo_views(before)[i as int].ntime,
                summary_suffix@,
                entry_rows(entry_views(pkgs@), false),
            ));
            assert forall|a: int, b: int|
                0 <= a < self@.remote.len() && 0 <= b < self@.remote.len()
                    && #[trigger] self@.remote[a].key == #[trigger] self@.remote[b].key implies a
                == b by {
                assert(self@.remote[a].key == old(self)@.remote[a].key);
                assert(self@.remote[b].key == old(self)@.remote[b].key);
            }
        }
        Ok(())
    }

    /// The local installations, in the order they were recorded.
    pub fn local_repositories(&self) -> (r: &Vec<StoredRepository>)
        ensures
            repo_views(r@) == self@.local,
    {
        &self.local
    }

    /// The remote repositories, in the order they were recorded.
    pub fn remote_repositories(&self) -> (r: &Vec<StoredRepository>)
        ensures
            repo_views(r@) == self@.remote,
    {
        &self.remote
    }

    /// Takes back a repository saved earlier, with its identifier, into the
    /// local domain when `local` holds and the remote one otherwise.
    /// Refused, with nothing changed, when its key is already there or its
    /// identifier is not in `1..i64::MAX`.
    pub fn restore(&mut self, local: bool, repo: StoredRepository) -> (r: Result<(), StoreError>)
        requires
            store_wf(old(self)@),
        ensures
            store_wf(final(self)@),
            r == (if has_key(
                if local {
                    old(self)@.local
                } else {
                    old(self)@.remote
                },
                repo.key@,
            ) {
                Err(StoreError::DuplicateKey)
            } else if repo.id < 1 || repo.id == i64::MAX {
                Err(StoreError::IdsExhausted)
            } else {
                Ok(())
            }),
            r is Err ==> final(self)@ == old(self)@,
            r is Ok ==> final(self)@ == (StoreModel {
                local: if local {
                    old(self)@.local.push(repo_view(repo))
                } else {
                    old(self)@.local
                },
                remote: if local {
                    old(self)@.remote
                } else {
                    old(self)@.remote.push(repo_view(repo))
                },
                next_id: if repo.id < old(self)@.next_id {
                    old(self)@.next_id
                } else {
                    (repo.id + 1) as i64
                },
            }),
    {
        let found = if local {
            find_repo(&self.local, repo.key.as_str())
        } else {
            find_repo(&self.remote, repo.key.as_str())
        };
        if let Some(i) = found {
            proof {
                if local {
                    assert(repo_views(self.local@)[i as int].key == repo.key@);
                } else {
                    assert(repo_views(self.remote@)[i as int].key == repo.key@);
                }
            }
            return Err(StoreError::DuplicateKey);
        }
        if repo.id < 1 || repo.id == i64::MAX {
            return Err(StoreError::IdsExhausted);
        }
        if repo.id >= self.next_id {
            self.next_id = repo.id + 1;
        }
        let ghost rv = repo_view(repo);
        if local {
            self.local.push(repo);
            proof {
                assert(repo_views(self.local@) =~= repo_views(old(self).local@).push(rv));
            }
        } else {
            self.remote.push(repo);
            proof {
                assert(repo_views(self.remote@) =~= repo_views(old(self).remote@).push(rv));
            }
        }
        Ok(())
    }

    /// The packages of the local installation under `prefix`, as
    /// (identifier, comment), ordered by identifier.
    pub fn get_local_pkgs_by_prefix(&self, prefix: &str) -> (r: Vec<AvailablePackage>)
        ensures
            sorted_by_name(listed(r@)),
            forall|i: int, j: int|
                0 <= i < j < r@.len() && #[trigger] listed(r@)[i].0 != #[trigger] listed(r@)[j].0
                    ==> name_lt(listed(r@)[i].0, listed(r@)[j].0),
            listed(r@).to_multiset() == listing(self@.local, prefix@).to_multiset(),
    {
        let r = list_by_prefix(&self.local, prefix);
        proof {
            lemma_sorted_strict(listed(r@));
        }
        r
    }

    /// The packages of every remote repository that serves `prefix`, as
    /// (identifier, comment), ordered by identifier.
    pub fn get_remote_pkgs_by_prefix(&self, prefix: &str) -> (r: Vec<AvailablePackage>)
        ensures
            sorted_by_name(listed(r@)),
            forall|i: int, j: int|
                0 <= i < j < r@.len() && #[trigger] listed(r@)[i].0 != #[trigger] listed(r@)[j].0
                    ==> name_lt(listed(r@)[i].0, listed(r@)[j].0),
            listed(r@).to_multiset() == listing(self@.remote, prefix@).to_multiset(),
    {
        let r = list_by_prefix(&self.remote, prefix);
        proof {
            lemma_sorted_strict(listed(r@));
        }
        r
    }
}

} // verus!
