use pm::avail::AvailablePackage;
use pm::list::PackageList;
use pm::pmdb::{schema_action, SchemaAction, StoreError, StoredRepository, DB_VERSION, PMDB};
use pm::summary::{SummaryEntry, SummaryStream};

fn entries(names: &[&str]) -> Vec<SummaryEntry> {
    let mut doc = String::new();
    for n in names {
        doc.push_str(&format!(
            "BUILD_DATE=2019-03-05\nCATEGORIES=devel\nCATEGORIES=lang\nCOMMENT=About {n}\n\
             DESCRIPTION=Line one\nDESCRIPTION=Line two\nMACHINE_ARCH=x86_64\nOPSYS=SunOS\n\
             OS_VERSION=5.11\nPKGNAME={n}\nPKGPATH=devel/{n}\nPKGTOOLS_VERSION=20091115\n\
             SIZE_PKG=42\nFILE_SIZE=7\nDEPENDS=dep-[0-9]*\nPROVIDES=/lib/{n}.so\n\n"
        ));
    }
    let mut s = SummaryStream::new();
    s.write(doc.as_bytes()).unwrap();
    let mut out = Vec::new();
    for e in s.entries() {
        let mut c = SummaryEntry::new();
        for (k, v) in [
            ("BUILD_DATE", e.build_date().as_str()),
            ("COMMENT", e.comment().as_str()),
            ("MACHINE_ARCH", e.machine_arch().as_str()),
            ("OPSYS", e.opsys().as_str()),
            ("OS_VERSION", e.os_version().as_str()),
            ("PKGNAME", e.pkgname().as_str()),
            ("PKGPATH", e.pkgpath().as_str()),
            ("PKGTOOLS_VERSION", e.pkgtools_version().as_str()),
            ("SIZE_PKG", "42"),
            ("FILE_SIZE", "7"),
            ("CATEGORIES", "devel"),
            ("CATEGORIES", "lang"),
            ("DESCRIPTION", "Line one"),
            ("DESCRIPTION", "Line two"),
            ("DEPENDS", "dep-[0-9]*"),
        ] {
            c.parse_entry(k, v).unwrap();
        }
        out.push(c);
    }
    assert_eq!(out.len(), names.len());
    out
}

fn listed(v: &[AvailablePackage]) -> Vec<(String, String)> {
    v.iter().map(|p| (p.pkgname().clone(), p.comment().clone())).collect()
}

#[test]
fn schema_is_created_kept_or_recreated() {
    assert_eq!(schema_action(None), SchemaAction::Create);
    assert_eq!(schema_action(Some(DB_VERSION)), SchemaAction::Keep);
    assert_eq!(schema_action(Some(20180101)), SchemaAction::Recreate);
    assert_eq!(schema_action(Some(20190305)), SchemaAction::Recreate);
}

#[test]
fn insert_then_lookup_local() {
    let mut db = PMDB::new();
    assert!(db.get_local_repository("/opt/local").is_none());
    assert_eq!(db.insert_local_repository("/opt/local", 100, 5, &entries(&["a-1"])), Ok(()));
    let r = db.get_local_repository("/opt/local").unwrap();
    assert!(r.up_to_date(100, 5));
    assert!(!r.up_to_date(100, 6));
    assert!(!r.up_to_date(101, 5));
}

#[test]
fn insert_twice_is_refused() {
    let mut db = PMDB::new();
    db.insert_local_repository("/opt/local", 1, 0, &entries(&["a-1"])).unwrap();
    assert_eq!(
        db.insert_local_repository("/opt/local", 2, 0, &entries(&["b-1"])),
        Err(StoreError::DuplicateKey)
    );
    let got = listed(&db.get_local_pkgs_by_prefix("/opt/local"));
    assert_eq!(got, vec![("a-1".to_string(), "About a-1".to_string())]);
    db.insert_remote_repository("https://r/", "/opt/local", 1, "xz", &entries(&["a-1"])).unwrap();
    assert_eq!(
        db.insert_remote_repository("https://r/", "/opt/other", 1, "gz", &[]),
        Err(StoreError::DuplicateKey)
    );
}

#[test]
fn replace_of_missing_key_is_refused() {
    let mut db = PMDB::new();
    assert_eq!(db.update_local_repository("/nowhere", 1, 1, &[]), Err(StoreError::NotFound));
    assert_eq!(db.update_remote_repository("https://none/", 1, "xz", &[]), Err(StoreError::NotFound));
    assert!(db.local_repositories().is_empty());
}

#[test]
fn replace_swaps_all_packages_and_token() {
    let mut db = PMDB::new();
    db.insert_remote_repository("https://r/", "/opt/local", 10, "xz", &entries(&["old-1", "gone-2"])).unwrap();
    db.update_remote_repository("https://r/", 20, "gz", &entries(&["new-1"])).unwrap();
    let r = db.get_remote_repository("https://r/").unwrap();
    assert!(r.up_to_date(20, "gz"));
    assert!(!r.up_to_date(20, "xz"));
    assert_eq!(
        listed(&db.get_remote_pkgs_by_prefix("/opt/local")),
        vec![("new-1".to_string(), "About new-1".to_string())]
    );
}

fn snapshot(db: &PMDB) -> Vec<(i64, String, i64, i32, String, Vec<(String, String, String, i64)>)> {
    db.local_repositories()
        .iter()
        .chain(db.remote_repositories().iter())
        .map(|r| {
            (
                r.id,
                r.key.clone(),
                r.mtime,
                r.ntime,
                r.suffix.clone(),
                r.pkgs
                    .iter()
                    .map(|p| (p.pkg.pkgname.clone(), p.pkg.categories.clone(), p.pkg.description.clone(), p.pkg.size_pkg))
                    .collect(),
            )
        })
        .collect()
}

#[test]
fn replace_twice_equals_replace_once() {
    let mut once = PMDB::new();
    once.insert_local_repository("/p", 1, 1, &entries(&["x-1"])).unwrap();
    once.insert_remote_repository("https://r/", "/p", 1, "xz", &entries(&["y-1"])).unwrap();
    let mut twice = PMDB::new();
    twice.insert_local_repository("/p", 1, 1, &entries(&["x-1"])).unwrap();
    twice.insert_remote_repository("https://r/", "/p", 1, "xz", &entries(&["y-1"])).unwrap();
    let fresh = entries(&["b-2", "a-1"]);
    once.update_local_repository("/p", 5, 6, &fresh).unwrap();
    once.update_remote_repository("https://r/", 7, "gz", &fresh).unwrap();
    for _ in 0..2 {
        twice.update_local_repository("/p", 5, 6, &fresh).unwrap();
        twice.update_remote_repository("https://r/", 7, "gz", &fresh).unwrap();
    }
    assert_eq!(snapshot(&once), snapshot(&twice));
    assert_eq!(listed(&once.get_local_pkgs_by_prefix("/p")), listed(&twice.get_local_pkgs_by_prefix("/p")));
}

#[test]
fn rows_join_lists() {
    let mut db = PMDB::new();
    let mut e = entries(&["a-1"]);
    e[0].set_automatic();
    db.insert_local_repository("/p", 1, 1, &e).unwrap();
    db.insert_remote_repository("https://r/", "/p", 1, "xz", &e).unwrap();
    let local = &db.local_repositories()[0].pkgs[0];
    assert_eq!(local.pkg.categories, "devel lang");
    assert_eq!(local.pkg.description, "Line one\nLine two");
    assert!(local.pkg.automatic);
    assert_eq!(local.pkg.file_size, 0);
    assert_eq!(local.pkg.size_pkg, 42);
    assert_eq!(local.pkg.pkgbase, "a");
    assert_eq!(local.pkg.pkgversion, "1");
    assert_eq!(local.depends, vec!["dep-[0-9]*".to_string()]);
    let remote = &db.remote_repositories()[0].pkgs[0];
    assert!(!remote.pkg.automatic);
    assert_eq!(remote.pkg.file_size, 7);
    assert_eq!(db.remote_repositories()[0].prefix, "/p");
}

#[test]
fn listing_is_sorted_by_identifier() {
    let mut db = PMDB::new();
    db.insert_local_repository("/p", 1, 1, &entries(&["zsh-5.7", "bash-5.0", "mksh-57", "Zope-2", "bash-4.4"])).unwrap();
    let got: Vec<String> = db.get_local_pkgs_by_prefix("/p").iter().map(|p| p.pkgname().clone()).collect();
    assert_eq!(got, vec!["Zope-2", "bash-4.4", "bash-5.0", "mksh-57", "zsh-5.7"]);
}

#[test]
fn remote_listing_merges_repositories_of_a_prefix() {
    let mut db = PMDB::new();
    db.insert_remote_repository("https://one/", "/p", 1, "xz", &entries(&["m-1", "c-1"])).unwrap();
    db.insert_remote_repository("https://two/", "/other", 1, "xz", &entries(&["b-1"])).unwrap();
    db.insert_remote_repository("https://three/", "/p", 1, "gz", &entries(&["a-1", "z-1"])).unwrap();
    let got: Vec<String> = db.get_remote_pkgs_by_prefix("/p").iter().map(|p| p.pkgname().clone()).collect();
    assert_eq!(got, vec!["a-1", "c-1", "m-1", "z-1"]);
    assert!(db.get_remote_pkgs_by_prefix("/none").is_empty());
    assert!(db.get_local_pkgs_by_prefix("/p").is_empty());
}

#[test]
fn restore_keeps_ids_and_refuses_duplicates() {
    let mut db = PMDB::new();
    let repo = StoredRepository {
        id: 7,
        key: "/p".to_string(),
        prefix: "/p".to_string(),
        mtime: 3,
        ntime: 4,
        suffix: String::new(),
        pkgs: Vec::new(),
    };
    assert_eq!(db.restore(true, repo), Ok(()));
    assert!(db.get_local_repository("/p").unwrap().up_to_date(3, 4));
    let dup = StoredRepository {
        id: 8,
        key: "/p".to_string(),
        prefix: "/p".to_string(),
        mtime: 0,
        ntime: 0,
        suffix: String::new(),
        pkgs: Vec::new(),
    };
    assert_eq!(db.restore(true, dup), Err(StoreError::DuplicateKey));
    let bad = StoredRepository {
        id: 0,
        key: "https://r/".to_string(),
        prefix: "/p".to_string(),
        mtime: 0,
        ntime: 0,
        suffix: "xz".to_string(),
        pkgs: Vec::new(),
    };
    assert_eq!(db.restore(false, bad), Err(StoreError::IdsExhausted));
    db.insert_remote_repository("https://r/", "/p", 1, "xz", &[]).unwrap();
    assert_eq!(db.remote_repositories()[0].id, 8);
}

#[test]
fn package_list_getters() {
    let p = PackageList {
        id: 3,
        repository_id: 4,
        automatic: true,
        pkgname: "foo-1.0".to_string(),
        comment: "Foo".to_string(),
        size_pkg: 9,
        ..Default::default()
    };
    assert_eq!(*p.id(), 3);
    assert_eq!(*p.repository_id(), 4);
    assert!(*p.automatic());
    assert_eq!(p.pkgname(), "foo-1.0");
    assert_eq!(p.comment(), "Foo");
    assert_eq!(*p.size_pkg(), 9);
    assert_eq!(p.homepage(), "");
}
