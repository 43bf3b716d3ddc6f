use pm::config::{Config, Prefix, Repository};
use pm::pmdb::PMDB;
use pm::summary::{SummaryEntry, SummaryStream};
use pm::update::{
    check_candidate, get_summary_extensions, installed_info_path, judge_candidate,
    local_refresh_action, record_local, record_remote, remote_refresh_action, Candidate,
    RefreshAction,
};

fn entries(names: &[&str]) -> Vec<SummaryEntry> {
    let mut doc = String::new();
    for n in names {
        doc.push_str(&format!(
            "BUILD_DATE=2019-03-05\nCOMMENT=About {n}\nMACHINE_ARCH=x86_64\nOPSYS=SunOS\n\
             OS_VERSION=5.11\nPKGNAME={n}\nPKGPATH=devel/{n}\nPKGTOOLS_VERSION=20091115\n\
             SIZE_PKG=42\n\n"
        ));
    }
    let mut s = SummaryStream::new();
    s.write(doc.as_bytes()).unwrap();
    let mut out = Vec::new();
    for e in s.entries() {
        let mut c = SummaryEntry::new();
        for (k, v) in [
            ("BUILD_DATE", e.build_date().as_str()),
            ("COMMENT", e.comment().as_str()),
            ("MACHINE_ARCH", "x86_64"),
            ("OPSYS", "SunOS"),
            ("OS_VERSION", "5.11"),
            ("PKGNAME", e.pkgname().as_str()),
            ("PKGPATH", e.pkgpath().as_str()),
            ("PKGTOOLS_VERSION", "20091115"),
            ("SIZE_PKG", "42"),
        ] {
            c.parse_entry(k, v).unwrap();
        }
        out.push(c);
    }
    out
}

#[test]
fn default_suffixes_best_compression_first() {
    let repo = Repository::new("https://r/".to_string(), None, None);
    assert_eq!(get_summary_extensions(&repo), vec!["xz", "bz2", "gz"]);
}

#[test]
fn configured_suffix_is_the_only_one() {
    let repo = Repository::new("https://r/".to_string(), Some("main".to_string()), Some("gz".to_string()));
    assert_eq!(get_summary_extensions(&repo), vec!["gz"]);
    assert_eq!(repo.url(), "https://r/");
    assert_eq!(repo.summary_extension(), &Some("gz".to_string()));
}

#[test]
fn local_refresh_actions() {
    let mut db = PMDB::new();
    assert_eq!(local_refresh_action(&db, "/p", 10, 1), RefreshAction::Insert);
    assert_eq!(record_local(&mut db, RefreshAction::Insert, "/p", 10, 1, &entries(&["a-1"])), Ok(()));
    assert_eq!(local_refresh_action(&db, "/p", 10, 1), RefreshAction::UpToDate);
    assert_eq!(local_refresh_action(&db, "/p", 10, 2), RefreshAction::Replace);
    assert_eq!(record_local(&mut db, RefreshAction::Replace, "/p", 10, 2, &entries(&["b-1"])), Ok(()));
    let names: Vec<String> = db.get_local_pkgs_by_prefix("/p").iter().map(|p| p.pkgname().clone()).collect();
    assert_eq!(names, vec!["b-1"]);
}

#[test]
fn unchanged_remote_document_writes_nothing() {
    let mut db = PMDB::new();
    let url = "https://pkgsrc.example/packages/All";
    assert_eq!(remote_refresh_action(&db, url, 1_551_780_000, "xz"), RefreshAction::Insert);
    record_remote(&mut db, RefreshAction::Insert, url, "/opt/local", 1_551_780_000, "xz", &entries(&["a-1", "b-1"])).unwrap();
    let before: Vec<String> = db.get_remote_pkgs_by_prefix("/opt/local").iter().map(|p| p.pkgname().clone()).collect();
    let action = remote_refresh_action(&db, url, 1_551_780_000, "xz");
    assert_eq!(action, RefreshAction::UpToDate);
    assert_eq!(record_remote(&mut db, action, url, "/opt/local", 1_551_780_000, "xz", &entries(&["zzz-9"])), Ok(()));
    let after: Vec<String> = db.get_remote_pkgs_by_prefix("/opt/local").iter().map(|p| p.pkgname().clone()).collect();
    assert_eq!(before, after);
    assert!(db.get_remote_repository(url).unwrap().up_to_date(1_551_780_000, "xz"));
    assert_eq!(remote_refresh_action(&db, url, 1_551_780_000, "gz"), RefreshAction::Replace);
    assert_eq!(remote_refresh_action(&db, url, 1_551_780_001, "xz"), RefreshAction::Replace);
}

#[test]
fn responses_are_judged() {
    assert_eq!(check_candidate(true, Some("Sun, 06 Nov 1994 08:49:37 GMT")), Candidate::Use(784111777));
    assert_eq!(check_candidate(true, Some("yesterday")), Candidate::Fail);
    assert_eq!(check_candidate(true, None), Candidate::Skip);
    assert_eq!(check_candidate(false, Some("Sun, 06 Nov 1994 08:49:37 GMT")), Candidate::Skip);
    assert_eq!(judge_candidate(true, Some(Some(u64::MAX))), Candidate::Fail);
    assert_eq!(judge_candidate(true, Some(Some(5))), Candidate::Use(5));
    assert_eq!(judge_candidate(true, Some(None)), Candidate::Fail);
}

#[test]
fn marker_file_path() {
    assert_eq!(installed_info_path("/var/db/pkg", "foo-1.0"), "/var/db/pkg/foo-1.0/+INSTALLED_INFO");
}

#[test]
fn prefix_tools_default_under_prefix() {
    let mut p = Prefix::new("/opt/local".to_string(), None, Some("/usr/sbin/pkg_info".to_string()), None, None);
    assert_eq!(p.pkg_admin(), "");
    p.fill_tool_paths();
    assert_eq!(p.path(), "/opt/local");
    assert_eq!(p.pkg_admin(), "/opt/local/sbin/pkg_admin");
    assert_eq!(p.pkg_info(), "/usr/sbin/pkg_info");
    assert_eq!(p.pkgdb(), "");
    p.set_pkgdb("/opt/local/pkg".to_string());
    assert_eq!(p.pkgdb(), "/opt/local/pkg");
    assert!(p.repositories().is_none());
}

#[test]
fn default_prefix_resolution() {
    let c = Config::new(Some("/a".to_string()), Some("/b".to_string()), Some("/c".to_string()), vec![], true);
    assert_eq!(c.prefix(), "/a");
    assert!(c.verbose());
    let c = Config::new(None, Some("/b".to_string()), Some("/c".to_string()), vec![], false);
    assert_eq!(c.prefix(), "/b");
    let c = Config::new(None, None, Some("/c".to_string()), vec![], false);
    assert_eq!(c.prefix(), "/c");
    let c = Config::new(None, None, None, vec![], false);
    assert_eq!(c.prefix(), "");
    assert!(c.prefixes().is_empty());
}

#[test]
fn available_package_getters() {
    let p = pm::avail::AvailablePackage { pkgname: "foo-1".to_string(), comment: "Foo".to_string() };
    assert_eq!(p.pkgname(), "foo-1");
    assert_eq!(p.comment(), "Foo");
}
