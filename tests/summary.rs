use pm::summary::{
    FieldKey, ParseError, RecordError, RequiredField, SlurpError, StreamError, SummaryEntry, SummaryStream,
};
use std::io::Write;

const REQUIRED: [(&str, &str); 9] = [
    ("BUILD_DATE", "2019-03-05 10:00:00 +0000"),
    ("COMMENT", "A test package"),
    ("MACHINE_ARCH", "x86_64"),
    ("OPSYS", "SunOS"),
    ("OS_VERSION", "5.11"),
    ("PKGNAME", "foo-1.0"),
    ("PKGPATH", "devel/foo"),
    ("PKGTOOLS_VERSION", "20091115"),
    ("SIZE_PKG", "1024"),
];

fn record(name: &str) -> String {
    format!(
        "BUILD_DATE=2019-03-05 10:00:00 +0000\nCATEGORIES=devel\nCOMMENT=Package {name}\n\
         DESCRIPTION=First line\nDESCRIPTION=Second line\nMACHINE_ARCH=x86_64\nOPSYS=SunOS\n\
         OS_VERSION=5.11\nPKGNAME={name}\nPKGPATH=devel/{name}\nPKGTOOLS_VERSION=20091115\n\
         SIZE_PKG=1024\n"
    )
}

fn document(names: &[&str]) -> String {
    let mut doc = String::new();
    for n in names {
        doc.push_str(&record(n));
        doc.push('\n');
    }
    doc
}

fn names(stream: &SummaryStream) -> Vec<String> {
    stream.entries().iter().map(|e| e.pkgname().clone()).collect()
}

#[test]
fn identifier_splits_on_rightmost_hyphen() {
    let mut e = SummaryEntry::new();
    assert_eq!(e.parse_entry("PKGNAME", "foo-bar-1.2.3"), Ok(()));
    assert_eq!(e.pkgname(), "foo-bar-1.2.3");
    assert_eq!(e.pkgbase(), "foo-bar");
    assert_eq!(e.pkgversion(), "1.2.3");
}

#[test]
fn identifier_without_hyphen_is_stored_and_reported() {
    let mut e = SummaryEntry::new();
    assert_eq!(e.parse_entry("PKGNAME", "foobar"), Err(ParseError::InvalidPkgname));
    assert_eq!(e.pkgname(), "foobar");
    assert_eq!(e.pkgbase(), "foobar");
    assert_eq!(e.pkgversion(), "");
}

#[test]
fn record_with_unsplittable_identifier_is_dropped_and_reported() {
    let doc = format!("{}\n{}\n", record("nohyphen"), record("ok-1"));
    let mut s = SummaryStream::new();
    s.write(doc.as_bytes()).unwrap();
    assert_eq!(names(&s), vec!["ok-1".to_string()]);
    assert_eq!(s.errors(), &vec![RecordError::InvalidPkgname]);
}

#[test]
fn unknown_key_leaves_entry_alone() {
    let mut e = SummaryEntry::new();
    assert_eq!(e.parse_entry("NO_SUCH_KEY", "x"), Err(ParseError::UnknownKey));
    assert_eq!(e.validate(), Err(RequiredField::BuildDate));
}

#[test]
fn size_fields_parse_as_numbers() {
    let mut e = SummaryEntry::new();
    assert_eq!(e.parse_entry("SIZE_PKG", "0"), Ok(()));
    assert_eq!(*e.size_pkg(), Some(0));
    assert_eq!(e.parse_entry("FILE_SIZE", "9223372036854775807"), Ok(()));
    assert_eq!(e.file_size(), i64::MAX);
    assert_eq!(e.parse_entry("SIZE_PKG", "12345"), Ok(()));
    assert_eq!(*e.size_pkg(), Some(12345));
}

#[test]
fn malformed_sizes_are_refused() {
    let mut e = SummaryEntry::new();
    for bad in ["", "abc", "-1", "12a", "9223372036854775808", "99999999999999999999"] {
        assert_eq!(e.parse_entry("SIZE_PKG", bad), Err(ParseError::InvalidNumber), "{bad}");
    }
    assert_eq!(*e.size_pkg(), None);
    assert_eq!(e.file_size(), 0);
}

#[test]
fn lists_append_and_scalars_overwrite() {
    let mut e = SummaryEntry::new();
    e.parse_entry("DEPENDS", "a>=1").unwrap();
    e.parse_entry("DEPENDS", "b>=2").unwrap();
    e.parse_entry("COMMENT", "first").unwrap();
    e.parse_entry("COMMENT", "second").unwrap();
    e.parse_entry("HOMEPAGE", "https://example.org/").unwrap();
    e.parse_entry("REQUIRES", "/usr/lib/libc.so").unwrap();
    e.parse_entry("PROVIDES", "/opt/lib/libfoo.so").unwrap();
    e.parse_entry("CONFLICTS", "bar-[0-9]*").unwrap();
    e.parse_entry("SUPERSEDES", "oldfoo-[0-9]*").unwrap();
    e.parse_entry("FILE_CKSUM", "sha1 abc").unwrap();
    e.parse_entry("FILE_NAME", "foo-1.0.tgz").unwrap();
    e.parse_entry("PREV_PKGPATH", "devel/oldfoo").unwrap();
    e.parse_entry("LICENSE", "isc").unwrap();
    e.parse_entry("PKG_OPTIONS", "x11").unwrap();
    assert_eq!(e.depends(), &vec!["a>=1".to_string(), "b>=2".to_string()]);
    assert_eq!(e.comment(), "second");
    assert_eq!(e.homepage(), "https://example.org/");
    assert_eq!(e.requirements(), &vec!["/usr/lib/libc.so".to_string()]);
    assert_eq!(e.provides(), &vec!["/opt/lib/libfoo.so".to_string()]);
    assert_eq!(e.conflicts(), &vec!["bar-[0-9]*".to_string()]);
    assert_eq!(e.supersedes(), &vec!["oldfoo-[0-9]*".to_string()]);
    assert_eq!(e.file_cksum(), "sha1 abc");
    assert_eq!(e.file_name(), "foo-1.0.tgz");
    assert_eq!(e.prev_pkgpath(), "devel/oldfoo");
    assert_eq!(e.license(), "isc");
    assert_eq!(e.pkg_options(), "x11");
    assert_eq!(e.license(), "isc");
}

#[test]
fn unset_optional_fields_read_empty() {
    let e = SummaryEntry::new();
    assert_eq!(e.homepage(), "");
    assert_eq!(e.license(), "");
    assert_eq!(e.automatic(), 0);
    assert!(e.categories().is_empty());
}

#[test]
fn set_automatic_marks_entry() {
    let mut e = SummaryEntry::new();
    e.set_automatic();
    assert_eq!(e.automatic(), 1);
}

#[test]
fn keys_classify_to_fields() {
    assert_eq!(pm::summary::classify("PKGNAME"), Some(FieldKey::Pkgname));
    assert_eq!(pm::summary::classify("SIZE_PKG"), Some(FieldKey::SizePkg));
    assert_eq!(pm::summary::classify("pkgname"), None);
    assert!(pm::summary::str_eq("abc", "abc"));
    assert!(!pm::summary::str_eq("abc", "abd"));
}

#[test]
fn complete_entry_validates() {
    let mut e = SummaryEntry::new();
    for (k, v) in REQUIRED {
        e.parse_entry(k, v).unwrap();
    }
    assert_eq!(e.validate(), Ok(()));
}

#[test]
fn each_missing_required_field_is_reported() {
    let expected = [
        RequiredField::BuildDate,
        RequiredField::Comment,
        RequiredField::MachineArch,
        RequiredField::Opsys,
        RequiredField::OsVersion,
        RequiredField::Pkgname,
        RequiredField::Pkgpath,
        RequiredField::PkgtoolsVersion,
        RequiredField::SizePkg,
    ];
    for (skip, want) in expected.iter().enumerate() {
        let mut e = SummaryEntry::new();
        for (i, (k, v)) in REQUIRED.iter().enumerate() {
            if i != skip {
                e.parse_entry(k, v).unwrap();
            }
        }
        assert_eq!(e.validate(), Err(*want));
    }
}

#[test]
fn records_missing_one_required_field_are_dropped() {
    for skip in 0..REQUIRED.len() {
        let mut doc = String::new();
        for (i, (k, v)) in REQUIRED.iter().enumerate() {
            if i != skip {
                doc.push_str(&format!("{k}={v}\n"));
            }
        }
        doc.push('\n');
        doc.push_str(&record("kept-2.0"));
        doc.push('\n');
        let mut s = SummaryStream::new();
        assert_eq!(s.write(doc.as_bytes()), Ok(doc.len()));
        assert_eq!(names(&s), vec!["kept-2.0".to_string()]);
    }
}

#[test]
fn record_without_categories_or_description_is_kept() {
    let mut doc = String::new();
    for (k, v) in REQUIRED {
        doc.push_str(&format!("{k}={v}\n"));
    }
    doc.push('\n');
    let mut s = SummaryStream::new();
    s.write(doc.as_bytes()).unwrap();
    assert_eq!(names(&s), vec!["foo-1.0".to_string()]);
}

#[test]
fn two_records_and_a_truncated_one() {
    let mut doc = document(&["alpha-1.0", "beta-2.0"]);
    let tail = "BUILD_DATE=2019-03-05\nCOMMENT=Truncated\nPKGNAME=gamma-3.0\n";
    doc.push_str(tail);
    let mut s = SummaryStream::new();
    assert_eq!(s.write(doc.as_bytes()), Ok(doc.len()));
    assert_eq!(names(&s), vec!["alpha-1.0".to_string(), "beta-2.0".to_string()]);
    assert_eq!(s.pending(), &tail.as_bytes().to_vec());
}

#[test]
fn chunked_input_gives_same_entries() {
    let doc = document(&["alpha-1.0", "beta-2.0", "gamma-3.0"]);
    let bytes = doc.as_bytes();
    let mut whole = SummaryStream::new();
    whole.write(bytes).unwrap();
    for size in [1usize, 2, 3, 7, 64, 1000] {
        let mut s = SummaryStream::new();
        for chunk in bytes.chunks(size) {
            assert_eq!(s.write(chunk), Ok(chunk.len()));
        }
        assert_eq!(names(&s), names(&whole), "chunk size {size}");
    }
    assert_eq!(names(&whole).len(), 3);
}

#[test]
fn extra_blank_lines_do_not_change_entries() {
    let doc = format!("{}\n\n\n{}\n", record("a-1"), record("b-2"));
    let mut whole = SummaryStream::new();
    whole.write(doc.as_bytes()).unwrap();
    let mut bytewise = SummaryStream::new();
    for b in doc.as_bytes() {
        bytewise.write(&[*b]).unwrap();
    }
    assert_eq!(names(&whole), vec!["a-1".to_string(), "b-2".to_string()]);
    assert_eq!(names(&bytewise), names(&whole));
}

#[test]
fn line_without_separator_spoils_its_record() {
    let doc = format!("{}garbage line\n\n{}\n", record("bad-1"), record("good-1"));
    let mut s = SummaryStream::new();
    s.write(doc.as_bytes()).unwrap();
    assert_eq!(names(&s), vec!["good-1".to_string()]);
}

#[test]
fn malformed_size_spoils_its_record() {
    let doc = format!("{}FILE_SIZE=lots\n\n{}\n", record("bad-1"), record("good-1"));
    let mut s = SummaryStream::new();
    s.write(doc.as_bytes()).unwrap();
    assert_eq!(names(&s), vec!["good-1".to_string()]);
}

#[test]
fn unknown_key_keeps_its_record() {
    let doc = format!("{}FUTURE_KEY=whatever\n\n", record("ok-1"));
    let mut s = SummaryStream::new();
    s.write(doc.as_bytes()).unwrap();
    assert_eq!(names(&s), vec!["ok-1".to_string()]);
}

#[test]
fn non_ascii_text_is_decoded() {
    let doc = format!("{}HOMEPAGE=https://exämple.org/ü\n\n", record("uni-1"));
    let mut s = SummaryStream::new();
    s.write(doc.as_bytes()).unwrap();
    assert_eq!(s.entries()[0].homepage(), "https://exämple.org/ü");
    assert_eq!(s.entries()[0].description(), &vec!["First line".to_string(), "Second line".to_string()]);
}

#[test]
fn invalid_utf8_is_refused_and_changes_nothing() {
    let mut s = SummaryStream::new();
    s.write(document(&["first-1"]).as_bytes()).unwrap();
    let mut bad = record("second-1").into_bytes();
    bad.extend_from_slice(b"COMMENT=\xff\xfe\n\n");
    assert_eq!(s.write(&bad), Err(StreamError::InvalidEncoding));
    assert_eq!(names(&s), vec!["first-1".to_string()]);
    assert!(s.pending().is_empty());
}

#[test]
fn invalid_bytes_in_held_tail_wait() {
    let mut s = SummaryStream::new();
    assert_eq!(s.write(b"COMMENT=\xff"), Ok(9));
    assert_eq!(s.pending(), &b"COMMENT=\xff".to_vec());
}

#[test]
fn entries_mut_allows_marking() {
    let mut s = SummaryStream::new();
    s.write(document(&["a-1", "b-1"]).as_bytes()).unwrap();
    s.entries_mut()[1].set_automatic();
    assert_eq!(s.entries()[0].automatic(), 0);
    assert_eq!(s.entries()[1].automatic(), 1);
}

fn gz(data: &[u8]) -> Vec<u8> {
    let mut enc = flate2::write::GzEncoder::new(Vec::new(), flate2::Compression::default());
    enc.write_all(data).unwrap();
    enc.finish().unwrap()
}

fn bz2(data: &[u8]) -> Vec<u8> {
    let mut enc = bzip2::write::BzEncoder::new(Vec::new(), bzip2::Compression::default());
    enc.write_all(data).unwrap();
    enc.finish().unwrap()
}

fn xz(data: &[u8]) -> Vec<u8> {
    let mut enc = xz2::write::XzEncoder::new(Vec::new(), 6);
    enc.write_all(data).unwrap();
    enc.finish().unwrap()
}

#[test]
fn slurp_decodes_each_suffix() {
    let doc = document(&["alpha-1.0", "beta-2.0"]);
    for (ext, body) in [("gz", gz(doc.as_bytes())), ("bz2", bz2(doc.as_bytes())), ("xz", xz(doc.as_bytes()))] {
        let mut s = SummaryStream::new();
        assert_eq!(s.slurp(ext, &body), Ok(doc.len()), "{ext}");
        assert_eq!(names(&s), vec!["alpha-1.0".to_string(), "beta-2.0".to_string()]);
    }
}

#[test]
fn slurp_refuses_unknown_suffix() {
    let mut s = SummaryStream::new();
    assert_eq!(s.slurp("zst", b"whatever"), Err(SlurpError::UnsupportedSuffix));
    assert!(s.entries().is_empty());
}

#[test]
fn slurp_refuses_corrupt_body() {
    let mut s = SummaryStream::new();
    assert_eq!(s.slurp("gz", b"not gzip at all"), Err(SlurpError::Corrupt));
    assert_eq!(s.slurp("xz", b"not xz at all"), Err(SlurpError::Corrupt));
    assert_eq!(s.slurp("bz2", b"not bzip2 at all"), Err(SlurpError::Corrupt));
    assert!(s.entries().is_empty());
}

#[test]
fn slurp_reports_bad_encoding() {
    let mut s = SummaryStream::new();
    let body = gz(b"COMMENT=\xff\n\n");
    assert_eq!(s.slurp("gz", &body), Err(SlurpError::Stream(StreamError::InvalidEncoding)));
}

#[test]
fn problems_are_reported_in_document_order() {
    let mut doc = String::new();
    doc.push_str(&record("a-1"));
    doc.push_str("FUTURE_KEY=x\n\n");
    doc.push_str(&record("b-1"));
    doc.push_str("garbage\n\n");
    doc.push_str(&record("c-1"));
    doc.push_str("SIZE_PKG=big\n\n");
    doc.push_str("COMMENT=only a comment\n\n\n\n");
    let mut s = SummaryStream::new();
    s.write(doc.as_bytes()).unwrap();
    assert_eq!(names(&s), vec!["a-1".to_string()]);
    assert_eq!(
        s.errors(),
        &vec![
            RecordError::UnknownKey,
            RecordError::MalformedLine,
            RecordError::InvalidNumber,
            RecordError::Missing(RequiredField::BuildDate),
        ]
    );
}

#[test]
fn blank_line_runs_report_nothing() {
    let mut s = SummaryStream::new();
    s.write(b"\n\n\n\n\n").unwrap();
    assert!(s.entries().is_empty());
    assert!(s.errors().is_empty());
}

#[test]
fn chunked_input_reports_same_problems() {
    let doc = format!("{}X=1\n\nbad\n\n\n{}\n", record("a-1"), record("b-1"));
    let mut whole = SummaryStream::new();
    whole.write(doc.as_bytes()).unwrap();
    let mut bytewise = SummaryStream::new();
    for b in doc.as_bytes() {
        bytewise.write(&[*b]).unwrap();
    }
    assert_eq!(whole.errors(), bytewise.errors());
    assert_eq!(whole.errors(), &vec![RecordError::UnknownKey, RecordError::MalformedLine]);
}
