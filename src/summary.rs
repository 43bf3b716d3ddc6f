//! The pkg_summary record format: `KEY=value` lines, one blank line between
//! records.
use vstd::prelude::*;
use vstd::string::*;
use vstd::utf8::*;

verus! {

/// The fields a record line may set.
#[derive(Clone, Copy, Debug, PartialEq, Eq, Structural)]
pub enum FieldKey {
    BuildDate,
    Categories,
    Comment,
    Conflicts,
    Depends,
    Description,
    FileCksum,
    FileName,
    FileSize,
    Homepage,
    License,
    MachineArch,
    Opsys,
    OsVersion,
    PkgOptions,
    Pkgname,
    Pkgpath,
    PkgtoolsVersion,
    PrevPkgpath,
    Provides,
    Requires,
    SizePkg,
    Supersedes,
}

/// Why a single `KEY=value` pair was not applied to an entry.
#[derive(Clone, Copy, Debug, PartialEq, Eq, Structural)]
pub enum ParseError {
    /// The key names no known field; the entry is left as it was.
    UnknownKey,
    /// A size field whose value is not a decimal number that fits in `i64`.
    InvalidNumber,
    /// A package name with no hyphen to separate base name and version.
    InvalidPkgname,
}

/// The key of each field, as it is written in a record.
pub open spec fn key_of(k: Seq<char>) -> Option<FieldKey> {
    if k == "BUILD_DATE"@ {
        Some(FieldKey::BuildDate)
    } else if k == "CATEGORIES"@ {
        Some(FieldKey::Categories)
    } else if k == "COMMENT"@ {
        Some(FieldKey::Comment)
    } else if k == "CONFLICTS"@ {
        Some(FieldKey::Conflicts)
    } else if k == "DEPENDS"@ {
        Some(FieldKey::Depends)
    } else if k == "DESCRIPTION"@ {
        Some(FieldKey::Description)
    } else if k == "FILE_CKSUM"@ {
        Some(FieldKey::FileCksum)
    } else if k == "FILE_NAME"@ {
        Some(FieldKey::FileName)
    } else if k == "FILE_SIZE"@ {
        Some(FieldKey::FileSize)
    } else if k == "HOMEPAGE"@ {
        Some(FieldKey::Homepage)
    } else if k == "LICENSE"@ {
        Some(FieldKey::License)
    } else if k == "MACHINE_ARCH"@ {
        Some(FieldKey::MachineArch)
    } else if k == "OPSYS"@ {
        Some(FieldKey::Opsys)
    } else if k == "OS_VERSION"@ {
        Some(FieldKey::OsVersion)
    } else if k == "PKG_OPTIONS"@ {
        Some(FieldKey::PkgOptions)
    } else if k == "PKGNAME"@ {
        Some(FieldKey::Pkgname)
    } else if k == "PKGPATH"@ {
        Some(FieldKey::Pkgpath)
    } else if k == "PKGTOOLS_VERSION"@ {
        Some(FieldKey::PkgtoolsVersion)
    } else if k == "PREV_PKGPATH"@ {
        Some(FieldKey::PrevPkgpath)
    } else if k == "PROVIDES"@ {
        Some(FieldKey::Provides)
    } else if k == "REQUIRES"@ {
        Some(FieldKey::Requires)
    } else if k == "SIZE_PKG"@ {
        Some(FieldKey::SizePkg)
    } else if k == "SUPERSEDES"@ {
        Some(FieldKey::Supersedes)
    } else {
        None
    }
}

pub open spec fn is_digit(c: char) -> bool {
    '0' <= c && c <= '9'
}

pub open spec fn all_digits(s: Seq<char>) -> bool {
    forall|i: int| 0 <= i < s.len() ==> is_digit(#[trigger] s[i])
}

/// The number that a string of decimal digits denotes.
pub open spec fn digits_value(s: Seq<char>) -> int
    decreases s.len(),
{
    if s.len() == 0 {
        0
    } else {
        digits_value(s.drop_last()) * 10 + (s.last() as int - '0' as int)
    }
}

/// A size field: one or more decimal digits whose value fits in `i64`.
pub open spec fn parse_count(s: Seq<char>) -> Option<i64> {
    if s.len() > 0 && all_digits(s) && digits_value(s) <= i64::MAX {
        Some(digits_value(s) as i64)
    } else {
        None
    }
}

/// Index of the rightmost hyphen in `s`, or -1 when there is none.
pub open spec fn last_hyphen(s: Seq<char>) -> int
    decreases s.len(),
{
    if s.len() == 0 {
        -1
    } else if s.last() == '-' {
        s.len() - 1
    } else {
        last_hyphen(s.drop_last())
    }
}

/// A package name splits on its rightmost hyphen into base name and
/// version; without a hyphen the base name is the whole name and the version
/// is empty.
pub open spec fn name_base(s: Seq<char>) -> Seq<char> {
    if last_hyphen(s) >= 0 {
        s.subrange(0, last_hyphen(s))
    } else {
        s
    }
}

pub open spec fn name_version(s: Seq<char>) -> Seq<char> {
    if last_hyphen(s) >= 0 {
        s.subrange(last_hyphen(s) + 1, s.len() as int)
    } else {
        Seq::empty()
    }
}

/// The outcome of applying the pair `k=v` to an entry.
pub open spec fn field_result(k: Seq<char>, v: Seq<char>) -> Result<(), ParseError> {
    match key_of(k) {
        None => Err(ParseError::UnknownKey),
        Some(FieldKey::FileSize) | Some(FieldKey::SizePkg) => if parse_count(v) is Some {
            Ok(())
        } else {
            Err(ParseError::InvalidNumber)
        },
        Some(FieldKey::Pkgname) => if last_hyphen(v) >= 0 {
            Ok(())
        } else {
            Err(ParseError::InvalidPkgname)
        },
        Some(_) => Ok(()),
    }
}

/// What one package's record says, as plain values.
pub struct EntryView {
    pub automatic: Option<i64>,
    pub build_date: Seq<char>,
    pub categories: Seq<Seq<char>>,
    pub comment: Seq<char>,
    pub conflicts: Seq<Seq<char>>,
    pub depends: Seq<Seq<char>>,
    pub description: Seq<Seq<char>>,
    pub file_cksum: Option<Seq<char>>,
    pub file_name: Option<Seq<char>>,
    pub file_size: Option<i64>,
    pub homepage: Option<Seq<char>>,
    pub license: Option<Seq<char>>,
    pub machine_arch: Seq<char>,
    pub opsys: Seq<char>,
    pub os_version: Seq<char>,
    pub pkg_options: Option<Seq<char>>,
    pub pkgbase: Seq<char>,
    pub pkgname: Seq<char>,
    pub pkgpath: Seq<char>,
    pub pkgtools_version: Seq<char>,
    pub pkgversion: Seq<char>,
    pub prev_pkgpath: Option<Seq<char>>,
    pub provides: Seq<Seq<char>>,
    pub requires: Seq<Seq<char>>,
    pub size_pkg: Option<i64>,
    pub supersedes: Seq<Seq<char>>,
}

/// An entry before any line of its record has been read.
pub open spec fn empty_entry() -> EntryView {
    EntryView {
        automatic: None,
        build_date: Seq::empty(),
        categories: Seq::empty(),
        comment: Seq::empty(),
        conflicts: Seq::empty(),
        depends: Seq::empty(),
        description: Seq::empty(),
        file_cksum: None,
        file_name: None,
        file_size: None,
        homepage: None,
        license: None,
        machine_arch: Seq::empty(),
        opsys: Seq::empty(),
        os_version: Seq::empty(),
        pkg_options: None,
        pkgbase: Seq::empty(),
        pkgname: Seq::empty(),
        pkgpath: Seq::empty(),
        pkgtools_version: Seq::empty(),
        pkgversion: Seq::empty(),
        prev_pkgpath: None,
        provides: Seq::empty(),
        requires: Seq::empty(),
        size_pkg: None,
        supersedes: Seq::empty(),
    }
}

/// The entry after the pair `k=v` is applied: multi-valued keys append,
/// scalar keys overwrite.  Only meaningful where `field_result` is `Ok`.
pub open spec fn with_field(e: EntryView, k: Seq<char>, v: Seq<char>) -> EntryView {
    match key_of(k) {
        Some(FieldKey::BuildDate) => EntryView { build_date: v, ..e },
        Some(FieldKey::Categories) => EntryView { categories: e.categories.push(v), ..e },
        Some(FieldKey::Comment) => EntryView { comment: v, ..e },
        Some(FieldKey::Conflicts) => EntryView { conflicts: e.conflicts.push(v), ..e },
        Some(FieldKey::Depends) => EntryView { depends: e.depends.push(v), ..e },
        Some(FieldKey::Description) => EntryView { description: e.description.push(v), ..e },
        Some(FieldKey::FileCksum) => EntryView { file_cksum: Some(v), ..e },
        Some(FieldKey::FileName) => EntryView { file_name: Some(v), ..e },
        Some(FieldKey::FileSize) => EntryView { file_size: parse_count(v), ..e },
        Some(FieldKey::Homepage) => EntryView { homepage: Some(v), ..e },
        Some(FieldKey::License) => EntryView { license: Some(v), ..e },
        Some(FieldKey::MachineArch) => EntryView { machine_arch: v, ..e },
        Some(FieldKey::Opsys) => EntryView { opsys: v, ..e },
        Some(FieldKey::OsVersion) => EntryView { os_version: v, ..e },
        Some(FieldKey::PkgOptions) => EntryView { pkg_options: Some(v), ..e },
        Some(FieldKey::Pkgname) => EntryView {
            pkgname: v,
            pkgbase: name_base(v),
            pkgversion: name_version(v),
            ..e
        },
        Some(FieldKey::Pkgpath) => EntryView { pkgpath: v, ..e },
        Some(FieldKey::PkgtoolsVersion) => EntryView { pkgtools_version: v, ..e },
        Some(FieldKey::PrevPkgpath) => EntryView { prev_pkgpath: Some(v), ..e },
        Some(FieldKey::Provides) => EntryView { provides: e.provides.push(v), ..e },
        Some(FieldKey::Requires) => EntryView { requires: e.requires.push(v), ..e },
        Some(FieldKey::SizePkg) => EntryView { size_pkg: parse_count(v), ..e },
        Some(FieldKey::Supersedes) => EntryView { supersedes: e.supersedes.push(v), ..e },
        None => e,
    }
}

/// The required fields, in the order in which `validate` checks them.
#[derive(Clone, Copy, Debug, PartialEq, Eq, Structural)]
pub enum RequiredField {
    BuildDate,
    Comment,
    MachineArch,
    Opsys,
    OsVersion,
    Pkgname,
    Pkgpath,
    PkgtoolsVersion,
    SizePkg,
}

/// The first required field that `e` lacks, if any.
pub open spec fn first_missing(e: EntryView) -> Option<RequiredField> {
    if e.build_date.len() == 0 {
        Some(RequiredField::BuildDate)
    } else if e.comment.len() == 0 {
        Some(RequiredField::Comment)
    } else if e.machine_arch.len() == 0 {
        Some(RequiredField::MachineArch)
    } else if e.opsys.len() == 0 {
        Some(RequiredField::Opsys)
    } else if e.os_version.len() == 0 {
        Some(RequiredField::OsVersion)
    } else if e.pkgname.len() == 0 {
        Some(RequiredField::Pkgname)
    } else if e.pkgpath.len() == 0 {
        Some(RequiredField::Pkgpath)
    } else if e.pkgtools_version.len() == 0 {
        Some(RequiredField::PkgtoolsVersion)
    } else if e.size_pkg is None {
        Some(RequiredField::SizePkg)
    } else {
        None
    }
}

/// An entry is kept only when every required field is present.
pub open spec fn is_valid(e: EntryView) -> bool {
    first_missing(e) is None
}

pub open spec fn strs(v: Seq<String>) -> Seq<Seq<char>> {
    v.map_values(|s: String| s@)
}

pub open spec fn opt_str(o: Option<String>) -> Option<Seq<char>> {
    match o {
        Some(s) => Some(s@),
        None => None,
    }
}

/// One package's metadata as decoded from its record.
#[derive(Debug)]
pub struct SummaryEntry {
    automatic: Option<i64>,
    build_date: String,
    categories: Vec<String>,
    comment: String,
    conflicts: Vec<String>,
    depends: Vec<String>,
    description: Vec<String>,
    file_cksum: Option<String>,
    file_name: Option<String>,
    file_size: Option<i64>,
    homepage: Option<String>,
    license: Option<String>,
    machine_arch: String,
    opsys: String,
    os_version: String,
    pkg_options: Option<String>,
    pkgbase: String,
    pkgname: String,
    pkgpath: String,
    pkgtools_version: String,
    pkgversion: String,
    prev_pkgpath: Option<String>,
    provides: Vec<String>,
    requires: Vec<String>,
    size_pkg: Option<i64>,
    supersedes: Vec<String>,
}

impl View for SummaryEntry {
    type V = EntryView;

    closed spec fn view(&self) -> EntryView {
        EntryView {
            automatic: self.automatic,
            build_date: self.build_date@,
            categories: strs(self.categories@),
            comment: self.comment@,
            conflicts: strs(self.conflicts@),
            depends: strs(self.depends@),
            description: strs(self.description@),
            file_cksum: opt_str(self.file_cksum),
            file_name: opt_str(self.file_name),
            file_size: self.file_size,
            homepage: opt_str(self.homepage),
            license: opt_str(self.license),
            machine_arch: self.machine_arch@,
            opsys: self.opsys@,
            os_version: self.os_version@,
            pkg_options: opt_str(self.pkg_options),
            pkgbase: self.pkgbase@,
            pkgname: self.pkgname@,
            pkgpath: self.pkgpath@,
            pkgtools_version: self.pkgtools_version@,
            pkgversion: self.pkgversion@,
            prev_pkgpath: opt_str(self.prev_pkgpath),
            provides: strs(self.provides@),
            requires: strs(self.requires@),
            size_pkg: self.size_pkg,
            supersedes: strs(self.supersedes@),
        }
    }
}

/// Whether two strings hold the same characters, compared byte by byte.
pub fn str_eq(a: &str, b: &str) -> (r: bool)
    ensures
        r == (a@ == b@),
{
    broadcast use {vstd::utf8::encode_utf8_decode_utf8, vstd::utf8::encode_utf8_valid_utf8};

    let x = a.as_bytes();
    let y = b.as_bytes();
    if x.len() != y.len() {
        proof {
            if a@ == b@ {
                assert(x@ == y@);
            }
        }
        return false;
    }
    let mut i: usize = 0;
    while i < x.len()
        invariant
            x@ == a.spec_bytes(),
            y@ == b.spec_bytes(),
            x@.len() == y@.len(),
            0 <= i <= x@.len(),
            forall|j: int| 0 <= j < i ==> x@[j] == y@[j],
        decreases x@.len() - i,
    {
        if x[i] != y[i] {
            proof {
                if a@ == b@ {
                    assert(x@ == y@);
                }
            }
            return false;
        }
        i += 1;
    }
    assert(x@ =~= y@);
    proof {
        assert(a@ == vstd::utf8::decode_utf8(a.spec_bytes()));
        assert(b@ == vstd::utf8::decode_utf8(b.spec_bytes()));
    }
    true
}

/// The field that a key names.
pub fn classify(key: &str) -> (r: Option<FieldKey>)
    ensures
        r == key_of(key@),
{
    if str_eq(key, "BUILD_DATE") {
        Some(FieldKey::BuildDate)
    } else if str_eq(key, "CATEGORIES") {
        Some(FieldKey::Categories)
    } else if str_eq(key, "COMMENT") {
        Some(FieldKey::Comment)
    } else if str_eq(key, "CONFLICTS") {
        Some(FieldKey::Conflicts)
    } else if str_eq(key, "DEPENDS") {
        Some(FieldKey::Depends)
    } else if str_eq(key, "DESCRIPTION") {
        Some(FieldKey::Description)
    } else if str_eq(key, "FILE_CKSUM") {
        Some(FieldKey::FileCksum)
    } else if str_eq(key, "FILE_NAME") {
        Some(FieldKey::FileName)
    } else if str_eq(key, "FILE_SIZE") {
        Some(FieldKey::FileSize)
    } else if str_eq(key, "HOMEPAGE") {
        Some(FieldKey::Homepage)
    } else if str_eq(key, "LICENSE") {
        Some(FieldKey::License)
    } else if str_eq(key, "MACHINE_ARCH") {
        Some(FieldKey::MachineArch)
    } else if str_eq(key, "OPSYS") {
        Some(FieldKey::Opsys)
    } else if str_eq(key, "OS_VERSION") {
        Some(FieldKey::OsVersion)
    } else if str_eq(key, "PKG_OPTIONS") {
        Some(FieldKey::PkgOptions)
    } else if str_eq(key, "PKGNAME") {
        Some(FieldKey::Pkgname)
    } else if str_eq(key, "PKGPATH") {
        Some(FieldKey::Pkgpath)
    } else if str_eq(key, "PKGTOOLS_VERSION") {
        Some(FieldKey::PkgtoolsVersion)
    } else if str_eq(key, "PREV_PKGPATH") {
        Some(FieldKey::PrevPkgpath)
    } else if str_eq(key, "PROVIDES") {
        Some(FieldKey::Provides)
    } else if str_eq(key, "REQUIRES") {
        Some(FieldKey::Requires)
    } else if str_eq(key, "SIZE_PKG") {
        Some(FieldKey::SizePkg)
    } else if str_eq(key, "SUPERSEDES") {
        Some(FieldKey::Supersedes)
    } else {
        None
    }
}

pub proof fn lemma_strs_push(v: Seq<String>, x: String)
    ensures
        strs(v.push(x)) == strs(v).push(x@),
{
    assert(strs(v.push(x)) =~= strs(v).push(x@));
}

proof fn lemma_digits_value_nonneg(s: Seq<char>)
    requires
        all_digits(s),
    ensures
        digits_value(s) >= 0,
    decreases s.len(),
{
    if s.len() > 0 {
        assert(all_digits(s.drop_last())) by {
            assert forall|i: int| 0 <= i < s.drop_last().len() implies is_digit(
                #[trigger] s.drop_last()[i],
            ) by {
                assert(s.drop_last()[i] == s[i]);
            }
        }
        lemma_digits_value_nonneg(s.drop_last());
        assert(is_digit(s[s.len() - 1]));
    }
}

/// A longer run of digits never denotes a smaller number.
proof fn lemma_digits_value_prefix(s: Seq<char>, k: int)
    requires
        all_digits(s),
        0 <= k <= s.len(),
    ensures
        digits_value(s.subrange(0, k)) <= digits_value(s),
    decreases s.len(),
{
    if k < s.len() {
        let t = s.drop_last();
        assert(all_digits(t)) by {
            assert forall|i: int| 0 <= i < t.len() implies is_digit(#[trigger] t[i]) by {
                assert(t[i] == s[i]);
            }
        }
        lemma_digits_value_prefix(t, k);
        assert(t.subrange(0, k) =~= s.subrange(0, k));
        lemma_digits_value_nonneg(t);
        assert(is_digit(s[s.len() - 1]));
    } else {
        assert(s.subrange(0, k) =~= s);
    }
}

proof fn lemma_pkgname_key()
    ensures
        key_of("PKGNAME"@) == Some(FieldKey::Pkgname),
{
    reveal_strlit("BUILD_DATE");
    reveal_strlit("CATEGORIES");
    reveal_strlit("COMMENT");
    reveal_strlit("CONFLICTS");
    reveal_strlit("DEPENDS");
    reveal_strlit("DESCRIPTION");
    reveal_strlit("FILE_CKSUM");
    reveal_strlit("FILE_NAME");
    reveal_strlit("FILE_SIZE");
    reveal_strlit("HOMEPAGE");
    reveal_strlit("LICENSE");
    reveal_strlit("MACHINE_ARCH");
    reveal_strlit("OPSYS");
    reveal_strlit("OS_VERSION");
    reveal_strlit("PKG_OPTIONS");
    reveal_strlit("PKGNAME");
    assert("PKGNAME"@.len() != "BUILD_DATE"@.len());
    assert("PKGNAME"@.len() != "CATEGORIES"@.len());
    assert("PKGNAME"@[0] != "COMMENT"@[0]);
    assert("PKGNAME"@.len() != "CONFLICTS"@.len());
    assert("PKGNAME"@[0] != "DEPENDS"@[0]);
    assert("PKGNAME"@.len() != "DESCRIPTION"@.len());
    assert("PKGNAME"@.len() != "FILE_CKSUM"@.len());
    assert("PKGNAME"@.len() != "FILE_NAME"@.len());
    assert("PKGNAME"@.len() != "FILE_SIZE"@.len());
    assert("PKGNAME"@.len() != "HOMEPAGE"@.len());
    assert("PKGNAME"@[0] != "LICENSE"@[0]);
    assert("PKGNAME"@.len() != "MACHINE_ARCH"@.len());
    assert("PKGNAME"@.len() != "OPSYS"@.len());
    assert("PKGNAME"@.len() != "OS_VERSION"@.len());
    assert("PKGNAME"@.len() != "PKG_OPTIONS"@.len());
}

/// Reads a size field.
fn count_of(value: &str) -> (r: Option<i64>)
    ensures
        r == parse_count(value@),
{
    let n = value.unicode_len();
    if n == 0 {
        return None;
    }
    let mut acc: i64 = 0;
    let mut i: usize = 0;
    while i < n
        invariant
            n == value@.len(),
            0 <= i <= n,
            all_digits(value@.subrange(0, i as int)),
            acc as int == digits_value(value@.subrange(0, i as int)),
        decreases n - i,
    {
        let c = value.get_char(i);
        if !('0' <= c && c <= '9') {
            proof {
                assert(!is_digit(value@[i as int]));
            }
            return None;
        }
        let ghost next = value@.subrange(0, i + 1);
        proof {
            assert(next.drop_last() =~= value@.subrange(0, i as int));
            assert(all_digits(next)) by {
                assert forall|j: int| 0 <= j < next.len() implies is_digit(#[trigger] next[j]) by {
                    if j < i {
                        assert(next[j] == value@.subrange(0, i as int)[j]);
                    }
                }
            }
            lemma_digits_value_nonneg(value@.subrange(0, i as int));
        }
        let d = (c as u32 - '0' as u32) as i64;
        let grown = match acc.checked_mul(10) {
            Some(m) => m.checked_add(d),
            None => None,
        };
        match grown {
            Some(v) => {
                acc = v;
            },
            None => {
                proof {
                    if all_digits(value@) {
                        lemma_digits_value_prefix(value@, i + 1);
                    }
                }
                return None;
            },
        }
        i += 1;
    }
    assert(value@.subrange(0, n as int) =~= value@);
    Some(acc)
}

proof fn lemma_last_hyphen(s: Seq<char>)
    ensures
        -1 <= last_hyphen(s) < s.len(),
        last_hyphen(s) >= 0 ==> s[last_hyphen(s)] == '-',
        forall|j: int| last_hyphen(s) < j < s.len() ==> s[j] != '-',
    decreases s.len(),
{
    if s.len() > 0 && s.last() != '-' {
        lemma_last_hyphen(s.drop_last());
        assert forall|j: int| last_hyphen(s) < j < s.len() implies s[j] != '-' by {
            if j < s.len() - 1 {
                assert(s[j] == s.drop_last()[j]);
            }
        }
    }
}

/// Position of the rightmost hyphen of `s`.
fn rightmost_hyphen(s: &str) -> (r: Option<usize>)
    ensures
        match r {
            Some(i) => i == last_hyphen(s@) && i < s@.len(),
            None => last_hyphen(s@) == -1,
        },
{
    let n = s.unicode_len();
    let mut i: usize = n;
    assert(s@.subrange(0, n as int) =~= s@);
    proof {
        lemma_last_hyphen(s@);
    }
    while i > 0
        invariant
            i <= n,
            n == s@.len(),
            last_hyphen(s@) == last_hyphen(s@.subrange(0, i as int)),
        decreases i,
    {
        if s.get_char(i - 1) == '-' {
            return Some(i - 1);
        }
        assert(s@.subrange(0, i as int).drop_last() =~= s@.subrange(0, i - 1));
        i -= 1;
    }
    None
}

impl SummaryEntry {
    /// An entry with every field unset.
    pub fn new() -> (r: SummaryEntry)
        ensures
            r@ == empty_entry(),
    {
        let r = SummaryEntry {
            automatic: None,
            build_date: String::new(),
            categories: Vec::new(),
            comment: String::new(),
            conflicts: Vec::new(),
            depends: Vec::new(),
            description: Vec::new(),
            file_cksum: None,
            file_name: None,
            file_size: None,
            homepage: None,
            license: None,
            machine_arch: String::new(),
            opsys: String::new(),
            os_version: String::new(),
            pkg_options: None,
            pkgbase: String::new(),
            pkgname: String::new(),
            pkgpath: String::new(),
            pkgtools_version: String::new(),
            pkgversion: String::new(),
            prev_pkgpath: None,
            provides: Vec::new(),
            requires: Vec::new(),
            size_pkg: None,
            supersedes: Vec::new(),
        };
        assert(r@.categories =~= Seq::empty());
        assert(r@.conflicts =~= Seq::empty());
        assert(r@.depends =~= Seq::empty());
        assert(r@.description =~= Seq::empty());
        assert(r@.provides =~= Seq::empty());
        assert(r@.requires =~= Seq::empty());
        assert(r@.supersedes =~= Seq::empty());
        r
    }

    /// Applies one `KEY=value` pair.  Multi-valued keys append, scalar keys
    /// overwrite, and `PKGNAME` is also split on its rightmost hyphen into
    /// base name and version.  A name without a hyphen is still recorded,
    /// whole as base name and with an empty version, and reported as
    /// `InvalidPkgname`; on any other error the entry is left as it was.
    pub fn parse_entry(&mut self, key: &str, value: &str) -> (r: Result<(), ParseError>)
        ensures
            r == field_result(key@, value@),
            r is Ok || r == Err::<(), ParseError>(ParseError::InvalidPkgname) ==> final(self)@
                == with_field(old(self)@, key@, value@),
            r == Err::<(), ParseError>(ParseError::UnknownKey) || r == Err::<(), ParseError>(
                ParseError::InvalidNumber,
            ) ==> final(self)@ == old(self)@,
            key@ == "PKGNAME"@ ==> final(self)@.pkgname == value@,
    {
        proof {
            if key@ == "PKGNAME"@ {
                lemma_pkgname_key();
            }
        }
        let f = match classify(key) {
            Some(f) => f,
            None => return Err(ParseError::UnknownKey),
        };
        let v = String::from_str(value);
        match f {
            FieldKey::BuildDate => self.build_date = v,
            FieldKey::Categories => {
                proof { lemma_strs_push(self.categories@, v); }
                self.categories.push(v);
            },
            FieldKey::Comment => self.comment = v,
            FieldKey::Conflicts => {
                proof { lemma_strs_push(self.conflicts@, v); }
                self.conflicts.push(v);
            },
            FieldKey::Depends => {
                proof { lemma_strs_push(self.depends@, v); }
                self.depends.push(v);
            },
            FieldKey::Description => {
                proof { lemma_strs_push(self.description@, v); }
                self.description.push(v);
            },
            FieldKey::FileCksum => self.file_cksum = Some(v),
            FieldKey::FileName => self.file_name = Some(v),
            FieldKey::FileSize => match count_of(value) {
                Some(n) => self.file_size = Some(n),
                None => return Err(ParseError::InvalidNumber),
            },
            FieldKey::Homepage => self.homepage = Some(v),
            FieldKey::License => self.license = Some(v),
            FieldKey::MachineArch => self.machine_arch = v,
            FieldKey::Opsys => self.opsys = v,
            FieldKey::OsVersion => self.os_version = v,
            FieldKey::PkgOptions => self.pkg_options = Some(v),
            FieldKey::Pkgname => match rightmost_hyphen(value) {
                Some(i) => {
                    let n = value.unicode_len();
                    self.pkgbase = String::from_str(value.substring_char(0, i));
                    self.pkgversion = String::from_str(value.substring_char(i + 1, n));
                    self.pkgname = v;
                },
                None => {
                    self.pkgbase = String::from_str(value);
                    self.pkgversion = String::new();
                    self.pkgname = v;
                    return Err(ParseError::InvalidPkgname);
                },
            },
            FieldKey::Pkgpath => self.pkgpath = v,
            FieldKey::PkgtoolsVersion => self.pkgtools_version = v,
            FieldKey::PrevPkgpath => self.prev_pkgpath = Some(v),
            FieldKey::Provides => {
                proof { lemma_strs_push(self.provides@, v); }
                self.provides.push(v);
            },
            FieldKey::Requires => {
                proof { lemma_strs_push(self.requires@, v); }
                self.requires.push(v);
            },
            FieldKey::SizePkg => match count_of(value) {
                Some(n) => self.size_pkg = Some(n),
                None => return Err(ParseError::InvalidNumber),
            },
            FieldKey::Supersedes => {
                proof { lemma_strs_push(self.supersedes@, v); }
                self.supersedes.push(v);
            },
        }
        Ok(())
    }

    /// Marks a locally installed package as pulled in automatically.
    pub fn set_automatic(&mut self)
        ensures
            final(self)@ == (EntryView { automatic: Some(1), ..old(self)@ }),
    {
        self.automatic = Some(1);
    }

    /// Checks that every required field is set: returns the first one
    /// missing, in the order of `RequiredField`.
    pub fn validate(&self) -> (r: Result<(), RequiredField>)
        ensures
            r is Ok <==> is_valid(self@),
            r is Err ==> Some(r->Err_0) == first_missing(self@),
    {
        if self.build_date.as_str().is_empty() {
            return Err(RequiredField::BuildDate);
        }
        if self.comment.as_str().is_empty() {
            return Err(RequiredField::Comment);
        }
        if self.machine_arch.as_str().is_empty() {
            return Err(RequiredField::MachineArch);
        }
        if self.opsys.as_str().is_empty() {
            return Err(RequiredField::Opsys);
        }
        if self.os_version.as_str().is_empty() {
            return Err(RequiredField::OsVersion);
        }
        if self.pkgname.as_str().is_empty() {
            return Err(RequiredField::Pkgname);
        }
        if self.pkgpath.as_str().is_empty() {
            return Err(RequiredField::Pkgpath);
        }
        if self.pkgtools_version.as_str().is_empty() {
            return Err(RequiredField::PkgtoolsVersion);
        }
        if self.size_pkg.is_none() {
            return Err(RequiredField::SizePkg);
        }
        Ok(())
    }
}

/// A record being read: the entry so far, and whether every line so far
/// was well formed.
pub struct RecordView {
    pub entry: EntryView,
    pub ok: bool,
    pub started: bool,
}

pub open spec fn fresh_record() -> RecordView {
    RecordView { entry: empty_entry(), ok: true, started: false }
}

/// A problem met while reading a record, reported to the caller.  Unknown
/// keys are passed over; every other problem drops its record.
#[derive(Clone, Copy, Debug, PartialEq, Eq, Structural)]
pub enum RecordError {
    /// A line whose key names no known field.
    UnknownKey,
    /// A line without `=`.
    MalformedLine,
    /// A size field that is not a decimal number fitting in `i64`.
    InvalidNumber,
    /// A package name with no hyphen.
    InvalidPkgname,
    /// A finished record that lacks this required field.
    Missing(RequiredField),
}

/// Index of the first `=` in a line, or -1 when there is none.
pub open spec fn first_eq(line: Seq<u8>) -> int
    decreases line.len(),
{
    if line.len() == 0 {
        -1
    } else if line[0] == 61 {
        0
    } else if first_eq(line.drop_first()) < 0 {
        -1
    } else {
        first_eq(line.drop_first()) + 1
    }
}

/// Reads one non-empty line of a record.  A line without `=` spoils the
/// record, as does a size or a package name that does not parse (the name
/// is still recorded); an unknown key is passed over.
pub open spec fn apply_line(r: RecordView, line: Seq<u8>) -> RecordView {
    let e = first_eq(line);
    if e < 0 {
        RecordView { ok: false, started: true, ..r }
    } else {
        let k = decode_utf8(line.subrange(0, e));
        let v = decode_utf8(line.subrange(e + 1, line.len() as int));
        match field_result(k, v) {
            Ok(_) => RecordView { entry: with_field(r.entry, k, v), ok: r.ok, started: true },
            Err(ParseError::UnknownKey) => RecordView { started: true, ..r },
            Err(ParseError::InvalidPkgname) => RecordView {
                entry: with_field(r.entry, k, v),
                ok: false,
                started: true,
            },
            Err(_) => RecordView { ok: false, started: true, ..r },
        }
    }
}

/// The problem a non-empty line reports, if any.
pub open spec fn line_log(line: Seq<u8>) -> Seq<RecordError> {
    let e = first_eq(line);
    if e < 0 {
        seq![RecordError::MalformedLine]
    } else {
        match field_result(
            decode_utf8(line.subrange(0, e)),
            decode_utf8(line.subrange(e + 1, line.len() as int)),
        ) {
            Ok(_) => Seq::empty(),
            Err(ParseError::UnknownKey) => seq![RecordError::UnknownKey],
            Err(ParseError::InvalidNumber) => seq![RecordError::InvalidNumber],
            Err(ParseError::InvalidPkgname) => seq![RecordError::InvalidPkgname],
        }
    }
}

/// The problem a finished record reports: the first required field that a
/// well-formed record lacks.
pub open spec fn close_log(r: RecordView) -> Seq<RecordError> {
    if r.started && r.ok && !is_valid(r.entry) {
        seq![RecordError::Missing(first_missing(r.entry)->Some_0)]
    } else {
        Seq::empty()
    }
}

/// A finished record joins the entries when it is well formed and valid.
pub open spec fn close_record(done: Seq<EntryView>, r: RecordView) -> Seq<EntryView> {
    if r.ok && is_valid(r.entry) {
        done.push(r.entry)
    } else {
        done
    }
}

/// Where a scan of the text stands: the entries found, the problems
/// reported, the record being read, and the bytes of the line not yet ended.
pub struct ScanView {
    pub done: Seq<EntryView>,
    pub log: Seq<RecordError>,
    pub rec: RecordView,
    pub line: Seq<u8>,
}

pub open spec fn scan_start(done: Seq<EntryView>, log: Seq<RecordError>) -> ScanView {
    ScanView { done, log, rec: fresh_record(), line: Seq::empty() }
}

/// One byte of text.  A line feed ends a line; an empty line ends a record.
pub open spec fn scan_step(s: ScanView, b: u8) -> ScanView {
    if b == 10 {
        if s.line.len() == 0 {
            ScanView {
                done: close_record(s.done, s.rec),
                log: s.log + close_log(s.rec),
                rec: fresh_record(),
                line: Seq::empty(),
            }
        } else {
            ScanView {
                log: s.log + line_log(s.line),
                rec: apply_line(s.rec, s.line),
                line: Seq::empty(),
                ..s
            }
        }
    } else {
        ScanView { line: s.line.push(b), ..s }
    }
}

pub open spec fn scan(s: ScanView, bytes: Seq<u8>) -> ScanView
    decreases bytes.len(),
{
    if bytes.len() == 0 {
        s
    } else {
        scan_step(scan(s, bytes.drop_last()), bytes.last())
    }
}

/// The entries of a block of complete records, appended to `done`.
pub open spec fn parse_records(done: Seq<EntryView>, bytes: Seq<u8>) -> Seq<EntryView> {
    scan(scan_start(done, Seq::empty()), bytes).done
}

/// A record boundary (two line feeds) starts at `i`.
pub open spec fn is_break(b: Seq<u8>, i: int) -> bool {
    0 <= i && i + 1 < b.len() && b[i] == 10 && b[i + 1] == 10
}

/// Start of the last record boundary that begins before `n`, or -1.
pub open spec fn last_break(b: Seq<u8>, n: int) -> int
    decreases n,
{
    if n <= 0 {
        -1
    } else if is_break(b, n - 1) {
        n - 1
    } else {
        last_break(b, n - 1)
    }
}

/// The state of a stream: bytes held back, the entries found so far, and
/// the problems reported so far.
pub struct StreamView {
    pub buf: Seq<u8>,
    pub entries: Seq<EntryView>,
    pub errors: Seq<RecordError>,
}

pub open spec fn empty_stream() -> StreamView {
    StreamView { buf: Seq::empty(), entries: Seq::empty(), errors: Seq::empty() }
}

/// One chunk of input.  Everything up to the last record boundary is
/// decoded and parsed, the rest is held back; `None` when that part is not
/// valid UTF-8.
pub open spec fn feed(s: StreamView, input: Seq<u8>) -> Option<StreamView> {
    let b = s.buf + input;
    let i = last_break(b, b.len() as int);
    if i < 0 {
        Some(StreamView { buf: b, ..s })
    } else if valid_utf8(b.subrange(0, i + 2)) {
        let t = scan(scan_start(s.entries, s.errors), b.subrange(0, i + 2));
        Some(StreamView { buf: b.subrange(i + 2, b.len() as int), entries: t.done, errors: t.log })
    } else {
        None
    }
}

pub open spec fn entry_views(v: Seq<SummaryEntry>) -> Seq<EntryView> {
    v.map_values(|e: SummaryEntry| e@)
}

/// Why a chunk of input could not be taken.
#[derive(Clone, Copy, Debug, PartialEq, Eq, Structural)]
pub enum StreamError {
    /// The complete records are not valid UTF-8.
    InvalidEncoding,
}

/// Relies on `std::str::from_utf8`: it succeeds exactly on valid UTF-8.
#[verifier::external_body]
fn is_utf8(b: &[u8], end: usize) -> (r: bool)
    requires
        end <= b@.len(),
    ensures
        r == valid_utf8(b@.subrange(0, end as int)),
{
    std::str::from_utf8(&b[..end]).is_ok()
}

/// Relies on `String::from_utf8_lossy`: on valid UTF-8 it returns exactly
/// the text that the bytes encode.
#[verifier::external_body]
fn text_of(b: &[u8], start: usize, end: usize) -> (r: String)
    requires
        start <= end <= b@.len(),
        valid_utf8(b@.subrange(start as int, end as int)),
    ensures
        r@ == decode_utf8(b@.subrange(start as int, end as int)),
{
    String::from_utf8_lossy(&b[start..end]).into_owned()
}

/// Cutting valid UTF-8 at an ASCII byte leaves valid UTF-8 on both sides.
proof fn lemma_ascii_cut(x: Seq<u8>, m: int)
    requires
        valid_utf8(x),
        0 <= m < x.len(),
        x[m] < 128,
    ensures
        valid_utf8(x.subrange(0, m)),
        valid_utf8(x.subrange(m + 1, x.len() as int)),
{
    is_char_boundary_iff_not_is_continuation_byte(x, m);
    valid_utf8_split(x, m);
    let y = x.subrange(m, x.len() as int);
    assert(y[0] == x[m]);
    assert(pop_first_scalar(y) =~= x.subrange(m + 1, x.len() as int));
}

proof fn lemma_first_eq(line: Seq<u8>)
    ensures
        -1 <= first_eq(line) < line.len(),
        first_eq(line) >= 0 ==> line[first_eq(line)] == 61,
        forall|j: int|
            0 <= j < line.len() && (first_eq(line) < 0 || j < first_eq(line)) ==> line[j] != 61,
    decreases line.len(),
{
    if line.len() > 0 && line[0] != 61 {
        let t = line.drop_first();
        lemma_first_eq(t);
        assert forall|j: int|
            0 <= j < line.len() && (first_eq(line) < 0 || j < first_eq(line)) implies line[j]
            != 61 by {
            if j > 0 {
                assert(line[j] == t[j - 1]);
            }
        }
    }
}

/// Reads the line `b[start..end]` into the record `cur`.
fn read_line(
    b: &[u8],
    start: usize,
    end: usize,
    cur: &mut SummaryEntry,
    ok: &mut bool,
    started: &mut bool,
    errors: &mut Vec<RecordError>,
)
    requires
        start < end <= b@.len(),
        valid_utf8(b@.subrange(start as int, end as int)),
    ensures
        (RecordView { entry: final(cur)@, ok: *final(ok), started: *final(started) })
            == apply_line(
            RecordView { entry: old(cur)@, ok: *old(ok), started: *old(started) },
            b@.subrange(start as int, end as int),
        ),
        final(errors)@ == old(errors)@ + line_log(b@.subrange(start as int, end as int)),
{
    let ghost line = b@.subrange(start as int, end as int);
    proof {
        lemma_first_eq(line);
    }
    let mut k: usize = start;
    while k < end
        invariant
            start <= k <= end <= b@.len(),
            line == b@.subrange(start as int, end as int),
            forall|j: int| start <= j < k ==> b@[j] != 61,
        ensures
            start <= k <= end,
            forall|j: int| start <= j < k ==> b@[j] != 61,
            k < end ==> b@[k as int] == 61,
        decreases end - k,
    {
        if b[k] == 61 {
            break;
        }
        k += 1;
    }
    if k == end {
        proof {
            if first_eq(line) >= 0 {
                assert(line[first_eq(line)] == b@[start + first_eq(line)]);
            }
        }
        *ok = false;
        *started = true;
        let ghost before = errors@;
        errors.push(RecordError::MalformedLine);
        assert(errors@ =~= before + seq![RecordError::MalformedLine]);
        return;
    }
    proof {
        assert(line[k - start] == 61);
        if first_eq(line) >= 0 && first_eq(line) < k - start {
            assert(line[first_eq(line)] == b@[start + first_eq(line)]);
        }
        assert(first_eq(line) == k - start);
        lemma_ascii_cut(line, k - start);
        assert(line.subrange(0, k - start) =~= b@.subrange(start as int, k as int));
        assert(line.subrange(k - start + 1, line.len() as int) =~= b@.subrange(
            k + 1,
            end as int,
        ));
    }
    let key = text_of(b, start, k);
    let value = text_of(b, k + 1, end);
    *started = true;
    let ghost before = errors@;
    match cur.parse_entry(key.as_str(), value.as_str()) {
        Ok(()) => {
            assert(errors@ =~= before + Seq::<RecordError>::empty());
        },
        Err(ParseError::UnknownKey) => {
            errors.push(RecordError::UnknownKey);
            assert(errors@ =~= before + seq![RecordError::UnknownKey]);
        },
        Err(ParseError::InvalidNumber) => {
            *ok = false;
            errors.push(RecordError::InvalidNumber);
            assert(errors@ =~= before + seq![RecordError::InvalidNumber]);
        },
        Err(ParseError::InvalidPkgname) => {
            *ok = false;
            errors.push(RecordError::InvalidPkgname);
            assert(errors@ =~= before + seq![RecordError::InvalidPkgname]);
        },
    }
}

pub proof fn lemma_entry_views_push(v: Seq<SummaryEntry>, e: SummaryEntry)
    ensures
        entry_views(v.push(e)) == entry_views(v).push(e@),
{
    assert(entry_views(v.push(e)) =~= entry_views(v).push(e@));
}

/// Parses the records in `b[..end]`, appending the valid entries.
fn parse_block(
    b: &[u8],
    end: usize,
    entries: &mut Vec<SummaryEntry>,
    errors: &mut Vec<RecordError>,
)
    requires
        end <= b@.len(),
        valid_utf8(b@.subrange(0, end as int)),
    ensures
        entry_views(final(entries)@) == scan(
            scan_start(entry_views(old(entries)@), old(errors)@),
            b@.subrange(0, end as int),
        ).done,
        final(errors)@ == scan(
            scan_start(entry_views(old(entries)@), old(errors)@),
            b@.subrange(0, end as int),
        ).log,
{
    let ghost start = scan_start(entry_views(entries@), errors@);
    let mut cur = SummaryEntry::new();
    let mut ok = true;
    let mut started = false;
    let mut line_start: usize = 0;
    let mut j: usize = 0;
    assert(b@.subrange(0, 0) =~= Seq::<u8>::empty());
    assert(b@.subrange(0, end as int).subrange(0, end as int) =~= b@.subrange(0, end as int));
    while j < end
        invariant
            end <= b@.len(),
            0 <= line_start <= j <= end,
            valid_utf8(b@.subrange(line_start as int, end as int)),
            scan(start, b@.subrange(0, j as int)) == (ScanView {
                done: entry_views(entries@),
                log: errors@,
                rec: RecordView { entry: cur@, ok, started },
                line: b@.subrange(line_start as int, j as int),
            }),
        decreases end - j,
    {
        let ghost before = b@.subrange(0, j as int);
        assert(b@.subrange(0, j + 1).drop_last() =~= before);
        if b[j] == 10 {
            let ghost rest = b@.subrange(line_start as int, end as int);
            proof {
                assert(rest[j - line_start] == b@[j as int]);
                lemma_ascii_cut(rest, j - line_start);
                assert(rest.subrange(0, j - line_start) =~= b@.subrange(
                    line_start as int,
                    j as int,
                ));
                assert(rest.subrange(j - line_start + 1, rest.len() as int) =~= b@.subrange(
                    j + 1,
                    end as int,
                ));
            }
            if j == line_start {
                let ghost log0 = errors@;
                let ghost rv = RecordView { entry: cur@, ok, started };
                if ok {
                    match cur.validate() {
                        Ok(()) => {
                            proof {
                                lemma_entry_views_push(entries@, cur);
                            }
                            entries.push(cur);
                        },
                        Err(f) => {
                            if started {
                                errors.push(RecordError::Missing(f));
                            }
                        },
                    }
                }
                proof {
                    assert(errors@ =~= log0 + close_log(rv)) by {
                        if !(ok && started) {
                            assert(errors@ =~= log0);
                        }
                    }
                }
                cur = SummaryEntry::new();
                ok = true;
                started = false;
            } else {
                read_line(b, line_start, j, &mut cur, &mut ok, &mut started, errors);
            }
            line_start = j + 1;
            assert(b@.subrange(line_start as int, j + 1) =~= Seq::<u8>::empty());
        } else {
            assert(b@.subrange(line_start as int, j + 1) =~= b@.subrange(
                line_start as int,
                j as int,
            ).push(b@[j as int]));
        }
        j += 1;
    }
}


/// What an xz stream decompresses to; `None` when it is not a valid stream.
pub uninterp spec fn xz_decoded(b: Seq<u8>) -> Option<Seq<u8>>;

/// What a bzip2 stream decompresses to; `None` when it is not a valid stream.
pub uninterp spec fn bz2_decoded(b: Seq<u8>) -> Option<Seq<u8>>;

/// What a gzip stream decompresses to; `None` when it is not a valid stream.
pub uninterp spec fn gz_decoded(b: Seq<u8>) -> Option<Seq<u8>>;

pub open spec fn opt_bytes(o: Option<Vec<u8>>) -> Option<Seq<u8>> {
    match o {
        Some(v) => Some(v@),
        None => None,
    }
}

/// Relies on `xz2::read::XzDecoder`: the bytes it yields depend on the
/// input alone.
#[verifier::external_body]
fn decode_xz(b: &[u8]) -> (r: Option<Vec<u8>>)
    ensures
        opt_bytes(r) == xz_decoded(b@),
{
    let mut out = Vec::new();
    match std::io::Read::read_to_end(&mut xz2::read::XzDecoder::new(b), &mut out) {
        Ok(_) => Some(out),
        Err(_) => None,
    }
}

/// Relies on `bzip2::read::BzDecoder`: the bytes it yields depend on the
/// input alone.
#[verifier::external_body]
fn decode_bz2(b: &[u8]) -> (r: Option<Vec<u8>>)
    ensures
        opt_bytes(r) == bz2_decoded(b@),
{
    let mut out = Vec::new();
    match std::io::Read::read_to_end(&mut bzip2::read::BzDecoder::new(b), &mut out) {
        Ok(_) => Some(out),
        Err(_) => None,
    }
}

/// Relies on `flate2::read::GzDecoder`: the bytes it yields depend on the
/// input alone.
#[verifier::external_body]
fn decode_gz(b: &[u8]) -> (r: Option<Vec<u8>>)
    ensures
        opt_bytes(r) == gz_decoded(b@),
{
    let mut out = Vec::new();
    match std::io::Read::read_to_end(&mut flate2::read::GzDecoder::new(b), &mut out) {
        Ok(_) => Some(out),
        Err(_) => None,
    }
}

/// The document that a body with the given suffix holds; the outer `None`
/// for a suffix with no decoder.
pub open spec fn decompressed(sumext: Seq<char>, body: Seq<u8>) -> Option<Option<Seq<u8>>> {
    if sumext == "xz"@ {
        Some(xz_decoded(body))
    } else if sumext == "bz2"@ {
        Some(bz2_decoded(body))
    } else if sumext == "gz"@ {
        Some(gz_decoded(body))
    } else {
        None
    }
}

/// Why a compressed document could not be taken.
#[derive(Clone, Copy, Debug, PartialEq, Eq, Structural)]
pub enum SlurpError {
    /// No decoder for that suffix.
    UnsupportedSuffix,
    /// The body is not a valid stream of its kind.
    Corrupt,
    /// The decoded document was refused.
    Stream(StreamError),
}

/// Turns a stream of byte chunks into entries, one complete record at a
/// time, whatever the sizes of the chunks.
#[derive(Debug)]
pub struct SummaryStream {
    buf: Vec<u8>,
    entries: Vec<SummaryEntry>,
    errors: Vec<RecordError>,
}

impl View for SummaryStream {
    type V = StreamView;

    closed spec fn view(&self) -> StreamView {
        StreamView { buf: self.buf@, entries: entry_views(self.entries@), errors: self.errors@ }
    }
}

impl SummaryStream {
    /// A stream that has seen no input.
    pub fn new() -> (r: SummaryStream)
        ensures
            r@ == empty_stream(),
    {
        let r = SummaryStream { buf: Vec::new(), entries: Vec::new(), errors: Vec::new() };
        assert(r@.entries =~= Seq::<EntryView>::empty());
        assert(r@.errors =~= Seq::<RecordError>::empty());
        r
    }

    /// Takes the next chunk of a document.  The bytes up to the last record
    /// boundary are parsed and their valid entries kept; the rest waits for
    /// more input.  When those bytes are not valid UTF-8 nothing changes and
    /// `InvalidEncoding` is returned.
    pub fn write(&mut self, input: &[u8]) -> (r: Result<usize, StreamError>)
        ensures
            match feed(old(self)@, input@) {
                Some(t) => r == Ok::<usize, StreamError>(input@.len() as usize) && final(self)@ == t,
                None => r == Err::<usize, StreamError>(StreamError::InvalidEncoding)
                    && final(self)@ == old(self)@,
            },
    {
        let old_len = self.buf.len();
        let mut i: usize = 0;
        while i < input.len()
            invariant
                0 <= i <= input@.len(),
                self.buf@ == old(self).buf@ + input@.subrange(0, i as int),
                self.entries@ == old(self).entries@,
                self.errors@ == old(self).errors@,
            decreases input@.len() - i,
        {
            assert(input@.subrange(0, i + 1) =~= input@.subrange(0, i as int).push(input@[i as int]));
            self.buf.push(input[i]);
            i += 1;
        }
        assert(input@.subrange(0, input@.len() as int) =~= input@);
        let ghost b = self.buf@;
        let n = self.buf.len();
        let mut m: usize = n;
        let mut found = false;
        while m > 0
            invariant_except_break
                !found,
            invariant
                m <= n,
                n == b.len(),
                b == self.buf@,
                last_break(b, n as int) == last_break(b, m as int),
            ensures
                found ==> m > 0 && m < n && last_break(b, n as int) == m - 1,
                !found ==> last_break(b, n as int) == -1,
            decreases m,
        {
            if m < n && self.buf[m - 1] == 10 && self.buf[m] == 10 {
                found = true;
                break;
            }
            m -= 1;
        }
        if !found {
            return Ok(input.len());
        }
        let end = m + 1;
        if !is_utf8(&self.buf, end) {
            self.buf.truncate(old_len);
            assert(self.buf@ =~= old(self).buf@);
            return Err(StreamError::InvalidEncoding);
        }
        parse_block(&self.buf, end, &mut self.entries, &mut self.errors);
        let rest = self.buf.split_off(end);
        self.buf = rest;
        Ok(input.len())
    }

    /// Decompresses a whole document body by its suffix (`xz`, `bz2` or
    /// `gz`) and writes the document into the stream.  On an error nothing
    /// changes.
    pub fn slurp(&mut self, sumext: &str, body: &[u8]) -> (r: Result<usize, SlurpError>)
        ensures
            match decompressed(sumext@, body@) {
                None => r == Err::<usize, SlurpError>(SlurpError::UnsupportedSuffix)
                    && final(self)@ == old(self)@,
                Some(None) => r == Err::<usize, SlurpError>(SlurpError::Corrupt) && final(self)@
                    == old(self)@,
                Some(Some(doc)) => match feed(old(self)@, doc) {
                    Some(t) => r == Ok::<usize, SlurpError>(doc.len() as usize) && final(self)@
                        == t,
                    None => r == Err::<usize, SlurpError>(
                        SlurpError::Stream(StreamError::InvalidEncoding),
                    ) && final(self)@ == old(self)@,
                },
            },
    {
        let doc = if str_eq(sumext, "xz") {
            decode_xz(body)
        } else if str_eq(sumext, "bz2") {
            decode_bz2(body)
        } else if str_eq(sumext, "gz") {
            decode_gz(body)
        } else {
            return Err(SlurpError::UnsupportedSuffix);
        };
        match doc {
            Some(d) => match self.write(d.as_slice()) {
                Ok(n) => Ok(n),
                Err(e) => Err(SlurpError::Stream(e)),
            },
            None => Err(SlurpError::Corrupt),
        }
    }

    /// The entries parsed so far, in document order.
    pub fn entries(&self) -> (r: &Vec<SummaryEntry>)
        ensures
            entry_views(r@) == self@.entries,
    {
        &self.entries
    }

    /// The entries, for the caller to amend in place.
    pub fn entries_mut(&mut self) -> (r: &mut Vec<SummaryEntry>)
        ensures
            entry_views(r@) == old(self)@.entries,
            final(self)@ == (StreamView {
                buf: old(self)@.buf,
                entries: entry_views(final(r)@),
                errors: old(self)@.errors,
            }),
    {
        &mut self.entries
    }

    /// The problems reported so far, in document order: unknown keys, and
    /// the reason each dropped record was dropped.
    pub fn errors(&self) -> (r: &Vec<RecordError>)
        ensures
            r@ == self@.errors,
    {
        &self.errors
    }

    /// The bytes held back after the last complete record.
    pub fn pending(&self) -> (r: &Vec<u8>)
        ensures
            r@ == self@.buf,
    {
        &self.buf
    }
}


/// Feeds the chunks one at a time; `None` once a chunk is refused.
pub open spec fn feed_all(s: StreamView, chunks: Seq<Seq<u8>>) -> Option<StreamView>
    decreases chunks.len(),
{
    if chunks.len() == 0 {
        Some(s)
    } else {
        match feed_all(s, chunks.drop_last()) {
            Some(t) => feed(t, chunks.last()),
            None => None,
        }
    }
}

/// The chunks joined into one document.
pub open spec fn concat_all(chunks: Seq<Seq<u8>>) -> Seq<u8>
    decreases chunks.len(),
{
    if chunks.len() == 0 {
        Seq::empty()
    } else {
        concat_all(chunks.drop_last()) + chunks.last()
    }
}

/// Empty, or ending in a record boundary.
spec fn ends_at_boundary(c: Seq<u8>) -> bool {
    c.len() == 0 || (c.len() >= 2 && c[c.len() - 2] == 10 && c[c.len() - 1] == 10)
}

spec fn no_break(b: Seq<u8>) -> bool {
    forall|j: int| !#[trigger] is_break(b, j)
}

proof fn lemma_last_break(b: Seq<u8>, n: int)
    requires
        n <= b.len(),
    ensures
        -1 <= last_break(b, n) < if n < 0 {
            0
        } else {
            n
        },
        last_break(b, n) >= 0 ==> is_break(b, last_break(b, n)),
        forall|j: int| last_break(b, n) < j < n ==> !#[trigger] is_break(b, j),
    decreases n,
{
    if n > 0 && !is_break(b, n - 1) {
        lemma_last_break(b, n - 1);
    }
}

proof fn lemma_scan_concat(s: ScanView, x: Seq<u8>, y: Seq<u8>)
    ensures
        scan(s, x + y) == scan(scan(s, x), y),
    decreases y.len(),
{
    if y.len() == 0 {
        assert(x + y =~= x);
    } else {
        assert((x + y).drop_last() =~= x + y.drop_last());
        assert((x + y).last() == y.last());
        lemma_scan_concat(s, x, y.drop_last());
    }
}

/// A scan of a whole document, from the start.
pub open spec fn scan_all(c: Seq<u8>) -> ScanView {
    scan(scan_start(Seq::empty(), Seq::empty()), c)
}

/// After a record boundary a scan has no record or line in progress.
proof fn lemma_scan_at_boundary(done: Seq<EntryView>, log: Seq<RecordError>, c: Seq<u8>)
    requires
        ends_at_boundary(c),
    ensures
        scan(scan_start(done, log), c) == scan_start(
            scan(scan_start(done, log), c).done,
            scan(scan_start(done, log), c).log,
        ),
{
    if c.len() > 0 {
        let c1 = c.drop_last();
        assert(c1.last() == 10);
        assert(scan(scan_start(done, log), c1).line =~= Seq::<u8>::empty());
    }
}

proof fn lemma_line_feed_valid()
    ensures
        valid_utf8(seq![10u8]),
{
    reveal_with_fuel(valid_utf8, 2);
    let s = seq![10u8];
    assert(s[0] == 10u8);
    assert(is_leading_byte_width_1(s[0]));
    assert(length_of_first_scalar(s) == 1);
    assert(pop_first_scalar(s) =~= Seq::<u8>::empty());
}

/// Adding the line feed that completes a boundary changes no entry and
/// reports nothing.
proof fn lemma_extra_line_feed(c: Seq<u8>)
    requires
        ends_at_boundary(c),
    ensures
        scan_all(c.push(10)).done == scan_all(c).done,
        scan_all(c.push(10)).log == scan_all(c).log,
{
    lemma_scan_at_boundary(Seq::empty(), Seq::empty(), c);
    assert(c.push(10).drop_last() =~= c);
    assert(scan_all(c).log + close_log(fresh_record()) =~= scan_all(c).log);
}

/// What holds after each chunk: the document so far is the consumed part
/// followed by the held bytes, or a refused boundary lies in it.
spec fn feed_state(o: Option<StreamView>, d: Seq<u8>) -> bool {
    match o {
        Some(t) => t.buf.len() <= d.len() && {
            let c = d.subrange(0, d.len() - t.buf.len());
            &&& d =~= c + t.buf
            &&& ends_at_boundary(c)
            &&& valid_utf8(c)
            &&& t.entries == scan_all(c).done
            &&& t.errors == scan_all(c).log
            &&& no_break(t.buf)
        },
        None => exists|m: int| is_break(d, m) && !valid_utf8(#[trigger] d.subrange(0, m + 2)),
    }
}

proof fn lemma_feed_state(chunks: Seq<Seq<u8>>)
    ensures
        feed_state(feed_all(empty_stream(), chunks), concat_all(chunks)),
    decreases chunks.len(),
{
    broadcast use vstd::utf8::valid_utf8_concat;

    if chunks.len() == 0 {
        assert(concat_all(chunks) =~= Seq::<u8>::empty());
        assert(Seq::<u8>::empty().subrange(0, 0) =~= Seq::<u8>::empty());
        assert(no_break(Seq::<u8>::empty()));
        return;
    }
    let init = chunks.drop_last();
    let last = chunks.last();
    lemma_feed_state(init);
    let d0 = concat_all(init);
    let d = concat_all(chunks);
    assert(d == d0 + last);
    match feed_all(empty_stream(), init) {
        None => {
            let m = choose|m: int| is_break(d0, m) && !valid_utf8(#[trigger] d0.subrange(0, m + 2));
            assert(d.subrange(0, m + 2) =~= d0.subrange(0, m + 2));
            assert(is_break(d, m));
        },
        Some(t) => {
            let c0 = d0.subrange(0, d0.len() - t.buf.len());
            let b = t.buf + last;
            let i = last_break(b, b.len() as int);
            lemma_last_break(b, b.len() as int);
            assert(d =~= c0 + b);
            if i < 0 {
                assert(d.subrange(0, d.len() - b.len()) =~= c0);
                assert(no_break(b));
            } else {
                let p = b.subrange(0, i + 2);
                let rest = b.subrange(i + 2, b.len() as int);
                if valid_utf8(p) {
                    let c1 = c0 + p;
                    assert(d.subrange(0, d.len() - rest.len()) =~= c1);
                    assert(d =~= c1 + rest);
                    assert(no_break(rest)) by {
                        assert forall|j: int| !#[trigger] is_break(rest, j) by {
                            if is_break(rest, j) {
                                assert(is_break(b, j + i + 2));
                            }
                        }
                    }
                    lemma_scan_at_boundary(Seq::empty(), Seq::empty(), c0);
                    lemma_scan_concat(scan_start(Seq::empty(), Seq::empty()), c0, p);
                } else {
                    let m = c0.len() + i;
                    assert(is_break(d, m));
                    assert(d.subrange(0, m + 2) =~= c0 + p);
                    if valid_utf8(c0 + p) && c0.len() > 0 {
                        let x = c0 + p;
                        lemma_ascii_cut(x, c0.len() - 1);
                        assert(x.subrange(c0.len() as int, x.len() as int) =~= p);
                    }
                    if c0.len() == 0 {
                        assert(c0 + p =~= p);
                    }
                }
            }
        },
    }
}

/// A refused boundary in the document makes feeding it whole refused too.
proof fn lemma_whole_refused(d: Seq<u8>, m: int)
    requires
        is_break(d, m),
        !valid_utf8(d.subrange(0, m + 2)),
    ensures
        feed(empty_stream(), d) is None,
{
    assert(empty_stream().buf + d =~= d);
    let i = last_break(d, d.len() as int);
    lemma_last_break(d, d.len() as int);
    assert(i >= m);
    if valid_utf8(d.subrange(0, i + 2)) {
        let x = d.subrange(0, i + 2);
        lemma_ascii_cut(x, m + 1);
        lemma_line_feed_valid();
        vstd::utf8::valid_utf8_concat(x.subrange(0, m + 1), seq![10u8]);
        assert(x.subrange(0, m + 1) + seq![10u8] =~= d.subrange(0, m + 2));
    }
}

/// A document that is a consumed part followed by held bytes, fed whole,
/// yields the entries of the consumed part.
#[verifier::rlimit(60)]
proof fn lemma_whole_accepted(d: Seq<u8>, c: Seq<u8>, held: Seq<u8>)
    requires
        d == c + held,
        ends_at_boundary(c),
        valid_utf8(c),
        no_break(held),
    ensures
        feed(empty_stream(), d) is Some,
        feed(empty_stream(), d)->Some_0.entries == scan_all(c).done,
        feed(empty_stream(), d)->Some_0.errors == scan_all(c).log,
{
    assert(empty_stream().buf + d =~= d);
    let i = last_break(d, d.len() as int);
    lemma_last_break(d, d.len() as int);
    if c.len() == 0 {
        assert forall|j: int| !is_break(d, j) by {
            if is_break(d, j) {
                assert(is_break(held, j));
            }
        }
        assert(scan_all(c) == scan_start(Seq::empty(), Seq::empty()));
    } else {
        assert(is_break(d, c.len() - 2));
        assert forall|j: int| j >= c.len() implies !is_break(d, j) by {
            if is_break(d, j) {
                assert(is_break(held, j - c.len()));
            }
        }
        if i == c.len() - 2 {
            assert(d.subrange(0, i + 2) =~= c);
        } else {
            assert(i == c.len() - 1);
            assert(d.subrange(0, i + 2) =~= c.push(10));
            lemma_line_feed_valid();
            vstd::utf8::valid_utf8_concat(c, seq![10u8]);
            assert(c.push(10) =~= c + seq![10u8]);
            lemma_extra_line_feed(c);
        }
    }
}

/// Chunking invariance: feeding a document in chunks, one at a time, is
/// refused exactly when feeding it whole is, and otherwise yields the same
/// entries, in the same order, and reports the same problems.
pub proof fn lemma_chunking_invariance(chunks: Seq<Seq<u8>>)
    ensures
        feed_all(empty_stream(), chunks) is Some <==> feed(empty_stream(), concat_all(chunks)) is Some,
        feed_all(empty_stream(), chunks) is Some ==> feed_all(empty_stream(), chunks)->Some_0.entries
            == feed(empty_stream(), concat_all(chunks))->Some_0.entries,
        feed_all(empty_stream(), chunks) is Some ==> feed_all(empty_stream(), chunks)->Some_0.errors
            == feed(empty_stream(), concat_all(chunks))->Some_0.errors,
{
    lemma_feed_state(chunks);
    let d = concat_all(chunks);
    match feed_all(empty_stream(), chunks) {
        None => {
            let m = choose|m: int| is_break(d, m) && !valid_utf8(#[trigger] d.subrange(0, m + 2));
            lemma_whole_refused(d, m);
        },
        Some(t) => {
            let c = d.subrange(0, d.len() - t.buf.len());
            lemma_whole_accepted(d, c, t.buf);
        },
    }
}

/// No entry that lacks a required field is ever parsed: a scan only adds
/// valid entries after the ones it started with.
pub proof fn lemma_parsed_entries_valid(s: ScanView, bytes: Seq<u8>)
    ensures
        scan(s, bytes).done.len() >= s.done.len(),
        scan(s, bytes).done.subrange(0, s.done.len() as int) == s.done,
        forall|k: int|
            s.done.len() <= k < scan(s, bytes).done.len() ==> is_valid(
                #[trigger] scan(s, bytes).done[k],
            ),
    decreases bytes.len(),
{
    if bytes.len() == 0 {
        assert(s.done.subrange(0, s.done.len() as int) =~= s.done);
    } else {
        let t = scan(s, bytes.drop_last());
        lemma_parsed_entries_valid(s, bytes.drop_last());
        let u = scan_step(t, bytes.last());
        assert(u.done.subrange(0, s.done.len() as int) =~= t.done.subrange(
            0,
            s.done.len() as int,
        ));
    }
}

/// Every well-formed record that has all its required fields is kept: when
/// the bytes `rec` read one whole record, the blank line that follows adds
/// exactly its entry to the output.
pub proof fn lemma_complete_record_kept(done: Seq<EntryView>, log: Seq<RecordError>, rec: Seq<u8>)
    requires
        scan(scan_start(done, log), rec).done == done,
        scan(scan_start(done, log), rec).line.len() == 0,
        scan(scan_start(done, log), rec).rec.ok,
        is_valid(scan(scan_start(done, log), rec).rec.entry),
    ensures
        scan(scan_start(done, log), rec.push(10)).done == done.push(
            scan(scan_start(done, log), rec).rec.entry,
        ),
{
    assert(rec.push(10).drop_last() =~= rec);
}

/// A stream holds only valid entries: a chunk accepted by a stream whose
/// entries are all valid leaves every entry valid, the earlier ones kept in
/// place.
pub proof fn lemma_feed_keeps_valid(s: StreamView, input: Seq<u8>)
    requires
        forall|k: int| 0 <= k < s.entries.len() ==> is_valid(#[trigger] s.entries[k]),
    ensures
        feed(s, input) is Some ==> feed(s, input)->Some_0.entries.subrange(0, s.entries.len() as int)
            == s.entries,
        feed(s, input) is Some ==> forall|k: int|
            0 <= k < feed(s, input)->Some_0.entries.len() ==> is_valid(
                #[trigger] feed(s, input)->Some_0.entries[k],
            ),
{
    let b = s.buf + input;
    let i = last_break(b, b.len() as int);
    if i < 0 {
        assert(s.entries.subrange(0, s.entries.len() as int) =~= s.entries);
    } else if valid_utf8(b.subrange(0, i + 2)) {
        let st = scan_start(s.entries, s.errors);
        let p = b.subrange(0, i + 2);
        lemma_parsed_entries_valid(st, p);
        let t = scan(st, p).done;
        assert forall|k: int| 0 <= k < t.len() implies is_valid(#[trigger] t[k]) by {
            if k < s.entries.len() {
                assert(t[k] == t.subrange(0, s.entries.len() as int)[k]);
            }
        }
    }
}

pub open spec fn or_empty(o: Option<Seq<char>>) -> Seq<char> {
    match o {
        Some(s) => s,
        None => Seq::empty(),
    }
}

impl SummaryEntry {
    /// 1 when the package was installed as a dependency, else 0.
    pub fn automatic(&self) -> (r: i64)
        ensures
            r == match self@.automatic {
                Some(a) => a,
                None => 0,
            },
    {
        match self.automatic {
            Some(a) => a,
            None => 0,
        }
    }

    pub fn file_size(&self) -> (r: i64)
        ensures
            r == match self@.file_size {
                Some(a) => a,
                None => 0,
            },
    {
        match self.file_size {
            Some(a) => a,
            None => 0,
        }
    }

    pub fn size_pkg(&self) -> (r: &Option<i64>)
        ensures
            *r == self@.size_pkg,
    {
        &self.size_pkg
    }

    pub fn build_date(&self) -> (r: &String)
        ensures
            r@ == self@.build_date,
    {
        &self.build_date
    }

    pub fn comment(&self) -> (r: &String)
        ensures
            r@ == self@.comment,
    {
        &self.comment
    }

    pub fn machine_arch(&self) -> (r: &String)
        ensures
            r@ == self@.machine_arch,
    {
        &self.machine_arch
    }

    pub fn opsys(&self) -> (r: &String)
        ensures
            r@ == self@.opsys,
    {
        &self.opsys
    }

    pub fn os_version(&self) -> (r: &String)
        ensures
            r@ == self@.os_version,
    {
        &self.os_version
    }

    pub fn pkgbase(&self) -> (r: &String)
        ensures
            r@ == self@.pkgbase,
    {
        &self.pkgbase
    }

    pub fn pkgname(&self) -> (r: &String)
        ensures
            r@ == self@.pkgname,
    {
        &self.pkgname
    }

    pub fn pkgpath(&self) -> (r: &String)
        ensures
            r@ == self@.pkgpath,
    {
        &self.pkgpath
    }

    pub fn pkgtools_version(&self) -> (r: &String)
        ensures
            r@ == self@.pkgtools_version,
    {
        &self.pkgtools_version
    }

    pub fn pkgversion(&self) -> (r: &String)
        ensures
            r@ == self@.pkgversion,
    {
        &self.pkgversion
    }

    pub fn categories(&self) -> (r: &Vec<String>)
        ensures
            strs(r@) == self@.categories,
    {
        &self.categories
    }

    pub fn conflicts(&self) -> (r: &Vec<String>)
        ensures
            strs(r@) == self@.conflicts,
    {
        &self.conflicts
    }

    pub fn depends(&self) -> (r: &Vec<String>)
        ensures
            strs(r@) == self@.depends,
    {
        &self.depends
    }

    pub fn description(&self) -> (r: &Vec<String>)
        ensures
            strs(r@) == self@.description,
    {
        &self.description
    }

    pub fn provides(&self) -> (r: &Vec<String>)
        ensures
            strs(r@) == self@.provides,
    {
        &self.provides
    }

    /// The capabilities the package requires.
    pub fn requirements(&self) -> (r: &Vec<String>)
        ensures
            strs(r@) == self@.requires,
    {
        &self.requires
    }

    pub fn supersedes(&self) -> (r: &Vec<String>)
        ensures
            strs(r@) == self@.supersedes,
    {
        &self.supersedes
    }

    /// The value, or an empty string when the record did not set it.
    pub fn file_cksum(&self) -> (r: &str)
        ensures
            r@ == or_empty(self@.file_cksum),
    {
        match &self.file_cksum {
            Some(s) => s.as_str(),
            None => {
                proof {
                    reveal_strlit("");
                }
                ""
            },
        }
    }

    /// The value, or an empty string when the record did not set it.
    pub fn file_name(&self) -> (r: &str)
        ensures
            r@ == or_empty(self@.file_name),
    {
        match &self.file_name {
            Some(s) => s.as_str(),
            None => {
                proof {
                    reveal_strlit("");
                }
                ""
            },
        }
    }

    /// The value, or an empty string when the record did not set it.
    pub fn homepage(&self) -> (r: &str)
        ensures
            r@ == or_empty(self@.homepage),
    {
        match &self.homepage {
            Some(s) => s.as_str(),
            None => {
                proof {
                    reveal_strlit("");
                }
                ""
            },
        }
    }

    /// The value, or an empty string when the record did not set it.
    pub fn license(&self) -> (r: &str)
        ensures
            r@ == or_empty(self@.license),
    {
        match &self.license {
            Some(s) => s.as_str(),
            None => {
                proof {
                    reveal_strlit("");
                }
                ""
            },
        }
    }

    /// The value, or an empty string when the record did not set it.
    pub fn pkg_options(&self) -> (r: &str)
        ensures
            r@ == or_empty(self@.pkg_options),
    {
        match &self.pkg_options {
            Some(s) => s.as_str(),
            None => {
                proof {
                    reveal_strlit("");
                }
                ""
            },
        }
    }

    /// The value, or an empty string when the record did not set it.
    pub fn prev_pkgpath(&self) -> (r: &str)
        ensures
            r@ == or_empty(self@.prev_pkgpath),
    {
        match &self.prev_pkgpath {
            Some(s) => s.as_str(),
            None => {
                proof {
                    reveal_strlit("");
                }
                ""
            },
        }
    }
}

} // verus!
