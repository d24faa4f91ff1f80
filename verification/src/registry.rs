//! The records of a package in the index, and the choice of the version
//! that stands for it.
//!
//! The file of a package holds one JSON object on each line, one for each
//! version published. The version that stands for the package is the
//! greatest that was not yanked, and the greatest of all where every
//! version was yanked.

use vstd::prelude::*;
use vstd::string::StringSliceAdditionalSpecFns;
use vstd::utf8::encode_utf8;
use vstd::slice::slice_subrange;
use crate::path::{copy_name, path_view, pieces, split};
use crate::version::{parsed_version, version_order, version_text, Version, VersionView};

verus! {

/// `serde_json::Value`: a JSON value. Nothing is known of one but what
/// `members` names.
#[verifier::external_type_specification]
#[verifier::external_body]
pub struct ExValue(serde_json::Value);

/// What the logic reads of a member of a JSON object.
#[derive(Debug, Clone, PartialEq, Eq)]
pub enum Member {
    /// There is no such member.
    Absent,
    /// A string.
    Text(String),
    /// `true` or `false`.
    Flag(bool),
    /// Anything else.
    Other,
}

/// What a `Member` stands for.
pub enum MemberView {
    Absent,
    Text(Seq<char>),
    Flag(bool),
    Other,
}

impl View for Member {
    type V = MemberView;

    open spec fn view(&self) -> MemberView {
        match self {
            Member::Absent => MemberView::Absent,
            Member::Text(s) => MemberView::Text(s@),
            Member::Flag(b) => MemberView::Flag(*b),
            Member::Other => MemberView::Other,
        }
    }
}

/// The members of a JSON value, by their keys: those of the object, and
/// none where the value is no object.
pub uninterp spec fn members(doc: serde_json::Value) -> Map<Seq<char>, MemberView>;

/// The members of the JSON value that `serde_json` reads from a text;
/// `None` where the text is no JSON value.
pub uninterp spec fn json_members(text: Seq<u8>) -> Option<Map<Seq<char>, MemberView>>;

/// The member of a map under a key, `Absent` where there is none.
pub open spec fn field(m: Map<Seq<char>, MemberView>, key: Seq<char>) -> MemberView {
    if m.contains_key(key) {
        m[key]
    } else {
        MemberView::Absent
    }
}

/// `serde_json::from_slice`, reading a `serde_json::Value`. The contract
/// names the members of the value read, and claims no more: the same text
/// always gives the same members, or no value.
#[verifier::external_body]
fn parse_document(line: &[u8]) -> (r: Option<serde_json::Value>)
    ensures
        match r {
            Some(doc) => json_members(line@) == Some(members(doc)),
            None => json_members(line@).is_none(),
        },
{
    serde_json::from_slice::<serde_json::Value>(line).ok()
}

/// `serde_json::Value::get` with a string as the key: the member of an
/// object under that key, and nothing where there is none or the value is no
/// object. Of the member the kind is told, and a string or a boolean is
/// copied out.
#[verifier::external_body]
fn member(doc: &serde_json::Value, key: &str) -> (r: Member)
    ensures
        r@ == field(members(*doc), key@),
{
    match doc.get(key) {
        None => Member::Absent,
        Some(serde_json::Value::String(s)) => Member::Text(s.clone()),
        Some(serde_json::Value::Bool(b)) => Member::Flag(*b),
        Some(_) => Member::Other,
    }
}

/// Why the file of a package could not be read.
#[derive(Debug, Clone, Copy, PartialEq, Eq)]
pub enum ParseError {
    /// A line is no JSON value.
    Json,
    /// A record has no name, or one that is no string.
    Name,
    /// A record has no version, or one that is no semantic version.
    Version,
    /// A record does not say whether it was yanked.
    Yanked,
    /// The file holds no record.
    Empty,
}

/// One published version of a package.
#[derive(Debug, Clone, PartialEq, Eq)]
pub struct PackageRecord {
    pub name: String,
    pub version: Version,
    pub yanked: bool,
}

/// What a `PackageRecord` stands for.
pub struct RecordView {
    pub name: Seq<char>,
    pub version: VersionView,
    pub yanked: bool,
}

impl View for PackageRecord {
    type V = RecordView;

    open spec fn view(&self) -> RecordView {
        RecordView { name: self.name@, version: self.version@, yanked: self.yanked }
    }
}

/// What a list of records stands for.
pub open spec fn records_view(rs: Seq<PackageRecord>) -> Seq<RecordView> {
    Seq::new(rs.len(), |i: int| rs[i]@)
}

/// The version of a record with the members `vers` and `version`: read from
/// the first where it is there, from the second where it is not.
pub open spec fn version_of(vers: MemberView, version: MemberView) -> Option<VersionView> {
    match (if vers is Absent {
        version
    } else {
        vers
    }) {
        MemberView::Text(t) => parsed_version(t),
        _ => None,
    }
}

/// The record made of a name, a version and the mark of a yanked version,
/// or what is wrong with the first of them that is not as it should be.
pub open spec fn record_of(name: MemberView, version: Option<VersionView>, yanked: MemberView)
    -> Result<RecordView, ParseError> {
    match name {
        MemberView::Text(n) => match version {
            Some(v) => match yanked {
                MemberView::Flag(y) => Ok(RecordView { name: n, version: v, yanked: y }),
                _ => Err(ParseError::Yanked),
            },
            None => Err(ParseError::Version),
        },
        _ => Err(ParseError::Name),
    }
}

/// The record that a line holds.
pub open spec fn line_record(line: Seq<u8>) -> Result<RecordView, ParseError> {
    match json_members(line) {
        None => Err(ParseError::Json),
        Some(m) => record_of(
            field(m, "name"@),
            version_of(field(m, "vers"@), field(m, "version"@)),
            field(m, "yanked"@),
        ),
    }
}

/// Whether a result of reading a record is the one that `expected` stands
/// for.
pub open spec fn is_record(r: Result<PackageRecord, ParseError>, expected: Result<RecordView, ParseError>)
    -> bool {
    match r {
        Ok(record) => expected == Ok::<RecordView, ParseError>(record@),
        Err(e) => expected == Err::<RecordView, ParseError>(e),
    }
}

impl PackageRecord {
    /// The version under the members `vers` and `version` of a record.
    pub fn version_of(vers: Member, version: Member) -> (r: Option<Version>)
        ensures
            match r {
                Some(v) => version_of(vers@, version@) == Some(v@),
                None => version_of(vers@, version@).is_none(),
            },
    {
        let chosen: Member = match vers {
            Member::Absent => version,
            other => other,
        };
        match chosen {
            Member::Text(t) => Version::parse(t.as_str()),
            _ => None,
        }
    }

    /// The record made of what a line holds under `name` and `yanked`, and
    /// of its version.
    pub fn assemble(name: Member, version: Option<Version>, yanked: Member) -> (r: Result<
        PackageRecord,
        ParseError,
    >)
        ensures
            is_record(
                r,
                record_of(
                    name@,
                    match version {
                        Some(v) => Some(v@),
                        None => None,
                    },
                    yanked@,
                ),
            ),
    {
        let name: String = match name {
            Member::Text(n) => n,
            _ => {
                return Err(ParseError::Name);
            },
        };
        let version: Version = match version {
            Some(v) => v,
            None => {
                return Err(ParseError::Version);
            },
        };
        match yanked {
            Member::Flag(y) => Ok(PackageRecord { name, version, yanked: y }),
            _ => Err(ParseError::Yanked),
        }
    }

    /// The record that a line of the file of a package holds.
    pub fn parse(line: &[u8]) -> (r: Result<PackageRecord, ParseError>)
        ensures
            is_record(r, line_record(line@)),
    {
        let doc: serde_json::Value = match parse_document(line) {
            Some(doc) => doc,
            None => {
                return Err(ParseError::Json);
            },
        };
        let name: Member = member(&doc, "name");
        let vers: Member = member(&doc, "vers");
        let version: Member = member(&doc, "version");
        let yanked: Member = member(&doc, "yanked");
        PackageRecord::assemble(name, PackageRecord::version_of(vers, version), yanked)
    }
}

/// The order of two records: one that was not yanked comes after one that
/// was, and of two that agree in this the versions decide.
pub open spec fn record_order(a: RecordView, b: RecordView) -> int {
    if a.yanked != b.yanked {
        if a.yanked {
            -1
        } else {
            1
        }
    } else {
        version_order(a.version, b.version)
    }
}

/// The place of the record that stands for the package: of the greatest
/// record, and of the last of them where several are equally great.
pub open spec fn best(records: Seq<RecordView>) -> int
    decreases records.len(),
{
    if records.len() <= 1 {
        0
    } else {
        let b = best(records.drop_last());
        if record_order(records[b], records.last()) > 0 {
            b
        } else {
            records.len() - 1
        }
    }
}

/// The three numbers of `a`, taken in their order, are not greater than
/// those of `b`.
pub open spec fn numbers_le(a: VersionView, b: VersionView) -> bool {
    a.major < b.major || (a.major == b.major && (a.minor < b.minor || (a.minor == b.minor
        && a.patch <= b.patch)))
}

/// The record `a` does not outrank `b` by what can be read off the two: `a`
/// was yanked and `b` was not, or they agree in this and the numbers of `a`
/// are not greater.
pub open spec fn ranks_le(a: RecordView, b: RecordView) -> bool {
    (a.yanked && !b.yanked) || (a.yanked == b.yanked && numbers_le(a.version, b.version))
}

/// The place of the record that stands for the package lies in the list.
pub proof fn lemma_best_in_range(records: Seq<RecordView>)
    requires
        records.len() > 0,
    ensures
        0 <= best(records) < records.len(),
    decreases records.len(),
{
    if records.len() > 1 {
        lemma_best_in_range(records.drop_last());
    }
}

/// No record outranks the one that stands for the package: a record that
/// was not yanked is chosen where there is one, and none of those that agree
/// with the chosen one in this has greater numbers.
pub proof fn lemma_best_is_greatest(records: Seq<RecordView>, j: int)
    requires
        0 <= j < records.len(),
    ensures
        ranks_le(records[j], records[best(records)]),
    decreases records.len(),
{
    if records.len() > 1 {
        let init = records.drop_last();
        lemma_best_in_range(init);
        let b = best(init);
        if j < records.len() - 1 {
            lemma_best_is_greatest(init, j);
            assert(init[j] == records[j]);
        }
        assert(init[b] == records[b]);
    }
}

/// A version that was not yanked stands for the package wherever the file
/// holds one, whatever the versions that were yanked.
pub proof fn lemma_unyanked_outranks(records: Seq<RecordView>, j: int)
    requires
        0 <= j < records.len(),
        !records[j].yanked,
    ensures
        !records[best(records)].yanked,
{
    lemma_best_is_greatest(records, j);
}

/// A piece without the carriage return at its end, if it has one.
pub open spec fn trim_cr(piece: Seq<u8>) -> Seq<u8> {
    if piece.len() > 0 && piece.last() == 0x0d {
        piece.drop_last()
    } else {
        piece
    }
}

/// The lines of a text: its pieces between the line feeds, each without the
/// carriage return at its end.
pub open spec fn lines_of(text: Seq<u8>) -> Seq<Seq<u8>> {
    Seq::new(pieces(text, 0x0a).len(), |i: int| trim_cr(pieces(text, 0x0a)[i]))
}

/// The records of the lines that are not empty, in their order, or what is
/// wrong with the first line that holds no record.
pub open spec fn records_of(lines: Seq<Seq<u8>>) -> Result<Seq<RecordView>, ParseError>
    decreases lines.len(),
{
    if lines.len() == 0 {
        Ok(Seq::empty())
    } else {
        match records_of(lines.drop_last()) {
            Err(e) => Err(e),
            Ok(records) => if lines.last().len() == 0 {
                Ok(records)
            } else {
                match line_record(lines.last()) {
                    Err(e) => Err(e),
                    Ok(record) => Ok(records.push(record)),
                }
            },
        }
    }
}

/// The record that stands for the package whose file holds `contents`.
pub open spec fn chosen(contents: Seq<u8>) -> Result<RecordView, ParseError> {
    match records_of(lines_of(contents)) {
        Err(e) => Err(e),
        Ok(records) => if records.len() == 0 {
            Err(ParseError::Empty)
        } else {
            Ok(records[best(records)])
        },
    }
}

/// A package as a search returns it: its name and the version that stands
/// for it.
#[derive(Debug, Clone, PartialEq, Eq)]
pub struct Package {
    pub name: String,
    pub version: String,
}

/// What a `Package` stands for.
pub struct PackageView {
    pub name: Seq<char>,
    pub version: Seq<char>,
}

impl View for Package {
    type V = PackageView;

    open spec fn view(&self) -> PackageView {
        PackageView { name: self.name@, version: self.version@ }
    }
}

/// The package that a record stands for.
pub open spec fn package_of(record: RecordView) -> PackageView {
    PackageView { name: record.name, version: version_text(record.version) }
}

/// The package whose file holds `contents`.
pub open spec fn loaded(contents: Seq<u8>) -> Result<PackageView, ParseError> {
    match chosen(contents) {
        Err(e) => Err(e),
        Ok(record) => Ok(package_of(record)),
    }
}

/// Whether a result of loading a package is the one that `expected` stands
/// for.
pub open spec fn is_package(r: Result<Package, ParseError>, expected: Result<PackageView, ParseError>)
    -> bool {
    match r {
        Ok(package) => expected == Ok::<PackageView, ParseError>(package@),
        Err(e) => expected == Err::<PackageView, ParseError>(e),
    }
}

impl PackageRecord {
    /// The order of this record and another: -1, 0 or 1.
    pub fn order(&self, other: &PackageRecord) -> (r: i8)
        ensures
            r == record_order(self@, other@),
    {
        if self.yanked != other.yanked {
            if self.yanked {
                -1
            } else {
                1
            }
        } else {
            self.version.order(&other.version)
        }
    }
}

/// The place of the record that stands for the package, and `None` where
/// there is no record.
pub fn select(records: &Vec<PackageRecord>) -> (r: Option<usize>)
    ensures
        match r {
            Some(i) => i < records@.len() && i == best(records_view(records@)),
            None => records@.len() == 0,
        },
{
    if records.len() == 0 {
        return None;
    }
    let ghost all = records_view(records@);
    let mut b: usize = 0;
    let mut i: usize = 1;
    assert(all.take(1).len() == 1);
    while i < records.len()
        invariant
            1 <= i <= records@.len(),
            all == records_view(records@),
            b < i,
            b == best(all.take(i as int)),
        decreases records@.len() - i,
    {
        assert(all.take(i + 1).drop_last() =~= all.take(i as int));
        if records[b].order(&records[i]) <= 0 {
            b = i;
        }
        i += 1;
    }
    assert(all.take(i as int) =~= all);
    Some(b)
}

/// A piece without the carriage return at its end, if it has one.
fn trimmed(piece: &[u8]) -> (r: Vec<u8>)
    ensures
        r@ == trim_cr(piece@),
{
    let n: usize = piece.len();
    if n > 0 && piece[n - 1] == 0x0d {
        let r = copy_name(slice_subrange(piece, 0, n - 1));
        assert(r@ =~= piece@.drop_last());
        r
    } else {
        copy_name(piece)
    }
}

/// The lines of a text.
pub fn split_lines(text: &[u8]) -> (r: Vec<Vec<u8>>)
    ensures
        path_view(r@) == lines_of(text@),
{
    let raw: Vec<Vec<u8>> = split(text, 0x0a);
    let mut r: Vec<Vec<u8>> = Vec::new();
    let mut i: usize = 0;
    while i < raw.len()
        invariant
            i <= raw@.len(),
            path_view(raw@) == pieces(text@, 0x0a),
            r@.len() == i,
            forall|j: int| 0 <= j < i ==> r@[j]@ == trim_cr(raw@[j]@),
        decreases raw@.len() - i,
    {
        r.push(trimmed(raw[i].as_slice()));
        i += 1;
    }
    assert(path_view(r@) =~= lines_of(text@)) by {
        assert forall|j: int| 0 <= j < r@.len() implies path_view(r@)[j] == lines_of(text@)[j] by {
            assert(path_view(raw@)[j] == raw@[j]@);
        }
    }
    r
}

/// The records of the lines that are not empty.
pub fn parse_lines(lines: &Vec<Vec<u8>>) -> (r: Result<Vec<PackageRecord>, ParseError>)
    ensures
        match r {
            Ok(records) => records_of(path_view(lines@)) == Ok::<Seq<RecordView>, ParseError>(
                records_view(records@),
            ),
            Err(e) => records_of(path_view(lines@)) == Err::<Seq<RecordView>, ParseError>(e),
        },
{
    let ghost all = path_view(lines@);
    let mut records: Vec<PackageRecord> = Vec::new();
    let mut i: usize = 0;
    assert(records_view(records@) =~= Seq::empty());
    while i < lines.len()
        invariant
            i <= lines@.len(),
            all == path_view(lines@),
            records_of(all.take(i as int)) == Ok::<Seq<RecordView>, ParseError>(
                records_view(records@),
            ),
        decreases lines@.len() - i,
    {
        assert(all.take(i + 1).drop_last() =~= all.take(i as int));
        assert(all.take(i + 1).last() == lines@[i as int]@);
        if lines[i].len() > 0 {
            match PackageRecord::parse(lines[i].as_slice()) {
                Ok(record) => {
                    let ghost before = records_view(records@);
                    records.push(record);
                    assert(records_view(records@) =~= before.push(record@));
                },
                Err(e) => {
                    proof {
                        lemma_error_stays(all, i + 1);
                    }
                    return Err(e);
                },
            }
        }
        i += 1;
    }
    assert(all.take(i as int) =~= all);
    Ok(records)
}

/// What is wrong with the first lines of a file is wrong with the file.
proof fn lemma_error_stays(lines: Seq<Seq<u8>>, k: int)
    requires
        0 <= k <= lines.len(),
        records_of(lines.take(k)) is Err,
    ensures
        records_of(lines) == records_of(lines.take(k)),
    decreases lines.len() - k,
{
    if k < lines.len() {
        assert(lines.take(k + 1).drop_last() =~= lines.take(k));
        lemma_error_stays(lines, k + 1);
    } else {
        assert(lines.take(k) =~= lines);
    }
}

impl Package {
    /// The package whose file holds `contents`: its name, and the text of
    /// the version that stands for it.
    pub fn load(contents: &str) -> (r: Result<Package, ParseError>)
        ensures
            is_package(r, loaded(contents.spec_bytes())),
    {
        let lines: Vec<Vec<u8>> = split_lines(contents.as_bytes());
        let records: Vec<PackageRecord> = match parse_lines(&lines) {
            Ok(records) => records,
            Err(e) => {
                return Err(e);
            },
        };
        match select(&records) {
            None => Err(ParseError::Empty),
            Some(i) => {
                assert(records_view(records@)[i as int] == records@[i as int]@);
                Ok(
                    Package {
                        name: records[i].name.clone(),
                        version: records[i].version.to_string(),
                    },
                )
            },
        }
    }
}

/// The packages of the files that hold one, in the order of the files.
pub open spec fn packages_of(files: Seq<Seq<u8>>) -> Seq<PackageView>
    decreases files.len(),
{
    if files.len() == 0 {
        Seq::empty()
    } else {
        match loaded(files.last()) {
            Ok(package) => packages_of(files.drop_last()).push(package),
            Err(_) => packages_of(files.drop_last()),
        }
    }
}

/// What the contents of a list of files stand for.
pub open spec fn contents_view(files: Seq<String>) -> Seq<Seq<u8>> {
    Seq::new(files.len(), |i: int| encode_utf8(files[i]@))
}

/// What a list of packages stands for.
pub open spec fn packages_view(ps: Seq<Package>) -> Seq<PackageView> {
    Seq::new(ps.len(), |i: int| ps[i]@)
}

/// The packages whose files hold the contents given, in that order. A file
/// that cannot be read as the file of a package is passed over.
pub fn walk(files: &Vec<String>) -> (r: Vec<Package>)
    ensures
        packages_view(r@) == packages_of(contents_view(files@)),
{
    let ghost all = contents_view(files@);
    let mut r: Vec<Package> = Vec::new();
    let mut i: usize = 0;
    assert(packages_view(r@) =~= Seq::empty());
    while i < files.len()
        invariant
            i <= files@.len(),
            all == contents_view(files@),
            packages_view(r@) == packages_of(all.take(i as int)),
        decreases files@.len() - i,
    {
        assert(all.take(i + 1).drop_last() =~= all.take(i as int));
        assert(all.take(i + 1).last() == encode_utf8(files@[i as int]@));
        match Package::load(files[i].as_str()) {
            Ok(package) => {
                let ghost before = packages_view(r@);
                r.push(package);
                assert(packages_view(r@) =~= before.push(package@));
            },
            Err(_) => {},
        }
        i += 1;
    }
    assert(all.take(i as int) =~= all);
    r
}

/// `a` begins with `prefix`, byte for byte.
pub open spec fn begins_with(a: Seq<u8>, prefix: Seq<u8>) -> bool {
    prefix.len() <= a.len() && a.take(prefix.len() as int) == prefix
}

/// Whether `a` begins with `prefix`, byte for byte.
pub fn has_prefix(a: &[u8], prefix: &[u8]) -> (r: bool)
    ensures
        r == begins_with(a@, prefix@),
{
    if prefix.len() > a.len() {
        return false;
    }
    let mut i: usize = 0;
    while i < prefix.len()
        invariant
            prefix@.len() <= a@.len(),
            i <= prefix@.len(),
            forall|j: int| 0 <= j < i ==> a@[j] == prefix@[j],
        decreases prefix@.len() - i,
    {
        if a[i] != prefix[i] {
            assert(a@.take(prefix@.len() as int)[i as int] != prefix@[i as int]);
            return false;
        }
        i += 1;
    }
    assert(a@.take(prefix@.len() as int) =~= prefix@);
    true
}

/// The crates that come with the compiler and whose names begin with the
/// query, of `alloc`, `core` and `std`, in this order.
pub open spec fn builtins_of(query: Seq<u8>) -> Seq<Seq<char>> {
    (if begins_with("alloc".spec_bytes(), query) {
        seq!["alloc"@]
    } else {
        Seq::empty()
    }) + (if begins_with("core".spec_bytes(), query) {
        seq!["core"@]
    } else {
        Seq::empty()
    }) + (if begins_with("std".spec_bytes(), query) {
        seq!["std"@]
    } else {
        Seq::empty()
    })
}

/// What a list of names stands for.
pub open spec fn names_view(names: Seq<&'static str>) -> Seq<Seq<char>> {
    Seq::new(names.len(), |i: int| names[i]@)
}

/// The crates that come with the compiler and whose names begin with the
/// query.
pub fn builtins(query: &str) -> (r: Vec<&'static str>)
    ensures
        names_view(r@) == builtins_of(query.spec_bytes()),
{
    let q: &[u8] = query.as_bytes();
    let mut r: Vec<&'static str> = Vec::new();
    if has_prefix("alloc".as_bytes(), q) {
        r.push("alloc");
    }
    if has_prefix("core".as_bytes(), q) {
        r.push("core");
    }
    if has_prefix("std".as_bytes(), q) {
        r.push("std");
    }
    assert(names_view(r@) =~= builtins_of(query.spec_bytes()));
    r
}

} // verus!
