//! Semantic versions: what the index records of them, their order, and
//! their text.

use std::cmp::Ordering;
use vstd::prelude::*;
use vstd::string::StringExecFns;

verus! {

/// A semantic version: three numbers, a pre-release tag and build metadata,
/// both empty where the version has none.
#[derive(Debug, Clone, PartialEq, Eq)]
pub struct Version {
    pub major: u64,
    pub minor: u64,
    pub patch: u64,
    pub pre: String,
    pub build: String,
}

/// What a `Version` stands for.
pub struct VersionView {
    pub major: u64,
    pub minor: u64,
    pub patch: u64,
    pub pre: Seq<char>,
    pub build: Seq<char>,
}

impl View for Version {
    type V = VersionView;

    open spec fn view(&self) -> VersionView {
        VersionView {
            major: self.major,
            minor: self.minor,
            patch: self.patch,
            pre: self.pre@,
            build: self.build@,
        }
    }
}

/// The version that `semver` reads from a text; `None` where it reads none.
pub uninterp spec fn parsed_version(text: Seq<char>) -> Option<VersionView>;

/// Whether `semver` takes a text as a pre-release tag.
pub uninterp spec fn is_prerelease(text: Seq<char>) -> bool;

/// The order that `semver` gives to two pre-release tags: -1, 0 or 1.
pub uninterp spec fn prerelease_order(a: Seq<char>, b: Seq<char>) -> int;

/// Whether `semver` takes a text as build metadata.
pub uninterp spec fn is_build(text: Seq<char>) -> bool;

/// The order that `semver` gives to two build metadata: -1, 0 or 1.
pub uninterp spec fn build_order(a: Seq<char>, b: Seq<char>) -> int;

/// `semver::Version::parse`, with the fields of the version that it returns
/// copied out. The contract gives the result a name and claims no more: the
/// same text always gives the same version, or none.
#[verifier::external_body]
fn parse_semver(text: &str) -> (r: Option<Version>)
    ensures
        match r {
            Some(v) => parsed_version(text@) == Some(v@),
            None => parsed_version(text@).is_none(),
        },
{
    match semver::Version::parse(text) {
        Ok(v) => Some(
            Version {
                major: v.major,
                minor: v.minor,
                patch: v.patch,
                pre: v.pre.as_str().to_string(),
                build: v.build.as_str().to_string(),
            },
        ),
        Err(_) => None,
    }
}

/// Whether `semver::Prerelease::new` takes the text. The contract names the
/// result, and claims of it that the empty text, which marks a release, is
/// taken.
#[verifier::external_body]
fn valid_prerelease(text: &str) -> (r: bool)
    ensures
        r == is_prerelease(text@),
        text@.len() == 0 ==> r,
{
    semver::Prerelease::new(text).is_ok()
}

/// The order of `semver::Prerelease` on the tags that
/// `semver::Prerelease::new` makes of two texts that it takes. The contract
/// names the result, and claims of it what the first lines of that order
/// show: the empty tag equals itself and comes after every other tag.
#[verifier::external_body]
fn order_prerelease(a: &str, b: &str) -> (r: i8)
    requires
        is_prerelease(a@),
        is_prerelease(b@),
    ensures
        r == prerelease_order(a@, b@),
        -1 <= r <= 1,
        a@.len() == 0 && b@.len() == 0 ==> r == 0,
        a@.len() == 0 && b@.len() > 0 ==> r == 1,
        a@.len() > 0 && b@.len() == 0 ==> r == -1,
{
    match (semver::Prerelease::new(a), semver::Prerelease::new(b)) {
        (Ok(x), Ok(y)) => match x.cmp(&y) {
            Ordering::Less => -1,
            Ordering::Equal => 0,
            Ordering::Greater => 1,
        },
        _ => 0,
    }
}

/// Whether `semver::BuildMetadata::new` takes the text. The contract names
/// the result and claims no more.
#[verifier::external_body]
fn valid_build(text: &str) -> (r: bool)
    ensures
        r == is_build(text@),
{
    semver::BuildMetadata::new(text).is_ok()
}

/// The order of `semver::BuildMetadata` on the values that
/// `semver::BuildMetadata::new` makes of two texts that it takes. The
/// contract names the result and claims no more of it than that it is -1, 0
/// or 1.
#[verifier::external_body]
fn order_build(a: &str, b: &str) -> (r: i8)
    requires
        is_build(a@),
        is_build(b@),
    ensures
        r == build_order(a@, b@),
        -1 <= r <= 1,
{
    match (semver::BuildMetadata::new(a), semver::BuildMetadata::new(b)) {
        (Ok(x), Ok(y)) => match x.cmp(&y) {
            Ordering::Less => -1,
            Ordering::Equal => 0,
            Ordering::Greater => 1,
        },
        _ => 0,
    }
}

/// The order of two texts of which each may be taken or not: one that is
/// not taken comes before every one that is, two that are not taken are
/// equal, and two that are taken stand as `order` says.
pub open spec fn taken_order(a: bool, b: bool, order: int) -> int {
    if !a && !b {
        0
    } else if !a {
        -1
    } else if !b {
        1
    } else {
        order
    }
}

/// The order of the pre-release tags of two versions.
pub open spec fn tag_order(a: Seq<char>, b: Seq<char>) -> int {
    taken_order(is_prerelease(a), is_prerelease(b), prerelease_order(a, b))
}

/// The order of the build metadata of two versions.
pub open spec fn metadata_order(a: Seq<char>, b: Seq<char>) -> int {
    taken_order(is_build(a), is_build(b), build_order(a, b))
}

/// The order of two numbers: -1, 0 or 1.
pub open spec fn number_order(a: u64, b: u64) -> int {
    if a < b {
        -1
    } else if a > b {
        1
    } else {
        0
    }
}

/// The order of two versions: by the major, then the minor, then the patch
/// number, each as a number; then by the pre-release tags; then by the build
/// metadata. A tag or metadata that `semver` does not take, which no parsed
/// version holds, comes before all that it takes.
pub open spec fn version_order(a: VersionView, b: VersionView) -> int {
    if a.major != b.major {
        number_order(a.major, b.major)
    } else if a.minor != b.minor {
        number_order(a.minor, b.minor)
    } else if a.patch != b.patch {
        number_order(a.patch, b.patch)
    } else if tag_order(a.pre, b.pre) != 0 {
        tag_order(a.pre, b.pre)
    } else {
        metadata_order(a.build, b.build)
    }
}

/// The character of a decimal digit.
pub open spec fn digit_char(d: nat) -> char {
    if d == 0 {
        '0'
    } else if d == 1 {
        '1'
    } else if d == 2 {
        '2'
    } else if d == 3 {
        '3'
    } else if d == 4 {
        '4'
    } else if d == 5 {
        '5'
    } else if d == 6 {
        '6'
    } else if d == 7 {
        '7'
    } else if d == 8 {
        '8'
    } else {
        '9'
    }
}

/// A number in decimal digits, without leading zeros.
pub open spec fn decimal(n: nat) -> Seq<char>
    decreases n,
{
    if n < 10 {
        seq![digit_char(n)]
    } else {
        decimal(n / 10).push(digit_char(n % 10))
    }
}

/// The text of a version: the three numbers with dots between them, then
/// `-` and the pre-release tag if there is one, then `+` and the build
/// metadata if there is any.
pub open spec fn version_text(v: VersionView) -> Seq<char> {
    decimal(v.major as nat) + seq!['.'] + decimal(v.minor as nat) + seq!['.'] + decimal(
        v.patch as nat,
    ) + (if v.pre.len() > 0 {
        seq!['-'] + v.pre
    } else {
        Seq::empty()
    }) + (if v.build.len() > 0 {
        seq!['+'] + v.build
    } else {
        Seq::empty()
    })
}

fn digit_text(d: u64) -> (r: &'static str)
    requires
        d < 10,
    ensures
        r@ == seq![digit_char(d as nat)],
{
    proof {
        reveal_strlit("0");
        reveal_strlit("1");
        reveal_strlit("2");
        reveal_strlit("3");
        reveal_strlit("4");
        reveal_strlit("5");
        reveal_strlit("6");
        reveal_strlit("7");
        reveal_strlit("8");
        reveal_strlit("9");
    }
    let r: &'static str = if d == 0 {
        "0"
    } else if d == 1 {
        "1"
    } else if d == 2 {
        "2"
    } else if d == 3 {
        "3"
    } else if d == 4 {
        "4"
    } else if d == 5 {
        "5"
    } else if d == 6 {
        "6"
    } else if d == 7 {
        "7"
    } else if d == 8 {
        "8"
    } else {
        "9"
    };
    assert(r@ =~= seq![digit_char(d as nat)]);
    r
}

/// Writes a number in decimal digits at the end of a text.
pub fn push_decimal(out: &mut String, n: u64)
    ensures
        final(out)@ == old(out)@ + decimal(n as nat),
    decreases n,
{
    if n >= 10 {
        push_decimal(out, n / 10);
    }
    let ghost before = out@;
    out.append(digit_text(n % 10));
    assert(out@ =~= old(out)@ + decimal(n as nat));
}

/// The order of two pre-release tags: -1, 0 or 1. The empty tag, which
/// marks a release, comes after every other text.
pub fn compare_tags(a: &str, b: &str) -> (r: i8)
    ensures
        r == tag_order(a@, b@),
        -1 <= r <= 1,
        a@.len() == 0 && b@.len() == 0 ==> r == 0,
        a@.len() == 0 && b@.len() > 0 ==> r == 1,
        a@.len() > 0 && b@.len() == 0 ==> r == -1,
{
    let a_taken: bool = valid_prerelease(a);
    let b_taken: bool = valid_prerelease(b);
    if !a_taken && !b_taken {
        0
    } else if !a_taken {
        -1
    } else if !b_taken {
        1
    } else {
        order_prerelease(a, b)
    }
}

/// The order of the build metadata of two versions: -1, 0 or 1.
pub fn compare_metadata(a: &str, b: &str) -> (r: i8)
    ensures
        r == metadata_order(a@, b@),
        -1 <= r <= 1,
{
    let a_taken: bool = valid_build(a);
    let b_taken: bool = valid_build(b);
    if !a_taken && !b_taken {
        0
    } else if !a_taken {
        -1
    } else if !b_taken {
        1
    } else {
        order_build(a, b)
    }
}

impl Version {
    /// The version that a text spells, if it spells one.
    pub fn parse(text: &str) -> (r: Option<Version>)
        ensures
            match r {
                Some(v) => parsed_version(text@) == Some(v@),
                None => parsed_version(text@).is_none(),
            },
    {
        parse_semver(text)
    }

    /// The order of this version and another: -1, 0 or 1. Of two versions
    /// with the same three numbers, a release comes after a pre-release.
    pub fn order(&self, other: &Version) -> (r: i8)
        ensures
            r == version_order(self@, other@),
            -1 <= r <= 1,
            self.major == other.major && self.minor == other.minor && self.patch == other.patch
                && self@.pre.len() == 0 && other@.pre.len() > 0 ==> r == 1,
            self.major == other.major && self.minor == other.minor && self.patch == other.patch
                && self@.pre.len() > 0 && other@.pre.len() == 0 ==> r == -1,
    {
        if self.major != other.major {
            if self.major < other.major {
                -1
            } else {
                1
            }
        } else if self.minor != other.minor {
            if self.minor < other.minor {
                -1
            } else {
                1
            }
        } else if self.patch != other.patch {
            if self.patch < other.patch {
                -1
            } else {
                1
            }
        } else {
            let pre: i8 = compare_tags(self.pre.as_str(), other.pre.as_str());
            if pre != 0 {
                pre
            } else {
                compare_metadata(self.build.as_str(), other.build.as_str())
            }
        }
    }

    /// The text of the version.
    pub fn to_string(&self) -> (r: String)
        ensures
            r@ == version_text(self@),
    {
        proof {
            reveal_strlit(".");
            reveal_strlit("-");
            reveal_strlit("+");
        }
        let mut r: String = String::new();
        push_decimal(&mut r, self.major);
        r.append(".");
        push_decimal(&mut r, self.minor);
        r.append(".");
        push_decimal(&mut r, self.patch);
        let ghost numbers = r@;
        assert(numbers =~= decimal(self.major as nat) + seq!['.'] + decimal(self.minor as nat)
            + seq!['.'] + decimal(self.patch as nat));
        if !self.pre.as_str().is_empty() {
            r.append("-");
            r.append(self.pre.as_str());
        }
        let ghost tagged = r@;
        assert(tagged =~= numbers + (if self@.pre.len() > 0 {
            seq!['-'] + self@.pre
        } else {
            Seq::empty()
        }));
        if !self.build.as_str().is_empty() {
            r.append("+");
            r.append(self.build.as_str());
        }
        assert(r@ =~= tagged + (if self@.build.len() > 0 {
            seq!['+'] + self@.build
        } else {
            Seq::empty()
        }));
        r
    }
}

/// The three numbers decide first, each as a number: a version with a
/// smaller major number comes before, whatever else the two hold, and so
/// for the minor and the patch number where what stands before them is
/// equal.
pub proof fn lemma_order_is_numeric(a: VersionView, b: VersionView)
    ensures
        a.major < b.major ==> version_order(a, b) == -1,
        a.major == b.major && a.minor < b.minor ==> version_order(a, b) == -1,
        a.major == b.major && a.minor == b.minor && a.patch < b.patch ==> version_order(a, b)
            == -1,
{
}

} // verus!
