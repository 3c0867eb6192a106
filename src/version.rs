//! Semantic versions, their precedence order, and version requirements.
use vstd::prelude::*;
use crate::arch_os::{tokens, split_tokens};
use crate::text::{chars_of, string_from, concat};
use crate::error::ErrorKind;

verus! {

/// A semantic version `major.minor.patch[-pre][+build]`.
#[derive(Debug, PartialEq, Eq)]
pub struct Version {
    pub major: u64,
    pub minor: u64,
    pub patch: u64,
    /// Pre-release identifiers, dot separated; empty for a release.
    pub pre: String,
    /// Build metadata; empty when absent. It takes no part in precedence.
    pub build: String,
}

/// The character of a decimal digit.
pub open spec fn digit_char(d: nat) -> char {
    if d == 0 { '0' } else if d == 1 { '1' } else if d == 2 { '2' } else if d == 3 { '3' }
    else if d == 4 { '4' } else if d == 5 { '5' } else if d == 6 { '6' } else if d == 7 { '7' }
    else if d == 8 { '8' } else { '9' }
}

/// The decimal form of `n`, without leading zeros.
pub open spec fn decimal(n: nat) -> Seq<char>
    decreases n,
{
    if n < 10 {
        seq![digit_char(n)]
    } else {
        decimal(n / 10).push(digit_char(n % 10))
    }
}

/// The text of a version: `major.minor.patch`, then `-pre` and `+build` when present.
pub open spec fn version_text(v: Version) -> Seq<char> {
    let core = decimal(v.major as nat) + seq!['.'] + decimal(v.minor as nat) + seq!['.']
        + decimal(v.patch as nat);
    let with_pre = if v.pre@.len() == 0 { core } else { core + seq!['-'] + v.pre@ };
    if v.build@.len() == 0 { with_pre } else { with_pre + seq!['+'] + v.build@ }
}

/// A pre-release identifier made only of ASCII digits.
pub open spec fn all_digits(id: Seq<char>) -> bool {
    id.len() > 0 && forall|k: int| 0 <= k < id.len() ==> 48 <= (#[trigger] id[k]) as u32 <= 57
}

/// Sort key of one pre-release identifier. Numeric identifiers come first and compare by
/// value (length, then digits, as they carry no leading zeros); the others compare by their
/// ASCII characters, a prefix before its extensions (the closing 0 ranks below every
/// character that an identifier may hold).
pub open spec fn id_key(id: Seq<char>) -> Seq<u64> {
    if all_digits(id) {
        seq![1u64, id.len() as u64] + id.map_values(|c: char| c as u64)
    } else {
        seq![2u64] + id.map_values(|c: char| c as u64) + seq![0u64]
    }
}

/// Sort key of a list of pre-release identifiers: their keys one after the other.
pub open spec fn ids_key(ids: Seq<Seq<char>>) -> Seq<u64>
    decreases ids.len(),
{
    if ids.len() == 0 {
        Seq::empty()
    } else {
        ids_key(ids.drop_last()) + id_key(ids.last())
    }
}

/// Sort key of a version: the three numbers, then a release marker that ranks a release
/// above every pre-release of the same numbers, then the pre-release identifiers.
pub open spec fn version_key(v: Version) -> Seq<u64> {
    seq![v.major, v.minor, v.patch] + if v.pre@.len() == 0 {
        seq![1u64]
    } else {
        seq![0u64] + ids_key(tokens(v.pre@, '.'))
    }
}

/// `a` and `b` agree below `i`, and at `i` either `a` has ended and `b` has not, or `a`
/// holds the smaller number.
pub open spec fn key_lt_at(a: Seq<u64>, b: Seq<u64>, i: int) -> bool {
    &&& 0 <= i <= a.len()
    &&& i <= b.len()
    &&& forall|k: int| 0 <= k < i ==> a[k] == b[k]
    &&& ((i == a.len() && i < b.len()) || (i < a.len() && i < b.len() && a[i] < b[i]))
}

/// Lexicographic order on keys.
pub open spec fn key_lt(a: Seq<u64>, b: Seq<u64>) -> bool {
    exists|i: int| key_lt_at(a, b, i)
}

/// Semantic-version precedence: `a` ranks strictly below `b`.
pub open spec fn version_lt(a: Version, b: Version) -> bool {
    key_lt(version_key(a), version_key(b))
}

/// `a` ranks at or below `b`.
pub open spec fn version_le(a: Version, b: Version) -> bool {
    !version_lt(b, a)
}

/// No key ranks below itself.
pub proof fn lemma_key_lt_irreflexive(a: Seq<u64>)
    ensures
        !key_lt(a, a),
{
    assert forall|i: int| !key_lt_at(a, a, i) by {}
}

/// The order on keys is transitive.
pub proof fn lemma_key_lt_transitive(a: Seq<u64>, b: Seq<u64>, c: Seq<u64>)
    requires
        key_lt(a, b),
        key_lt(b, c),
    ensures
        key_lt(a, c),
{
    let i = choose|i: int| key_lt_at(a, b, i);
    let j = choose|j: int| key_lt_at(b, c, j);
    if i <= j {
        assert(key_lt_at(a, c, i));
    } else {
        assert(a[j] == b[j]);
        assert(key_lt_at(a, c, j));
    }
}

/// Two keys that differ are ordered one way or the other.
pub proof fn lemma_key_lt_total(a: Seq<u64>, b: Seq<u64>)
    requires
        a != b,
    ensures
        key_lt(a, b) || key_lt(b, a),
    decreases a.len(),
{
    if a.len() == 0 {
        if b.len() == 0 {
            assert(a =~= b);
        }
        assert(key_lt_at(a, b, 0));
    } else if b.len() == 0 {
        assert(key_lt_at(b, a, 0));
    } else if a[0] != b[0] {
        if a[0] < b[0] {
            assert(key_lt_at(a, b, 0));
        } else {
            assert(key_lt_at(b, a, 0));
        }
    } else {
        let a1 = a.drop_first();
        let b1 = b.drop_first();
        if a1 == b1 {
            assert(a =~= seq![a[0]] + a1);
            assert(b =~= seq![b[0]] + b1);
        }
        lemma_key_lt_total(a1, b1);
        if key_lt(a1, b1) {
            let i = choose|i: int| key_lt_at(a1, b1, i);
            assert forall|k: int| 0 <= k < i + 1 implies a[k] == b[k] by {
                if k > 0 {
                    assert(a1[k - 1] == b1[k - 1]);
                }
            }
            assert(key_lt_at(a, b, i + 1));
        } else {
            let i = choose|i: int| key_lt_at(b1, a1, i);
            assert forall|k: int| 0 <= k < i + 1 implies b[k] == a[k] by {
                if k > 0 {
                    assert(b1[k - 1] == a1[k - 1]);
                }
            }
            assert(key_lt_at(b, a, i + 1));
        }
    }
}

/// Versions that neither rank below the other have the same sort key, so they rank alike
/// against every third version.
pub proof fn lemma_version_equivalent(a: Version, b: Version, c: Version)
    requires
        !version_lt(a, b),
        !version_lt(b, a),
    ensures
        version_key(a) == version_key(b),
        version_lt(c, a) == version_lt(c, b),
        version_lt(a, c) == version_lt(b, c),
{
    if version_key(a) != version_key(b) {
        lemma_key_lt_total(version_key(a), version_key(b));
    }
}

/// Precedence is a strict order: irreflexive and transitive.
pub proof fn lemma_version_order(a: Version, b: Version, c: Version)
    ensures
        !version_lt(a, a),
        version_lt(a, b) && version_lt(b, c) ==> version_lt(a, c),
{
    lemma_key_lt_irreflexive(version_key(a));
    if version_lt(a, b) && version_lt(b, c) {
        lemma_key_lt_transitive(version_key(a), version_key(b), version_key(c));
    }
}

/// The character of the decimal digit `d`.
fn digit(d: u64) -> (c: char)
    requires
        d < 10,
    ensures
        c == digit_char(d as nat),
{
    if d == 0 { '0' } else if d == 1 { '1' } else if d == 2 { '2' } else if d == 3 { '3' }
    else if d == 4 { '4' } else if d == 5 { '5' } else if d == 6 { '6' } else if d == 7 { '7' }
    else if d == 8 { '8' } else { '9' }
}

/// The decimal digits of `n`.
pub fn decimal_chars(n: u64) -> (r: Vec<char>)
    ensures
        r@ == decimal(n as nat),
    decreases n,
{
    if n < 10 {
        vec![digit(n)]
    } else {
        let mut r = decimal_chars(n / 10);
        r.push(digit(n % 10));
        r
    }
}

/// Whether every character of a non-empty identifier is an ASCII digit.
fn digits_only(id: &Vec<char>) -> (r: bool)
    ensures
        r == all_digits(id@),
{
    if id.len() == 0 {
        return false;
    }
    let mut i: usize = 0;
    while i < id.len()
        invariant
            i <= id@.len(),
            forall|k: int| 0 <= k < i ==> 48 <= (#[trigger] id@[k]) as u32 <= 57,
        decreases id@.len() - i,
    {
        let c = id[i];
        if (c as u32) < 48 || (c as u32) > 57 {
            return false;
        }
        i += 1;
    }
    true
}

/// Appends the sort key of one pre-release identifier to `out`.
fn push_id_key(out: &mut Vec<u64>, id: &Vec<char>)
    ensures
        final(out)@ == old(out)@ + id_key(id@),
{
    let ghost start = out@;
    if digits_only(id) {
        out.push(1);
        out.push(id.len() as u64);
        let mut i: usize = 0;
        while i < id.len()
            invariant
                i <= id@.len(),
                out@ == start + seq![1u64, id@.len() as u64] + id@.subrange(0, i as int).map_values(|c: char| c as u64),
            decreases id@.len() - i,
        {
            out.push(id[i] as u64);
            i += 1;
            assert(id@.subrange(0, i as int).map_values(|c: char| c as u64) =~= id@.subrange(0, i - 1).map_values(|c: char| c as u64).push(id@[i - 1] as u64));
        }
        assert(id@.subrange(0, id@.len() as int) =~= id@);
    } else {
        out.push(2);
        let mut i: usize = 0;
        while i < id.len()
            invariant
                i <= id@.len(),
                out@ == start + seq![2u64] + id@.subrange(0, i as int).map_values(|c: char| c as u64),
            decreases id@.len() - i,
        {
            out.push(id[i] as u64);
            i += 1;
            assert(id@.subrange(0, i as int).map_values(|c: char| c as u64) =~= id@.subrange(0, i - 1).map_values(|c: char| c as u64).push(id@[i - 1] as u64));
        }
        out.push(0);
        assert(id@.subrange(0, id@.len() as int) =~= id@);
    }
    assert(final(out)@ =~= old(out)@ + id_key(id@));
}

/// Lexicographic comparison of two keys.
pub(crate) fn key_less(a: &Vec<u64>, b: &Vec<u64>) -> (r: bool)
    ensures
        r == key_lt(a@, b@),
{
    let mut i: usize = 0;
    while i < a.len() && i < b.len() && a[i] == b[i]
        invariant
            i <= a@.len(),
            i <= b@.len(),
            forall|k: int| 0 <= k < i ==> a@[k] == b@[k],
        decreases a@.len() - i,
    {
        i += 1;
    }
    if i < a.len() && i < b.len() {
        if a[i] < b[i] {
            assert(key_lt_at(a@, b@, i as int));
            true
        } else {
            assert forall|j: int| !key_lt_at(a@, b@, j) by {
                if j > i {
                    assert(a@[i as int] != b@[i as int]);
                }
            }
            false
        }
    } else if i == a.len() && i < b.len() {
        assert(key_lt_at(a@, b@, i as int));
        true
    } else {
        assert forall|j: int| !key_lt_at(a@, b@, j) by {}
        false
    }
}

impl Version {
    /// The release `major.minor.patch`.
    pub fn new(major: u64, minor: u64, patch: u64) -> (r: Version)
        ensures
            r.major == major && r.minor == minor && r.patch == patch,
            r.pre@.len() == 0 && r.build@.len() == 0,
    {
        Version { major, minor, patch, pre: String::new(), build: String::new() }
    }

    /// The text of the version.
    pub fn to_text(&self) -> (r: String)
        ensures
            r@ == version_text(*self),
    {
        let dot: Vec<char> = vec!['.'];
        let mut t = decimal_chars(self.major);
        t = concat(&t, &dot);
        t = concat(&t, &decimal_chars(self.minor));
        t = concat(&t, &dot);
        t = concat(&t, &decimal_chars(self.patch));
        let pre = chars_of(self.pre.as_str());
        if pre.len() > 0 {
            let dash: Vec<char> = vec!['-'];
            t = concat(&t, &dash);
            t = concat(&t, &pre);
        }
        let build = chars_of(self.build.as_str());
        if build.len() > 0 {
            let plus: Vec<char> = vec!['+'];
            t = concat(&t, &plus);
            t = concat(&t, &build);
        }
        string_from(&t)
    }

    /// The sort key of the version.
    pub fn key(&self) -> (r: Vec<u64>)
        ensures
            r@ == version_key(*self),
    {
        let mut k: Vec<u64> = vec![self.major, self.minor, self.patch];
        let pre = chars_of(self.pre.as_str());
        if pre.len() == 0 {
            k.push(1);
        } else {
            k.push(0);
            let ids = split_tokens(&pre, '.');
            let ghost idv = ids@.map_values(|v: Vec<char>| v@);
            let ghost head = k@;
            let mut i: usize = 0;
            while i < ids.len()
                invariant
                    i <= ids@.len(),
                    idv == ids@.map_values(|v: Vec<char>| v@),
                    k@ == head + ids_key(idv.subrange(0, i as int)),
                decreases ids@.len() - i,
            {
                push_id_key(&mut k, &ids[i]);
                proof {
                    assert(idv.subrange(0, i + 1).drop_last() =~= idv.subrange(0, i as int));
                    assert(idv.subrange(0, i + 1).last() == ids@[i as int]@);
                }
                i += 1;
                assert(k@ =~= head + ids_key(idv.subrange(0, i as int)));
            }
            assert(idv.subrange(0, ids@.len() as int) =~= idv);
        }
        assert(k@ =~= version_key(*self));
        k
    }

    /// Whether `self` ranks strictly below `other`.
    pub fn is_less(&self, other: &Version) -> (r: bool)
        ensures
            r == version_lt(*self, *other),
    {
        key_less(&self.key(), &other.key())
    }

    /// Reads a version from its text.
    pub fn parse(text: &str) -> (r: Result<Version, ErrorKind>)
        ensures
            r is Ok <==> semver_accepts_version(text@),
            r matches Ok(v) ==> version_text(v) == text@,
            r matches Err(e) ==> e == ErrorKind::DescriptorParse,
    {
        match parse_semver(text) {
            Some(v) => Ok(v),
            None => Err(ErrorKind::DescriptorParse),
        }
    }
}

/// Whether semver's parser accepts `s` as a version.
pub uninterp spec fn semver_accepts_version(s: Seq<char>) -> bool;

/// Relies on `semver::Version::parse`, which accepts exactly `major.minor.patch[-pre][+build]`
/// with no leading zeros and no surrounding text, and whose result prints back, through its
/// `Display`, as the text it was read from.
#[verifier::external_body]
fn parse_semver(s: &str) -> (r: Option<Version>)
    ensures
        r is Some <==> semver_accepts_version(s@),
        r matches Some(v) ==> version_text(v) == s@,
{
    semver::Version::parse(s).ok().map(|v| Version {
        major: v.major,
        minor: v.minor,
        patch: v.patch,
        pre: v.pre.as_str().to_string(),
        build: v.build.as_str().to_string(),
    })
}

/// The plain value of a version.
pub struct VersionView {
    pub major: u64,
    pub minor: u64,
    pub patch: u64,
    pub pre: Seq<char>,
    pub build: Seq<char>,
}

impl View for Version {
    type V = VersionView;

    open spec fn view(&self) -> VersionView {
        VersionView {
            major: self.major,
            minor: self.minor,
            patch: self.patch,
            pre: self.pre@,
            build: self.build@,
        }
    }
}

impl Version {
    /// A copy of the version.
    pub fn copy(&self) -> (r: Version)
        ensures
            r@ == self@,
    {
        Version {
            major: self.major,
            minor: self.minor,
            patch: self.patch,
            pre: self.pre.clone(),
            build: self.build.clone(),
        }
    }

    /// Whether two versions are written the same.
    pub fn same_as(&self, other: &Version) -> (r: bool)
        ensures
            r == (self@ == other@),
    {
        let r = self.major == other.major && self.minor == other.minor && self.patch
            == other.patch && self.pre == other.pre && self.build == other.build;
        r
    }
}

/// A version requirement in cargo's syntax (`*`, `1.2.*`, `^1.2`, `>=2, <3`, `=1.2.0`).
#[derive(Debug, PartialEq, Eq)]
pub struct VersionReq {
    text: String,
}

impl View for VersionReq {
    type V = Seq<char>;

    closed spec fn view(&self) -> Seq<char> {
        self.text@
    }
}

/// Whether semver's parser accepts `s` as a version requirement.
pub uninterp spec fn semver_accepts_req(s: Seq<char>) -> bool;

/// Whether the requirement written `req` matches the version with these numbers and
/// pre-release, as semver decides it (a requirement that does not parse matches nothing).
pub uninterp spec fn req_matches(req: Seq<char>, major: u64, minor: u64, patch: u64, pre: Seq<char>) -> bool;

/// `v` meets requirement `req`.
pub open spec fn satisfies(req: Seq<char>, v: Version) -> bool {
    req_matches(req, v.major, v.minor, v.patch, v.pre@)
}

/// Relies on `semver::VersionReq::parse` to tell whether `s` is a requirement.
#[verifier::external_body]
fn semver_req_valid(s: &str) -> (r: bool)
    ensures
        r == semver_accepts_req(s@),
{
    semver::VersionReq::parse(s).is_ok()
}

/// Relies on `semver::VersionReq::matches`, on the requirement read from `req` and on the
/// version with `v`'s numbers and pre-release.
#[verifier::external_body]
fn semver_matches(req: &str, v: &Version) -> (r: bool)
    ensures
        r == req_matches(req@, v.major, v.minor, v.patch, v.pre@),
{
    let pre = semver::Prerelease::new(&v.pre).unwrap_or(semver::Prerelease::EMPTY);
    let version = semver::Version { major: v.major, minor: v.minor, patch: v.patch, pre, build: semver::BuildMetadata::EMPTY };
    match semver::VersionReq::parse(req) {
        Ok(q) => q.matches(&version),
        Err(_) => false,
    }
}

impl VersionReq {
    /// The requirement `*`.
    pub fn star() -> (r: VersionReq)
        ensures
            r@ == seq!['*'],
    {
        let star: Vec<char> = vec!['*'];
        VersionReq { text: string_from(&star) }
    }

    /// Reads a requirement from its text.
    pub fn parse(text: &str) -> (r: Result<VersionReq, ErrorKind>)
        ensures
            r is Ok <==> semver_accepts_req(text@),
            r matches Ok(q) ==> q@ == text@,
            r matches Err(e) ==> e == ErrorKind::NoMatchingVersion,
    {
        if semver_req_valid(text) {
            Ok(VersionReq { text: text.to_owned() })
        } else {
            Err(ErrorKind::NoMatchingVersion)
        }
    }

    /// The text of the requirement.
    pub fn as_text(&self) -> (r: &str)
        ensures
            r@ == self@,
    {
        self.text.as_str()
    }

    /// A copy of the requirement.
    pub fn copy(&self) -> (r: VersionReq)
        ensures
            r@ == self@,
    {
        VersionReq { text: self.text.clone() }
    }

    /// Whether `v` meets the requirement.
    pub fn matches(&self, v: &Version) -> (r: bool)
        ensures
            r == satisfies(self@, *v),
    {
        semver_matches(self.text.as_str(), v)
    }
}

} // verus!
