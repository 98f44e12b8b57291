//! Semantic versions and version ranges.
//!
//! Versions are plain data here; reading a version and matching it against a
//! range is the work of the `node_semver` crate.
use crate::text;
use crate::value::Value;
use vstd::prelude::*;
use vstd::string::*;

verus! {

/// One dot-separated part of a pre-release or build tag.
#[derive(Debug, PartialEq, Eq)]
pub enum Identifier {
    Numeric(u64),
    AlphaNumeric(String),
}

/// A semantic version.
#[derive(Debug)]
pub struct Version {
    pub major: u64,
    pub minor: u64,
    pub patch: u64,
    pub pre_release: Vec<Identifier>,
    pub build: Vec<Identifier>,
}

/// The mathematical value of an [`Identifier`].
pub enum IdentifierModel {
    Numeric(u64),
    AlphaNumeric(Seq<char>),
}

/// The mathematical value of a [`Version`].
pub struct VersionModel {
    pub major: u64,
    pub minor: u64,
    pub patch: u64,
    pub pre_release: Seq<IdentifierModel>,
    pub build: Seq<IdentifierModel>,
}

impl DeepView for Identifier {
    type V = IdentifierModel;

    open spec fn deep_view(&self) -> IdentifierModel {
        match self {
            Identifier::Numeric(n) => IdentifierModel::Numeric(*n),
            Identifier::AlphaNumeric(s) => IdentifierModel::AlphaNumeric(s@),
        }
    }
}

impl DeepView for Version {
    type V = VersionModel;

    open spec fn deep_view(&self) -> VersionModel {
        VersionModel {
            major: self.major,
            minor: self.minor,
            patch: self.patch,
            pre_release: self.pre_release.deep_view(),
            build: self.build.deep_view(),
        }
    }
}

impl Value for Identifier {
    fn duplicate(&self) -> Identifier {
        match self {
            Identifier::Numeric(n) => Identifier::Numeric(*n),
            Identifier::AlphaNumeric(s) => Identifier::AlphaNumeric(s.clone()),
        }
    }

    fn same(&self, other: &Identifier) -> bool {
        match (self, other) {
            (Identifier::Numeric(m), Identifier::Numeric(n)) => *m == *n,
            (Identifier::AlphaNumeric(s), Identifier::AlphaNumeric(t)) => s.same(t),
            _ => false,
        }
    }
}

impl Value for Version {
    fn duplicate(&self) -> Version {
        Version {
            major: self.major,
            minor: self.minor,
            patch: self.patch,
            pre_release: self.pre_release.duplicate(),
            build: self.build.duplicate(),
        }
    }

    fn same(&self, other: &Version) -> bool {
        self.major == other.major && self.minor == other.minor && self.patch == other.patch
            && self.pre_release.same(&other.pre_release) && self.build.same(&other.build)
    }
}

/// The version without its build tag: what tells two versions apart.
pub open spec fn release(v: VersionModel) -> VersionModel {
    VersionModel { build: Seq::empty(), ..v }
}

impl Version {
    /// The version without its build tag.
    pub fn to_release(&self) -> (version: Version)
        ensures
            version.deep_view() == release(self.deep_view()),
    {
        let version = Version {
            major: self.major,
            minor: self.minor,
            patch: self.patch,
            pre_release: self.pre_release.duplicate(),
            build: Vec::new(),
        };
        assert(version.build.deep_view() =~= Seq::<IdentifierModel>::empty());
        version
    }
}

/// Whether `a` and `b` are one version: the build tag does not count.
pub open spec fn same_version(a: VersionModel, b: VersionModel) -> bool {
    &&& a.major == b.major
    &&& a.minor == b.minor
    &&& a.patch == b.patch
    &&& a.pre_release == b.pre_release
}

/// Numbers stand before words; numbers go by value, words by code point.
pub open spec fn identifier_less(a: IdentifierModel, b: IdentifierModel) -> bool {
    match (a, b) {
        (IdentifierModel::Numeric(m), IdentifierModel::Numeric(n)) => m < n,
        (IdentifierModel::Numeric(_), IdentifierModel::AlphaNumeric(_)) => true,
        (IdentifierModel::AlphaNumeric(_), IdentifierModel::Numeric(_)) => false,
        (IdentifierModel::AlphaNumeric(s), IdentifierModel::AlphaNumeric(t)) => text::text_less(s, t),
    }
}

/// Identifier by identifier; a proper prefix stands first.
pub open spec fn identifiers_less(a: Seq<IdentifierModel>, b: Seq<IdentifierModel>) -> bool
    decreases b.len(),
{
    if b.len() == 0 {
        false
    } else if a.len() == 0 {
        true
    } else if a[0] != b[0] {
        identifier_less(a[0], b[0])
    } else {
        identifiers_less(a.skip(1), b.skip(1))
    }
}

/// The precedence of versions: by number, and a pre-release before its release.
pub open spec fn version_less(a: VersionModel, b: VersionModel) -> bool {
    if a.major != b.major {
        a.major < b.major
    } else if a.minor != b.minor {
        a.minor < b.minor
    } else if a.patch != b.patch {
        a.patch < b.patch
    } else if a.pre_release.len() == 0 {
        false
    } else if b.pre_release.len() == 0 {
        true
    } else {
        identifiers_less(a.pre_release, b.pre_release)
    }
}

/// How an identifier is written.
pub open spec fn identifier_text(id: IdentifierModel) -> Seq<char> {
    match id {
        IdentifierModel::Numeric(n) => text::decimal(n as nat),
        IdentifierModel::AlphaNumeric(s) => s,
    }
}

/// A tag as it is written behind a version: nothing, or the mark and the
/// identifiers with dots between them.
pub open spec fn tag_text(mark: char, ids: Seq<IdentifierModel>) -> Seq<char>
    decreases ids.len(),
{
    if ids.len() == 0 {
        Seq::empty()
    } else if ids.len() == 1 {
        seq![mark] + identifier_text(ids[0])
    } else {
        tag_text(mark, ids.drop_last()) + seq!['.'] + identifier_text(ids.last())
    }
}

/// How a version is written.
pub open spec fn version_text(v: VersionModel) -> Seq<char> {
    text::decimal(v.major as nat) + seq!['.'] + text::decimal(v.minor as nat) + seq!['.'] + text::decimal(
        v.patch as nat,
    ) + tag_text('-', v.pre_release) + tag_text('+', v.build)
}

impl Identifier {
    fn stands_before(&self, other: &Identifier) -> (before: bool)
        ensures
            before == identifier_less(self.deep_view(), other.deep_view()),
    {
        match (self, other) {
            (Identifier::Numeric(m), Identifier::Numeric(n)) => *m < *n,
            (Identifier::Numeric(_), Identifier::AlphaNumeric(_)) => true,
            (Identifier::AlphaNumeric(_), Identifier::Numeric(_)) => false,
            (Identifier::AlphaNumeric(s), Identifier::AlphaNumeric(t)) => text::is_less(s.as_str(), t.as_str()),
        }
    }

    fn text(&self) -> (s: String)
        ensures
            s@ == identifier_text(self.deep_view()),
    {
        match self {
            Identifier::Numeric(n) => text::decimal_text(*n as u128),
            Identifier::AlphaNumeric(s) => s.clone(),
        }
    }
}

fn identifiers_before(a: &Vec<Identifier>, b: &Vec<Identifier>) -> (before: bool)
    ensures
        before == identifiers_less(a.deep_view(), b.deep_view()),
{
    let ghost left = a.deep_view();
    let ghost right = b.deep_view();
    assert(left.skip(0) =~= left);
    assert(right.skip(0) =~= right);
    let mut i: usize = 0;
    while i < a.len() && i < b.len()
        invariant
            left == a.deep_view(),
            right == b.deep_view(),
            i <= a@.len(),
            i <= b@.len(),
            identifiers_less(left, right) == identifiers_less(
                left.skip(i as int),
                right.skip(i as int),
            ),
        decreases a@.len() - i,
    {
        if !a[i].same(&b[i]) {
            return a[i].stands_before(&b[i]);
        }
        proof {
            assert(left.skip(i as int).skip(1) =~= left.skip(i + 1));
            assert(right.skip(i as int).skip(1) =~= right.skip(i + 1));
        }
        i = i + 1;
    }
    i < b.len()
}

fn push_tag(out: &mut String, mark: char, ids: &Vec<Identifier>)
    ensures
        final(out)@ == old(out)@ + tag_text(mark, ids.deep_view()),
{
    let ghost start = out@;
    let ghost all = ids.deep_view();
    let mut i: usize = 0;
    assert(out@ =~= start + tag_text(mark, all.take(0)));
    while i < ids.len()
        invariant
            all == ids.deep_view(),
            i <= ids@.len(),
            out@ == start + tag_text(mark, all.take(i as int)),
        decreases ids@.len() - i,
    {
        proof {
            assert(all.take(i + 1).drop_last() =~= all.take(i as int));
            assert(all.take(i + 1).last() == all[i as int]);
        }
        out.push(
            if i == 0 {
                mark
            } else {
                '.'
            },
        );
        out.append(ids[i].text().as_str());
        i = i + 1;
        assert(out@ =~= start + tag_text(mark, all.take(i as int)));
    }
    assert(all.take(i as int) =~= all);
}

impl Version {
    /// A release version without tags.
    pub fn new(major: u64, minor: u64, patch: u64) -> (v: Version)
        ensures
            v.deep_view() == (VersionModel {
                major,
                minor,
                patch,
                pre_release: Seq::empty(),
                build: Seq::empty(),
            }),
    {
        let v = Version { major, minor, patch, pre_release: Vec::new(), build: Vec::new() };
        assert(v.pre_release.deep_view() =~= Seq::empty());
        assert(v.build.deep_view() =~= Seq::empty());
        v
    }

    /// Reads a version.
    pub fn parse(text: &str) -> (version: Option<Version>)
        ensures
            version.deep_view() == parsed_version(text@),
    {
        match read_version(text) {
            Ok(version) => Some(version),
            Err(_) => None,
        }
    }

    /// Whether `self` and `other` are one version.
    pub fn is_same(&self, other: &Version) -> (same: bool)
        ensures
            same == same_version(self.deep_view(), other.deep_view()),
    {
        self.major == other.major && self.minor == other.minor && self.patch == other.patch
            && self.pre_release.same(&other.pre_release)
    }

    /// Whether `self` stands before `other` in precedence.
    pub fn stands_before(&self, other: &Version) -> (before: bool)
        ensures
            before == version_less(self.deep_view(), other.deep_view()),
    {
        if self.major != other.major {
            self.major < other.major
        } else if self.minor != other.minor {
            self.minor < other.minor
        } else if self.patch != other.patch {
            self.patch < other.patch
        } else if self.pre_release.len() == 0 {
            false
        } else if other.pre_release.len() == 0 {
            true
        } else {
            identifiers_before(&self.pre_release, &other.pre_release)
        }
    }

    /// How the version is written.
    pub fn text(&self) -> (s: String)
        ensures
            s@ == version_text(self.deep_view()),
    {
        let mut s = text::decimal_text(self.major as u128);
        s.push('.');
        s.append(text::decimal_text(self.minor as u128).as_str());
        s.push('.');
        s.append(text::decimal_text(self.patch as u128).as_str());
        let ghost v = self.deep_view();
        assert(s@ =~= text::decimal(v.major as nat) + seq!['.'] + text::decimal(v.minor as nat) + seq!['.']
            + text::decimal(v.patch as nat));
        push_tag(&mut s, '-', &self.pre_release);
        push_tag(&mut s, '+', &self.build);
        s
    }
}

proof fn lemma_identifiers_order(
    a: Seq<IdentifierModel>,
    b: Seq<IdentifierModel>,
    c: Seq<IdentifierModel>,
)
    ensures
        !identifiers_less(a, a),
        identifiers_less(a, b) ==> !identifiers_less(b, a),
        !identifiers_less(a, b) && !identifiers_less(b, a) ==> a == b,
        identifiers_less(a, b) && identifiers_less(b, c) ==> identifiers_less(a, c),
    decreases a.len() + b.len() + c.len(),
{
    if a.len() > 0 && b.len() > 0 {
        let rest = if c.len() > 0 {
            c.skip(1)
        } else {
            c
        };
        lemma_identifiers_order(a.skip(1), b.skip(1), rest);
        let x = identifier_text(a[0]);
        let y = identifier_text(b[0]);
        text::lemma_text_less_order(x, y, if c.len() > 0 {
            identifier_text(c[0])
        } else {
            x
        });
        if a[0] == b[0] && a.skip(1) == b.skip(1) {
            assert(a =~= seq![a[0]] + a.skip(1));
            assert(b =~= seq![b[0]] + b.skip(1));
        }
    } else if a.len() > 0 {
        lemma_identifiers_order(a.skip(1), b, c);
    } else {
        if b.len() == 0 {
            assert(a =~= b);
        }
    }
}

/// Precedence orders versions totally: it is irreflexive, asymmetric and
/// transitive, and two versions of which neither stands first are the same.
pub proof fn law_version_precedence(a: VersionModel, b: VersionModel, c: VersionModel)
    ensures
        !version_less(a, a),
        version_less(a, b) ==> !version_less(b, a),
        !version_less(a, b) && !version_less(b, a) <==> same_version(a, b),
        version_less(a, b) && version_less(b, c) ==> version_less(a, c),
{
    lemma_identifiers_order(a.pre_release, b.pre_release, c.pre_release);
    if a.pre_release.len() == 0 && b.pre_release.len() == 0 {
        assert(a.pre_release =~= b.pre_release);
    }
}


/// What `node_semver` reads a text as: a version, or no version.
pub uninterp spec fn parsed_version(text: Seq<char>) -> Option<VersionModel>;

/// What `node_semver` says about a text that it does not read as a version.
pub uninterp spec fn version_refusal(text: Seq<char>) -> Seq<char>;

/// Whether `node_semver` reads a text as a version range.
pub uninterp spec fn range_parses(text: Seq<char>) -> bool;

/// Whether `node_semver` counts a version to the range that a text stands for.
pub uninterp spec fn range_admits(range: Seq<char>, version: VersionModel) -> bool;

/// The largest number that `node_semver` accepts as a version component.
pub const MAX_COMPONENT: u64 = 900719925474099;

pub open spec fn is_blank(c: char) -> bool {
    c == ' ' || c == '\t'
}

pub open spec fn is_wildcard(c: char) -> bool {
    c == 'x' || c == 'X' || c == '*'
}

pub open spec fn is_digit(c: char) -> bool {
    '0' <= c <= '9'
}

/// The first position at or behind `i` that holds no blank.
pub open spec fn skip_blanks(s: Seq<char>, i: int) -> int
    decreases s.len() - i,
{
    if 0 <= i < s.len() && is_blank(s[i]) {
        skip_blanks(s, i + 1)
    } else {
        i
    }
}

/// The end of the run of digits that begins at `i`.
pub open spec fn digits_end(s: Seq<char>, i: int) -> int
    decreases s.len() - i,
{
    if 0 <= i < s.len() && is_digit(s[i]) {
        digits_end(s, i + 1)
    } else {
        i
    }
}

/// The number that a run of digits stands for.
pub open spec fn digits_value(s: Seq<char>) -> nat
    decreases s.len(),
{
    if s.len() == 0 {
        0
    } else {
        (digits_value(s.drop_last()) * 10 + (s.last() as int - 48)) as nat
    }
}

/// A number that can be a version component begins at `i` and ends at `e`.
pub open spec fn component_spans(s: Seq<char>, i: int, e: int) -> bool {
    &&& 0 <= i < e <= s.len()
    &&& e == digits_end(s, i)
    &&& digits_value(s.subrange(i, e)) <= MAX_COMPONENT
}

/// Where the first component of a partial version begins that is looked for at `i`.
pub open spec fn component_start(s: Seq<char>, i: int) -> int {
    let a = skip_blanks(s, i);
    skip_blanks(
        s,
        if 0 <= a < s.len() && s[a] == 'v' {
            a + 1
        } else {
            a
        },
    )
}

pub open spec fn wildcard_at(s: Seq<char>, i: int) -> bool {
    0 <= i < s.len() && is_wildcard(s[i])
}

/// `=` before a wildcard.
pub open spec fn bare_equals(s: Seq<char>, p: int) -> bool {
    0 <= p < s.len() && s[p] == '=' && wildcard_at(s, component_start(s, p + 1))
}

/// `~` (or `~>`) before a wildcard, or before a number with a wildcard for its
/// minor and a number for its patch component.
pub open spec fn bare_tilde(s: Seq<char>, p: int) -> bool {
    &&& 0 <= p < s.len()
    &&& s[p] == '~'
    &&& {
        let a = skip_blanks(s, p + 1);
        let m = component_start(
            s,
            if 0 <= a < s.len() && s[a] == '>' {
                a + 1
            } else {
                a
            },
        );
        let e = digits_end(s, m);
        ||| wildcard_at(s, m)
        ||| {
            &&& component_spans(s, m, e)
            &&& e + 2 < s.len()
            &&& s[e] == '.'
            &&& is_wildcard(s[e + 1])
            &&& s[e + 2] == '.'
            &&& component_spans(s, e + 3, digits_end(s, e + 3))
        }
    }
}

/// How many bars stand directly before position `p`.
pub open spec fn bars_before(s: Seq<char>, p: int) -> int
    decreases p,
{
    if 0 < p <= s.len() && s[p - 1] == '|' {
        1 + bars_before(s, p - 1)
    } else {
        0
    }
}

/// A comparator of a range begins at `p`: at the start, behind a blank or
/// behind a complete `||`.
pub open spec fn comparator_begins(s: Seq<char>, p: int) -> bool {
    ||| p == 0
    ||| 0 < p < s.len() && is_blank(s[p - 1])
    ||| bars_before(s, p) >= 2 && bars_before(s, p) % 2 == 0
}

/// Some comparator of the range is one that `node_semver` does not survive
/// reading: it runs into `unreachable!`.
pub open spec fn range_is_unreadable(s: Seq<char>) -> bool {
    exists|p: int|
        0 <= p < s.len() && #[trigger] comparator_begins(s, p) && (bare_equals(s, p) || bare_tilde(
            s,
            p,
        ))
}

/// Reads a version with `node_semver::Version::parse`, or tells what the error
/// that comes back says. Both are named: they are functions of the text alone.
/// The fields of the version that comes back are taken over one by one.
#[verifier::external_body]
pub(crate) fn read_version(text: &str) -> (version: Result<Version, String>)
    ensures
        version.ok().deep_view() == parsed_version(text@),
        version is Err ==> version->Err_0@ == version_refusal(text@),
{
    let outside = node_semver::Version::parse(text).map_err(|error| error.to_string())?;
    let own = |id: node_semver::Identifier| match id {
        node_semver::Identifier::Numeric(n) => Identifier::Numeric(n),
        node_semver::Identifier::AlphaNumeric(s) => Identifier::AlphaNumeric(s),
    };
    Ok(Version {
        major: outside.major,
        minor: outside.minor,
        patch: outside.patch,
        pre_release: outside.pre_release.into_iter().map(own).collect(),
        build: outside.build.into_iter().map(own).collect(),
    })
}

/// Whether `node_semver::Range::parse` accepts a text. The result is named: it
/// is a function of the text alone. A text with a comparator that the parser
/// does not survive is left out.
#[verifier::external_body]
pub(crate) fn parses_as_range(text: &str) -> (parses: bool)
    requires
        !range_is_unreadable(text@),
    ensures
        parses == range_parses(text@),
{
    node_semver::Range::parse(text).is_ok()
}

/// Whether a version belongs to a range by `node_semver::Version::satisfies`,
/// or `None` where `node_semver::Range::parse` refuses the range. The result is
/// named: it is a function of the range's text and of the version alone.
#[verifier::external_body]
pub(crate) fn satisfies(version: &Version, range: &str) -> (admitted: Option<bool>)
    requires
        !range_is_unreadable(range@),
    ensures
        admitted == (if range_parses(range@) {
            Some(range_admits(range@, version.deep_view()))
        } else {
            None
        }),
{
    let range = node_semver::Range::parse(range).ok()?;
    let outside = |id: &Identifier| match id {
        Identifier::Numeric(n) => node_semver::Identifier::Numeric(*n),
        Identifier::AlphaNumeric(s) => node_semver::Identifier::AlphaNumeric(s.clone()),
    };
    let mut other = node_semver::Version::new(version.major, version.minor, version.patch);
    other.pre_release = version.pre_release.iter().map(outside).collect();
    other.build = version.build.iter().map(outside).collect();
    Some(other.satisfies(&range))
}

fn skip_blanks_from(s: &Vec<char>, i: usize) -> (k: usize)
    requires
        i <= s@.len(),
    ensures
        k == skip_blanks(s@, i as int),
        i <= k <= s@.len(),
{
    let mut k: usize = i;
    while k < s.len() && (s[k] == ' ' || s[k] == '\t')
        invariant
            i <= k <= s@.len(),
            skip_blanks(s@, i as int) == skip_blanks(s@, k as int),
        decreases s@.len() - k,
    {
        k = k + 1;
    }
    k
}

proof fn lemma_digits_value_grows(s: Seq<char>, n: int)
    requires
        0 <= n <= s.len(),
        forall|i: int| 0 <= i < s.len() ==> is_digit(s[i]),
    ensures
        digits_value(s.take(n)) <= digits_value(s),
    decreases s.len() - n,
{
    if n < s.len() {
        lemma_digits_value_grows(s, n + 1);
        assert(s.take(n + 1).drop_last() =~= s.take(n));
        assert(s.take(n + 1).last() == s[n]);
    } else {
        assert(s.take(n) =~= s);
    }
}

proof fn lemma_digits_end(s: Seq<char>, i: int)
    requires
        0 <= i <= s.len(),
    ensures
        i <= digits_end(s, i) <= s.len(),
        forall|j: int| i <= j < digits_end(s, i) ==> is_digit(s[j]),
    decreases s.len() - i,
{
    if i < s.len() && is_digit(s[i]) {
        lemma_digits_end(s, i + 1);
    }
}

/// The end of the component that begins at `i`.
fn component_end(s: &Vec<char>, i: usize) -> (end: Option<usize>)
    requires
        i <= s@.len(),
    ensures
        match end {
            Some(e) => component_spans(s@, i as int, e as int),
            None => !component_spans(s@, i as int, digits_end(s@, i as int)),
        },
{
    proof {
        lemma_digits_end(s@, i as int);
    }
    let ghost run = s@.subrange(i as int, digits_end(s@, i as int));
    let mut k: usize = i;
    let mut value: u64 = 0;
    while k < s.len() && '0' <= s[k] && s[k] <= '9'
        invariant
            i <= k <= s@.len(),
            digits_end(s@, i as int) == digits_end(s@, k as int),
            k <= digits_end(s@, i as int) <= s@.len(),
            forall|j: int| i <= j < digits_end(s@, i as int) ==> is_digit(s@[j]),
            run == s@.subrange(i as int, digits_end(s@, i as int)),
            value <= MAX_COMPONENT,
            value == digits_value(s@.subrange(i as int, k as int)),
        decreases s@.len() - k,
    {
        let d: u64 = (s[k] as u32 - 48) as u64;
        proof {
            lemma_digits_end(s@, k + 1);
            let next = s@.subrange(i as int, k + 1);
            assert(next.drop_last() =~= s@.subrange(i as int, k as int));
            assert(next.last() == s@[k as int]);
            assert(run.take(k + 1 - i) =~= next);
            lemma_digits_value_grows(run, k + 1 - i);
        }
        value = value * 10 + d;
        if value > MAX_COMPONENT {
            return None;
        }
        k = k + 1;
    }
    if k == i {
        return None;
    }
    assert(digits_end(s@, k as int) == k);
    Some(k)
}

fn component_start_from(s: &Vec<char>, i: usize) -> (k: usize)
    requires
        i <= s@.len(),
    ensures
        k == component_start(s@, i as int),
        i <= k <= s@.len(),
{
    let a = skip_blanks_from(s, i);
    if a < s.len() && s[a] == 'v' {
        skip_blanks_from(s, a + 1)
    } else {
        skip_blanks_from(s, a)
    }
}

fn has_wildcard_at(s: &Vec<char>, i: usize) -> (yes: bool)
    ensures
        yes == wildcard_at(s@, i as int),
{
    i < s.len() && (s[i] == 'x' || s[i] == 'X' || s[i] == '*')
}

fn is_bare_tilde(s: &Vec<char>, p: usize) -> (yes: bool)
    requires
        p < s@.len(),
    ensures
        yes == bare_tilde(s@, p as int),
{
    if s[p] != '~' {
        return false;
    }
    let n: usize = s.len();
    let a = skip_blanks_from(s, p + 1);
    let m = if a < n && s[a] == '>' {
        component_start_from(s, a + 1)
    } else {
        component_start_from(s, a)
    };
    if has_wildcard_at(s, m) {
        return true;
    }
    match component_end(s, m) {
        None => false,
        Some(e) => {
            if n < 3 || e >= n - 2 {
                return false;
            }
            if s[e] != '.' || !has_wildcard_at(s, e + 1) || s[e + 2] != '.' {
                return false;
            }
            component_end(s, e + 3).is_some()
        },
    }
}

fn count_bars_before(s: &Vec<char>, p: usize) -> (n: usize)
    requires
        p <= s@.len(),
    ensures
        n == bars_before(s@, p as int),
    decreases p,
{
    if p > 0 && s[p - 1] == '|' {
        let rest = count_bars_before(s, p - 1);
        proof {
            lemma_bars_bound(s@, p - 1);
        }
        rest + 1
    } else {
        0
    }
}

proof fn lemma_bars_bound(s: Seq<char>, p: int)
    requires
        0 <= p,
    ensures
        0 <= bars_before(s, p) <= p,
    decreases p,
{
    if 0 < p <= s.len() && s[p - 1] == '|' {
        lemma_bars_bound(s, p - 1);
    }
}

/// Whether a range is one that can be handed to the range functions.
pub fn range_is_readable(range: &str) -> (readable: bool)
    ensures
        readable == !range_is_unreadable(range@),
{
    let s = text::chars_of(range);
    let mut p: usize = 0;
    while p < s.len()
        invariant
            s@ == range@,
            p <= s@.len(),
            forall|q: int|
                0 <= q < p && #[trigger] comparator_begins(s@, q) ==> !(bare_equals(s@, q)
                    || bare_tilde(s@, q)),
        decreases s@.len() - p,
    {
        let bars = count_bars_before(&s, p);
        if p == 0 || s[p - 1] == ' ' || s[p - 1] == '\t' || (bars >= 2 && bars % 2 == 0) {
            assert(comparator_begins(s@, p as int));
            if s[p] == '=' {
                let m = component_start_from(&s, p + 1);
                if has_wildcard_at(&s, m) {
                    assert(bare_equals(s@, p as int));
                    return false;
                }
            }
            if is_bare_tilde(&s, p) {
                return false;
            }
        }
        p = p + 1;
    }
    true
}

/// The parts of a version count from left to right, and a version that is not out yet
/// stands before the one that is.
pub proof fn law_parts_of_a_version_count_in_order(a: VersionModel, b: VersionModel)
    ensures
        a.major < b.major ==> version_less(a, b),
        a.major == b.major && a.minor < b.minor ==> version_less(a, b),
        a.major == b.major && a.minor == b.minor && a.patch < b.patch ==> version_less(a, b),
        a.major == b.major && a.minor == b.minor && a.patch == b.patch && a.pre_release.len() > 0
            && b.pre_release.len() == 0 ==> version_less(a, b) && !version_less(b, a),
        a.major == b.major && a.minor == b.minor && a.patch == b.patch && a.pre_release
            == b.pre_release ==> same_version(a, b),
        same_version(a, b) ==> a.major == b.major && a.minor == b.minor && a.patch == b.patch
            && a.pre_release == b.pre_release,
{
}

} // verus!
