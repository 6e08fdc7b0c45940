//! The version model, its precedence order, and the parse of a tag into it.
use vstd::prelude::*;
use vstd::string::StringSliceAdditionalSpecFns;

verus! {

/// The fields of a parsed version as plain values: major, minor, patch and
/// the prerelease text.
pub type SemverFields = (u64, u64, u64, Seq<char>);

/// Mathematical view of a [`Version`]: major, minor, patch and, for a
/// prerelease, its label bytes and numeric counter.
pub type VersionModel = (u64, u64, u64, Option<(Seq<u8>, u64)>);

/// A prerelease identifier of the form `<label>.<counter>`.
#[derive(Debug, Clone)]
pub struct Prerelease {
    pub label: Vec<u8>,
    pub counter: u64,
}

/// A semantic version with an optional single-segment prerelease identifier.
#[derive(Debug, Clone)]
pub struct Version {
    pub major: u64,
    pub minor: u64,
    pub patch: u64,
    pub pre: Option<Prerelease>,
}

impl View for Version {
    type V = VersionModel;

    open spec fn view(&self) -> VersionModel {
        (
            self.major,
            self.minor,
            self.patch,
            prerelease_view(self.pre),
        )
    }
}

impl Version {
    /// `self` does not take precedence over `other`.
    pub fn precedes_or_equals(&self, other: &Version) -> (r: bool)
        ensures
            r == version_le(self@, other@),
    {
        if self.major != other.major {
            self.major < other.major
        } else if self.minor != other.minor {
            self.minor < other.minor
        } else if self.patch != other.patch {
            self.patch < other.patch
        } else {
            match (&self.pre, &other.pre) {
                (None, None) => true,
                (Some(_), None) => true,
                (None, Some(_)) => false,
                (Some(x), Some(y)) => x.counter <= y.counter,
            }
        }
    }
}

pub open spec fn prerelease_view(p: Option<Prerelease>) -> Option<(Seq<u8>, u64)> {
    match p {
        Some(q) => Some((q.label@, q.counter)),
        None => None,
    }
}

/// The version 0.0.0 without prerelease, the rank of a tag that does not parse.
pub open spec fn zero_version() -> VersionModel {
    (0, 0, 0, None)
}

/// `a` does not take precedence over `b`: major, minor and patch compare in
/// that order; a release outranks every prerelease of the same triple; two
/// prereleases of the same triple compare by their numeric counter.
pub open spec fn version_le(a: VersionModel, b: VersionModel) -> bool {
    if a.0 != b.0 {
        a.0 < b.0
    } else if a.1 != b.1 {
        a.1 < b.1
    } else if a.2 != b.2 {
        a.2 < b.2
    } else {
        match (a.3, b.3) {
            (None, None) => true,
            (Some(_), None) => true,
            (None, Some(_)) => false,
            (Some(x), Some(y)) => x.1 <= y.1,
        }
    }
}

/// The order is total: of any two versions one is at most the other.
pub proof fn lemma_version_le_total(a: VersionModel, b: VersionModel)
    ensures
        version_le(a, b) || version_le(b, a),
{
}

/// The order is transitive.
pub proof fn lemma_version_le_transitive(a: VersionModel, b: VersionModel, c: VersionModel)
    requires
        version_le(a, b),
        version_le(b, c),
    ensures
        version_le(a, c),
{
}

/// Within one prerelease label and release triple, counters rank numerically.
pub proof fn lemma_counter_ranks_numerically(
    major: u64,
    minor: u64,
    patch: u64,
    label: Seq<u8>,
    lo: u64,
    hi: u64,
)
    requires
        lo < hi,
    ensures
        version_le((major, minor, patch, Some((label, lo))), (major, minor, patch, Some((label, hi)))),
        !version_le((major, minor, patch, Some((label, hi))), (major, minor, patch, Some((label, lo)))),
{
}

pub open spec fn is_digit(b: u8) -> bool {
    48 <= b <= 57
}

/// Number of decimal digits at the end of `s`.
pub open spec fn trailing_digits(s: Seq<u8>) -> nat
    decreases s.len(),
{
    if s.len() > 0 && is_digit(s.last()) {
        1 + trailing_digits(s.drop_last())
    } else {
        0
    }
}

/// The value of a string of decimal digits.
pub open spec fn decimal(s: Seq<u8>) -> nat
    decreases s.len(),
{
    if s.len() == 0 {
        0
    } else {
        decimal(s.drop_last()) * 10 + (s.last() - 48) as nat
    }
}

/// Reads prerelease text: `Some(None)` for none, `Some(Some((label, n)))` for
/// `<label>.<n>` with `n` decimal and within `u64`, `None` for anything else.
pub open spec fn prerelease_of(p: Seq<u8>) -> Option<Option<(Seq<u8>, u64)>> {
    if p.len() == 0 {
        Some(None)
    } else {
        let t = trailing_digits(p);
        let d = p.len() - t - 1;
        if t > 0 && d >= 0 && p[d] == 46u8 && decimal(p.subrange(d + 1, p.len() as int))
            <= u64::MAX {
            Some(Some((p.subrange(0, d), decimal(p.subrange(d + 1, p.len() as int)) as u64)))
        } else {
            None
        }
    }
}

/// What semver's parse of `text` yields: the fields of the version, or
/// nothing where `text` is no semantic version.
pub uninterp spec fn semver_fields(text: Seq<u8>) -> Option<SemverFields>;

/// The version that parsed fields stand for; anything outside the model
/// ranks as the zero version.
pub open spec fn version_from_fields(f: Option<SemverFields>) -> VersionModel {
    match f {
        None => zero_version(),
        Some(v) => match prerelease_of(vstd::utf8::encode_utf8(v.3)) {
            Some(pre) => (v.0, v.1, v.2, pre),
            None => zero_version(),
        },
    }
}

/// The rank of `tag` once `prefix` is stripped from it. A tag that does not
/// begin with `prefix` on a character boundary ranks as the zero version.
pub open spec fn parsed_version(tag: Seq<u8>, prefix: Seq<u8>) -> VersionModel {
    if prefix.len() <= tag.len() && tag.subrange(0, prefix.len() as int) == prefix
        && vstd::utf8::is_char_boundary(tag, prefix.len() as int) {
        version_from_fields(semver_fields(tag.subrange(prefix.len() as int, tag.len() as int)))
    } else {
        zero_version()
    }
}

/// Relies on semver::Version::parse, and hands back the numeric fields and
/// the prerelease text of the version it reads.
#[verifier::external_body]
fn semver_parse(text: &str) -> (r: Option<(u64, u64, u64, String)>)
    ensures
        match r {
            None => semver_fields(text.spec_bytes()) is None,
            Some(v) => semver_fields(text.spec_bytes()) == Some((v.0, v.1, v.2, v.3@)),
        },
{
    semver::Version::parse(text).ok().map(|v| (v.major, v.minor, v.patch, v.pre.as_str().to_string()))
}


/// Reading a digit string further never lowers its value.
proof fn lemma_decimal_prefix(s: Seq<u8>, k: int)
    requires
        0 <= k <= s.len(),
    ensures
        decimal(s.subrange(0, k)) <= decimal(s),
    decreases s.len(),
{
    if k == s.len() {
        assert(s.subrange(0, k) =~= s);
    } else {
        lemma_decimal_prefix(s.drop_last(), k);
        assert(s.drop_last().subrange(0, k) =~= s.subrange(0, k));
    }
}

/// Reads prerelease text into a label and a counter, as `prerelease_of` does.
pub fn read_prerelease(p: &[u8]) -> (r: Option<Option<Prerelease>>)
    ensures
        match r {
            None => prerelease_of(p@) is None,
            Some(q) => prerelease_of(p@) == Some(prerelease_view(q)),
        },
{
    let n = p.len();
    if n == 0 {
        return Some(None);
    }
    let mut t: usize = 0;
    assert(p@.subrange(0, n as int) =~= p@);
    while t < n && 48 <= p[n - 1 - t] && p[n - 1 - t] <= 57
        invariant
            n == p@.len(),
            t <= n,
            trailing_digits(p@) == t + trailing_digits(p@.subrange(0, n - t)),
        decreases n - t,
    {
        assert(p@.subrange(0, n - t).drop_last() =~= p@.subrange(0, n - t - 1));
        t = t + 1;
    }
    assert(trailing_digits(p@.subrange(0, n - t)) == 0) by {
        if t < n {
            assert(p@.subrange(0, n - t).last() == p@[n - 1 - t]);
        }
    }
    if t == 0 || t == n || p[n - 1 - t] != 46u8 {
        return None;
    }
    let d = n - 1 - t;
    let ghost digits = p@.subrange(d + 1, n as int);
    let mut v: u64 = 0;
    let mut j: usize = d + 1;
    while j < n
        invariant
            n == p@.len(),
            d + 1 <= j <= n,
            d == n - 1 - t,
            trailing_digits(p@) == t,
            digits == p@.subrange(d + 1, n as int),
            v == decimal(p@.subrange(d + 1, j as int)),
        decreases n - j,
    {
        proof {
            lemma_trailing_digits_are_digits(p@, j as int);
        }
        let digit = (p[j] - 48) as u64;
        assert(p@.subrange(d + 1, j + 1).drop_last() =~= p@.subrange(d + 1, j as int));
        assert(decimal(p@.subrange(d + 1, j + 1)) == v * 10 + digit) by {
            assert(p@.subrange(d + 1, j + 1).last() == p@[j as int]);
        }
        if v > (u64::MAX - digit) / 10 {
            assert(v * 10 + digit > u64::MAX) by (nonlinear_arith)
                requires
                    v > (u64::MAX - digit) / 10,
                    digit <= 9,
            ;
            proof {
                assert(digits.subrange(0, j - d) =~= p@.subrange(d + 1, j + 1));
                lemma_decimal_prefix(digits, j - d);
            }
            return None;
        }
        v = v * 10 + digit;
        j = j + 1;
    }
    let mut label: Vec<u8> = Vec::new();
    let mut i: usize = 0;
    while i < d
        invariant
            d < n == p@.len(),
            i <= d,
            label@ == p@.subrange(0, i as int),
        decreases d - i,
    {
        label.push(p[i]);
        i = i + 1;
        assert(label@ =~= p@.subrange(0, i as int));
    }
    Some(Some(Prerelease { label, counter: v }))
}

/// Every byte of the trailing digit run is a digit.
proof fn lemma_trailing_digits_are_digits(s: Seq<u8>, i: int)
    requires
        0 <= i < s.len(),
        s.len() - trailing_digits(s) <= i,
    ensures
        is_digit(s[i]),
    decreases s.len(),
{
    if i == s.len() - 1 {
        assert(trailing_digits(s) > 0);
    } else {
        assert(trailing_digits(s) > 0);
        assert(s.drop_last()[i] == s[i]);
        lemma_trailing_digits_are_digits(s.drop_last(), i);
    }
}

/// The version that `tag` stands for once `prefix` is stripped from it.
/// A tag that semver cannot read, or whose prerelease is not of the form
/// `<label>.<counter>`, ranks as the zero version instead of failing.
pub fn parse_version(tag: &str, prefix: &str) -> (v: Version)
    ensures
        v@ == parsed_version(tag.spec_bytes(), prefix.spec_bytes()),
{
    let zero = Version { major: 0, minor: 0, patch: 0, pre: None };
    let tb = tag.as_bytes();
    let pb = prefix.as_bytes();
    let plen = pb.len();
    if plen > tb.len() {
        return zero;
    }
    let mut i: usize = 0;
    while i < plen
        invariant
            zero@ == zero_version(),
            tb@ == tag.spec_bytes(),
            pb@ == prefix.spec_bytes(),
            plen == pb@.len() <= tb@.len(),
            i <= plen,
            forall|k: int| 0 <= k < i ==> tb@[k] == pb@[k],
        decreases plen - i,
    {
        if tb[i] != pb[i] {
            assert(tb@.subrange(0, plen as int)[i as int] != pb@[i as int]);
            return zero;
        }
        i = i + 1;
    }
    assert(tb@.subrange(0, plen as int) =~= pb@);
    if !tag.is_char_boundary(plen) {
        return zero;
    }
    let (_, rest) = tag.split_at(plen);
    match semver_parse(rest) {
        None => zero,
        Some(fields) => {
            let (major, minor, patch, pre) = fields;
            match read_prerelease(pre.as_str().as_bytes()) {
                None => zero,
                Some(p) => Version { major, minor, patch, pre: p },
            }
        },
    }
}

} // verus!
