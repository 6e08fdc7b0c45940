//! The tag grammar: `<prefix><n>.<n>.<n>` for releases and
//! `<prefix><n>.<n>.<n>-<suffix>.<n>` for prereleases, where each `<n>` is
//! one or more decimal digits and prefix and suffix are literal text.
use vstd::prelude::*;
use vstd::string::StringSliceAdditionalSpecFns;
use vstd::utf8::encode_utf8;
use crate::version::is_digit;

verus! {

/// Length of the run of decimal digits that starts at `i` in `s`.
pub open spec fn digit_run(s: Seq<u8>, i: int) -> nat
    decreases s.len() - i,
{
    if 0 <= i < s.len() && is_digit(s[i]) {
        1 + digit_run(s, i + 1)
    } else {
        0
    }
}

/// Where `<n>.<n>.<n>` that starts at `i` in `s` ends, if it is there.
pub open spec fn triple_end(s: Seq<u8>, i: int) -> Option<int> {
    let a = i + digit_run(s, i);
    let b = a + 1 + digit_run(s, a + 1);
    let c = b + 1 + digit_run(s, b + 1);
    if a > i && a < s.len() && s[a] == 46u8 && b > a + 1 && b < s.len() && s[b] == 46u8 && c
        > b + 1 {
        Some(c)
    } else {
        None
    }
}

/// `s` from position `i` on is `<n>.<n>.<n>`, or, in prerelease mode,
/// `<n>.<n>.<n>-<suffix>.<n>`, and nothing more.
pub open spec fn version_text_matches(s: Seq<u8>, i: int, suffix: Seq<u8>, prerelease: bool) -> bool {
    match triple_end(s, i) {
        None => false,
        Some(e) => if !prerelease {
            e == s.len()
        } else {
            let m = e + 1 + suffix.len();
            &&& e < s.len()
            &&& s[e] == 45u8
            &&& m < s.len()
            &&& s.subrange(e + 1, m) == suffix
            &&& s[m] == 46u8
            &&& digit_run(s, m + 1) > 0
            &&& m + 1 + digit_run(s, m + 1) == s.len()
        },
    }
}

/// `tag` is `prefix` followed by version text of the selected mode.
pub open spec fn tag_matches(tag: Seq<u8>, prefix: Seq<u8>, suffix: Seq<u8>, prerelease: bool) -> bool {
    &&& prefix.len() <= tag.len()
    &&& tag.subrange(0, prefix.len() as int) == prefix
    &&& version_text_matches(tag, prefix.len() as int, suffix, prerelease)
}

/// The rule that a candidate tag must satisfy to be considered.
#[derive(Debug, Clone)]
pub struct TagPattern {
    pub tag_prefix: String,
    pub prerelease_suffix: String,
    pub prerelease: bool,
}

impl TagPattern {
    pub open spec fn accepts(&self, tag: Seq<u8>) -> bool {
        tag_matches(
            tag,
            encode_utf8(self.tag_prefix@),
            encode_utf8(self.prerelease_suffix@),
            self.prerelease,
        )
    }

    /// Tells whether `tag` satisfies the pattern.
    pub fn is_match(&self, tag: &str) -> (r: bool)
        ensures
            r == self.accepts(tag.spec_bytes()),
    {
        let t = tag.as_bytes();
        let p = self.tag_prefix.as_str().as_bytes();
        let x = self.prerelease_suffix.as_str().as_bytes();
        if p.len() > t.len() || !bytes_equal_at(t, 0, p) {
            return false;
        }
        text_matches(t, p.len(), x, self.prerelease)
    }
}

/// Builds the pattern for the given mode, prefix and prerelease suffix.
pub fn get_tag_pattern(prerelease: bool, tag_prefix: &str, prerelease_suffix: &str) -> (r:
    TagPattern)
    ensures
        r.tag_prefix@ == tag_prefix@,
        r.prerelease_suffix@ == prerelease_suffix@,
        r.prerelease == prerelease,
{
    TagPattern {
        tag_prefix: tag_prefix.to_owned(),
        prerelease_suffix: prerelease_suffix.to_owned(),
        prerelease,
    }
}

/// Length of the digit run that starts at `i`.
fn run_length(s: &[u8], i: usize) -> (r: usize)
    requires
        i <= s@.len(),
    ensures
        r == digit_run(s@, i as int),
        i + r <= s@.len(),
{
    let mut j = i;
    while j < s.len() && 48 <= s[j] && s[j] <= 57
        invariant
            i <= j <= s@.len(),
            digit_run(s@, i as int) == (j - i) + digit_run(s@, j as int),
        decreases s@.len() - j,
    {
        j = j + 1;
    }
    j - i
}

/// `s` holds `w` at position `i`.
fn bytes_equal_at(s: &[u8], i: usize, w: &[u8]) -> (r: bool)
    requires
        i + w@.len() <= s@.len(),
    ensures
        r == (s@.subrange(i as int, i + w@.len()) == w@),
{
    let n = s.len();
    let mut k: usize = 0;
    while k < w.len()
        invariant
            n == s@.len(),
            i + w@.len() <= s@.len(),
            k <= w@.len(),
            forall|q: int| 0 <= q < k ==> s@[i + q] == w@[q],
        decreases w@.len() - k,
    {
        if s[i + k] != w[k] {
            assert(s@.subrange(i as int, i + w@.len())[k as int] != w@[k as int]);
            return false;
        }
        k = k + 1;
    }
    assert(s@.subrange(i as int, i + w@.len()) =~= w@);
    true
}

/// Where `<n>.<n>.<n>` starting at `i` ends, as `triple_end` says.
fn find_triple_end(s: &[u8], i: usize) -> (r: Option<usize>)
    requires
        i <= s@.len(),
    ensures
        match r {
            Some(e) => triple_end(s@, i as int) == Some(e as int) && e <= s@.len(),
            None => triple_end(s@, i as int) is None,
        },
{
    let n = s.len();
    let a = i + run_length(s, i);
    if a == i || a >= s.len() || s[a] != 46u8 {
        return None;
    }
    let b = a + 1 + run_length(s, a + 1);
    if b == a + 1 || b >= s.len() || s[b] != 46u8 {
        return None;
    }
    let c = b + 1 + run_length(s, b + 1);
    if c == b + 1 {
        return None;
    }
    Some(c)
}

/// `s` from `i` on is version text of the selected mode.
fn text_matches(s: &[u8], i: usize, suffix: &[u8], prerelease: bool) -> (r: bool)
    requires
        i <= s@.len(),
    ensures
        r == version_text_matches(s@, i as int, suffix@, prerelease),
{
    match find_triple_end(s, i) {
        None => false,
        Some(e) => {
            if !prerelease {
                e == s.len()
            } else {
                if e >= s.len() || s[e] != 45u8 || suffix.len() >= s.len() - e - 1 {
                    return false;
                }
                let m = e + 1 + suffix.len();
                if !bytes_equal_at(s, e + 1, suffix) || s[m] != 46u8 {
                    return false;
                }
                let d = run_length(s, m + 1);
                d > 0 && m + 1 + d == s.len()
            }
        },
    }
}

/// The shell glob that narrows the candidates in glob mode: `<prefix>*`, or
/// `<prefix>*<suffix>*` in prerelease mode.
pub fn glob_pattern(prerelease: bool, tag_prefix: &str, prerelease_suffix: &str) -> (r: Vec<u8>)
    ensures
        r@ == if prerelease {
            tag_prefix.spec_bytes() + seq![42u8] + prerelease_suffix.spec_bytes() + seq![42u8]
        } else {
            tag_prefix.spec_bytes() + seq![42u8]
        },
{
    let mut r: Vec<u8> = Vec::new();
    append_bytes(&mut r, tag_prefix.as_bytes());
    r.push(42u8);
    if prerelease {
        append_bytes(&mut r, prerelease_suffix.as_bytes());
        r.push(42u8);
    }
    r
}

fn append_bytes(out: &mut Vec<u8>, b: &[u8])
    ensures
        final(out)@ == old(out)@ + b@,
{
    let mut k: usize = 0;
    while k < b.len()
        invariant
            k <= b@.len(),
            out@ == old(out)@ + b@.subrange(0, k as int),
        decreases b@.len() - k,
    {
        out.push(b[k]);
        k = k + 1;
        assert(out@ =~= old(out)@ + b@.subrange(0, k as int));
    }
    assert(b@.subrange(0, k as int) =~= b@);
}

} // verus!
