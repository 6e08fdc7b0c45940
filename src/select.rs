//! Selection of the latest tag among the candidates.
use vstd::prelude::*;
use vstd::string::StringSliceAdditionalSpecFns;
use vstd::utf8::encode_utf8;
use crate::pattern::{get_tag_pattern, tag_matches, TagPattern};
use crate::version::{
    lemma_version_le_total, lemma_version_le_transitive,
    parse_version, parsed_version, version_le, Version, VersionModel,
};

verus! {

/// Why no tag could be selected.
#[derive(Debug, Clone)]
pub enum TagError {
    /// No candidate satisfied the pattern; it is carried for the diagnostic.
    NoMatchingTag(TagPattern),
}

/// Among the first `n` versions, the position of the greatest admitted one;
/// of equal greatest versions the last one is taken. `None` where none of
/// them is admitted.
pub open spec fn latest_index(versions: Seq<VersionModel>, admitted: Seq<bool>, n: int) -> Option<
    int,
>
    decreases n,
{
    if n <= 0 {
        None
    } else {
        let prev = latest_index(versions, admitted, n - 1);
        if !admitted[n - 1] {
            prev
        } else {
            match prev {
                None => Some(n - 1),
                Some(b) => if version_le(versions[b], versions[n - 1]) {
                    Some(n - 1)
                } else {
                    Some(b)
                },
            }
        }
    }
}

/// The position that `latest_index` picks is admitted, no admitted version
/// takes precedence over its own, and every admitted one after it is lower.
pub proof fn lemma_latest_index(versions: Seq<VersionModel>, admitted: Seq<bool>, n: int)
    requires
        0 <= n <= versions.len(),
        n <= admitted.len(),
    ensures
        match latest_index(versions, admitted, n) {
            Some(b) => {
                &&& 0 <= b < n
                &&& admitted[b]
                &&& forall|j: int| 0 <= j < n && admitted[j] ==> version_le(versions[j], versions[b])
                &&& forall|j: int|
                    b < j < n && admitted[j] ==> !version_le(versions[b], versions[j])
            },
            None => forall|j: int| 0 <= j < n ==> !admitted[j],
        },
    decreases n,
{
    if n > 0 {
        lemma_latest_index(versions, admitted, n - 1);
        let last = versions[n - 1];
        if admitted[n - 1] {
            match latest_index(versions, admitted, n - 1) {
                None => {},
                Some(b) => {
                    if version_le(versions[b], last) {
                        assert forall|j: int| 0 <= j < n && admitted[j] implies version_le(
                            versions[j],
                            last,
                        ) by {
                            if j < n - 1 {
                                lemma_version_le_transitive(versions[j], versions[b], last);
                            }
                        }
                    } else {
                        lemma_version_le_total(versions[b], last);
                    }
                },
            }
        }
    }
}

/// The rank of each candidate.
pub open spec fn versions_of(tags: Seq<&str>, prefix: Seq<u8>) -> Seq<VersionModel> {
    tags.map_values(|t: &str| parsed_version(t.spec_bytes(), prefix))
}

/// Which candidates satisfy the tag grammar.
pub open spec fn matching(tags: Seq<&str>, prefix: Seq<u8>, suffix: Seq<u8>, prerelease: bool) -> Seq<
    bool,
> {
    tags.map_values(|t: &str| tag_matches(t.spec_bytes(), prefix, suffix, prerelease))
}

/// Every candidate: the glob already filtered them.
pub open spec fn all_admitted(n: nat) -> Seq<bool> {
    Seq::new(n, |i: int| true)
}

/// The position of the tag that pattern mode selects.
pub open spec fn selected(tags: Seq<&str>, prefix: Seq<u8>, suffix: Seq<u8>, prerelease: bool) -> Option<
    int,
> {
    latest_index(versions_of(tags, prefix), matching(tags, prefix, suffix, prerelease), tags.len() as int)
}

/// The position of the tag that glob mode selects.
pub open spec fn selected_prefiltered(tags: Seq<&str>, prefix: Seq<u8>) -> Option<int> {
    latest_index(versions_of(tags, prefix), all_admitted(tags.len()), tags.len() as int)
}

/// `r` is what a selection whose chosen position is `pick` returns: that tag,
/// or, where there is none, the error that carries the configuration.
pub open spec fn outcome(
    r: Result<String, TagError>,
    pick: Option<int>,
    tags: Seq<&str>,
    prefix: Seq<char>,
    suffix: Seq<char>,
    prerelease: bool,
) -> bool {
    match pick {
        Some(i) => r is Ok && r->Ok_0@ == tags[i]@,
        None => match r {
            Ok(_) => false,
            Err(TagError::NoMatchingTag(p)) => p.tag_prefix@ == prefix && p.prerelease_suffix@
                == suffix && p.prerelease == prerelease,
        },
    }
}

/// The latest tag, in pattern mode: among the tags that satisfy the grammar
/// for `prerelease` (prefix and suffix taken literally), the one whose
/// version takes precedence, the last of equals. Fails with
/// `NoMatchingTag` where no tag satisfies the grammar.
pub fn get_latest_tag(
    tags: Vec<&str>,
    tag_prefix: &str,
    prerelease_suffix: &str,
    prerelease: bool,
) -> (r: Result<String, TagError>)
    ensures
        outcome(
            r,
            selected(tags@, tag_prefix.spec_bytes(), prerelease_suffix.spec_bytes(), prerelease),
            tags@,
            tag_prefix@,
            prerelease_suffix@,
            prerelease,
        ),
{
    let pattern = get_tag_pattern(prerelease, tag_prefix, prerelease_suffix);
    let ghost admitted = matching(tags@, tag_prefix.spec_bytes(), prerelease_suffix.spec_bytes(), prerelease);
    let found = latest_position(&tags, tag_prefix, &pattern, true, Ghost(admitted));
    proof {
        lemma_latest_index(versions_of(tags@, tag_prefix.spec_bytes()), admitted, tags@.len() as int);
    }
    match found {
        Some(i) => Ok(tags[i].to_owned()),
        None => Err(TagError::NoMatchingTag(pattern)),
    }
}

/// The latest tag, in glob mode: the candidates were already narrowed by
/// the glob and are only ranked. Fails with `NoMatchingTag` where there is
/// no candidate.
pub fn get_latest_prefiltered(
    tags: Vec<&str>,
    tag_prefix: &str,
    prerelease_suffix: &str,
    prerelease: bool,
) -> (r: Result<String, TagError>)
    ensures
        outcome(
            r,
            selected_prefiltered(tags@, tag_prefix.spec_bytes()),
            tags@,
            tag_prefix@,
            prerelease_suffix@,
            prerelease,
        ),
{
    let pattern = get_tag_pattern(prerelease, tag_prefix, prerelease_suffix);
    let ghost admitted = all_admitted(tags@.len());
    let found = latest_position(&tags, tag_prefix, &pattern, false, Ghost(admitted));
    proof {
        lemma_latest_index(versions_of(tags@, tag_prefix.spec_bytes()), admitted, tags@.len() as int);
    }
    match found {
        Some(i) => Ok(tags[i].to_owned()),
        None => Err(TagError::NoMatchingTag(pattern)),
    }
}

/// The position of the latest admitted tag; with `strict` a tag is admitted
/// where it satisfies `pattern`, otherwise every tag is.
fn latest_position(
    tags: &Vec<&str>,
    tag_prefix: &str,
    pattern: &TagPattern,
    strict: bool,
    admitted: Ghost<Seq<bool>>,
) -> (r: Option<usize>)
    requires
        admitted@.len() == tags@.len(),
        forall|i: int|
            0 <= i < tags@.len() ==> admitted@[i] == (!strict || pattern.accepts(
                tags@[i].spec_bytes(),
            )),
    ensures
        match r {
            Some(i) => latest_index(versions_of(tags@, tag_prefix.spec_bytes()), admitted@, tags@.len() as int) == Some(i as int),
            None => latest_index(versions_of(tags@, tag_prefix.spec_bytes()), admitted@, tags@.len() as int) is None,
        },
{
    let ghost versions = versions_of(tags@, tag_prefix.spec_bytes());
    let mut best: Option<(usize, Version)> = None;
    let mut i: usize = 0;
    while i < tags.len()
        invariant
            i <= tags@.len(),
            versions == versions_of(tags@, tag_prefix.spec_bytes()),
            admitted@.len() == tags@.len(),
            forall|k: int|
                0 <= k < tags@.len() ==> admitted@[k] == (!strict || pattern.accepts(
                    tags@[k].spec_bytes(),
                )),
            match best {
                Some((b, v)) => latest_index(versions, admitted@, i as int) == Some(b as int)
                    && v@ == versions[b as int],
                None => latest_index(versions, admitted@, i as int) is None,
            },
        decreases tags@.len() - i,
    {
        let tag = tags[i];
        if !strict || pattern.is_match(tag) {
            let v = parse_version(tag, tag_prefix);
            match best {
                None => {
                    best = Some((i, v));
                },
                Some((b, bv)) => {
                    if bv.precedes_or_equals(&v) {
                        best = Some((i, v));
                    } else {
                        best = Some((b, bv));
                    }
                },
            }
        }
        i = i + 1;
    }
    match best {
        Some((b, _)) => Some(b),
        None => None,
    }
}


/// The tag that pattern mode selects satisfies the grammar, and no tag that
/// satisfies it has a version that takes precedence over the selected one's;
/// every matching tag after it has a strictly lower version.
pub proof fn law_selected_is_greatest(
    tags: Seq<&str>,
    prefix: Seq<u8>,
    suffix: Seq<u8>,
    prerelease: bool,
)
    ensures
        selected(tags, prefix, suffix, prerelease) matches Some(i) ==> {
            &&& 0 <= i < tags.len()
            &&& tag_matches(tags[i].spec_bytes(), prefix, suffix, prerelease)
            &&& forall|j: int|
                0 <= j < tags.len() && tag_matches(tags[j].spec_bytes(), prefix, suffix, prerelease)
                    ==> version_le(
                    parsed_version(tags[j].spec_bytes(), prefix),
                    parsed_version(tags[i].spec_bytes(), prefix),
                )
            &&& forall|j: int|
                i < j < tags.len() && tag_matches(tags[j].spec_bytes(), prefix, suffix, prerelease)
                    ==> !version_le(
                    parsed_version(tags[i].spec_bytes(), prefix),
                    parsed_version(tags[j].spec_bytes(), prefix),
                )
        },
{
    let versions = versions_of(tags, prefix);
    let admitted = matching(tags, prefix, suffix, prerelease);
    lemma_latest_index(versions, admitted, tags.len() as int);
    if let Some(i) = selected(tags, prefix, suffix, prerelease) {
        assert(admitted[i]);
        assert forall|j: int|
            0 <= j < tags.len() && tag_matches(
                tags[j].spec_bytes(),
                prefix,
                suffix,
                prerelease,
            ) implies version_le(
            parsed_version(tags[j].spec_bytes(), prefix),
            parsed_version(tags[i].spec_bytes(), prefix),
        ) by {
            assert(admitted[j]);
            assert(versions[j] == parsed_version(tags[j].spec_bytes(), prefix));
            assert(versions[i] == parsed_version(tags[i].spec_bytes(), prefix));
        }
        assert forall|j: int|
            i < j < tags.len() && tag_matches(
                tags[j].spec_bytes(),
                prefix,
                suffix,
                prerelease,
            ) implies !version_le(
            parsed_version(tags[i].spec_bytes(), prefix),
            parsed_version(tags[j].spec_bytes(), prefix),
        ) by {
            assert(admitted[j]);
            assert(versions[j] == parsed_version(tags[j].spec_bytes(), prefix));
            assert(versions[i] == parsed_version(tags[i].spec_bytes(), prefix));
        }
    }
}

/// Pattern mode selects nothing, and so fails, exactly when no tag satisfies
/// the grammar; in particular on an empty list.
pub proof fn law_fails_iff_nothing_matches(
    tags: Seq<&str>,
    prefix: Seq<u8>,
    suffix: Seq<u8>,
    prerelease: bool,
)
    ensures
        selected(tags, prefix, suffix, prerelease) is None <==> forall|j: int|
            0 <= j < tags.len() ==> !tag_matches(tags[j].spec_bytes(), prefix, suffix, prerelease),
        tags.len() == 0 ==> selected(tags, prefix, suffix, prerelease) is None,
{
    lemma_latest_index(
        versions_of(tags, prefix),
        matching(tags, prefix, suffix, prerelease),
        tags.len() as int,
    );
    if selected(tags, prefix, suffix, prerelease) is None {
        assert forall|j: int| 0 <= j < tags.len() implies !tag_matches(
            tags[j].spec_bytes(),
            prefix,
            suffix,
            prerelease,
        ) by {
            assert(!matching(tags, prefix, suffix, prerelease)[j]);
        }
    }
}

/// A tag never satisfies both the release and the prerelease grammar.
pub proof fn lemma_release_excludes_prerelease(
    tag: Seq<u8>,
    prefix: Seq<u8>,
    suffix: Seq<u8>,
    other_suffix: Seq<u8>,
)
    requires
        tag_matches(tag, prefix, suffix, false),
    ensures
        !tag_matches(tag, prefix, other_suffix, true),
{
}

/// In release mode the selected tag is a release tag: it satisfies the
/// release grammar and no prerelease grammar, whatever the suffix, so a
/// prerelease tag is never selected even where its version is higher.
pub proof fn law_release_mode_never_selects_prerelease(
    tags: Seq<&str>,
    prefix: Seq<u8>,
    suffix: Seq<u8>,
    other_suffix: Seq<u8>,
)
    ensures
        selected(tags, prefix, suffix, false) matches Some(i) ==> {
            &&& tag_matches(tags[i].spec_bytes(), prefix, suffix, false)
            &&& !tag_matches(tags[i].spec_bytes(), prefix, other_suffix, true)
        },
{
    law_selected_is_greatest(tags, prefix, suffix, false);
    if let Some(i) = selected(tags, prefix, suffix, false) {
        lemma_release_excludes_prerelease(tags[i].spec_bytes(), prefix, suffix, other_suffix);
    }
}

/// In prerelease mode counters rank numerically: of two matching tags with
/// the same release triple and label, the one with the smaller counter is
/// never selected.
pub proof fn law_prerelease_counters_rank_numerically(
    tags: Seq<&str>,
    prefix: Seq<u8>,
    suffix: Seq<u8>,
    lo: int,
    hi: int,
)
    requires
        0 <= lo < tags.len(),
        0 <= hi < tags.len(),
        tag_matches(tags[lo].spec_bytes(), prefix, suffix, true),
        tag_matches(tags[hi].spec_bytes(), prefix, suffix, true),
        parsed_version(tags[lo].spec_bytes(), prefix).3 matches Some(p) && parsed_version(
            tags[hi].spec_bytes(),
            prefix,
        ).3 matches Some(q) && p.1 < q.1,
        parsed_version(tags[lo].spec_bytes(), prefix).0 == parsed_version(tags[hi].spec_bytes(), prefix).0,
        parsed_version(tags[lo].spec_bytes(), prefix).1 == parsed_version(tags[hi].spec_bytes(), prefix).1,
        parsed_version(tags[lo].spec_bytes(), prefix).2 == parsed_version(tags[hi].spec_bytes(), prefix).2,
    ensures
        selected(tags, prefix, suffix, true) != Some(lo),
{
    law_selected_is_greatest(tags, prefix, suffix, true);
}

/// Selection is a function of its inputs: two results that both meet the
/// contract of `get_latest_tag` on the same inputs agree.
pub proof fn law_selection_is_deterministic(
    r1: Result<String, TagError>,
    r2: Result<String, TagError>,
    tags: Seq<&str>,
    prefix: Seq<char>,
    suffix: Seq<char>,
    prerelease: bool,
)
    requires
        outcome(r1, selected(tags, encode_utf8(prefix), encode_utf8(suffix), prerelease), tags, prefix, suffix, prerelease),
        outcome(r2, selected(tags, encode_utf8(prefix), encode_utf8(suffix), prerelease), tags, prefix, suffix, prerelease),
    ensures
        r1 is Ok <==> r2 is Ok,
        r1 is Ok ==> r1->Ok_0@ == r2->Ok_0@,
        r1 matches Err(TagError::NoMatchingTag(p1)) ==> r2 matches Err(TagError::NoMatchingTag(p2))
            && p1.tag_prefix@ == p2.tag_prefix@ && p1.prerelease_suffix@ == p2.prerelease_suffix@
            && p1.prerelease == p2.prerelease,
{
}

} // verus!
