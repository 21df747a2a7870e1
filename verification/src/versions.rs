//! Choosing the latest version of a registered artifact, by semantic
//! version precedence.

use vstd::prelude::*;
use crate::text::texts;

verus! {

/// How two version texts order as semantic versions (`semver`): -1, 0 or
/// 1.  A text that is no semantic version orders before every version.
pub uninterp spec fn version_order(a: Seq<char>, b: Seq<char>) -> i8;

/// Calls `semver::Version::parse` on both texts and compares the outcomes
/// (`None` for a text that does not parse) with `Option`'s `cmp`.  The
/// claim: the answer, -1, 0 or 1 for less, equal or greater, is
/// `version_order` of the two texts; semantic version precedence itself is
/// not stated here.
#[verifier::external_body]
fn compare_versions(a: &str, b: &str) -> (r: i8)
    ensures
        r == version_order(a@, b@),
        -1 <= r <= 1,
{
    match semver::Version::parse(a).ok().cmp(&semver::Version::parse(b).ok()) {
        std::cmp::Ordering::Less => -1,
        std::cmp::Ordering::Equal => 0,
        std::cmp::Ordering::Greater => 1,
    }
}

/// The latest of a list of versions: what sorting the list by version,
/// stably, and taking the last entry gives, so that of versions that order
/// equal the one listed last is taken.
pub open spec fn latest_among(vs: Seq<Seq<char>>) -> Option<int>
    decreases vs.len(),
{
    if vs.len() == 0 {
        None
    } else {
        match latest_among(vs.drop_last()) {
            None => Some(vs.len() - 1),
            Some(b) => if version_order(vs.last(), vs[b]) >= 0 {
                Some(vs.len() - 1)
            } else {
                Some(b)
            },
        }
    }
}

/// The index of the latest of the versions, `None` for none.
pub fn latest_version_index(versions: &Vec<String>) -> (r: Option<usize>)
    ensures
        match r {
            Some(i) => latest_among(texts(versions@)) == Some(i as int) && i < versions@.len(),
            None => latest_among(texts(versions@)) is None,
        },
{
    let ghost vs = texts(versions@);
    let mut best: Option<usize> = None;
    let n = versions.len();
    let mut i: usize = 0;
    assert(vs.take(0) =~= Seq::<Seq<char>>::empty());
    while i < n
        invariant
            n == versions@.len(),
            vs == texts(versions@),
            i <= n,
            match best {
                Some(b) => latest_among(vs.take(i as int)) == Some(b as int) && b < i,
                None => latest_among(vs.take(i as int)) is None,
            },
        decreases n - i,
    {
        proof {
            assert(vs.take(i + 1).drop_last() =~= vs.take(i as int));
            assert(vs.take(i + 1).last() == versions@[i as int]@);
        }
        match best {
            None => {
                best = Some(i);
            },
            Some(b) => {
                assert(vs.take(i + 1)[b as int] == versions@[b as int]@);
                if compare_versions(versions[i].as_str(), versions[b].as_str()) >= 0 {
                    best = Some(i);
                }
            },
        }
        i = i + 1;
    }
    assert(vs.take(n as int) =~= vs);
    best
}


/// `version_order` orders the texts of `vs` as semantic version precedence
/// does: each pair is ordered one way and the other the opposite way, and
/// "not after" is transitive.
pub open spec fn ordered_consistently(vs: Seq<Seq<char>>) -> bool {
    &&& forall|a: int, b: int|
        0 <= a < vs.len() && 0 <= b < vs.len() ==> -1 <= #[trigger] version_order(vs[a], vs[b]) <= 1
            && version_order(vs[b], vs[a]) == -version_order(vs[a], vs[b])
    &&& forall|a: int, b: int, c: int|
        0 <= a < vs.len() && 0 <= b < vs.len() && 0 <= c < vs.len() && #[trigger] version_order(vs[a], vs[b]) <= 0
            && #[trigger] version_order(vs[b], vs[c]) <= 0 ==> version_order(vs[a], vs[c]) <= 0
}

/// The latest version is a greatest one: no listed version orders after
/// it, and every version listed after it orders strictly before it.  A
/// non-empty list has a latest version.
pub proof fn lemma_latest_is_greatest(vs: Seq<Seq<char>>)
    requires
        ordered_consistently(vs),
    ensures
        vs.len() > 0 ==> latest_among(vs) is Some,
        latest_among(vs) matches Some(i) ==> {
            &&& 0 <= i < vs.len()
            &&& forall|j: int| 0 <= j < vs.len() ==> version_order(#[trigger] vs[j], vs[i]) <= 0
            &&& forall|j: int| i < j < vs.len() ==> version_order(#[trigger] vs[j], vs[i]) < 0
        },
    decreases vs.len(),
{
    if vs.len() > 0 {
        let init = vs.drop_last();
        let n = vs.len() - 1;
        assert forall|a: int, b: int, c: int|
            0 <= a < init.len() && 0 <= b < init.len() && 0 <= c < init.len() && #[trigger] version_order(init[a], init[b]) <= 0
                && #[trigger] version_order(init[b], init[c]) <= 0 implies version_order(init[a], init[c]) <= 0 by {
            assert(init[a] == vs[a] && init[b] == vs[b] && init[c] == vs[c]);
        }
        assert forall|a: int, b: int| 0 <= a < init.len() && 0 <= b < init.len() implies -1 <= #[trigger] version_order(init[a], init[b]) <= 1
            && version_order(init[b], init[a]) == -version_order(init[a], init[b]) by {
            assert(init[a] == vs[a] && init[b] == vs[b]);
        }
        lemma_latest_is_greatest(init);
        assert(vs.last() == vs[n]);
        match latest_among(init) {
            None => {
                assert(init.len() == 0);
                assert(latest_among(vs) == Some(n));
                assert(version_order(vs[n], vs[n]) == -version_order(vs[n], vs[n]));
            },
            Some(b) => {
                assert(init[b] == vs[b]);
                assert forall|j: int| 0 <= j < n implies #[trigger] version_order(init[j], init[b]) <= 0 by {}
                if version_order(vs[n], vs[b]) >= 0 {
                    assert(latest_among(vs) == Some(n));
                    assert(version_order(vs[b], vs[n]) <= 0);
                    assert forall|j: int| 0 <= j < vs.len() implies version_order(#[trigger] vs[j], vs[n]) <= 0 by {
                        if j < n {
                            assert(init[j] == vs[j]);
                            assert(version_order(vs[j], vs[b]) <= 0);
                        } else {
                            assert(version_order(vs[n], vs[n]) == -version_order(vs[n], vs[n]));
                        }
                    }
                } else {
                    assert(latest_among(vs) == Some(b));
                    assert forall|j: int| 0 <= j < vs.len() implies version_order(#[trigger] vs[j], vs[b]) <= 0 by {
                        if j < n {
                            assert(init[j] == vs[j]);
                            assert(version_order(init[j], init[b]) <= 0);
                        }
                    }
                    assert forall|j: int| b < j < vs.len() implies version_order(#[trigger] vs[j], vs[b]) < 0 by {
                        if j < n {
                            assert(init[j] == vs[j]);
                            assert(version_order(init[j], init[b]) < 0);
                        }
                    }
                }
            },
        }
    }
}

} // verus!
