//! Asset selection does not depend on the order in which a release lists
//! its assets: ties are broken by name, not by position.

use vstd::prelude::*;
use crate::asset::{
    asset_candidates, asset_eligible, asset_score, is_ranking, is_top, lemma_candidate_indices, lemma_candidate_members,
    lemma_ranking_top, lemma_ranks_before_total, leads_clearly, named_selection_follows, ranks_before, selection_follows,
    ArchFamily, AssetCandidate, AssetSelection, FileTypePreference, OsFamily,
};
use crate::release::ReleaseError;
use crate::text::{chars_lt, lemma_chars_lt_irreflexive, lemma_chars_lt_total, lemma_chars_lt_transitive};
use vstd::relations::{sorted_by, total_ordering};
use vstd::seq_lib::lemma_sorted_unique;
use vstd::multiset::Multiset;

verus! {

/// `names2` lists the names of `names1` in another order: its position `j`
/// holds the name at position `perm[j]` of `names1`, and `perm` is a
/// one-to-one map onto the positions of `names1`.
pub open spec fn reorders(names1: Seq<Seq<char>>, names2: Seq<Seq<char>>, perm: Seq<int>) -> bool {
    &&& names2.len() == names1.len()
    &&& perm.len() == names1.len()
    &&& forall|j: int| 0 <= j < perm.len() ==> 0 <= #[trigger] perm[j] < names1.len() && names2[j] == names1[perm[j]]
    &&& forall|j: int, k: int| 0 <= j < perm.len() && 0 <= k < perm.len() && j != k ==> #[trigger] perm[j] != #[trigger] perm[k]
    &&& forall|i: int| 0 <= i < names1.len() ==> #[trigger] takes_value(perm, i)
}

/// Some position of `perm` holds `i`.
pub open spec fn takes_value(perm: Seq<int>, i: int) -> bool {
    exists|j: int| 0 <= j < perm.len() && #[trigger] perm[j] == i
}

/// What an asset scores as a candidate: its score when it passes the
/// filters, else nothing.
pub open spec fn candidate_score(
    name: Seq<char>,
    repo: Seq<char>,
    pattern: Option<Seq<char>>,
    os: OsFamily,
    arch: ArchFamily,
    file_type: FileTypePreference,
) -> int {
    if asset_eligible(name, pattern) {
        asset_score(name, repo, os, arch, file_type)
    } else {
        0
    }
}

/// `c` holds, in list order, one candidate for each name that `score`
/// rates above zero, with that score.
spec fn lists_candidates(c: Seq<AssetCandidate>, names: Seq<Seq<char>>, score: spec_fn(Seq<char>) -> int) -> bool {
    &&& forall|k: int| #![trigger c[k]] 0 <= k < c.len() ==> {
        &&& c[k].index < names.len()
        &&& c[k].score == score(names[c[k].index as int])
        &&& score(names[c[k].index as int]) > 0
    }
    &&& forall|j: int| 0 <= j < names.len() && score(names[j]) > 0 ==> #[trigger] has_candidate(c, j)
    &&& forall|i: int, j: int| 0 <= i < j < c.len() ==> c[i].index < c[j].index
}

/// Some candidate of `c` is for the asset at position `j`.
spec fn has_candidate(c: Seq<AssetCandidate>, j: int) -> bool {
    exists|k: int| 0 <= k < c.len() && c[k].index == j
}

/// The candidates of a list of names, described by `lists_candidates`.
proof fn lemma_lists_candidates(
    names: Seq<Seq<char>>,
    repo: Seq<char>,
    pattern: Option<Seq<char>>,
    os: OsFamily,
    arch: ArchFamily,
    file_type: FileTypePreference,
)
    requires
        names.len() <= usize::MAX,
    ensures
        lists_candidates(
            asset_candidates(names, repo, pattern, os, arch, file_type),
            names,
            |n: Seq<char>| candidate_score(n, repo, pattern, os, arch, file_type),
        ),
{
    let c = asset_candidates(names, repo, pattern, os, arch, file_type);
    lemma_candidate_members(names, repo, pattern, os, arch, file_type);
    lemma_candidate_indices(names, repo, pattern, os, arch, file_type);
    assert forall|j: int| 0 <= j < names.len() && candidate_score(names[j], repo, pattern, os, arch, file_type) > 0
        implies #[trigger] has_candidate(c, j) by {
        let k = choose|k: int| 0 <= k < c.len() && #[trigger] c[k].index == j;
    }
}

/// The position in `c1` of the counterpart of `c2[k2]`.
spec fn first_match(c1: Seq<AssetCandidate>, c2: Seq<AssetCandidate>, perm: Seq<int>, k2: int) -> int {
    choose|k1: int| 0 <= k1 < c1.len() && c1[k1].index == perm[c2[k2].index as int] && c1[k1].score == c2[k2].score
}

/// The position in `c2` of the counterpart of `c1[k1]`.
spec fn second_match(c1: Seq<AssetCandidate>, c2: Seq<AssetCandidate>, perm: Seq<int>, k1: int) -> int {
    choose|k2: int| 0 <= k2 < c2.len() && perm[c2[k2].index as int] == c1[k1].index && c1[k1].score == c2[k2].score
}

/// Each candidate of the reordered list has a counterpart in the first
/// one, for the same asset and with the same score, and the other way round.
proof fn lemma_counterparts(
    names1: Seq<Seq<char>>,
    names2: Seq<Seq<char>>,
    perm: Seq<int>,
    c1: Seq<AssetCandidate>,
    c2: Seq<AssetCandidate>,
    score: spec_fn(Seq<char>) -> int,
)
    requires
        reorders(names1, names2, perm),
        lists_candidates(c1, names1, score),
        lists_candidates(c2, names2, score),
    ensures
        forall|k2: int| 0 <= k2 < c2.len() ==> {
            &&& 0 <= #[trigger] first_match(c1, c2, perm, k2) < c1.len()
            &&& c1[first_match(c1, c2, perm, k2)].index == perm[c2[k2].index as int]
            &&& c1[first_match(c1, c2, perm, k2)].score == c2[k2].score
        },
        forall|k1: int| 0 <= k1 < c1.len() ==> {
            &&& 0 <= #[trigger] second_match(c1, c2, perm, k1) < c2.len()
            &&& perm[c2[second_match(c1, c2, perm, k1)].index as int] == c1[k1].index
            &&& c1[k1].score == c2[second_match(c1, c2, perm, k1)].score
        },
{
    assert forall|k2: int| 0 <= k2 < c2.len() implies {
        &&& 0 <= #[trigger] first_match(c1, c2, perm, k2) < c1.len()
        &&& c1[first_match(c1, c2, perm, k2)].index == perm[c2[k2].index as int]
        &&& c1[first_match(c1, c2, perm, k2)].score == c2[k2].score
    } by {
        let j = c2[k2].index as int;
        let i = perm[j];
        assert(names2[j] == names1[i]);
        assert(score(names1[i]) > 0);
        assert(has_candidate(c1, i));
        let k1 = choose|k1: int| 0 <= k1 < c1.len() && c1[k1].index == i;
        assert(c1[k1].score == c2[k2].score);
    }
    assert forall|k1: int| 0 <= k1 < c1.len() implies {
        &&& 0 <= #[trigger] second_match(c1, c2, perm, k1) < c2.len()
        &&& perm[c2[second_match(c1, c2, perm, k1)].index as int] == c1[k1].index
        &&& c1[k1].score == c2[second_match(c1, c2, perm, k1)].score
    } by {
        let i = c1[k1].index as int;
        assert(takes_value(perm, i));
        let j = choose|j: int| 0 <= j < perm.len() && #[trigger] perm[j] == i;
        assert(names2[j] == names1[i]);
        assert(score(names2[j]) > 0);
        assert(has_candidate(c2, j));
        let k2 = choose|k2: int| 0 <= k2 < c2.len() && c2[k2].index == j;
        assert(c1[k1].score == c2[k2].score);
    }
}

/// Reordering the assets keeps the number of candidates at zero, at one,
/// or above one; the top candidates of the two lists are for the same name
/// with the same score; and one leads clearly exactly when the other does.
pub proof fn lemma_reordered_candidates(
    names1: Seq<Seq<char>>,
    names2: Seq<Seq<char>>,
    perm: Seq<int>,
    repo: Seq<char>,
    pattern: Option<Seq<char>>,
    os: OsFamily,
    arch: ArchFamily,
    file_type: FileTypePreference,
)
    requires
        names1.len() <= usize::MAX,
        reorders(names1, names2, perm),
    ensures
        ({
            let c1 = asset_candidates(names1, repo, pattern, os, arch, file_type);
            let c2 = asset_candidates(names2, repo, pattern, os, arch, file_type);
            &&& (c1.len() == 0) == (c2.len() == 0)
            &&& (c1.len() == 1) == (c2.len() == 1)
            &&& forall|k1: int, k2: int| #[trigger] is_top(c1, k1, names1) && #[trigger] is_top(c2, k2, names2) ==> {
                &&& names1[c1[k1].index as int] == names2[c2[k2].index as int]
                &&& c1[k1].score == c2[k2].score
                &&& leads_clearly(c1, k1) == leads_clearly(c2, k2)
            }
        }),
{
    let c1 = asset_candidates(names1, repo, pattern, os, arch, file_type);
    let c2 = asset_candidates(names2, repo, pattern, os, arch, file_type);
    let score = |n: Seq<char>| candidate_score(n, repo, pattern, os, arch, file_type);
    lemma_lists_candidates(names1, repo, pattern, os, arch, file_type);
    lemma_lists_candidates(names2, repo, pattern, os, arch, file_type);
    lemma_counterparts(names1, names2, perm, c1, c2, score);
    if c1.len() > 0 {
        assert(0 <= second_match(c1, c2, perm, 0) < c2.len());
    }
    if c2.len() > 0 {
        assert(0 <= first_match(c1, c2, perm, 0) < c1.len());
    }
    if c1.len() >= 2 {
        assert(c1[0].index != c1[1].index);
        assert(second_match(c1, c2, perm, 0) != second_match(c1, c2, perm, 1));
    }
    if c2.len() >= 2 {
        assert(c2[0].index != c2[1].index);
        assert(perm[c2[0].index as int] != perm[c2[1].index as int]);
        assert(first_match(c1, c2, perm, 0) != first_match(c1, c2, perm, 1));
    }
    assert forall|k1: int, k2: int| #[trigger] is_top(c1, k1, names1) && #[trigger] is_top(c2, k2, names2) implies {
        &&& names1[c1[k1].index as int] == names2[c2[k2].index as int]
        &&& c1[k1].score == c2[k2].score
        &&& leads_clearly(c1, k1) == leads_clearly(c2, k2)
    } by {
        lemma_tops_agree(names1, names2, perm, c1, c2, score, k1, k2);
    }
}

/// The tops of the two candidate lists are for the
/// same name with the same score, and lead clearly together.
proof fn lemma_tops_agree(
    names1: Seq<Seq<char>>,
    names2: Seq<Seq<char>>,
    perm: Seq<int>,
    c1: Seq<AssetCandidate>,
    c2: Seq<AssetCandidate>,
    score: spec_fn(Seq<char>) -> int,
    k1: int,
    k2: int,
)
    requires
        reorders(names1, names2, perm),
        lists_candidates(c1, names1, score),
        lists_candidates(c2, names2, score),
        is_top(c1, k1, names1),
        is_top(c2, k2, names2),
    ensures
        names1[c1[k1].index as int] == names2[c2[k2].index as int],
        c1[k1].score == c2[k2].score,
        leads_clearly(c1, k1) == leads_clearly(c2, k2),
{
    lemma_counterparts(names1, names2, perm, c1, c2, score);
    let t1 = c1[k1];
    let t2 = c2[k2];
    let n1 = names1[t1.index as int];
    let n2 = names2[t2.index as int];
    // the counterpart of each list's top in the other list
    let m2 = second_match(c1, c2, perm, k1);
    let m1 = first_match(c1, c2, perm, k2);
    assert(names2[c2[m2].index as int] == n1);
    assert(names1[c1[m1].index as int] == n2);
    if m2 != k2 && m1 != k1 {
        assert(ranks_before(t2, c2[m2], names2));
        assert(ranks_before(t1, c1[m1], names1));
        if n1 != n2 {
            lemma_chars_lt_irreflexive(n1);
            if chars_lt(n1, n2) && chars_lt(n2, n1) {
                lemma_chars_lt_transitive(n1, n2, n1);
            }
        }
    }
    assert(n1 == n2 && t1.score == t2.score);
    if leads_clearly(c1, k1) {
        assert forall|j: int| 0 <= j < c2.len() && j != k2 implies t2.score >= c2[j].score + 20 by {
            let m = first_match(c1, c2, perm, j);
            if m == k1 {
                assert(c2[j].index != c2[k2].index);
                assert(perm[c2[j].index as int] != perm[c2[k2].index as int]);
                assert(m1 != k1);
            }
        }
    }
    if leads_clearly(c2, k2) {
        assert forall|j: int| 0 <= j < c1.len() && j != k1 implies t1.score >= c1[j].score + 20 by {
            let m = second_match(c1, c2, perm, j);
            if m == k2 {
                assert(c1[j].index != c1[k1].index);
                assert(m2 != k2);
            }
        }
    }
}


/// A selection that follows the rule on a non-empty list of candidates
/// shows that the list has a top candidate.
proof fn lemma_selection_has_top(
    r: Result<String, ReleaseError>,
    c: Seq<AssetCandidate>,
    names: Seq<Seq<char>>,
    forced: bool,
)
    requires
        named_selection_follows(r, c, names, forced),
        c.len() > 0,
        forall|i: int, j: int| 0 <= i < j < c.len() ==> c[i].index < c[j].index,
    ensures
        exists|k: int| is_top(c, k, names),
{
    match r {
        Ok(s) => {},
        Err(ReleaseError::AmbiguousAssets(v)) => {
            let order = choose|order: Seq<AssetCandidate>|
                #[trigger] is_ranking(order, c, names) && v@.len() == order.len() && forall|j: int|
                    0 <= j < v@.len() ==> #[trigger] v@[j]@ == names[order[j].index as int];
            lemma_ranking_top(order, c, names);
        },
        Err(_) => {},
    }
}

/// Reordering a release's assets does not change what
/// `select_asset_name_for_request` decides: either both lists give a name,
/// and the same one, or neither has a candidate, or both are ambiguous and
/// hand back the same names in the same order.
pub proof fn lemma_named_selection_ignores_asset_order(
    r1: Result<String, ReleaseError>,
    r2: Result<String, ReleaseError>,
    names1: Seq<Seq<char>>,
    names2: Seq<Seq<char>>,
    perm: Seq<int>,
    repo: Seq<char>,
    pattern: Option<Seq<char>>,
    os: OsFamily,
    arch: ArchFamily,
    file_type: FileTypePreference,
    forced: bool,
)
    requires
        names1.len() <= usize::MAX,
        reorders(names1, names2, perm),
        named_selection_follows(r1, asset_candidates(names1, repo, pattern, os, arch, file_type), names1, forced),
        named_selection_follows(r2, asset_candidates(names2, repo, pattern, os, arch, file_type), names2, forced),
    ensures
        (r1 is Ok) == (r2 is Ok),
        r1 matches Ok(a) ==> (r2 matches Ok(b) && a@ == b@),
        (r1 == Err::<String, ReleaseError>(ReleaseError::NoAssetMatched)) == (r2 == Err::<String, ReleaseError>(
            ReleaseError::NoAssetMatched,
        )),
        (r1 matches Err(ReleaseError::AmbiguousAssets(_))) == (r2 matches Err(ReleaseError::AmbiguousAssets(_))),
        r1 matches Err(ReleaseError::AmbiguousAssets(v1)) ==> (r2 matches Err(ReleaseError::AmbiguousAssets(v2))
            && v1@.len() == v2@.len() && forall|j: int| 0 <= j < v1@.len() ==> #[trigger] v1@[j]@ == v2@[j]@),
{
    let c1 = asset_candidates(names1, repo, pattern, os, arch, file_type);
    let c2 = asset_candidates(names2, repo, pattern, os, arch, file_type);
    lemma_reordered_candidates(names1, names2, perm, repo, pattern, os, arch, file_type);
    lemma_candidate_indices(names1, repo, pattern, os, arch, file_type);
    lemma_candidate_indices(names2, repo, pattern, os, arch, file_type);
    if c1.len() > 0 {
        lemma_selection_has_top(r1, c1, names1, forced);
        lemma_selection_has_top(r2, c2, names2, forced);
        let t1 = choose|k: int| is_top(c1, k, names1);
        let t2 = choose|k: int| is_top(c2, k, names2);
        assert(leads_clearly(c1, t1) == leads_clearly(c2, t2));
        if let Ok(a) = r1 {
            let k1 = choose|k: int|
                #[trigger] is_top(c1, k, names1) && names1[c1[k].index as int] == a@ && (c1.len() == 1 || forced
                    || leads_clearly(c1, k));
            assert(leads_clearly(c1, k1) == leads_clearly(c2, t2));
        }
        if let Ok(b) = r2 {
            let k2 = choose|k: int|
                #[trigger] is_top(c2, k, names2) && names2[c2[k].index as int] == b@ && (c2.len() == 1 || forced
                    || leads_clearly(c2, k));
            assert(leads_clearly(c1, t1) == leads_clearly(c2, k2));
        }
        if r1 is Ok && r2 is Ok {
            let a = r1->Ok_0;
            let b = r2->Ok_0;
            let k1 = choose|k: int|
                #[trigger] is_top(c1, k, names1) && names1[c1[k].index as int] == a@ && (c1.len() == 1 || forced
                    || leads_clearly(c1, k));
            let k2 = choose|k: int|
                #[trigger] is_top(c2, k, names2) && names2[c2[k].index as int] == b@ && (c2.len() == 1 || forced
                    || leads_clearly(c2, k));
            assert(names1[c1[k1].index as int] == names2[c2[k2].index as int]);
        }
    }
    if let Err(ReleaseError::AmbiguousAssets(v1)) = r1 {
        if let Err(ReleaseError::AmbiguousAssets(v2)) = r2 {
            let o1 = choose|order: Seq<AssetCandidate>|
                #[trigger] is_ranking(order, c1, names1) && v1@.len() == order.len() && forall|j: int|
                    0 <= j < v1@.len() ==> #[trigger] v1@[j]@ == names1[order[j].index as int];
            let o2 = choose|order: Seq<AssetCandidate>|
                #[trigger] is_ranking(order, c2, names2) && v2@.len() == order.len() && forall|j: int|
                    0 <= j < v2@.len() ==> #[trigger] v2@[j]@ == names2[order[j].index as int];
            lemma_rankings_agree(o1, o2, names1, names2, perm, repo, pattern, os, arch, file_type);
            assert(keys_of(o1, names1).len() == o1.len());
            assert(keys_of(o2, names2).len() == o2.len());
            assert forall|j: int| 0 <= j < v1@.len() implies #[trigger] v1@[j]@ == v2@[j]@ by {
                assert(keys_of(o1, names1)[j] == keys_of(o2, names2)[j]);
                assert(keys_of(o1, names1)[j].1 == names1[o1[j].index as int]);
                assert(keys_of(o2, names2)[j].1 == names2[o2[j].index as int]);
            }
        }
    }
}


/// A selection that follows the rule on a non-empty list of candidates
/// shows that the list has a top candidate.
proof fn lemma_chosen_has_top(
    r: Result<AssetSelection, ReleaseError>,
    c: Seq<AssetCandidate>,
    names: Seq<Seq<char>>,
    forced: bool,
)
    requires
        selection_follows(r, c, names, forced),
        c.len() > 0,
        forall|i: int, j: int| 0 <= i < j < c.len() ==> c[i].index < c[j].index,
    ensures
        exists|k: int| is_top(c, k, names),
{
    if let Ok(AssetSelection::Ambiguous(v)) = r {
        lemma_ranking_top(v@, c, names);
    }
}

/// Reordering a release's assets does not change what `select_asset`
/// decides: either both lists give a choice, for assets of the same name,
/// or neither has a candidate, or both are ambiguous and list candidates
/// of the same scores and names in the same order.
pub proof fn lemma_selection_ignores_asset_order(
    r1: Result<AssetSelection, ReleaseError>,
    r2: Result<AssetSelection, ReleaseError>,
    names1: Seq<Seq<char>>,
    names2: Seq<Seq<char>>,
    perm: Seq<int>,
    repo: Seq<char>,
    pattern: Option<Seq<char>>,
    os: OsFamily,
    arch: ArchFamily,
    file_type: FileTypePreference,
    forced: bool,
)
    requires
        names1.len() <= usize::MAX,
        reorders(names1, names2, perm),
        selection_follows(r1, asset_candidates(names1, repo, pattern, os, arch, file_type), names1, forced),
        selection_follows(r2, asset_candidates(names2, repo, pattern, os, arch, file_type), names2, forced),
    ensures
        (r1 matches Ok(AssetSelection::Chosen(_))) == (r2 matches Ok(AssetSelection::Chosen(_))),
        r1 matches Ok(AssetSelection::Chosen(i1)) ==> (r2 matches Ok(AssetSelection::Chosen(i2))
            && names1[i1 as int] == names2[i2 as int]),
        (r1 == Err::<AssetSelection, ReleaseError>(ReleaseError::NoAssetMatched)) == (r2 == Err::<
            AssetSelection,
            ReleaseError,
        >(ReleaseError::NoAssetMatched)),
        (r1 matches Ok(AssetSelection::Ambiguous(_))) == (r2 matches Ok(AssetSelection::Ambiguous(_))),
        r1 matches Ok(AssetSelection::Ambiguous(v1)) ==> (r2 matches Ok(AssetSelection::Ambiguous(v2))
            && keys_of(v1@, names1) == keys_of(v2@, names2)),
{
    let c1 = asset_candidates(names1, repo, pattern, os, arch, file_type);
    let c2 = asset_candidates(names2, repo, pattern, os, arch, file_type);
    lemma_reordered_candidates(names1, names2, perm, repo, pattern, os, arch, file_type);
    lemma_candidate_indices(names1, repo, pattern, os, arch, file_type);
    lemma_candidate_indices(names2, repo, pattern, os, arch, file_type);
    if c1.len() > 0 {
        lemma_chosen_has_top(r1, c1, names1, forced);
        lemma_chosen_has_top(r2, c2, names2, forced);
        let t1 = choose|k: int| is_top(c1, k, names1);
        let t2 = choose|k: int| is_top(c2, k, names2);
        assert(leads_clearly(c1, t1) == leads_clearly(c2, t2));
        if let Ok(AssetSelection::Chosen(i1)) = r1 {
            let k1 = choose|k: int|
                #[trigger] is_top(c1, k, names1) && c1[k].index == i1 && (c1.len() == 1 || forced || leads_clearly(c1, k));
            assert(leads_clearly(c1, k1) == leads_clearly(c2, t2));
            if let Ok(AssetSelection::Chosen(i2)) = r2 {
                let k2 = choose|k: int|
                    #[trigger] is_top(c2, k, names2) && c2[k].index == i2 && (c2.len() == 1 || forced || leads_clearly(c2, k));
                assert(names1[c1[k1].index as int] == names2[c2[k2].index as int]);
            }
        }
        if let Ok(AssetSelection::Chosen(i2)) = r2 {
            let k2 = choose|k: int|
                #[trigger] is_top(c2, k, names2) && c2[k].index == i2 && (c2.len() == 1 || forced || leads_clearly(c2, k));
            assert(leads_clearly(c1, t1) == leads_clearly(c2, k2));
        }
    }
    if let Ok(AssetSelection::Ambiguous(v1)) = r1 {
        if let Ok(AssetSelection::Ambiguous(v2)) = r2 {
            lemma_rankings_agree(v1@, v2@, names1, names2, perm, repo, pattern, os, arch, file_type);
        }
    }
}


/// The order of rank keys `(score, name)`: a higher score first, then the
/// smaller name; equal keys either way.
pub open spec fn key_leq(a: (int, Seq<char>), b: (int, Seq<char>)) -> bool {
    a.0 > b.0 || (a.0 == b.0 && (chars_lt(a.1, b.1) || a.1 == b.1))
}

/// The rank keys of candidates: their scores and names.
pub open spec fn keys_of(s: Seq<AssetCandidate>, names: Seq<Seq<char>>) -> Seq<(int, Seq<char>)> {
    s.map_values(|x: AssetCandidate| (x.score as int, names[x.index as int]))
}

proof fn lemma_key_order_total()
    ensures
        total_ordering(|a: (int, Seq<char>), b: (int, Seq<char>)| key_leq(a, b)),
{
    let leq = |a: (int, Seq<char>), b: (int, Seq<char>)| key_leq(a, b);
    assert forall|x: (int, Seq<char>), y: (int, Seq<char>)| #[trigger] leq(x, y) && #[trigger] leq(y, x) implies x == y by {
        lemma_chars_lt_total(x.1, y.1);
        lemma_chars_lt_irreflexive(x.1);
    }
    assert forall|x: (int, Seq<char>), y: (int, Seq<char>), z: (int, Seq<char>)|
        #[trigger] leq(x, y) && #[trigger] leq(y, z) implies leq(x, z) by {
        if x.0 == y.0 && y.0 == z.0 && chars_lt(x.1, y.1) && chars_lt(y.1, z.1) {
            lemma_chars_lt_transitive(x.1, y.1, z.1);
        }
    }
    assert forall|x: (int, Seq<char>), y: (int, Seq<char>)| #[trigger] leq(x, y) || #[trigger] leq(y, x) by {
        lemma_chars_lt_total(x.1, y.1);
    }
}

/// A ranking lists its keys in key order, and lists no candidate twice.
proof fn lemma_ranking_sorted(order: Seq<AssetCandidate>, c: Seq<AssetCandidate>, names: Seq<Seq<char>>)
    requires
        is_ranking(order, c, names),
    ensures
        sorted_by(keys_of(order, names), |a: (int, Seq<char>), b: (int, Seq<char>)| key_leq(a, b)),
        order.no_duplicates(),
{
    let w = keys_of(order, names);
    assert forall|i: int, j: int| 0 <= i < j < w.len() implies #[trigger] key_leq(w[i], w[j]) by {
        assert(ranks_before(order[i], order[j], names));
    }
    assert forall|i: int, j: int| 0 <= i < order.len() && 0 <= j < order.len() && i != j implies order[i] != order[j] by {
        if i < j {
            assert(ranks_before(order[i], order[j], names));
            lemma_ranks_before_total(order[i], order[j], names);
        } else {
            assert(ranks_before(order[j], order[i], names));
            lemma_ranks_before_total(order[j], order[i], names);
        }
    }
}

/// Two lists of the same candidates, none twice, have the same keys.
proof fn lemma_same_candidates_same_keys(s: Seq<AssetCandidate>, t: Seq<AssetCandidate>, names: Seq<Seq<char>>)
    requires
        s.len() == t.len(),
        s.no_duplicates(),
        t.no_duplicates(),
        forall|x: AssetCandidate| s.contains(x) <==> t.contains(x),
    ensures
        keys_of(s, names).to_multiset() == keys_of(t, names).to_multiset(),
    decreases s.len(),
{
    broadcast use vstd::seq_lib::group_to_multiset_ensures;
    broadcast use vstd::multiset::group_multiset_axioms;

    if s.len() > 0 {
        let x = s.last();
        assert(s.contains(x));
        assert(t.contains(x));
        let i = choose|i: int| 0 <= i < t.len() && t[i] == x;
        let s1 = s.drop_last();
        let t1 = t.remove(i);
        assert forall|y: AssetCandidate| s1.contains(y) <==> t1.contains(y) by {
            if s1.contains(y) {
                let k = choose|k: int| 0 <= k < s1.len() && s1[k] == y;
                assert(s[k] == y);
                assert(y != x);
                assert(t.contains(y));
                let m = choose|m: int| 0 <= m < t.len() && t[m] == y;
                assert(m != i);
                if m < i {
                    assert(t1[m] == y);
                } else {
                    assert(t1[m - 1] == y);
                }
            }
            if t1.contains(y) {
                let k = choose|k: int| 0 <= k < t1.len() && t1[k] == y;
                if k < i {
                    assert(t[k] == y);
                    assert(k != i);
                } else {
                    assert(t[k + 1] == y);
                }
                assert(y != x);
                assert(s.contains(y));
                let m = choose|m: int| 0 <= m < s.len() && s[m] == y;
                assert(m != s.len() - 1);
                assert(s1[m] == y);
            }
        }
        assert forall|a: int, b: int| 0 <= a < t1.len() && 0 <= b < t1.len() && a != b implies t1[a] != t1[b] by {
            let a2 = if a < i { a } else { a + 1 };
            let b2 = if b < i { b } else { b + 1 };
            assert(t1[a] == t[a2] && t1[b] == t[b2]);
        }
        assert forall|a: int, b: int| 0 <= a < s1.len() && 0 <= b < s1.len() && a != b implies s1[a] != s1[b] by {
            assert(s1[a] == s[a] && s1[b] == s[b]);
        }
        lemma_same_candidates_same_keys(s1, t1, names);
        let ks = keys_of(s, names);
        let kt = keys_of(t, names);
        assert(keys_of(s1, names) =~= ks.drop_last());
        assert(ks =~= ks.drop_last().push(ks.last()));
        assert(keys_of(t1, names) =~= kt.remove(i));
        assert(kt.remove(i).to_multiset() == kt.to_multiset().remove(kt[i]));
        assert(kt.to_multiset().count(kt[i]) > 0) by {
            assert(kt.contains(kt[i]));
        }
        assert(kt.to_multiset() =~= kt.remove(i).to_multiset().insert(kt[i]));
        assert(ks.drop_last().push(ks.last()).to_multiset() == ks.drop_last().to_multiset().insert(ks.last()));
    } else {
        assert(keys_of(s, names) =~= Seq::<(int, Seq<char>)>::empty());
        assert(keys_of(t, names) =~= Seq::<(int, Seq<char>)>::empty());
    }
}


/// The rank key an asset name adds to the candidates: one when it is a
/// candidate, none otherwise.
pub open spec fn key_of_name(
    name: Seq<char>,
    repo: Seq<char>,
    pattern: Option<Seq<char>>,
    os: OsFamily,
    arch: ArchFamily,
    file_type: FileTypePreference,
) -> Multiset<(int, Seq<char>)> {
    let score = candidate_score(name, repo, pattern, os, arch, file_type);
    if score > 0 {
        Multiset::singleton((score, name))
    } else {
        Multiset::empty()
    }
}

/// The rank keys of the candidates among `names`, counted with repetition.
pub open spec fn candidate_keys(
    names: Seq<Seq<char>>,
    repo: Seq<char>,
    pattern: Option<Seq<char>>,
    os: OsFamily,
    arch: ArchFamily,
    file_type: FileTypePreference,
) -> Multiset<(int, Seq<char>)>
    decreases names.len(),
{
    if names.len() == 0 {
        Multiset::empty()
    } else {
        candidate_keys(names.drop_last(), repo, pattern, os, arch, file_type).add(
            key_of_name(names.last(), repo, pattern, os, arch, file_type),
        )
    }
}

proof fn lemma_candidates_have_candidate_keys(
    names: Seq<Seq<char>>,
    repo: Seq<char>,
    pattern: Option<Seq<char>>,
    os: OsFamily,
    arch: ArchFamily,
    file_type: FileTypePreference,
)
    requires
        names.len() <= usize::MAX,
    ensures
        keys_of(asset_candidates(names, repo, pattern, os, arch, file_type), names).to_multiset()
            == candidate_keys(names, repo, pattern, os, arch, file_type),
    decreases names.len(),
{
    broadcast use vstd::seq_lib::group_to_multiset_ensures;
    broadcast use vstd::multiset::group_multiset_axioms;

    let c = asset_candidates(names, repo, pattern, os, arch, file_type);
    if names.len() == 0 {
        assert(keys_of(c, names) =~= Seq::<(int, Seq<char>)>::empty());
        assert(keys_of(c, names).to_multiset() =~= Multiset::<(int, Seq<char>)>::empty());
    } else {
        let dl = names.drop_last();
        let e = asset_candidates(dl, repo, pattern, os, arch, file_type);
        lemma_candidates_have_candidate_keys(dl, repo, pattern, os, arch, file_type);
        lemma_candidate_indices(dl, repo, pattern, os, arch, file_type);
        assert(keys_of(e, names) =~= keys_of(e, dl)) by {
            assert forall|k: int| 0 <= k < e.len() implies names[e[k].index as int] == dl[e[k].index as int] by {}
        }
        let last = names.last();
        let score = asset_score(last, repo, os, arch, file_type);
        if asset_eligible(last, pattern) && score > 0 {
            let x = AssetCandidate { index: (names.len() - 1) as usize, score: score as i32 };
            assert(c == e.push(x));
            assert(score <= 200);
            assert(keys_of(c, names) =~= keys_of(e, names).push((score, last)));
            assert(key_of_name(last, repo, pattern, os, arch, file_type) == Multiset::singleton((score, last)));
        } else {
            assert(c == e);
            assert(key_of_name(last, repo, pattern, os, arch, file_type) =~= Multiset::<(int, Seq<char>)>::empty());
        }
        assert(keys_of(c, names).to_multiset() =~= candidate_keys(names, repo, pattern, os, arch, file_type));
    }
}


proof fn lemma_candidate_keys_remove(
    names: Seq<Seq<char>>,
    i: int,
    repo: Seq<char>,
    pattern: Option<Seq<char>>,
    os: OsFamily,
    arch: ArchFamily,
    file_type: FileTypePreference,
)
    requires
        0 <= i < names.len(),
    ensures
        candidate_keys(names, repo, pattern, os, arch, file_type) == candidate_keys(
            names.remove(i),
            repo,
            pattern,
            os,
            arch,
            file_type,
        ).add(key_of_name(names[i], repo, pattern, os, arch, file_type)),
    decreases names.len(),
{
    broadcast use vstd::multiset::group_multiset_axioms;

    let dl = names.drop_last();
    if i == names.len() - 1 {
        assert(names.remove(i) =~= dl);
    } else {
        lemma_candidate_keys_remove(dl, i, repo, pattern, os, arch, file_type);
        let r = names.remove(i);
        assert(r.drop_last() =~= dl.remove(i));
        assert(r.last() == names.last());
        assert(dl[i] == names[i]);
        let a = candidate_keys(dl.remove(i), repo, pattern, os, arch, file_type);
        let x = key_of_name(names[i], repo, pattern, os, arch, file_type);
        let y = key_of_name(names.last(), repo, pattern, os, arch, file_type);
        assert(a.add(x).add(y) =~= a.add(y).add(x));
    }
}

proof fn lemma_candidate_keys_of_same_names(
    names1: Seq<Seq<char>>,
    names2: Seq<Seq<char>>,
    repo: Seq<char>,
    pattern: Option<Seq<char>>,
    os: OsFamily,
    arch: ArchFamily,
    file_type: FileTypePreference,
)
    requires
        names1.to_multiset() == names2.to_multiset(),
    ensures
        candidate_keys(names1, repo, pattern, os, arch, file_type) == candidate_keys(
            names2,
            repo,
            pattern,
            os,
            arch,
            file_type,
        ),
    decreases names2.len(),
{
    broadcast use vstd::seq_lib::group_to_multiset_ensures;
    broadcast use vstd::multiset::group_multiset_axioms;

    if names2.len() == 0 {
        assert(names2.to_multiset().len() == names2.len());
        assert(names1.to_multiset().len() == names1.len());
        assert(names1.len() == 0);
        assert(names1 =~= names2);
    } else {
        let x = names2.last();
        let dl2 = names2.drop_last();
        assert(names2 =~= dl2.push(x));
        assert(names2.to_multiset() == dl2.to_multiset().insert(x));
        assert(names1.to_multiset().count(x) > 0);
        assert(names1.contains(x));
        let i = choose|i: int| 0 <= i < names1.len() && names1[i] == x;
        let r1 = names1.remove(i);
        assert(r1.to_multiset() == names1.to_multiset().remove(x));
        assert(r1.to_multiset() =~= dl2.to_multiset());
        lemma_candidate_keys_of_same_names(r1, dl2, repo, pattern, os, arch, file_type);
        lemma_candidate_keys_remove(names1, i, repo, pattern, os, arch, file_type);
    }
}

/// A reordering keeps the names, counted with repetition.
pub proof fn lemma_reorder_keeps_names(names1: Seq<Seq<char>>, names2: Seq<Seq<char>>, perm: Seq<int>)
    requires
        reorders(names1, names2, perm),
    ensures
        names1.to_multiset() == names2.to_multiset(),
    decreases names1.len(),
{
    broadcast use vstd::seq_lib::group_to_multiset_ensures;
    broadcast use vstd::multiset::group_multiset_axioms;

    let n = names1.len();
    if n == 0 {
        assert(names1 =~= names2);
    } else {
        let p = perm[n - 1];
        let n1 = names1.remove(p);
        let n2 = names2.drop_last();
        let perm1 = Seq::new((n - 1) as nat, |j: int| if perm[j] > p { perm[j] - 1 } else { perm[j] });
        assert forall|j: int| 0 <= j < perm1.len() implies 0 <= #[trigger] perm1[j] < n1.len() && n2[j] == n1[perm1[j]] by {
            assert(perm[j] != perm[n - 1]);
            if perm[j] > p {
                assert(n1[perm[j] - 1] == names1[perm[j]]);
            } else {
                assert(n1[perm[j]] == names1[perm[j]]);
            }
        }
        assert forall|j: int, k: int| 0 <= j < perm1.len() && 0 <= k < perm1.len() && j != k implies #[trigger] perm1[j]
            != #[trigger] perm1[k] by {
            assert(perm[j] != perm[k]);
            assert(perm[j] != p && perm[k] != p);
        }
        assert forall|i: int| 0 <= i < n1.len() implies #[trigger] takes_value(perm1, i) by {
            let i2 = if i < p { i } else { i + 1 };
            assert(takes_value(perm, i2));
            let j = choose|j: int| 0 <= j < perm.len() && #[trigger] perm[j] == i2;
            assert(j != n - 1);
            assert(perm1[j] == i);
        }
        assert(reorders(n1, n2, perm1));
        lemma_reorder_keeps_names(n1, n2, perm1);
        assert(names2 =~= n2.push(names2.last()));
        assert(names2.to_multiset() == n2.to_multiset().insert(names2.last()));
        assert(names2.last() == names1[p]);
        assert(n1.to_multiset() == names1.to_multiset().remove(names1[p]));
        assert(names1.to_multiset().count(names1[p]) > 0) by {
            assert(names1.contains(names1[p]));
        }
        assert(names1.to_multiset() =~= n1.to_multiset().insert(names1[p]));
    }
}


/// Rankings of the candidates of a list of assets and of a reordering of
/// it give the same scores and names in the same order.
pub proof fn lemma_rankings_agree(
    order1: Seq<AssetCandidate>,
    order2: Seq<AssetCandidate>,
    names1: Seq<Seq<char>>,
    names2: Seq<Seq<char>>,
    perm: Seq<int>,
    repo: Seq<char>,
    pattern: Option<Seq<char>>,
    os: OsFamily,
    arch: ArchFamily,
    file_type: FileTypePreference,
)
    requires
        names1.len() <= usize::MAX,
        reorders(names1, names2, perm),
        is_ranking(order1, asset_candidates(names1, repo, pattern, os, arch, file_type), names1),
        is_ranking(order2, asset_candidates(names2, repo, pattern, os, arch, file_type), names2),
    ensures
        keys_of(order1, names1) == keys_of(order2, names2),
{
    let c1 = asset_candidates(names1, repo, pattern, os, arch, file_type);
    let c2 = asset_candidates(names2, repo, pattern, os, arch, file_type);
    lemma_candidate_indices(names1, repo, pattern, os, arch, file_type);
    lemma_candidate_indices(names2, repo, pattern, os, arch, file_type);
    assert forall|a: int, b: int| 0 <= a < c1.len() && 0 <= b < c1.len() && a != b implies c1[a] != c1[b] by {
        if a < b {
            assert(c1[a].index < c1[b].index);
        } else {
            assert(c1[b].index < c1[a].index);
        }
    }
    assert forall|a: int, b: int| 0 <= a < c2.len() && 0 <= b < c2.len() && a != b implies c2[a] != c2[b] by {
        if a < b {
            assert(c2[a].index < c2[b].index);
        } else {
            assert(c2[b].index < c2[a].index);
        }
    }
    lemma_ranking_sorted(order1, c1, names1);
    lemma_ranking_sorted(order2, c2, names2);
    lemma_same_candidates_same_keys(order1, c1, names1);
    lemma_same_candidates_same_keys(order2, c2, names2);
    lemma_candidates_have_candidate_keys(names1, repo, pattern, os, arch, file_type);
    lemma_candidates_have_candidate_keys(names2, repo, pattern, os, arch, file_type);
    lemma_reorder_keeps_names(names1, names2, perm);
    lemma_candidate_keys_of_same_names(names1, names2, repo, pattern, os, arch, file_type);
    lemma_key_order_total();
    lemma_sorted_unique(
        keys_of(order1, names1),
        keys_of(order2, names2),
        |a: (int, Seq<char>), b: (int, Seq<char>)| key_leq(a, b),
    );
}

} // verus!
