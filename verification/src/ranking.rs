//! Ranking of versions: from the lowest to the highest, by major, minor and
//! patch component, and among versions of the same components by
//! location.

use vstd::prelude::*;
use crate::text::{
    lemma_text_order_irreflexive,
    lemma_text_order_total,
    lemma_text_order_transitive,
    text_below,
};
use crate::version::{views, Version, VersionView};

verus! {

/// Ranking is a strict order: no version ranks below itself, and a version
/// that ranks below a second ranks below every version that the second
/// ranks below.
pub proof fn lemma_ranking_is_strict(a: VersionView, b: VersionView, c: VersionView)
    ensures
        !a.ranks_below(a),
        a.ranks_below(b) && b.ranks_below(c) ==> a.ranks_below(c),
        a.ranks_below(b) ==> !b.ranks_below(a),
{
    if a.location is Some {
        lemma_text_order_irreflexive(a.location->0);
    }
    if a.location is Some && b.location is Some {
        let (first, second) = (a.location->0, b.location->0);
        if text_below(first, second) {
            if text_below(second, first) {
                lemma_text_order_transitive(first, second, first);
            }
            if c.location is Some && text_below(second, c.location->0) {
                lemma_text_order_transitive(first, second, c.location->0);
            }
        }
    }
}

/// Ranking is total: of two versions that differ, in a component or in
/// the location, one ranks below the other.
pub proof fn lemma_ranking_is_total(a: VersionView, b: VersionView)
    ensures
        a.ranks_below(b) || b.ranks_below(a) || a == b,
{
    if a.location is Some && b.location is Some {
        lemma_text_order_total(a.location->0, b.location->0);
    }
}

/// A version that ranks below a second ranks below every version that
/// does not rank below the second.
proof fn lemma_ranks_below_the_rest(a: VersionView, b: VersionView, c: VersionView)
    requires
        a.ranks_below(b),
        !c.ranks_below(b),
    ensures
        a.ranks_below(c),
{
    lemma_ranking_is_total(b, c);
    lemma_ranking_is_strict(a, b, c);
}

/// `ranked` with `version` put in at its rank, behind the versions that do
/// not rank above it.
pub open spec fn insert_ranked(ranked: Seq<VersionView>, version: VersionView) -> Seq<VersionView>
    decreases ranked.len(),
{
    if ranked.len() > 0 && version.ranks_below(ranked.last()) {
        insert_ranked(ranked.drop_last(), version).push(ranked.last())
    } else {
        ranked.push(version)
    }
}

/// The versions of `versions` from the lowest to the highest: each is put
/// behind those before it that do not rank above it.
pub open spec fn ranked(versions: Seq<VersionView>) -> Seq<VersionView>
    decreases versions.len(),
{
    if versions.len() == 0 {
        Seq::empty()
    } else {
        insert_ranked(ranked(versions.drop_last()), versions.last())
    }
}

/// Whether no version of `versions` ranks below one that stands before it.
pub open spec fn ascending(versions: Seq<VersionView>) -> bool {
    forall|i: int, j: int|
        0 <= i < j < versions.len() ==> !(#[trigger] versions[j]).ranks_below(
            #[trigger] versions[i],
        )
}

/// Putting a version in at its rank is putting it at the one position
/// behind which all versions rank above it and before which the nearest
/// does not.
pub proof fn lemma_insert_position(ranked: Seq<VersionView>, version: VersionView, at: int)
    requires
        0 <= at <= ranked.len(),
        forall|k: int| at <= k < ranked.len() ==> version.ranks_below(#[trigger] ranked[k]),
        at > 0 ==> !version.ranks_below(ranked[at - 1]),
    ensures
        insert_ranked(ranked, version) == ranked.insert(at, version),
    decreases ranked.len() - at,
{
    if at < ranked.len() {
        assert(version.ranks_below(ranked[ranked.len() - 1]));
        lemma_insert_position(ranked.drop_last(), version, at);
        assert(ranked.drop_last().insert(at, version).push(ranked.last()) == ranked.insert(
            at,
            version,
        ));
    } else {
        assert(ranked.insert(at, version) == ranked.push(version));
    }
}

/// Putting a version in at its rank keeps the others, adds this one, and
/// keeps an ascending sequence ascending.
pub proof fn lemma_insert_ranked(ranked: Seq<VersionView>, version: VersionView)
    ensures
        insert_ranked(ranked, version).to_multiset() == ranked.to_multiset().insert(version),
        insert_ranked(ranked, version).len() == ranked.len() + 1,
        ascending(ranked) ==> ascending(insert_ranked(ranked, version)),
    decreases ranked.len(),
{
    broadcast use vstd::seq_lib::group_to_multiset_ensures;

    let result = insert_ranked(ranked, version);
    if ranked.len() > 0 && version.ranks_below(ranked.last()) {
        let front = ranked.drop_last();
        let inner = insert_ranked(front, version);
        lemma_insert_ranked(front, version);
        assert(ranked == front.push(ranked.last()));
        assert(result.to_multiset() == ranked.to_multiset().insert(version));
        if ascending(ranked) {
            assert forall|i: int, j: int| 0 <= i < j < front.len() implies !(#[trigger] front[j]).ranks_below(
                #[trigger] front[i],
            ) by {
                assert(front[i] == ranked[i] && front[j] == ranked[j]);
            }
            assert(ascending(inner));
            assert forall|i: int, j: int| 0 <= i < j < result.len() implies !(#[trigger] result[j]).ranks_below(
                #[trigger] result[i],
            ) by {
                if j < inner.len() {
                    assert(result[i] == inner[i] && result[j] == inner[j]);
                } else {
                    assert(result[j] == ranked.last());
                    assert(result[i] == inner[i]);
                    assert(inner.to_multiset().count(inner[i]) > 0);
                    if inner[i] == version {
                        lemma_ranking_is_strict(version, ranked.last(), version);
                    } else {
                        assert(front.to_multiset().count(inner[i]) > 0);
                        assert(front.contains(inner[i]));
                        let k = choose|k: int| 0 <= k < front.len() && front[k] == inner[i];
                        assert(ranked[k] == inner[i]);
                        assert(!ranked[ranked.len() - 1].ranks_below(ranked[k]));
                    }
                }
            }
        }
    } else {
        if ascending(ranked) {
            assert forall|i: int, j: int| 0 <= i < j < result.len() implies !(#[trigger] result[j]).ranks_below(
                #[trigger] result[i],
            ) by {
                if j < ranked.len() {
                    assert(result[i] == ranked[i] && result[j] == ranked[j]);
                } else if ranked.len() > 0 {
                    assert(result[i] == ranked[i]);
                    if i < ranked.len() - 1 && version.ranks_below(ranked[i]) {
                        assert(!ranked[ranked.len() - 1].ranks_below(ranked[i]));
                        lemma_ranks_below_the_rest(version, ranked[i], ranked.last());
                    }
                }
            }
        }
    }
}

/// Ranking keeps every version, as often as it came, and puts them in
/// ascending order.
pub proof fn lemma_ranked(versions: Seq<VersionView>)
    ensures
        ranked(versions).to_multiset() == versions.to_multiset(),
        ranked(versions).len() == versions.len(),
        ascending(ranked(versions)),
    decreases versions.len(),
{
    broadcast use vstd::seq_lib::group_to_multiset_ensures;

    if versions.len() > 0 {
        let front = versions.drop_last();
        lemma_ranked(front);
        lemma_insert_ranked(ranked(front), versions.last());
        assert(versions == front.push(versions.last()));
    }
}

/// The last of the ranked versions is one of the versions, and none of
/// them ranks above it.
pub proof fn lemma_ranked_last_is_highest(versions: Seq<VersionView>)
    requires
        versions.len() > 0,
    ensures
        versions.contains(ranked(versions).last()),
        forall|i: int|
            0 <= i < versions.len() ==> !ranked(versions).last().ranks_below(#[trigger] versions[i]),
{
    broadcast use vstd::seq_lib::group_to_multiset_ensures;

    let sorted = ranked(versions);
    lemma_ranked(versions);
    let top = sorted.last();
    assert(sorted.contains(top));
    assert(sorted.to_multiset().count(top) > 0);
    assert forall|i: int| 0 <= i < versions.len() implies !top.ranks_below(
        #[trigger] versions[i],
    ) by {
        assert(versions.contains(versions[i]));
        assert(versions.to_multiset().count(versions[i]) > 0);
        assert(sorted.contains(versions[i]));
        let k = choose|k: int| 0 <= k < sorted.len() && sorted[k] == versions[i];
        if k < sorted.len() - 1 {
            assert(!sorted[sorted.len() - 1].ranks_below(sorted[k]));
        } else {
            lemma_ranking_is_strict(top, top, top);
        }
    }
}

/// Ranks the versions from the lowest to the highest.
pub fn rank(versions: &Vec<Version>) -> (sorted: Vec<Version>)
    ensures
        views(sorted@) == ranked(views(versions@)),
{
    let mut sorted: Vec<Version> = Vec::new();
    let mut i: usize = 0;
    assert(views(versions@).take(0) == Seq::<VersionView>::empty());
    while i < versions.len()
        invariant
            i <= versions.len(),
            views(sorted@) == ranked(views(versions@).take(i as int)),
        decreases versions.len() - i,
    {
        let version = versions[i].clone();
        let ghost before = views(sorted@);
        let mut at: usize = sorted.len();
        while at > 0 && version.is_below(&sorted[at - 1])
            invariant
                at <= sorted.len(),
                before == views(sorted@),
                forall|k: int| at <= k < before.len() ==> version@.ranks_below(#[trigger] before[k]),
            decreases at,
        {
            at -= 1;
        }
        proof {
            lemma_insert_position(before, version@, at as int);
            let upto = views(versions@).take(i + 1);
            assert(upto.drop_last() == views(versions@).take(i as int));
            assert(upto.last() == version@);
        }
        sorted.insert(at, version);
        assert(views(sorted@) == before.insert(at as int, version@));
        i += 1;
    }
    assert(views(versions@).take(versions.len() as int) == views(versions@));
    sorted
}

} // verus!
