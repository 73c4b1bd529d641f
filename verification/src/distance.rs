//! The Jaccard distance between two profiles: one minus the share of their
//! node identifiers that both hold.
//!
//! The distance is a ratio of two counts. The library returns the counts, so
//! that the ratio is exact; whoever wants a rounded number divides them.

use crate::model::{OntoProfile, ProfileView};
use vstd::hash_set::StringHashSet;
use vstd::prelude::*;
use vstd::set_lib::*;

verus! {

/// The two counts behind a distance, as mathematics sees them.
pub struct DistanceView {
    /// How many identifiers both profiles hold.
    pub shared: nat,
    /// How many identifiers the two profiles hold together.
    pub total: nat,
}

impl DistanceView {
    /// The distance is zero: nothing is held by one profile alone.
    pub open spec fn is_zero(self) -> bool {
        self.shared == self.total
    }

    /// The distance is one: something is held, and nothing by both.
    pub open spec fn is_one(self) -> bool {
        self.shared == 0 && self.total > 0
    }
}

/// The distance between two profiles: the size of the intersection of their
/// identifier sets, and the size of the union.
pub open spec fn jaccard(a: ProfileView, b: ProfileView) -> DistanceView {
    DistanceView {
        shared: a.ids().intersect(b.ids()).len(),
        total: a.ids().union(b.ids()).len(),
    }
}

/// The distance between two profiles, as the two counts that make it up.
///
/// With `total` zero the distance is zero. Otherwise it is one minus `shared`
/// over `total`, which lies between zero and one.
#[derive(Debug)]
pub struct JaccardDistance {
    /// How many identifiers both profiles hold.
    pub shared: usize,
    /// How many identifiers the two profiles hold together.
    pub total: usize,
}

impl View for JaccardDistance {
    type V = DistanceView;

    open spec fn view(&self) -> DistanceView {
        DistanceView { shared: self.shared as nat, total: self.total as nat }
    }
}

impl JaccardDistance {
    /// Whether the distance is zero.
    pub fn is_zero(&self) -> (yes: bool)
        ensures
            yes == self@.is_zero(),
    {
        self.shared == self.total
    }

    /// Whether the distance is one.
    pub fn is_one(&self) -> (yes: bool)
        ensures
            yes == self@.is_one(),
    {
        self.shared == 0 && self.total > 0
    }
}

/// The identifiers among the first `n` nodes.
pub open spec fn ids_before(p: ProfileView, n: int) -> Set<Seq<char>> {
    p.id_seq().take(n).to_set()
}

/// Taking one node more adds its identifier.
proof fn lemma_ids_before_next(p: ProfileView, n: int)
    requires
        0 <= n < p.nodes.len(),
    ensures
        ids_before(p, n + 1) == ids_before(p, n).insert(p.nodes[n].id),
{
    let s = p.id_seq();
    assert(s.take(n + 1) =~= s.take(n).push(s[n]));
    s.take(n).lemma_push_to_set_commute(s[n]);
}

/// Taking all the nodes gives all the identifiers, and taking none gives none.
proof fn lemma_ids_before_ends(p: ProfileView)
    ensures
        ids_before(p, 0) == Set::<Seq<char>>::empty(),
        ids_before(p, p.nodes.len() as int) == p.ids(),
{
    let s = p.id_seq();
    assert(s.take(s.len() as int) =~= s);
    assert(s.take(0).to_set() =~= Set::<Seq<char>>::empty());
}

/// The identifier set of a profile is finite.
pub proof fn lemma_ids_finite(p: ProfileView)
    ensures
        p.ids().finite(),
{
    vstd::seq_lib::seq_to_set_is_finite(p.id_seq());
}

/// The distance from `a` to `b` is the distance from `b` to `a`.
pub proof fn lemma_jaccard_symmetric(a: OntoProfile, b: OntoProfile)
    ensures
        jaccard(a@, b@) == jaccard(b@, a@),
{
    assert(a@.ids().intersect(b@.ids()) =~= b@.ids().intersect(a@.ids()));
    assert(a@.ids().union(b@.ids()) =~= b@.ids().union(a@.ids()));
}

/// The distance from a profile to itself is zero.
pub proof fn lemma_jaccard_reflexive(a: OntoProfile)
    ensures
        jaccard(a@, a@).is_zero(),
{
    lemma_jaccard_same_ids(a, a);
}

/// Between two profiles without nodes the distance is zero: there is nothing
/// to share, and nothing that could have drifted.
pub proof fn lemma_jaccard_empty(a: OntoProfile, b: OntoProfile)
    requires
        a@.nodes.len() == 0,
        b@.nodes.len() == 0,
    ensures
        jaccard(a@, b@) == (DistanceView { shared: 0, total: 0 }),
        jaccard(a@, b@).is_zero(),
{
    lemma_ids_before_ends(a@);
    lemma_ids_before_ends(b@);
    assert(a@.ids().intersect(b@.ids()) =~= Set::<Seq<char>>::empty());
    assert(a@.ids().union(b@.ids()) =~= Set::<Seq<char>>::empty());
}

/// Between two profiles that share no identifier, one of which has a node,
/// the distance is one.
pub proof fn lemma_jaccard_disjoint(a: OntoProfile, b: OntoProfile)
    requires
        a@.ids().disjoint(b@.ids()),
        a@.nodes.len() > 0 || b@.nodes.len() > 0,
    ensures
        jaccard(a@, b@).is_one(),
{
    lemma_ids_finite(a@);
    lemma_ids_finite(b@);
    assert(a@.ids().intersect(b@.ids()) =~= Set::<Seq<char>>::empty());
    let all = a@.ids().union(b@.ids());
    if a@.nodes.len() > 0 {
        assert(a@.id_seq()[0] == a@.nodes[0].id);
        assert(a@.ids().contains(a@.id_seq()[0]));
        assert(all.contains(a@.nodes[0].id));
    } else {
        assert(b@.id_seq()[0] == b@.nodes[0].id);
        assert(b@.ids().contains(b@.id_seq()[0]));
        assert(all.contains(b@.nodes[0].id));
    }
    if all.len() == 0 {
        all.lemma_len0_is_empty();
    }
}

/// The distance sees the identifier sets only: between two profiles with the
/// same identifiers it is zero, whatever else their nodes hold and however
/// often an identifier occurs.
pub proof fn lemma_jaccard_same_ids(a: OntoProfile, b: OntoProfile)
    requires
        a@.ids() == b@.ids(),
    ensures
        jaccard(a@, b@).is_zero(),
{
    assert(a@.ids().intersect(b@.ids()) =~= a@.ids());
    assert(a@.ids().union(b@.ids()) =~= a@.ids());
}

/// The distance does not see the order of the nodes: between two profiles
/// that hold the same nodes in another order it is zero.
pub proof fn lemma_jaccard_reordered(a: OntoProfile, b: OntoProfile)
    requires
        a@.nodes.to_multiset() == b@.nodes.to_multiset(),
    ensures
        a@.ids() == b@.ids(),
        jaccard(a@, b@).is_zero(),
{
    lemma_ids_of_same_nodes(a@, b@);
    lemma_ids_of_same_nodes(b@, a@);
    assert(a@.ids() =~= b@.ids());
    lemma_jaccard_same_ids(a, b);
}

/// Every identifier of `a` is one of `b`, where each node of `a` is a node of
/// `b`.
proof fn lemma_ids_of_same_nodes(a: ProfileView, b: ProfileView)
    requires
        a.nodes.to_multiset() == b.nodes.to_multiset(),
    ensures
        a.ids().subset_of(b.ids()),
{
    a.nodes.to_multiset_ensures();
    b.nodes.to_multiset_ensures();
    assert forall|id: Seq<char>| a.ids().contains(id) implies b.ids().contains(id) by {
        let i = choose|i: int| 0 <= i < a.id_seq().len() && a.id_seq()[i] == id;
        assert(a.nodes.contains(a.nodes[i]));
        assert(b.nodes.to_multiset().count(a.nodes[i]) > 0);
        assert(b.nodes.contains(a.nodes[i]));
        let j = choose|j: int| 0 <= j < b.nodes.len() && b.nodes[j] == a.nodes[i];
        assert(b.id_seq()[j] == id);
    }
}

/// The shared identifiers are among all of them: the distance lies between
/// zero and one.
pub proof fn lemma_jaccard_bounds(a: OntoProfile, b: OntoProfile)
    ensures
        jaccard(a@, b@).shared <= jaccard(a@, b@).total,
{
    lemma_ids_finite(a@);
    lemma_ids_finite(b@);
    lemma_len_subset(a@.ids().intersect(b@.ids()), a@.ids().union(b@.ids()));
}

impl OntoProfile {
    /// The identifiers that occur among the nodes, each held once.
    fn id_set(&self) -> (ids: StringHashSet)
        ensures
            ids@ == self@.ids(),
    {
        let mut ids = StringHashSet::new();
        let mut i: usize = 0;
        proof {
            lemma_ids_before_ends(self@);
        }
        while i < self.nodes.len()
            invariant
                i <= self.nodes.len(),
                ids@ == ids_before(self@, i as int),
            decreases self.nodes.len() - i,
        {
            proof {
                lemma_ids_before_next(self@, i as int);
            }
            ids.insert(self.nodes[i].id.clone());
            i += 1;
        }
        proof {
            lemma_ids_before_ends(self@);
        }
        ids
    }

    /// The Jaccard distance between this profile and `other`.
    ///
    /// Only the identifiers count, and each of them once: the order of the
    /// nodes, how often an identifier occurs and what else the nodes hold make
    /// no difference. Neither profile is changed.
    pub fn jaccard_distance(&self, other: &Self) -> (distance: JaccardDistance)
        ensures
            distance@ == jaccard(self@, other@),
            distance.shared <= distance.total,
    {
        let theirs = other.id_set();
        let mut shared = StringHashSet::new();
        let mut all = other.id_set();
        let mut i: usize = 0;
        proof {
            lemma_ids_before_ends(self@);
            assert(shared@ =~= ids_before(self@, 0).intersect(other@.ids()));
            assert(all@ =~= ids_before(self@, 0).union(other@.ids()));
        }
        while i < self.nodes.len()
            invariant
                i <= self.nodes.len(),
                theirs@ == other@.ids(),
                shared@ == ids_before(self@, i as int).intersect(other@.ids()),
                all@ == ids_before(self@, i as int).union(other@.ids()),
            decreases self.nodes.len() - i,
        {
            let id = &self.nodes[i].id;
            proof {
                lemma_ids_before_next(self@, i as int);
            }
            if theirs.contains(id.as_str()) {
                shared.insert(id.clone());
            }
            all.insert(id.clone());
            i += 1;
            assert(shared@ =~= ids_before(self@, i as int).intersect(other@.ids()));
            assert(all@ =~= ids_before(self@, i as int).union(other@.ids()));
        }
        proof {
            lemma_ids_before_ends(self@);
            lemma_ids_finite(self@);
            lemma_ids_finite(other@);
            lemma_len_subset(self@.ids().intersect(other@.ids()), self@.ids().union(other@.ids()));
        }
        JaccardDistance { shared: shared.len(), total: all.len() }
    }
}

} // verus!
