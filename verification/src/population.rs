//! A bounded population of individuals, ranked by non-dominated fronts.

use crate::comparison::{fitness_order, lemma_fitness_order, order_floats, Order};
use crate::objective::{dominates, is_dominating, lemma_dominates_asymmetric, lemma_dominates_transitive};
use crate::random::{lemma_total_weight_bounds, weighted};
use rand::rngs::StdRng;
use vstd::prelude::*;

verus! {

/// A solution together with its fitness vector.
pub struct Individual<S> {
    /// One double per objective term, by its bit pattern; smaller is better.
    pub fitness: Vec<u64>,
    /// The solution that the fitness was computed from.
    pub solution: S,
}

/// The fitness vectors of a sequence of individuals, in the same order.
pub open spec fn fitnesses<S>(s: Seq<Individual<S>>) -> Seq<Seq<u64>> {
    Seq::new(s.len(), |i: int| s[i].fitness@)
}

/// Whether every vector has `terms` entries.
pub open spec fn uniform(f: Seq<Seq<u64>>, terms: nat) -> bool {
    forall|i: int| 0 <= i < f.len() ==> (#[trigger] f[i]).len() == terms
}

/// Whether no vector is dominated by one that stands after it.
pub open spec fn dominators_first(f: Seq<Seq<u64>>) -> bool {
    forall|i: int, j: int| 0 <= i < j < f.len() ==> !dominates(#[trigger] f[j], #[trigger] f[i])
}

/// The greatest front, plus one, among the first `j` vectors that dominate
/// the vector at `i`; zero where none of them does.
pub open spec fn front_scan(f: Seq<Seq<u64>>, i: nat, j: nat) -> nat
    decreases i, j,
{
    if j == 0 || j > i || i >= f.len() {
        0
    } else {
        let k = (j - 1) as nat;
        let rest = front_scan(f, i, k);
        if dominates(f[k as int], f[i as int]) && front_scan(f, k, k) + 1 > rest {
            front_scan(f, k, k) + 1
        } else {
            rest
        }
    }
}

/// The front of the vector at `i`, where dominators stand first: front 0
/// holds what nothing dominates, and every other vector stands one front
/// behind the last of its dominators.
pub open spec fn front(f: Seq<Seq<u64>>, i: nat) -> nat {
    front_scan(f, i, i)
}

/// The first place whose vector `c` dominates, or the length where there is none.
pub open spec fn insert_position(f: Seq<Seq<u64>>, c: Seq<u64>) -> nat
    decreases f.len(),
{
    if f.len() == 0 {
        0
    } else if dominates(c, f[0]) {
        0
    } else {
        1 + insert_position(f.drop_first(), c)
    }
}

/// Whether `v` is the last place among those of the greatest front.
pub open spec fn is_victim(f: Seq<Seq<u64>>, v: nat) -> bool {
    &&& v < f.len()
    &&& forall|i: nat| i < f.len() ==> #[trigger] front(f, i) <= front(f, v)
    &&& forall|i: nat| v < i < f.len() ==> #[trigger] front(f, i) < front(f, v)
}

/// A front never exceeds the number of vectors scanned.
pub proof fn lemma_front_scan_bound(f: Seq<Seq<u64>>, i: nat, j: nat)
    ensures
        front_scan(f, i, j) <= j,
    decreases i, j,
{
    if j == 0 || j > i || i >= f.len() {
    } else {
        let k = (j - 1) as nat;
        lemma_front_scan_bound(f, i, k);
        lemma_front_scan_bound(f, k, k);
    }
}

/// A vector with a dominator among the first `j` stands behind front 0,
/// and behind that dominator's front.
pub proof fn lemma_front_scan_dominated(f: Seq<Seq<u64>>, i: nat, j: nat, k: nat)
    requires
        k < j <= i < f.len(),
        dominates(f[k as int], f[i as int]),
    ensures
        front_scan(f, i, j) > front(f, k),
    decreases j,
{
    let last = (j - 1) as nat;
    if k == last {
    } else {
        lemma_front_scan_dominated(f, i, last, k);
    }
}

/// A vector without a dominator among the first `j` has a scan of zero.
pub proof fn lemma_front_scan_free(f: Seq<Seq<u64>>, i: nat, j: nat)
    requires
        forall|k: int| 0 <= k < j && k < f.len() && i < f.len() ==> !dominates(
            #[trigger] f[k],
            f[i as int],
        ),
    ensures
        front_scan(f, i, j) == 0,
    decreases j,
{
    if j == 0 || j > i || i >= f.len() {
    } else {
        let k = (j - 1) as nat;
        lemma_front_scan_free(f, i, k);
        assert(!dominates(f[k as int], f[i as int]));
    }
}

/// The insert position lies within the sequence, dominates what stands
/// there, and dominates nothing before it.
pub proof fn lemma_insert_position(f: Seq<Seq<u64>>, c: Seq<u64>)
    ensures
        insert_position(f, c) <= f.len(),
        insert_position(f, c) < f.len() ==> dominates(c, f[insert_position(f, c) as int]),
        forall|i: int| 0 <= i < insert_position(f, c) ==> !dominates(c, #[trigger] f[i]),
    decreases f.len(),
{
    if f.len() == 0 {
    } else if dominates(c, f[0]) {
    } else {
        let rest = f.drop_first();
        lemma_insert_position(rest, c);
        let p = insert_position(rest, c);
        assert forall|i: int| 0 <= i < 1 + p implies !dominates(c, #[trigger] f[i]) by {
            if i > 0 {
                assert(rest[i - 1] == f[i]);
            }
        }
        if p < rest.len() {
            assert(rest[p as int] == f[p as int + 1]);
        }
    }
}

/// Inserting a vector at its insert position keeps dominators first.
pub proof fn lemma_insert_keeps_order(f: Seq<Seq<u64>>, c: Seq<u64>, terms: nat)
    requires
        uniform(f, terms),
        c.len() == terms,
        dominators_first(f),
    ensures
        dominators_first(f.insert(insert_position(f, c) as int, c)),
        uniform(f.insert(insert_position(f, c) as int, c), terms),
{
    lemma_insert_position(f, c);
    let p = insert_position(f, c) as int;
    let g = f.insert(p, c);
    assert forall|i: int, j: int| 0 <= i < j < g.len() implies !dominates(
        #[trigger] g[j],
        #[trigger] g[i],
    ) by {
        if j == p {
            // c stands behind g[i] = f[i], which it does not dominate
            assert(g[i] == f[i]);
        } else if i == p {
            // g[j] = f[j - 1] stands behind c; were it to dominate c, it
            // would dominate f[p] too, which stands before it or is itself
            assert(g[j] == f[j - 1]);
            if dominates(g[j], c) {
                lemma_dominates_transitive(f[j - 1], c, f[p]);
                if j - 1 == p {
                    lemma_dominates_asymmetric(c, f[p]);
                } else {
                    assert(!dominates(f[j - 1], f[p]));
                }
            }
        } else {
            let oi = if i < p { i } else { i - 1 };
            let oj = if j < p { j } else { j - 1 };
            assert(g[i] == f[oi]);
            assert(g[j] == f[oj]);
            assert(!dominates(f[oj], f[oi]));
        }
    }
    assert forall|i: int| 0 <= i < g.len() implies (#[trigger] g[i]).len() == terms by {
        if i < p {
            assert(g[i] == f[i]);
        } else if i > p {
            assert(g[i] == f[i - 1]);
        }
    }
}

/// Removing a vector keeps dominators first.
pub proof fn lemma_remove_keeps_order(f: Seq<Seq<u64>>, v: int, terms: nat)
    requires
        0 <= v < f.len(),
        uniform(f, terms),
        dominators_first(f),
    ensures
        dominators_first(f.remove(v)),
        uniform(f.remove(v), terms),
{
    let g = f.remove(v);
    assert forall|i: int, j: int| 0 <= i < j < g.len() implies !dominates(
        #[trigger] g[j],
        #[trigger] g[i],
    ) by {
        let oi = if i < v { i } else { i + 1 };
        let oj = if j < v { j } else { j + 1 };
        assert(g[i] == f[oi]);
        assert(g[j] == f[oj]);
        assert(!dominates(f[oj], f[oi]));
    }
    assert forall|i: int| 0 <= i < g.len() implies (#[trigger] g[i]).len() == terms by {
        let oi = if i < v { i } else { i + 1 };
        assert(g[i] == f[oi]);
    }
}

/// Only one place is first among those whose vector `c` dominates.
pub proof fn lemma_insert_position_unique(f: Seq<Seq<u64>>, c: Seq<u64>, p: nat)
    requires
        p <= f.len(),
        p < f.len() ==> dominates(c, f[p as int]),
        forall|i: int| 0 <= i < p ==> !dominates(c, #[trigger] f[i]),
    ensures
        p == insert_position(f, c),
{
    lemma_insert_position(f, c);
    let q = insert_position(f, c);
    if q < p {
        assert(!dominates(c, f[q as int]));
    }
}

/// Of a sequence only one place is the victim.
pub proof fn lemma_victim_unique(f: Seq<Seq<u64>>, v: nat, w: nat)
    requires
        is_victim(f, v),
        is_victim(f, w),
    ensures
        v == w,
{
    if v < w {
        assert(front(f, w) < front(f, v));
        assert(front(f, v) <= front(f, w));
    }
    if w < v {
        assert(front(f, v) < front(f, w));
        assert(front(f, w) <= front(f, v));
    }
}

/// The fitness vectors follow an insertion.
pub proof fn lemma_fitnesses_insert<S>(s: Seq<Individual<S>>, p: int, c: Individual<S>)
    requires
        0 <= p <= s.len(),
    ensures
        fitnesses(s.insert(p, c)) == fitnesses(s).insert(p, c.fitness@),
{
    assert(fitnesses(s.insert(p, c)) =~= fitnesses(s).insert(p, c.fitness@));
}

/// The fitness vectors follow a removal.
pub proof fn lemma_fitnesses_remove<S>(s: Seq<Individual<S>>, v: int)
    requires
        0 <= v < s.len(),
    ensures
        fitnesses(s.remove(v)) == fitnesses(s).remove(v),
{
    assert(fitnesses(s.remove(v)) =~= fitnesses(s).remove(v));
}

/// What offering `candidate` makes of the individuals `before`, under the
/// limit `limit` and for fitness vectors of `terms` entries.
pub open spec fn is_added<S>(
    before: Seq<Individual<S>>,
    limit: nat,
    terms: nat,
    candidate: Individual<S>,
    after: Seq<Individual<S>>,
    accepted: bool,
) -> bool {
    if candidate.fitness@.len() != terms {
        !accepted && after == before
    } else {
        let p = insert_position(fitnesses(before), candidate.fitness@) as int;
        let all = before.insert(p, candidate);
        if all.len() <= limit {
            accepted && after == all
        } else {
            exists|v: nat|
                is_victim(fitnesses(all), v) && after == all.remove(v as int) && accepted == (v
                    != p)
        }
    }
}

/// A candidate that dominates every individual stays when it is offered,
/// and stands first, as long as the population may hold one individual
/// at all and the candidate's fitness has the right number of entries.
pub proof fn lemma_dominating_candidate_stays<S>(
    before: Seq<Individual<S>>,
    limit: nat,
    terms: nat,
    candidate: Individual<S>,
    after: Seq<Individual<S>>,
    accepted: bool,
)
    requires
        limit >= 1,
        candidate.fitness@.len() == terms,
        forall|i: int|
            0 <= i < before.len() ==> dominates(candidate.fitness@, (#[trigger] before[i]).fitness@),
        is_added(before, limit, terms, candidate, after, accepted),
    ensures
        accepted,
        after.len() >= 1,
        after[0] == candidate,
{
    let f = fitnesses(before);
    let c = candidate.fitness@;
    lemma_insert_position(f, c);
    if before.len() > 0 {
        assert(dominates(c, before[0].fitness@));
        assert(f[0] == before[0].fitness@);
    }
    assert(insert_position(f, c) == 0);
    let all = before.insert(0, candidate);
    assert(all[0] == candidate);
    if all.len() > limit {
        let v = choose|v: nat|
            is_victim(fitnesses(all), v) && after == all.remove(v as int) && accepted == (v
                != 0);
        let g = fitnesses(all);
        lemma_fitnesses_insert(before, 0, candidate);
        assert(g[0] == c);
        assert(g[1] == f[0]);
        assert(dominates(g[0], g[1]));
        lemma_front_scan_dominated(g, 1, 1, 0);
        lemma_front_scan_free(g, 0, 0);
        assert(front(g, 1) > 0);
        assert(front(g, 0) == 0);
        assert(front(g, 1) <= front(g, v));
        assert(v != 0);
    }
}

/// Whether `v` is the place that leaves by crowding: of the places of
/// the greatest front one with the least crowding distance, and of these the last.
pub open spec fn is_crowded_victim(f: Seq<Seq<u64>>, distances: Seq<u64>, v: nat) -> bool {
    &&& v < f.len()
    &&& distances.len() == f.len()
    &&& forall|i: nat| i < f.len() ==> #[trigger] front(f, i) <= front(f, v)
    &&& forall|i: nat|
        i < f.len() && #[trigger] front(f, i) == front(f, v) ==> fitness_order(
            distances[v as int],
            distances[i as int],
        ) != Order::Greater
    &&& forall|i: nat|
        v < i < f.len() && #[trigger] front(f, i) == front(f, v) ==> fitness_order(
            distances[v as int],
            distances[i as int],
        ) == Order::Less
}

/// What offering `candidate` makes of the individuals `before` where the
/// one that leaves is chosen by the crowding distances `distances` of the
/// individuals with the candidate among them.
pub open spec fn is_added_by<S>(
    before: Seq<Individual<S>>,
    limit: nat,
    terms: nat,
    candidate: Individual<S>,
    distances: Seq<u64>,
    after: Seq<Individual<S>>,
    accepted: bool,
) -> bool {
    let p = insert_position(fitnesses(before), candidate.fitness@) as int;
    let all = before.insert(p, candidate);
    exists|v: nat|
        is_crowded_victim(fitnesses(all), distances, v) && after == all.remove(v as int)
            && accepted == (v != p)
}

/// A candidate that dominates every individual stays, and stands first,
/// also where the one that leaves is chosen by crowding.
pub proof fn lemma_dominating_candidate_stays_crowded<S>(
    before: Seq<Individual<S>>,
    limit: nat,
    terms: nat,
    candidate: Individual<S>,
    distances: Seq<u64>,
    after: Seq<Individual<S>>,
    accepted: bool,
)
    requires
        before.len() >= 1,
        forall|i: int|
            0 <= i < before.len() ==> dominates(candidate.fitness@, (#[trigger] before[i]).fitness@),
        is_added_by(before, limit, terms, candidate, distances, after, accepted),
    ensures
        accepted,
        after.len() >= 1,
        after[0] == candidate,
{
    let f = fitnesses(before);
    let c = candidate.fitness@;
    lemma_insert_position(f, c);
    assert(dominates(c, before[0].fitness@));
    assert(f[0] == before[0].fitness@);
    assert(insert_position(f, c) == 0);
    let all = before.insert(0, candidate);
    assert(all[0] == candidate);
    let v = choose|v: nat|
        is_crowded_victim(fitnesses(all), distances, v) && after == all.remove(v as int)
            && accepted == (v != 0);
    let g = fitnesses(all);
    lemma_fitnesses_insert(before, 0, candidate);
    assert(g[0] == c);
    assert(g[1] == f[0]);
    assert(dominates(g[0], g[1]));
    lemma_front_scan_dominated(g, 1, 1, 0);
    lemma_front_scan_free(g, 0, 0);
    assert(front(g, 1) > 0);
    assert(front(g, 0) == 0);
    assert(front(g, 1) <= front(g, v));
    assert(v != 0);
}

fn least_crowded(ranks: &Vec<usize>, distances: &Vec<u64>) -> (v: usize)
    requires
        ranks@.len() > 0,
        distances@.len() == ranks@.len(),
    ensures
        v < ranks@.len(),
        forall|i: int| 0 <= i < ranks@.len() ==> ranks@[i] <= ranks@[v as int],
        forall|i: int|
            0 <= i < ranks@.len() && ranks@[i] == ranks@[v as int] ==> fitness_order(
                distances@[v as int],
                #[trigger] distances@[i],
            ) != Order::Greater,
        forall|i: int|
            v < i < ranks@.len() && ranks@[i] == ranks@[v as int] ==> fitness_order(
                distances@[v as int],
                #[trigger] distances@[i],
            ) == Order::Less,
{
    let n: usize = ranks.len();
    let mut v: usize = 0;
    let mut i: usize = 1;
    proof {
        lemma_fitness_order(distances@[0], distances@[0], distances@[0]);
    }
    while i < n
        invariant
            1 <= i <= n,
            v < i,
            n == ranks@.len(),
            n == distances@.len(),
            forall|k: int| 0 <= k < i ==> ranks@[k] <= ranks@[v as int],
            forall|k: int|
                0 <= k < i && ranks@[k] == ranks@[v as int] ==> fitness_order(
                    distances@[v as int],
                    #[trigger] distances@[k],
                ) != Order::Greater,
            forall|k: int|
                v < k < i && ranks@[k] == ranks@[v as int] ==> fitness_order(
                    distances@[v as int],
                    #[trigger] distances@[k],
                ) == Order::Less,
        decreases n - i,
    {
        let ghost old_v = v;
        if ranks[i] > ranks[v] {
            v = i;
            proof {
                lemma_fitness_order(distances@[i as int], distances@[i as int], distances@[i as int]);
            }
        } else if ranks[i] == ranks[v] {
            match order_floats(distances[i], distances[v]) {
                Order::Greater => {
                    proof {
                        lemma_fitness_order(
                            distances@[i as int],
                            distances@[v as int],
                            distances@[v as int],
                        );
                    }
                },
                _ => {
                    v = i;
                    proof {
                        assert forall|k: int|
                            0 <= k < i + 1 && ranks@[k] == ranks@[i as int] implies fitness_order(
                            distances@[i as int],
                            #[trigger] distances@[k],
                        ) != Order::Greater by {
                            if k < i {
                                lemma_fitness_order(
                                    distances@[i as int],
                                    distances@[old_v as int],
                                    distances@[k],
                                );
                            } else {
                                lemma_fitness_order(
                                    distances@[i as int],
                                    distances@[i as int],
                                    distances@[i as int],
                                );
                            }
                        }
                    }
                },
            }
        }
        i = i + 1;
    }
    v
}

/// A population of at most `limit()` individuals whose fitness vectors
/// have `terms()` entries each. A dominator always stands before what it
/// dominates, so the first individual belongs to front 0.
pub struct DominancePopulation<S> {
    max_size: usize,
    terms: usize,
    individuals: Vec<Individual<S>>,
}

impl<S> DominancePopulation<S> {
    /// The individuals, in their standing order.
    pub closed spec fn view(&self) -> Seq<Individual<S>> {
        self.individuals@
    }

    /// The greatest number of individuals that are kept.
    pub closed spec fn limit(&self) -> nat {
        self.max_size as nat
    }

    /// The number of entries of every fitness vector.
    pub closed spec fn terms(&self) -> nat {
        self.terms as nat
    }

    /// What every population satisfies between two calls.
    pub open spec fn wf(&self) -> bool {
        &&& self@.len() <= self.limit()
        &&& uniform(fitnesses(self@), self.terms())
        &&& dominators_first(fitnesses(self@))
    }

    /// Creates an empty population.
    pub fn new(terms: usize, max_size: usize) -> (r: Self)
        ensures
            r.wf(),
            r@.len() == 0,
            r.limit() == max_size,
            r.terms() == terms,
    {
        DominancePopulation { max_size, terms, individuals: Vec::new() }
    }

    /// The number of individuals.
    pub fn size(&self) -> (r: usize)
        ensures
            r == self@.len(),
    {
        self.individuals.len()
    }

    /// The greatest number of individuals that are kept.
    pub fn max_size(&self) -> (r: usize)
        ensures
            r == self.limit(),
    {
        self.max_size
    }

    /// The number of entries that a fitness vector must have.
    pub fn fitness_len(&self) -> (r: usize)
        ensures
            r == self.terms(),
    {
        self.terms
    }

    /// The individual at a place of the standing order.
    pub fn get(&self, index: usize) -> (r: Option<&Individual<S>>)
        ensures
            index < self@.len() ==> r == Some(&self@[index as int]),
            index >= self@.len() ==> r is None,
    {
        if index < self.individuals.len() {
            Some(&self.individuals[index])
        } else {
            None
        }
    }

    /// Offers a candidate as `add` does, but where one individual has to
    /// leave, it is chosen by crowding: `crowding` is asked for the
    /// crowding distance of each individual, given the individuals with
    /// the candidate among them and the front of each, and of the
    /// greatest front the last individual with the least distance
    /// leaves. Where `crowding` gives another number of distances than
    /// there are individuals, the last individual of the greatest front leaves.
    pub fn add_crowded<F: Fn(&Vec<Individual<S>>, &Vec<usize>) -> Vec<u64>>(
        &mut self,
        candidate: Individual<S>,
        crowding: F,
    ) -> (accepted: bool)
        requires
            old(self).wf(),
            forall|members: &Vec<Individual<S>>, fronts: &Vec<usize>|
                crowding.requires((members, fronts)),
        ensures
            final(self).wf(),
            final(self).limit() == old(self).limit(),
            final(self).terms() == old(self).terms(),
            final(self)@.len() <= old(self)@.len() + 1,
            candidate.fitness@.len() != old(self).terms() || old(self)@.len() < old(self).limit()
                ==> is_added(
                old(self)@,
                old(self).limit(),
                old(self).terms(),
                candidate,
                final(self)@,
                accepted,
            ),
            candidate.fitness@.len() == old(self).terms() && old(self)@.len() >= old(self).limit()
                ==> exists|members: Vec<Individual<S>>, fronts: Vec<usize>, distances: Vec<u64>|
                {
                    &&& members@ == old(self)@.insert(
                        insert_position(fitnesses(old(self)@), candidate.fitness@) as int,
                        candidate,
                    )
                    &&& fronts@.len() == members@.len()
                    &&& forall|i: int|
                        0 <= i < fronts@.len() ==> #[trigger] fronts@[i] == front(
                            fitnesses(members@),
                            i as nat,
                        )
                    &&& #[trigger] crowding.ensures((&members, &fronts), distances)
                    &&& if distances@.len() == members@.len() {
                        is_added_by(
                            old(self)@,
                            old(self).limit(),
                            old(self).terms(),
                            candidate,
                            distances@,
                            final(self)@,
                            accepted,
                        )
                    } else {
                        is_added(
                            old(self)@,
                            old(self).limit(),
                            old(self).terms(),
                            candidate,
                            final(self)@,
                            accepted,
                        )
                    }
                },
    {
        if candidate.fitness.len() != self.terms {
            return false;
        }
        if self.individuals.len() < self.max_size {
            return self.add(candidate);
        }
        let ghost before = self.individuals@;
        let ghost f = fitnesses(before);
        let ghost c = candidate.fitness@;
        let n: usize = self.individuals.len();
        let mut p: usize = 0;
        while p < n && !is_dominating(&candidate.fitness, &self.individuals[p].fitness)
            invariant
                p <= n,
                n == self.individuals@.len(),
                self.individuals@ == before,
                f == fitnesses(before),
                c == candidate.fitness@,
                forall|i: int| 0 <= i < p ==> !dominates(c, #[trigger] f[i]),
            decreases n - p,
        {
            p = p + 1;
        }
        proof {
            lemma_insert_position_unique(f, c, p as nat);
            lemma_insert_keeps_order(f, c, self.terms as nat);
            lemma_fitnesses_insert(before, p as int, candidate);
        }
        let ghost all = before.insert(p as int, candidate);
        let ghost g = fitnesses(all);
        self.individuals.insert(p, candidate);
        let ranks = fronts_of(&self.individuals);
        let distances = crowding(&self.individuals, &ranks);
        let ghost members = self.individuals;
        let v: usize = if distances.len() == ranks.len() {
            let v = least_crowded(&ranks, &distances);
            proof {
                assert(ranks@[v as int] == front(g, v as nat));
                assert forall|i: nat| i < g.len() implies #[trigger] front(g, i) <= front(
                    g,
                    v as nat,
                ) by {
                    assert(ranks@[i as int] == front(g, i));
                }
                assert forall|i: nat|
                    i < g.len() && #[trigger] front(g, i) == front(g, v as nat) implies fitness_order(
                    distances@[v as int],
                    distances@[i as int],
                ) != Order::Greater by {
                    assert(ranks@[i as int] == front(g, i));
                }
                assert forall|i: nat|
                    v < i < g.len() && #[trigger] front(g, i) == front(
                        g,
                        v as nat,
                    ) implies fitness_order(distances@[v as int], distances@[i as int])
                    == Order::Less by {
                    assert(ranks@[i as int] == front(g, i));
                }
                assert(is_crowded_victim(g, distances@, v as nat));
            }
            v
        } else {
            let m: usize = self.individuals.len();
            let mut v: usize = 0;
            let mut i: usize = 1;
            while i < m
                invariant
                    1 <= i <= m,
                    v < i,
                    m == ranks@.len(),
                    forall|k: int| 0 <= k < i ==> ranks@[k] <= ranks@[v as int],
                    forall|k: int| v < k < i ==> ranks@[k] < ranks@[v as int],
                decreases m - i,
            {
                if ranks[i] >= ranks[v] {
                    v = i;
                }
                i = i + 1;
            }
            proof {
                assert(ranks@[v as int] == front(g, v as nat));
                assert forall|k: nat| k < g.len() implies #[trigger] front(g, k) <= front(
                    g,
                    v as nat,
                ) by {
                    assert(ranks@[k as int] == front(g, k));
                }
                assert forall|k: nat| v < k < g.len() implies #[trigger] front(g, k) < front(
                    g,
                    v as nat,
                ) by {
                    assert(ranks@[k as int] == front(g, k));
                }
                assert(is_victim(g, v as nat));
            }
            v
        };
        proof {
            lemma_remove_keeps_order(g, v as int, self.terms as nat);
            lemma_fitnesses_remove(all, v as int);
        }
        let _ = self.individuals.remove(v);
        proof {
            assert(crowding.ensures((&members, &ranks), distances));
        }
        v != p
    }

    /// The front of each individual, in the standing order.
    pub fn fronts(&self) -> (r: Vec<usize>)
        ensures
            r@.len() == self@.len(),
            forall|i: int| 0 <= i < r@.len() ==> #[trigger] r@[i] == front(fitnesses(self@), i as nat),
    {
        fronts_of(&self.individuals)
    }

    /// Offers a candidate. One whose fitness vector has another number of
    /// entries than the population asks for is turned away. Any other is
    /// placed before the first individual that it dominates, or last where
    /// it dominates none. Where that makes one too many, the last
    /// individual of the greatest front leaves, which may be the candidate.
    /// Tells whether the candidate stayed.
    ///
    /// A candidate that dominates every individual stays, and stands first,
    /// as long as the population may hold one individual at all.
    pub fn add(&mut self, candidate: Individual<S>) -> (accepted: bool)
        requires
            old(self).wf(),
        ensures
            final(self).wf(),
            final(self).limit() == old(self).limit(),
            final(self).terms() == old(self).terms(),
            is_added(
                old(self)@,
                old(self).limit(),
                old(self).terms(),
                candidate,
                final(self)@,
                accepted,
            ),
            final(self)@.len() <= old(self)@.len() + 1,
            candidate.fitness@.len() == old(self).terms() && old(self).limit() >= 1 && (forall|
                i: int,
            |
                0 <= i < old(self)@.len() ==> dominates(
                    candidate.fitness@,
                    #[trigger] old(self)@[i].fitness@,
                )) ==> accepted && final(self)@.len() >= 1 && final(self)@[0] == candidate,
    {
        if candidate.fitness.len() != self.terms {
            return false;
        }
        let ghost before = self.individuals@;
        let ghost f = fitnesses(before);
        let ghost c = candidate.fitness@;
        let n: usize = self.individuals.len();
        let mut p: usize = 0;
        while p < n && !is_dominating(&candidate.fitness, &self.individuals[p].fitness)
            invariant
                p <= n,
                n == self.individuals@.len(),
                self.individuals@ == before,
                f == fitnesses(before),
                c == candidate.fitness@,
                forall|i: int| 0 <= i < p ==> !dominates(c, #[trigger] f[i]),
            decreases n - p,
        {
            p = p + 1;
        }
        proof {
            lemma_insert_position_unique(f, c, p as nat);
            lemma_insert_keeps_order(f, c, self.terms as nat);
            lemma_fitnesses_insert(before, p as int, candidate);
        }
        let ghost all = before.insert(p as int, candidate);
        let ghost g = fitnesses(all);
        self.individuals.insert(p, candidate);
        if self.individuals.len() > self.max_size {
            let ranks = fronts_of(&self.individuals);
            let m: usize = self.individuals.len();
            let mut v: usize = 0;
            let mut i: usize = 1;
            while i < m
                invariant
                    1 <= i <= m,
                    v < i,
                    m == ranks@.len(),
                    forall|k: int| 0 <= k < i ==> ranks@[k] <= ranks@[v as int],
                    forall|k: int| v < k < i ==> ranks@[k] < ranks@[v as int],
                decreases m - i,
            {
                if ranks[i] >= ranks[v] {
                    v = i;
                }
                i = i + 1;
            }
            proof {
                assert(self.individuals@ == all);
                assert(ranks@[v as int] == front(g, v as nat));
                assert forall|k: nat| k < g.len() implies #[trigger] front(g, k) <= front(
                    g,
                    v as nat,
                ) by {
                    assert(ranks@[k as int] == front(g, k));
                }
                assert forall|k: nat| v < k < g.len() implies #[trigger] front(g, k) < front(
                    g,
                    v as nat,
                ) by {
                    assert(ranks@[k as int] == front(g, k));
                }
                assert(is_victim(g, v as nat));
                lemma_remove_keeps_order(g, v as int, self.terms as nat);
                lemma_fitnesses_remove(all, v as int);
                if forall|i: int|
                    0 <= i < before.len() ==> dominates(c, #[trigger] before[i].fitness@) {
                    if before.len() > 0 {
                        assert(dominates(c, before[0].fitness@));
                        assert(f[0] == before[0].fitness@);
                        assert(p == 0);
                        assert(dominates(g[0], g[1]));
                        lemma_front_scan_dominated(g, 1, 1, 0);
                        lemma_front_scan_free(g, 0, 0);
                        assert(front(g, 1) > 0);
                        assert(front(g, 0) == 0);
                        assert(v != 0);
                    }
                }
            }
            let _ = self.individuals.remove(v);
            v != p
        } else {
            true
        }
    }
}

/// Computes the front of each individual of a sequence where dominators stand first.
fn fronts_of<S>(individuals: &Vec<Individual<S>>) -> (r: Vec<usize>)
    ensures
        r@.len() == individuals@.len(),
        forall|i: int|
            0 <= i < r@.len() ==> #[trigger] r@[i] == front(fitnesses(individuals@), i as nat),
{
    let ghost f = fitnesses(individuals@);
    let n: usize = individuals.len();
    let mut ranks: Vec<usize> = Vec::new();
    let mut i: usize = 0;
    while i < n
        invariant
            i <= n,
            n == individuals@.len(),
            f == fitnesses(individuals@),
            ranks@.len() == i,
            forall|k: int| 0 <= k < i ==> #[trigger] ranks@[k] == front(f, k as nat),
        decreases n - i,
    {
        let mut rank: usize = 0;
        let mut j: usize = 0;
        while j < i
            invariant
                j <= i < n,
                n == individuals@.len(),
                f == fitnesses(individuals@),
                ranks@.len() == i,
                forall|k: int| 0 <= k < i ==> #[trigger] ranks@[k] == front(f, k as nat),
                rank == front_scan(f, i as nat, j as nat),
            decreases i - j,
        {
            proof {
                lemma_front_scan_bound(f, j as nat, j as nat);
            }
            if is_dominating(&individuals[j].fitness, &individuals[i].fitness) && ranks[j] + 1
                > rank {
                rank = ranks[j] + 1;
            }
            j = j + 1;
        }
        ranks.push(rank);
        i = i + 1;
    }
    ranks
}

/// Whether the vector at `a` stands before the vector at `b` in the
/// ranking: it does with a smaller front, and within one front with the
/// earlier place.
pub open spec fn ranks_before(f: Seq<Seq<u64>>, a: nat, b: nat) -> bool {
    front(f, a) < front(f, b) || (front(f, a) == front(f, b) && a < b)
}

/// Whether the order holds the place.
pub open spec fn holds_place(order: Seq<usize>, place: int) -> bool {
    exists|k: int| 0 <= k < order.len() && #[trigger] order[k] == place
}

/// Whether `order` ranks the vectors: it holds each place, a place of a
/// smaller front before one of a greater front, and the places of one
/// front as they stand; so it holds no place twice.
pub open spec fn is_ranking(f: Seq<Seq<u64>>, order: Seq<usize>) -> bool {
    &&& forall|k: int| 0 <= k < order.len() ==> (#[trigger] order[k]) < f.len()
    &&& forall|k: int, l: int|
        0 <= k < l < order.len() ==> ranks_before(f, #[trigger] order[k] as nat, #[trigger] order[l] as nat)
    &&& forall|i: int| 0 <= i < f.len() ==> #[trigger] holds_place(order, i)
}

/// Whether the ranking has got to the place `i` when it gathers the
/// places of the front `rank` and has looked at those before `at`.
pub open spec fn is_gathered(f: Seq<Seq<u64>>, rank: nat, at: nat, i: nat) -> bool {
    front(f, i) < rank || (front(f, i) == rank && i < at)
}

impl<S> DominancePopulation<S> {
    /// The places of the individuals in the order of their fronts; within
    /// a front, in their standing order.
    pub fn ranked(&self) -> (r: Vec<usize>)
        ensures
            is_ranking(fitnesses(self@), r@),
    {
        let ghost f = fitnesses(self@);
        let ranks = fronts_of(&self.individuals);
        let n: usize = self.individuals.len();
        let mut order: Vec<usize> = Vec::new();
        let mut rank: usize = 0;
        while rank < n
            invariant
                rank <= n,
                n == f.len(),
                n == ranks@.len(),
                f == fitnesses(self@),
                forall|i: int| 0 <= i < n ==> #[trigger] ranks@[i] == front(f, i as nat),
                forall|k: int| 0 <= k < order@.len() ==> (#[trigger] order@[k]) < n && is_gathered(
                    f,
                    rank as nat,
                    0,
                    order@[k] as nat,
                ),
                forall|k: int, l: int|
                    0 <= k < l < order@.len() ==> ranks_before(
                        f,
                        #[trigger] order@[k] as nat,
                        #[trigger] order@[l] as nat,
                    ),
                forall|i: int|
                    0 <= i < n && is_gathered(f, rank as nat, 0, i as nat) ==> #[trigger] holds_place(
                        order@,
                        i,
                    ),
            decreases n - rank,
        {
            let mut i: usize = 0;
            while i < n
                invariant
                    i <= n,
                    rank < n,
                    n == f.len(),
                    n == ranks@.len(),
                    forall|j: int| 0 <= j < n ==> #[trigger] ranks@[j] == front(f, j as nat),
                    forall|k: int|
                        0 <= k < order@.len() ==> (#[trigger] order@[k]) < n && is_gathered(
                            f,
                            rank as nat,
                            i as nat,
                            order@[k] as nat,
                        ),
                    forall|k: int, l: int|
                        0 <= k < l < order@.len() ==> ranks_before(
                            f,
                            #[trigger] order@[k] as nat,
                            #[trigger] order@[l] as nat,
                        ),
                    forall|j: int|
                        0 <= j < n && is_gathered(f, rank as nat, i as nat, j as nat)
                            ==> #[trigger] holds_place(order@, j),
                decreases n - i,
            {
                if ranks[i] == rank {
                    let ghost before = order@;
                    order.push(i);
                    proof {
                        assert forall|k: int, l: int| 0 <= k < l < order@.len() implies ranks_before(
                            f,
                            #[trigger] order@[k] as nat,
                            #[trigger] order@[l] as nat,
                        ) by {
                            if l == before.len() {
                                assert(order@[k] == before[k]);
                                assert(is_gathered(f, rank as nat, i as nat, before[k] as nat));
                            } else {
                                assert(order@[k] == before[k]);
                                assert(order@[l] == before[l]);
                            }
                        }
                        assert forall|j: int|
                            0 <= j < n && is_gathered(
                                f,
                                rank as nat,
                                (i + 1) as nat,
                                j as nat,
                            ) implies #[trigger] holds_place(order@, j) by {
                            if j == i {
                                assert(order@[before.len() as int] == j);
                            } else {
                                assert(is_gathered(f, rank as nat, i as nat, j as nat));
                                assert(holds_place(before, j));
                                let k = choose|k: int|
                                    0 <= k < before.len() && #[trigger] before[k] == j;
                                assert(order@[k] == j);
                            }
                        }
                        assert forall|k: int| 0 <= k < order@.len() implies (
                        #[trigger] order@[k]) < n && is_gathered(
                            f,
                            rank as nat,
                            (i + 1) as nat,
                            order@[k] as nat,
                        ) by {
                            if k < before.len() {
                                assert(order@[k] == before[k]);
                            }
                        }
                    }
                }
                i = i + 1;
            }
            rank = rank + 1;
        }
        proof {
            assert forall|i: int| 0 <= i < f.len() implies #[trigger] holds_place(order@, i) by {
                lemma_front_scan_bound(f, i as nat, i as nat);
                assert(is_gathered(f, rank as nat, 0, i as nat));
            }
        }
        order
    }

    /// Selects a parent at random and gives its place: an individual of
    /// the population, those of earlier fronts with a greater chance. There
    /// is none in a population without individuals, nor where the
    /// population is so large that the chances do not add up to a machine number.
    pub fn select(&self, rng: &mut StdRng) -> (r: Option<usize>)
        ensures
            r matches Some(index) ==> index < self@.len(),
            self@.len() == 0 ==> r is None,
            0 < self@.len() && self@.len() * self@.len() <= usize::MAX ==> r is Some,
    {
        let ranks = fronts_of(&self.individuals);
        let n: usize = self.individuals.len();
        let mut weights: Vec<usize> = Vec::new();
        let mut i: usize = 0;
        while i < n
            invariant
                i <= n,
                n == ranks@.len(),
                n == self@.len(),
                weights@.len() == i,
                forall|k: int|
                    0 <= k < n ==> #[trigger] ranks@[k] == front(fitnesses(self@), k as nat),
                forall|k: int| 0 <= k < i ==> 1 <= #[trigger] weights@[k] <= n,
            decreases n - i,
        {
            proof {
                lemma_front_scan_bound(fitnesses(self@), i as nat, i as nat);
            }
            weights.push(n - ranks[i]);
            i = i + 1;
        }
        proof {
            lemma_total_weight_bounds(weights@, 1, n as nat);
        }
        weighted(rng, &weights)
    }
}

/// Whether the place `a` stands before the place `b` in the ranking by
/// crowding: with a smaller front; within one front with the greater
/// crowding distance; and with equal distances with the earlier place.
pub open spec fn crowds_before(ranks: Seq<usize>, distances: Seq<u64>, a: int, b: int) -> bool {
    ranks[a] < ranks[b] || (ranks[a] == ranks[b] && (fitness_order(distances[a], distances[b])
        == Order::Greater || (fitness_order(distances[a], distances[b]) == Order::Equal && a
        < b)))
}

/// The front of each vector, in the vectors' order.
pub open spec fn fronts(f: Seq<Seq<u64>>) -> Seq<usize> {
    Seq::new(f.len(), |i: int| front(f, i as nat) as usize)
}

/// Whether `order` ranks the vectors by front and crowding: it holds
/// each place, and each place stands before those that follow it.
pub open spec fn is_crowded_ranking(f: Seq<Seq<u64>>, distances: Seq<u64>, order: Seq<usize>) -> bool {
    &&& distances.len() == f.len()
    &&& forall|k: int| 0 <= k < order.len() ==> (#[trigger] order[k]) < f.len()
    &&& forall|k: int, l: int|
        0 <= k < l < order.len() ==> crowds_before(
            fronts(f),
            distances,
            #[trigger] order[k] as int,
            #[trigger] order[l] as int,
        )
    &&& forall|i: int| 0 <= i < f.len() ==> #[trigger] holds_place(order, i)
}

/// Of two different places one stands before the other, and standing
/// before is transitive.
pub proof fn lemma_crowds_before(ranks: Seq<usize>, distances: Seq<u64>, a: int, b: int, c: int)
    ensures
        a != b ==> crowds_before(ranks, distances, a, b) || crowds_before(ranks, distances, b, a),
        crowds_before(ranks, distances, a, b) && crowds_before(ranks, distances, b, c)
            ==> crowds_before(ranks, distances, a, c),
{
    lemma_fitness_order(distances[a], distances[b], distances[c]);
    lemma_fitness_order(distances[b], distances[a], distances[c]);
}

fn goes_before(ranks: &Vec<usize>, distances: &Vec<u64>, a: usize, b: usize) -> (r: bool)
    requires
        a < ranks@.len(),
        b < ranks@.len(),
        distances@.len() == ranks@.len(),
    ensures
        r == crowds_before(ranks@, distances@, a as int, b as int),
{
    if ranks[a] < ranks[b] {
        true
    } else if ranks[a] == ranks[b] {
        match order_floats(distances[a], distances[b]) {
            Order::Greater => true,
            Order::Equal => a < b,
            Order::Less => false,
        }
    } else {
        false
    }
}

impl<S> DominancePopulation<S> {
    /// The places of the individuals in the order of their fronts and,
    /// within a front, of their crowding distances, the greatest first.
    /// Where there is not one distance for each individual, the
    /// individuals of a front come in their standing order.
    pub fn ranked_by(&self, distances: &Vec<u64>) -> (r: Vec<usize>)
        ensures
            distances@.len() == self@.len() ==> r@.len() == self@.len() && is_crowded_ranking(
                fitnesses(self@),
                distances@,
                r@,
            ),
            distances@.len() != self@.len() ==> is_ranking(fitnesses(self@), r@),
    {
        if distances.len() != self.individuals.len() {
            return self.ranked();
        }
        let ghost f = fitnesses(self@);
        let ranks = fronts_of(&self.individuals);
        proof {
            assert(ranks@ =~= fronts(f));
        }
        let n: usize = self.individuals.len();
        let mut order: Vec<usize> = Vec::new();
        let mut i: usize = 0;
        while i < n
            invariant
                i <= n,
                n == ranks@.len(),
                n == distances@.len(),
                n == f.len(),
                ranks@ == fronts(f),
                order@.len() == i,
                forall|k: int| 0 <= k < order@.len() ==> (#[trigger] order@[k]) < i,
                forall|k: int, l: int|
                    0 <= k < l < order@.len() ==> crowds_before(
                        ranks@,
                        distances@,
                        #[trigger] order@[k] as int,
                        #[trigger] order@[l] as int,
                    ),
                forall|j: int| 0 <= j < i ==> #[trigger] holds_place(order@, j),
            decreases n - i,
        {
            let mut at: usize = 0;
            while at < order.len() && !goes_before(&ranks, distances, i, order[at])
                invariant
                    at <= order@.len(),
                    i < n,
                    n == ranks@.len(),
                    n == distances@.len(),
                    order@.len() == i,
                    forall|k: int| 0 <= k < order@.len() ==> (#[trigger] order@[k]) < i,
                    forall|k: int|
                        0 <= k < at ==> !crowds_before(
                            ranks@,
                            distances@,
                            i as int,
                            #[trigger] order@[k] as int,
                        ),
                decreases order@.len() - at,
            {
                at = at + 1;
            }
            let ghost before = order@;
            order.insert(at, i);
            proof {
                assert forall|k: int, l: int| 0 <= k < l < order@.len() implies crowds_before(
                    ranks@,
                    distances@,
                    #[trigger] order@[k] as int,
                    #[trigger] order@[l] as int,
                ) by {
                    let ok = if k < at {
                        k
                    } else {
                        k - 1
                    };
                    let ol = if l < at {
                        l
                    } else {
                        l - 1
                    };
                    if k == at {
                        assert(order@[l] == before[ol]);
                        assert(crowds_before(ranks@, distances@, i as int, before[at as int] as int));
                        if ol > at {
                            assert(crowds_before(
                                ranks@,
                                distances@,
                                before[at as int] as int,
                                before[ol] as int,
                            ));
                            lemma_crowds_before(
                                ranks@,
                                distances@,
                                i as int,
                                before[at as int] as int,
                                before[ol] as int,
                            );
                        }
                    } else if l == at {
                        assert(order@[k] == before[k]);
                        assert(!crowds_before(ranks@, distances@, i as int, before[k] as int));
                        lemma_crowds_before(ranks@, distances@, i as int, before[k] as int, 0);
                    } else {
                        assert(order@[k] == before[ok]);
                        assert(order@[l] == before[ol]);
                    }
                }
                assert forall|j: int| 0 <= j < i + 1 implies #[trigger] holds_place(order@, j) by {
                    if j == i {
                        assert(order@[at as int] == j);
                    } else {
                        assert(holds_place(before, j));
                        let w = choose|w: int| 0 <= w < before.len() && #[trigger] before[w] == j;
                        let nw = if w < at {
                            w
                        } else {
                            w + 1
                        };
                        assert(order@[nw] == j);
                    }
                }
                assert forall|k: int| 0 <= k < order@.len() implies (#[trigger] order@[k]) < i + 1 by {
                    if k < at {
                        assert(order@[k] == before[k]);
                    } else if k > at {
                        assert(order@[k] == before[k - 1]);
                    }
                }
            }
            i = i + 1;
        }
        order
    }

    /// Selects a parent at random and gives its place: an individual of
    /// the population, one that stands earlier in the ranking by front and
    /// crowding with a greater chance. Where there is not one distance
    /// for each individual, it selects as `select` does. There is none in
    /// a population without individuals, nor where the population is so
    /// large that the chances do not add up to a machine number.
    pub fn select_by(&self, rng: &mut StdRng, distances: &Vec<u64>) -> (r: Option<usize>)
        ensures
            r matches Some(index) ==> index < self@.len(),
            self@.len() == 0 ==> r is None,
            0 < self@.len() && self@.len() * self@.len() <= usize::MAX ==> r is Some,
    {
        if distances.len() != self.individuals.len() {
            return self.select(rng);
        }
        let order = self.ranked_by(distances);
        let n: usize = order.len();
        let mut weights: Vec<usize> = Vec::new();
        let mut k: usize = 0;
        while k < n
            invariant
                k <= n,
                n == order@.len(),
                weights@.len() == k,
                forall|i: int| 0 <= i < k ==> 1 <= #[trigger] weights@[i] <= n,
            decreases n - k,
        {
            weights.push(n - k);
            k = k + 1;
        }
        proof {
            lemma_total_weight_bounds(weights@, 1, n as nat);
        }
        match weighted(rng, &weights) {
            Some(position) => Some(order[position]),
            None => None,
        }
    }
}

} // verus!
