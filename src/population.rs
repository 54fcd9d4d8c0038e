//! The evolving population and its generational step.
use crate::float_bits::{
    fitness_rank, fitness_rank_of, float_le, float_lt, is_infinite_bits, is_nan_bits,
};
use crate::individual::{cross_first, mutated, valid_flip, Individual};
use rand::seq::SliceRandom;
use vstd::prelude::*;
use vstd::seq_lib::{to_multiset_contains, to_multiset_insert, to_multiset_len};

verus! {

/// What a population is built from. Bounds and mutation probability are
/// binary32 bit patterns.
#[derive(Clone, Copy)]
pub struct PopulationParams {
    pub min_bound: u32,
    pub max_bound: u32,
    pub mutation_probability: u32,
    pub population_size: usize,
}

/// A fixed-size collection of individuals searching `[min_bound, max_bound]`
/// for the input that maximises `fitness_function`. `left` and `right` are the
/// individuals at the two bounds; they only serve to check that descendants
/// stay within the bounds.
pub struct Population<F> {
    pub population: Vec<Individual>,
    pub mutation_probability: u32,
    pub fitness_function: F,
    pub min_bound: u32,
    pub max_bound: u32,
    pub size: usize,
    pub left: Individual,
    pub right: Individual,
}

/// `s` is ordered from the fittest to the least fit.
pub open spec fn sorted_desc(s: Seq<Individual>) -> bool {
    forall|i: int, j: int|
        0 <= i < j < s.len() ==> fitness_rank(#[trigger] s[i].y) >= fitness_rank(#[trigger] s[j].y)
}

/// `e` inserted into `s` before the first member that is not fitter than `e`.
pub open spec fn insert_desc(s: Seq<Individual>, e: Individual) -> Seq<Individual>
    decreases s.len(),
{
    if s.len() == 0 {
        seq![e]
    } else if fitness_rank(s[0].y) <= fitness_rank(e.y) {
        seq![e] + s
    } else {
        seq![s[0]] + insert_desc(s.drop_first(), e)
    }
}

/// `s` sorted from the fittest to the least fit by inserting its members in
/// turn; among equally fit members the later one comes first.
pub open spec fn sort_desc(s: Seq<Individual>) -> Seq<Individual>
    decreases s.len(),
{
    if s.len() == 0 {
        Seq::empty()
    } else {
        insert_desc(sort_desc(s.drop_last()), s.last())
    }
}

/// The `size` fittest members of `pool`, fittest first.
pub open spec fn select_spec(pool: Seq<Individual>, size: nat) -> Seq<Individual> {
    sort_desc(pool).take(size as int)
}

/// Inserting adds one member.
proof fn lemma_insert_desc_len(s: Seq<Individual>, e: Individual)
    ensures
        insert_desc(s, e).len() == s.len() + 1,
    decreases s.len(),
{
    if s.len() > 0 && fitness_rank(s[0].y) > fitness_rank(e.y) {
        lemma_insert_desc_len(s.drop_first(), e);
    }
}

/// Sorting keeps the number of members.
proof fn lemma_sort_desc_len(s: Seq<Individual>)
    ensures
        sort_desc(s).len() == s.len(),
    decreases s.len(),
{
    if s.len() > 0 {
        lemma_sort_desc_len(s.drop_last());
        lemma_insert_desc_len(sort_desc(s.drop_last()), s.last());
    }
}

/// Selection keeps exactly `size` members of any pool that has that many:
/// a generation never changes the population's size.
pub proof fn lemma_select_keeps_size(pool: Seq<Individual>, size: nat)
    requires
        size <= pool.len(),
    ensures
        select_spec(pool, size).len() == size,
{
    lemma_sort_desc_len(pool);
}

/// Inserting before the first member not fitter than `e`, at index `p`.
proof fn lemma_insert_desc_at(s: Seq<Individual>, e: Individual, p: int)
    requires
        0 <= p <= s.len(),
        forall|j: int| 0 <= j < p ==> fitness_rank(#[trigger] s[j].y) > fitness_rank(e.y),
        p < s.len() ==> fitness_rank(s[p].y) <= fitness_rank(e.y),
    ensures
        insert_desc(s, e) == s.insert(p, e),
    decreases s.len(),
{
    if s.len() == 0 {
        assert(s.insert(p, e) =~= seq![e]);
    } else if p == 0 {
        assert(s.insert(p, e) =~= seq![e] + s);
    } else {
        let t = s.drop_first();
        assert forall|j: int| 0 <= j < p - 1 implies fitness_rank(#[trigger] t[j].y) > fitness_rank(e.y) by {
            assert(t[j] == s[j + 1]);
        }
        lemma_insert_desc_at(t, e, p - 1);
        assert(s.insert(p, e) =~= seq![s[0]] + t.insert(p - 1, e));
    }
}

/// `pool` sorted from the fittest to the least fit, as `sort_desc` gives it.
pub fn sort_descending(pool: &Vec<Individual>) -> (r: Vec<Individual>)
    ensures
        r@ == sort_desc(pool@),
        r@.to_multiset() == pool@.to_multiset(),
        sorted_desc(r@),
{
    let mut out: Vec<Individual> = Vec::new();
    let mut i: usize = 0;
    assert(pool@.take(0) =~= out@);
    while i < pool.len()
        invariant
            i <= pool.len(),
            out@ == sort_desc(pool@.take(i as int)),
            out@.to_multiset() == pool@.take(i as int).to_multiset(),
            sorted_desc(out@),
        decreases pool.len() - i,
    {
        let e = pool[i];
        let key = fitness_rank_of(e.y);
        let mut p: usize = 0;
        let mut hi: usize = out.len();
        while p < hi
            invariant
                p <= hi <= out@.len(),
                key == fitness_rank(e.y),
                sorted_desc(out@),
                forall|j: int| 0 <= j < p ==> fitness_rank(#[trigger] out@[j].y) > key,
                forall|j: int| hi <= j < out@.len() ==> fitness_rank(#[trigger] out@[j].y) <= key,
            decreases hi - p,
        {
            let mid = p + (hi - p) / 2;
            if fitness_rank_of(out[mid].y) > key {
                p = mid + 1;
            } else {
                hi = mid;
            }
        }
        proof {
            let t = pool@.take(i + 1);
            assert(t.drop_last() =~= pool@.take(i as int));
            assert(t.last() == e);
            lemma_insert_desc_at(out@, e, p as int);
            assert(t =~= pool@.take(i as int).insert(i as int, e));
            to_multiset_insert(pool@.take(i as int), i as int, e);
            to_multiset_insert(out@, p as int, e);
        }
        let ghost before = out@;
        out.insert(p, e);
        proof {
            assert forall|a: int, b: int| 0 <= a < b < out@.len() implies fitness_rank(
                #[trigger] out@[a].y,
            ) >= fitness_rank(#[trigger] out@[b].y) by {
                if a < p && b > p {
                    assert(out@[b] == before[b - 1]);
                } else if a < p && b < p {
                } else if a == p && b > p {
                    assert(out@[b] == before[b - 1]);
                } else if a < p && b == p {
                } else {
                    assert(out@[a] == before[a - 1]);
                    assert(out@[b] == before[b - 1]);
                }
            }
        }
        i = i + 1;
    }
    assert(pool@.take(pool@.len() as int) =~= pool@);
    out
}

/// The `size` fittest members of `pool`, fittest first.
pub fn select(pool: &Vec<Individual>, size: usize) -> (r: Vec<Individual>)
    requires
        size <= pool@.len(),
    ensures
        r@ == select_spec(pool@, size as nat),
        r@.len() == size,
        sorted_desc(r@),
        forall|k: int| 0 <= k < r@.len() ==> pool@.contains(#[trigger] r@[k]),
        sorted_desc(sort_desc(pool@)),
        sort_desc(pool@).to_multiset() == pool@.to_multiset(),
{
    let sorted = sort_descending(pool);
    proof {
        to_multiset_len(sorted@);
        to_multiset_len(pool@);
    }
    let mut r: Vec<Individual> = Vec::new();
    let mut i: usize = 0;
    while i < size
        invariant
            i <= size,
            size <= sorted@.len(),
            r@ == sorted@.take(i as int),
        decreases size - i,
    {
        r.push(sorted[i]);
        i = i + 1;
        assert(r@ =~= sorted@.take(i as int));
    }
    assert forall|k: int| 0 <= k < r@.len() implies pool@.contains(#[trigger] r@[k]) by {
        assert(sorted@.contains(sorted@[k]));
        to_multiset_contains(sorted@, sorted@[k]);
        to_multiset_contains(pool@, sorted@[k]);
    }
    r
}

/// Member `i` of `s` is the last of its fittest members.
pub open spec fn last_fittest(s: Seq<Individual>, i: int) -> bool {
    &&& 0 <= i < s.len()
    &&& forall|j: int| 0 <= j < s.len() ==> fitness_rank(#[trigger] s[j].y) <= fitness_rank(s[i].y)
    &&& forall|j: int| i < j < s.len() ==> fitness_rank(#[trigger] s[j].y) < fitness_rank(s[i].y)
}

/// Pair `m` of `parents` (members `2m` and `2m + 1`) gave `born[2m]` and
/// `born[2m + 1]`, after the mutations `flips[2m]` and `flips[2m + 1]`.
pub open spec fn pair_born(
    parents: Seq<Individual>,
    born: Seq<Individual>,
    flips: Seq<Option<u32>>,
    m: int,
) -> bool {
    born[2 * m].x == mutated(cross_first(parents[2 * m].x, parents[2 * m + 1].x), flips[2 * m])
        && born[2 * m + 1].x == mutated(
        cross_first(parents[2 * m + 1].x, parents[2 * m].x),
        flips[2 * m + 1],
    )
}

/// `born` are the descendants of the consecutive pairs of `parents`, two per
/// pair and in pair order (an odd last member mates with no one). Each
/// carries the fitness `f` gives its phenotype; its mutation `flips[i]` is a
/// valid bit index, set exactly when `mutate` answered true for
/// `mutation_probability`.
pub open spec fn brood<F: Fn(u32) -> u32, C: Fn(u32) -> bool>(
    parents: Seq<Individual>,
    born: Seq<Individual>,
    flips: Seq<Option<u32>>,
    mutation_probability: u32,
    mutate: &C,
    f: &F,
) -> bool {
    &&& born.len() == 2 * (parents.len() / 2)
    &&& flips.len() == born.len()
    &&& forall|i: int|
        0 <= i < born.len() ==> valid_flip(#[trigger] flips[i]) && mutate.ensures(
            (mutation_probability,),
            flips[i] is Some,
        ) && f.ensures((born[i].x,), born[i].y)
    &&& forall|m: int| 0 <= m < parents.len() / 2 ==> #[trigger] pair_born(parents, born, flips, m)
}

/// `b` may follow `a` as its next generation: the members of `a`, in some
/// order `parents`, gave the descendants `born` pair by pair; the admissible
/// ones joined the members of `a`, and the `size` fittest of that pool, sorted
/// from the fittest down, are the members of `b`. All else is carried over.
#[verifier::opaque]
pub open spec fn generation_step<F: Fn(u32) -> u32 + Copy, C: Fn(u32) -> bool>(
    a: Population<F>,
    b: Population<F>,
    mutate: &C,
) -> bool {
    let f = &a.fitness_function;
    &&& b.size == a.size
    &&& b.fitness_function == a.fitness_function
    &&& b.mutation_probability == a.mutation_probability
    &&& b.min_bound == a.min_bound
    &&& b.max_bound == a.max_bound
    &&& b.left == a.left
    &&& b.right == a.right
    &&& exists|parents: Seq<Individual>, born: Seq<Individual>, flips: Seq<Option<u32>>|
        #![trigger brood(parents, born, flips, a.mutation_probability, mutate, f)]
        {
            let pool = a.population@ + a.admitted(born);
            &&& parents.to_multiset() == a.population@.to_multiset()
            &&& brood(parents, born, flips, a.mutation_probability, mutate, f)
            &&& b.population@ == select_spec(pool, a.size as nat)
            &&& sorted_desc(sort_desc(pool))
            &&& sort_desc(pool).to_multiset() == pool.to_multiset()
        }
}

/// Relies on rand's `SliceRandom::shuffle`, which only swaps elements of the
/// slice: the result is a permutation of it.
#[verifier::external_body]
fn shuffle(v: &mut Vec<Individual>)
    ensures
        final(v)@.to_multiset() == old(v)@.to_multiset(),
{
    v.shuffle(&mut rand::thread_rng());
}

impl<F: Fn(u32) -> u32 + Copy> Population<F> {
    /// The members of `born` that may join the population, in order.
    pub open spec fn admitted(&self, born: Seq<Individual>) -> Seq<Individual>
        decreases born.len(),
    {
        if born.len() == 0 {
            Seq::empty()
        } else if self.admissible(born.last()) {
            self.admitted(born.drop_last()).push(born.last())
        } else {
            self.admitted(born.drop_last())
        }
    }

    /// Whatever is admitted is admissible.
    pub proof fn lemma_admitted_admissible(&self, born: Seq<Individual>)
        ensures
            forall|k: int|
                0 <= k < self.admitted(born).len() ==> self.admissible(
                    #[trigger] self.admitted(born)[k],
                ),
        decreases born.len(),
    {
        if born.len() > 0 {
            let rest = self.admitted(born.drop_last());
            self.lemma_admitted_admissible(born.drop_last());
            assert forall|k: int|
                0 <= k < self.admitted(born).len() implies self.admissible(
                #[trigger] self.admitted(born)[k],
            ) by {
                if k < rest.len() {
                    assert(self.admitted(born)[k] == rest[k]);
                }
            }
        }
    }

    /// The descendant `c` may join the population: it is neither left of the
    /// left sentinel nor right of the right one, and its phenotype is finite.
    pub open spec fn admissible(&self, c: Individual) -> bool {
        !float_lt(c.x, self.left.x) && !float_lt(self.right.x, c.x) && !is_nan_bits(c.x)
            && !is_infinite_bits(c.x)
    }

    /// The sentinels are numbers, and every member lies between them.
    pub open spec fn members_inside(&self) -> bool {
        &&& !is_nan_bits(self.left.x)
        &&& !is_nan_bits(self.right.x)
        &&& forall|k: int|
            0 <= k < self.population@.len() ==> float_le(self.left.x, #[trigger] self.population@[k].x)
                && float_le(self.population@[k].x, self.right.x)
    }

    /// The population holds `size` members, and its fitness function
    /// accepts every phenotype.
    pub open spec fn wf(&self) -> bool {
        &&& self.population@.len() == self.size
        &&& forall|g: u32| self.fitness_function.requires((g,))
    }

    /// The population whose members are the `size` fittest of the current
    /// members together with `descendants`; everything else is carried over.
    pub fn survivors(&self, descendants: &Vec<Individual>) -> (r: Population<F>)
        requires
            self.wf(),
        ensures
            r.population@ == select_spec(self.population@ + descendants@, self.size as nat),
            r.wf(),
            sorted_desc(r.population@),
            forall|k: int|
                0 <= k < r.population@.len() ==> (self.population@ + descendants@).contains(
                    #[trigger] r.population@[k],
                ),
            sorted_desc(sort_desc(self.population@ + descendants@)),
            sort_desc(self.population@ + descendants@).to_multiset() == (self.population@
                + descendants@).to_multiset(),
            r.size == self.size,
            r.fitness_function == self.fitness_function,
            r.mutation_probability == self.mutation_probability,
            r.min_bound == self.min_bound,
            r.max_bound == self.max_bound,
            r.left == self.left,
            r.right == self.right,
    {
        let mut pool: Vec<Individual> = Vec::new();
        let mut i: usize = 0;
        while i < self.population.len()
            invariant
                i <= self.population@.len(),
                pool@ == self.population@.take(i as int),
            decreases self.population@.len() - i,
        {
            pool.push(self.population[i]);
            i = i + 1;
            assert(pool@ =~= self.population@.take(i as int));
        }
        let mut j: usize = 0;
        while j < descendants.len()
            invariant
                j <= descendants@.len(),
                pool@ == self.population@ + descendants@.take(j as int),
            decreases descendants@.len() - j,
        {
            pool.push(descendants[j]);
            j = j + 1;
            assert(pool@ =~= self.population@ + descendants@.take(j as int));
        }
        assert(descendants@.take(j as int) =~= descendants@);
        Population {
            population: select(&pool, self.size),
            mutation_probability: self.mutation_probability,
            fitness_function: self.fitness_function,
            min_bound: self.min_bound,
            max_bound: self.max_bound,
            size: self.size,
            left: self.left,
            right: self.right,
        }
    }

    /// One generation: the members are shuffled and mated pair by pair; the
    /// admissible descendants join the members, and the `size` fittest of
    /// them all make up the next population. `self` is left as it was.
    pub fn next_generation<C: Fn(u32) -> bool>(&self, mutate: &C) -> (r: Population<F>)
        requires
            self.wf(),
            mutate.requires((self.mutation_probability,)),
        ensures
            r.wf(),
            sorted_desc(r.population@),
            generation_step(*self, r, mutate),
            r.size == self.size,
            r.fitness_function == self.fitness_function,
            r.mutation_probability == self.mutation_probability,
            r.min_bound == self.min_bound,
            r.max_bound == self.max_bound,
            r.left == self.left,
            r.right == self.right,
            self.members_inside() ==> r.members_inside(),
            self.size > 0 ==> forall|k: int|
                0 <= k < self.population@.len() ==> fitness_rank(#[trigger] self.population@[k].y)
                    <= fitness_rank(r.population@[0].y),
    {
        let mut parents: Vec<Individual> = Vec::new();
        let mut i: usize = 0;
        while i < self.population.len()
            invariant
                i <= self.population@.len(),
                parents@ == self.population@.take(i as int),
            decreases self.population@.len() - i,
        {
            parents.push(self.population[i]);
            i = i + 1;
            assert(parents@ =~= self.population@.take(i as int));
        }
        assert(self.population@.take(i as int) =~= self.population@);
        shuffle(&mut parents);
        let mut descendants: Vec<Individual> = Vec::new();
        self.produce_descendants(&parents, &mut descendants, mutate);
        let ghost f = &self.fitness_function;
        let ghost (born, flips) = choose|born: Seq<Individual>, flips: Seq<Option<u32>>|
            brood(parents@, born, flips, self.mutation_probability, mutate, f) && descendants@
                == Seq::<Individual>::empty() + self.admitted(born);
        assert(descendants@ =~= self.admitted(born));
        let r = self.survivors(&descendants);
        proof {
            let pool = self.population@ + descendants@;
            let sorted = sort_desc(pool);
            assert(brood(parents@, born, flips, self.mutation_probability, mutate, f));
            reveal(generation_step);
            if self.size > 0 {
                assert forall|k: int| 0 <= k < self.population@.len() implies fitness_rank(
                    #[trigger] self.population@[k].y,
                ) <= fitness_rank(r.population@[0].y) by {
                    let c = self.population@[k];
                    assert(pool[k] == c);
                    assert(pool.contains(c));
                    to_multiset_contains(pool, c);
                    to_multiset_contains(sorted, c);
                    let j = choose|j: int| 0 <= j < sorted.len() && sorted[j] == c;
                    assert(r.population@ == sorted.take(self.size as int));
                    to_multiset_len(sorted);
                    to_multiset_len(pool);
                    assert(r.population@[0] == sorted[0]);
                    if j > 0 {
                        assert(fitness_rank(sorted[0].y) >= fitness_rank(sorted[j].y));
                    }
                }
            }
            if self.members_inside() {
                self.lemma_admitted_admissible(born);
                assert forall|k: int| 0 <= k < r.population@.len() implies float_le(
                    r.left.x,
                    #[trigger] r.population@[k].x,
                ) && float_le(r.population@[k].x, r.right.x) by {
                    let c = r.population@[k];
                    assert(pool.contains(c));
                    let idx = choose|idx: int| 0 <= idx < pool.len() && pool[idx] == c;
                    if idx >= self.population@.len() {
                        assert(descendants@[idx - self.population@.len()] == c);
                    } else {
                        assert(self.population@[idx] == c);
                    }
                }
            }
        }
        r
    }

    /// The first population: one member for each sampled phenotype in
    /// `samples`, and the sentinels at the two bounds.
    pub fn new(params: PopulationParams, samples: &Vec<u32>, f: F) -> (r: Population<F>)
        requires
            samples@.len() == params.population_size,
            float_le(params.min_bound, params.max_bound),
            forall|k: int|
                0 <= k < samples@.len() ==> float_le(params.min_bound, #[trigger] samples@[k])
                    && float_le(samples@[k], params.max_bound),
            forall|g: u32| f.requires((g,)),
        ensures
            r.wf(),
            r.members_inside(),
            r.size == params.population_size,
            r.fitness_function == f,
            r.mutation_probability == params.mutation_probability,
            r.min_bound == params.min_bound,
            r.max_bound == params.max_bound,
            r.left.x == params.min_bound,
            r.right.x == params.max_bound,
            f.ensures((params.min_bound,), r.left.y),
            f.ensures((params.max_bound,), r.right.y),
            forall|k: int|
                0 <= k < r.population@.len() ==> (#[trigger] r.population@[k]).x == samples@[k]
                    && f.ensures((samples@[k],), r.population@[k].y),
            forall|k: int|
                0 <= k < r.population@.len() && float_lt(params.min_bound, samples@[k]) && float_lt(
                    samples@[k],
                    params.max_bound,
                ) ==> float_lt(r.left.x, #[trigger] r.population@[k].x) && float_lt(
                    r.population@[k].x,
                    r.right.x,
                ),
    {
        let mut population: Vec<Individual> = Vec::new();
        let mut i: usize = 0;
        while i < samples.len()
            invariant
                i <= samples@.len(),
                population@.len() == i,
                forall|g: u32| f.requires((g,)),
                forall|k: int|
                    0 <= k < i ==> (#[trigger] population@[k]).x == samples@[k] && f.ensures(
                        (samples@[k],),
                        population@[k].y,
                    ),
            decreases samples@.len() - i,
        {
            population.push(Individual::new(samples[i], &f));
            i = i + 1;
        }
        let r = Population {
            population,
            mutation_probability: params.mutation_probability,
            fitness_function: f,
            min_bound: params.min_bound,
            max_bound: params.max_bound,
            size: params.population_size,
            left: Individual::new(params.min_bound, &f),
            right: Individual::new(params.max_bound, &f),
        };
        assert forall|k: int| 0 <= k < r.population@.len() implies float_le(
            r.left.x,
            #[trigger] r.population@[k].x,
        ) && float_le(r.population@[k].x, r.right.x) by {
            assert(float_le(params.min_bound, samples@[k]));
        }
        r
    }

    /// The fittest member; among equally fit ones, the last.
    pub fn fittest(&self) -> (r: Individual)
        requires
            self.population@.len() > 0,
        ensures
            exists|i: int| last_fittest(self.population@, i) && r == self.population@[i],
    {
        let mut best: usize = 0;
        let mut i: usize = 1;
        while i < self.population.len()
            invariant
                1 <= i <= self.population@.len(),
                best < i,
                forall|j: int|
                    0 <= j < i ==> fitness_rank(#[trigger] self.population@[j].y) <= fitness_rank(
                        self.population@[best as int].y,
                    ),
                forall|j: int|
                    best < j < i ==> fitness_rank(#[trigger] self.population@[j].y) < fitness_rank(
                        self.population@[best as int].y,
                    ),
            decreases self.population@.len() - i,
        {
            if fitness_rank_of(self.population[i].y) >= fitness_rank_of(self.population[best].y) {
                best = i;
            }
            i = i + 1;
        }
        assert(last_fittest(self.population@, best as int));
        self.population[best]
    }

    /// Adds `child` to `descendants` when it may join the population.
    pub fn append_child(&self, descendants: &mut Vec<Individual>, child: Individual)
        ensures
            final(descendants)@ == if self.admissible(child) {
                old(descendants)@.push(child)
            } else {
                old(descendants)@
            },
    {
        if child.lefter_then(&self.left) {
            return ;
        }
        if child.righter_then(&self.right) {
            return ;
        }
        if child.invalid() {
            return ;
        }
        descendants.push(child);
    }

    /// Mates the consecutive pairs of `parents` (an odd last member mates with
    /// no one) and appends the admissible descendants to `descendants`.
    /// Returns the number of matings.
    pub fn produce_descendants<C: Fn(u32) -> bool>(
        &self,
        parents: &Vec<Individual>,
        descendants: &mut Vec<Individual>,
        mutate: &C,
    ) -> (r: usize)
        requires
            forall|g: u32| self.fitness_function.requires((g,)),
            mutate.requires((self.mutation_probability,)),
        ensures
            r == parents@.len() / 2,
            exists|born: Seq<Individual>, flips: Seq<Option<u32>>|
                brood(
                    parents@,
                    born,
                    flips,
                    self.mutation_probability,
                    mutate,
                    &self.fitness_function,
                ) && final(descendants)@ == old(descendants)@ + self.admitted(born),
    {
        let f = &self.fitness_function;
        let pairs = parents.len() / 2;
        let ghost start = descendants@;
        let ghost mut born: Seq<Individual> = Seq::empty();
        let ghost mut flips: Seq<Option<u32>> = Seq::empty();
        let mut m: usize = 0;
        while m < pairs
            invariant
                m <= pairs,
                pairs == parents@.len() / 2,
                forall|g: u32| f.requires((g,)),
                mutate.requires((self.mutation_probability,)),
                born.len() == 2 * m,
                flips.len() == 2 * m,
                forall|i: int|
                    0 <= i < born.len() ==> valid_flip(#[trigger] flips[i]) && mutate.ensures(
                        (self.mutation_probability,),
                        flips[i] is Some,
                    ) && f.ensures((born[i].x,), born[i].y),
                forall|k: int| 0 <= k < m ==> #[trigger] pair_born(parents@, born, flips, k),
                descendants@ == start + self.admitted(born),
            decreases pairs - m,
        {
            let n: usize = parents.len();
            assert(2 * m + 1 < n) by (nonlinear_arith)
                requires
                    m < pairs,
                    pairs == n / 2,
            ;
            let i: usize = m + m;
            let a = parents[i];
            let b = parents[i + 1];
            let children = a.mate(b, self.mutation_probability, mutate, f);
            let ghost fl = choose|fl: [Option<u32>; 2]|
                valid_flip(fl[0]) && valid_flip(fl[1]) && mutate.ensures(
                    (self.mutation_probability,),
                    fl[0] is Some,
                ) && mutate.ensures((self.mutation_probability,), fl[1] is Some) && children[0].x
                    == mutated(cross_first(a.x, b.x), fl[0]) && children[1].x == mutated(
                    cross_first(b.x, a.x),
                    fl[1],
                );
            let ghost old_born = born;
            let ghost old_flips = flips;
            self.append_child(descendants, children[0]);
            proof {
                born = born.push(children[0]);
                assert(born.drop_last() =~= old_born);
                assert(descendants@ =~= start + self.admitted(born));
            }
            let ghost mid_born = born;
            self.append_child(descendants, children[1]);
            proof {
                born = born.push(children[1]);
                flips = flips.push(fl[0]).push(fl[1]);
                assert(born.drop_last() =~= mid_born);
                assert(descendants@ =~= start + self.admitted(born));
                assert forall|k: int| 0 <= k < m + 1 implies #[trigger] pair_born(
                    parents@,
                    born,
                    flips,
                    k,
                ) by {
                    if k < m {
                        assert(pair_born(parents@, old_born, old_flips, k));
                        assert(born[2 * k] == old_born[2 * k]);
                        assert(born[2 * k + 1] == old_born[2 * k + 1]);
                        assert(flips[2 * k] == old_flips[2 * k]);
                        assert(flips[2 * k + 1] == old_flips[2 * k + 1]);
                    }
                }
                assert forall|j: int| 0 <= j < born.len() implies valid_flip(#[trigger] flips[j])
                    && mutate.ensures((self.mutation_probability,), flips[j] is Some) && f.ensures(
                    (born[j].x,),
                    born[j].y,
                ) by {
                    if j < 2 * m {
                        assert(born[j] == old_born[j]);
                        assert(flips[j] == old_flips[j]);
                    }
                }
            }
            m = m + 1;
        }
        assert(brood(parents@, born, flips, self.mutation_probability, mutate, f));
        pairs
    }
}

} // verus!
