//! The driver: build a population, advance it, report its fittest phenotype.
use crate::float_bits::{fitness_rank, float_le, is_infinite_bits};
use crate::population::{generation_step, last_fittest, Population, PopulationParams};
use vstd::prelude::*;

verus! {

/// A search for the input in `[min_bound, max_bound]` that maximises
/// `fitness_function`. Bounds and mutation probability are binary32 bit
/// patterns; the fitness function maps a phenotype's bits to its fitness's.
pub struct OptimizationTask<F> {
    pub min_bound: u32,
    pub max_bound: u32,
    pub mutation_probability: u32,
    pub population_size: usize,
    pub fitness_function: F,
    pub generations: u32,
}

impl<F> OptimizationTask<F> {
    /// The parameters of the first population of this search.
    pub fn to_population_params(&self) -> (r: PopulationParams)
        ensures
            r.min_bound == self.min_bound,
            r.max_bound == self.max_bound,
            r.mutation_probability == self.mutation_probability,
            r.population_size == self.population_size,
    {
        PopulationParams {
            min_bound: self.min_bound,
            max_bound: self.max_bound,
            mutation_probability: self.mutation_probability,
            population_size: self.population_size,
        }
    }
}

/// Runs the search: the first population is built from `samples` (phenotypes
/// drawn within the bounds), advanced `task.generations` times, and the
/// phenotype of its fittest member is returned. `mutate` decides, given the
/// mutation probability, whether a descendant mutates.
pub fn optimize<F: Fn(u32) -> u32 + Copy, C: Fn(u32) -> bool>(
    task: OptimizationTask<F>,
    samples: &Vec<u32>,
    mutate: &C,
) -> (r: u32)
    requires
        task.population_size > 0,
        samples@.len() == task.population_size,
        float_le(task.min_bound, task.max_bound),
        forall|k: int|
            0 <= k < samples@.len() ==> float_le(task.min_bound, #[trigger] samples@[k]) && float_le(
                samples@[k],
                task.max_bound,
            ),
        forall|g: u32| task.fitness_function.requires((g,)),
        mutate.requires((task.mutation_probability,)),
    ensures
        float_le(task.min_bound, r),
        float_le(r, task.max_bound),
        !is_infinite_bits(task.min_bound) && !is_infinite_bits(task.max_bound) ==> !is_infinite_bits(r),
        exists|pops: Seq<Population<F>>, i: int|
            #![trigger last_fittest(pops.last().population@, i)]
            {
                let first = pops[0].population@;
                let last = pops.last().population@;
                &&& pops.len() == task.generations + 1
                &&& first.len() == task.population_size
                &&& forall|k: int|
                    0 <= k < first.len() ==> (#[trigger] first[k]).x == samples@[k]
                        && task.fitness_function.ensures((samples@[k],), first[k].y)
                &&& pops[0].size == task.population_size
                &&& pops[0].fitness_function == task.fitness_function
                &&& pops[0].mutation_probability == task.mutation_probability
                &&& pops[0].left.x == task.min_bound
                &&& pops[0].right.x == task.max_bound
                &&& forall|g: int|
                    #![trigger pops[g]]
                    0 <= g < task.generations ==> generation_step(pops[g], pops[g + 1], mutate)
                &&& last_fittest(last, i)
                &&& r == last[i].x
                &&& forall|k: int|
                    0 <= k < first.len() ==> fitness_rank(#[trigger] first[k].y) <= fitness_rank(
                        last[i].y,
                    )
            },
{
    let ghost f = task.fitness_function;
    let mut population = Population::new(task.to_population_params(), samples, task.fitness_function);
    let ghost init = population;
    let ghost mut pops: Seq<Population<F>> = seq![population];
    let mut g: u32 = 0;
    while g < task.generations
        invariant
            g <= task.generations,
            task.population_size > 0,
            population.wf(),
            population.members_inside(),
            population.size == task.population_size,
            population.left.x == task.min_bound,
            population.right.x == task.max_bound,
            population.mutation_probability == task.mutation_probability,
            population.fitness_function == f,
            f == task.fitness_function,
            mutate.requires((task.mutation_probability,)),
            pops.len() == g + 1,
            pops[0] == init,
            pops.last() == population,
            init.population@.len() == task.population_size,
            forall|k: int|
                0 <= k < init.population@.len() ==> (#[trigger] init.population@[k]).x == samples@[k]
                    && f.ensures((samples@[k],), init.population@[k].y),
            init.size == task.population_size,
            init.fitness_function == f,
            init.mutation_probability == task.mutation_probability,
            init.left.x == task.min_bound,
            init.right.x == task.max_bound,
            forall|h: int|
                #![trigger pops[h]]
                0 <= h < g ==> generation_step(pops[h], pops[h + 1], mutate),
            g == 0 ==> population == init,
            g > 0 ==> forall|k: int|
                0 <= k < init.population@.len() ==> fitness_rank(#[trigger] init.population@[k].y)
                    <= fitness_rank(population.population@[0].y),
        decreases task.generations - g,
    {
        let next = population.next_generation(mutate);
        proof {
            let old_pops = pops;
            pops = pops.push(next);
            assert forall|h: int|
                #![trigger pops[h]]
                0 <= h < g + 1 implies generation_step(pops[h], pops[h + 1], mutate) by {
                if h < g {
                    assert(pops[h] == old_pops[h]);
                    assert(pops[h + 1] == old_pops[h + 1]);
                    assert(generation_step(old_pops[h], old_pops[h + 1], mutate));
                } else {
                    assert(pops[h] == population);
                }
            }
            assert(fitness_rank(population.population@[0].y) <= fitness_rank(
                next.population@[0].y,
            ));
        }
        population = next;
        g = g + 1;
    }
    let best = population.fittest();
    let ghost i = choose|i: int| last_fittest(population.population@, i) && best == population.population@[i];
    assert(float_le(population.left.x, population.population@[i].x));
    assert(last_fittest(pops.last().population@, i));
    best.getX()
}

} // verus!
