//! One candidate solution: a phenotype and its cached fitness.
use crate::float_bits::{
    be_bytes, differ_in_one_bit, flip_bit, float_lt, is_infinite, is_infinite_bits, is_nan, is_nan_bits,
    fitness_rank, fitness_rank_of, less_than, splice,
};
use core::cmp::Ordering;
use rand::Rng;
use vstd::prelude::*;

verus! {

/// A candidate input `x` together with the fitness `y` measured at `x`, both
/// as binary32 bit patterns. The genotype of an individual is the bit
/// pattern of `x`.
#[derive(Clone, Copy)]
pub struct Individual {
    pub x: u32,
    pub y: u32,
}

/// The genotype of the first descendant of parents with genotypes `a` and
/// `b`, before mutation: the upper two bytes of `a`, the lower two of `b`.
pub open spec fn cross_first(a: u32, b: u32) -> u32 {
    (a & 0xffff_0000u32) | (b & 0x0000_ffffu32)
}

/// The genotype of a descendant whose unmutated genotype is `g`, after the
/// mutation `flip` (the index of the flipped bit, if any).
pub open spec fn mutated(g: u32, flip: Option<u32>) -> u32 {
    match flip {
        Some(k) => g ^ (1u32 << k),
        None => g,
    }
}

/// The flip is a bit index of a 32-bit genotype.
pub open spec fn valid_flip(flip: Option<u32>) -> bool {
    match flip {
        Some(k) => k < 32,
        None => true,
    }
}

/// A mutation flips exactly one bit: the mutated genotype is at Hamming
/// distance one from the unmutated one.
pub proof fn lemma_mutation_flips_one_bit(g: u32, k: u32)
    requires
        k < 32,
    ensures
        differ_in_one_bit(g, mutated(g, Some(k))),
        mutated(g, Some(k)) != g,
{
    let m = g ^ (1u32 << k);
    assert((g ^ m) == (1u32 << k) && m != g) by (bit_vector)
        requires
            m == g ^ (1u32 << k),
            k < 32,
    ;
}

/// Relies on rand's `Rng::gen_range` on the non-empty range `0..32`: it
/// returns a value of that range.
#[verifier::external_body]
fn random_bit_index() -> (r: u32)
    ensures
        r < 32,
{
    rand::thread_rng().gen_range(0u32..32u32)
}

impl Individual {
    /// The individual with phenotype `x`, whose fitness is `f(x)`.
    pub fn new<F: Fn(u32) -> u32>(x: u32, f: &F) -> (r: Individual)
        requires
            f.requires((x,)),
        ensures
            r.x == x,
            f.ensures((x,), r.y),
    {
        let y = f(x);
        Individual { x, y }
    }

    /// The individual whose genotype is `genotype`: its bits are taken as the
    /// phenotype unchanged.
    pub fn give_birth<F: Fn(u32) -> u32>(genotype: u32, f: &F) -> (r: Individual)
        requires
            f.requires((genotype,)),
        ensures
            r.x == genotype,
            f.ensures((genotype,), r.y),
    {
        Self::new(genotype, f)
    }

    /// The bit pattern of the phenotype.
    pub fn genotype(&self) -> (r: u32)
        ensures
            r == self.x,
    {
        self.x
    }

    /// The phenotype.
    #[allow(non_snake_case)]
    pub fn getX(&self) -> (r: u32)
        ensures
            r == self.x,
    {
        self.x
    }

    /// The fitness measured at the phenotype.
    pub fn fitness(&self) -> (r: u32)
        ensures
            r == self.y,
    {
        self.y
    }

    /// The phenotype is NaN or infinite.
    pub fn invalid(&self) -> (r: bool)
        ensures
            r == (is_nan_bits(self.x) || is_infinite_bits(self.x)),
    {
        is_nan(self.x) || is_infinite(self.x)
    }

    /// The phenotype is strictly less than that of `other`.
    pub fn lefter_then(&self, other: &Individual) -> (r: bool)
        ensures
            r == float_lt(self.x, other.x),
    {
        less_than(self.x, other.x)
    }

    /// The phenotype is strictly greater than that of `other`.
    pub fn righter_then(&self, other: &Individual) -> (r: bool)
        ensures
            r == float_lt(other.x, self.x),
    {
        less_than(other.x, self.x)
    }

    /// The genotypes of the two descendants of `self` and `that`: crossover at
    /// the middle byte boundary, then the mutation given for each descendant.
    pub fn offspring_genotypes(&self, that: &Individual, flips: [Option<u32>; 2]) -> (r: [u32; 2])
        requires
            valid_flip(flips[0]),
            valid_flip(flips[1]),
        ensures
            r[0] == mutated(cross_first(self.x, that.x), flips[0]),
            r[1] == mutated(cross_first(that.x, self.x), flips[1]),
            flips[0] is None ==> be_bytes(r[0]) == seq![
                be_bytes(self.x)[0],
                be_bytes(self.x)[1],
                be_bytes(that.x)[2],
                be_bytes(that.x)[3],
            ],
            flips[1] is None ==> be_bytes(r[1]) == seq![
                be_bytes(that.x)[0],
                be_bytes(that.x)[1],
                be_bytes(self.x)[2],
                be_bytes(self.x)[3],
            ],
            flips[0] is Some ==> differ_in_one_bit(cross_first(self.x, that.x), r[0]),
            flips[1] is Some ==> differ_in_one_bit(cross_first(that.x, self.x), r[1]),
    {
        let first = splice(self.x, that.x);
        let second = splice(that.x, self.x);
        let a = match flips[0] {
            Some(k) => flip_bit(first, k),
            None => first,
        };
        let b = match flips[1] {
            Some(k) => flip_bit(second, k),
            None => second,
        };
        [a, b]
    }

    /// Two descendants of `self` and `that`. For each, `mutate` is asked with
    /// `mutation_probability` whether it mutates; if so one uniformly drawn bit
    /// of its genotype is flipped.
    pub fn mate<F: Fn(u32) -> u32, C: Fn(u32) -> bool>(
        &self,
        that: Individual,
        mutation_probability: u32,
        mutate: &C,
        f: &F,
    ) -> (r: [Individual; 2])
        requires
            forall|g: u32| f.requires((g,)),
            mutate.requires((mutation_probability,)),
        ensures
            exists|flips: [Option<u32>; 2]|
                valid_flip(flips[0]) && valid_flip(flips[1])
                && mutate.ensures((mutation_probability,), flips[0] is Some)
                && mutate.ensures((mutation_probability,), flips[1] is Some)
                && r[0].x == mutated(cross_first(self.x, that.x), flips[0])
                && r[1].x == mutated(cross_first(that.x, self.x), flips[1]),
            f.ensures((r[0].x,), r[0].y),
            f.ensures((r[1].x,), r[1].y),
    {
        let first_mutates = mutate(mutation_probability);
        let first_flip = if first_mutates {
            Some(random_bit_index())
        } else {
            None
        };
        let second_mutates = mutate(mutation_probability);
        let second_flip = if second_mutates {
            Some(random_bit_index())
        } else {
            None
        };
        let flips = [first_flip, second_flip];
        let genes = self.offspring_genotypes(&that, flips);
        let r = [Self::give_birth(genes[0], f), Self::give_birth(genes[1], f)];
        assert(valid_flip(flips[0]) && valid_flip(flips[1]));
        r
    }
}

/// The order of two individuals by fitness alone.
pub open spec fn fitness_order(a: &Individual, b: &Individual) -> Ordering {
    if fitness_rank(a.y) < fitness_rank(b.y) {
        Ordering::Less
    } else if fitness_rank(a.y) > fitness_rank(b.y) {
        Ordering::Greater
    } else {
        Ordering::Equal
    }
}

/// Two individuals are equal when their fitness values rank equal, whatever
/// their phenotypes.
impl PartialEq for Individual {
    fn eq(&self, other: &Individual) -> (r: bool) {
        fitness_rank_of(self.y) == fitness_rank_of(other.y)
    }
}

impl vstd::std_specs::cmp::PartialEqSpecImpl for Individual {
    open spec fn obeys_eq_spec() -> bool {
        true
    }

    open spec fn eq_spec(&self, other: &Individual) -> bool {
        fitness_rank(self.y) == fitness_rank(other.y)
    }
}

/// Individuals are ordered by fitness alone; the order is total.
impl PartialOrd for Individual {
    fn partial_cmp(&self, other: &Individual) -> (r: Option<Ordering>) {
        let a = fitness_rank_of(self.y);
        let b = fitness_rank_of(other.y);
        if a < b {
            Some(Ordering::Less)
        } else if a > b {
            Some(Ordering::Greater)
        } else {
            Some(Ordering::Equal)
        }
    }
}

impl vstd::std_specs::cmp::PartialOrdSpecImpl for Individual {
    open spec fn obeys_partial_cmp_spec() -> bool {
        true
    }

    open spec fn partial_cmp_spec(&self, other: &Individual) -> Option<Ordering> {
        Some(fitness_order(self, other))
    }
}

} // verus!
