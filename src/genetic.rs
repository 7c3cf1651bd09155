use vstd::prelude::*;
use rand::rngs::StdRng;
use crate::random::{draw_below, flip_coin};

verus! {

/// Sum of a sequence of fitness scores.
pub open spec fn total(f: Seq<u32>) -> int
    decreases f.len(),
{
    if f.len() == 0 {
        0
    } else {
        total(f.drop_last()) + f.last()
    }
}

/// The roulette wheel lays the scores end to end; `point` falls in slot `r`.
pub open spec fn picked(f: Seq<u32>, point: int, r: int) -> bool {
    &&& 0 <= r < f.len()
    &&& total(f.take(r)) <= point < total(f.take(r + 1))
}

/// The slot of the wheel that `point` falls in.
pub open spec fn wheel_index(f: Seq<u32>, point: int) -> int {
    choose|r: int| picked(f, point, r)
}

proof fn lemma_total_monotone(f: Seq<u32>, a: int, b: int)
    requires
        0 <= a <= b <= f.len(),
    ensures
        total(f.take(a)) <= total(f.take(b)),
    decreases b - a,
{
    if a < b {
        lemma_total_monotone(f, a, b - 1);
        assert(f.take(b).drop_last() =~= f.take(b - 1));
    }
}

proof fn lemma_total_step(f: Seq<u32>, i: int)
    requires
        0 <= i < f.len(),
    ensures
        total(f.take(i + 1)) == total(f.take(i)) + f[i],
{
    assert(f.take(i + 1).drop_last() =~= f.take(i));
}

proof fn lemma_picked_unique(f: Seq<u32>, point: int, r: int, s: int)
    requires
        picked(f, point, r),
        picked(f, point, s),
    ensures
        r == s,
{
    if r < s {
        lemma_total_monotone(f, r + 1, s);
    } else if s < r {
        lemma_total_monotone(f, s + 1, r);
    }
}

/// Selection with probability proportional to fitness: given a point drawn
/// uniformly below the total fitness, the individual whose slot holds it.
#[derive(Clone, Copy, Debug, Default)]
pub struct RouletteWheelSelection;

impl RouletteWheelSelection {
    pub fn new() -> (r: Self) {
        RouletteWheelSelection
    }

    /// The index whose slot on the wheel holds `point`. Such an individual
    /// always has a positive fitness.
    pub fn select(&self, fitnesses: &Vec<u32>, point: u64) -> (r: usize)
        requires
            point < total(fitnesses@),
        ensures
            picked(fitnesses@, point as int, r as int),
            r == wheel_index(fitnesses@, point as int),
            fitnesses@[r as int] > 0,
    {
        let ghost f = fitnesses@;
        let mut acc: u64 = 0;
        let mut i: usize = 0;
        loop
            invariant
                0 <= i <= f.len(),
                f == fitnesses@,
                acc == total(f.take(i as int)),
                acc <= point,
                point < total(f),
            decreases f.len() - i,
        {
            if i == fitnesses.len() {
                proof {
                    assert(f.take(i as int) =~= f);
                }
            }
            proof {
                lemma_total_step(f, i as int);
            }
            let weight = fitnesses[i] as u64;
            if point - acc < weight {
                proof {
                    assert(picked(f, point as int, i as int));
                    lemma_picked_unique(f, point as int, i as int, wheel_index(f, point as int));
                }
                return i;
            }
            acc = acc + weight;
            i += 1;
        }
    }
}


/// An ordered sequence of genes.
#[derive(Clone, Debug)]
pub struct Chromosome<G> {
    genes: Vec<G>,
}

impl<G> View for Chromosome<G> {
    type V = Seq<G>;

    closed spec fn view(&self) -> Seq<G> {
        self.genes@
    }
}

impl<G: Copy> Chromosome<G> {
    pub fn new(genes: Vec<G>) -> (r: Self)
        ensures
            r@ == genes@,
    {
        Chromosome { genes }
    }

    pub fn len(&self) -> (r: usize)
        ensures
            r == self@.len(),
    {
        self.genes.len()
    }

    /// The gene at `index`.
    pub fn index(&self, index: usize) -> (r: G)
        requires
            index < self@.len(),
        ensures
            r == self@[index as int],
    {
        self.genes[index]
    }

    /// The genes, in order.
    pub fn genes(&self) -> (r: &Vec<G>)
        ensures
            r@ == self@,
    {
        &self.genes
    }

    /// Gives up the chromosome for its genes.
    pub fn into_genes(self) -> (r: Vec<G>)
        ensures
            r@ == self@,
    {
        self.genes
    }
}

/// The child of a uniform crossover: at each position the gene of `a` where
/// the coin shows true, else the gene of `b`.
pub open spec fn crossed<G>(a: Seq<G>, b: Seq<G>, coins: Seq<bool>) -> Seq<G> {
    Seq::new(a.len(), |j: int| if coins[j] { a[j] } else { b[j] })
}

/// Crossover that takes each gene from either parent on a fair coin flip.
#[derive(Clone, Copy, Debug, Default)]
pub struct UniformCrossover;

impl UniformCrossover {
    pub fn new() -> (r: Self) {
        UniformCrossover
    }

    /// Combines two parents of equal length with one coin flip per gene.
    pub fn crossover<G: Copy>(
        &self,
        parent_a: &Chromosome<G>,
        parent_b: &Chromosome<G>,
        coins: &Vec<bool>,
    ) -> (r: Chromosome<G>)
        requires
            parent_a@.len() == parent_b@.len(),
            coins@.len() == parent_a@.len(),
        ensures
            r@ == crossed(parent_a@, parent_b@, coins@),
            r@.len() == parent_a@.len(),
            forall|j: int|
                0 <= j < r@.len() ==> #[trigger] r@[j] == parent_a@[j] || r@[j] == parent_b@[j],
    {
        let mut genes: Vec<G> = Vec::new();
        let mut j: usize = 0;
        while j < coins.len()
            invariant
                0 <= j <= coins@.len(),
                coins@.len() == parent_a@.len(),
                parent_a@.len() == parent_b@.len(),
                genes@ =~= crossed(parent_a@, parent_b@, coins@).take(j as int),
            decreases coins@.len() - j,
        {
            let gene = if coins[j] {
                parent_a.index(j)
            } else {
                parent_b.index(j)
            };
            genes.push(gene);
            j += 1;
        }
        Chromosome::new(genes)
    }
}

/// One member of a population: a fitness score and a chromosome.
#[derive(Clone, Debug)]
pub struct Individual<G> {
    pub fitness: u32,
    pub chromosome: Chromosome<G>,
}

impl<G: Copy> Individual<G> {
    /// A fresh individual, whose fitness starts at zero.
    pub fn create(chromosome: Chromosome<G>) -> (r: Self)
        ensures
            r.fitness == 0,
            r.chromosome@ == chromosome@,
    {
        Individual { fitness: 0, chromosome }
    }
}

/// The fitness scores of a population, in order.
pub open spec fn fitnesses<G>(population: Seq<Individual<G>>) -> Seq<u32> {
    population.map_values(|i: Individual<G>| i.fitness)
}

/// Fitness figures of one generation.
#[derive(Clone, Copy, Debug, PartialEq, Eq, Structural)]
pub struct Statistics {
    min_fitness: u32,
    max_fitness: u32,
    total_fitness: u64,
    population: usize,
}

/// `s` gives the smallest, the largest and the sum of the scores in `f`,
/// and how many there are; the average is the sum over that count.
pub open spec fn describes(s: Statistics, f: Seq<u32>) -> bool {
    &&& s.population_spec() == f.len()
    &&& s.total_fitness_spec() == total(f)
    &&& forall|i: int| 0 <= i < f.len() ==> s.min_fitness_spec() <= #[trigger] f[i]
    &&& forall|i: int| 0 <= i < f.len() ==> s.max_fitness_spec() >= #[trigger] f[i]
    &&& exists|i: int| 0 <= i < f.len() && f[i] == s.min_fitness_spec()
    &&& exists|i: int| 0 <= i < f.len() && f[i] == s.max_fitness_spec()
}

impl Statistics {
    pub closed spec fn min_fitness_spec(&self) -> u32 {
        self.min_fitness
    }

    pub closed spec fn max_fitness_spec(&self) -> u32 {
        self.max_fitness
    }

    pub closed spec fn total_fitness_spec(&self) -> u64 {
        self.total_fitness
    }

    pub closed spec fn population_spec(&self) -> usize {
        self.population
    }

    /// Figures of a non-empty population, taken before it is evolved.
    pub fn new<G>(population: &Vec<Individual<G>>) -> (r: Self)
        requires
            population@.len() > 0,
            total(fitnesses(population@)) <= u64::MAX,
        ensures
            describes(r, fitnesses(population@)),
    {
        let ghost f = fitnesses(population@);
        let mut min_fitness = population[0].fitness;
        let mut max_fitness = min_fitness;
        let mut sum: u64 = 0;
        let mut i: usize = 0;
        proof {
            assert(f[0] == min_fitness);
        }
        while i < population.len()
            invariant
                0 <= i <= f.len(),
                f == fitnesses(population@),
                f.len() > 0,
                total(f) <= u64::MAX,
                sum == total(f.take(i as int)),
                forall|k: int| 0 <= k < i ==> min_fitness <= #[trigger] f[k],
                forall|k: int| 0 <= k < i ==> max_fitness >= #[trigger] f[k],
                exists|k: int| 0 <= k < f.len() && f[k] == min_fitness,
                exists|k: int| 0 <= k < f.len() && f[k] == max_fitness,
            decreases f.len() - i,
        {
            let fitness = population[i].fitness;
            proof {
                assert(f[i as int] == fitness);
                lemma_total_step(f, i as int);
                lemma_total_monotone(f, i as int + 1, f.len() as int);
                assert(f.take(f.len() as int) =~= f);
            }
            if fitness < min_fitness {
                min_fitness = fitness;
            }
            if fitness > max_fitness {
                max_fitness = fitness;
            }
            sum = sum + fitness as u64;
            i += 1;
        }
        proof {
            assert(f.take(i as int) =~= f);
        }
        Statistics { min_fitness, max_fitness, total_fitness: sum, population: population.len() }
    }

    pub fn min_fitness(&self) -> (r: u32)
        ensures
            r == self.min_fitness_spec(),
    {
        self.min_fitness
    }

    pub fn max_fitness(&self) -> (r: u32)
        ensures
            r == self.max_fitness_spec(),
    {
        self.max_fitness
    }

    /// The sum of all fitness scores.
    pub fn total_fitness(&self) -> (r: u64)
        ensures
            r == self.total_fitness_spec(),
    {
        self.total_fitness
    }

    /// How many individuals the figures were taken over.
    pub fn population(&self) -> (r: usize)
        ensures
            r == self.population_spec(),
    {
        self.population
    }
}


/// The random draws that produce one child: a point on the roulette wheel
/// for each parent and a coin flip per gene.
#[derive(Clone, Debug)]
pub struct Pairing {
    pub point_a: u64,
    pub point_b: u64,
    pub coins: Vec<bool>,
}

/// The child that `p` makes from `population`, before mutation.
pub open spec fn child_of<G>(population: Seq<Individual<G>>, p: Pairing) -> Seq<G> {
    let f = fitnesses(population);
    crossed(
        population[wheel_index(f, p.point_a as int)].chromosome@,
        population[wheel_index(f, p.point_b as int)].chromosome@,
        p.coins@,
    )
}

/// Draws that fit a population: one pairing per individual, points below
/// the total fitness, and one coin per gene of every chromosome.
pub open spec fn pairings_fit<G>(population: Seq<Individual<G>>, draws: Seq<Pairing>) -> bool {
    &&& draws.len() == population.len()
    &&& forall|i: int|
        0 <= i < draws.len() ==> (#[trigger] draws[i]).point_a < total(fitnesses(population))
            && draws[i].point_b < total(fitnesses(population))
    &&& forall|i: int, k: int|
        0 <= i < draws.len() && 0 <= k < population.len() ==> (#[trigger] draws[i]).coins@.len()
            == (#[trigger] population[k]).chromosome@.len()
}

/// Selection and crossover composed into one generation step. Mutation of
/// the genes, which are real numbers, is left to the caller.
#[derive(Clone, Copy, Debug)]
pub struct GeneticAlgorithm {
    selection_method: RouletteWheelSelection,
    crossover_method: UniformCrossover,
}

impl GeneticAlgorithm {
    pub fn new(selection_method: RouletteWheelSelection, crossover_method: UniformCrossover) -> (r:
        Self) {
        GeneticAlgorithm { selection_method, crossover_method }
    }

    /// One generation: the statistics of the given population, and for each
    /// of its slots a child of two parents chosen on the roulette wheel.
    pub fn evolve_with_draws<G: Copy>(
        &self,
        population: &Vec<Individual<G>>,
        draws: &Vec<Pairing>,
    ) -> (r: (
        Vec<Chromosome<G>>,
        Statistics,
    ))
        requires
            population@.len() > 0,
            total(fitnesses(population@)) <= u64::MAX,
            pairings_fit(population@, draws@),
        ensures
            r.0@.len() == population@.len(),
            describes(r.1, fitnesses(population@)),
            forall|i: int|
                0 <= i < r.0@.len() ==> (#[trigger] r.0@[i])@ == child_of(population@, draws@[i]),
    {
        let stats = Statistics::new(population);
        let mut fits: Vec<u32> = Vec::new();
        let mut k: usize = 0;
        while k < population.len()
            invariant
                0 <= k <= population@.len(),
                fits@ =~= fitnesses(population@).take(k as int),
            decreases population@.len() - k,
        {
            fits.push(population[k].fitness);
            k += 1;
        }
        proof {
            assert(fits@ =~= fitnesses(population@));
        }
        let mut children: Vec<Chromosome<G>> = Vec::new();
        let mut i: usize = 0;
        while i < draws.len()
            invariant
                0 <= i <= draws@.len(),
                fits@ == fitnesses(population@),
                pairings_fit(population@, draws@),
                children@.len() == i,
                forall|q: int|
                    0 <= q < i ==> (#[trigger] children@[q])@ == child_of(population@, draws@[q]),
            decreases draws@.len() - i,
        {
            let draw = &draws[i];
            let a = self.selection_method.select(&fits, draw.point_a);
            let b = self.selection_method.select(&fits, draw.point_b);
            proof {
                assert(draws@[i as int].coins@.len() == population@[a as int].chromosome@.len());
                assert(draws@[i as int].coins@.len() == population@[b as int].chromosome@.len());
            }
            let child = self.crossover_method.crossover(
                &population[a].chromosome,
                &population[b].chromosome,
                &draw.coins,
            );
            children.push(child);
            i += 1;
        }
        (children, stats)
    }
}


/// All chromosomes of the population have the same length.
pub open spec fn same_length<G>(population: Seq<Individual<G>>) -> bool {
    forall|k: int, q: int|
        0 <= k < population.len() && 0 <= q < population.len() ==> (
        #[trigger] population[k]).chromosome@.len() == (#[trigger] population[q]).chromosome@.len()
}

impl GeneticAlgorithm {
    /// Draws from `rng` what one generation needs: for each slot two points
    /// on the roulette wheel and a coin flip per gene.
    pub fn draw_pairings<G: Copy>(&self, rng: &mut StdRng, population: &Vec<Individual<G>>) -> (r:
        Vec<Pairing>)
        requires
            population@.len() > 0,
            0 < total(fitnesses(population@)) <= u64::MAX,
            same_length(population@),
        ensures
            pairings_fit(population@, r@),
    {
        let stats = Statistics::new(population);
        let wheel = stats.total_fitness();
        let genes = population[0].chromosome.len();
        let mut draws: Vec<Pairing> = Vec::new();
        let mut i: usize = 0;
        while i < population.len()
            invariant
                0 <= i <= population@.len(),
                population@.len() > 0,
                wheel == total(fitnesses(population@)),
                wheel > 0,
                genes == population@[0].chromosome@.len(),
                same_length(population@),
                draws@.len() == i,
                forall|q: int|
                    0 <= q < i ==> (#[trigger] draws@[q]).point_a < wheel && draws@[q].point_b
                        < wheel && draws@[q].coins@.len() == genes,
            decreases population@.len() - i,
        {
            let point_a = draw_below(rng, wheel);
            let point_b = draw_below(rng, wheel);
            let mut coins: Vec<bool> = Vec::new();
            let mut j: usize = 0;
            while j < genes
                invariant
                    0 <= j <= genes,
                    coins@.len() == j,
                decreases genes - j,
            {
                coins.push(flip_coin(rng));
                j += 1;
            }
            draws.push(Pairing { point_a, point_b, coins });
            i += 1;
        }
        proof {
            assert forall|q: int, k: int|
                0 <= q < draws@.len() && 0 <= k < population@.len() implies (#[trigger] draws@[q]).coins@.len()
                == (#[trigger] population@[k]).chromosome@.len() by {
                assert(population@[k].chromosome@.len() == population@[0].chromosome@.len());
            }
        }
        draws
    }

    /// One generation with its random draws taken from `rng`: the statistics
    /// of the given population, and as many children as it has members, each
    /// a uniform crossover of two parents chosen on the roulette wheel.
    pub fn evolve<G: Copy>(&self, rng: &mut StdRng, population: &Vec<Individual<G>>) -> (r: (
        Vec<Chromosome<G>>,
        Statistics,
    ))
        requires
            population@.len() > 0,
            0 < total(fitnesses(population@)) <= u64::MAX,
            same_length(population@),
        ensures
            r.0@.len() == population@.len(),
            describes(r.1, fitnesses(population@)),
            exists|draws: Seq<Pairing>|
                pairings_fit(population@, draws) && forall|i: int|
                    0 <= i < r.0@.len() ==> (#[trigger] r.0@[i])@ == child_of(population@, draws[i]),
    {
        let draws = self.draw_pairings(rng, population);
        let r = self.evolve_with_draws(population, &draws);
        proof {
            assert(pairings_fit(population@, draws@));
        }
        r
    }
}

} // verus!
