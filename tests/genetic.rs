use evo_sim::genetic::{
    Chromosome, GeneticAlgorithm, Individual, Pairing, RouletteWheelSelection, Statistics,
    UniformCrossover,
};
use rand::rngs::StdRng;
use rand::SeedableRng;

fn individual(fitness: u32, genes: Vec<i32>) -> Individual<i32> {
    Individual { fitness, chromosome: Chromosome::new(genes) }
}

#[test]
fn crossover_takes_each_gene_from_the_coin_side() {
    let a = Chromosome::new(vec![1, 2, 3, 4]);
    let b = Chromosome::new(vec![10, 20, 30, 40]);
    let child = UniformCrossover::new().crossover(&a, &b, &vec![true, false, false, true]);
    assert_eq!(child.len(), 4);
    assert_eq!(child.into_genes(), vec![1, 20, 30, 4]);
}

#[test]
fn crossover_of_empty_parents_is_empty() {
    let a: Chromosome<i32> = Chromosome::new(vec![]);
    let child = UniformCrossover::new().crossover(&a, &a.clone(), &vec![]);
    assert_eq!(child.len(), 0);
}

#[test]
fn roulette_wheel_picks_the_slot_of_the_point() {
    let s = RouletteWheelSelection::new();
    let f = vec![0, 3, 1, 0, 2];
    assert_eq!(s.select(&f, 0), 1);
    assert_eq!(s.select(&f, 2), 1);
    assert_eq!(s.select(&f, 3), 2);
    assert_eq!(s.select(&f, 4), 4);
    assert_eq!(s.select(&f, 5), 4);
}

#[test]
fn statistics_describe_the_population() {
    let pop = vec![individual(4, vec![]), individual(1, vec![]), individual(7, vec![])];
    let st = Statistics::new(&pop);
    assert_eq!(st.min_fitness(), 1);
    assert_eq!(st.max_fitness(), 7);
    assert_eq!(st.total_fitness(), 12);
    assert_eq!(st.population(), 3);
}

#[test]
fn individual_starts_with_zero_fitness() {
    let i = Individual::create(Chromosome::new(vec![5, 6]));
    assert_eq!(i.fitness, 0);
    assert_eq!(i.chromosome.genes(), &vec![5, 6]);
    assert_eq!(i.chromosome.index(1), 6);
}

#[test]
fn evolve_with_draws_keeps_size_and_reports_input_statistics() {
    let ga = GeneticAlgorithm::new(RouletteWheelSelection::new(), UniformCrossover::new());
    let pop = vec![individual(0, vec![1, 1]), individual(2, vec![2, 2]), individual(1, vec![3, 3])];
    let draws = vec![
        Pairing { point_a: 0, point_b: 2, coins: vec![true, false] },
        Pairing { point_a: 1, point_b: 1, coins: vec![false, false] },
        Pairing { point_a: 2, point_b: 0, coins: vec![false, true] },
    ];
    let (children, stats) = ga.evolve_with_draws(&pop, &draws);
    assert_eq!(children.len(), 3);
    assert_eq!(children[0].genes(), &vec![2, 3]);
    assert_eq!(children[1].genes(), &vec![2, 2]);
    assert_eq!(children[2].genes(), &vec![2, 3]);
    assert_eq!(stats.min_fitness(), 0);
    assert_eq!(stats.max_fitness(), 2);
    assert_eq!(stats.total_fitness(), 3);
    assert_eq!(stats.population(), 3);
}

#[test]
fn evolve_with_rng_keeps_size_and_takes_genes_from_fit_parents() {
    let ga = GeneticAlgorithm::new(RouletteWheelSelection::new(), UniformCrossover::new());
    let mut rng = StdRng::seed_from_u64(7);
    let pop = vec![
        individual(0, vec![1, 1, 1]),
        individual(5, vec![2, 2, 2]),
        individual(0, vec![3, 3, 3]),
        individual(5, vec![4, 4, 4]),
    ];
    let (children, stats) = ga.evolve(&mut rng, &pop);
    assert_eq!(children.len(), 4);
    for c in &children {
        assert_eq!(c.len(), 3);
        for g in c.genes() {
            assert!(*g == 2 || *g == 4);
        }
    }
    assert_eq!(stats.min_fitness(), 0);
    assert_eq!(stats.max_fitness(), 5);
    assert_eq!(stats.total_fitness(), 10);
}

#[test]
fn draw_pairings_fit_the_population() {
    let ga = GeneticAlgorithm::new(RouletteWheelSelection::new(), UniformCrossover::new());
    let mut rng = StdRng::seed_from_u64(1);
    let pop = vec![individual(3, vec![1; 50]), individual(1, vec![2; 50])];
    let draws = ga.draw_pairings(&mut rng, &pop);
    assert_eq!(draws.len(), 2);
    let mut heads = 0;
    for d in &draws {
        assert!(d.point_a < 4 && d.point_b < 4);
        assert_eq!(d.coins.len(), 50);
        heads += d.coins.iter().filter(|c| **c).count();
    }
    assert!(heads > 0 && heads < 100);
}
