use evo_sim::simulation::{
    chaser_fitness, eat_hervors, eat_plants, hervor_fitness, split_among_worlds, Clock, Config,
    GENERATION_LENGTH,
};

#[test]
fn config_constructors() {
    let c = Config::default();
    assert_eq!(c, Config::new(GENERATION_LENGTH, 1, 2, 20, 1000));
    let l = Config::low_new(30, 20, 5, 2);
    assert_eq!(l.generation_length, 2500);
    assert_eq!((l.nhervors, l.nchasers, l.nplants, l.nworlds), (30, 20, 5, 2));
}

#[test]
fn fitness_formulas() {
    assert_eq!(hervor_fitness(3, false), 43);
    assert_eq!(hervor_fitness(3, true), 3);
    assert_eq!(hervor_fitness(0, true), 0);
    assert_eq!(chaser_fitness(true), 10);
    assert_eq!(chaser_fitness(false), 0);
}

#[test]
fn a_generation_takes_length_plus_one_ticks() {
    let gl = 3;
    let mut clock = Clock::new();
    let mut evolutions = Vec::new();
    for _ in 0..gl + 1 {
        evolutions.push(clock.tick(gl));
    }
    assert_eq!(evolutions, vec![false, false, false, true]);
    assert_eq!(clock.generation(), 1);
    assert_eq!(clock.age(), 0);
    let mut count = 0;
    for _ in 0..gl + 1 {
        if clock.tick(gl) {
            count += 1;
        }
    }
    assert_eq!(count, 1);
    assert_eq!(clock.generation(), 2);
}

#[test]
fn zero_length_generation_evolves_every_tick() {
    let mut clock = Clock::new();
    assert!(clock.tick(0));
    assert!(clock.tick(0));
    assert_eq!(clock.generation(), 2);
}

#[test]
fn split_hands_out_consecutive_slices() {
    let worlds = split_among_worlds(vec![1, 2, 3, 4, 5, 6], 3, 2);
    assert_eq!(worlds, vec![vec![1, 2], vec![3, 4], vec![5, 6]]);
    let none: Vec<Vec<i32>> = split_among_worlds(vec![], 0, 4);
    assert!(none.is_empty());
}

#[test]
fn first_prey_in_range_eats_the_plant() {
    let near = vec![vec![true, false, true], vec![true, true, false]];
    let mut satiation = vec![0, 5];
    let mut eaten = vec![false, false, true];
    eat_plants(&near, &mut satiation, &mut eaten);
    assert_eq!(eaten, vec![true, true, true]);
    assert_eq!(satiation, vec![1, 6]);
}

#[test]
fn first_predator_in_range_makes_the_kill() {
    let near = vec![vec![false, true, true], vec![true, true, false], vec![false, false, false]];
    let mut killed = vec![false, false, true];
    let mut dead = vec![false, false, true];
    eat_hervors(&near, &mut killed, &mut dead);
    assert_eq!(dead, vec![true, true, true]);
    assert_eq!(killed, vec![true, true, true]);

    let near = vec![vec![true], vec![true]];
    let mut killed = vec![false, false];
    let mut dead = vec![false];
    eat_hervors(&near, &mut killed, &mut dead);
    assert_eq!(killed, vec![true, false]);
    assert_eq!(dead, vec![true]);
}
