use evo_sim::brain::{ChaserBrain, HervorBrain};
use evo_sim::genetic::Chromosome;
use evo_sim::network::{weight_count, LayerTopology, Network, WeightsError};

fn topology(sizes: &[usize]) -> Vec<LayerTopology> {
    sizes.iter().map(|&neurons| LayerTopology { neurons }).collect()
}

fn values(n: usize) -> Vec<f32> {
    (0..n).map(|i| i as f32 * 0.25 - 1.0).collect()
}

#[test]
fn weight_count_sums_bias_and_weights_per_neuron() {
    assert_eq!(weight_count(&topology(&[3, 2, 1])), Some(2 * 4 + 3));
    assert_eq!(weight_count(&topology(&[2, 4, 2])), Some(22));
    assert_eq!(weight_count(&topology(&[5])), Some(0));
    assert_eq!(weight_count(&topology(&[usize::MAX, 2])), None);
}

#[test]
fn from_weights_then_weights_gives_the_same_values() {
    let topo = topology(&[3, 2, 1]);
    let w = values(11);
    let net = Network::from_weights(&topo, &w).unwrap();
    assert_eq!(net.weights(), w);
    assert_eq!(net.layers().len(), 2);
    assert_eq!(net.layers()[0].neurons.len(), 2);
    assert_eq!(net.layers()[0].neurons[0].bias, w[0]);
    assert_eq!(net.layers()[0].neurons[0].weights, vec![w[1], w[2], w[3]]);
    assert_eq!(net.layers()[1].neurons[0].bias, w[8]);
    let again = Network::from_weights(&topo, &net.weights()).unwrap();
    assert_eq!(again.weights(), net.weights());
}

#[test]
fn from_weights_rejects_too_few_values() {
    let topo = topology(&[3, 2, 1]);
    let r = Network::<f32>::from_weights(&topo, &values(10));
    assert_eq!(r.err(), Some(WeightsError::NotEnoughWeights));
    let r = Network::<f32>::from_weights(&topo, &Vec::new());
    assert_eq!(r.err(), Some(WeightsError::NotEnoughWeights));
}

#[test]
fn from_weights_rejects_too_many_values() {
    let topo = topology(&[3, 2, 1]);
    let r = Network::<f32>::from_weights(&topo, &values(12));
    assert_eq!(r.err(), Some(WeightsError::TooManyWeights));
}

#[test]
fn from_weights_inplace_replaces_or_keeps() {
    let topo = topology(&[1, 1]);
    let mut net = Network::from_weights(&topo, &vec![1.0f32, 2.0]).unwrap();
    assert_eq!(net.from_weights_inplace(&topo, &vec![3.0, 4.0]), Ok(()));
    assert_eq!(net.weights(), vec![3.0, 4.0]);
    assert_eq!(
        net.from_weights_inplace(&topo, &vec![5.0]),
        Err(WeightsError::NotEnoughWeights)
    );
    assert_eq!(net.weights(), vec![3.0, 4.0]);
}

#[test]
fn role_topologies_follow_the_cell_count() {
    let h: Vec<usize> = HervorBrain::<f32>::topology(3).iter().map(|t| t.neurons).collect();
    assert_eq!(h, vec![6, 12, 2]);
    let c: Vec<usize> = ChaserBrain::<f32>::topology(3).iter().map(|t| t.neurons).collect();
    assert_eq!(c, vec![3, 6, 2]);
}

#[test]
fn brain_chromosome_round_trip() {
    let genes = values(22);
    let brain = HervorBrain::from_chromosome(&Chromosome::new(genes.clone()), 1).unwrap();
    assert_eq!(brain.as_chromosome().into_genes(), genes);
    let short = HervorBrain::from_chromosome(&Chromosome::new(values(21)), 1);
    assert_eq!(short.err(), Some(WeightsError::NotEnoughWeights));
    let genes = values(10);
    let brain = ChaserBrain::from_chromosome(&Chromosome::new(genes.clone()), 1).unwrap();
    assert_eq!(brain.as_chromosome().genes(), &genes);
    let long = ChaserBrain::from_chromosome(&Chromosome::new(values(11)), 1);
    assert_eq!(long.err(), Some(WeightsError::TooManyWeights));
}
