use vstd::prelude::*;
use crate::genetic::Chromosome;
use crate::network::{
    LayerTopology,
    Network,
    WeightsError,
    net_flat,
    required_weights,
    shaped,
};

verus! {

/// Prey see plants and predators: two vision passes of `cells` each, a
/// hidden layer four times as wide, and two outputs.
pub open spec fn hervor_topology_spec(cells: int) -> Seq<LayerTopology> {
    seq![
        LayerTopology { neurons: (2 * cells) as usize },
        LayerTopology { neurons: (4 * cells) as usize },
        LayerTopology { neurons: 2 },
    ]
}

/// Predators see prey only: one vision pass, a hidden layer twice as wide,
/// and two outputs.
pub open spec fn chaser_topology_spec(cells: int) -> Seq<LayerTopology> {
    seq![
        LayerTopology { neurons: cells as usize },
        LayerTopology { neurons: (2 * cells) as usize },
        LayerTopology { neurons: 2 },
    ]
}

/// The brain of a prey agent.
#[derive(Clone, Debug)]
pub struct HervorBrain<W> {
    pub nn: Network<W>,
}

/// The brain of a predator agent.
#[derive(Clone, Debug)]
pub struct ChaserBrain<W> {
    pub nn: Network<W>,
}

impl<W: Copy> HervorBrain<W> {
    /// The topology for an eye of `cells` cells.
    pub fn topology(cells: usize) -> (r: Vec<LayerTopology>)
        requires
            4 * cells <= usize::MAX,
        ensures
            r@ == hervor_topology_spec(cells as int),
    {
        let r = vec![
            LayerTopology { neurons: cells * 2 },
            LayerTopology { neurons: 4 * cells },
            LayerTopology { neurons: 2 },
        ];
        proof {
            assert(r@ =~= hervor_topology_spec(cells as int));
        }
        r
    }

    /// The network's weights as a chromosome.
    pub fn as_chromosome(&self) -> (r: Chromosome<W>)
        ensures
            r@ == net_flat(self.nn@),
    {
        Chromosome::new(self.nn.weights())
    }

    /// A brain for an eye of `cells` cells, built from a chromosome.
    pub fn from_chromosome(chromosome: &Chromosome<W>, cells: usize) -> (r: Result<
        Self,
        WeightsError,
    >)
        requires
            4 * cells <= usize::MAX,
        ensures
            r is Ok <==> chromosome@.len() == required_weights(hervor_topology_spec(cells as int)),
            r is Err ==> (r->Err_0 == WeightsError::NotEnoughWeights <==> chromosome@.len()
                < required_weights(hervor_topology_spec(cells as int))),
            r matches Ok(b) ==> shaped(b.nn@, hervor_topology_spec(cells as int)) && net_flat(
                b.nn@,
            ) == chromosome@,
    {
        let topology = Self::topology(cells);
        match Network::from_weights(topology.as_slice(), chromosome.genes()) {
            Ok(nn) => Ok(HervorBrain { nn }),
            Err(e) => Err(e),
        }
    }
}

impl<W: Copy> ChaserBrain<W> {
    /// The topology for an eye of `cells` cells.
    pub fn topology(cells: usize) -> (r: Vec<LayerTopology>)
        requires
            2 * cells <= usize::MAX,
        ensures
            r@ == chaser_topology_spec(cells as int),
    {
        let r = vec![
            LayerTopology { neurons: cells },
            LayerTopology { neurons: 2 * cells },
            LayerTopology { neurons: 2 },
        ];
        proof {
            assert(r@ =~= chaser_topology_spec(cells as int));
        }
        r
    }

    /// The network's weights as a chromosome.
    pub fn as_chromosome(&self) -> (r: Chromosome<W>)
        ensures
            r@ == net_flat(self.nn@),
    {
        Chromosome::new(self.nn.weights())
    }

    /// A brain for an eye of `cells` cells, built from a chromosome.
    pub fn from_chromosome(chromosome: &Chromosome<W>, cells: usize) -> (r: Result<
        Self,
        WeightsError,
    >)
        requires
            2 * cells <= usize::MAX,
        ensures
            r is Ok <==> chromosome@.len() == required_weights(chaser_topology_spec(cells as int)),
            r is Err ==> (r->Err_0 == WeightsError::NotEnoughWeights <==> chromosome@.len()
                < required_weights(chaser_topology_spec(cells as int))),
            r matches Ok(b) ==> shaped(b.nn@, chaser_topology_spec(cells as int)) && net_flat(
                b.nn@,
            ) == chromosome@,
    {
        let topology = Self::topology(cells);
        match Network::from_weights(topology.as_slice(), chromosome.genes()) {
            Ok(nn) => Ok(ChaserBrain { nn }),
            Err(e) => Err(e),
        }
    }
}

} // verus!
