use vstd::prelude::*;

verus! {

/// Shape of one layer: how many neurons it holds.
#[derive(Clone, Copy, Debug, PartialEq, Eq, Structural)]
pub struct LayerTopology {
    pub neurons: usize,
}

/// Why a flat weight sequence could not be turned into a network.
#[derive(Clone, Copy, Debug, PartialEq, Eq, Structural)]
pub enum WeightsError {
    NotEnoughWeights,
    TooManyWeights,
}

/// One neuron: a bias and one weight per input of its layer.
#[derive(Clone, Debug)]
pub struct Neuron<W> {
    pub bias: W,
    pub weights: Vec<W>,
}

/// One layer: an ordered sequence of neurons.
#[derive(Clone, Debug)]
pub struct Layer<W> {
    pub neurons: Vec<Neuron<W>>,
}

/// A fixed-topology feed-forward network over weights of type `W`.
#[derive(Clone, Debug)]
pub struct Network<W> {
    pub layers: Vec<Layer<W>>,
}

impl<W> View for Neuron<W> {
    type V = (W, Seq<W>);

    open spec fn view(&self) -> (W, Seq<W>) {
        (self.bias, self.weights@)
    }
}

impl<W> View for Layer<W> {
    type V = Seq<(W, Seq<W>)>;

    open spec fn view(&self) -> Seq<(W, Seq<W>)> {
        self.neurons@.map_values(|n: Neuron<W>| n@)
    }
}

impl<W> View for Network<W> {
    type V = Seq<Seq<(W, Seq<W>)>>;

    open spec fn view(&self) -> Seq<Seq<(W, Seq<W>)>> {
        self.layers@.map_values(|l: Layer<W>| l@)
    }
}

/// The canonical flat form of one neuron: its bias, then its weights.
pub open spec fn neuron_flat<W>(n: (W, Seq<W>)) -> Seq<W> {
    seq![n.0] + n.1
}

/// The flat form of a layer: its neurons' flat forms, in order.
pub open spec fn layer_flat<W>(l: Seq<(W, Seq<W>)>) -> Seq<W>
    decreases l.len(),
{
    if l.len() == 0 {
        Seq::empty()
    } else {
        layer_flat(l.drop_last()) + neuron_flat(l.last())
    }
}

/// The flat form of a network: its layers' flat forms, in order.
pub open spec fn net_flat<W>(n: Seq<Seq<(W, Seq<W>)>>) -> Seq<W>
    decreases n.len(),
{
    if n.len() == 0 {
        Seq::empty()
    } else {
        net_flat(n.drop_last()) + layer_flat(n.last())
    }
}

/// Number of values one layer takes: per neuron a bias and a weight per input.
pub open spec fn layer_size(inputs: int, outputs: int) -> int {
    outputs * (inputs + 1)
}

/// Number of values a network of the given topology takes.
pub open spec fn required_weights(topology: Seq<LayerTopology>) -> int
    decreases topology.len(),
{
    if topology.len() < 2 {
        0
    } else {
        required_weights(topology.drop_last()) + layer_size(
            topology[topology.len() - 2].neurons as int,
            topology.last().neurons as int,
        )
    }
}

/// A layer with `outputs` neurons of `inputs` weights each.
pub open spec fn layer_shaped<W>(l: Seq<(W, Seq<W>)>, inputs: int, outputs: int) -> bool {
    &&& l.len() == outputs
    &&& forall|j: int| 0 <= j < l.len() ==> (#[trigger] l[j]).1.len() == inputs
}

/// Layer `i` of the network joins topology entries `i` and `i + 1`.
pub open spec fn shaped<W>(n: Seq<Seq<(W, Seq<W>)>>, topology: Seq<LayerTopology>) -> bool {
    &&& topology.len() == n.len() + 1
    &&& forall|i: int|
        0 <= i < n.len() ==> layer_shaped(
            #[trigger] n[i],
            topology[i].neurons as int,
            topology[i + 1].neurons as int,
        )
}


/// Taking more layers of a topology never asks for fewer values.
pub proof fn lemma_required_monotone(topology: Seq<LayerTopology>, a: int, b: int)
    requires
        0 <= a <= b <= topology.len(),
    ensures
        required_weights(topology.take(a)) <= required_weights(topology.take(b)),
    decreases b - a,
{
    if a < b {
        lemma_required_monotone(topology, a, b - 1);
        let t = topology.take(b);
        assert(t.drop_last() =~= topology.take(b - 1));
        if b >= 2 {
            assert(layer_size(t[b - 2].neurons as int, t.last().neurons as int) >= 0)
                by (nonlinear_arith)
                requires
                    t[b - 2].neurons >= 0,
                    t.last().neurons >= 0,
            ;
        }
    }
}

/// Counts the values a network of this topology takes; `None` when that
/// count does not fit in a `usize`.
pub fn weight_count(topology: &[LayerTopology]) -> (r: Option<usize>)
    ensures
        r matches Some(n) ==> n as int == required_weights(topology@),
        r is None ==> required_weights(topology@) > usize::MAX,
{
    if topology.len() < 2 {
        return Some(0);
    }
    let mut total: usize = 0;
    let mut i: usize = 1;
    proof {
        assert(topology@.take(1).len() < 2);
    }
    while i < topology.len()
        invariant
            1 <= i <= topology@.len(),
            total as int == required_weights(topology@.take(i as int)),
        decreases topology@.len() - i,
    {
        let ghost t = topology@.take(i as int + 1);
        proof {
            assert(t.drop_last() =~= topology@.take(i as int));
        }
        let nin = topology[i - 1].neurons;
        let nout = topology[i].neurons;
        let size = if nout == 0 {
            Some(0usize)
        } else {
            match nin.checked_add(1) {
                Some(x) => nout.checked_mul(x),
                None => None,
            }
        };
        let next = match size {
            Some(x) => total.checked_add(x),
            None => None,
        };
        proof {
            assert(t[i - 1] == topology@[i - 1] && t.last() == topology@[i as int]);
            if nout == 0 {
                assert(layer_size(nin as int, nout as int) == 0) by (nonlinear_arith)
                    requires nout == 0;
            }
            if size is None && nin as int + 1 > usize::MAX {
                assert(nout * (nin + 1) >= nin + 1) by (nonlinear_arith)
                    requires nout > 0, nin >= 0;
            }
        }
        match next {
            Some(x) => {
                total = x;
            },
            None => {
                proof {
                    lemma_required_monotone(topology@, i as int + 1, topology@.len() as int);
                    assert(topology@.take(topology@.len() as int) =~= topology@);
                }
                return None;
            },
        }
        i += 1;
    }
    proof {
        assert(topology@.take(i as int) =~= topology@);
    }
    Some(total)
}


proof fn lemma_layer_flat_len<W>(l: Seq<(W, Seq<W>)>, inputs: int)
    requires
        inputs >= 0,
        forall|j: int| 0 <= j < l.len() ==> (#[trigger] l[j]).1.len() == inputs,
    ensures
        layer_flat(l).len() == layer_size(inputs, l.len() as int),
    decreases l.len(),
{
    if l.len() > 0 {
        let k = l.len() - 1;
        assert forall|j: int| 0 <= j < l.drop_last().len() implies (#[trigger] l.drop_last()[j]).1.len()
            == inputs by {
            assert(l.drop_last()[j] == l[j]);
        }
        lemma_layer_flat_len(l.drop_last(), inputs);
        assert(layer_size(inputs, k + 1) == layer_size(inputs, k) + inputs + 1)
            by (nonlinear_arith);
    }
}

proof fn lemma_layer_flat_injective<W>(a: Seq<(W, Seq<W>)>, b: Seq<(W, Seq<W>)>, inputs: int)
    requires
        inputs >= 0,
        a.len() == b.len(),
        forall|j: int| 0 <= j < a.len() ==> (#[trigger] a[j]).1.len() == inputs,
        forall|j: int| 0 <= j < b.len() ==> (#[trigger] b[j]).1.len() == inputs,
        layer_flat(a) == layer_flat(b),
    ensures
        a == b,
    decreases a.len(),
{
    if a.len() > 0 {
        let (a0, b0) = (a.drop_last(), b.drop_last());
        assert forall|j: int| 0 <= j < a0.len() implies (#[trigger] a0[j]).1.len() == inputs by {
            assert(a0[j] == a[j]);
        }
        assert forall|j: int| 0 <= j < b0.len() implies (#[trigger] b0[j]).1.len() == inputs by {
            assert(b0[j] == b[j]);
        }
        lemma_layer_flat_len(a0, inputs);
        lemma_layer_flat_len(b0, inputs);
        let fa = layer_flat(a0);
        let fb = layer_flat(b0);
        let na = neuron_flat(a.last());
        let nb = neuron_flat(b.last());
        let f = layer_flat(a);
        assert(fa =~= f.subrange(0, fa.len() as int));
        assert(fb =~= f.subrange(0, fa.len() as int));
        assert(na =~= f.subrange(fa.len() as int, f.len() as int));
        assert(nb =~= f.subrange(fa.len() as int, f.len() as int));
        lemma_layer_flat_injective(a0, b0, inputs);
        assert(a.last().0 == na[0] && b.last().0 == nb[0]);
        assert(a.last().1 =~= na.subrange(1, na.len() as int));
        assert(b.last().1 =~= nb.subrange(1, nb.len() as int));
        assert(a =~= a0.push(a.last()));
        assert(b =~= b0.push(b.last()));
    }
}

proof fn lemma_net_flat_len<W>(n: Seq<Seq<(W, Seq<W>)>>, topology: Seq<LayerTopology>)
    requires
        shaped(n, topology),
    ensures
        net_flat(n).len() == required_weights(topology),
    decreases n.len(),
{
    if n.len() > 0 {
        let k = n.len() - 1;
        assert(shaped(n.drop_last(), topology.drop_last())) by {
            assert forall|i: int| 0 <= i < n.drop_last().len() implies layer_shaped(
                #[trigger] n.drop_last()[i],
                topology.drop_last()[i].neurons as int,
                topology.drop_last()[i + 1].neurons as int,
            ) by {
                assert(layer_shaped(n[i], topology[i].neurons as int, topology[i + 1].neurons as int));
            }
        }
        lemma_net_flat_len(n.drop_last(), topology.drop_last());
        assert(layer_shaped(n[k], topology[k].neurons as int, topology[k + 1].neurons as int));
        lemma_layer_flat_len(n.last(), topology[k].neurons as int);
    }
}

proof fn lemma_net_flat_injective<W>(
    a: Seq<Seq<(W, Seq<W>)>>,
    b: Seq<Seq<(W, Seq<W>)>>,
    topology: Seq<LayerTopology>,
)
    requires
        shaped(a, topology),
        shaped(b, topology),
        net_flat(a) == net_flat(b),
    ensures
        a == b,
    decreases a.len(),
{
    if a.len() > 0 {
        let k = a.len() - 1;
        let t0 = topology.drop_last();
        let (a0, b0) = (a.drop_last(), b.drop_last());
        assert(shaped(a0, t0)) by {
            assert forall|i: int| 0 <= i < a0.len() implies layer_shaped(
                #[trigger] a0[i],
                t0[i].neurons as int,
                t0[i + 1].neurons as int,
            ) by {
                assert(layer_shaped(a[i], topology[i].neurons as int, topology[i + 1].neurons as int));
            }
        }
        assert(shaped(b0, t0)) by {
            assert forall|i: int| 0 <= i < b0.len() implies layer_shaped(
                #[trigger] b0[i],
                t0[i].neurons as int,
                t0[i + 1].neurons as int,
            ) by {
                assert(layer_shaped(b[i], topology[i].neurons as int, topology[i + 1].neurons as int));
            }
        }
        lemma_net_flat_len(a0, t0);
        lemma_net_flat_len(b0, t0);
        let f = net_flat(a);
        let m = net_flat(a0).len() as int;
        assert(net_flat(a0) =~= f.subrange(0, m));
        assert(net_flat(b0) =~= f.subrange(0, m));
        assert(layer_flat(a.last()) =~= f.subrange(m, f.len() as int));
        assert(layer_flat(b.last()) =~= f.subrange(m, f.len() as int));
        lemma_net_flat_injective(a0, b0, t0);
        assert(layer_shaped(a[k], topology[k].neurons as int, topology[k + 1].neurons as int));
        assert(layer_shaped(b[k], topology[k].neurons as int, topology[k + 1].neurons as int));
        lemma_layer_flat_injective(a.last(), b.last(), topology[k].neurons as int);
        assert(a =~= a0.push(a.last()));
        assert(b =~= b0.push(b.last()));
    }
}

/// Round trip on the flat form: a network of a topology flattens to exactly
/// as many values as the topology takes, and it is the only network of that
/// topology with that flat form, so rebuilding from its weights gives it back.
pub proof fn lemma_from_weights_of_weights<W>(
    n: Seq<Seq<(W, Seq<W>)>>,
    m: Seq<Seq<(W, Seq<W>)>>,
    topology: Seq<LayerTopology>,
)
    requires
        shaped(n, topology),
        shaped(m, topology),
        net_flat(m) == net_flat(n),
    ensures
        net_flat(n).len() == required_weights(topology),
        m == n,
{
    lemma_net_flat_len(n, topology);
    lemma_net_flat_injective(m, n, topology);
}

impl<W: Copy> Network<W> {
    /// The layers of the network, first to last.
    pub fn layers(&self) -> (r: &Vec<Layer<W>>)
        ensures
            r == &self.layers,
    {
        &self.layers
    }

    /// Flattens the network into the canonical order: for each layer, for
    /// each neuron, its bias and then its weights.
    pub fn weights(&self) -> (r: Vec<W>)
        ensures
            r@ == net_flat(self@),
    {
        let mut r: Vec<W> = Vec::new();
        let mut i: usize = 0;
        while i < self.layers.len()
            invariant
                0 <= i <= self.layers@.len(),
                r@ == net_flat(self@.take(i as int)),
            decreases self.layers@.len() - i,
        {
            let layer = &self.layers[i];
            let ghost before = r@;
            let mut j: usize = 0;
            while j < layer.neurons.len()
                invariant
                    0 <= j <= layer.neurons@.len(),
                    before == net_flat(self@.take(i as int)),
                    r@ == before + layer_flat(layer@.take(j as int)),
                decreases layer.neurons@.len() - j,
            {
                let neuron = &layer.neurons[j];
                let ghost mid = r@;
                r.push(neuron.bias);
                let mut k: usize = 0;
                while k < neuron.weights.len()
                    invariant
                        0 <= k <= neuron.weights@.len(),
                        r@ == mid + seq![neuron.bias] + neuron.weights@.take(k as int),
                    decreases neuron.weights@.len() - k,
                {
                    r.push(neuron.weights[k]);
                    proof {
                        assert(neuron.weights@.take(k as int + 1) =~= neuron.weights@.take(
                            k as int,
                        ).push(neuron.weights@[k as int]));
                        assert(r@ =~= mid + seq![neuron.bias] + neuron.weights@.take(k as int + 1));
                    }
                    k += 1;
                }
                proof {
                    let l = layer@.take(j as int + 1);
                    assert(l.drop_last() =~= layer@.take(j as int));
                    assert(l.last() == neuron@);
                    assert(neuron.weights@.take(k as int) =~= neuron.weights@);
                    assert(r@ =~= before + layer_flat(l));
                }
                j += 1;
            }
            proof {
                let n = self@.take(i as int + 1);
                assert(layer@.take(j as int) =~= layer@);
                assert(n.drop_last() =~= self@.take(i as int));
                assert(n.last() == layer@);
            }
            i += 1;
        }
        proof {
            assert(self@.take(i as int) =~= self@);
        }
        r
    }
}


impl<W: Copy> Network<W> {
    /// Reads `nout` neurons of `nin` weights each from `weights`, starting at
    /// `pos`, and returns them with the position after them.
    fn layer_from_weights(weights: &Vec<W>, pos: usize, nin: usize, nout: usize) -> (r: (
        Layer<W>,
        usize,
    ))
        requires
            pos + layer_size(nin as int, nout as int) <= weights@.len(),
        ensures
            r.1 == pos + layer_size(nin as int, nout as int),
            layer_shaped(r.0@, nin as int, nout as int),
            layer_flat(r.0@) == weights@.subrange(pos as int, r.1 as int),
    {
        let len = weights.len();
        let mut neurons: Vec<Neuron<W>> = Vec::new();
        let mut p: usize = pos;
        let mut j: usize = 0;
        while j < nout
            invariant
                0 <= j <= nout,
                pos + layer_size(nin as int, nout as int) <= weights@.len(),
                len == weights@.len(),
                pos <= p <= weights@.len(),
                p == pos + layer_size(nin as int, j as int),
                layer_shaped(neurons@.map_values(|n: Neuron<W>| n@), nin as int, j as int),
                layer_flat(neurons@.map_values(|n: Neuron<W>| n@)) == weights@.subrange(
                    pos as int,
                    p as int,
                ),
            decreases nout - j,
        {
            proof {
                assert(layer_size(nin as int, j as int + 1) == layer_size(nin as int, j as int)
                    + nin + 1) by (nonlinear_arith);
                assert(layer_size(nin as int, j as int + 1) <= layer_size(nin as int, nout as int))
                    by (nonlinear_arith)
                    requires
                        j < nout,
                ;
            }
            let bias = weights[p];
            let start = p + 1;
            let mut ws: Vec<W> = Vec::new();
            let mut k: usize = 0;
            while k < nin
                invariant
                    0 <= k <= nin,
                    len == weights@.len(),
                    start + nin <= weights@.len(),
                    ws@ == weights@.subrange(start as int, start + k),
                decreases nin - k,
            {
                ws.push(weights[start + k]);
                proof {
                    assert(ws@ =~= weights@.subrange(start as int, start + k + 1));
                }
                k += 1;
            }
            let neuron = Neuron { bias, weights: ws };
            let ghost old_view = neurons@.map_values(|n: Neuron<W>| n@);
            neurons.push(neuron);
            proof {
                let v = neurons@.map_values(|n: Neuron<W>| n@);
                assert(v.drop_last() =~= old_view);
                assert(v.last() == neuron@);
                assert(weights@.subrange(pos as int, start + nin) =~= weights@.subrange(
                    pos as int,
                    p as int,
                ) + seq![bias] + ws@);
                assert(layer_flat(v) =~= weights@.subrange(pos as int, start + nin));
                assert forall|q: int| 0 <= q < v.len() implies (#[trigger] v[q]).1.len() == nin by {
                    if q < j {
                        assert(v[q] == old_view[q]);
                    }
                }
            }
            p = start + nin;
            j += 1;
        }
        (Layer { neurons }, p)
    }

    /// Rebuilds a network of the given topology from its flat form. Fails
    /// with `NotEnoughWeights` when fewer values are given than the
    /// topology takes, and with `TooManyWeights` when values are left over.
    pub fn from_weights(topology: &[LayerTopology], weights: &Vec<W>) -> (r: Result<
        Network<W>,
        WeightsError,
    >)
        requires
            topology@.len() > 1,
        ensures
            r == Err::<Network<W>, WeightsError>(WeightsError::NotEnoughWeights) <==> weights@.len()
                < required_weights(topology@),
            r == Err::<Network<W>, WeightsError>(WeightsError::TooManyWeights) <==> weights@.len()
                > required_weights(topology@),
            r is Ok <==> weights@.len() == required_weights(topology@),
            r matches Ok(n) ==> shaped(n@, topology@) && net_flat(n@) == weights@,
    {
        let n = weights.len();
        let total = match weight_count(topology) {
            Some(t) => t,
            None => {
                return Err(WeightsError::NotEnoughWeights);
            },
        };
        if weights.len() < total {
            return Err(WeightsError::NotEnoughWeights);
        }
        if weights.len() > total {
            return Err(WeightsError::TooManyWeights);
        }
        let mut layers: Vec<Layer<W>> = Vec::new();
        let mut pos: usize = 0;
        let mut i: usize = 0;
        proof {
            assert(topology@.take(1).len() < 2);
        }
        while i < topology.len() - 1
            invariant
                0 <= i < topology@.len(),
                weights@.len() == required_weights(topology@),
                pos == required_weights(topology@.take(i as int + 1)),
                shaped(layers@.map_values(|l: Layer<W>| l@), topology@.take(i as int + 1)),
                net_flat(layers@.map_values(|l: Layer<W>| l@)) == weights@.take(pos as int),
            decreases topology@.len() - i,
        {
            let ghost t = topology@.take(i as int + 2);
            proof {
                assert(t.drop_last() =~= topology@.take(i as int + 1));
                assert(t[i as int] == topology@[i as int] && t.last() == topology@[i + 1]);
                lemma_required_monotone(topology@, i as int + 2, topology@.len() as int);
                assert(topology@.take(topology@.len() as int) =~= topology@);
            }
            let nin = topology[i].neurons;
            let nout = topology[i + 1].neurons;
            let (layer, next) = Self::layer_from_weights(weights, pos, nin, nout);
            let ghost old_view = layers@.map_values(|l: Layer<W>| l@);
            layers.push(layer);
            proof {
                let v = layers@.map_values(|l: Layer<W>| l@);
                assert(v.drop_last() =~= old_view);
                assert(v.last() == layer@);
                assert(weights@.take(next as int) =~= weights@.take(pos as int)
                    + weights@.subrange(pos as int, next as int));
                assert forall|q: int| 0 <= q < v.len() implies layer_shaped(
                    #[trigger] v[q],
                    t[q].neurons as int,
                    t[q + 1].neurons as int,
                ) by {
                    if q < i {
                        assert(v[q] == old_view[q]);
                    }
                }
            }
            pos = next;
            i += 1;
        }
        proof {
            assert(topology@.take(i as int + 1) =~= topology@);
            assert(weights@.take(pos as int) =~= weights@);
        }
        Ok(Network { layers })
    }

    /// Replaces this network's weights by those read from `weights` for the
    /// given topology; leaves the network as it was when that fails.
    pub fn from_weights_inplace(&mut self, topology: &[LayerTopology], weights: &Vec<W>) -> (r:
        Result<(), WeightsError>)
        requires
            topology@.len() > 1,
        ensures
            r is Ok <==> weights@.len() == required_weights(topology@),
            r == Err::<(), WeightsError>(WeightsError::NotEnoughWeights) <==> weights@.len()
                < required_weights(topology@),
            r == Err::<(), WeightsError>(WeightsError::TooManyWeights) <==> weights@.len()
                > required_weights(topology@),
            r is Ok ==> shaped(final(self)@, topology@) && net_flat(final(self)@) == weights@,
            r is Err ==> final(self)@ == old(self)@,
    {
        match Self::from_weights(topology, weights) {
            Ok(n) => {
                self.layers = n.layers;
                Ok(())
            },
            Err(e) => Err(e),
        }
    }
}

} // verus!
