use vstd::prelude::*;

verus! {

/// Ticks in one generation unless configured otherwise.
pub const GENERATION_LENGTH: usize = 2500;

/// Fitness a prey agent earns for being alive at the end of a generation.
pub const SURVIVAL_BONUS: u32 = 40;

/// Fitness a predator earns for having made a kill in a generation.
pub const KILL_REWARD: u32 = 10;

/// The population shape of a run and the length of a generation.
#[derive(Clone, Copy, Debug, PartialEq, Eq, Structural)]
pub struct Config {
    pub generation_length: usize,
    pub nhervors: usize,
    pub nchasers: usize,
    pub nplants: usize,
    pub nworlds: usize,
}

impl Config {
    pub fn new(
        generation_length: usize,
        nhervors: usize,
        nchasers: usize,
        nplants: usize,
        nworlds: usize,
    ) -> (r: Self)
        ensures
            r == (Config { generation_length, nhervors, nchasers, nplants, nworlds }),
    {
        Config { generation_length, nhervors, nchasers, nplants, nworlds }
    }

    /// The given population shape with the usual generation length.
    pub fn low_new(nhervors: usize, nchasers: usize, nplants: usize, nworlds: usize) -> (r: Self)
        ensures
            r == (Config {
                generation_length: GENERATION_LENGTH,
                nhervors,
                nchasers,
                nplants,
                nworlds,
            }),
    {
        Self::new(GENERATION_LENGTH, nhervors, nchasers, nplants, nworlds)
    }

    /// One prey, two predators and twenty plants in each of a thousand worlds.
    pub fn default() -> (r: Self)
        ensures
            r == (Config {
                generation_length: GENERATION_LENGTH,
                nhervors: 1,
                nchasers: 2,
                nplants: 20,
                nworlds: 1000,
            }),
    {
        Self::new(GENERATION_LENGTH, 1, 2, 20, 1000)
    }
}

/// Fitness of a prey agent: what it ate, plus a bonus if it survived.
pub fn hervor_fitness(satiation: u32, dead: bool) -> (r: u32)
    requires
        satiation + SURVIVAL_BONUS <= u32::MAX,
    ensures
        r == satiation + if dead {
            0
        } else {
            SURVIVAL_BONUS
        },
{
    if dead {
        satiation
    } else {
        satiation + SURVIVAL_BONUS
    }
}

/// Fitness of a predator: a fixed reward if it made a kill.
pub fn chaser_fitness(killed: bool) -> (r: u32)
    ensures
        r == if killed {
            KILL_REWARD
        } else {
            0
        },
{
    if killed {
        KILL_REWARD
    } else {
        0
    }
}

/// One tick of the generation clock from `(age, generation)`: the new age,
/// the new generation, and whether evolution runs.
pub open spec fn tick_spec(age: int, generation: int, generation_length: int) -> (int, int, bool) {
    if age + 1 > generation_length {
        (0, generation + 1, true)
    } else {
        (age + 1, generation, false)
    }
}

/// The clock after `k` ticks, with whether each tick evolved.
pub open spec fn run_spec(age: int, generation: int, generation_length: int, k: nat) -> (
    int,
    int,
    Seq<bool>,
)
    decreases k,
{
    if k == 0 {
        (age, generation, Seq::empty())
    } else {
        let (a, g, evolved) = run_spec(age, generation, generation_length, (k - 1) as nat);
        let (a2, g2, e) = tick_spec(a, g, generation_length);
        (a2, g2, evolved.push(e))
    }
}

proof fn lemma_quiet_ticks(generation: int, generation_length: int, k: nat)
    requires
        k <= generation_length,
    ensures
        run_spec(0, generation, generation_length, k).0 == k,
        run_spec(0, generation, generation_length, k).1 == generation,
        run_spec(0, generation, generation_length, k).2.len() == k,
        forall|i: int|
            0 <= i < k ==> !#[trigger] run_spec(0, generation, generation_length, k).2[i],
    decreases k,
{
    if k > 0 {
        lemma_quiet_ticks(generation, generation_length, (k - 1) as nat);
        let prev = run_spec(0, generation, generation_length, (k - 1) as nat).2;
        let now = run_spec(0, generation, generation_length, k).2;
        assert forall|i: int| 0 <= i < k implies !#[trigger] now[i] by {
            if i < k - 1 {
                assert(now[i] == prev[i]);
            }
        }
    }
}

/// A generation lasts `generation_length + 1` ticks: from a fresh clock,
/// exactly the last of that many ticks evolves, the generation counter goes
/// up by one and the age is back at zero, so the next generation takes as
/// many ticks again.
pub proof fn lemma_one_generation(generation: int, generation_length: int)
    requires
        generation_length >= 0,
    ensures
        ({
            let (a, g, evolved) = run_spec(
                0,
                generation,
                generation_length,
                (generation_length + 1) as nat,
            );
            &&& a == 0
            &&& g == generation + 1
            &&& evolved.len() == generation_length + 1
            &&& evolved.last()
            &&& forall|i: int| 0 <= i < generation_length ==> !#[trigger] evolved[i]
        }),
{
    lemma_quiet_ticks(generation, generation_length, generation_length as nat);
    let prev = run_spec(0, generation, generation_length, generation_length as nat).2;
    let now = run_spec(0, generation, generation_length, (generation_length + 1) as nat).2;
    assert forall|i: int| 0 <= i < generation_length implies !#[trigger] now[i] by {
        assert(now[i] == prev[i]);
    }
}

/// Counts ticks within a generation and generations within a run.
#[derive(Clone, Copy, Debug, PartialEq, Eq, Structural)]
pub struct Clock {
    age: usize,
    generation: usize,
}

impl Clock {
    pub closed spec fn age_spec(&self) -> usize {
        self.age
    }

    pub closed spec fn generation_spec(&self) -> usize {
        self.generation
    }

    /// A clock at tick zero of generation zero.
    pub fn new() -> (r: Self)
        ensures
            r.age_spec() == 0,
            r.generation_spec() == 0,
    {
        Clock { age: 0, generation: 0 }
    }

    pub fn age(&self) -> (r: usize)
        ensures
            r == self.age_spec(),
    {
        self.age
    }

    pub fn generation(&self) -> (r: usize)
        ensures
            r == self.generation_spec(),
    {
        self.generation
    }

    /// Counts one tick; returns whether the generation is over, in which case
    /// the age is reset and the generation counter moves on.
    pub fn tick(&mut self, generation_length: usize) -> (evolve: bool)
        requires
            old(self).generation_spec() < usize::MAX,
        ensures
            (final(self).age_spec() as int, final(self).generation_spec() as int, evolve)
                == tick_spec(
                old(self).age_spec() as int,
                old(self).generation_spec() as int,
                generation_length as int,
            ),
            final(self).age_spec() <= generation_length,
    {
        if self.age >= generation_length {
            self.age = 0;
            self.generation = self.generation + 1;
            true
        } else {
            self.age = self.age + 1;
            false
        }
    }
}


/// Hands a flat evolved population back to the worlds in order: world `j`
/// gets the `per_world` individuals that follow those of world `j - 1`.
pub fn split_among_worlds<T>(evolved: Vec<T>, nworlds: usize, per_world: usize) -> (r: Vec<Vec<T>>)
    requires
        evolved@.len() == nworlds * per_world,
    ensures
        r@.len() == nworlds,
        forall|j: int|
            0 <= j < nworlds ==> (#[trigger] r@[j])@ == evolved@.subrange(
                j * per_world,
                (j + 1) * per_world,
            ),
{
    let ghost all = evolved@;
    let mut rest = evolved;
    let mut worlds: Vec<Vec<T>> = Vec::new();
    let mut j: usize = 0;
    while j < nworlds
        invariant
            0 <= j <= nworlds,
            all.len() == nworlds * per_world,
            worlds@.len() == j,
            rest@ == all.subrange(j * per_world, all.len() as int),
            forall|q: int|
                0 <= q < j ==> (#[trigger] worlds@[q])@ == all.subrange(
                    q * per_world,
                    (q + 1) * per_world,
                ),
        decreases nworlds - j,
    {
        proof {
            assert((j + 1) * per_world <= nworlds * per_world) by (nonlinear_arith)
                requires
                    j < nworlds,
            ;
            assert((j + 1) * per_world == j * per_world + per_world) by (nonlinear_arith);
        }
        let tail = rest.split_off(per_world);
        worlds.push(rest);
        rest = tail;
        proof {
            assert(rest@ =~= all.subrange((j + 1) * per_world, all.len() as int));
            assert(worlds@[j as int]@ =~= all.subrange(j * per_world, (j + 1) * per_world));
        }
        j += 1;
    }
    worlds
}

/// Whether some prey is within eating range of plant `p`.
pub open spec fn reached(near: Seq<Seq<bool>>, p: int) -> bool {
    exists|h: int| 0 <= h < near.len() && near[h][p]
}

/// The prey that eats plant `p`, if one does: the first in order that is
/// within range of it.
pub open spec fn first_near(near: Seq<Seq<bool>>, p: int, h: int) -> bool {
    &&& 0 <= h < near.len()
    &&& near[h][p]
    &&& forall|q: int| 0 <= q < h ==> !(#[trigger] near[q][p])
}

/// How many of the still uneaten plants prey `h` eats this tick.
pub open spec fn meals(near: Seq<Seq<bool>>, eaten: Seq<bool>, h: int, k: int) -> int
    decreases k,
{
    if k <= 0 {
        0
    } else {
        meals(near, eaten, h, k - 1) + if !eaten[k - 1] && first_near(near, k - 1, h) {
            1int
        } else {
            0
        }
    }
}

/// Resolves prey eating plants for one tick. `near[h][p]` tells whether
/// prey `h` is within eating range of plant `p`. Going through the prey in
/// order, each plant not yet eaten that a prey reaches is eaten by it: the
/// plant is marked eaten and the prey's satiation goes up by one.
pub fn eat_plants(near: &Vec<Vec<bool>>, satiation: &mut Vec<u32>, eaten: &mut Vec<bool>)
    requires
        old(satiation)@.len() == near@.len(),
        forall|h: int| 0 <= h < near@.len() ==> (#[trigger] near@[h])@.len() == old(eaten)@.len(),
        forall|h: int| 0 <= h < near@.len() ==> old(satiation)@[h] + old(eaten)@.len() <= u32::MAX,
    ensures
        final(eaten)@.len() == old(eaten)@.len(),
        final(satiation)@.len() == old(satiation)@.len(),
        forall|p: int|
            0 <= p < old(eaten)@.len() ==> #[trigger] final(eaten)@[p] == (old(eaten)@[p] || reached(
                near@.map_values(|v: Vec<bool>| v@),
                p,
            )),
        forall|h: int|
            0 <= h < near@.len() ==> #[trigger] final(satiation)@[h] == old(satiation)@[h] + meals(
                near@.map_values(|v: Vec<bool>| v@),
                old(eaten)@,
                h,
                old(eaten)@.len() as int,
            ),
{
    let ghost m = near@.map_values(|v: Vec<bool>| v@);
    let ghost eaten0 = eaten@;
    let ghost sat0 = satiation@;
    let np = eaten.len();
    let mut h: usize = 0;
    while h < near.len()
        invariant
            0 <= h <= near@.len(),
            m == near@.map_values(|v: Vec<bool>| v@),
            np == eaten0.len(),
            eaten@.len() == np,
            satiation@.len() == sat0.len(),
            sat0.len() == near@.len(),
            forall|q: int| 0 <= q < near@.len() ==> (#[trigger] near@[q])@.len() == np,
            forall|q: int| 0 <= q < near@.len() ==> sat0[q] + np <= u32::MAX,
            forall|p: int|
                0 <= p < np ==> #[trigger] eaten@[p] == (eaten0[p] || exists|q: int|
                    0 <= q < h && m[q][p]),
            forall|q: int|
                0 <= q < h ==> #[trigger] satiation@[q] == sat0[q] + meals(m, eaten0, q, np as int),
            forall|q: int| h <= q < near@.len() ==> #[trigger] satiation@[q] == sat0[q],
        decreases near@.len() - h,
    {
        let row = &near[h];
        let mut p: usize = 0;
        while p < np
            invariant
                0 <= h < near@.len(),
                0 <= p <= np,
                m == near@.map_values(|v: Vec<bool>| v@),
                row == near@[h as int],
                row@.len() == np,
                np == eaten0.len(),
                eaten@.len() == np,
                satiation@.len() == sat0.len(),
                sat0.len() == near@.len(),
                sat0[h as int] + np <= u32::MAX,
                0 <= meals(m, eaten0, h as int, p as int) <= p,
                satiation@[h as int] == sat0[h as int] + meals(m, eaten0, h as int, p as int),
                forall|k: int|
                    0 <= k < p ==> #[trigger] eaten@[k] == (eaten0[k] || exists|q: int|
                        0 <= q <= h && m[q][k]),
                forall|k: int|
                    p <= k < np ==> #[trigger] eaten@[k] == (eaten0[k] || exists|q: int|
                        0 <= q < h && m[q][k]),
                forall|q: int|
                    0 <= q < h ==> #[trigger] satiation@[q] == sat0[q] + meals(
                        m,
                        eaten0,
                        q,
                        np as int,
                    ),
                forall|q: int| h < q < near@.len() ==> #[trigger] satiation@[q] == sat0[q],
            decreases np - p,
        {
            proof {
                assert(m[h as int] == row@);
                let first = !eaten0[p as int] && first_near(m, p as int, h as int);
                assert(first <==> (!eaten@[p as int] && row@[p as int])) by {
                    if !eaten@[p as int] && row@[p as int] {
                        assert forall|q: int| 0 <= q < h implies !(#[trigger] m[q][p as int]) by {
                            if m[q][p as int] {
                                assert(eaten@[p as int]);
                            }
                        }
                    }
                    if first {
                        assert(!eaten@[p as int]);
                    }
                }
            }
            if !eaten[p] && row[p] {
                eaten.set(p, true);
                let s = satiation[h] + 1;
                satiation.set(h, s);
            }
            proof {
                assert forall|k: int| 0 <= k < p + 1 implies #[trigger] eaten@[k] == (eaten0[k]
                    || exists|q: int| 0 <= q <= h && m[q][k]) by {
                    if k == p {
                        if row@[p as int] {
                            assert(m[h as int][k]);
                        }
                        if exists|q: int| 0 <= q <= h && m[q][k] {
                            let q = choose|q: int| 0 <= q <= h && m[q][k];
                            if q < h {
                                assert(exists|q2: int| 0 <= q2 < h && m[q2][k]);
                            }
                        }
                    } else {
                        if exists|q: int| 0 <= q < h && m[q][k] {
                            let q = choose|q: int| 0 <= q < h && m[q][k];
                            assert(0 <= q <= h && m[q][k]);
                        }
                    }
                }
            }
            p += 1;
        }
        proof {
            assert forall|k: int| 0 <= k < np implies #[trigger] eaten@[k] == (eaten0[k] || exists|
                q: int,
            | 0 <= q < h + 1 && m[q][k]) by {
                assert(eaten@[k] == (eaten0[k] || exists|q: int| 0 <= q <= h && m[q][k]));
            }
        }
        h += 1;
    }
    proof {
        assert forall|p: int| 0 <= p < np implies #[trigger] eaten@[p] == (eaten0[p] || reached(
            m,
            p,
        )) by {
            assert(eaten@[p] == (eaten0[p] || exists|q: int| 0 <= q < h && m[q][p]));
        }
    }
}


/// Whether predator `c` makes a kill this tick: some prey alive before the
/// tick has `c` as the first predator in range of it.
pub open spec fn kills(near: Seq<Seq<bool>>, dead: Seq<bool>, c: int) -> bool {
    exists|h: int| 0 <= h < dead.len() && !dead[h] && first_near(near, h, c)
}

/// Resolves predators catching prey for one tick. `near[c][h]` tells whether
/// predator `c` is within eating range of prey `h`. Going through the
/// predators in order, a live prey within range is caught: it dies, and the
/// predator is marked as having killed. A dead prey is not caught again.
pub fn eat_hervors(near: &Vec<Vec<bool>>, killed: &mut Vec<bool>, dead: &mut Vec<bool>)
    requires
        old(killed)@.len() == near@.len(),
        forall|c: int| 0 <= c < near@.len() ==> (#[trigger] near@[c])@.len() == old(dead)@.len(),
    ensures
        final(dead)@.len() == old(dead)@.len(),
        final(killed)@.len() == old(killed)@.len(),
        forall|h: int|
            0 <= h < old(dead)@.len() ==> #[trigger] final(dead)@[h] == (old(dead)@[h] || reached(
                near@.map_values(|v: Vec<bool>| v@),
                h,
            )),
        forall|c: int|
            0 <= c < near@.len() ==> #[trigger] final(killed)@[c] == (old(killed)@[c] || kills(
                near@.map_values(|v: Vec<bool>| v@),
                old(dead)@,
                c,
            )),
{
    let ghost m = near@.map_values(|v: Vec<bool>| v@);
    let ghost dead0 = dead@;
    let ghost killed0 = killed@;
    let nh = dead.len();
    let mut c: usize = 0;
    while c < near.len()
        invariant
            0 <= c <= near@.len(),
            m == near@.map_values(|v: Vec<bool>| v@),
            nh == dead0.len(),
            dead@.len() == nh,
            killed@.len() == killed0.len(),
            killed0.len() == near@.len(),
            forall|q: int| 0 <= q < near@.len() ==> (#[trigger] near@[q])@.len() == nh,
            forall|h: int|
                0 <= h < nh ==> #[trigger] dead@[h] == (dead0[h] || exists|q: int|
                    0 <= q < c && m[q][h]),
            forall|q: int|
                0 <= q < c ==> #[trigger] killed@[q] == (killed0[q] || kills(m, dead0, q)),
            forall|q: int| c <= q < near@.len() ==> #[trigger] killed@[q] == killed0[q],
        decreases near@.len() - c,
    {
        let row = &near[c];
        let ghost killed_before = killed@[c as int];
        let mut h: usize = 0;
        while h < nh
            invariant
                0 <= c < near@.len(),
                0 <= h <= nh,
                m == near@.map_values(|v: Vec<bool>| v@),
                row == near@[c as int],
                row@.len() == nh,
                nh == dead0.len(),
                dead@.len() == nh,
                killed@.len() == killed0.len(),
                killed0.len() == near@.len(),
                killed_before == killed0[c as int],
                killed@[c as int] == (killed0[c as int] || exists|k: int|
                    0 <= k < h && !dead0[k] && first_near(m, k, c as int)),
                forall|k: int|
                    0 <= k < h ==> #[trigger] dead@[k] == (dead0[k] || exists|q: int|
                        0 <= q <= c && m[q][k]),
                forall|k: int|
                    h <= k < nh ==> #[trigger] dead@[k] == (dead0[k] || exists|q: int|
                        0 <= q < c && m[q][k]),
                forall|q: int|
                    0 <= q < c ==> #[trigger] killed@[q] == (killed0[q] || kills(m, dead0, q)),
                forall|q: int| c < q < near@.len() ==> #[trigger] killed@[q] == killed0[q],
            decreases nh - h,
        {
            proof {
                assert(m[c as int] == row@);
                let first = !dead0[h as int] && first_near(m, h as int, c as int);
                assert(first <==> (!dead@[h as int] && row@[h as int])) by {
                    if !dead@[h as int] && row@[h as int] {
                        assert forall|q: int| 0 <= q < c implies !(#[trigger] m[q][h as int]) by {
                            if m[q][h as int] {
                                assert(dead@[h as int]);
                            }
                        }
                    }
                    if first {
                        assert(!dead@[h as int]);
                    }
                }
            }
            if !dead[h] && row[h] {
                dead.set(h, true);
                killed.set(c, true);
            }
            proof {
                assert(killed@[c as int] == (killed0[c as int] || exists|k: int|
                    0 <= k < h + 1 && !dead0[k] && first_near(m, k, c as int))) by {
                    if exists|k: int| 0 <= k < h + 1 && !dead0[k] && first_near(m, k, c as int) {
                        let k = choose|k: int|
                            0 <= k < h + 1 && !dead0[k] && first_near(m, k, c as int);
                        if k < h {
                            assert(exists|k2: int|
                                0 <= k2 < h && !dead0[k2] && first_near(m, k2, c as int));
                        }
                    }
                }
                assert forall|k: int| 0 <= k < h + 1 implies #[trigger] dead@[k] == (dead0[k]
                    || exists|q: int| 0 <= q <= c && m[q][k]) by {
                    if k == h {
                        if row@[h as int] {
                            assert(m[c as int][k]);
                        }
                        if exists|q: int| 0 <= q <= c && m[q][k] {
                            let q = choose|q: int| 0 <= q <= c && m[q][k];
                            if q < c {
                                assert(exists|q2: int| 0 <= q2 < c && m[q2][k]);
                            }
                        }
                    } else {
                        if exists|q: int| 0 <= q < c && m[q][k] {
                            let q = choose|q: int| 0 <= q < c && m[q][k];
                            assert(0 <= q <= c && m[q][k]);
                        }
                    }
                }
            }
            h += 1;
        }
        proof {
            assert forall|k: int| 0 <= k < nh implies #[trigger] dead@[k] == (dead0[k] || exists|
                q: int,
            | 0 <= q < c + 1 && m[q][k]) by {
                assert(dead@[k] == (dead0[k] || exists|q: int| 0 <= q <= c && m[q][k]));
            }
            assert(killed@[c as int] == (killed0[c as int] || kills(m, dead0, c as int)));
        }
        c += 1;
    }
    proof {
        assert forall|h: int| 0 <= h < nh implies #[trigger] dead@[h] == (dead0[h] || reached(
            m,
            h,
        )) by {
            assert(dead@[h] == (dead0[h] || exists|q: int| 0 <= q < c && m[q][h]));
        }
    }
}

} // verus!
