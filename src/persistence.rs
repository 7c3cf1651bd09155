use vstd::prelude::*;
use crate::brain::{ChaserBrain, HervorBrain, chaser_topology_spec, hervor_topology_spec};
use crate::network::{
    WeightsError,
    lemma_from_weights_of_weights,
    net_flat,
    required_weights,
    shaped,
};

verus! {

/// The brains of one world: its prey, then its predators.
#[derive(Clone, Debug)]
pub struct WorldBrains<W> {
    pub hervors: Vec<HervorBrain<W>>,
    pub chasers: Vec<ChaserBrain<W>>,
}

/// Why saved weight lines could not be loaded.
#[derive(Clone, Copy, Debug, PartialEq, Eq, Structural)]
pub enum LoadError {
    /// The number of lines is not one per agent.
    WrongLineCount,
    /// The line at this index does not hold as many weights as its agent's
    /// brain takes.
    BadLine(usize),
}

/// Line of prey `j` of world `i`: each world's prey, then its predators.
pub open spec fn hervor_line(i: int, j: int, nhervors: int, nchasers: int) -> int {
    i * (nhervors + nchasers) + j
}

/// Line of predator `j` of world `i`.
pub open spec fn chaser_line(i: int, j: int, nhervors: int, nchasers: int) -> int {
    i * (nhervors + nchasers) + nhervors + j
}

/// Every world has `nhervors` prey and `nchasers` predators.
pub open spec fn uniform<W>(worlds: Seq<WorldBrains<W>>, nhervors: int, nchasers: int) -> bool {
    forall|i: int|
        0 <= i < worlds.len() ==> (#[trigger] worlds[i]).hervors@.len() == nhervors
            && worlds[i].chasers@.len() == nchasers
}

/// `lines` holds the flat weights of every brain of `worlds`, one per line,
/// in the saved order.
pub open spec fn saved_as<W>(
    worlds: Seq<WorldBrains<W>>,
    lines: Seq<Vec<W>>,
    nhervors: int,
    nchasers: int,
) -> bool {
    &&& lines.len() == worlds.len() * (nhervors + nchasers)
    &&& forall|i: int, j: int|
        0 <= i < worlds.len() && 0 <= j < nhervors ==> lines[#[trigger] hervor_line(
            i,
            j,
            nhervors,
            nchasers,
        )]@ == net_flat(worlds[i].hervors@[j].nn@)
    &&& forall|i: int, j: int|
        0 <= i < worlds.len() && 0 <= j < nchasers ==> lines[#[trigger] chaser_line(
            i,
            j,
            nhervors,
            nchasers,
        )]@ == net_flat(worlds[i].chasers@[j].nn@)
}

/// Every line has as many values as the brain of its agent takes.
pub open spec fn lines_fit<W>(
    lines: Seq<Vec<W>>,
    nworlds: int,
    nhervors: int,
    nchasers: int,
    hervor_cells: int,
    chaser_cells: int,
) -> bool {
    &&& lines.len() == nworlds * (nhervors + nchasers)
    &&& forall|i: int, j: int|
        0 <= i < nworlds && 0 <= j < nhervors ==> lines[#[trigger] hervor_line(
            i,
            j,
            nhervors,
            nchasers,
        )]@.len() == required_weights(hervor_topology_spec(hervor_cells))
    &&& forall|i: int, j: int|
        0 <= i < nworlds && 0 <= j < nchasers ==> lines[#[trigger] chaser_line(
            i,
            j,
            nhervors,
            nchasers,
        )]@.len() == required_weights(chaser_topology_spec(chaser_cells))
}

/// Line `k` is the line of some agent and does not fit that agent's brain.
pub open spec fn bad_line<W>(
    lines: Seq<Vec<W>>,
    k: int,
    nworlds: int,
    nhervors: int,
    nchasers: int,
    hervor_cells: int,
    chaser_cells: int,
) -> bool {
    ||| exists|i: int, j: int|
        0 <= i < nworlds && 0 <= j < nhervors && k == hervor_line(i, j, nhervors, nchasers)
            && lines[k]@.len() != required_weights(hervor_topology_spec(hervor_cells))
    ||| exists|i: int, j: int|
        0 <= i < nworlds && 0 <= j < nchasers && k == chaser_line(i, j, nhervors, nchasers)
            && lines[k]@.len() != required_weights(chaser_topology_spec(chaser_cells))
}

/// Every brain of `worlds` has the topology of its role, and its flat
/// weights are the line of its agent.
pub open spec fn loaded_as<W>(
    lines: Seq<Vec<W>>,
    worlds: Seq<WorldBrains<W>>,
    nworlds: int,
    nhervors: int,
    nchasers: int,
    hervor_cells: int,
    chaser_cells: int,
) -> bool {
    &&& worlds.len() == nworlds
    &&& uniform(worlds, nhervors, nchasers)
    &&& forall|i: int, j: int|
        0 <= i < nworlds && 0 <= j < nhervors ==> shaped(
            (#[trigger] worlds[i].hervors@[j]).nn@,
            hervor_topology_spec(hervor_cells),
        ) && net_flat(worlds[i].hervors@[j].nn@) == lines[hervor_line(
            i,
            j,
            nhervors,
            nchasers,
        )]@
    &&& forall|i: int, j: int|
        0 <= i < nworlds && 0 <= j < nchasers ==> shaped(
            (#[trigger] worlds[i].chasers@[j]).nn@,
            chaser_topology_spec(chaser_cells),
        ) && net_flat(worlds[i].chasers@[j].nn@) == lines[chaser_line(
            i,
            j,
            nhervors,
            nchasers,
        )]@
}

proof fn lemma_lines_of_world(i: int, nworlds: int, nhervors: int, nchasers: int)
    requires
        0 <= i < nworlds,
        nhervors >= 0,
        nchasers >= 0,
    ensures
        (i + 1) * (nhervors + nchasers) == i * (nhervors + nchasers) + nhervors + nchasers,
        (i + 1) * (nhervors + nchasers) <= nworlds * (nhervors + nchasers),
        i * (nhervors + nchasers) >= 0,
        forall|a: int|
            0 <= a < i ==> #[trigger] ((a + 1) * (nhervors + nchasers)) <= i * (nhervors
                + nchasers),
{
    assert((i + 1) * (nhervors + nchasers) == i * (nhervors + nchasers) + nhervors + nchasers)
        by (nonlinear_arith);
    assert((i + 1) * (nhervors + nchasers) <= nworlds * (nhervors + nchasers)) by (nonlinear_arith)
        requires
            i < nworlds,
            nhervors + nchasers >= 0,
    ;
    assert(i * (nhervors + nchasers) >= 0) by (nonlinear_arith)
        requires
            i >= 0,
            nhervors + nchasers >= 0,
    ;
    assert forall|a: int| 0 <= a < i implies #[trigger] ((a + 1) * (nhervors + nchasers)) <= i * (
    nhervors + nchasers) by {
        assert((a + 1) * (nhervors + nchasers) <= i * (nhervors + nchasers)) by (nonlinear_arith)
            requires
                a + 1 <= i,
                nhervors + nchasers >= 0,
        ;
    }
}

/// The flat weights of every brain, one line per agent: for each world its
/// prey, then its predators.
pub fn save_lines<W: Copy>(worlds: &Vec<WorldBrains<W>>, nhervors: usize, nchasers: usize) -> (r:
    Vec<Vec<W>>)
    requires
        uniform(worlds@, nhervors as int, nchasers as int),
    ensures
        saved_as(worlds@, r@, nhervors as int, nchasers as int),
{
    let ghost (nh, nc) = (nhervors as int, nchasers as int);
    let mut lines: Vec<Vec<W>> = Vec::new();
    let mut i: usize = 0;
    while i < worlds.len()
        invariant
            0 <= i <= worlds@.len(),
            uniform(worlds@, nh, nc),
            nh == nhervors,
            nc == nchasers,
            lines@.len() == i * (nh + nc),
            forall|a: int, b: int|
                0 <= a < i && 0 <= b < nh ==> lines@[#[trigger] hervor_line(a, b, nh, nc)]@
                    == net_flat(worlds@[a].hervors@[b].nn@),
            forall|a: int, b: int|
                0 <= a < i && 0 <= b < nc ==> lines@[#[trigger] chaser_line(a, b, nh, nc)]@
                    == net_flat(worlds@[a].chasers@[b].nn@),
        decreases worlds@.len() - i,
    {
        proof {
            lemma_lines_of_world(i as int, worlds@.len() as int, nh, nc);
        }
        let world = &worlds[i];
        assert(world.hervors@.len() == nh && world.chasers@.len() == nc);
        let mut j: usize = 0;
        while j < nhervors
            invariant
                0 <= j <= nh,
                0 <= i < worlds@.len(),
                world == worlds@[i as int],
                world.hervors@.len() == nh,
                nh == nhervors,
                nc == nchasers,
                i * (nh + nc) >= 0,
                forall|a: int| 0 <= a < i ==> #[trigger] ((a + 1) * (nh + nc)) <= i * (nh + nc),
                lines@.len() == i * (nh + nc) + j,
                forall|b: int|
                    0 <= b < j ==> lines@[#[trigger] hervor_line(i as int, b, nh, nc)]@ == net_flat(
                        world.hervors@[b].nn@,
                    ),
                forall|a: int, b: int|
                    0 <= a < i && 0 <= b < nh ==> lines@[#[trigger] hervor_line(a, b, nh, nc)]@
                        == net_flat(worlds@[a].hervors@[b].nn@),
                forall|a: int, b: int|
                    0 <= a < i && 0 <= b < nc ==> lines@[#[trigger] chaser_line(a, b, nh, nc)]@
                        == net_flat(worlds@[a].chasers@[b].nn@),
            decreases nh - j,
        {
            let ghost old_lines = lines@;
            let w = world.hervors[j].nn.weights();
            lines.push(w);
            proof {
                assert forall|a: int, b: int| 0 <= a < i && 0 <= b < nh implies lines@[
                #[trigger] hervor_line(a, b, nh, nc)] == old_lines[hervor_line(a, b, nh, nc)] by {
                    assert((a + 1) * (nh + nc) <= i * (nh + nc));
                    assert((a + 1) * (nh + nc) == a * (nh + nc) + nh + nc) by (nonlinear_arith);
                }
                assert forall|a: int, b: int| 0 <= a < i && 0 <= b < nc implies lines@[
                #[trigger] chaser_line(a, b, nh, nc)] == old_lines[chaser_line(a, b, nh, nc)] by {
                    assert((a + 1) * (nh + nc) <= i * (nh + nc));
                    assert((a + 1) * (nh + nc) == a * (nh + nc) + nh + nc) by (nonlinear_arith);
                }
            }
            j += 1;
        }
        let mut j: usize = 0;
        while j < nchasers
            invariant
                0 <= j <= nc,
                0 <= i < worlds@.len(),
                world == worlds@[i as int],
                world.chasers@.len() == nc,
                nh == nhervors,
                nc == nchasers,
                i * (nh + nc) >= 0,
                forall|a: int| 0 <= a < i ==> #[trigger] ((a + 1) * (nh + nc)) <= i * (nh + nc),
                lines@.len() == i * (nh + nc) + nh + j,
                forall|b: int|
                    0 <= b < j ==> lines@[#[trigger] chaser_line(i as int, b, nh, nc)]@ == net_flat(
                        world.chasers@[b].nn@,
                    ),
                forall|b: int|
                    0 <= b < nh ==> lines@[#[trigger] hervor_line(i as int, b, nh, nc)]@ == net_flat(
                        world.hervors@[b].nn@,
                    ),
                forall|a: int, b: int|
                    0 <= a < i && 0 <= b < nh ==> lines@[#[trigger] hervor_line(a, b, nh, nc)]@
                        == net_flat(worlds@[a].hervors@[b].nn@),
                forall|a: int, b: int|
                    0 <= a < i && 0 <= b < nc ==> lines@[#[trigger] chaser_line(a, b, nh, nc)]@
                        == net_flat(worlds@[a].chasers@[b].nn@),
            decreases nc - j,
        {
            let ghost old_lines = lines@;
            let w = world.chasers[j].nn.weights();
            lines.push(w);
            proof {
                assert forall|a: int, b: int| 0 <= a < i && 0 <= b < nh implies lines@[
                #[trigger] hervor_line(a, b, nh, nc)] == old_lines[hervor_line(a, b, nh, nc)] by {
                    assert((a + 1) * (nh + nc) <= i * (nh + nc));
                    assert((a + 1) * (nh + nc) == a * (nh + nc) + nh + nc) by (nonlinear_arith);
                }
                assert forall|a: int, b: int| 0 <= a < i && 0 <= b < nc implies lines@[
                #[trigger] chaser_line(a, b, nh, nc)] == old_lines[chaser_line(a, b, nh, nc)] by {
                    assert((a + 1) * (nh + nc) <= i * (nh + nc));
                    assert((a + 1) * (nh + nc) == a * (nh + nc) + nh + nc) by (nonlinear_arith);
                }
            }
            j += 1;
        }
        proof {
            assert forall|a: int, b: int| 0 <= a < i + 1 && 0 <= b < nh implies lines@[
            #[trigger] hervor_line(a, b, nh, nc)]@ == net_flat(worlds@[a].hervors@[b].nn@) by {
                if a == i {
                    assert(hervor_line(i as int, b, nh, nc) == hervor_line(a, b, nh, nc));
                }
            }
            assert forall|a: int, b: int| 0 <= a < i + 1 && 0 <= b < nc implies lines@[
            #[trigger] chaser_line(a, b, nh, nc)]@ == net_flat(worlds@[a].chasers@[b].nn@) by {
                if a == i {
                    assert(chaser_line(i as int, b, nh, nc) == chaser_line(a, b, nh, nc));
                }
            }
        }
        i += 1;
    }
    lines
}


/// Rebuilds the brains of `nworlds` worlds from saved lines, in the saved
/// order. Fails with `WrongLineCount` unless there is exactly one line per
/// agent, and with `BadLine(k)` when line `k` does not fit its agent's brain.
pub fn load_lines<W: Copy>(
    lines: &Vec<Vec<W>>,
    nworlds: usize,
    nhervors: usize,
    nchasers: usize,
    hervor_cells: usize,
    chaser_cells: usize,
) -> (r: Result<Vec<WorldBrains<W>>, LoadError>)
    requires
        4 * hervor_cells <= usize::MAX,
        2 * chaser_cells <= usize::MAX,
    ensures
        r is Ok <==> lines_fit(
            lines@,
            nworlds as int,
            nhervors as int,
            nchasers as int,
            hervor_cells as int,
            chaser_cells as int,
        ),
        r == Err::<Vec<WorldBrains<W>>, LoadError>(LoadError::WrongLineCount) <==> lines@.len()
            != nworlds * (nhervors + nchasers),
        r matches Err(LoadError::BadLine(k)) ==> bad_line(
            lines@,
            k as int,
            nworlds as int,
            nhervors as int,
            nchasers as int,
            hervor_cells as int,
            chaser_cells as int,
        ),
        r matches Ok(ws) ==> loaded_as(
            lines@,
            ws@,
            nworlds as int,
            nhervors as int,
            nchasers as int,
            hervor_cells as int,
            chaser_cells as int,
        ),
{
    let ghost (nw, nh, nc) = (nworlds as int, nhervors as int, nchasers as int);
    let ghost ht = hervor_topology_spec(hervor_cells as int);
    let ghost ct = chaser_topology_spec(chaser_cells as int);
    let len = lines.len();
    let expected = if nworlds == 0 {
        Some(0usize)
    } else {
        match nhervors.checked_add(nchasers) {
            Some(per) => per.checked_mul(nworlds),
            None => None,
        }
    };
    proof {
        if nw == 0 {
            assert(nw * (nh + nc) == 0) by (nonlinear_arith)
                requires
                    nw == 0,
            ;
        }
    }
    match expected {
        Some(n) => {
            proof {
                if nw > 0 {
                    assert((nh + nc) * nw == nw * (nh + nc)) by (nonlinear_arith);
                }
            }
            if n != len {
                return Err(LoadError::WrongLineCount);
            }
        },
        None => {
            proof {
                if nh + nc <= usize::MAX {
                    assert((nh + nc) * nw == nw * (nh + nc)) by (nonlinear_arith);
                } else {
                    if nw > 0 {
                        assert(nw * (nh + nc) >= nh + nc) by (nonlinear_arith)
                            requires
                                nw >= 1,
                                nh + nc >= 0,
                        ;
                    }
                }
            }
            return Err(LoadError::WrongLineCount);
        },
    }
    proof {
        assert((nh + nc) * nw == nw * (nh + nc)) by (nonlinear_arith);
    }
    let htopo = HervorBrain::<W>::topology(hervor_cells);
    let ctopo = ChaserBrain::<W>::topology(chaser_cells);
    let mut worlds: Vec<WorldBrains<W>> = Vec::new();
    let mut k: usize = 0;
    let mut i: usize = 0;
    while i < nworlds
        invariant
            0 <= i <= nw,
            len == lines@.len(),
            nw == nworlds,
            nh == nhervors,
            nc == nchasers,
            ht == hervor_topology_spec(hervor_cells as int),
            ct == chaser_topology_spec(chaser_cells as int),
            htopo@ == ht,
            ctopo@ == ct,
            lines@.len() == nw * (nh + nc),
            k == i * (nh + nc),
            worlds@.len() == i,
            uniform(worlds@, nh, nc),
            forall|a: int, b: int|
                0 <= a < i && 0 <= b < nh ==> lines@[#[trigger] hervor_line(a, b, nh, nc)]@.len()
                    == required_weights(ht),
            forall|a: int, b: int|
                0 <= a < i && 0 <= b < nc ==> lines@[#[trigger] chaser_line(a, b, nh, nc)]@.len()
                    == required_weights(ct),
            forall|a: int, b: int|
                0 <= a < i && 0 <= b < nh ==> shaped((#[trigger] worlds@[a].hervors@[b]).nn@, ht)
                    && net_flat(worlds@[a].hervors@[b].nn@) == lines@[hervor_line(a, b, nh, nc)]@,
            forall|a: int, b: int|
                0 <= a < i && 0 <= b < nc ==> shaped((#[trigger] worlds@[a].chasers@[b]).nn@, ct)
                    && net_flat(worlds@[a].chasers@[b].nn@) == lines@[chaser_line(a, b, nh, nc)]@,
        decreases nw - i,
    {
        proof {
            lemma_lines_of_world(i as int, nw, nh, nc);
        }
        let mut hervors: Vec<HervorBrain<W>> = Vec::new();
        let mut j: usize = 0;
        while j < nhervors
            invariant
                0 <= j <= nh,
                0 <= i < nw,
                len == lines@.len(),
                nw == nworlds,
                nh == nhervors,
                nc == nchasers,
                htopo@ == ht,
                ht == hervor_topology_spec(hervor_cells as int),
                lines@.len() == nw * (nh + nc),
                (i + 1) * (nh + nc) <= nw * (nh + nc),
                (i + 1) * (nh + nc) == i * (nh + nc) + nh + nc,
                k == i * (nh + nc) + j,
                hervors@.len() == j,
                forall|b: int|
                    0 <= b < j ==> lines@[#[trigger] hervor_line(i as int, b, nh, nc)]@.len()
                        == required_weights(ht),
                forall|b: int|
                    0 <= b < j ==> shaped((#[trigger] hervors@[b]).nn@, ht) && net_flat(
                        hervors@[b].nn@,
                    ) == lines@[hervor_line(i as int, b, nh, nc)]@,
            decreases nh - j,
        {
            match crate::network::Network::from_weights(htopo.as_slice(), &lines[k]) {
                Ok(nn) => {
                    hervors.push(HervorBrain { nn });
                },
                Err(_) => {
                    proof {
                        assert(k == hervor_line(i as int, j as int, nh, nc));
                        assert(lines@[hervor_line(i as int, j as int, nh, nc)]@.len()
                            != required_weights(ht));
                        assert(bad_line(
                            lines@,
                            k as int,
                            nw,
                            nh,
                            nc,
                            hervor_cells as int,
                            chaser_cells as int,
                        ));
                    }
                    return Err(LoadError::BadLine(k));
                },
            }
            proof {
                assert(k == hervor_line(i as int, j as int, nh, nc));
            }
            k += 1;
            j += 1;
        }
        let mut chasers: Vec<ChaserBrain<W>> = Vec::new();
        let mut j: usize = 0;
        while j < nchasers
            invariant
                0 <= j <= nc,
                0 <= i < nw,
                len == lines@.len(),
                nw == nworlds,
                nh == nhervors,
                nc == nchasers,
                ctopo@ == ct,
                ct == chaser_topology_spec(chaser_cells as int),
                lines@.len() == nw * (nh + nc),
                (i + 1) * (nh + nc) <= nw * (nh + nc),
                (i + 1) * (nh + nc) == i * (nh + nc) + nh + nc,
                k == i * (nh + nc) + nh + j,
                chasers@.len() == j,
                forall|b: int|
                    0 <= b < j ==> lines@[#[trigger] chaser_line(i as int, b, nh, nc)]@.len()
                        == required_weights(ct),
                forall|b: int|
                    0 <= b < j ==> shaped((#[trigger] chasers@[b]).nn@, ct) && net_flat(
                        chasers@[b].nn@,
                    ) == lines@[chaser_line(i as int, b, nh, nc)]@,
            decreases nc - j,
        {
            match crate::network::Network::from_weights(ctopo.as_slice(), &lines[k]) {
                Ok(nn) => {
                    chasers.push(ChaserBrain { nn });
                },
                Err(_) => {
                    proof {
                        assert(k == chaser_line(i as int, j as int, nh, nc));
                        assert(lines@[chaser_line(i as int, j as int, nh, nc)]@.len()
                            != required_weights(ct));
                        assert(bad_line(
                            lines@,
                            k as int,
                            nw,
                            nh,
                            nc,
                            hervor_cells as int,
                            chaser_cells as int,
                        ));
                    }
                    return Err(LoadError::BadLine(k));
                },
            }
            proof {
                assert(k == chaser_line(i as int, j as int, nh, nc));
            }
            k += 1;
            j += 1;
        }
        let ghost old_worlds = worlds@;
        worlds.push(WorldBrains { hervors, chasers });
        proof {
            assert forall|a: int, b: int| 0 <= a < i + 1 && 0 <= b < nh implies lines@[
            #[trigger] hervor_line(a, b, nh, nc)]@.len() == required_weights(ht) by {
                if a == i {
                    assert(hervor_line(i as int, b, nh, nc) == hervor_line(a, b, nh, nc));
                }
            }
            assert forall|a: int, b: int| 0 <= a < i + 1 && 0 <= b < nc implies lines@[
            #[trigger] chaser_line(a, b, nh, nc)]@.len() == required_weights(ct) by {
                if a == i {
                    assert(chaser_line(i as int, b, nh, nc) == chaser_line(a, b, nh, nc));
                }
            }
            assert forall|a: int, b: int| 0 <= a < i + 1 && 0 <= b < nh implies shaped(
                (#[trigger] worlds@[a].hervors@[b]).nn@,
                ht,
            ) && net_flat(worlds@[a].hervors@[b].nn@) == lines@[hervor_line(a, b, nh, nc)]@ by {
                if a < i {
                    assert(worlds@[a] == old_worlds[a]);
                }
            }
            assert forall|a: int, b: int| 0 <= a < i + 1 && 0 <= b < nc implies shaped(
                (#[trigger] worlds@[a].chasers@[b]).nn@,
                ct,
            ) && net_flat(worlds@[a].chasers@[b].nn@) == lines@[chaser_line(a, b, nh, nc)]@ by {
                if a < i {
                    assert(worlds@[a] == old_worlds[a]);
                }
            }
            assert forall|a: int| 0 <= a < worlds@.len() implies (#[trigger] worlds@[a]).hervors@.len()
                == nh && worlds@[a].chasers@.len() == nc by {
                if a < i {
                    assert(worlds@[a] == old_worlds[a]);
                }
            }
        }
        i += 1;
    }
    Ok(worlds)
}


/// Every brain of `worlds` has the topology of its role.
pub open spec fn brains_shaped<W>(
    worlds: Seq<WorldBrains<W>>,
    hervor_cells: int,
    chaser_cells: int,
) -> bool {
    &&& forall|i: int, j: int|
        0 <= i < worlds.len() && 0 <= j < worlds[i].hervors@.len() ==> shaped(
            (#[trigger] worlds[i].hervors@[j]).nn@,
            hervor_topology_spec(hervor_cells),
        )
    &&& forall|i: int, j: int|
        0 <= i < worlds.len() && 0 <= j < worlds[i].chasers@.len() ==> shaped(
            (#[trigger] worlds[i].chasers@[j]).nn@,
            chaser_topology_spec(chaser_cells),
        )
}

/// Save then load: the lines saved from worlds whose brains have the
/// topologies of their roles all fit, so loading them succeeds, and every
/// loaded brain is the same network as the saved one, agent by agent. Since
/// a network's output is a function of its layers, each loaded agent answers
/// every input as the saved one did.
pub proof fn lemma_load_of_save<W>(
    worlds: Seq<WorldBrains<W>>,
    lines: Seq<Vec<W>>,
    loaded: Seq<WorldBrains<W>>,
    nhervors: int,
    nchasers: int,
    hervor_cells: int,
    chaser_cells: int,
)
    requires
        uniform(worlds, nhervors, nchasers),
        brains_shaped(worlds, hervor_cells, chaser_cells),
        saved_as(worlds, lines, nhervors, nchasers),
    ensures
        lines_fit(lines, worlds.len() as int, nhervors, nchasers, hervor_cells, chaser_cells),
        loaded_as(
            lines,
            loaded,
            worlds.len() as int,
            nhervors,
            nchasers,
            hervor_cells,
            chaser_cells,
        ) ==> {
            &&& forall|i: int, j: int|
                0 <= i < worlds.len() && 0 <= j < nhervors ==> (#[trigger] loaded[i].hervors@[j]).nn@
                    == worlds[i].hervors@[j].nn@
            &&& forall|i: int, j: int|
                0 <= i < worlds.len() && 0 <= j < nchasers ==> (#[trigger] loaded[i].chasers@[j]).nn@
                    == worlds[i].chasers@[j].nn@
        },
{
    let (nh, nc) = (nhervors, nchasers);
    let ht = hervor_topology_spec(hervor_cells);
    let ct = chaser_topology_spec(chaser_cells);
    assert forall|i: int, j: int| 0 <= i < worlds.len() && 0 <= j < nh implies lines[
    #[trigger] hervor_line(i, j, nh, nc)]@.len() == required_weights(ht) by {
        let n = worlds[i].hervors@[j].nn@;
        assert(shaped(n, ht));
        lemma_from_weights_of_weights(n, n, ht);
    }
    assert forall|i: int, j: int| 0 <= i < worlds.len() && 0 <= j < nc implies lines[
    #[trigger] chaser_line(i, j, nh, nc)]@.len() == required_weights(ct) by {
        let n = worlds[i].chasers@[j].nn@;
        assert(shaped(n, ct));
        lemma_from_weights_of_weights(n, n, ct);
    }
    if loaded_as(lines, loaded, worlds.len() as int, nh, nc, hervor_cells, chaser_cells) {
        assert forall|i: int, j: int| 0 <= i < worlds.len() && 0 <= j < nh implies (
        #[trigger] loaded[i].hervors@[j]).nn@ == worlds[i].hervors@[j].nn@ by {
            let n = worlds[i].hervors@[j].nn@;
            assert(shaped(n, ht));
            assert(lines[hervor_line(i, j, nh, nc)]@ == net_flat(n));
            lemma_from_weights_of_weights(n, loaded[i].hervors@[j].nn@, ht);
        }
        assert forall|i: int, j: int| 0 <= i < worlds.len() && 0 <= j < nc implies (
        #[trigger] loaded[i].chasers@[j]).nn@ == worlds[i].chasers@[j].nn@ by {
            let n = worlds[i].chasers@[j].nn@;
            assert(shaped(n, ct));
            assert(lines[chaser_line(i, j, nh, nc)]@ == net_flat(n));
            lemma_from_weights_of_weights(n, loaded[i].chasers@[j].nn@, ct);
        }
    }
}

} // verus!
