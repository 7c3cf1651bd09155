use evo_sim::brain::{ChaserBrain, HervorBrain};
use evo_sim::genetic::Chromosome;
use evo_sim::persistence::{load_lines, save_lines, LoadError, WorldBrains};

fn genes(n: usize, seed: f32) -> Chromosome<f32> {
    Chromosome::new((0..n).map(|i| seed + i as f32 * 0.5).collect())
}

fn worlds() -> Vec<WorldBrains<f32>> {
    (0..2)
        .map(|w| WorldBrains {
            hervors: vec![HervorBrain::from_chromosome(&genes(22, w as f32 * 100.0), 1).unwrap()],
            chasers: (0..2)
                .map(|c| {
                    ChaserBrain::from_chromosome(&genes(10, w as f32 * 100.0 + 10.0 * (c + 1) as f32), 1)
                        .unwrap()
                })
                .collect(),
        })
        .collect()
}

#[test]
fn save_writes_prey_then_predators_per_world() {
    let w = worlds();
    let lines = save_lines(&w, 1, 2);
    assert_eq!(lines.len(), 6);
    assert_eq!(lines[0], w[0].hervors[0].nn.weights());
    assert_eq!(lines[1], w[0].chasers[0].nn.weights());
    assert_eq!(lines[2], w[0].chasers[1].nn.weights());
    assert_eq!(lines[3], w[1].hervors[0].nn.weights());
    assert_eq!(lines[5][0], 120.0);
}

#[test]
fn load_of_save_gives_the_same_networks() {
    let w = worlds();
    let lines = save_lines(&w, 1, 2);
    let loaded = load_lines(&lines, 2, 1, 2, 1, 1).unwrap();
    assert_eq!(loaded.len(), 2);
    for (a, b) in w.iter().zip(loaded.iter()) {
        assert_eq!(a.hervors.len(), b.hervors.len());
        assert_eq!(a.chasers.len(), b.chasers.len());
        for (x, y) in a.hervors.iter().zip(b.hervors.iter()) {
            assert_eq!(x.nn.weights(), y.nn.weights());
        }
        for (x, y) in a.chasers.iter().zip(b.chasers.iter()) {
            assert_eq!(x.nn.weights(), y.nn.weights());
        }
    }
}

#[test]
fn load_rejects_a_wrong_number_of_lines() {
    let mut lines = save_lines(&worlds(), 1, 2);
    lines.pop();
    assert_eq!(load_lines(&lines, 2, 1, 2, 1, 1).err(), Some(LoadError::WrongLineCount));
    assert_eq!(load_lines::<f32>(&vec![], 0, 1, 2, 1, 1).map(|w| w.len()), Ok(0));
}

#[test]
fn load_rejects_a_line_of_the_wrong_length() {
    let mut lines = save_lines(&worlds(), 1, 2);
    lines[4].push(1.0);
    assert_eq!(load_lines(&lines, 2, 1, 2, 1, 1).err(), Some(LoadError::BadLine(4)));
}
