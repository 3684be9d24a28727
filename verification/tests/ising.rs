use ising_propp_wilson::draw::Draw;
use ising_propp_wilson::ising::{
    first_coalescence, first_coalescence_from, next_level_len, run, Ising, Sample,
};
use ising_propp_wilson::observable::{energy, magnetization};
use ising_propp_wilson::topology::build_neighbors;
use ising_propp_wilson::transition::TransitionModel;
use rand_pcg::Mcg128Xsl64;

const CRITICAL: f64 = 2.269185314213022;

fn gibbs(beta: f64, e0: f64, e1: f64) -> f64 {
    let p0 = (-e0 * beta).exp();
    let p1 = (-e1 * beta).exp();
    p1 / (p0 + p1)
}

fn model_at(temperature: f64) -> TransitionModel {
    let beta = 1.0 / temperature;
    let scale = 9007199254740992.0;
    let p2 = (gibbs(beta, -2.0, 2.0) * scale).ceil() as u64;
    let p4 = (gibbs(beta, -4.0, 4.0) * scale).ceil() as u64;
    TransitionModel::new(p2, p4).unwrap()
}

fn samples(seed: u128, n: usize, temperature: f64, limit: u8, count: usize) -> Vec<Option<Sample>> {
    let model = model_at(temperature);
    let mut rng = Mcg128Xsl64::new(seed);
    let mut out = Vec::new();
    for _ in 0..count {
        out.push(run(&mut rng, n, model, limit));
    }
    out
}

#[test]
fn model_of_a_temperature_is_ordered() {
    let model = model_at(10.0);
    assert!(3_614_000_000_000_000 < model.local_prob2());
    assert!(model.local_prob2() < 3_615_000_000_000_000);
    assert!(2_792_000_000_000_000 < model.local_prob4());
    assert!(model.local_prob4() < 2_793_000_000_000_000);
    let cold = model_at(0.5);
    assert!(cold.local_prob4() < cold.local_prob2());
    assert!(cold.local_prob2() < 1 << 42);
}

#[test]
fn new_sampler_has_no_level_and_fresh_chains() {
    let ising = Ising::new(3, model_at(2.0));
    assert_eq!(ising.level_count(), 0);
    assert!(ising.has_room());
    assert_eq!(ising.bounding_chain().ceiling_cells(), &vec![1u8; 9]);
    assert_eq!(ising.bounding_chain().floor_cells(), &vec![0u8; 9]);
    assert_eq!(ising.magnetization(), 9);
    assert_eq!(ising.energy(), -36);
}

#[test]
fn rerun_adds_one_level_and_reports_coalescence() {
    let mut rng = Mcg128Xsl64::new(7);
    let mut ising = Ising::new(4, model_at(10.0));
    let mut coalesced = false;
    for level in 1..=12usize {
        assert!(ising.has_room());
        coalesced = ising.rerun(&mut rng);
        assert_eq!(ising.level_count(), level);
        let chain = ising.bounding_chain();
        assert_eq!(coalesced, chain.ceiling_cells() == chain.floor_cells());
        assert_eq!(coalesced, chain.coalesced());
        for i in 0..16 {
            assert!(chain.ceiling_cells()[i] >= chain.floor_cells()[i]);
        }
        if coalesced {
            break;
        }
    }
    assert!(coalesced);
    assert_eq!(ising.magnetization(), magnetization(ising.bounding_chain().ceiling_cells()));
}

#[test]
fn empty_lattice_always_has_room() {
    let mut rng = Mcg128Xsl64::new(3);
    let mut ising = Ising::new(0, model_at(2.0));
    for _ in 0..70 {
        assert!(ising.has_room());
        assert!(ising.rerun(&mut rng));
    }
    assert_eq!(ising.level_count(), 70);
}

#[test]
fn no_attempt_is_made_with_limit_zero() {
    let mut rng = Mcg128Xsl64::new(1);
    assert!(run(&mut rng, 4, model_at(10.0), 0).is_none());
    assert!(run(&mut rng, 0, model_at(10.0), 0).is_none());
}

#[test]
fn empty_lattice_coalesces_at_once() {
    let mut rng = Mcg128Xsl64::new(1);
    let sample = run(&mut rng, 0, model_at(1.0), 1).unwrap();
    assert_eq!(sample.iterations, 0);
    assert_eq!(sample.magnetization, 0);
    assert_eq!(sample.energy, 0);
    assert!(sample.configuration.is_empty());
}

#[test]
fn single_site_sample_is_one_spin() {
    for sample in samples(5, 1, 3.0, 30, 20) {
        let sample = sample.unwrap();
        assert_eq!(sample.configuration.len(), 1);
        assert!(sample.magnetization == 1 || sample.magnetization == -1);
        assert_eq!(sample.energy, -4);
    }
}

#[test]
fn sample_carries_the_observables_of_its_configuration() {
    for n in [2usize, 3, 4, 5, 8] {
        let table = build_neighbors(n);
        for sample in samples(11, n, 3.0, 30, 5) {
            let sample = sample.unwrap();
            assert!(sample.iterations < 30);
            assert_eq!(sample.configuration.len(), n * n);
            assert!(sample.configuration.iter().all(|&c| c <= 1));
            assert_eq!(sample.magnetization, magnetization(&sample.configuration));
            assert_eq!(sample.energy, energy(&sample.configuration, &table));
            let sites = (n * n) as i64;
            assert!(-sites <= sample.magnetization && sample.magnetization <= sites);
            assert_eq!((sample.magnetization + sites) % 2, 0);
            let ups = sample.configuration.iter().filter(|&&c| c == 1).count() as i64;
            assert_eq!(sample.magnetization, 2 * ups - sites);
        }
    }
}

#[test]
fn same_seed_gives_the_same_samples() {
    let first = samples(42, 6, 2.5, 30, 8);
    let second = samples(42, 6, 2.5, 30, 8);
    assert_eq!(first.len(), second.len());
    for (a, b) in first.iter().zip(second.iter()) {
        let a = a.as_ref().unwrap();
        let b = b.as_ref().unwrap();
        assert_eq!(a.iterations, b.iterations);
        assert_eq!(a.magnetization, b.magnetization);
        assert_eq!(a.energy, b.energy);
        assert_eq!(a.configuration, b.configuration);
    }
}

#[test]
fn successive_samples_are_drawn_afresh() {
    let drawn = samples(42, 6, 2.5, 30, 8);
    let first = drawn[0].as_ref().unwrap();
    assert!(drawn.iter().any(|s| s.as_ref().unwrap().configuration != first.configuration));
    let other = samples(44, 6, 2.5, 30, 1);
    assert_ne!(other[0].as_ref().unwrap().configuration, first.configuration);
}

#[test]
fn a_shorter_limit_sees_the_same_early_attempts() {
    let model = model_at(CRITICAL);
    let long = run(&mut Mcg128Xsl64::new(9), 8, model, 30).unwrap();
    let exact = run(&mut Mcg128Xsl64::new(9), 8, model, long.iterations + 1).unwrap();
    assert_eq!(exact.iterations, long.iterations);
    assert_eq!(exact.configuration, long.configuration);
    if long.iterations > 0 {
        assert!(run(&mut Mcg128Xsl64::new(9), 8, model, long.iterations).is_none());
    }
}

#[test]
fn high_temperature_coalesces_within_a_few_doublings() {
    let mut total = 0i64;
    for sample in samples(2, 4, 10.0, 30, 12) {
        let sample = sample.unwrap();
        assert!(sample.iterations <= 6);
        total += sample.magnetization.abs();
    }
    assert!(total <= 12 * 8);
}

#[test]
fn low_temperature_samples_are_ordered() {
    for sample in samples(2, 4, 1.5, 30, 12) {
        let sample = sample.unwrap();
        assert!(sample.magnetization.abs() >= 12);
        assert!(sample.energy <= -40);
    }
}

#[test]
fn far_below_critical_a_short_limit_is_exhausted() {
    for sample in samples(2, 4, 0.5, 12, 6) {
        assert!(sample.is_none());
    }
}

#[test]
fn critical_large_lattice_exhausts_a_short_limit() {
    for sample in samples(2, 64, CRITICAL, 4, 6) {
        assert!(sample.is_none());
    }
}

#[test]
fn critical_small_lattice_coalesces_within_the_limit() {
    for sample in samples(2, 8, CRITICAL, 30, 12) {
        let sample = sample.unwrap();
        assert!(sample.iterations >= 1);
        assert!(sample.iterations <= 14);
    }
}

fn level(draws: &[(usize, u8)]) -> Vec<Draw> {
    draws.iter().map(|&(site, class)| Draw { site, class }).collect()
}

#[test]
fn levels_double_the_stream() {
    let mut rng = Mcg128Xsl64::new(4);
    let mut ising = Ising::new(3, model_at(0.5));
    let mut lengths = Vec::new();
    for _ in 0..6 {
        assert!(ising.has_room());
        ising.rerun(&mut rng);
        lengths.push(ising.drawn_levels().last().unwrap().len());
    }
    assert_eq!(lengths, vec![9, 9, 18, 36, 72, 144]);
    let total: usize = ising.drawn_levels().iter().map(|l| l.len()).sum();
    assert_eq!(total, 9 * 32);
    for draws in ising.drawn_levels() {
        assert!(draws.iter().all(|d| d.site < 9 && d.class <= 5));
    }
}

#[test]
fn next_level_is_as_long_as_the_stream_so_far() {
    let mut levels: Vec<Vec<Draw>> = Vec::new();
    assert_eq!(next_level_len(&levels, 4), Some(4));
    levels.push(vec![Draw { site: 0, class: 3 }; 4]);
    assert_eq!(next_level_len(&levels, 4), Some(4));
    levels.push(vec![Draw { site: 0, class: 3 }; 4]);
    assert_eq!(next_level_len(&levels, 4), Some(8));
    levels.push(vec![Draw { site: 0, class: 3 }; 8]);
    assert_eq!(next_level_len(&levels, 4), Some(16));
    assert_eq!(next_level_len(&Vec::new(), 0), Some(0));
}

#[test]
fn earlier_levels_are_kept_by_later_attempts() {
    let mut rng = Mcg128Xsl64::new(6);
    let mut ising = Ising::new(4, model_at(0.5));
    let mut before: Vec<Vec<Draw>> = Vec::new();
    for _ in 0..5 {
        ising.rerun(&mut rng);
        let now = ising.drawn_levels();
        assert_eq!(now.len(), before.len() + 1);
        assert_eq!(now[..before.len()], before[..]);
        before = now.clone();
    }
}

#[test]
fn extend_replays_the_newest_level_first() {
    let mut ising = Ising::new(1, model_at(2.0));
    assert!(ising.extend(level(&[(0, 0)])));
    assert_eq!(ising.bounding_chain().ceiling_cells(), &vec![1u8]);
    assert!(ising.extend(level(&[(0, 5)])));
    assert_eq!(ising.bounding_chain().ceiling_cells(), &vec![1u8]);
    assert_eq!(ising.bounding_chain().floor_cells(), &vec![1u8]);
    assert!(ising.extend(level(&[(0, 2), (0, 5)])));
    assert_eq!(ising.level_count(), 3);
    assert_eq!(ising.magnetization(), 1);
    assert_eq!(ising.energy(), -4);
    let mut apart = Ising::new(1, model_at(2.0));
    assert!(!apart.extend(level(&[(0, 2)])));
    assert_eq!(apart.bounding_chain().ceiling_cells(), &vec![1u8]);
    assert_eq!(apart.bounding_chain().floor_cells(), &vec![0u8]);
    assert!(apart.extend(level(&[(0, 5)])));
    assert_eq!(apart.bounding_chain().ceiling_cells(), &vec![0u8]);
    assert_eq!(apart.magnetization(), -1);
}

#[test]
fn driver_returns_the_first_attempt_that_coalesces() {
    let levels =
        vec![level(&[(0, 2)]), level(&[(0, 3)]), level(&[(0, 1), (0, 5)]), level(&[(0, 0); 4])];
    let sample = first_coalescence(1, &levels, 30).unwrap();
    assert_eq!(sample.iterations, 2);
    assert_eq!(sample.configuration, vec![0u8]);
    assert_eq!(sample.magnetization, -1);
    assert_eq!(sample.energy, -4);
    assert!(first_coalescence(1, &levels, 2).is_none());
    assert!(first_coalescence(1, &levels, 0).is_none());
    assert_eq!(first_coalescence(1, &levels, 3).unwrap().iterations, 2);
    let later = first_coalescence_from(1, &levels, 3, 30).unwrap();
    assert_eq!(later.iterations, 3);
    assert_eq!(later.configuration, vec![0u8]);
    assert!(first_coalescence_from(1, &levels, 4, 30).is_none());
}

#[test]
fn driver_finds_nothing_where_no_attempt_coalesces() {
    let levels = vec![level(&[(0, 2)]), level(&[(0, 3)]), level(&[(0, 1), (0, 4)])];
    assert!(first_coalescence(1, &levels, 30).is_none());
    assert!(first_coalescence(1, &Vec::new(), 30).is_none());
    let sample = first_coalescence(0, &vec![Vec::new()], 1).unwrap();
    assert_eq!(sample.iterations, 0);
    assert!(sample.configuration.is_empty());
}

#[test]
fn driver_on_two_by_two_gives_configuration_and_observables() {
    let first = level(&[(0, 5), (1, 5), (2, 0), (3, 0)]);
    let second = level(&[(0, 2), (1, 2), (2, 2), (3, 2)]);
    let sample = first_coalescence(2, &vec![first.clone(), second], 5).unwrap();
    assert_eq!(sample.iterations, 0);
    assert_eq!(sample.configuration, vec![0u8, 0, 1, 1]);
    assert_eq!(sample.magnetization, 0);
    assert_eq!(sample.energy, 0);
    let stuck = level(&[(0, 2), (1, 2), (2, 2), (3, 2)]);
    let sample = first_coalescence(2, &vec![stuck, first], 5).unwrap();
    assert_eq!(sample.iterations, 1);
    assert_eq!(sample.configuration, vec![1u8, 1, 1, 1]);
    assert_eq!(sample.magnetization, 4);
    assert_eq!(sample.energy, -16);
}

#[test]
fn run_agrees_with_the_driver_on_the_levels_of_a_sampler() {
    let mut ising = Ising::new(4, model_at(3.0));
    let mut rng = Mcg128Xsl64::new(10);
    let mut attempts = 0u8;
    while !ising.rerun(&mut rng) {
        attempts += 1;
        assert!(attempts < 30);
    }
    let sample = first_coalescence(4, ising.drawn_levels(), 30).unwrap();
    assert_eq!(sample.iterations, attempts);
    assert_eq!(&sample.configuration, ising.bounding_chain().ceiling_cells());
    assert_eq!(sample.magnetization, ising.magnetization());
    assert_eq!(sample.energy, ising.energy());
    let drawn = run(&mut Mcg128Xsl64::new(10), 4, model_at(3.0), 30).unwrap();
    assert_eq!(drawn.iterations, sample.iterations);
    assert_eq!(drawn.configuration, sample.configuration);
    assert_eq!(drawn.energy, sample.energy);
}
