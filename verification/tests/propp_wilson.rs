use ising_propp_wilson::chain::BoundingChain;
use ising_propp_wilson::draw::{pack, unpack, Draw};
use ising_propp_wilson::propp_wilson::ProppWilsonIsing;
use ising_propp_wilson::transition::{TransitionModel, HALF, ONE};
use rand_pcg::Mcg128Xsl64;

fn model() -> TransitionModel {
    TransitionModel::new(1u64 << 51, 1u64 << 50).unwrap()
}

fn word_of_class(class: u8) -> u64 {
    let variate = match class {
        5 => 0,
        4 => 1u64 << 50,
        3 => 1u64 << 51,
        2 => HALF,
        1 => ONE - (1u64 << 51),
        _ => ONE - 1,
    };
    variate << 11
}

fn with_log(n: usize, draws: &[(usize, u8)]) -> ProppWilsonIsing {
    let mut ising = ProppWilsonIsing::new(n, model());
    for &(site, class) in draws {
        ising.record(site, word_of_class(class));
    }
    ising.rewind();
    ising
}

#[test]
fn new_sampler_has_an_empty_log() {
    let ising = ProppWilsonIsing::new(3, model());
    assert!(ising.packed_log().is_empty());
    assert_eq!(ising.remaining(), 0);
    assert_eq!(ising.distance(), 9);
    assert_eq!(ising.bounding_chain().site_count(), 9);
}

#[test]
fn record_packs_site_and_class_of_the_word() {
    let mut ising = ProppWilsonIsing::new(3, model());
    for class in 0u8..6 {
        ising.record(class as usize + 2, word_of_class(class));
    }
    let expected: Vec<u32> =
        (0u8..6).map(|class| pack(Draw { site: class as usize + 2, class })).collect();
    assert_eq!(ising.packed_log(), &expected);
    assert_eq!(ising.packed_log()[3], 5 + (3 << 29));
    assert_eq!(ising.remaining(), 0);
}

#[test]
fn replay_walks_the_log_from_its_end() {
    let mut ising = with_log(1, &[(0, 0), (0, 5)]);
    assert_eq!(ising.remaining(), 2);
    ising.update_one();
    assert_eq!(ising.remaining(), 1);
    assert_eq!(ising.bounding_chain().ceiling_cells(), &vec![0u8]);
    assert_eq!(ising.bounding_chain().floor_cells(), &vec![0u8]);
    ising.update_one();
    assert_eq!(ising.remaining(), 0);
    assert_eq!(ising.bounding_chain().ceiling_cells(), &vec![1u8]);
    assert_eq!(ising.bounding_chain().floor_cells(), &vec![1u8]);
}

#[test]
fn update_one_applies_the_threshold_rule() {
    let mut ising = with_log(3, &[(4, 2), (4, 1), (3, 0), (4, 4)]);
    ising.update_one();
    assert_eq!(ising.bounding_chain().ceiling_cells()[4], 1);
    assert_eq!(ising.bounding_chain().floor_cells()[4], 0);
    ising.update_one();
    assert_eq!(ising.bounding_chain().floor_cells()[3], 1);
    ising.update_one();
    assert_eq!(ising.bounding_chain().floor_cells()[4], 1);
    ising.update_one();
    assert_eq!(ising.bounding_chain().ceiling_cells()[4], 1);
    assert_eq!(ising.bounding_chain().floor_cells()[4], 0);
    assert_eq!(ising.distance(), 8);
}

#[test]
fn update_n_applies_one_sweep() {
    let mut ising = with_log(
        2,
        &[(0, 0), (1, 0), (2, 0), (3, 0), (0, 5), (1, 5), (2, 5), (3, 5)],
    );
    assert_eq!(ising.remaining(), 8);
    assert!(ising.update_n());
    assert_eq!(ising.remaining(), 4);
    assert_eq!(ising.bounding_chain().ceiling_cells(), &vec![0u8; 4]);
    assert_eq!(ising.distance(), 0);
    assert!(!ising.update_n());
    assert_eq!(ising.remaining(), 0);
    assert_eq!(ising.bounding_chain().floor_cells(), &vec![1u8; 4]);
    assert_eq!(ising.distance(), 0);
}

#[test]
fn rewind_starts_over_on_the_same_log() {
    let mut ising = with_log(2, &[(0, 5), (1, 5), (2, 0), (3, 0)]);
    let log = ising.packed_log().clone();
    assert!(!ising.update_n());
    let ceiling = ising.bounding_chain().ceiling_cells().clone();
    let floor = ising.bounding_chain().floor_cells().clone();
    assert_eq!(ceiling, vec![0u8, 0, 1, 1]);
    assert_eq!(floor, vec![0u8, 0, 1, 1]);
    ising.rewind();
    assert_eq!(ising.remaining(), 4);
    assert_eq!(ising.packed_log(), &log);
    assert_eq!(ising.bounding_chain().ceiling_cells(), &vec![1u8; 4]);
    assert_eq!(ising.bounding_chain().floor_cells(), &vec![0u8; 4]);
    assert!(!ising.update_n());
    assert_eq!(ising.bounding_chain().ceiling_cells(), &ceiling);
    assert_eq!(ising.bounding_chain().floor_cells(), &floor);
}

#[test]
fn sweeps_stop_at_the_first_agreement() {
    let mut ising = with_log(1, &[(0, 3), (0, 0), (0, 2)]);
    assert_eq!(ising.sweep_until_coalesced(), Some(2));
    assert_eq!(ising.remaining(), 1);
    assert_eq!(ising.distance(), 0);
}

#[test]
fn agreement_on_the_last_draw_is_not_examined() {
    let mut ising = with_log(1, &[(0, 0), (0, 2), (0, 2)]);
    assert_eq!(ising.sweep_until_coalesced(), None);
    assert_eq!(ising.remaining(), 0);
    assert_eq!(ising.distance(), 0);
    let mut apart = with_log(1, &[(0, 2), (0, 2)]);
    assert_eq!(apart.sweep_until_coalesced(), None);
    assert_eq!(apart.distance(), 1);
}

#[test]
fn rerun_appends_valid_draws_and_rewinds() {
    let mut rng = Mcg128Xsl64::new(1);
    let mut ising = ProppWilsonIsing::new(3, model());
    ising.rerun(9, &mut rng);
    assert_eq!(ising.packed_log().len(), 9);
    assert_eq!(ising.remaining(), 9);
    ising.rerun(0, &mut rng);
    assert_eq!(ising.packed_log().len(), 9);
    ising.rerun(18, &mut rng);
    assert_eq!(ising.packed_log().len(), 27);
    assert_eq!(ising.remaining(), 27);
    assert_eq!(ising.bounding_chain().ceiling_cells(), &vec![1u8; 9]);
    assert_eq!(ising.bounding_chain().floor_cells(), &vec![0u8; 9]);
    let mut seen = [false; 9];
    for &word in ising.packed_log() {
        let draw = unpack(word);
        assert!(draw.site < 9);
        assert!(draw.class <= 5);
        seen[draw.site] = true;
    }
    assert!(seen.iter().filter(|&&s| s).count() > 1);
}

#[test]
fn extending_the_log_keeps_the_earlier_draws() {
    let mut rng = Mcg128Xsl64::new(5);
    let mut ising = ProppWilsonIsing::new(4, model());
    let mut before: Vec<u32> = Vec::new();
    for _ in 0..6 {
        let n = ising.doubling_len();
        ising.rerun(n, &mut rng);
        let log = ising.packed_log();
        assert_eq!(log.len(), before.len() + n);
        assert_eq!(log[..before.len()], before[..]);
        before = log.clone();
    }
    assert_eq!(before.len(), 16 * 32);
}

#[test]
fn earlier_attempt_is_the_end_of_the_extended_replay() {
    let mut rng = Mcg128Xsl64::new(8);
    let mut ising = ProppWilsonIsing::new(3, model());
    ising.rerun(9, &mut rng);
    assert!(!ising.update_n());
    let short_ceiling = ising.bounding_chain().ceiling_cells().clone();
    ising.rerun(18, &mut rng);
    let log = ising.packed_log().clone();
    let mut chain = BoundingChain::new(3);
    for &word in log[..9].iter().rev() {
        chain.apply(unpack(word));
    }
    assert_eq!(chain.ceiling_cells(), &short_ceiling);
}

#[test]
fn replay_agrees_with_the_chains_driven_by_hand() {
    let mut rng = Mcg128Xsl64::new(21);
    let mut ising = ProppWilsonIsing::new(4, model());
    ising.rerun(16 * 5, &mut rng);
    let log = ising.packed_log().clone();
    let mut chain = BoundingChain::new(4);
    let mut applied = 0;
    loop {
        let more = ising.update_n();
        for k in applied..applied + 16 {
            chain.apply(unpack(log[log.len() - 1 - k]));
        }
        applied += 16;
        assert_eq!(ising.bounding_chain().ceiling_cells(), chain.ceiling_cells());
        assert_eq!(ising.bounding_chain().floor_cells(), chain.floor_cells());
        assert_eq!(ising.distance(), chain.distance());
        assert_eq!(ising.remaining(), log.len() - applied);
        if !more {
            break;
        }
    }
    assert_eq!(applied, 80);
}

#[test]
fn doubling_starts_with_one_sweep() {
    let mut ising = ProppWilsonIsing::new(3, model());
    assert_eq!(ising.doubling_len(), 9);
    ising.rerun(9, &mut Mcg128Xsl64::new(2));
    assert_eq!(ising.doubling_len(), 9);
    ising.rerun(9, &mut Mcg128Xsl64::new(2));
    assert_eq!(ising.doubling_len(), 18);
}

#[test]
fn same_seed_gives_the_same_log() {
    let mut first = ProppWilsonIsing::new(5, model());
    let mut second = ProppWilsonIsing::new(5, model());
    first.rerun(50, &mut Mcg128Xsl64::new(76));
    second.rerun(50, &mut Mcg128Xsl64::new(76));
    assert_eq!(first.packed_log(), second.packed_log());
    let mut third = ProppWilsonIsing::new(5, model());
    third.rerun(50, &mut Mcg128Xsl64::new(78));
    assert_ne!(first.packed_log(), third.packed_log());
}

#[test]
fn doubling_the_draws_reaches_coalescence() {
    let mut rng = Mcg128Xsl64::new(1);
    let mut ising = ProppWilsonIsing::new(4, model());
    let mut sweeps = None;
    let mut lengths = Vec::new();
    for _ in 0..20 {
        let n = ising.doubling_len();
        ising.rerun(n, &mut rng);
        lengths.push(ising.packed_log().len());
        sweeps = ising.sweep_until_coalesced();
        if sweeps.is_some() {
            break;
        }
    }
    for (k, &length) in lengths.iter().enumerate() {
        assert_eq!(length, 16 << k);
    }
    let sweeps = sweeps.unwrap();
    assert!(sweeps >= 1);
    assert_eq!(ising.distance(), 0);
    assert!(ising.remaining() > 0);
    assert_eq!(ising.remaining() % 16, 0);
    assert_eq!(ising.remaining() + sweeps * 16, ising.packed_log().len());
}
