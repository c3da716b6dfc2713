use cryptocraft::blockchain::Blockchain;
use cryptocraft::double::Double;
use cryptocraft::mining::{
    at_least_one, leading_zeros, meets_difficulty, part_searches, peek_of, spread_searches,
    spread_searches_from, thread_count, Job, Search, COUNT_UNIT,
};
use cryptocraft::solo::{miner_name, pick_mode, Mode, SoloMiner, SoloStep};

fn job() -> Job {
    Job {
        index: 1,
        timestamp: 1_700_000_000,
        data: "CryptoCraft Block #1".to_string(),
        previous_hash: "ab".repeat(32),
        difficulty: 2,
    }
}

#[test]
fn zeros_are_counted_from_the_front() {
    assert_eq!(leading_zeros("000a0"), 3);
    assert_eq!(leading_zeros("a00"), 0);
    assert_eq!(leading_zeros(""), 0);
    assert_eq!(leading_zeros("00"), 2);
    assert!(meets_difficulty("00ab", 2));
    assert!(meets_difficulty("00ab", 0));
    assert!(!meets_difficulty("0ab0", 2));
    assert!(!meets_difficulty("00", 3));
}

#[test]
fn peek_is_the_beginning_of_a_hash() {
    assert_eq!(peek_of("0123456789abcdef0123"), "0123456789abcdef");
}

#[test]
fn search_finds_the_first_solution() {
    let j = job();
    let mut s = Search { next: Some(0), last: Some(100), uncounted: 0 };
    for n in 0..5 {
        let t = s.try_next(&j);
        assert_eq!(t.nonce, n);
        assert!(!t.solved);
        assert!(!t.count);
        assert_eq!(t.hash.len(), 64);
    }
    let t = s.try_next(&j);
    assert!(t.solved);
    assert_eq!(t.nonce, 5);
    assert_eq!(t.hash, "00ff7e9cd74f952101b114e9f7e4e2b126990666f3e251f1bfc98b404039e18a");
    assert_eq!(s.next, None);
    assert_eq!(s.uncounted, 6);
}

#[test]
fn search_ends_at_its_last_nonce() {
    let mut s = Search { next: Some(1), last: Some(2), uncounted: 0 };
    s.try_next(&job());
    assert_eq!(s.next, Some(2));
    s.try_next(&job());
    assert_eq!(s.next, None);
}

#[test]
fn endless_search_goes_round() {
    let mut s = Search { next: Some(u64::MAX), last: None, uncounted: 0 };
    let t = s.try_next(&job());
    assert_eq!(t.nonce, u64::MAX);
    assert_eq!(s.next, Some(0));
}

#[test]
fn hashes_are_counted_in_units() {
    let mut s = Search { next: Some(10), last: None, uncounted: COUNT_UNIT - 1 };
    let t = s.try_next(&job());
    assert!(t.count);
    assert_eq!(s.uncounted, 0);
}

#[test]
fn parts_meet_and_cover_everything() {
    let parts = part_searches(3);
    assert_eq!(parts.len(), 3);
    let chunk = u64::MAX / 3;
    assert_eq!(parts[0].next, Some(0));
    assert_eq!(parts[0].last, Some(chunk));
    assert_eq!(parts[1].next, Some(chunk));
    assert_eq!(parts[1].last, Some(2 * chunk));
    assert_eq!(parts[2].next, Some(2 * chunk));
    assert_eq!(parts[2].last, Some(u64::MAX));
    assert_eq!(part_searches(0).len(), 0);
}

#[test]
fn spread_searches_start_apart() {
    let s = spread_searches_from(u64::MAX, 2);
    assert_eq!(s[0].next, Some(u64::MAX));
    assert_eq!(s[1].next, Some(u64::MAX.wrapping_add(u64::MAX / 2)));
    assert_eq!(s[1].last, None);
    let drawn = spread_searches(4);
    let base = drawn[0].next.unwrap();
    for (t, s) in drawn.iter().enumerate() {
        assert_eq!(s.next, Some(base.wrapping_add(t as u64 * (u64::MAX / 4))));
    }
}

#[test]
fn random_bases_differ() {
    let a: Vec<u64> = (0..8).map(|_| spread_searches(1)[0].next.unwrap()).collect();
    assert!(a.iter().any(|x| *x != a[0]));
}

#[test]
fn there_is_always_a_thread() {
    assert!(thread_count() >= 1);
    assert_eq!(at_least_one(0), 1);
    assert_eq!(at_least_one(6), 6);
}

#[test]
fn job_of_a_block_hashes_like_the_block() {
    let bc = Blockchain::new_at("ann", 1_000);
    let template = bc.template_at("ann", 2_000);
    let j = Job::for_block(&template);
    let mut s = Search { next: Some(9), last: Some(9), uncounted: 0 };
    assert_eq!(s.try_next(&j).hash, template.compute_hash(9));
}

#[test]
fn solo_miner_mines_and_takes_a_block() {
    let mut miner = SoloMiner::start(Blockchain::new_at("ann", 1_000));
    let j = miner.job_at(2_000);
    assert_eq!(j.index, 1);
    assert_eq!(j.data, "CryptoCraft Block #1");
    assert_eq!(j.timestamp, 2_000);
    assert_eq!(j.previous_hash, miner.blockchain.chain[0].hash);
    let mut s = part_searches(1)[0];
    let found = loop {
        let t = s.try_next(&j);
        if t.solved {
            break t;
        }
    };
    let reward = Double { bits: 12f64.to_bits() };
    let b = miner.take_at(found.nonce, found.hash.clone(), 10, 2_100, reward);
    assert_eq!(miner.blocks_found, 1);
    assert_eq!(b.hash, found.hash);
    assert!(leading_zeros(&b.hash) >= 1);
    assert_eq!(miner.blockchain.chain.len(), 2);
    let again = miner.take(1, "0".to_string(), 0, reward).unwrap();
    assert_eq!(again.index, 2);
    assert_eq!(miner.blocks_found, 2);
    assert_eq!(miner.next_job().index, 3);
}

#[test]
fn full_count_of_blocks_takes_no_more() {
    let mut miner = SoloMiner::start(Blockchain::new_at("ann", 1_000));
    miner.blocks_found = u64::MAX;
    assert!(miner.take(1, "0".to_string(), 0, Double { bits: 0 }).is_none());
    assert_eq!(miner.blockchain.chain.len(), 1);
}

#[test]
fn menu_offers_three_modes() {
    assert_eq!(pick_mode(" 1\n"), Some(Mode::Solo));
    assert_eq!(pick_mode("2"), Some(Mode::Host));
    assert_eq!(pick_mode("3\r\n"), Some(Mode::Join));
    assert_eq!(pick_mode("4"), None);
    assert_eq!(pick_mode(""), None);
}

#[test]
fn miner_is_named_after_the_address() {
    assert_eq!(miner_name("ann@example.com"), "ann");
    assert_eq!(miner_name("ann"), "ann");
    assert_eq!(miner_name("@x"), "");
}

#[test]
fn solo_miner_goes_on_after_a_search() {
    let mut miner = SoloMiner::start(Blockchain::new_at("ann", 1_000));
    let zero = Double { bits: 0 };
    let found = || Some((7, "0f".to_string()));
    assert!(matches!(miner.conclude(true, found(), 1, zero), SoloStep::Over));
    assert!(matches!(miner.conclude(false, None, 1, zero), SoloStep::Over));
    assert_eq!(miner.blockchain.chain.len(), 1);
    match miner.conclude(false, found(), 1, zero) {
        SoloStep::Mined { block } => assert_eq!((block.nonce, block.hash.as_str()), (7, "0f")),
        _ => panic!("not mined"),
    }
    assert_eq!(miner.blocks_found, 1);
    miner.blocks_found = u64::MAX;
    assert!(matches!(miner.conclude(false, found(), 1, zero), SoloStep::Impossible));
}
