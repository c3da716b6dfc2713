use cryptocraft::blockchain::{
    benchmark_difficulty, benchmark_hash, hash_parts, now_secs, reward_at_index, Block, Blockchain,
    BLOCK_REWARD, HALVING_INTERVAL, MAX_DIFFICULTY, MIN_DIFFICULTY,
};
use cryptocraft::double::Double;
use cryptocraft::hashing::fingerprint_text;

fn double(x: f64) -> Double {
    Double { bits: x.to_bits() }
}

fn chain_with_times(times: &[u64], difficulty: usize) -> Blockchain {
    let mut bc = Blockchain::new_at("ann", times[0]);
    bc.difficulty = difficulty;
    for (i, t) in times.iter().enumerate().skip(1) {
        let mut b = Block::genesis_at(*t);
        b.index = i as u64;
        bc.chain.push(b);
    }
    bc
}

#[test]
fn fingerprint_is_sha256_in_hexadecimal() {
    assert_eq!(
        fingerprint_text("abc"),
        "ba7816bf8f01cfea414140de5dae2223b00361a396177a9cb410ff61f20015ad"
    );
    assert_eq!(
        fingerprint_text(""),
        "e3b0c44298fc1c149afbf4c8996fb92427ae41e4649b934ca495991b7852b855"
    );
}

#[test]
fn genesis_block_is_as_expected() {
    let b = Block::genesis_at(1_700_000_000);
    assert_eq!(b.index, 0);
    assert_eq!(b.data, "Genesis Block -- CryptoCraft v1.0.0");
    assert_eq!(b.previous_hash, "0".repeat(64));
    assert_eq!(b.hash, "f18b58432acb92f174af5a3bbc27320d0d926d81fd2412a28d30e30f103d4385");
    assert_eq!(b.miner, "GENESIS");
    assert_eq!(b.reward, double(0.0));
    assert_eq!(b.difficulty, 1);
    assert_eq!(b.nonce, 0);
}

#[test]
fn genesis_hash_covers_the_time() {
    let b = Block::genesis();
    assert_eq!(b.hash, b.compute_hash(0));
    assert_ne!(b.compute_hash(0), b.compute_hash(1));
}

#[test]
fn block_hash_joins_the_parts() {
    let h = hash_parts(1, 1_700_000_000, "CryptoCraft Block #1", &"ab".repeat(32), 5, 2);
    assert_eq!(h, "00ff7e9cd74f952101b114e9f7e4e2b126990666f3e251f1bfc98b404039e18a");
}

#[test]
fn benchmark_hash_is_of_the_nonce() {
    assert_eq!(
        benchmark_hash(7),
        "b2817b53c7f9dde4b65f661763fe13d35b14f7f77bc924253f4cb692f9feac9d"
    );
}

#[test]
fn rewards_halve_every_hundred_blocks() {
    assert_eq!(BLOCK_REWARD, 12);
    assert_eq!(HALVING_INTERVAL, 100);
    assert_eq!(reward_at_index(0), double(12.0));
    assert_eq!(reward_at_index(99), double(12.0));
    assert_eq!(reward_at_index(100), double(6.0));
    assert_eq!(reward_at_index(250), double(3.0));
    for h in 0..1100u64 {
        assert_eq!(reward_at_index(h * 100), double(12.0 / 2f64.powi(h as i32)));
    }
}

#[test]
fn rewards_of_far_blocks_follow_the_machine_exponent() {
    for h in [0x7fff_ffffu64, 0x8000_0000, 0xffff_ffff, 0xffff_ffff - 1020, 0xffff_ffff - 1019] {
        assert_eq!(reward_at_index(h * 100), double(12.0 / 2f64.powi(h as i32)));
    }
}

#[test]
fn supply_stays_below_its_bound() {
    let mut sum = 0.0;
    for i in 0..200_000u64 {
        sum += f64::from_bits(reward_at_index(i).bits);
    }
    assert!(sum <= 2400.0);
    assert!(sum > 2399.0);
}

#[test]
fn new_chain_holds_the_first_block() {
    let bc = Blockchain::new("ann");
    assert_eq!(bc.chain.len(), 1);
    assert_eq!(bc.difficulty, MIN_DIFFICULTY);
    assert_eq!(bc.total_mined, double(0.0));
    assert_eq!(bc.miner_name, "ann");
    assert_eq!(bc.synced_through, 0);
    assert_eq!(bc.next_index(), 1);
    assert_eq!(bc.latest_hash(), bc.chain[0].hash);
    assert_eq!(bc.current_reward(), double(12.0));
    assert_eq!(bc.blocks_to_halving(), 99);
    assert!(bc.chain[0].timestamp <= now_secs());
}

#[test]
fn saved_chain_takes_the_name_of_who_opens_it() {
    let mut saved = Blockchain::new_at("ann", 5);
    saved.difficulty = 4;
    let bc = Blockchain::load_or_new("bob", Some(saved));
    assert_eq!(bc.miner_name, "bob");
    assert_eq!(bc.difficulty, 4);
    assert_eq!(bc.chain[0].timestamp, 5);
    let fresh = Blockchain::load_or_new("bob", None);
    assert_eq!(fresh.chain.len(), 1);
    assert_eq!(fresh.miner_name, "bob");
}

#[test]
fn added_block_follows_the_last_one() {
    let mut bc = Blockchain::new_at("ann", 1_000);
    let before = bc.chain[0].hash.clone();
    assert!(bc.can_extend(1_100));
    let b = bc.add_block_at(42, "0abc".to_string(), 777, 1_100, double(12.0));
    assert_eq!(b.index, 1);
    assert_eq!(b.previous_hash, before);
    assert_eq!(b.data, "Block #1 mined after 777 attempts");
    assert_eq!(b.hash, "0abc");
    assert_eq!(b.nonce, 42);
    assert_eq!(b.miner, "ann");
    assert_eq!(b.reward, double(12.0));
    assert_eq!(bc.chain.len(), 2);
    assert_eq!(bc.total_mined, double(12.0));
    assert_eq!(bc.latest_hash(), "0abc");
    let c = bc.add_block(43, "0abd".to_string(), 1, double(24.0)).unwrap();
    assert_eq!(c.previous_hash, "0abc");
    assert_eq!(c.index, 2);
}

#[test]
fn template_names_the_next_block() {
    let bc = Blockchain::new_at("ann", 1_000);
    let t = bc.template_at("ann", 1_050);
    assert_eq!(t.index, 1);
    assert_eq!(t.data, "CryptoCraft Block #1");
    assert_eq!(t.previous_hash, bc.chain[0].hash);
    assert_eq!(t.hash, "");
    assert_eq!(t.timestamp, 1_050);
    assert_eq!(t.difficulty, 1);
    assert_eq!(t.reward, double(12.0));
}

#[test]
fn fast_blocks_raise_the_difficulty() {
    let times: Vec<u64> = (0..10).map(|i| 1_000 + i * 10).collect();
    let mut bc = chain_with_times(&times, 3);
    bc.adjust_difficulty();
    assert_eq!(bc.difficulty, 4);
    let mut top = chain_with_times(&times, MAX_DIFFICULTY);
    top.adjust_difficulty();
    assert_eq!(top.difficulty, MAX_DIFFICULTY);
}

#[test]
fn slow_blocks_lower_the_difficulty() {
    let times: Vec<u64> = (0..10).map(|i| 1_000 + i * 1_000).collect();
    let mut bc = chain_with_times(&times, 3);
    bc.adjust_difficulty();
    assert_eq!(bc.difficulty, 2);
    let mut low = chain_with_times(&times, MIN_DIFFICULTY);
    low.adjust_difficulty();
    assert_eq!(low.difficulty, MIN_DIFFICULTY);
}

#[test]
fn difficulty_turns_exactly_at_half_and_twice_the_time() {
    for (last, expected) in [(539, 6), (540, 5), (2160, 5), (2161, 4)] {
        let mut times = vec![1_000; 10];
        times[9] = 1_000 + last;
        let mut bc = chain_with_times(&times, 5);
        bc.adjust_difficulty();
        assert_eq!(bc.difficulty, expected);
    }
}

#[test]
fn difficulty_rests_between_tenth_blocks() {
    let times: Vec<u64> = (0..11).map(|i| 1_000 + i).collect();
    let mut bc = chain_with_times(&times, 5);
    bc.adjust_difficulty();
    assert_eq!(bc.difficulty, 5);
    let mut short = chain_with_times(&times[..9], 5);
    short.adjust_difficulty();
    assert_eq!(short.difficulty, 5);
}

#[test]
fn clock_that_runs_backwards_stops_the_tenth_block() {
    let times: Vec<u64> = (0..9).map(|i| 5_000 + i).collect();
    let bc = chain_with_times(&times, 5);
    assert!(!bc.can_extend(4_999));
    assert!(bc.can_extend(5_000));
}

#[test]
fn add_block_changes_nothing_where_the_clock_does_not_allow_it() {
    let times: Vec<u64> = vec![u64::MAX; 9];
    let mut bc = chain_with_times(&times, 5);
    assert!(bc.add_block(1, "x".to_string(), 0, double(1.0)).is_none());
    assert_eq!(bc.chain.len(), 9);
    assert_eq!(bc.total_mined, double(0.0));
}

#[test]
fn starting_difficulty_is_the_logarithm_to_base_sixteen() {
    assert_eq!(benchmark_difficulty(0), 1);
    assert_eq!(benchmark_difficulty(1), 1);
    assert_eq!(benchmark_difficulty(2), 1);
    assert_eq!(benchmark_difficulty(3), 2);
    assert_eq!(benchmark_difficulty(34), 2);
    assert_eq!(benchmark_difficulty(35), 3);
    assert_eq!(benchmark_difficulty(1_000_000), 6);
    assert_eq!(benchmark_difficulty(u64::MAX), 16);
    for hr in [10u64, 999, 12_345, 5_000_000, 1 << 40] {
        let ideal = ((hr as f64 * 120.0).log2() / 4.0).floor() as usize;
        assert_eq!(benchmark_difficulty(hr), ideal.clamp(MIN_DIFFICULTY, MAX_DIFFICULTY));
    }
}

#[test]
fn links_and_numbers_hold_along_a_chain() {
    let mut bc = Blockchain::new_at("ann", 100);
    for i in 0..30u64 {
        bc.add_block_at(i, format!("{:064}", i), i, 200 + i * 120, double(i as f64));
    }
    for i in 1..bc.chain.len() {
        assert_eq!(bc.chain[i].index, i as u64);
        assert_eq!(bc.chain[i].previous_hash, bc.chain[i - 1].hash);
    }
}

#[test]
fn doubles_compare_as_machine_numbers_do() {
    let xs = [
        0.0,
        -0.0,
        1.0,
        -1.0,
        12.5,
        1e308,
        -1e308,
        5e-324,
        f64::INFINITY,
        f64::NEG_INFINITY,
        f64::NAN,
    ];
    for a in xs {
        for b in xs {
            assert_eq!(double(a).less_than(&double(b)), a < b);
            assert_eq!(double(a).at_most_as(&double(b)), a <= b);
        }
    }
}

#[test]
fn copies_of_blocks_are_equal() {
    let b = Block::genesis_at(9);
    let c = b.duplicate();
    assert_eq!(format!("{:?}", b), format!("{:?}", c));
}

#[test]
fn chain_earns_what_its_places_earn() {
    let mut bc = Blockchain::new_at("ann", 100);
    for i in 0..249u64 {
        bc.add_block_at(i, "h".to_string(), i, 200 + i * 120, double(0.0));
    }
    let sum: f64 = bc.chain.iter().map(|b| f64::from_bits(b.reward.bits)).sum();
    assert_eq!(sum, 99.0 * 12.0 + 100.0 * 6.0 + 50.0 * 3.0);
    assert!(bc.difficulty >= MIN_DIFFICULTY && bc.difficulty <= MAX_DIFFICULTY);
}

#[test]
fn grown_chains_are_sound() {
    let mut bc = Blockchain::new_at("ann", 1_000);
    let mut time = 1_000;
    for n in 0..250u64 {
        time += if n % 40 < 20 { 1 } else { 300 };
        let total = f64::from_bits(bc.total_mined.bits) + f64::from_bits(bc.current_reward().bits);
        assert!(bc.can_extend(time));
        bc.add_block_at(n, format!("{:064}", n), n, time, double(total));
    }
    for n in 0..250usize {
        let b = &bc.chain[n + 1];
        assert_eq!(b.nonce, n as u64);
        assert_eq!(b.hash, format!("{:064}", n));
        assert_eq!(b.data, format!("Block #{} mined after {} attempts", n + 1, n));
        assert!(f64::from_bits(b.reward.bits) <= 12.0);
    }
    let mut total = 0.0;
    for (i, b) in bc.chain.iter().enumerate() {
        assert_eq!(b.index, i as u64);
        if i > 0 {
            assert_eq!(b.previous_hash, bc.chain[i - 1].hash);
            assert!(b.timestamp >= bc.chain[i - 1].timestamp);
        }
        assert!((MIN_DIFFICULTY..=MAX_DIFFICULTY).contains(&b.difficulty));
        total += f64::from_bits(b.reward.bits);
    }
    assert_eq!(bc.total_mined, double(total));
    assert_eq!(total, 99.0 * 12.0 + 100.0 * 6.0 + 51.0 * 3.0);
}

#[test]
fn reward_never_rises() {
    let at = |n: u64| f64::from_bits(reward_at_index(n).bits);
    for n in 0..103_000u64 {
        assert!(at(n + 1) <= at(n));
    }
    for (n, reward) in [(1, 12.0), (99, 12.0), (100, 6.0), (199, 6.0), (200, 3.0), (299, 3.0)] {
        assert_eq!(at(n), reward);
    }
    assert_eq!(at(102_400), 0.0);
    assert_eq!(at(214_748_364_799), 0.0);
}
