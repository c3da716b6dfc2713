use cryptocraft::blockchain::Blockchain;
use cryptocraft::double::Double;
use cryptocraft::mining::{Job, Search};
use cryptocraft::network::read_discovery_reply;
use cryptocraft::pool_client::{hello, ClientAction, ClientStats, WINS_KEPT};
use cryptocraft::pool_server::{
    answer_discovery, table_row_text, whole_secs_between, Circumstances, ClientMsg, Outcome,
    PoolAction, PoolState, ServerMsg,
};

fn double(x: f64) -> Double {
    Double { bits: x.to_bits() }
}

fn pool() -> PoolState {
    PoolState::open_pool(
        Blockchain::new_at("pool", 1_000),
        "pool.json".to_string(),
        "192.168.1.2".to_string(),
    )
}

fn cx(authed: bool) -> Circumstances {
    Circumstances {
        authed,
        joined: 7,
        total_mined: double(12.0),
        block_time: 2_000,
        work_time: 2_001,
    }
}

fn join(st: &mut PoolState, addr: &str, name: &str) -> Outcome {
    st.handle_message_at(
        addr,
        ClientMsg::Hello { email: "e".to_string(), name: name.to_string() },
        cx(false),
    )
}

fn submit(index: u64, hash: &str) -> ClientMsg {
    ClientMsg::Submit { index, nonce: 3, hash: hash.to_string() }
}

fn reason(out: &Outcome) -> String {
    match &out.actions[0] {
        PoolAction::Reply { msg: ServerMsg::Rejected { reason } } => reason.clone(),
        _ => panic!("not refused"),
    }
}

#[test]
fn hello_is_answered_with_work() {
    let mut st = pool();
    let out = join(&mut st, "a:1", "ann");
    assert!(out.authed);
    assert_eq!(st.miners.len(), 1);
    assert_eq!(st.miners[0].name, "ann");
    assert_eq!(st.miners[0].email, "");
    assert_eq!(st.miners[0].joined, 7);
    assert_eq!(out.actions.len(), 1);
    match &out.actions[0] {
        PoolAction::Reply {
            msg: ServerMsg::Work { index, prev_hash, difficulty, timestamp, data, reward },
        } => {
            assert_eq!(*index, 1);
            assert_eq!(*prev_hash, st.blockchain.chain[0].hash);
            assert_eq!(*difficulty, 1);
            assert_eq!(*timestamp, 2_001);
            assert_eq!(data, "CryptoCraft Pool Block #1");
            assert_eq!(*reward, double(12.0));
        }
        _ => panic!("no work"),
    }
}

#[test]
fn second_hello_takes_the_place_of_the_first() {
    let mut st = pool();
    join(&mut st, "a:1", "ann");
    join(&mut st, "b:1", "bob");
    join(&mut st, "a:1", "eve");
    assert_eq!(st.miners.len(), 2);
    assert_eq!(st.miners[0].name, "eve");
}

#[test]
fn stranger_submits_in_vain() {
    let mut st = pool();
    let out = st.handle_message_at("a:1", submit(1, "0abc"), cx(false));
    assert!(!out.authed);
    assert_eq!(out.actions.len(), 0);
    assert_eq!(st.blockchain.chain.len(), 1);
}

#[test]
fn stale_and_invalid_blocks_are_refused() {
    let mut st = pool();
    join(&mut st, "a:1", "ann");
    let stale = st.handle_message_at("a:1", submit(5, "0abc"), cx(true));
    assert_eq!(reason(&stale), "stale block");
    let invalid = st.handle_message_at("a:1", submit(1, "abc"), cx(true));
    assert_eq!(reason(&invalid), "invalid hash");
    assert_eq!(st.blockchain.chain.len(), 1);
    assert_eq!(st.blocks_total, 0);
    assert_eq!(st.miners[0].blocks_found, 0);
}

#[test]
fn accepted_block_is_told_to_everyone() {
    let mut st = pool();
    join(&mut st, "a:1", "ann");
    join(&mut st, "b:1", "bob");
    let out = st.handle_message_at("a:1", submit(1, "0abc"), cx(true));
    assert_eq!(st.blockchain.chain.len(), 2);
    assert_eq!(st.blockchain.chain[1].hash, "0abc");
    assert_eq!(st.blockchain.chain[1].data, "Block #1 mined after 0 attempts");
    assert_eq!(st.blockchain.total_mined, double(12.0));
    assert_eq!(st.blocks_total, 1);
    assert_eq!(st.miners[0].blocks_found, 1);
    assert_eq!(st.miners[1].blocks_found, 0);
    assert_eq!(out.actions.len(), 5);
    assert!(matches!(out.actions[0], PoolAction::Save));
    match &out.actions[1] {
        PoolAction::Reply { msg: ServerMsg::Accepted { block_index, reward } } => {
            assert_eq!(*block_index, 1);
            assert_eq!(*reward, double(12.0));
        }
        _ => panic!("not accepted"),
    }
    assert!(matches!(
        &out.actions[2],
        PoolAction::Send { to, msg: ServerMsg::Work { index: 2, .. } } if to == "a:1"
    ));
    assert!(matches!(
        &out.actions[3],
        PoolAction::Send { to, msg: ServerMsg::Stop } if to == "b:1"
    ));
    assert!(matches!(
        &out.actions[4],
        PoolAction::Send { to, msg: ServerMsg::Work { index: 2, .. } } if to == "b:1"
    ));
    let again = st.handle_message_at("b:1", submit(1, "0abd"), cx(true));
    assert_eq!(reason(&again), "stale block");
}

#[test]
fn reports_and_leaving_concern_one_miner() {
    let mut st = pool();
    join(&mut st, "a:1", "ann");
    join(&mut st, "b:1", "bob");
    st.handle_message_at("b:1", ClientMsg::Hashrate { hr: 900 }, cx(true));
    assert_eq!(st.miners[0].hashrate, 0);
    assert_eq!(st.miners[1].hashrate, 900);
    st.handle_message_at("c:1", ClientMsg::Hashrate { hr: 1 }, cx(true));
    assert_eq!(st.total_hashrate(), 900);
    let bye = st.handle_message_at("a:1", ClientMsg::Bye, cx(true));
    assert!(matches!(bye.actions[0], PoolAction::Close));
    st.disconnect("a:1");
    st.disconnect("a:1");
    assert_eq!(st.miners.len(), 1);
    assert_eq!(st.miners[0].name, "bob");
}

#[test]
fn messages_are_dealt_with_at_the_time_of_the_clock() {
    let mut st = pool();
    let hello = ClientMsg::Hello { email: String::new(), name: "ann".to_string() };
    let out = st.handle_message("a:1", hello, false, 3, double(12.0)).unwrap();
    assert!(out.authed);
    assert_eq!(st.miners[0].joined, 3);
    st.handle_message("a:1", submit(1, "0abc"), true, 3, double(12.0)).unwrap();
    assert_eq!(st.blockchain.chain.len(), 2);
    st.blocks_total = u64::MAX;
    assert!(!st.can_answer("a:1", &submit(2, "0abc"), true, u64::MAX));
    assert!(st.can_answer("a:1", &submit(2, "abc"), true, u64::MAX));
    assert!(st.handle_message("a:1", submit(2, "0abc"), true, 3, double(24.0)).is_none());
    assert_eq!(st.blockchain.chain.len(), 2);
}

#[test]
fn solved_work_is_accepted() {
    let mut st = pool();
    join(&mut st, "a:1", "ann");
    let job = match st.build_work_at(5) {
        ServerMsg::Work { index, prev_hash, difficulty, timestamp, data, .. } => {
            Job { index, timestamp, data, previous_hash: prev_hash, difficulty }
        }
        _ => panic!("no work"),
    };
    let mut s = Search { next: Some(0), last: None, uncounted: 0 };
    let mut t = s.try_next(&job);
    while !t.solved {
        t = s.try_next(&job);
    }
    let msg = ClientMsg::Submit { index: job.index, nonce: t.nonce, hash: t.hash };
    let out = st.handle_message_at("a:1", msg, cx(true));
    assert!(matches!(out.actions[0], PoolAction::Save));
}

#[test]
fn figures_of_the_pool() {
    let mut st = pool();
    join(&mut st, "a:1", "ann");
    for i in 1..=25u64 {
        st.blockchain.add_block_at(0, format!("0{}", i), 0, 1_000 + i * 120, double(1.0));
    }
    st.miners[0].hashrate = 5;
    let stats = st.to_stats(3_000_000_007);
    assert_eq!(stats.chain_length, 26);
    assert_eq!(stats.total_hashrate, 5);
    assert_eq!(stats.blocks_total, 0);
    assert_eq!(stats.total_mined, double(1.0));
    assert_eq!(stats.miners[0].name, "ann");
    assert_eq!(stats.miners[0].uptime_secs, 3);
    assert_eq!(stats.recent_blocks.len(), 20);
    assert_eq!(stats.recent_blocks[0].index, 6);
    assert_eq!(stats.recent_blocks[19].index, 25);
    assert_eq!(stats.recent_blocks[19].hash, "025");
    assert!(st.hashrates_fit());
    join(&mut st, "b:1", "bob");
    st.miners[1].hashrate = u64::MAX;
    assert!(!st.hashrates_fit());
}

#[test]
fn screen_lists_the_fastest_first() {
    let mut st = pool();
    for (addr, hr) in [("a", 5), ("b", 9), ("c", 5), ("d", 0)] {
        join(&mut st, addr, addr);
        st.handle_message_at(addr, ClientMsg::Hashrate { hr }, cx(true));
    }
    assert_eq!(st.ranking(), vec![1, 0, 2, 3]);
    assert_eq!(
        table_row_text("ann", "5 H/s", "0", "1s"),
        format!("  {:<20} {:<16} {:<12} {:<10}", "ann", "5 H/s", "0", "1s")
    );
}

#[test]
fn seconds_between_two_readings() {
    assert_eq!(whole_secs_between(5, 1_000_000_004), 0);
    assert_eq!(whole_secs_between(5, 1_000_000_005), 1);
    assert_eq!(whole_secs_between(9, 5), 0);
}

#[test]
fn discovery_finds_the_server() {
    assert!(answer_discovery("hello", "10.0.0.5").is_none());
    let reply = answer_discovery(" CRYPTOCRAFT_DISCOVER_V1\n", "10.0.0.5").unwrap();
    assert_eq!(reply, "CRYPTOCRAFT_POOL_V1|10.0.0.5:8080");
    assert_eq!(read_discovery_reply(&reply), Some("10.0.0.5:8080".to_string()));
    assert_eq!(read_discovery_reply("CRYPTOCRAFT_POOL_V1"), None);
}

#[test]
fn copied_messages_say_the_same() {
    for msg in [
        pool().build_work(),
        ServerMsg::Stop,
        ServerMsg::Accepted { block_index: 4, reward: double(3.0) },
        ServerMsg::Rejected { reason: "stale block".to_string() },
    ] {
        assert_eq!(format!("{:?}", msg), format!("{:?}", msg.duplicate()));
    }
}

fn client() -> ClientStats {
    ClientStats::new("ann".to_string(), "10.0.0.5:8080".to_string())
}

#[test]
fn client_starts_and_connects() {
    let mut st = client();
    assert_eq!(st.status, "Connecting...");
    assert_eq!(st.peek_hash, "0000000000000000");
    assert!(!st.connected);
    assert_eq!(st.total_cc, double(0.0));
    st.connect();
    assert!(st.connected);
    assert_eq!(st.status, "Waiting for work...");
    st.progress(77, "00ab");
    assert_eq!(st.hashrate, 77);
    assert_eq!(st.peek_hash, "00ab");
    st.bad_message("eof");
    assert_eq!(st.status, "Bad msg: eof");
    st.disconnect();
    assert!(!st.connected);
    assert_eq!(st.status, "Disconnected from pool.");
}

#[test]
fn client_mines_what_it_is_given() {
    let mut st = client();
    let work = ServerMsg::Work {
        index: 4,
        prev_hash: "p".to_string(),
        difficulty: 3,
        timestamp: 9,
        data: "d".to_string(),
        reward: double(12.0),
    };
    match st.handle_at(work, double(0.0), 1) {
        ClientAction::Mine { job } => {
            assert_eq!(job.index, 4);
            assert_eq!(job.previous_hash, "p");
            assert_eq!(job.difficulty, 3);
            assert_eq!(job.timestamp, 9);
            assert_eq!(job.data, "d");
        }
        _ => panic!("nothing to mine"),
    }
    assert_eq!(st.status, "Mining block #4 at 3 zeros");
    assert_eq!(st.current_block, 4);
    assert_eq!(st.difficulty, 3);
    assert!(matches!(st.handle_at(ServerMsg::Stop, double(0.0), 1), ClientAction::Halt));
    assert_eq!(st.status, "Another miner found the block. Waiting for new work...");
    let no = ServerMsg::Rejected { reason: "stale block".to_string() };
    assert!(matches!(st.handle_at(no, double(0.0), 1), ClientAction::Nothing));
    assert_eq!(st.status, "Submission rejected: stale block");
}

#[test]
fn client_counts_what_it_wins() {
    let mut st = client();
    st.progress(1, "00ff");
    for i in 0..60u64 {
        let won = ServerMsg::Accepted { block_index: i, reward: double(12.0) };
        st.handle_at(won, double(12.0 * (i + 1) as f64), 100 + i);
    }
    assert_eq!(st.blocks_won, 60);
    assert_eq!(st.total_cc, double(720.0));
    assert_eq!(st.status, "Block #59 ACCEPTED! +12.0000 CC");
    assert_eq!(st.wins_history.len(), WINS_KEPT);
    assert_eq!(st.wins_history[0].block_index, 10);
    assert_eq!(st.wins_history[49].block_index, 59);
    assert_eq!(st.wins_history[49].timestamp, 159);
    assert_eq!(st.wins_history[49].hash, "00ff");
    assert_eq!(st.wins_history[49].reward, double(12.0));
    let copy = st.clone();
    assert_eq!(copy.status, st.status);
    assert_eq!(copy.wins_history[49].hash, "00ff");
}

#[test]
fn client_that_cannot_count_on_changes_nothing() {
    let mut st = client();
    let won = ServerMsg::Accepted { block_index: 1, reward: double(12.0) };
    assert!(st.handle(won.duplicate(), double(12.0)).is_some());
    assert_eq!(st.blocks_won, 1);
    st.blocks_won = u64::MAX;
    assert!(st.handle(won, double(24.0)).is_none());
    assert_eq!(st.wins_history.len(), 1);
}

#[test]
fn client_submits_unless_halted() {
    let mut st = client();
    assert!(st.submit(1, 2, "h".to_string(), true).is_none());
    assert_eq!(st.status, "Connecting...");
    match st.submit(1, 2, "h".to_string(), false) {
        Some(ClientMsg::Submit { index, nonce, hash }) => {
            assert_eq!((index, nonce, hash.as_str()), (1, 2, "h"));
        }
        _ => panic!("not submitted"),
    }
    assert_eq!(st.status, "Submitted block #1 — waiting for confirmation...");
    assert!(matches!(
        hello("e", "n"),
        ClientMsg::Hello { email, name } if email == "e" && name == "n"
    ));
}

#[test]
fn chain_of_the_pool_stays_linked_and_proven() {
    let mut st = pool();
    join(&mut st, "a:1", "ann");
    for i in 1..=12u64 {
        let hash = format!("{}{:02}", "0".repeat(16), i);
        let at = Circumstances { block_time: 1_000 + i * 120, ..cx(true) };
        st.handle_message_at("a:1", submit(i, &hash), at);
        st.handle_message_at("a:1", submit(i, "0"), at);
        st.handle_message_at("a:1", submit(i + 1, "f"), at);
    }
    let chain = &st.blockchain.chain;
    assert_eq!(chain.len(), 13);
    for i in 1..chain.len() {
        assert_eq!(chain[i].index, i as u64);
        assert_eq!(chain[i].previous_hash, chain[i - 1].hash);
        assert!(chain[i].hash.starts_with(&"0".repeat(chain[i].difficulty)));
    }
}
