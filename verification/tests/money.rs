use cryptocraft::blockchain::{Block, Blockchain};
use cryptocraft::clock::or_zero;
use cryptocraft::db::{
    credit, credit_at, credited, distribute_reward, ensure_balance_row, get_balance,
    get_transactions, hashrates_fit, lookup_email, now_ts, timestamp_of, total_hashrate, transfer, transfer_at,
    Portion, Standing, Statement, TransferError, TxRecord,
};
use cryptocraft::double::Double;
use cryptocraft::sync::{
    balance_url, fetch_server_balance, finish_sync, last_known_server, pool_stats_url,
    server_reachable, status_url, try_sync, Finder, FinderAction, FinderEvent, SyncPlan,
    SyncResponse,
};
use cryptocraft::wallet::{
    fmt_timestamp, history_line, is_incoming, read_choice, shown_balance, NotSent, SendEvent,
    Sending, WalletChoice,
};

fn double(x: f64) -> Double {
    Double { bits: x.to_bits() }
}

fn standing(balance: Option<f64>) -> Standing {
    Standing { balance: balance.map(double), receivers: Some(1), senders: Some(1) }
}

fn send(amount: f64, st: &Standing) -> Result<Vec<Statement>, TransferError> {
    transfer_at("s", "r", double(amount), "memo", st, "id".to_string(), 9)
}

fn tx(sender: Option<&str>, receiver: &str, timestamp: i64) -> TxRecord {
    TxRecord {
        id: "t".to_string(),
        sender_id: sender.map(|s| s.to_string()),
        receiver_id: receiver.to_string(),
        amount: double(1.5),
        memo: "memo".to_string(),
        timestamp,
    }
}

#[test]
fn credit_raises_and_records() {
    let plan = credit_at("r", double(2.5), "reward", "id".to_string(), 77);
    assert_eq!(plan.len(), 3);
    assert!(matches!(&plan[0], Statement::EnsureRow { user_id } if user_id == "r"));
    assert!(matches!(
        &plan[1],
        Statement::Raise { user_id, amount } if user_id == "r" && *amount == double(2.5)
    ));
    match &plan[2] {
        Statement::Record { tx } => {
            assert_eq!(tx.id, "id");
            assert!(tx.sender_id.is_none());
            assert_eq!(tx.receiver_id, "r");
            assert_eq!(tx.amount, double(2.5));
            assert_eq!(tx.memo, "reward");
            assert_eq!(tx.timestamp, 77);
        }
        _ => panic!("nothing recorded"),
    }
}

#[test]
fn credits_get_identifiers_of_their_own() {
    let mut ids = Vec::new();
    for _ in 0..2 {
        match &credit("r", double(1.0), "m")[2] {
            Statement::Record { tx } => ids.push(tx.id.clone()),
            _ => panic!("nothing recorded"),
        }
    }
    assert_eq!(ids[0].len(), 36);
    assert_ne!(ids[0], ids[1]);
}

#[test]
fn transfer_lowers_raises_and_records() {
    let plan = send(4.0, &standing(Some(4.0))).unwrap();
    assert_eq!(plan.len(), 4);
    assert!(matches!(
        &plan[0],
        Statement::Lower { user_id, amount } if user_id == "s" && *amount == double(4.0)
    ));
    assert!(matches!(&plan[1], Statement::EnsureRow { user_id } if user_id == "r"));
    assert!(matches!(
        &plan[2],
        Statement::Raise { user_id, amount } if user_id == "r" && *amount == double(4.0)
    ));
    match &plan[3] {
        Statement::Record { tx } => {
            assert_eq!(tx.sender_id, Some("s".to_string()));
            assert_eq!(tx.receiver_id, "r");
            assert_eq!(tx.memo, "memo");
        }
        _ => panic!("nothing recorded"),
    }
    assert!(transfer("s", "r", double(1.0), "m", &standing(Some(4.0))).is_ok());
}

#[test]
fn transfers_are_refused_for_a_reason() {
    assert_eq!(send(0.0, &standing(Some(4.0))).err(), Some(TransferError::NotPositive));
    assert_eq!(send(-1.0, &standing(Some(4.0))).err(), Some(TransferError::NotPositive));
    assert_eq!(send(4.1, &standing(Some(4.0))).err(), Some(TransferError::Insufficient));
    assert_eq!(send(0.1, &standing(None)).err(), Some(TransferError::Insufficient));
    let nobody = Standing { balance: Some(double(9.0)), receivers: Some(0), senders: Some(1) };
    assert_eq!(send(1.0, &nobody).err(), Some(TransferError::NoReceiver));
    let unknown = Standing { balance: Some(double(9.0)), receivers: None, senders: Some(1) };
    assert_eq!(send(1.0, &unknown).err(), Some(TransferError::NoReceiver));
    let ghost = Standing { balance: Some(double(9.0)), receivers: Some(1), senders: Some(0) };
    assert_eq!(send(1.0, &ghost).err(), Some(TransferError::NoSender));
    assert_eq!(
        transfer("s", "r", double(1.0), "m", &ghost).err(),
        Some(TransferError::NoSender)
    );
}

#[test]
fn refusals_are_told() {
    assert_eq!(
        TransferError::Insufficient.message(double(1.0), double(2.00004)),
        "Insufficient balance. You have 1.0000 CC, tried to send 2.0000 CC."
    );
    assert_eq!(TransferError::NotPositive.message(double(0.0), double(0.0)), "Amount must be greater than zero.");
    assert_eq!(TransferError::NoReceiver.message(double(0.0), double(0.0)), "Receiver account not found.");
    assert_eq!(TransferError::NoSender.message(double(0.0), double(0.0)), "Sender account not found.");
}

#[test]
fn small_things_of_the_books() {
    assert_eq!(get_balance(None), double(0.0));
    assert_eq!(get_balance(Some(double(3.0))), double(3.0));
    assert!(matches!(ensure_balance_row("u"), Statement::EnsureRow { user_id } if user_id == "u"));
    assert_eq!(lookup_email(" Ann@X \n"), "ann@x");
    assert_eq!(timestamp_of(5), 5);
    assert_eq!(timestamp_of(u64::MAX), -1);
    assert_eq!(timestamp_of(1 << 63), i64::MIN);
    assert!(now_ts() > 1_600_000_000);
}

#[test]
fn reward_is_shared_among_those_who_hash() {
    let miners = vec![
        ("a".to_string(), 3u64),
        ("b".to_string(), 0),
        ("c".to_string(), 1),
        ("d".to_string(), 1),
    ];
    assert_eq!(total_hashrate(&miners), 5);
    let portion = |x: f64, p: &str| Portion { amount: double(x), percent: p.to_string() };
    let portions = vec![
        portion(7.2, "60.0"),
        portion(0.0, "0.0"),
        portion(2.4, "20.0"),
        portion(0.0, "0.0"),
    ];
    let paid = distribute_reward(&miners, &portions, 42);
    assert_eq!(paid.len(), 2);
    assert_eq!(paid[0].user_id, "a");
    assert_eq!(paid[0].amount, double(7.2));
    assert_eq!(paid[0].memo, "Mining reward block #42 (60.0% hashrate share)");
    assert_eq!(paid[1].user_id, "c");
    let list = credited(&paid, &vec![false, true]);
    assert_eq!(list, vec![("c".to_string(), double(2.4))]);
    assert_eq!(distribute_reward(&vec![], &vec![], 1).len(), 0);
}

#[test]
fn unreadable_rows_are_left_out() {
    let rows = vec![Some(tx(None, "a", 3)), None, Some(tx(None, "b", 2))];
    let txs = get_transactions(rows);
    assert_eq!(txs.len(), 2);
    assert_eq!(txs[1].receiver_id, "b");
}

#[test]
fn wallet_menu_and_balance() {
    assert_eq!(read_choice("1\n"), WalletChoice::Send);
    assert_eq!(read_choice("2"), WalletChoice::History);
    assert_eq!(read_choice(" 3"), WalletChoice::Lookup);
    assert_eq!(read_choice("4"), WalletChoice::Back);
    assert_eq!(read_choice("x"), WalletChoice::Back);
    assert_eq!(shown_balance(true, Some(double(2.0)), double(1.0)), double(2.0));
    assert_eq!(shown_balance(true, None, double(1.0)), double(1.0));
    assert_eq!(shown_balance(false, Some(double(2.0)), double(1.0)), double(1.0));
}

fn typed(line: &str) -> SendEvent {
    SendEvent::Typed { line: line.to_string() }
}

fn to_confirm() -> Sending {
    Sending::new()
        .advance(SendEvent::Reached { yes: true }, "me@x")
        .advance(typed(" Bob@X\n"), "me@x")
        .advance(SendEvent::Account { id: Some("b-1".to_string()) }, "me@x")
        .advance(SendEvent::Amount { amount: Some(double(2.0)) }, "me@x")
}

fn why(s: Sending) -> NotSent {
    match s {
        Sending::Ended { why } => why,
        _ => panic!("not ended"),
    }
}

#[test]
fn payment_is_made_once_confirmed() {
    match to_confirm().advance(typed("Y"), "me@x") {
        Sending::Transfer { recipient, receiver_id, amount, memo } => {
            assert_eq!(recipient, "bob@x");
            assert_eq!(receiver_id, "b-1");
            assert_eq!(amount, double(2.0));
            assert_eq!(memo, "Transfer to bob@x");
        }
        _ => panic!("not sent"),
    }
    assert_eq!(why(to_confirm().advance(typed("yes"), "me@x")), NotSent::Cancelled);
    assert_eq!(why(to_confirm().advance(typed(""), "me@x")), NotSent::Cancelled);
}

#[test]
fn payments_end_for_a_reason() {
    let no = Sending::new().advance(SendEvent::Reached { yes: false }, "me@x");
    assert_eq!(why(no), NotSent::Unreachable);
    let asked = || Sending::new().advance(SendEvent::Reached { yes: true }, "me@x");
    assert_eq!(why(asked().advance(typed("  "), "me@x")), NotSent::Cancelled);
    assert_eq!(why(asked().advance(typed("ME@x"), "me@x")), NotSent::ToYourself);
    let nobody = asked().advance(typed("b@x"), "me@x").advance(SendEvent::Account { id: None }, "");
    assert_eq!(why(nobody), NotSent::NoAccount);
    let bad = asked()
        .advance(typed("b@x"), "me@x")
        .advance(SendEvent::Account { id: Some("b".to_string()) }, "me@x")
        .advance(SendEvent::Amount { amount: None }, "me@x");
    assert_eq!(why(bad), NotSent::InvalidAmount);
    assert!(matches!(asked().advance(SendEvent::Reached { yes: false }, ""), Sending::AskRecipient));
    assert_eq!(NotSent::Cancelled.message(), "Cancelled.");
    assert_eq!(NotSent::ToYourself.message(), "You can't send CC to yourself.");
    assert_eq!(NotSent::NoAccount.message(), "No account found with that email.");
    assert_eq!(NotSent::InvalidAmount.message(), "Invalid amount.");
    assert_eq!(NotSent::Unreachable.message(), "Cannot send CC — server is not reachable.");
}

#[test]
fn history_reads_from_one_side() {
    assert!(is_incoming(&tx(None, "x", 0), "me"));
    assert!(is_incoming(&tx(Some("you"), "me", 0), "me"));
    assert!(!is_incoming(&tx(Some("me"), "you", 0), "me"));
    assert_eq!(
        history_line(&tx(Some("me"), "you", 0), "me"),
        "  - 1.5000 CC  │  1970-01-01 00:00  │  memo"
    );
    assert_eq!(
        history_line(&tx(None, "me", 0), "me"),
        "  + 1.5000 CC  │  1970-01-01 00:00  │  memo"
    );
}

#[test]
fn dates_are_rough() {
    assert_eq!(fmt_timestamp(0), "1970-01-01 00:00");
    assert_eq!(fmt_timestamp(86399), "1970-01-01 23:59");
    assert_eq!(fmt_timestamp(1_700_000_000), "2023-12-01 22:13");
    assert_eq!(fmt_timestamp(364 * 86400), "1970-13-05 00:00");
}

fn mined_chain() -> Blockchain {
    let mut bc = Blockchain::new_at("ann", 1_000);
    for i in 1..=4u64 {
        let reward = if i == 3 { 0.0 } else { 12.0 };
        let mut b = Block::genesis_at(1_000 + i);
        b.index = i;
        b.reward = double(reward);
        b.hash = format!("h{}", i);
        bc.chain.push(b);
    }
    bc
}

#[test]
fn sync_sends_what_is_not_credited() {
    let mut bc = mined_chain();
    bc.synced_through = 1;
    assert!(matches!(try_sync(&bc, "ann@x", None), SyncPlan::Unreachable));
    let (server, request) = match try_sync(&bc, "ann@x", Some("s:2700".to_string())) {
        SyncPlan::Post { server, request } => (server, request),
        _ => panic!("nothing sent"),
    };
    assert_eq!(server, "s:2700");
    assert_eq!(request.email, "ann@x");
    assert_eq!(request.blocks.iter().map(|b| b.index).collect::<Vec<_>>(), vec![2, 4]);
    assert_eq!(request.blocks[1].hash, "h4");
    assert_eq!(request.blocks[1].timestamp, 1_004);
    let answer = |ok: bool| {
        Some(SyncResponse { ok, blocks_credited: 2, message: String::new() })
    };
    assert!(!finish_sync(&mut bc, &request, &None));
    assert!(!finish_sync(&mut bc, &request, &answer(false)));
    assert_eq!(bc.synced_through, 1);
    assert!(finish_sync(&mut bc, &request, &answer(true)));
    assert_eq!(bc.synced_through, 4);
    assert!(matches!(try_sync(&bc, "ann@x", Some("s".to_string())), SyncPlan::UpToDate));
}

#[test]
fn addresses_of_the_server() {
    assert_eq!(status_url("s:2700"), "http://s:2700/status");
    assert_eq!(pool_stats_url("s:2700"), "http://s:2700/pool_stats");
    assert_eq!(
        balance_url("s:2700", "a.b@x.com"),
        "http://s:2700/balance?email=a%2Eb%40x%2Ecom"
    );
    assert_eq!(last_known_server(None), None);
    assert_eq!(last_known_server(Some(" \n".to_string())), None);
    assert_eq!(last_known_server(Some(" s:2700\n".to_string())), Some("s:2700".to_string()));
    assert!(server_reachable(&Some("s".to_string())));
    assert!(!server_reachable(&None));
}

#[test]
fn balance_is_read_from_the_answer() {
    let read = |s: &str| fetch_server_balance(&Some(s.to_string()));
    assert_eq!(read("{ \"balance\": 12.5 }"), Some(double(12.5)));
    assert_eq!(read("{\"balance\":7}"), Some(double(7.0)));
    assert_eq!(read("{\"balance\":\"7\"}"), None);
    assert_eq!(read("{}"), None);
    assert_eq!(read("12.5"), None);
    assert_eq!(read("nonsense"), None);
    assert_eq!(fetch_server_balance(&None), None);
}

fn address(a: Option<&str>) -> FinderEvent {
    FinderEvent::Address { addr: a.map(|s| s.to_string()) }
}

#[test]
fn remembered_server_is_asked_first() {
    let f = Finder::Remember;
    assert!(matches!(f.action(), FinderAction::ReadRemembered));
    let f = f.advance(address(Some("s:2700")));
    assert!(matches!(f.action(), FinderAction::Ping { addr } if addr == "s:2700"));
    match f.advance(FinderEvent::Answer { yes: true }) {
        Finder::Found { addr, remember } => {
            assert_eq!(addr, "s:2700");
            assert!(!remember);
        }
        _ => panic!("not found"),
    }
}

#[test]
fn discovered_server_is_remembered() {
    let f = Finder::Remember.advance(address(None));
    assert!(matches!(f.action(), FinderAction::Discover));
    let f = f.advance(address(Some("10.0.0.9:8080")));
    assert!(matches!(f.action(), FinderAction::Ping { addr } if addr == "10.0.0.9:2700"));
    match f.advance(FinderEvent::Answer { yes: true }) {
        Finder::Found { addr, remember } => {
            assert_eq!(addr, "10.0.0.9:2700");
            assert!(remember);
        }
        _ => panic!("not found"),
    }
}

#[test]
fn scan_goes_through_all_machines() {
    let mut f = Finder::Remember.advance(address(None)).advance(address(None));
    let mut tried = Vec::new();
    loop {
        match f.action() {
            FinderAction::Connect { addr } => tried.push(addr),
            FinderAction::Stop => break,
            _ => panic!("unexpected"),
        }
        f = f.advance(FinderEvent::Answer { yes: false });
    }
    assert_eq!(tried.len(), 1016);
    assert_eq!(tried[0], "192.168.1.1:2700");
    assert_eq!(tried[253], "192.168.1.254:2700");
    assert_eq!(tried[254], "192.168.0.1:2700");
    assert_eq!(tried[1015], "10.0.1.254:2700");
    assert!(matches!(f, Finder::Nowhere));
}

#[test]
fn scanned_machine_has_to_answer() {
    let f = Finder::Scan { k: 508 }.advance(FinderEvent::Answer { yes: true });
    assert!(matches!(f.action(), FinderAction::Ping { addr } if addr == "10.0.0.1:2700"));
    assert!(matches!(f.advance(FinderEvent::Answer { yes: false }), Finder::Scan { k: 509 }));
    let found = Finder::AskScanned { k: 508 }.advance(FinderEvent::Answer { yes: true });
    assert!(matches!(
        found,
        Finder::Found { addr, remember: true } if addr == "10.0.0.1:2700"
    ));
}

#[test]
fn amounts_are_written_to_four_places() {
    let mut amounts = vec![
        0.0, -0.0, 1.0, 12.0, 0.5, 0.00005, 0.00015, 0.00025, 0.03125, 0.03135, 1.00004, 1.00005,
        0.00004999999999999999, 0.99995, 99.99995, 123456.78905, -1.5, -0.00001, 2388.0,
        9007199254740991.0, 9007199254740993.0, 1e22, 1e300, f64::MAX, f64::MIN_POSITIVE, 5e-324,
        f64::MIN, 4503599627370496.5, 4503599627370495.5, 0.000030517578125, 0.000091552734375,
        f64::INFINITY, f64::NEG_INFINITY, f64::NAN, -f64::NAN,
    ];
    for k in 0..80 {
        amounts.push(12.0 / 2f64.powi(k));
        amounts.push(3.0 * 7f64.powi(k));
        amounts.push(-1.0 / 7f64.powi(k));
    }
    let mut bits: u64 = 0x1234_5678_9abc_def1;
    for _ in 0..2000 {
        bits = bits.wrapping_mul(6364136223846793005).wrapping_add(1442695040888963407);
        amounts.push(f64::from_bits(bits));
        amounts.push((bits >> 20) as f64 / 1024.0);
        amounts.push((bits >> 40) as f64 / 32768.0);
    }
    for x in amounts {
        assert_eq!(double(x).to_four_places(), format!("{:.4}", x));
    }
}

#[test]
fn time_is_never_negative() {
    for clock in [0u64, 1, 1_700_000_000, i64::MAX as u64] {
        assert_eq!(timestamp_of(or_zero(Some(clock))), clock as i64);
        assert_eq!(or_zero(Some(clock)), clock);
    }
    assert_eq!(timestamp_of(or_zero(None)), 0);
    assert!(now_ts() > 1_600_000_000);
}

#[test]
fn transfer_keeps_the_sum_of_all() {
    let mut held = vec![("s", 5.0), ("r", 1.0), ("t", 2.0)];
    let before: f64 = held.iter().map(|h| h.1).sum();
    for statement in send(1.5, &standing(Some(5.0))).unwrap() {
        match statement {
            Statement::Lower { user_id, amount } => {
                held.iter_mut().find(|h| h.0 == user_id).unwrap().1 -= f64::from_bits(amount.bits);
            }
            Statement::Raise { user_id, amount } => {
                held.iter_mut().find(|h| h.0 == user_id).unwrap().1 += f64::from_bits(amount.bits);
            }
            _ => {}
        }
    }
    assert_eq!(held, vec![("s", 3.5), ("r", 2.5), ("t", 2.0)]);
    assert_eq!(held.iter().map(|h| h.1).sum::<f64>(), before);
}

#[test]
fn hash_rates_that_cannot_be_counted_are_noticed() {
    let miners = |a, b| vec![("a".to_string(), a), ("b".to_string(), b)];
    assert!(hashrates_fit(&Vec::new()));
    assert!(hashrates_fit(&miners(u64::MAX, 0)));
    assert_eq!(total_hashrate(&miners(u64::MAX - 1, 1)), u64::MAX);
    assert!(!hashrates_fit(&miners(u64::MAX, 1)));
}
