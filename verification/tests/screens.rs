use cryptocraft::clock::{or_zero, seconds_since_epoch};
use cryptocraft::display::{
    difficulty_bar, flavor_text, fmt_duration, fmt_hashrate, fmt_hr, fmt_up, hash_ends,
    hashrate_unit, listed_blocks, random_flavor, rate_unit, split_peek, target_text, trunc,
    unit_size, HashrateWindow, Unit, FLAVORS, WINDOW,
};
use cryptocraft::double::Double;
use cryptocraft::http::{
    body_for, get_request_text, head_for, missing_text, post_request_text, response_body,
    route_request, split_url, status_text, Route, Site,
};
use cryptocraft::network::{
    agrees, candidate_text, classify, dashboard_address, host_and_port_text, list_interfaces,
    next_candidate, read_host_choice, typed_or_default, HostChoice, IfaceKind, RawIface,
};
use cryptocraft::order::places_by_rank;
use cryptocraft::blockchain::Blockchain;
use cryptocraft::pool_client::ClientStats;
use cryptocraft::pool_server::{Circumstances, ClientMsg, PoolState};
use cryptocraft::screens::{
    client_screen, server_screen, solo_screen, ClientTexts, Piece, ServerTexts, Shade, SoloTexts,
    FRAME, RULE,
};
use cryptocraft::server::{served_page_text, ServerState, PORT};
use cryptocraft::solo::SoloMiner;
use cryptocraft::text::{
    before_char, column_text, contains_text, find_text, is_blank, is_letter, normalize,
    parse_usize, repeat_char, replace_char, replace_text, same_text, starts_with_text,
    strip_prefix_text, trim, u64_text, zero_filled_text,
};

fn double(x: f64) -> Double {
    Double { bits: x.to_bits() }
}

#[test]
fn numbers_are_written_and_read() {
    for n in [0u64, 7, 10, 999, 1_000_000, u64::MAX] {
        assert_eq!(u64_text(n), n.to_string());
    }
    assert_eq!(zero_filled_text(7, 4), "0007");
    assert_eq!(zero_filled_text(12345, 4), "12345");
    for s in ["0", "+5", "007", "18446744073709551615", "18446744073709551616", "", "+", "-1", "1a"] {
        assert_eq!(parse_usize(s), s.parse::<usize>().ok());
    }
}

#[test]
fn texts_are_trimmed_and_lowered() {
    for s in ["", "  ", " a b ", "\tx\n", "\u{2003}ü\u{a0}", "a"] {
        assert_eq!(trim(s), s.trim());
        assert_eq!(is_blank(s), s.trim().is_empty());
        assert_eq!(normalize(s), s.trim().to_lowercase());
    }
    assert_eq!(normalize(" ÄÖ@X.de "), "äö@x.de");
    for c in '\0'..=char::MAX {
        assert_eq!(is_blank(&c.to_string()), c.is_whitespace());
    }
    assert!(is_letter(" Q\n", 'q', 'Q'));
    assert!(is_letter("q", 'q', 'Q'));
    assert!(!is_letter("qq", 'q', 'Q'));
    assert!(!is_letter("", 'q', 'Q'));
}

#[test]
fn texts_are_searched_and_replaced() {
    assert_eq!(find_text("abcabc", "ca"), Some(2));
    assert_eq!(find_text("äbc", "b"), Some(1));
    assert_eq!(find_text("abc", "x"), None);
    assert_eq!(find_text("abc", ""), Some(0));
    assert!(contains_text("local area 5", "area"));
    assert!(!contains_text("eth", "ether"));
    assert!(starts_with_text("http://x", "http://"));
    assert!(!starts_with_text("htt", "http://"));
    assert_eq!(strip_prefix_text("http://x", "http://"), Some("x"));
    assert_eq!(strip_prefix_text("x", "http://"), None);
    assert_eq!(before_char("a:b:c", ':'), "a");
    assert_eq!(before_char("abc", ':'), "abc");
    assert_eq!(replace_char("a.b.c", '.', "%2E"), "a%2Eb%2Ec");
    assert_eq!(replace_text("aXXbXXX", "XX", "-"), "aXXbXXX".replace("XX", "-"));
    assert_eq!(column_text("ab", 4), "ab  ");
    assert_eq!(column_text("abcde", 4), "abcde");
    assert_eq!(repeat_char('x', 3), "xxx");
    assert!(same_text("a", "a"));
    assert!(!same_text("a", "b"));
}

#[test]
fn hash_rates_have_units() {
    assert_eq!(hashrate_unit(999), Unit::One);
    assert_eq!(hashrate_unit(1_000), Unit::Kilo);
    assert_eq!(hashrate_unit(1_000_000), Unit::Mega);
    assert_eq!(unit_size(Unit::Mega), 1_000_000);
    assert_eq!(unit_size(Unit::Kilo), 1_000);
    assert_eq!(unit_size(Unit::One), 1);
    assert_eq!(fmt_hr(999, ""), "999 H/s");
    assert_eq!(fmt_hr(1_500, "1.50"), "1.50 KH/s");
    assert_eq!(fmt_hr(2_500_000, "2.50"), "2.50 MH/s");
    assert_eq!(rate_unit(double(999.99)), Unit::One);
    assert_eq!(rate_unit(double(1_000.0)), Unit::Kilo);
    assert_eq!(rate_unit(double(999_999.0)), Unit::Kilo);
    assert_eq!(rate_unit(double(1_000_000.0)), Unit::Mega);
    assert_eq!(rate_unit(double(f64::NAN)), Unit::One);
    assert_eq!(rate_unit(double(-5.0)), Unit::One);
    assert_eq!(fmt_hashrate(double(5.0), "5.00"), "5.00  H/s");
    assert_eq!(fmt_hashrate(double(5_000.0), "5.00"), "5.00 KH/s");
    assert_eq!(fmt_hashrate(double(5e6), "5.00"), "5.00 MH/s");
}

#[test]
fn spans_are_written_short() {
    assert_eq!(fmt_up(59), "59s");
    assert_eq!(fmt_up(60), "1m 0s");
    assert_eq!(fmt_up(3661), "1h 1m");
    assert_eq!(fmt_duration(59), "59s");
    assert_eq!(fmt_duration(61), "1m 1s");
    assert_eq!(fmt_duration(3661), "1h 1m 1s");
}

#[test]
fn pieces_of_the_screens() {
    assert_eq!(trunc("abcdef", 3), "abc");
    assert_eq!(trunc("abc", 3), "abc");
    assert_eq!(split_peek("00ab", 2), ("00", "ab"));
    assert_eq!(split_peek("00ab", 9), ("00ab", ""));
    let hash = "0123456789abcdef0123456789abcdef0123456789abcdef0123456789abcdef";
    assert_eq!(hash_ends(hash), ("01234567", "89abcdef"));
    assert_eq!(difficulty_bar(3), format!("[{}{}]", "#".repeat(3), ".".repeat(13)));
    assert_eq!(difficulty_bar(18), format!("[{}]", "#".repeat(18)));
    assert_eq!(target_text(2, 6), "00xxxx");
    assert_eq!(target_text(8, 6), "000000");
    assert_eq!(listed_blocks(0, 5), Vec::<usize>::new());
    assert_eq!(listed_blocks(1, 5), Vec::<usize>::new());
    assert_eq!(listed_blocks(3, 5), vec![1, 0]);
    assert_eq!(listed_blocks(9, 5), vec![7, 6, 5, 4, 3]);
}

#[test]
fn recent_rate_is_measured_over_a_window() {
    let mut w = HashrateWindow::new();
    assert_eq!(w.base_of_next(), None);
    assert_eq!(w.record(100, 5), None);
    assert_eq!(w.base_of_next(), Some(5));
    assert_eq!(w.record(400, 25), Some((20, 300)));
    for i in 0..20u64 {
        w.record(500 + i, 30 + i);
    }
    assert_eq!(w.readings.len(), WINDOW);
    assert_eq!(w.readings[11], (519, 49));
    assert_eq!(w.base_of_next(), Some(39));
    assert_eq!(w.record(520, 60), Some((21, 11)));
    assert_eq!(w.record_or_restart(521, 61), Some((21, 11)));
    assert_eq!(w.readings.len(), WINDOW);
    assert_eq!(w.record_or_restart(600, 3), None);
    assert_eq!(w.readings.len(), 1);
    assert_eq!(w.readings[0], (600, 3));
    assert_eq!(w.record_or_restart(590, 10), Some((7, 0)));
}

#[test]
fn sayings_are_drawn_from_the_list() {
    let all: Vec<&str> = (0..FLAVORS).map(flavor_text).collect();
    assert_eq!(all[0], "Hammering nonces at full speed...");
    assert_eq!(all[9], "SHA-256 at maximum overdrive...");
    let drawn: Vec<&str> = (0..200).map(|_| random_flavor()).collect();
    assert!(drawn.iter().all(|s| all.contains(s)));
    assert!(drawn.iter().any(|s| *s != drawn[0]));
}

#[test]
fn addresses_come_apart() {
    assert_eq!(
        split_url("http://h:1/p?q"),
        Some(("h:1".to_string(), "/p?q".to_string()))
    );
    assert_eq!(split_url("http://h"), Some(("h".to_string(), "/".to_string())));
    assert_eq!(split_url("https://h"), None);
}

#[test]
fn requests_and_answers() {
    assert_eq!(
        get_request_text("h", "/p"),
        "GET /p HTTP/1.0\r\nHost: h\r\nConnection: close\r\n\r\n"
    );
    assert_eq!(
        post_request_text("h", "/sync", "{\"ä\":1}"),
        "POST /sync HTTP/1.0\r\nHost: h\r\nContent-Type: application/json\r\nContent-Length: 8\r\nConnection: close\r\n\r\n{\"ä\":1}"
    );
    assert_eq!(
        response_body("HTTP/1.0 200 OK\r\nA: b\r\n\r\nbody\r\n\r\nmore"),
        Some("body\r\n\r\nmore".to_string())
    );
    assert_eq!(response_body("HTTP/1.0 200 OK\r\n"), None);
}

#[test]
fn requests_are_routed() {
    for site in [Site::Solo, Site::PoolServer, Site::PoolClient] {
        assert_eq!(route_request(site, "/"), Route::Page);
        assert_eq!(route_request(site, "/index.html?x=1"), Route::Page);
        assert_eq!(route_request(site, "/status"), Route::Status);
        assert_eq!(route_request(site, "/nothing"), Route::NotFound);
    }
    assert_eq!(route_request(Site::Solo, "/chain"), Route::Chain);
    assert_eq!(route_request(Site::PoolServer, "/chain"), Route::NotFound);
    assert_eq!(route_request(Site::Solo, "/pool_stats"), Route::NotFound);
    assert_eq!(route_request(Site::PoolServer, "/pool_stats"), Route::PoolStats);
    assert_eq!(route_request(Site::PoolClient, "/pool_stats"), Route::PoolStats);
    assert_eq!(route_request(Site::PoolClient, "/client_stats"), Route::ClientStats);
    assert_eq!(route_request(Site::PoolServer, "/client_stats"), Route::NotFound);
}

#[test]
fn answers_have_heads_and_bodies() {
    let page = head_for(Route::Page);
    assert_eq!(page.status, 200);
    assert_eq!(page.content_type, Some("text/html; charset=utf-8".to_string()));
    assert!(!page.open_to_all);
    assert!(page.no_cache);
    let status = head_for(Route::Status);
    assert_eq!(status.content_type, Some("application/json".to_string()));
    assert!(status.open_to_all);
    assert!(!status.no_cache);
    let missing = head_for(Route::NotFound);
    assert_eq!(missing.status, 404);
    assert_eq!(missing.content_type, None);
    assert_eq!(status_text(Site::Solo, false), "{\"mode\":\"solo\",\"mining\":true}");
    assert_eq!(status_text(Site::PoolServer, false), "{\"mode\":\"pool_server\",\"mining\":true}");
    assert_eq!(
        status_text(Site::PoolClient, true),
        "{\"mode\":\"pool_client\",\"connected\":true}"
    );
    assert_eq!(
        status_text(Site::PoolClient, false),
        "{\"mode\":\"pool_client\",\"connected\":false}"
    );
    assert_eq!(missing_text(Site::Solo, Route::NotFound), "404 not found");
    assert_eq!(missing_text(Site::PoolServer, Route::NotFound), "404");
    assert_eq!(missing_text(Site::Solo, Route::Chain), "{\"error\":\"chain file not found\"}");
    assert_eq!(
        missing_text(Site::PoolClient, Route::PoolStats),
        "{\"error\":\"pool server unreachable\"}"
    );
    assert_eq!(missing_text(Site::PoolServer, Route::PoolStats), "{}");
}

#[test]
fn dashboard_shows_a_chain_file() {
    let mut s = ServerState::new("a.json");
    assert_eq!(s.chain_file, "a.json");
    s.update_chain_file("b.json");
    assert_eq!(s.chain_file, "b.json");
    assert_eq!(PORT, 2700);
    assert_eq!(
        served_page_text("<script>// __SERVER_MODE__</script>"),
        "<script>window.__SERVER_MODE__ = true;</script>"
    );
    assert_eq!(served_page_text("plain"), "plain");
}

#[test]
fn interfaces_are_told_by_name() {
    assert_eq!(classify("Wi-Fi 2"), IfaceKind::Wifi);
    assert_eq!(classify("WLAN0"), IfaceKind::Wifi);
    assert_eq!(classify("Wireless Ethernet"), IfaceKind::Wifi);
    assert_eq!(classify("eth0"), IfaceKind::Ethernet);
    assert_eq!(classify("Local Area Connection"), IfaceKind::Ethernet);
    assert_eq!(classify("tun0"), IfaceKind::Other);
    assert_eq!(IfaceKind::Ethernet.label(), "Ethernet");
    assert_eq!(IfaceKind::Wifi.label(), "Wi-Fi   ");
    assert_eq!(IfaceKind::Other.label(), "Other   ");
}

#[test]
fn interfaces_are_listed_by_kind() {
    let raw = |name: &str, loopback: bool, ip: Option<&str>| RawIface {
        name: name.to_string(),
        loopback,
        ipv4: ip.map(|s| s.to_string()),
    };
    let list = list_interfaces(&vec![
        raw("tun0", false, Some("1.1.1.1")),
        raw("wlan0", false, Some("2.2.2.2")),
        raw("lo", true, Some("127.0.0.1")),
        raw("eth0", false, None),
        raw("eth1", false, Some("3.3.3.3")),
        raw("wlan1", false, Some("4.4.4.4")),
    ]);
    let ips: Vec<&str> = list.iter().map(|i| i.ip.as_str()).collect();
    assert_eq!(ips, vec!["3.3.3.3", "2.2.2.2", "4.4.4.4", "1.1.1.1"]);
    assert_eq!(list[0].name, "eth1");
    assert_eq!(list[0].kind, IfaceKind::Ethernet);
}

#[test]
fn answers_to_the_list_of_interfaces() {
    assert_eq!(read_host_choice(" M\n", 3), HostChoice::Manual);
    assert_eq!(read_host_choice("3", 3), HostChoice::Pick(2));
    assert_eq!(read_host_choice("4", 3), HostChoice::Invalid);
    assert_eq!(read_host_choice("0", 3), HostChoice::Invalid);
    assert_eq!(read_host_choice("x", 3), HostChoice::Invalid);
    assert_eq!(typed_or_default(" \n", "0.0.0.0"), "0.0.0.0");
    assert_eq!(typed_or_default(" 10.0.0.1\n", "0.0.0.0"), "10.0.0.1");
    assert!(agrees("\n"));
    assert!(agrees(" Yes "));
    assert!(agrees("y"));
    assert!(!agrees("no"));
}

#[test]
fn addresses_of_machines() {
    assert_eq!(host_and_port_text("h", 8080), "h:8080");
    assert_eq!(dashboard_address("10.0.0.5:8080"), "10.0.0.5:2700");
    assert_eq!(dashboard_address("10.0.0.5"), "10.0.0.5:2700");
    assert_eq!(candidate_text(0, 8080), "192.168.1.1:8080");
    assert_eq!(candidate_text(762, 8080), "10.0.1.1:8080");
    assert_eq!(next_candidate(1015, 8080), Some("10.0.1.254:8080".to_string()));
    assert_eq!(next_candidate(1016, 8080), None);
}

#[test]
fn sorting_is_stable() {
    assert_eq!(places_by_rank(&vec![2, 0, 2, 1, 0]), vec![1, 4, 3, 0, 2]);
    assert_eq!(places_by_rank(&vec![]), Vec::<usize>::new());
}

fn lines(screen: &[Piece]) -> Vec<String> {
    let mut out = vec![String::new()];
    for p in screen {
        out.last_mut().unwrap().push_str(&p.text);
        if p.ends_line {
            out.push(String::new());
        }
    }
    assert_eq!(out.pop(), Some(String::new()));
    out
}

#[test]
fn client_screen_shows_the_miner() {
    let mut st = ClientStats::new("ann".to_string(), "10.0.0.5:8080".to_string());
    st.connect();
    st.difficulty = 3;
    st.current_block = 12;
    st.total_cc = double(12.0);
    st.progress(1_500, "000abc");
    let screen = client_screen(&st, &ClientTexts { up_secs: 61, hashes: 5, scaled: "1.50" });
    assert_eq!(screen[14].text, "000");
    assert_eq!(screen[14].shade, Shade::Green);
    let l = lines(&screen);
    assert_eq!(l.len(), 18);
    assert_eq!(l[0], FRAME);
    assert_eq!(l[3], format!("  Miner   : {:<28}  Uptime : {}", "ann", "1m 1s"));
    assert_eq!(l[4], format!("  Server  : {:<28}  Port   : {}", "10.0.0.5:8080", 2700));
    assert_eq!(l[5], "  Pool    : CONNECTED    Dashboard: http://localhost:2700/");
    assert_eq!(screen[5].shade, Shade::Green);
    assert_eq!(l[6], RULE);
    assert_eq!(l[7], format!("  Blocks Won    : {:<10}  CC Earned  : {} CC", 0, "12.0000"));
    assert_eq!(l[9], format!("  Current Job   : Block #{:<10}  Difficulty : {} zeros", 12, 3));
    assert_eq!(l[10], format!("  Hashrate      : {:<20}  Hashes : {}", "1.50 KH/s", 5));
    assert_eq!(l[12], format!("  Target        : 000{}...", "x".repeat(13)));
    assert_eq!(l[13], format!("  Current Peek  : 000{:<18}", "abc"));
    assert_eq!(l[15], format!("  Status        : {:<58}", "Waiting for work..."));
    st.disconnect();
    st.progress(999, "0");
    let off = client_screen(&st, &ClientTexts { up_secs: 0, hashes: 0, scaled: "?" });
    assert_eq!(lines(&off)[10], format!("  Hashrate      : {:<20}  Hashes : {}", "999 H/s", 0));
    assert_eq!(lines(&off)[13], format!("  Current Peek  : 0{:<18}", ""));
    assert_eq!(off[5].shade, Shade::Red);
    assert!(off[5].text.starts_with("  Pool    : DISCONNECTED  "));
}

#[test]
fn server_screen_shows_the_pool() {
    let mut bc = Blockchain::new_at("pool", 1_000);
    for i in 1..=2u64 {
        bc.add_block_at(0, format!("00{}{}", "a".repeat(54), "tail_end"), 0, 1_000 + i, double(24.0));
    }
    let mut st = PoolState::open_pool(bc, "f".to_string(), "10.0.0.5".to_string());
    for (addr, name, hr) in [("a", "ann", 5), ("b", "a name that is far too long", 9_000)] {
        let cx = Circumstances {
            authed: true,
            joined: 0,
            total_mined: double(0.0),
            block_time: 0,
            work_time: 0,
        };
        let hello = ClientMsg::Hello { email: String::new(), name: name.to_string() };
        st.handle_message_at(addr, hello, cx);
        st.handle_message_at(addr, ClientMsg::Hashrate { hr }, cx);
    }
    let each_scaled = vec!["?".to_string(), "9.00".to_string()];
    let l = lines(&server_screen(
        &st,
        &ServerTexts {
            now: 61_000_000_000,
            scaled: "9.01",
            each_scaled: &each_scaled,
        },
    ));
    assert_eq!(l.len(), 23);
    assert_eq!(
        l[1],
        format!(
            "|    CRYPTOCRAFT  Pool Server   {}:{:<5}                      |",
            "10.0.0.5", 8080
        )
    );
    assert_eq!(l[3], format!("  Chain Length  : {:<10}  Difficulty : {} zeros", 3, 1));
    assert_eq!(l[4], format!("  Blocks Found  : {:<10}  CC Mined   : {} CC", 0, "24.0000"));
    assert_eq!(l[5], "  Pool Hashrate : 9.01 KH/s  Dashboard : http://10.0.0.5:2700/");
    assert_eq!(l[7], "  Connected Miners (2):");
    assert_eq!(l[9], format!("  {:-<20} {:-<16} {:-<12} {:-<10}", "", "", "", ""));
    assert_eq!(
        l[10],
        format!("  {:<20} {:<16} {:<12} {:<10}", "a name that is far ", "9.00 KH/s", 0, "1m 1s")
    );
    assert_eq!(l[11], format!("  {:<20} {:<16} {:<12} {:<10}", "ann", "5 H/s", 0, "1m 1s"));
    assert_eq!(l[12], " ".repeat(70));
    assert_eq!(l[14], " ".repeat(70));
    assert_eq!(l[15], RULE);
    assert_eq!(
        l[17],
        format!(
            "    #{:<5} | {}…{} | {} zeros | {} CC | {}",
            1, "00aaaaaa", "tail_end", 2, "12.0000", "pool"
        )
    );
    assert!(l[18].ends_with("0.0000 CC | GENESIS"));
    assert_eq!(l[19], " ".repeat(70));
    assert_eq!(l[22].trim(), "[Q + Enter] Back to menu");
}

#[test]
fn solo_screen_shows_the_chain() {
    let mut bc = Blockchain::new_at("ann", 1_000);
    bc.add_block_at(0, "0".repeat(64), 0, 1_001, double(12.0));
    bc.difficulty = 2;
    let mut solo = SoloMiner::start(bc);
    solo.blocks_found = 1;
    let l = lines(&solo_screen(
        &solo,
        &SoloTexts {
            email: "ann@x",
            local_ip: "10.0.0.9",
            flavor: "Deep mining in progress...",
            up_secs: 3661,
            hashes: 77,
            average: double(1.0),
            average_scaled: "1.00",
            recent: double(2_500_000.0),
            recent_scaled: "2.50",
            peek: "00ab",
        },
    ));
    assert_eq!(l.len(), 26);
    assert_eq!(l[1], format!("|    CRYPTOCRAFT Solo Miner  v{:<5}                              |", "1.0.0"));
    assert_eq!(l[3], format!("  Account : {:<28}  Uptime : {}", "ann@x", "1h 1m 1s"));
    assert_eq!(l[4], "  Miner   : ann");
    assert_eq!(l[6], format!("  Blocks Mined  : {:<10}  Total Earned  : {} CC", 1, "12.0000"));
    assert_eq!(l[7], "  Block Reward  : 12.0000 CC    Halving In    : 98 blocks");
    assert_eq!(l[9], format!("  Difficulty    : 2 leading zeros  [##{}]", ".".repeat(14)));
    assert_eq!(l[10], format!("  Avg Hashrate  : {:<20}  Recent : {}", "1.00  H/s", "2.50 MH/s"));
    assert_eq!(l[11], "  Total Hashes  : 77");
    assert_eq!(l[13], format!("  Target        : 00{}", "x".repeat(62)));
    assert_eq!(l[14], format!("  Current Peek  : 00{:<64}", "ab"));
    assert_eq!(l[15], format!("  Status        : {:<58}", "Deep mining in progress..."));
    assert!(l[18].starts_with("    #0     | "));
    assert!(l[18].ends_with(" zeros | 0.0000 CC"));
    for blank in &l[19..23] {
        assert_eq!(*blank, " ".repeat(70));
    }
    assert_eq!(l[25], "  Dashboard     : http://10.0.0.9:2700/");
}

#[test]
fn bodies_follow_the_route() {
    let site = Site::PoolClient;
    let data = || Some("data".to_string());
    assert_eq!(body_for(site, Route::Page, "page", true, data()), "page");
    assert_eq!(
        body_for(site, Route::Status, "page", true, data()),
        "{\"mode\":\"pool_client\",\"connected\":true}"
    );
    assert_eq!(body_for(site, Route::NotFound, "page", true, data()), "404");
    assert_eq!(body_for(site, Route::PoolStats, "page", true, data()), "data");
    assert_eq!(
        body_for(site, Route::PoolStats, "page", true, None),
        "{\"error\":\"pool server unreachable\"}"
    );
    assert_eq!(body_for(Site::Solo, Route::Chain, "page", true, data()), "data");
}

#[test]
fn clock_before_the_epoch_reads_zero() {
    assert_eq!(or_zero(Some(5)), 5);
    assert_eq!(or_zero(None), 0);
    assert!(seconds_since_epoch() > 1_600_000_000);
}
