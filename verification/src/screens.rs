//! What the three programs show on the terminal, line by line.
//!
//! The scaling of a hash rate to its unit is floating point; a screen takes the scaled rates.

use crate::blockchain::{Block, BlockView};
use crate::display;
use crate::double;
use crate::double::Double;
use crate::mining;
use crate::order;
use crate::pool_client::{ClientStats, ClientView};
use crate::pool_server;
use crate::pool_server::{MinerView, PoolState, PoolView};
use crate::solo::{SoloMiner, SoloView};
use crate::text;
use vstd::prelude::*;
use vstd::string::StringExecFns;

verus! {

/// The upper and lower edge of a heading.
pub const FRAME: &'static str =
    "+------------------------------------------------------------------+";

/// What parts the sections of a screen.
pub const RULE: &'static str =
    "--------------------------------------------------------------------";

/// How many miners the screen of the server has room for.
pub const MINER_ROWS: usize = 5;

/// How many blocks the screen of the server lists.
pub const SERVER_BLOCKS: usize = 4;

/// How many blocks the screen of the solo miner lists.
pub const SOLO_BLOCKS: usize = 5;

/// How long a hash is.
pub const HASH_LEN: usize = 64;

// ---- Pieces --------------------------------------------------------------------------------

/// The color of a text.
#[derive(Clone, Copy, Debug, PartialEq, Eq, Structural)]
pub enum Shade {
    Plain,
    Yellow,
    Cyan,
    Green,
    Magenta,
    Red,
    White,
    Grey,
}

/// A text in one color.
pub struct Piece {
    pub shade: Shade,
    pub text: String,
    /// Whether the line ends after it.
    pub ends_line: bool,
}

/// A text in one color.
#[verifier::ext_equal]
pub struct PieceView {
    pub shade: Shade,
    pub text: Seq<char>,
    pub ends_line: bool,
}

impl View for Piece {
    type V = PieceView;

    open spec fn view(&self) -> PieceView {
        PieceView { shade: self.shade, text: self.text@, ends_line: self.ends_line }
    }
}

/// What a screen shows.
pub open spec fn shown(screen: Seq<Piece>) -> Seq<PieceView> {
    screen.map_values(|p: Piece| p@)
}

/// A whole line in one color.
pub open spec fn line(shade: Shade, text: Seq<char>) -> PieceView {
    PieceView { shade, text, ends_line: true }
}

/// The beginning of a line, or its middle.
pub open spec fn piece(shade: Shade, text: Seq<char>) -> PieceView {
    PieceView { shade, text, ends_line: false }
}

/// A line that parts two sections.
pub open spec fn rule() -> PieceView {
    line(Shade::Plain, RULE@)
}

/// Lines that clear what was shown before.
pub open spec fn blanks(n: nat) -> Seq<PieceView> {
    Seq::new(n, |i: int| line(Shade::Plain, text::repeated(' ', 70)))
}

/// How many of `most` lines are left.
pub open spec fn left_of(most: nat, used: nat) -> nat {
    if used < most {
        (most - used) as nat
    } else {
        0
    }
}

fn put(screen: &mut Vec<Piece>, shade: Shade, text: String)
    ensures
        shown(final(screen)@) == shown(old(screen)@).push(line(shade, text@)),
{
    let p = Piece { shade, text, ends_line: true };
    let ghost view = p@;
    screen.push(p);
    assert(shown(screen@) =~= shown(old(screen)@).push(view));
}

fn put_piece(screen: &mut Vec<Piece>, shade: Shade, text: &str)
    ensures
        shown(final(screen)@) == shown(old(screen)@).push(piece(shade, text@)),
{
    let p = Piece { shade, text: text.to_owned(), ends_line: false };
    let ghost view = p@;
    screen.push(p);
    assert(shown(screen@) =~= shown(old(screen)@).push(view));
}

fn put_rule(screen: &mut Vec<Piece>)
    ensures
        shown(final(screen)@) == shown(old(screen)@).push(rule()),
{
    put(screen, Shade::Plain, RULE.to_owned());
}

fn put_blanks(screen: &mut Vec<Piece>, most: usize, used: usize)
    ensures
        shown(final(screen)@) == shown(old(screen)@) + blanks(left_of(most as nat, used as nat)),
{
    let n: usize = if used < most { most - used } else { 0 };
    let mut i: usize = 0;
    assert(shown(screen@) =~= shown(screen@) + blanks(0));
    while i < n
        invariant
            i <= n,
            shown(screen@) == shown(old(screen)@) + blanks(i as nat),
        decreases n - i,
    {
        put(screen, Shade::Plain, text::repeat_char(' ', 70));
        assert(shown(screen@) =~= shown(old(screen)@) + blanks((i + 1) as nat));
        i = i + 1;
    }
}

fn joined2(a: &str, b: &str) -> (s: String)
    ensures
        s@ == a@ + b@,
{
    let mut s = a.to_owned();
    s.append(b);
    s
}

fn joined3(a: &str, b: &str, c: &str) -> (s: String)
    ensures
        s@ == a@ + b@ + c@,
{
    let mut s = joined2(a, b);
    s.append(c);
    s
}

fn joined4(a: &str, b: &str, c: &str, d: &str) -> (s: String)
    ensures
        s@ == a@ + b@ + c@ + d@,
{
    let mut s = joined3(a, b, c);
    s.append(d);
    s
}

fn joined5(a: &str, b: &str, c: &str, d: &str, e: &str) -> (s: String)
    ensures
        s@ == a@ + b@ + c@ + d@ + e@,
{
    let mut s = joined4(a, b, c, d);
    s.append(e);
    s
}

/// A number in a column.
fn number_column(n: u64, width: usize) -> (s: String)
    ensures
        s@ == text::column(text::decimal(n as nat), width as nat),
{
    text::column_text(text::u64_text(n).as_str(), width)
}

// ---- The screen of a pool's miner ----------------------------------------------------------

/// What the screen of a pool's miner shows besides what is known of the miner.
pub struct ClientTexts<'a> {
    pub up_secs: u64,
    pub hashes: u64,
    /// The hash rate in its unit, with two decimals.
    pub scaled: &'a str,
}

/// The screen of a pool's miner.
pub open spec fn client_lines(st: ClientView, t: ClientTexts) -> Seq<PieceView> {
    let port = text::decimal(pool_server::DASHBOARD_PORT as nat);
    let hit = display::hit_len(st.peek_hash, st.difficulty);
    seq![
        line(Shade::Yellow, FRAME@),
        line(
            Shade::Yellow,
            "|    CRYPTOCRAFT  Pool Client                                      |"@,
        ),
        line(Shade::Yellow, FRAME@),
        line(
            Shade::Cyan,
            "  Miner   : "@ + text::column(st.miner_name, 28) + "  Uptime : "@ + display::uptime(
                t.up_secs as nat,
            ),
        ),
        line(
            Shade::Cyan,
            "  Server  : "@ + text::column(st.server_addr, 28) + "  Port   : "@ + port,
        ),
        line(
            if st.connected {
                Shade::Green
            } else {
                Shade::Red
            },
            "  Pool    : "@ + (if st.connected {
                "CONNECTED  "@
            } else {
                "DISCONNECTED"@
            }) + "  Dashboard: http://localhost:"@ + port + "/"@,
        ),
        rule(),
        line(
            Shade::Green,
            "  Blocks Won    : "@ + text::column(text::decimal(st.blocks_won as nat), 10)
                + "  CC Earned  : "@ + double::four_places(st.total_cc) + " CC"@,
        ),
        rule(),
        line(
            Shade::Magenta,
            "  Current Job   : Block #"@ + text::column(text::decimal(st.current_block as nat), 10)
                + "  Difficulty : "@ + text::decimal(st.difficulty as nat) + " zeros"@,
        ),
        line(
            Shade::Yellow,
            "  Hashrate      : "@ + text::column(
                display::hr_text(st.hashrate as nat, t.scaled@),
                20,
            ) + "  Hashes : "@ + text::decimal(t.hashes as nat),
        ),
        rule(),
        line(
            Shade::Cyan,
            "  Target        : "@ + display::target(st.difficulty as nat, 16) + "..."@,
        ),
        piece(Shade::Cyan, "  Current Peek  : "@),
        piece(Shade::Green, display::head_bytes(st.peek_hash, hit)),
        line(Shade::Grey, text::column(display::tail_bytes(st.peek_hash, hit), 18)),
        rule(),
        line(Shade::White, "  Status        : "@ + text::column(st.status, 58)),
        rule(),
        line(
            Shade::Grey,
            "  [Q + Enter] Back to menu                                         "@,
        ),
    ]
}

/// The screen of a pool's miner.
pub fn client_screen(st: &ClientStats, t: &ClientTexts) -> (screen: Vec<Piece>)
    requires
        display::can_part(st@.peek_hash, st@.difficulty),
    ensures
        shown(screen@) == client_lines(st@, *t),
{
    let port_text = text::u64_text(pool_server::DASHBOARD_PORT as u64);
    let port = port_text.as_str();
    let (hit, rest) = display::split_peek(st.peek_hash.as_str(), st.difficulty);
    let mut screen: Vec<Piece> = Vec::new();
    assert(shown(screen@) =~= seq![]);
    put(&mut screen, Shade::Yellow, FRAME.to_owned());
    put(
        &mut screen,
        Shade::Yellow,
        "|    CRYPTOCRAFT  Pool Client                                      |".to_owned(),
    );
    put(&mut screen, Shade::Yellow, FRAME.to_owned());
    put(
        &mut screen,
        Shade::Cyan,
        joined4(
            "  Miner   : ",
            text::column_text(st.miner_name.as_str(), 28).as_str(),
            "  Uptime : ",
            display::fmt_up(t.up_secs).as_str(),
        ),
    );
    put(
        &mut screen,
        Shade::Cyan,
        joined4(
            "  Server  : ",
            text::column_text(st.server_addr.as_str(), 28).as_str(),
            "  Port   : ",
            port,
        ),
    );
    let shade = if st.connected { Shade::Green } else { Shade::Red };
    let word = if st.connected { "CONNECTED  " } else { "DISCONNECTED" };
    put(
        &mut screen,
        shade,
        joined5("  Pool    : ", word, "  Dashboard: http://localhost:", port, "/"),
    );
    put_rule(&mut screen);
    put(
        &mut screen,
        Shade::Green,
        joined5(
            "  Blocks Won    : ",
            number_column(st.blocks_won, 10).as_str(),
            "  CC Earned  : ",
            st.total_cc.to_four_places().as_str(),
            " CC",
        ),
    );
    put_rule(&mut screen);
    put(
        &mut screen,
        Shade::Magenta,
        joined5(
            "  Current Job   : Block #",
            number_column(st.current_block, 10).as_str(),
            "  Difficulty : ",
            text::u64_text(st.difficulty as u64).as_str(),
            " zeros",
        ),
    );
    put(
        &mut screen,
        Shade::Yellow,
        joined4(
            "  Hashrate      : ",
            text::column_text(display::fmt_hr(st.hashrate, t.scaled).as_str(), 20).as_str(),
            "  Hashes : ",
            text::u64_text(t.hashes).as_str(),
        ),
    );
    put_rule(&mut screen);
    put(
        &mut screen,
        Shade::Cyan,
        joined3("  Target        : ", display::target_text(st.difficulty, 16).as_str(), "..."),
    );
    put_piece(&mut screen, Shade::Cyan, "  Current Peek  : ");
    put_piece(&mut screen, Shade::Green, hit);
    put(&mut screen, Shade::Grey, text::column_text(rest, 18));
    put_rule(&mut screen);
    put(
        &mut screen,
        Shade::White,
        joined2("  Status        : ", text::column_text(st.status.as_str(), 58).as_str()),
    );
    put_rule(&mut screen);
    put(
        &mut screen,
        Shade::Grey,
        "  [Q + Enter] Back to menu                                         ".to_owned(),
    );
    screen
}

// ---- Lists of blocks -----------------------------------------------------------------------

/// A block as a screen lists it: its number, the two ends of its hash with a mark between them,
/// the zeros that the hash begins with, and the reward to four places.
pub open spec fn block_line(b: BlockView, mark: Seq<char>) -> Seq<char> {
    "    #"@ + text::column(text::decimal(b.index as nat), 5) + " | "@ + display::head_bytes(
        b.hash,
        8,
    ) + mark + display::tail_bytes(b.hash, 56) + " | "@ + text::decimal(mining::zeros(b.hash))
        + " zeros | "@ + double::four_places(b.reward) + " CC"@
}

fn block_text(b: &Block, mark: &str) -> (s: String)
    requires
        display::has_ends(b@.hash),
    ensures
        s@ == block_line(b@, mark@),
{
    let (head, tail) = display::hash_ends(b.hash.as_str());
    let zeros: u64 = mining::leading_zeros(b.hash.as_str()) as u64;
    let mut s = joined4("    #", number_column(b.index, 5).as_str(), " | ", head);
    s.append(mark);
    s.append(tail);
    s.append(" | ");
    s.append(text::u64_text(zeros).as_str());
    s.append(" zeros | ");
    s.append(b.reward.to_four_places().as_str());
    s.append(" CC");
    s
}

/// Whether the blocks that a screen lists can be shown.
pub open spec fn listable(chain: Seq<BlockView>, most: nat) -> bool {
    forall|i: int|
        0 <= i < display::listed_count(chain.len(), most) ==> display::has_ends(
            (#[trigger] chain[chain.len() - 2 - i]).hash,
        )
}

/// The blocks that the screen of the solo miner lists.
pub open spec fn solo_blocks(chain: Seq<BlockView>) -> Seq<PieceView> {
    Seq::new(
        display::listed_count(chain.len(), SOLO_BLOCKS as nat),
        |i: int|
            line(Shade::Grey, block_line(chain[chain.len() - 2 - i], "..."@)),
    )
}

/// The blocks that the screen of the server lists, each with its miner.
pub open spec fn server_blocks(chain: Seq<BlockView>) -> Seq<PieceView> {
    Seq::new(
        display::listed_count(chain.len(), SERVER_BLOCKS as nat),
        |i: int|
            {
                let b = chain[chain.len() - 2 - i];
                line(Shade::Grey, block_line(b, "…"@) + " | "@ + b.miner)
            },
    )
}

fn put_solo_blocks(screen: &mut Vec<Piece>, chain: &Vec<Block>)
    requires
        listable(chain@.map_values(|b: Block| b@), SOLO_BLOCKS as nat),
    ensures
        shown(final(screen)@) == shown(old(screen)@) + solo_blocks(
            chain@.map_values(|b: Block| b@),
        ),
{
    let ghost blocks = chain@.map_values(|b: Block| b@);
    let ghost all = solo_blocks(blocks);
    let places = display::listed_blocks(chain.len(), SOLO_BLOCKS);
    let mut i: usize = 0;
    assert(shown(screen@) =~= shown(screen@) + all.take(0));
    while i < places.len()
        invariant
            i <= places@.len(),
            blocks == chain@.map_values(|b: Block| b@),
            all == solo_blocks(blocks),
            places@.len() == display::listed_count(chain@.len(), SOLO_BLOCKS as nat),
            forall|j: int| 0 <= j < places@.len() ==> (#[trigger] places@[j]) == chain@.len() - 2 - j,
            listable(blocks, SOLO_BLOCKS as nat),
            shown(screen@) == shown(old(screen)@) + all.take(i as int),
        decreases places@.len() - i,
    {
        assert(blocks[chain@.len() - 2 - i] == chain@[places@[i as int] as int]@);
        put(screen, Shade::Grey, block_text(&chain[places[i]], "..."));
        assert(all.take(i + 1) =~= all.take(i as int).push(all[i as int]));
        assert(shown(screen@) =~= shown(old(screen)@) + all.take(i + 1));
        i = i + 1;
    }
    assert(all.take(i as int) =~= all);
}

fn put_server_blocks(screen: &mut Vec<Piece>, chain: &Vec<Block>)
    requires
        listable(chain@.map_values(|b: Block| b@), SERVER_BLOCKS as nat),
    ensures
        shown(final(screen)@) == shown(old(screen)@) + server_blocks(
            chain@.map_values(|b: Block| b@),
        ),
{
    let ghost blocks = chain@.map_values(|b: Block| b@);
    let ghost all = server_blocks(blocks);
    let places = display::listed_blocks(chain.len(), SERVER_BLOCKS);
    let mut i: usize = 0;
    assert(shown(screen@) =~= shown(screen@) + all.take(0));
    while i < places.len()
        invariant
            i <= places@.len(),
            blocks == chain@.map_values(|b: Block| b@),
            all == server_blocks(blocks),
            places@.len() == display::listed_count(chain@.len(), SERVER_BLOCKS as nat),
            forall|j: int| 0 <= j < places@.len() ==> (#[trigger] places@[j]) == chain@.len() - 2 - j,
            listable(blocks, SERVER_BLOCKS as nat),
            shown(screen@) == shown(old(screen)@) + all.take(i as int),
        decreases places@.len() - i,
    {
        assert(blocks[chain@.len() - 2 - i] == chain@[places@[i as int] as int]@);
        let b = &chain[places[i]];
        let block = block_text(b, "…");
        put(screen, Shade::Grey, joined3(block.as_str(), " | ", b.miner.as_str()));
        assert(all.take(i + 1) =~= all.take(i as int).push(all[i as int]));
        assert(shown(screen@) =~= shown(old(screen)@) + all.take(i + 1));
        i = i + 1;
    }
    assert(all.take(i as int) =~= all);
}

// ---- The screen of the server --------------------------------------------------------------

/// What the screen of the server shows besides what is known of the pool.
pub struct ServerTexts<'a> {
    /// The reading of the clock that never runs backwards.
    pub now: u64,
    /// The hash rate of the pool in its unit, with two decimals.
    pub scaled: &'a str,
    /// The hash rate of each miner in its unit, with two decimals.
    pub each_scaled: &'a Vec<String>,
}

/// What the screen of the server shows of a miner.
pub open spec fn miner_line(m: MinerView, scaled: Seq<char>, now: u64) -> Seq<char> {
    pool_server::table_row(
        display::cut(m.name, 19),
        display::hr_text(m.hashrate as nat, scaled),
        text::decimal(m.blocks_found as nat),
        display::uptime(pool_server::secs_between(m.joined, now) as nat),
    )
}

/// What the screen of the server shows of the miners, in a given order.
pub open spec fn miner_lines(
    miners: Seq<MinerView>,
    places: Seq<usize>,
    each_scaled: Seq<String>,
    now: u64,
) -> Seq<PieceView> {
    Seq::new(
        places.len(),
        |i: int|
            line(
                Shade::Grey,
                miner_line(miners[places[i] as int], each_scaled[places[i] as int]@, now),
            ),
    )
}

/// Whether the pool can be shown: there is a scaled hash rate for each miner, their sum can be
/// counted, the names can be cut to their column, and the blocks can be listed.
pub open spec fn server_showable(st: PoolView, t: ServerTexts) -> bool {
    &&& t.each_scaled@.len() == st.miners.len()
    &&& pool_server::hashrate_sum(st.miners) <= u64::MAX
    &&& forall|i: int|
        0 <= i < st.miners.len() ==> display::can_cut((#[trigger] st.miners[i]).name, 19)
    &&& listable(st.blockchain.chain, SERVER_BLOCKS as nat)
}

/// The screen of the server, with the miners in a given order.
pub open spec fn server_lines(st: PoolView, places: Seq<usize>, t: ServerTexts) -> Seq<PieceView> {
    let bc = st.blockchain;
    seq![
        line(Shade::Yellow, FRAME@),
        line(
            Shade::Yellow,
            "|    CRYPTOCRAFT  Pool Server   "@ + st.bind_ip + ":"@ + text::column(
                text::decimal(pool_server::POOL_PORT as nat),
                5,
            ) + "                      |"@,
        ),
        line(Shade::Yellow, FRAME@),
        line(
            Shade::Green,
            "  Chain Length  : "@ + text::column(text::decimal(bc.chain.len()), 10)
                + "  Difficulty : "@ + text::decimal(bc.difficulty as nat) + " zeros"@,
        ),
        line(
            Shade::Green,
            "  Blocks Found  : "@ + text::column(text::decimal(st.blocks_total as nat), 10)
                + "  CC Mined   : "@ + double::four_places(bc.total_mined) + " CC"@,
        ),
        line(
            Shade::Green,
            "  Pool Hashrate : "@ + display::hr_text(
                pool_server::hashrate_sum(st.miners),
                t.scaled@,
            ) + "  Dashboard : http://"@ + st.bind_ip + ":"@
                + text::decimal(pool_server::DASHBOARD_PORT as nat) + "/"@,
        ),
        rule(),
        line(
            Shade::Cyan,
            "  Connected Miners ("@ + text::decimal(st.miners.len()) + "):"@,
        ),
        line(
            Shade::Plain,
            pool_server::table_row("Name"@, "Hashrate"@, "Blocks"@, "Uptime"@),
        ),
        line(
            Shade::Plain,
            pool_server::table_row(
                text::repeated('-', 20),
                text::repeated('-', 16),
                text::repeated('-', 12),
                text::repeated('-', 10),
            ),
        ),
    ] + miner_lines(st.miners, places, t.each_scaled@, t.now) + blanks(
        left_of(MINER_ROWS as nat, st.miners.len()),
    ) + seq![rule(), line(Shade::Green, "  Recent Blocks:"@)] + server_blocks(
        bc.chain,
    ) + blanks(
        left_of(
            SERVER_BLOCKS as nat,
            display::listed_count(bc.chain.len(), SERVER_BLOCKS as nat),
        ),
    ) + seq![
        rule(),
        line(
            Shade::Grey,
            "  [Q + Enter] Back to menu                                          "@,
        ),
    ]
}

fn put_miners(screen: &mut Vec<Piece>, st: &PoolState, places: &Vec<usize>, t: &ServerTexts)
    requires
        server_showable(st@, *t),
        forall|i: int| 0 <= i < places@.len() ==> (#[trigger] places@[i]) < st@.miners.len(),
    ensures
        shown(final(screen)@) == shown(old(screen)@) + miner_lines(
            st@.miners,
            places@,
            t.each_scaled@,
            t.now,
        ),
{
    let ghost all = miner_lines(st@.miners, places@, t.each_scaled@, t.now);
    let mut i: usize = 0;
    assert(shown(screen@) =~= shown(screen@) + all.take(0));
    while i < places.len()
        invariant
            i <= places@.len(),
            all == miner_lines(st@.miners, places@, t.each_scaled@, t.now),
            server_showable(st@, *t),
            forall|j: int| 0 <= j < places@.len() ==> (#[trigger] places@[j]) < st@.miners.len(),
            shown(screen@) == shown(old(screen)@) + all.take(i as int),
        decreases places@.len() - i,
    {
        let place: usize = places[i];
        let m = &st.miners[place];
        assert(st@.miners[place as int] == m@);
        let uptime = display::fmt_up(pool_server::whole_secs_between(m.joined, t.now));
        let row = pool_server::table_row_text(
            display::trunc(m.name.as_str(), 19),
            display::fmt_hr(m.hashrate, t.each_scaled[place].as_str()).as_str(),
            text::u64_text(m.blocks_found).as_str(),
            uptime.as_str(),
        );
        put(screen, Shade::Grey, row);
        assert(all.take(i + 1) =~= all.take(i as int).push(all[i as int]));
        assert(shown(screen@) =~= shown(old(screen)@) + all.take(i + 1));
        i = i + 1;
    }
    assert(all.take(i as int) =~= all);
}

/// The screen of the server. The miners with the highest hash rates come first.
pub fn server_screen(st: &PoolState, t: &ServerTexts) -> (screen: Vec<Piece>)
    requires
        server_showable(st@, *t),
    ensures
        exists|places: Seq<usize>| #[trigger]
            order::sorted_places(pool_server::screen_ranks(st@.miners), places) && shown(screen@)
                == server_lines(st@, places, *t),
{
    let bc = &st.blockchain;
    let places = st.ranking();
    let mut screen: Vec<Piece> = Vec::new();
    assert(shown(screen@) =~= seq![]);
    put(&mut screen, Shade::Yellow, FRAME.to_owned());
    put(
        &mut screen,
        Shade::Yellow,
        joined5(
            "|    CRYPTOCRAFT  Pool Server   ",
            st.bind_ip.as_str(),
            ":",
            number_column(pool_server::POOL_PORT as u64, 5).as_str(),
            "                      |",
        ),
    );
    put(&mut screen, Shade::Yellow, FRAME.to_owned());
    put(
        &mut screen,
        Shade::Green,
        joined5(
            "  Chain Length  : ",
            number_column(bc.chain.len() as u64, 10).as_str(),
            "  Difficulty : ",
            text::u64_text(bc.difficulty as u64).as_str(),
            " zeros",
        ),
    );
    put(
        &mut screen,
        Shade::Green,
        joined5(
            "  Blocks Found  : ",
            number_column(st.blocks_total, 10).as_str(),
            "  CC Mined   : ",
            bc.total_mined.to_four_places().as_str(),
            " CC",
        ),
    );
    let mut pool = joined5(
        "  Pool Hashrate : ",
        display::fmt_hr(st.total_hashrate(), t.scaled).as_str(),
        "  Dashboard : http://",
        st.bind_ip.as_str(),
        ":",
    );
    pool.append(text::u64_text(pool_server::DASHBOARD_PORT as u64).as_str());
    pool.append("/");
    put(&mut screen, Shade::Green, pool);
    put_rule(&mut screen);
    put(
        &mut screen,
        Shade::Cyan,
        joined3(
            "  Connected Miners (",
            text::u64_text(st.miners.len() as u64).as_str(),
            "):",
        ),
    );
    put(
        &mut screen,
        Shade::Plain,
        pool_server::table_row_text("Name", "Hashrate", "Blocks", "Uptime"),
    );
    put(
        &mut screen,
        Shade::Plain,
        pool_server::table_row_text(
            text::repeat_char('-', 20).as_str(),
            text::repeat_char('-', 16).as_str(),
            text::repeat_char('-', 12).as_str(),
            text::repeat_char('-', 10).as_str(),
        ),
    );
    put_miners(&mut screen, st, &places, t);
    put_blanks(&mut screen, MINER_ROWS, st.miners.len());
    let ghost before = shown(screen@);
    put_rule(&mut screen);
    put(&mut screen, Shade::Green, "  Recent Blocks:".to_owned());
    assert(shown(screen@) =~= before + seq![rule(), line(Shade::Green, "  Recent Blocks:"@)]);
    put_server_blocks(&mut screen, &bc.chain);
    put_blanks(
        &mut screen,
        SERVER_BLOCKS,
        display::listed_blocks(bc.chain.len(), SERVER_BLOCKS).len(),
    );
    let ghost listed = shown(screen@);
    put_rule(&mut screen);
    put(
        &mut screen,
        Shade::Grey,
        "  [Q + Enter] Back to menu                                          ".to_owned(),
    );
    assert(shown(screen@) =~= listed + seq![
        rule(),
        line(
            Shade::Grey,
            "  [Q + Enter] Back to menu                                          "@,
        ),
    ]);
    assert(shown(screen@) == server_lines(st@, places@, *t));
    screen
}

// ---- The screen of the solo miner ----------------------------------------------------------

/// What the screen of the solo miner shows besides what is known of the chain.
pub struct SoloTexts<'a> {
    pub email: &'a str,
    pub local_ip: &'a str,
    pub flavor: &'a str,
    pub up_secs: u64,
    pub hashes: u64,
    /// The hash rates, and each in its unit, with two decimals.
    pub average: Double,
    pub average_scaled: &'a str,
    pub recent: Double,
    pub recent_scaled: &'a str,
    /// The beginning of the latest hash.
    pub peek: &'a str,
}

/// The screen of the solo miner.
pub open spec fn solo_lines(st: SoloView, t: SoloTexts) -> Seq<PieceView> {
    let bc = st.blockchain;
    let d = bc.difficulty as nat;
    let hit = display::hit_len(t.peek@, bc.difficulty);
    seq![
        line(Shade::Yellow, FRAME@),
        line(
            Shade::Yellow,
            "|    CRYPTOCRAFT Solo Miner  v"@ + text::column(crate::solo::VERSION@, 5)
                + "                              |"@,
        ),
        line(Shade::Yellow, FRAME@),
        line(
            Shade::Cyan,
            "  Account : "@ + text::column(t.email@, 28) + "  Uptime : "@ + display::duration(
                t.up_secs as nat,
            ),
        ),
        line(Shade::Cyan, "  Miner   : "@ + bc.miner_name),
        rule(),
        line(
            Shade::Green,
            "  Blocks Mined  : "@ + text::column(text::decimal(st.blocks_found as nat), 10)
                + "  Total Earned  : "@ + double::four_places(bc.total_mined) + " CC"@,
        ),
        line(
            Shade::Green,
            "  Block Reward  : "@ + double::four_places(
                crate::blockchain::reward_at(bc.chain.len()),
            ) + " CC    Halving In    : "@ + text::decimal(
                (crate::blockchain::HALVING_INTERVAL - bc.chain.len() % (
                crate::blockchain::HALVING_INTERVAL as nat)) as nat,
            ) + " blocks"@,
        ),
        rule(),
        piece(Shade::Magenta, "  Difficulty    : "@ + text::decimal(d) + " leading zeros  "@),
        line(Shade::Red, display::bar(d)),
        line(
            Shade::Yellow,
            "  Avg Hashrate  : "@ + text::column(
                display::rate_text(t.average, t.average_scaled@),
                20,
            ) + "  Recent : "@ + display::rate_text(t.recent, t.recent_scaled@),
        ),
        line(Shade::Yellow, "  Total Hashes  : "@ + text::decimal(t.hashes as nat)),
        rule(),
        line(Shade::Cyan, "  Target        : "@ + display::target(d, HASH_LEN as nat)),
        piece(Shade::Cyan, "  Current Peek  : "@),
        piece(Shade::Green, display::head_bytes(t.peek@, hit)),
        line(Shade::Grey, text::column(display::tail_bytes(t.peek@, hit), HASH_LEN as nat)),
        line(Shade::White, "  Status        : "@ + text::column(t.flavor@, 58)),
        rule(),
        line(Shade::Green, "  Recent Blocks:"@),
    ] + solo_blocks(bc.chain) + blanks(
        left_of(SOLO_BLOCKS as nat, display::listed_count(bc.chain.len(), SOLO_BLOCKS as nat)),
    ) + seq![
        rule(),
        line(
            Shade::Grey,
            "  [Ctrl+C] Stop & save                                              "@,
        ),
        line(
            Shade::Cyan,
            "  Dashboard     : http://"@ + t.local_ip@ + ":"@ + text::decimal(
                crate::server::PORT as nat,
            ) + "/"@,
        ),
    ]
}

/// The screen of the solo miner.
pub fn solo_screen(st: &SoloMiner, t: &SoloTexts) -> (screen: Vec<Piece>)
    requires
        st@.blockchain.difficulty <= HASH_LEN,
        listable(st@.blockchain.chain, SOLO_BLOCKS as nat),
        display::can_part(t.peek@, st@.blockchain.difficulty),
    ensures
        shown(screen@) == solo_lines(st@, *t),
{
    let bc = &st.blockchain;
    let d: usize = bc.difficulty;
    let (hit, rest) = display::split_peek(t.peek, d);
    let mut screen: Vec<Piece> = Vec::new();
    assert(shown(screen@) =~= seq![]);
    put(&mut screen, Shade::Yellow, FRAME.to_owned());
    put(
        &mut screen,
        Shade::Yellow,
        joined3(
            "|    CRYPTOCRAFT Solo Miner  v",
            text::column_text(crate::solo::VERSION, 5).as_str(),
            "                              |",
        ),
    );
    put(&mut screen, Shade::Yellow, FRAME.to_owned());
    put(
        &mut screen,
        Shade::Cyan,
        joined4(
            "  Account : ",
            text::column_text(t.email, 28).as_str(),
            "  Uptime : ",
            display::fmt_duration(t.up_secs).as_str(),
        ),
    );
    put(&mut screen, Shade::Cyan, joined2("  Miner   : ", bc.miner_name.as_str()));
    put_rule(&mut screen);
    put(
        &mut screen,
        Shade::Green,
        joined5(
            "  Blocks Mined  : ",
            number_column(st.blocks_found, 10).as_str(),
            "  Total Earned  : ",
            bc.total_mined.to_four_places().as_str(),
            " CC",
        ),
    );
    put(
        &mut screen,
        Shade::Green,
        joined5(
            "  Block Reward  : ",
            bc.current_reward().to_four_places().as_str(),
            " CC    Halving In    : ",
            text::u64_text(bc.blocks_to_halving()).as_str(),
            " blocks",
        ),
    );
    put_rule(&mut screen);
    put_piece(
        &mut screen,
        Shade::Magenta,
        joined3("  Difficulty    : ", text::u64_text(d as u64).as_str(), " leading zeros  ").as_str(),
    );
    put(&mut screen, Shade::Red, display::difficulty_bar(d));
    put(
        &mut screen,
        Shade::Yellow,
        joined4(
            "  Avg Hashrate  : ",
            text::column_text(
                display::fmt_hashrate(t.average, t.average_scaled).as_str(),
                20,
            ).as_str(),
            "  Recent : ",
            display::fmt_hashrate(t.recent, t.recent_scaled).as_str(),
        ),
    );
    put(
        &mut screen,
        Shade::Yellow,
        joined2("  Total Hashes  : ", text::u64_text(t.hashes).as_str()),
    );
    put_rule(&mut screen);
    put(
        &mut screen,
        Shade::Cyan,
        joined2("  Target        : ", display::target_text(d, HASH_LEN).as_str()),
    );
    put_piece(&mut screen, Shade::Cyan, "  Current Peek  : ");
    put_piece(&mut screen, Shade::Green, hit);
    put(&mut screen, Shade::Grey, text::column_text(rest, HASH_LEN));
    put(
        &mut screen,
        Shade::White,
        joined2("  Status        : ", text::column_text(t.flavor, 58).as_str()),
    );
    put_rule(&mut screen);
    put(&mut screen, Shade::Green, "  Recent Blocks:".to_owned());
    put_solo_blocks(&mut screen, &bc.chain);
    put_blanks(
        &mut screen,
        SOLO_BLOCKS,
        display::listed_blocks(bc.chain.len(), SOLO_BLOCKS).len(),
    );
    let ghost listed = shown(screen@);
    put_rule(&mut screen);
    put(
        &mut screen,
        Shade::Grey,
        "  [Ctrl+C] Stop & save                                              ".to_owned(),
    );
    put(
        &mut screen,
        Shade::Cyan,
        joined5(
            "  Dashboard     : http://",
            t.local_ip,
            ":",
            text::u64_text(crate::server::PORT as u64).as_str(),
            "/",
        ),
    );
    assert(shown(screen@) =~= solo_lines(st@, *t));
    screen
}

// ---- What the screens show -----------------------------------------------------------------

/// The screen of a pool's miner shows who mines where and for how long, whether it is connected,
/// what it has won and earned, what it mines and how fast, how far its latest hash is good, and how
/// things stand.
pub proof fn law_client_screen_shows_the_miner(st: ClientView, t: ClientTexts)
    ensures
        ({
            let screen = client_lines(st, t);
            let hit = display::hit_len(st.peek_hash, st.difficulty);
            &&& screen.len() == 20
            &&& screen[3].text == "  Miner   : "@ + text::column(st.miner_name, 28)
                + "  Uptime : "@ + display::uptime(t.up_secs as nat)
            &&& screen[4].text == "  Server  : "@ + text::column(st.server_addr, 28)
                + "  Port   : "@ + text::decimal(2700)
            &&& st.connected ==> screen[5].shade == Shade::Green && screen[5].text
                == "  Pool    : "@ + "CONNECTED  "@ + "  Dashboard: http://localhost:"@
                + text::decimal(2700) + "/"@
            &&& !st.connected ==> screen[5].shade == Shade::Red && screen[5].text
                == "  Pool    : "@ + "DISCONNECTED"@ + "  Dashboard: http://localhost:"@
                + text::decimal(2700) + "/"@
            &&& screen[7].text == "  Blocks Won    : "@ + text::column(
                text::decimal(st.blocks_won as nat),
                10,
            ) + "  CC Earned  : "@ + double::four_places(st.total_cc) + " CC"@
            &&& screen[9].text == "  Current Job   : Block #"@ + text::column(
                text::decimal(st.current_block as nat),
                10,
            ) + "  Difficulty : "@ + text::decimal(st.difficulty as nat) + " zeros"@
            &&& screen[10].text == "  Hashrate      : "@ + text::column(
                display::hr_text(st.hashrate as nat, t.scaled@),
                20,
            ) + "  Hashes : "@ + text::decimal(t.hashes as nat)
            &&& screen[12].text == "  Target        : "@ + display::target(
                st.difficulty as nat,
                16,
            ) + "..."@
            &&& screen[13].text == "  Current Peek  : "@ && !screen[13].ends_line
            &&& screen[14].text == display::head_bytes(st.peek_hash, hit) && !screen[14].ends_line
            &&& screen[15].text == text::column(display::tail_bytes(st.peek_hash, hit), 18)
            &&& screen[17].text == "  Status        : "@ + text::column(st.status, 58)
            &&& forall|i: int|
                0 <= i < 20 && i != 13 && i != 14 ==> (#[trigger] screen[i]).ends_line
        }),
{
}

/// A listed block shows its number, the ends of its hash, the zeros that it begins with and its
/// reward.
pub proof fn law_listed_block_shows_its_hash(b: BlockView, mark: Seq<char>)
    ensures
        block_line(b, mark) == "    #"@ + text::column(text::decimal(b.index as nat), 5) + " | "@
            + display::head_bytes(b.hash, 8) + mark + display::tail_bytes(b.hash, 56) + " | "@
            + text::decimal(mining::zeros(b.hash)) + " zeros | "@ + double::four_places(b.reward)
            + " CC"@,
{
}

/// The screens list the blocks before the latest, the newest first, no more than they have room for.
pub proof fn law_screens_list_the_blocks(chain: Seq<BlockView>, i: int)
    ensures
        solo_blocks(chain).len() == display::listed_count(chain.len(), 5),
        server_blocks(chain).len() == display::listed_count(chain.len(), 4),
        0 <= i < solo_blocks(chain).len() ==> solo_blocks(chain)[i].ends_line && solo_blocks(
            chain,
        )[i].text == block_line(chain[chain.len() - 2 - i], "..."@),
        0 <= i < server_blocks(chain).len() ==> server_blocks(chain)[i].ends_line && server_blocks(
            chain,
        )[i].text == block_line(chain[chain.len() - 2 - i], "…"@) + " | "@ + chain[chain.len() - 2
            - i].miner,
{
}

/// The screen of the server shows the pool's chain, what it has found and mined, the sum of the hash
/// rates, and how many miners there are; then each miner in the order given, and the blocks.
pub proof fn law_server_screen_shows_the_pool(
    st: PoolView,
    places: Seq<usize>,
    t: ServerTexts,
    i: int,
)
    requires
        places.len() == st.miners.len(),
        forall|k: int| 0 <= k < places.len() ==> (#[trigger] places[k]) < st.miners.len(),
    ensures
        ({
            let screen = server_lines(st, places, t);
            let bc = st.blockchain;
            let n = st.miners.len() as int;
            let rows = if n < 5 {
                5
            } else {
                n
            };
            let listed = display::listed_count(bc.chain.len(), 4) as int;
            &&& screen.len() == 10 + rows + 2 + 4 + 2
            &&& screen[1].text == "|    CRYPTOCRAFT  Pool Server   "@ + st.bind_ip + ":"@
                + text::column(text::decimal(8080), 5) + "                      |"@
            &&& screen[3].text == "  Chain Length  : "@ + text::column(
                text::decimal(bc.chain.len()),
                10,
            ) + "  Difficulty : "@ + text::decimal(bc.difficulty as nat) + " zeros"@
            &&& screen[4].text == "  Blocks Found  : "@ + text::column(
                text::decimal(st.blocks_total as nat),
                10,
            ) + "  CC Mined   : "@ + double::four_places(bc.total_mined) + " CC"@
            &&& screen[5].text == "  Pool Hashrate : "@ + display::hr_text(
                pool_server::hashrate_sum(st.miners),
                t.scaled@,
            ) + "  Dashboard : http://"@ + st.bind_ip + ":"@ + text::decimal(2700) + "/"@
            &&& screen[7].text == "  Connected Miners ("@ + text::decimal(n as nat) + "):"@
            &&& 0 <= i < n ==> screen[10 + i].text == pool_server::table_row(
                display::cut(st.miners[places[i] as int].name, 19),
                display::hr_text(
                    st.miners[places[i] as int].hashrate as nat,
                    t.each_scaled@[places[i] as int]@,
                ),
                text::decimal(st.miners[places[i] as int].blocks_found as nat),
                display::uptime(
                    pool_server::secs_between(st.miners[places[i] as int].joined, t.now) as nat,
                ),
            )
            &&& screen[10 + rows + 1].text == "  Recent Blocks:"@
            &&& 0 <= i < listed ==> screen[10 + rows + 2 + i] == server_blocks(bc.chain)[i]
            &&& forall|k: int| 0 <= k < screen.len() ==> (#[trigger] screen[k]).ends_line
        }),
{
    let screen = server_lines(st, places, t);
    assert forall|k: int| 0 <= k < screen.len() implies (#[trigger] screen[k]).ends_line by {}
}

/// The screen of the solo miner shows the account and the miner, what was found and earned, the next
/// reward and when it halves, the difficulty, the hash rates, how far the latest hash is good, and
/// then the blocks.
pub proof fn law_solo_screen_shows_the_chain(st: SoloView, t: SoloTexts, i: int)
    ensures
        ({
            let screen = solo_lines(st, t);
            let bc = st.blockchain;
            let d = bc.difficulty as nat;
            let hit = display::hit_len(t.peek@, bc.difficulty);
            let listed = display::listed_count(bc.chain.len(), 5) as int;
            &&& screen.len() == 21 + 5 + 3
            &&& screen[3].text == "  Account : "@ + text::column(t.email@, 28) + "  Uptime : "@
                + display::duration(t.up_secs as nat)
            &&& screen[4].text == "  Miner   : "@ + bc.miner_name
            &&& screen[6].text == "  Blocks Mined  : "@ + text::column(
                text::decimal(st.blocks_found as nat),
                10,
            ) + "  Total Earned  : "@ + double::four_places(bc.total_mined) + " CC"@
            &&& screen[7].text == "  Block Reward  : "@ + double::four_places(
                crate::blockchain::reward_at(bc.chain.len()),
            ) + " CC    Halving In    : "@ + text::decimal((100 - bc.chain.len() % 100) as nat)
                + " blocks"@
            &&& screen[9].text == "  Difficulty    : "@ + text::decimal(d) + " leading zeros  "@
            &&& screen[10].text == display::bar(d)
            &&& screen[11].text == "  Avg Hashrate  : "@ + text::column(
                display::rate_text(t.average, t.average_scaled@),
                20,
            ) + "  Recent : "@ + display::rate_text(t.recent, t.recent_scaled@)
            &&& screen[12].text == "  Total Hashes  : "@ + text::decimal(t.hashes as nat)
            &&& screen[14].text == "  Target        : "@ + display::target(d, 64)
            &&& screen[15].text == "  Current Peek  : "@
            &&& screen[16].text == display::head_bytes(t.peek@, hit)
            &&& screen[17].text == text::column(display::tail_bytes(t.peek@, hit), 64)
            &&& screen[18].text == "  Status        : "@ + text::column(t.flavor@, 58)
            &&& 0 <= i < listed ==> screen[21 + i] == solo_blocks(bc.chain)[i]
            &&& screen[28].text == "  Dashboard     : http://"@ + t.local_ip@ + ":"@
                + text::decimal(2700) + "/"@
            &&& forall|k: int|
                0 <= k < screen.len() && k != 9 && k != 15 && k != 16 ==> (
                #[trigger] screen[k]).ends_line
        }),
{
    let screen = solo_lines(st, t);
    assert forall|k: int|
        0 <= k < screen.len() && k != 9 && k != 15 && k != 16 implies (
    #[trigger] screen[k]).ends_line by {}
}

} // verus!
