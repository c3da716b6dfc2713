//! The miner's side of a pool: what it shows, and what it does about what the server says.

use crate::blockchain;
use crate::double;
use crate::double::Double;
use crate::mining::Job;
use crate::pool_server::{ClientMsg, ClientMsgView, ServerMsg, ServerMsgView};
use crate::text;
use vstd::prelude::*;
use vstd::string::StringExecFns;

verus! {

/// How often the hash rate is reported, in seconds.
pub const HASHRATE_REPORT_SECS: u64 = 5;

/// How many blocks that were won are remembered.
pub const WINS_KEPT: usize = 50;

// ---- What is shown -------------------------------------------------------------------------

/// A block that was won.
#[derive(Debug, Clone)]
pub struct WinRecord {
    pub block_index: u64,
    pub hash: String,
    pub reward: Double,
    pub timestamp: u64,
}

/// A block that was won.
#[verifier::ext_equal]
pub struct WinView {
    pub block_index: u64,
    pub hash: Seq<char>,
    pub reward: Double,
    pub timestamp: u64,
}

impl View for WinRecord {
    type V = WinView;

    open spec fn view(&self) -> WinView {
        WinView {
            block_index: self.block_index,
            hash: self.hash@,
            reward: self.reward,
            timestamp: self.timestamp,
        }
    }
}

/// What a miner of a pool shows of itself.
#[derive(Debug, Clone)]
pub struct ClientStats {
    pub miner_name: String,
    pub hashrate: u64,
    pub blocks_won: u64,
    pub total_cc: Double,
    pub connected: bool,
    pub server_addr: String,
    pub current_block: u64,
    pub difficulty: usize,
    pub status: String,
    pub peek_hash: String,
    pub wins_history: Vec<WinRecord>,
}

/// What a miner of a pool shows of itself.
#[verifier::ext_equal]
pub struct ClientView {
    pub miner_name: Seq<char>,
    pub hashrate: u64,
    pub blocks_won: u64,
    pub total_cc: Double,
    pub connected: bool,
    pub server_addr: Seq<char>,
    pub current_block: u64,
    pub difficulty: usize,
    pub status: Seq<char>,
    pub peek_hash: Seq<char>,
    pub wins_history: Seq<WinView>,
}

impl View for ClientStats {
    type V = ClientView;

    open spec fn view(&self) -> ClientView {
        ClientView {
            miner_name: self.miner_name@,
            hashrate: self.hashrate,
            blocks_won: self.blocks_won,
            total_cc: self.total_cc,
            connected: self.connected,
            server_addr: self.server_addr@,
            current_block: self.current_block,
            difficulty: self.difficulty,
            status: self.status@,
            peek_hash: self.peek_hash@,
            wins_history: self.wins_history@.map_values(|w: WinRecord| w@),
        }
    }
}

/// The blocks that are remembered after one more was won: the oldest goes where there are too many.
pub open spec fn remembered(wins: Seq<WinView>, win: WinView) -> Seq<WinView> {
    if wins.len() + 1 > WINS_KEPT {
        wins.push(win).skip(1)
    } else {
        wins.push(win)
    }
}

// ---- What the server says ------------------------------------------------------------------

/// What is shown once the server has said something, given what the miner has earned with the
/// reward, and the time.
pub open spec fn heard(
    st: ClientView,
    msg: ServerMsgView,
    total_cc: Double,
    now: u64,
) -> ClientView {
    match msg {
        ServerMsgView::Work { index, difficulty, .. } => ClientView {
            status: "Mining block #"@ + text::decimal(index as nat) + " at "@ + text::decimal(
                difficulty as nat,
            ) + " zeros"@,
            difficulty,
            current_block: index,
            ..st
        },
        ServerMsgView::Stop => ClientView {
            status: "Another miner found the block. Waiting for new work..."@,
            ..st
        },
        ServerMsgView::Accepted { block_index, reward } => ClientView {
            blocks_won: (st.blocks_won + 1) as u64,
            total_cc,
            status: "Block #"@ + text::decimal(block_index as nat) + " ACCEPTED! +"@
                + double::four_places(reward) + " CC"@,
            wins_history: remembered(
                st.wins_history,
                WinView { block_index, hash: st.peek_hash, reward, timestamp: now },
            ),
            ..st
        },
        ServerMsgView::Rejected { reason } => ClientView {
            status: "Submission rejected: "@ + reason,
            ..st
        },
    }
}

/// What a miner does about what the server says.
pub enum ClientAction {
    /// Drop what is being mined and mine this.
    Mine { job: Job },
    /// Drop what is being mined; a solution that was just found is not to be sent either.
    Halt,
    /// Go on.
    Nothing,
}

/// What is to be done about what the server says.
pub open spec fn answered(msg: ServerMsgView, action: ClientAction) -> bool {
    match (msg, action) {
        (
            ServerMsgView::Work { index, prev_hash, difficulty, timestamp, data, .. },
            ClientAction::Mine { job },
        ) => {
            &&& job.index == index
            &&& job.timestamp == timestamp
            &&& job.data@ == data
            &&& job.previous_hash@ == prev_hash
            &&& job.difficulty == difficulty
        },
        (ServerMsgView::Stop, ClientAction::Halt) => true,
        (ServerMsgView::Accepted { .. }, ClientAction::Nothing) => true,
        (ServerMsgView::Rejected { .. }, ClientAction::Nothing) => true,
        _ => false,
    }
}

/// What a miner shows before it is connected.
pub open spec fn fresh_client(miner_name: Seq<char>, server_addr: Seq<char>) -> ClientView {
    ClientView {
        miner_name,
        hashrate: 0,
        blocks_won: 0,
        total_cc: Double { bits: 0 },
        connected: false,
        server_addr,
        current_block: 0,
        difficulty: 0,
        status: "Connecting..."@,
        peek_hash: text::repeated('0', 16),
        wins_history: seq![],
    }
}

/// What a miner shows once its connection has come or gone.
pub open spec fn with_connection(st: ClientView, connected: bool) -> ClientView {
    ClientView {
        connected,
        status: if connected {
            "Waiting for work..."@
        } else {
            "Disconnected from pool."@
        },
        ..st
    }
}

/// What a miner shows of how the mining goes.
pub open spec fn with_progress(st: ClientView, hashrate: u64, peek: Seq<char>) -> ClientView {
    ClientView { hashrate, peek_hash: peek, ..st }
}

/// What a miner says first.
pub open spec fn first_words(email: Seq<char>, name: Seq<char>) -> ClientMsgView {
    ClientMsgView::Hello { email, name }
}

/// What is sent of a solution: nothing where another miner has found the block meanwhile.
pub open spec fn submission(
    index: u64,
    nonce: u64,
    hash: Seq<char>,
    halted: bool,
) -> Option<ClientMsgView> {
    if halted {
        None
    } else {
        Some(ClientMsgView::Submit { index, nonce, hash })
    }
}

impl ClientStats {
    /// What a miner shows before it is connected.
    pub fn new(miner_name: String, server_addr: String) -> (st: ClientStats)
        ensures
            st@ == (ClientView {
                miner_name: miner_name@,
                hashrate: 0,
                blocks_won: 0,
                total_cc: Double { bits: 0 },
                connected: false,
                server_addr: server_addr@,
                current_block: 0,
                difficulty: 0,
                status: "Connecting..."@,
                peek_hash: text::repeated('0', 16),
                wins_history: seq![],
            }),
            st@ == fresh_client(miner_name@, server_addr@),
    {
        let st = ClientStats {
            miner_name,
            hashrate: 0,
            blocks_won: 0,
            total_cc: Double { bits: 0 },
            connected: false,
            server_addr,
            current_block: 0,
            difficulty: 0,
            status: "Connecting...".to_owned(),
            peek_hash: text::repeat_char('0', 16),
            wins_history: Vec::new(),
        };
        assert(st@.wins_history =~= seq![]);
        st
    }

    /// Takes note of the connection.
    pub fn connect(&mut self)
        ensures
            final(self)@ == (ClientView {
                connected: true,
                status: "Waiting for work..."@,
                ..old(self)@
            }),
            final(self)@ == with_connection(old(self)@, true),
    {
        self.connected = true;
        self.status = "Waiting for work...".to_owned();
    }

    /// Takes note that the connection is gone.
    pub fn disconnect(&mut self)
        ensures
            final(self)@ == (ClientView {
                connected: false,
                status: "Disconnected from pool."@,
                ..old(self)@
            }),
            final(self)@ == with_connection(old(self)@, false),
    {
        self.connected = false;
        self.status = "Disconnected from pool.".to_owned();
    }

    /// Takes note of how the mining goes.
    pub fn progress(&mut self, hashrate: u64, peek: &str)
        ensures
            final(self)@ == (ClientView { hashrate, peek_hash: peek@, ..old(self)@ }),
            final(self)@ == with_progress(old(self)@, hashrate, peek@),
    {
        self.hashrate = hashrate;
        self.peek_hash = peek.to_owned();
    }

    /// Takes note of a line of the server that could not be read, and why.
    pub fn bad_message(&mut self, why: &str)
        ensures
            final(self)@ == (ClientView { status: "Bad msg: "@ + why@, ..old(self)@ }),
    {
        let mut status = "Bad msg: ".to_owned();
        status.append(why);
        self.status = status;
    }

    /// Deals with what the server says, at a given time.
    pub fn handle_at(&mut self, msg: ServerMsg, total_cc: Double, now: u64) -> (action:
        ClientAction)
        requires
            msg@ is Accepted ==> old(self)@.blocks_won < u64::MAX,
        ensures
            final(self)@ == heard(old(self)@, msg@, total_cc, now),
            answered(msg@, action),
    {
        match msg {
            ServerMsg::Work { index, prev_hash, difficulty, timestamp, data, reward: _ } => {
                let mut status = "Mining block #".to_owned();
                status.append(text::u64_text(index).as_str());
                status.append(" at ");
                status.append(text::u64_text(difficulty as u64).as_str());
                status.append(" zeros");
                self.status = status;
                self.difficulty = difficulty;
                self.current_block = index;
                ClientAction::Mine {
                    job: Job { index, timestamp, data, previous_hash: prev_hash, difficulty },
                }
            },
            ServerMsg::Stop => {
                self.status = "Another miner found the block. Waiting for new work...".to_owned();
                ClientAction::Halt
            },
            ServerMsg::Accepted { block_index, reward } => {
                let ghost wins = self@.wins_history;
                self.blocks_won = self.blocks_won + 1;
                self.total_cc = total_cc;
                let mut status = "Block #".to_owned();
                status.append(text::u64_text(block_index).as_str());
                status.append(" ACCEPTED! +");
                status.append(reward.to_four_places().as_str());
                status.append(" CC");
                self.status = status;
                let hash = self.peek_hash.clone();
                let win = WinRecord { block_index, hash, reward, timestamp: now };
                let ghost view = win@;
                self.wins_history.push(win);
                assert(self@.wins_history =~= wins.push(view));
                if self.wins_history.len() > WINS_KEPT {
                    self.wins_history.remove(0);
                    assert(self@.wins_history =~= wins.push(view).skip(1));
                }
                ClientAction::Nothing
            },
            ServerMsg::Rejected { reason } => {
                let mut status = "Submission rejected: ".to_owned();
                status.append(reason.as_str());
                self.status = status;
                ClientAction::Nothing
            },
        }
    }

    /// Deals with what the server says now. Where the blocks that were won can no longer be
    /// counted, nothing changes.
    pub fn handle(&mut self, msg: ServerMsg, total_cc: Double) -> (action: Option<ClientAction>)
        ensures
            match action {
                Some(a) => answered(msg@, a) && exists|now: u64|
                    final(self)@ == #[trigger] heard(old(self)@, msg@, total_cc, now),
                None => *final(self) == *old(self),
            },
            action is None <==> msg@ is Accepted && old(self)@.blocks_won == u64::MAX,
    {
        match &msg {
            ServerMsg::Accepted { .. } => {
                if self.blocks_won == u64::MAX {
                    return None;
                }
            },
            _ => {},
        }
        let now: u64 = blockchain::now_secs();
        let action = self.handle_at(msg, total_cc, now);
        Some(action)
    }

    /// What is sent of a solution. Nothing is where another miner has found the block meanwhile.
    pub fn submit(&mut self, index: u64, nonce: u64, hash: String, halted: bool) -> (msg: Option<
        ClientMsg,
    >)
        ensures
            halted ==> msg is None && *final(self) == *old(self),
            !halted ==> {
                &&& msg matches Some(m) && m@ == (ClientMsgView::Submit {
                    index,
                    nonce,
                    hash: hash@,
                })
                &&& final(self)@ == (ClientView {
                    status: "Submitted block #"@ + text::decimal(index as nat)
                        + " — waiting for confirmation..."@,
                    ..old(self)@
                })
            },
            (match msg {
                Some(m) => Some(m@),
                None => None,
            }) == submission(index, nonce, hash@, halted),
    {
        if halted {
            return None;
        }
        let mut status = "Submitted block #".to_owned();
        status.append(text::u64_text(index).as_str());
        status.append(" — waiting for confirmation...");
        self.status = status;
        Some(ClientMsg::Submit { index, nonce, hash })
    }
}

/// What a miner says first.
pub fn hello(email: &str, name: &str) -> (msg: ClientMsg)
    ensures
        msg@ == (ClientMsgView::Hello { email: email@, name: name@ }),
        msg@ == first_words(email@, name@),
{
    ClientMsg::Hello { email: email.to_owned(), name: name.to_owned() }
}

// ---- What the miner's side promises --------------------------------------------------------

/// Of the blocks that were won no more than so many are remembered, the newest last, and of the
/// others the newest.
pub proof fn law_wins_are_bounded(wins: Seq<WinView>, win: WinView)
    requires
        wins.len() <= WINS_KEPT,
    ensures
        0 < remembered(wins, win).len() <= WINS_KEPT,
        remembered(wins, win).last() == win,
        exists|k: int|
            0 <= k <= 1 && #[trigger] wins.skip(k) == remembered(wins, win).drop_last(),
{
    if wins.len() + 1 > WINS_KEPT {
        assert(wins.skip(1) =~= remembered(wins, win).drop_last());
    } else {
        assert(wins.skip(0) =~= remembered(wins, win).drop_last());
    }
}

/// Nothing that the server says changes who the miner is, where it is connected or how it mines;
/// only an accepted block counts as won.
pub proof fn law_only_accepted_blocks_count(
    st: ClientView,
    msg: ServerMsgView,
    total_cc: Double,
    now: u64,
)
    requires
        msg is Accepted ==> st.blocks_won < u64::MAX,
    ensures
        ({
            let after = heard(st, msg, total_cc, now);
            &&& after.miner_name == st.miner_name
            &&& after.server_addr == st.server_addr
            &&& after.connected == st.connected
            &&& after.hashrate == st.hashrate
            &&& after.peek_hash == st.peek_hash
            &&& msg is Accepted ==> after.blocks_won == st.blocks_won + 1 && after.total_cc
                == total_cc
            &&& !(msg is Accepted) ==> after.blocks_won == st.blocks_won && after.total_cc
                == st.total_cc && after.wins_history == st.wins_history
        }),
{
}

/// Work that is handed out is mined as it is: nothing else is mined, and nothing is mined in answer
/// to anything else. A word to stop halts the mining.
pub proof fn law_work_is_mined_as_given(msg: ServerMsgView, action: ClientAction)
    requires
        answered(msg, action),
    ensures
        msg is Work <==> action is Mine,
        msg is Stop <==> action is Halt,
        msg is Accepted || msg is Rejected <==> action is Nothing,
        msg matches ServerMsgView::Work {
            index,
            prev_hash,
            difficulty,
            timestamp,
            data,
            reward,
        } ==> (action matches ClientAction::Mine { job } && {
            &&& job.index == index
            &&& job.previous_hash@ == prev_hash
            &&& job.difficulty == difficulty
            &&& job.timestamp == timestamp
            &&& job.data@ == data
        }),
{
}

/// What the server says is shown: the work with its block and difficulty, a reason as it was given,
/// and an accepted block with its reward, which is remembered last with the hash that was shown and
/// the time.
pub proof fn law_messages_are_shown(
    st: ClientView,
    msg: ServerMsgView,
    total_cc: Double,
    now: u64,
)
    ensures
        ({
            let after = heard(st, msg, total_cc, now);
            match msg {
                ServerMsgView::Work { index, difficulty, .. } => {
                    &&& after.current_block == index
                    &&& after.difficulty == difficulty
                    &&& after.status == "Mining block #"@ + text::decimal(index as nat) + " at "@
                        + text::decimal(difficulty as nat) + " zeros"@
                },
                ServerMsgView::Stop => {
                    &&& after.current_block == st.current_block
                    &&& after.difficulty == st.difficulty
                    &&& after.status
                        == "Another miner found the block. Waiting for new work..."@
                },
                ServerMsgView::Accepted { block_index, reward } => {
                    &&& after.current_block == st.current_block
                    &&& after.difficulty == st.difficulty
                    &&& after.status == "Block #"@ + text::decimal(block_index as nat)
                        + " ACCEPTED! +"@ + double::four_places(reward) + " CC"@
                    &&& after.wins_history.len() > 0
                    &&& after.wins_history.last() == (WinView {
                        block_index,
                        hash: st.peek_hash,
                        reward,
                        timestamp: now,
                    })
                },
                ServerMsgView::Rejected { reason } => {
                    &&& after.current_block == st.current_block
                    &&& after.difficulty == st.difficulty
                    &&& after.status == "Submission rejected: "@ + reason
                },
            }
        }),
{
}

/// All blocks that were won are remembered until there are fifty; after that the oldest goes each
/// time.
pub proof fn law_oldest_win_goes(wins: Seq<WinView>, win: WinView, i: int)
    requires
        wins.len() <= 50,
    ensures
        wins.len() < 50 ==> remembered(wins, win).len() == wins.len() + 1,
        wins.len() < 50 && 0 <= i < wins.len() ==> remembered(wins, win)[i] == wins[i],
        wins.len() == 50 ==> remembered(wins, win).len() == 50,
        wins.len() == 50 && 0 <= i < 49 ==> remembered(wins, win)[i] == wins[i + 1],
        remembered(wins, win).last() == win,
{
}

/// A solution is sent as it was found, unless the mining was halted; and a solution of the work that
/// the server handed out is what the server accepts.
pub proof fn law_solutions_are_sent_as_found(
    index: u64,
    nonce: u64,
    hash: Seq<char>,
    st: crate::pool_server::PoolView,
)
    ensures
        submission(index, nonce, hash, true) is None,
        submission(index, nonce, hash, false) matches Some(ClientMsgView::Submit {
            index: i,
            nonce: n,
            hash: h,
        }) && i == index && n == nonce && h == hash,
        index == st.blockchain.chain.len() && crate::mining::meets(
            hash,
            st.blockchain.difficulty as nat,
        ) ==> crate::pool_server::accepts(st, true, index, hash),
{
}

/// A miner begins with nothing won or earned, unconnected; it shows whether it is connected, how fast
/// it mines and the latest hash as they are; and it says hello with its own address and name. What
/// it has won and earned stays.
pub proof fn law_miner_shows_how_it_goes(
    st: ClientView,
    name: Seq<char>,
    addr: Seq<char>,
    hashrate: u64,
    peek: Seq<char>,
)
    ensures
        ({
            let new = fresh_client(name, addr);
            &&& new.miner_name == name && new.server_addr == addr
            &&& !new.connected && new.blocks_won == 0 && new.total_cc.value() == 0
            &&& new.wins_history.len() == 0 && new.hashrate == 0
            &&& new.peek_hash.len() == 16
        }),
        ({
            let (up, down) = (with_connection(st, true), with_connection(st, false));
            &&& up.connected && up.status == "Waiting for work..."@
            &&& !down.connected && down.status == "Disconnected from pool."@
            &&& up.blocks_won == st.blocks_won && down.blocks_won == st.blocks_won
            &&& up.total_cc == st.total_cc && down.total_cc == st.total_cc
            &&& up.wins_history == st.wins_history && down.wins_history == st.wins_history
            &&& up.hashrate == st.hashrate && down.hashrate == st.hashrate
            &&& up.miner_name == st.miner_name && down.miner_name == st.miner_name
            &&& up.server_addr == st.server_addr && down.server_addr == st.server_addr
            &&& up.current_block == st.current_block && down.current_block == st.current_block
            &&& up.difficulty == st.difficulty && down.difficulty == st.difficulty
            &&& up.peek_hash == st.peek_hash && down.peek_hash == st.peek_hash
        }),
        ({
            let now = with_progress(st, hashrate, peek);
            &&& now.hashrate == hashrate && now.peek_hash == peek
            &&& now.blocks_won == st.blocks_won && now.total_cc == st.total_cc
            &&& now.wins_history == st.wins_history && now.status == st.status
            &&& now.connected == st.connected && now.miner_name == st.miner_name
            &&& now.server_addr == st.server_addr && now.current_block == st.current_block
            &&& now.difficulty == st.difficulty
        }),
        first_words(addr, name) matches ClientMsgView::Hello { email, name: n } && email == addr
            && n == name,
{
    assert(double::size_of_bits(0) == 0);
}

} // verus!
