//! The mining pool: what its server and its miners say to each other, and what the server does.

use crate::blockchain;
use crate::blockchain::{Block, Blockchain, BlockView, BlockchainView};
use crate::double::Double;
use crate::mining;
use crate::order;
use crate::text;
use vstd::prelude::*;
use vstd::string::StringExecFns;

verus! {

/// The port on which miners connect.
pub const POOL_PORT: u16 = 8080;

/// The port on which the server answers those who look for it.
pub const DISCOVERY_PORT: u16 = 8081;

/// The port on which the dashboard answers.
pub const DASHBOARD_PORT: u16 = 2700;

/// What those who look for the server send.
pub const DISCOVERY_PING: &'static str = "CRYPTOCRAFT_DISCOVER_V1";

/// What the answer to them begins with.
pub const DISCOVERY_PONG: &'static str = "CRYPTOCRAFT_POOL_V1";

/// How many blocks the dashboard shows.
pub const RECENT_BLOCKS: usize = 20;

// ---- Messages ------------------------------------------------------------------------

/// What the server says to a miner.
#[derive(Debug, Clone)]
pub enum ServerMsg {
    Work {
        index: u64,
        prev_hash: String,
        difficulty: usize,
        timestamp: u64,
        data: String,
        reward: Double,
    },
    Stop,
    Accepted { block_index: u64, reward: Double },
    Rejected { reason: String },
}

/// What a message of the server holds.
pub enum ServerMsgView {
    Work {
        index: u64,
        prev_hash: Seq<char>,
        difficulty: usize,
        timestamp: u64,
        data: Seq<char>,
        reward: Double,
    },
    Stop,
    Accepted { block_index: u64, reward: Double },
    Rejected { reason: Seq<char> },
}

impl View for ServerMsg {
    type V = ServerMsgView;

    open spec fn view(&self) -> ServerMsgView {
        match *self {
            ServerMsg::Work { index, prev_hash, difficulty, timestamp, data, reward } =>
                ServerMsgView::Work {
                    index,
                    prev_hash: prev_hash@,
                    difficulty,
                    timestamp,
                    data: data@,
                    reward,
                },
            ServerMsg::Stop => ServerMsgView::Stop,
            ServerMsg::Accepted { block_index, reward } => ServerMsgView::Accepted {
                block_index,
                reward,
            },
            ServerMsg::Rejected { reason } => ServerMsgView::Rejected { reason: reason@ },
        }
    }
}

impl ServerMsg {
    /// A second message with the same contents.
    pub fn duplicate(&self) -> (msg: ServerMsg)
        ensures
            msg@ == self@,
    {
        match self {
            ServerMsg::Work { index, prev_hash, difficulty, timestamp, data, reward } =>
                ServerMsg::Work {
                    index: *index,
                    prev_hash: prev_hash.clone(),
                    difficulty: *difficulty,
                    timestamp: *timestamp,
                    data: data.clone(),
                    reward: *reward,
                },
            ServerMsg::Stop => ServerMsg::Stop,
            ServerMsg::Accepted { block_index, reward } => ServerMsg::Accepted {
                block_index: *block_index,
                reward: *reward,
            },
            ServerMsg::Rejected { reason } => ServerMsg::Rejected { reason: reason.clone() },
        }
    }
}

/// What a miner says to the server.
#[derive(Debug)]
pub enum ClientMsg {
    Hello { email: String, name: String },
    Submit { index: u64, nonce: u64, hash: String },
    Hashrate { hr: u64 },
    Bye,
}

/// What a message of a miner holds.
pub enum ClientMsgView {
    Hello { email: Seq<char>, name: Seq<char> },
    Submit { index: u64, nonce: u64, hash: Seq<char> },
    Hashrate { hr: u64 },
    Bye,
}

impl View for ClientMsg {
    type V = ClientMsgView;

    open spec fn view(&self) -> ClientMsgView {
        match *self {
            ClientMsg::Hello { email, name } => ClientMsgView::Hello { email: email@, name: name@ },
            ClientMsg::Submit { index, nonce, hash } => ClientMsgView::Submit {
                index,
                nonce,
                hash: hash@,
            },
            ClientMsg::Hashrate { hr } => ClientMsgView::Hashrate { hr },
            ClientMsg::Bye => ClientMsgView::Bye,
        }
    }
}

// ---- The miners of a pool ----------------------------------------------------------------

/// A connected miner. A miner is known by the address that it connects from.
pub struct MinerConn {
    pub addr: String,
    pub email: String,
    pub name: String,
    pub hashrate: u64,
    pub blocks_found: u64,
    /// When it connected, in nanoseconds of a clock that never runs backwards.
    pub joined: u64,
}

/// What is known of a connected miner.
#[verifier::ext_equal]
pub struct MinerView {
    pub addr: Seq<char>,
    pub email: Seq<char>,
    pub name: Seq<char>,
    pub hashrate: u64,
    pub blocks_found: u64,
    pub joined: u64,
}

impl View for MinerConn {
    type V = MinerView;

    open spec fn view(&self) -> MinerView {
        MinerView {
            addr: self.addr@,
            email: self.email@,
            name: self.name@,
            hashrate: self.hashrate,
            blocks_found: self.blocks_found,
            joined: self.joined,
        }
    }
}

/// Where the miner of an address stands in a list.
pub open spec fn place(miners: Seq<MinerView>, addr: Seq<char>) -> Option<int>
    decreases miners.len(),
{
    if miners.len() == 0 {
        None
    } else if miners.last().addr == addr {
        Some(miners.len() - 1)
    } else {
        place(miners.drop_last(), addr)
    }
}

/// Whether no two miners have the same address.
pub open spec fn distinct(miners: Seq<MinerView>) -> bool {
    forall|i: int, j: int|
        0 <= i < j < miners.len() ==> (#[trigger] miners[i]).addr != (#[trigger] miners[j]).addr
}

/// A list of miners with one more, in the place of the one that had its address before, if any.
pub open spec fn with_miner(miners: Seq<MinerView>, miner: MinerView) -> Seq<MinerView> {
    match place(miners, miner.addr) {
        Some(i) => miners.update(i, miner),
        None => miners.push(miner),
    }
}

/// A list of miners without the one of a given address.
pub open spec fn without_miner(miners: Seq<MinerView>, addr: Seq<char>) -> Seq<MinerView> {
    match place(miners, addr) {
        Some(i) => miners.remove(i),
        None => miners,
    }
}

/// A list of miners with the hash rate that the miner of a given address reports.
pub open spec fn with_hashrate(miners: Seq<MinerView>, addr: Seq<char>, hr: u64) -> Seq<MinerView> {
    match place(miners, addr) {
        Some(i) => miners.update(i, MinerView { hashrate: hr, ..miners[i] }),
        None => miners,
    }
}

/// A list of miners with one more block to the credit of the miner of a given address.
pub open spec fn with_block_found(miners: Seq<MinerView>, addr: Seq<char>) -> Seq<MinerView> {
    match place(miners, addr) {
        Some(i) => miners.update(
            i,
            MinerView { blocks_found: (miners[i].blocks_found + 1) as u64, ..miners[i] },
        ),
        None => miners,
    }
}

/// What `place` finds is a miner of that address, the last one; it finds one if there is one.
pub proof fn lemma_place(miners: Seq<MinerView>, addr: Seq<char>)
    ensures
        match place(miners, addr) {
            Some(i) => 0 <= i < miners.len() && miners[i].addr == addr && forall|j: int|
                i < j < miners.len() ==> (#[trigger] miners[j]).addr != addr,
            None => forall|j: int| 0 <= j < miners.len() ==> (#[trigger] miners[j]).addr != addr,
        },
    decreases miners.len(),
{
    if miners.len() > 0 && miners.last().addr != addr {
        lemma_place(miners.drop_last(), addr);
        assert forall|j: int|
            0 <= j < miners.len() && (place(miners, addr) matches Some(i) ==> i
                < j) implies (#[trigger] miners[j]).addr != addr by {
            if j < miners.len() - 1 {
                assert(miners.drop_last()[j] == miners[j]);
            }
        }
    }
}

/// Joining, leaving, reporting and finding a block all leave at most one miner to an address.
pub proof fn law_miners_stay_distinct(
    miners: Seq<MinerView>,
    miner: MinerView,
    addr: Seq<char>,
    hr: u64,
)
    requires
        distinct(miners),
    ensures
        distinct(with_miner(miners, miner)),
        distinct(without_miner(miners, addr)),
        distinct(with_hashrate(miners, addr, hr)),
        distinct(with_block_found(miners, addr)),
{
    lemma_place(miners, miner.addr);
    lemma_place(miners, addr);
    let joined = with_miner(miners, miner);
    assert forall|i: int, j: int| 0 <= i < j < joined.len() implies (#[trigger] joined[i]).addr != (
    #[trigger] joined[j]).addr by {
        match place(miners, miner.addr) {
            Some(k) => {
                assert(i != k ==> miners[i].addr != miners[k].addr);
                assert(j != k ==> miners[j].addr != miners[k].addr);
            },
            None => {},
        }
    }
    let left = without_miner(miners, addr);
    assert forall|i: int, j: int| 0 <= i < j < left.len() implies (#[trigger] left[i]).addr != (
    #[trigger] left[j]).addr by {
        match place(miners, addr) {
            Some(k) => {
                let a = if i < k { i } else { i + 1 };
                let b = if j < k { j } else { j + 1 };
                assert(left[i] == miners[a] && left[j] == miners[b]);
            },
            None => {},
        }
    }
}

// ---- The state of a pool -----------------------------------------------------------------

/// The state of the pool server.
pub struct PoolState {
    pub blockchain: Blockchain,
    pub save_file: String,
    pub miners: Vec<MinerConn>,
    pub blocks_total: u64,
    pub bind_ip: String,
}

/// What the pool server knows.
#[verifier::ext_equal]
pub struct PoolView {
    pub blockchain: BlockchainView,
    pub save_file: Seq<char>,
    pub miners: Seq<MinerView>,
    pub blocks_total: u64,
    pub bind_ip: Seq<char>,
}

impl View for PoolState {
    type V = PoolView;

    open spec fn view(&self) -> PoolView {
        PoolView {
            blockchain: self.blockchain@,
            save_file: self.save_file@,
            miners: self.miners@.map_values(|m: MinerConn| m@),
            blocks_total: self.blocks_total,
            bind_ip: self.bind_ip@,
        }
    }
}

impl PoolView {
    /// The chain has a block to build on, and no two miners have the same address.
    pub open spec fn valid(self) -> bool {
        self.blockchain.chain.len() > 0 && distinct(self.miners)
    }
}

/// The work that the server hands out at a given time.
pub open spec fn work_at(bc: BlockchainView, timestamp: u64) -> ServerMsgView {
    ServerMsgView::Work {
        index: bc.chain.len() as u64,
        prev_hash: bc.chain.last().hash,
        difficulty: bc.difficulty,
        timestamp,
        data: "CryptoCraft Pool Block #"@ + text::decimal(bc.chain.len()),
        reward: blockchain::reward_at(bc.chain.len()),
    }
}

/// What the server does in answer to a message.
pub enum PoolAction {
    /// Answers the miner that sent the message.
    Reply { msg: ServerMsg },
    /// Tells the miner of an address.
    Send { to: String, msg: ServerMsg },
    /// Writes the chain to its file.
    Save,
    /// Ends the conversation.
    Close,
}

/// What an action of the server is.
pub enum PoolActionView {
    Reply { msg: ServerMsgView },
    Send { to: Seq<char>, msg: ServerMsgView },
    Save,
    Close,
}

impl View for PoolAction {
    type V = PoolActionView;

    open spec fn view(&self) -> PoolActionView {
        match *self {
            PoolAction::Reply { msg } => PoolActionView::Reply { msg: msg@ },
            PoolAction::Send { to, msg } => PoolActionView::Send { to: to@, msg: msg@ },
            PoolAction::Save => PoolActionView::Save,
            PoolAction::Close => PoolActionView::Close,
        }
    }
}

/// The actions of a list, as they are.
pub open spec fn actions_view(actions: Seq<PoolAction>) -> Seq<PoolActionView> {
    actions.map_values(|a: PoolAction| a@)
}

/// What the server tells its miners once one of them has found a block: all the others stop,
/// and all get the next work.
pub open spec fn announcements(miners: Seq<MinerView>, finder: Seq<char>, work: ServerMsgView) -> Seq<
    PoolActionView,
>
    decreases miners.len(),
{
    if miners.len() == 0 {
        seq![]
    } else {
        let to = miners.last().addr;
        let rest = announcements(miners.drop_last(), finder, work);
        let stopped = if to != finder {
            rest.push(PoolActionView::Send { to, msg: ServerMsgView::Stop })
        } else {
            rest
        };
        stopped.push(PoolActionView::Send { to, msg: work })
    }
}

/// What the server takes into account when a message arrives, besides its own state.
#[derive(Clone, Copy)]
pub struct Circumstances {
    /// Whether the sender has said hello.
    pub authed: bool,
    /// The reading of the clock that never runs backwards.
    pub joined: u64,
    /// What has been mined in all once the next reward is added.
    pub total_mined: Double,
    /// The time of the block that the message may bring.
    pub block_time: u64,
    /// The time of the work that is handed out.
    pub work_time: u64,
}

/// What comes of a message.
pub struct Exchange {
    pub authed: bool,
    pub state: PoolView,
    pub actions: Seq<PoolActionView>,
}

/// Whether a submission extends the chain: the sender has said hello, the block is the one that
/// comes next, and its hash begins with enough zeros.
pub open spec fn accepts(st: PoolView, authed: bool, index: u64, hash: Seq<char>) -> bool {
    authed && index == st.blockchain.chain.len() && mining::meets(
        hash,
        st.blockchain.difficulty as nat,
    )
}

/// The state of the pool once a submission has been accepted.
pub open spec fn after_accept(
    st: PoolView,
    addr: Seq<char>,
    nonce: u64,
    hash: Seq<char>,
    cx: Circumstances,
) -> PoolView {
    PoolView {
        blockchain: blockchain::extended(
            st.blockchain,
            nonce,
            hash,
            0,
            cx.block_time,
            cx.total_mined,
        ),
        miners: with_block_found(st.miners, addr),
        blocks_total: (st.blocks_total + 1) as u64,
        ..st
    }
}

/// What comes of a message that the miner of an address sends.
pub open spec fn exchange(
    st: PoolView,
    addr: Seq<char>,
    msg: ClientMsgView,
    cx: Circumstances,
) -> Exchange {
    let unchanged = Exchange { authed: cx.authed, state: st, actions: seq![] };
    match msg {
        ClientMsgView::Hello { email, name } => {
            let miner = MinerView {
                addr,
                email: seq![],
                name,
                hashrate: 0,
                blocks_found: 0,
                joined: cx.joined,
            };
            Exchange {
                authed: true,
                state: PoolView { miners: with_miner(st.miners, miner), ..st },
                actions: seq![PoolActionView::Reply { msg: work_at(st.blockchain, cx.work_time) }],
            }
        },
        ClientMsgView::Submit { index, nonce, hash } => if !cx.authed {
            unchanged
        } else if index != st.blockchain.chain.len() {
            Exchange {
                actions: seq![
                    PoolActionView::Reply {
                        msg: ServerMsgView::Rejected { reason: "stale block"@ },
                    },
                ],
                ..unchanged
            }
        } else if !mining::meets(hash, st.blockchain.difficulty as nat) {
            Exchange {
                actions: seq![
                    PoolActionView::Reply {
                        msg: ServerMsgView::Rejected { reason: "invalid hash"@ },
                    },
                ],
                ..unchanged
            }
        } else {
            let after = after_accept(st, addr, nonce, hash, cx);
            let accepted = ServerMsgView::Accepted {
                block_index: index,
                reward: blockchain::reward_at(index as nat),
            };
            Exchange {
                authed: true,
                state: after,
                actions: seq![
                    PoolActionView::Save,
                    PoolActionView::Reply { msg: accepted },
                ] + announcements(after.miners, addr, work_at(after.blockchain, cx.work_time)),
            }
        },
        ClientMsgView::Hashrate { hr } => Exchange {
            state: PoolView { miners: with_hashrate(st.miners, addr, hr), ..st },
            ..unchanged
        },
        ClientMsgView::Bye => Exchange { actions: seq![PoolActionView::Close], ..unchanged },
    }
}

/// Whether a message can be dealt with at a given time: where it brings a block, the chain can
/// take it up then and the counts have room for it.
pub open spec fn answerable(
    st: PoolView,
    addr: Seq<char>,
    msg: ClientMsgView,
    authed: bool,
    block_time: u64,
) -> bool {
    match msg {
        ClientMsgView::Submit { index, nonce, hash } => accepts(st, authed, index, hash) ==> {
            &&& blockchain::extendable(st.blockchain, block_time)
            &&& st.blocks_total < u64::MAX
            &&& place(st.miners, addr) matches Some(i) ==> st.miners[i].blocks_found < u64::MAX
        },
        _ => true,
    }
}

/// What the server is to do after a message.
pub struct Outcome {
    /// Whether the sender has said hello by now.
    pub authed: bool,
    pub actions: Vec<PoolAction>,
}

/// A pool without miners.
pub open spec fn empty_pool(
    blockchain: BlockchainView,
    save_file: Seq<char>,
    bind_ip: Seq<char>,
) -> PoolView {
    PoolView { blockchain, save_file, miners: seq![], blocks_total: 0, bind_ip }
}

impl PoolState {
    /// A pool without miners.
    pub fn open_pool(blockchain: Blockchain, save_file: String, bind_ip: String) -> (st: PoolState)
        ensures
            st@ == (PoolView {
                blockchain: blockchain@,
                save_file: save_file@,
                miners: seq![],
                blocks_total: 0,
                bind_ip: bind_ip@,
            }),
            blockchain@.chain.len() > 0 ==> st@.valid(),
            st@ == empty_pool(blockchain@, save_file@, bind_ip@),
    {
        let st = PoolState { blockchain, save_file, miners: Vec::new(), blocks_total: 0, bind_ip };
        assert(st@.miners =~= seq![]);
        st
    }

    /// Where the miner of an address stands in the list.
    fn find_miner(&self, addr: &str) -> (at: Option<usize>)
        ensures
            match at {
                Some(i) => i < self.miners@.len() && place(self@.miners, addr@) == Some(i as int),
                None => place(self@.miners, addr@) is None,
            },
    {
        let mut n: usize = self.miners.len();
        assert(self@.miners.take(n as int) =~= self@.miners);
        while n > 0
            invariant
                n <= self.miners@.len(),
                place(self@.miners, addr@) == place(self@.miners.take(n as int), addr@),
            decreases n,
        {
            assert(self@.miners.take(n as int).last() == self.miners@[n - 1]@);
            assert(self@.miners.take(n as int).drop_last() =~= self@.miners.take(n - 1));
            if text::same_text(self.miners[n - 1].addr.as_str(), addr) {
                return Some(n - 1);
            }
            n = n - 1;
        }
        None
    }

    /// The work that the server hands out at a given time.
    pub fn build_work_at(&self, timestamp: u64) -> (work: ServerMsg)
        requires
            self@.blockchain.chain.len() > 0,
        ensures
            work@ == work_at(self@.blockchain, timestamp),
    {
        let bc = &self.blockchain;
        let mut data = "CryptoCraft Pool Block #".to_owned();
        data.append(text::u64_text(bc.next_index()).as_str());
        ServerMsg::Work {
            index: bc.next_index(),
            prev_hash: bc.latest_hash().to_owned(),
            difficulty: bc.difficulty,
            timestamp,
            data,
            reward: bc.current_reward(),
        }
    }

    /// The work that the server hands out now.
    pub fn build_work(&self) -> (work: ServerMsg)
        requires
            self@.blockchain.chain.len() > 0,
        ensures
            exists|timestamp: u64| work@ == work_at(self@.blockchain, timestamp),
    {
        let timestamp: u64 = blockchain::now_secs();
        self.build_work_at(timestamp)
    }

    /// Tells the miners that one of them has found a block.
    fn announce(&self, finder: &str, work: &ServerMsg, actions: &mut Vec<PoolAction>)
        ensures
            actions_view(final(actions)@) == actions_view(old(actions)@) + announcements(
                self@.miners,
                finder@,
                work@,
            ),
    {
        let mut i: usize = 0;
        let ghost start = actions_view(actions@);
        assert(self@.miners.take(0) =~= seq![]);
        assert(start + Seq::<PoolActionView>::empty() =~= start);
        while i < self.miners.len()
            invariant
                i <= self.miners@.len(),
                actions_view(actions@) == start + announcements(
                    self@.miners.take(i as int),
                    finder@,
                    work@,
                ),
            decreases self.miners@.len() - i,
        {
            let ghost so_far = self@.miners.take(i as int);
            let ghost next = self@.miners.take(i + 1);
            assert(next.last() == self.miners@[i as int]@);
            assert(next.drop_last() =~= so_far);
            let ghost a0 = actions_view(actions@);
            let to = self.miners[i].addr.clone();
            if !text::same_text(to.as_str(), finder) {
                let stop = PoolAction::Send { to: to.clone(), msg: ServerMsg::Stop };
                let ghost stop_view = stop@;
                actions.push(stop);
                assert(actions_view(actions@) =~= a0.push(stop_view));
            }
            let ghost a1 = actions_view(actions@);
            let tell = PoolAction::Send { to, msg: work.duplicate() };
            let ghost tell_view = tell@;
            actions.push(tell);
            assert(actions_view(actions@) =~= a1.push(tell_view));
            assert(actions_view(actions@) =~= start + announcements(next, finder@, work@));
            i = i + 1;
        }
        assert(self@.miners.take(i as int) =~= self@.miners);
    }

    /// A miner says hello.
    fn join(&mut self, addr: &str, name: String, joined: u64)
        ensures
            final(self)@ == (PoolView {
                miners: with_miner(
                    old(self)@.miners,
                    MinerView {
                        addr: addr@,
                        email: seq![],
                        name: name@,
                        hashrate: 0,
                        blocks_found: 0,
                        joined,
                    },
                ),
                ..old(self)@
            }),
    {
        let conn = MinerConn {
            addr: addr.to_owned(),
            email: String::new(),
            name,
            hashrate: 0,
            blocks_found: 0,
            joined,
        };
        let ghost view = conn@;
        match self.find_miner(addr) {
            Some(i) => {
                self.miners.set(i, conn);
                assert(self@.miners =~= old(self)@.miners.update(i as int, view));
            },
            None => {
                self.miners.push(conn);
                assert(self@.miners =~= old(self)@.miners.push(view));
            },
        }
    }

    /// A connection ends: its miner leaves the pool.
    pub fn disconnect(&mut self, addr: &str)
        ensures
            final(self)@ == (PoolView {
                miners: without_miner(old(self)@.miners, addr@),
                ..old(self)@
            }),
    {
        match self.find_miner(addr) {
            Some(i) => {
                self.miners.remove(i);
                assert(self@.miners =~= old(self)@.miners.remove(i as int));
            },
            None => {},
        }
    }

    /// A miner reports its hash rate.
    fn report(&mut self, addr: &str, hr: u64)
        ensures
            final(self)@ == (PoolView {
                miners: with_hashrate(old(self)@.miners, addr@, hr),
                ..old(self)@
            }),
    {
        match self.find_miner(addr) {
            Some(i) => {
                let ghost before = self.miners@[i as int]@;
                self.miners[i].hashrate = hr;
                assert(self@.miners =~= old(self)@.miners.update(
                    i as int,
                    MinerView { hashrate: hr, ..before },
                ));
            },
            None => {},
        }
    }

    /// A block goes to the credit of a miner.
    fn credit_block(&mut self, addr: &str)
        requires
            place(old(self)@.miners, addr@) matches Some(i) ==> old(self)@.miners[i].blocks_found
                < u64::MAX,
        ensures
            final(self)@ == (PoolView {
                miners: with_block_found(old(self)@.miners, addr@),
                ..old(self)@
            }),
    {
        match self.find_miner(addr) {
            Some(i) => {
                let ghost before = self.miners@[i as int]@;
                assert(self@.miners[i as int] == before);
                let found: u64 = self.miners[i].blocks_found + 1;
                self.miners[i].blocks_found = found;
                assert(self@.miners =~= old(self)@.miners.update(
                    i as int,
                    MinerView { blocks_found: found, ..before },
                ));
            },
            None => {},
        }
    }

    /// Deals with a message that the miner of an address sends.
    pub fn handle_message_at(&mut self, addr: &str, msg: ClientMsg, cx: Circumstances) -> (out:
        Outcome)
        requires
            old(self)@.valid(),
            answerable(old(self)@, addr@, msg@, cx.authed, cx.block_time),
        ensures
            final(self)@ == exchange(old(self)@, addr@, msg@, cx).state,
            out.authed == exchange(old(self)@, addr@, msg@, cx).authed,
            actions_view(out.actions@) == exchange(old(self)@, addr@, msg@, cx).actions,
            final(self)@.valid(),
    {
        let ghost before = self@;
        let mut actions: Vec<PoolAction> = Vec::new();
        assert(actions_view(actions@) =~= seq![]);
        match msg {
            ClientMsg::Hello { email: _, name } => {
                self.join(addr, name, cx.joined);
                let reply = PoolAction::Reply { msg: self.build_work_at(cx.work_time) };
                let ghost reply_view = reply@;
                actions.push(reply);
                assert(actions_view(actions@) =~= seq![reply_view]);
                proof {
                    let miner = MinerView {
                        addr: addr@,
                        email: seq![],
                        name: name@,
                        hashrate: 0,
                        blocks_found: 0,
                        joined: cx.joined,
                    };
                    law_miners_stay_distinct(before.miners, miner, addr@, 0);
                }
                Outcome { authed: true, actions }
            },
            ClientMsg::Submit { index, nonce, hash } => {
                if !cx.authed {
                    return Outcome { authed: false, actions };
                }
                if index != self.blockchain.next_index() {
                    let reply = PoolAction::Reply {
                        msg: ServerMsg::Rejected { reason: "stale block".to_owned() },
                    };
                    let ghost reply_view = reply@;
                    actions.push(reply);
                    assert(actions_view(actions@) =~= seq![reply_view]);
                    return Outcome { authed: true, actions };
                }
                if !mining::meets_difficulty(hash.as_str(), self.blockchain.difficulty) {
                    let reply = PoolAction::Reply {
                        msg: ServerMsg::Rejected { reason: "invalid hash".to_owned() },
                    };
                    let ghost reply_view = reply@;
                    actions.push(reply);
                    assert(actions_view(actions@) =~= seq![reply_view]);
                    return Outcome { authed: true, actions };
                }
                let block = self.blockchain.add_block_at(
                    nonce,
                    hash,
                    0,
                    cx.block_time,
                    cx.total_mined,
                );
                self.blocks_total = self.blocks_total + 1;
                assert(self@.miners =~= before.miners);
                self.credit_block(addr);
                actions.push(PoolAction::Save);
                let reply = PoolAction::Reply {
                    msg: ServerMsg::Accepted { block_index: block.index, reward: block.reward },
                };
                let ghost reply_view = reply@;
                actions.push(reply);
                assert(actions_view(actions@) =~= seq![PoolActionView::Save, reply_view]);
                let work = self.build_work_at(cx.work_time);
                self.announce(addr, &work, &mut actions);
                proof {
                    assert(self@ =~= after_accept(before, addr@, nonce, hash@, cx));
                    law_miners_stay_distinct(before.miners, before.miners[0], addr@, 0);
                }
                Outcome { authed: true, actions }
            },
            ClientMsg::Hashrate { hr } => {
                self.report(addr, hr);
                proof {
                    law_miners_stay_distinct(before.miners, before.miners[0], addr@, hr);
                }
                Outcome { authed: cx.authed, actions }
            },
            ClientMsg::Bye => {
                let close = PoolAction::Close;
                actions.push(close);
                assert(actions_view(actions@) =~= seq![PoolActionView::Close]);
                Outcome { authed: cx.authed, actions }
            },
        }
    }
}

impl PoolState {
    /// Whether a message can be dealt with at a given time.
    pub fn can_answer(&self, addr: &str, msg: &ClientMsg, authed: bool, block_time: u64) -> (yes:
        bool)
        ensures
            yes == answerable(self@, addr@, msg@, authed, block_time),
    {
        match msg {
            ClientMsg::Submit { index, nonce: _, hash } => {
                if !authed || *index != self.blockchain.next_index() || !mining::meets_difficulty(
                    hash.as_str(),
                    self.blockchain.difficulty,
                ) {
                    return true;
                }
                let room = match self.find_miner(addr) {
                    Some(i) => {
                        assert(self@.miners[i as int] == self.miners@[i as int]@);
                        self.miners[i].blocks_found < u64::MAX
                    },
                    None => true,
                };
                room && self.blocks_total < u64::MAX && self.blockchain.can_extend(block_time)
            },
            _ => true,
        }
    }

    /// Deals with a message that the miner of an address sends, at the time that the clock
    /// gives. Where the message cannot be dealt with at that time, nothing changes.
    pub fn handle_message(
        &mut self,
        addr: &str,
        msg: ClientMsg,
        authed: bool,
        joined: u64,
        total_mined: Double,
    ) -> (out: Option<Outcome>)
        requires
            old(self)@.valid(),
        ensures
            final(self)@.valid(),
            match out {
                Some(o) => exists|cx: Circumstances|
                    {
                        &&& cx.authed == authed
                        &&& cx.joined == joined
                        &&& cx.total_mined == total_mined
                        &&& answerable(old(self)@, addr@, msg@, authed, cx.block_time)
                        &&& final(self)@ == (#[trigger] exchange(old(self)@, addr@, msg@, cx)).state
                        &&& o.authed == exchange(old(self)@, addr@, msg@, cx).authed
                        &&& actions_view(o.actions@) == exchange(
                            old(self)@,
                            addr@,
                            msg@,
                            cx,
                        ).actions
                    },
                None => *final(self) == *old(self) && exists|block_time: u64|
                    !answerable(old(self)@, addr@, msg@, authed, block_time),
            },
    {
        let block_time: u64 = blockchain::now_secs();
        if !self.can_answer(addr, &msg, authed, block_time) {
            return None;
        }
        let work_time: u64 = blockchain::now_secs();
        let cx = Circumstances { authed, joined, total_mined, block_time, work_time };
        let out = self.handle_message_at(addr, msg, cx);
        Some(out)
    }
}

// ---- What the pool promises ----------------------------------------------------------------

/// A refused submission is answered with the reason and changes nothing; one from a miner that
/// has not said hello is not even answered.
pub proof fn law_refused_submission_changes_nothing(
    st: PoolView,
    addr: Seq<char>,
    index: u64,
    nonce: u64,
    hash: Seq<char>,
    cx: Circumstances,
)
    requires
        !accepts(st, cx.authed, index, hash),
    ensures
        ({
            let ex = exchange(st, addr, ClientMsgView::Submit { index, nonce, hash }, cx);
            &&& ex.state == st
            &&& ex.authed == cx.authed
            &&& !cx.authed ==> ex.actions == Seq::<PoolActionView>::empty()
            &&& cx.authed ==> ex.actions.len() == 1 && ex.actions[0] == (PoolActionView::Reply {
                msg: ServerMsgView::Rejected {
                    reason: if index != st.blockchain.chain.len() {
                        "stale block"@
                    } else {
                        "invalid hash"@
                    },
                },
            })
        }),
{
}

/// Once a block of an index has been accepted, every further submission for that index is
/// refused as stale, whoever sends it and whatever its hash.
pub proof fn law_one_block_for_each_index(
    st: PoolView,
    addr: Seq<char>,
    index: u64,
    nonce: u64,
    hash: Seq<char>,
    cx: Circumstances,
    other: Seq<char>,
    other_nonce: u64,
    other_hash: Seq<char>,
    other_cx: Circumstances,
)
    requires
        accepts(st, cx.authed, index, hash),
        other_cx.authed,
    ensures
        ({
            let after = exchange(st, addr, ClientMsgView::Submit { index, nonce, hash }, cx).state;
            let again = ClientMsgView::Submit { index, nonce: other_nonce, hash: other_hash };
            let ex = exchange(after, other, again, other_cx);
            &&& ex.state == after
            &&& ex.actions == seq![
                PoolActionView::Reply { msg: ServerMsgView::Rejected { reason: "stale block"@ } },
            ]
        }),
{
}

/// An accepted submission adds one block to the chain, with the hash that was submitted, and
/// one to the count; the other miners keep their counts.
pub proof fn law_accepted_submission_adds_one_block(
    st: PoolView,
    addr: Seq<char>,
    index: u64,
    nonce: u64,
    hash: Seq<char>,
    cx: Circumstances,
    i: int,
)
    requires
        accepts(st, cx.authed, index, hash),
        st.valid(),
        answerable(
            st,
            addr,
            ClientMsgView::Submit { index, nonce, hash },
            cx.authed,
            cx.block_time,
        ),
        0 <= i < st.miners.len(),
    ensures
        ({
            let after = exchange(st, addr, ClientMsgView::Submit { index, nonce, hash }, cx).state;
            &&& after.blockchain.chain.len() == st.blockchain.chain.len() + 1
            &&& after.blockchain.chain.last().hash == hash
            &&& after.blockchain.chain.last().index == index
            &&& after.blocks_total == st.blocks_total + 1
            &&& after.miners.len() == st.miners.len()
            &&& after.miners[i].addr == st.miners[i].addr
            &&& after.miners[i].blocks_found == st.miners[i].blocks_found + (if st.miners[i].addr
                == addr {
                1int
            } else {
                0int
            })
        }),
{
    lemma_place(st.miners, addr);
    match place(st.miners, addr) {
        Some(k) => {
            assert(i != k ==> st.miners[i].addr != st.miners[k].addr);
        },
        None => {},
    }
}

/// Whatever a miner sends, every block of the pool's chain keeps a hash that meets the difficulty
/// under which it was mined.
pub proof fn law_pool_chain_stays_proven(
    st: PoolView,
    addr: Seq<char>,
    msg: ClientMsgView,
    cx: Circumstances,
)
    requires
        mining::proven(st.blockchain.chain),
    ensures
        mining::proven(exchange(st, addr, msg, cx).state.blockchain.chain),
{
    let before = st.blockchain.chain;
    let after = exchange(st, addr, msg, cx).state.blockchain.chain;
    assert forall|i: int| 0 < i < after.len() implies mining::meets(
        (#[trigger] after[i]).hash,
        after[i].difficulty as nat,
    ) by {
        if i < before.len() {
            assert(after[i] == before[i]);
        }
    }
}

/// Whatever a miner sends, the pool's chain only ever grows at its end, and stays linked.
pub proof fn law_pool_chain_only_grows(
    st: PoolView,
    addr: Seq<char>,
    msg: ClientMsgView,
    cx: Circumstances,
)
    requires
        blockchain::linked(st.blockchain.chain),
        st.blockchain.chain.len() < u64::MAX,
    ensures
        blockchain::linked(exchange(st, addr, msg, cx).state.blockchain.chain),
        st.blockchain.chain.is_prefix_of(exchange(st, addr, msg, cx).state.blockchain.chain),
{
    match msg {
        ClientMsgView::Submit { index, nonce, hash } => {
            blockchain::law_extending_keeps_links(
                st.blockchain,
                nonce,
                hash,
                0,
                cx.block_time,
                cx.total_mined,
            );
        },
        _ => {},
    }
}

/// Every miner of the pool gets the work that follows an accepted block, and every miner but the
/// finder is told to stop first.
pub proof fn law_everyone_gets_the_next_work(
    miners: Seq<MinerView>,
    finder: Seq<char>,
    work: ServerMsgView,
    i: int,
) -> (at: int)
    requires
        0 <= i < miners.len(),
    ensures
        0 <= at < announcements(miners, finder, work).len(),
        announcements(miners, finder, work)[at] == (PoolActionView::Send {
            to: miners[i].addr,
            msg: work,
        }),
        miners[i].addr != finder ==> at > 0 && announcements(miners, finder, work)[at - 1] == (
        PoolActionView::Send { to: miners[i].addr, msg: ServerMsgView::Stop }),
    decreases miners.len(),
{
    if i == miners.len() - 1 {
        announcements(miners, finder, work).len() - 1
    } else {
        let at = law_everyone_gets_the_next_work(miners.drop_last(), finder, work, i);
        assert(miners.drop_last()[i] == miners[i]);
        at
    }
}

/// What is sent to an address, in order. What the server replies on the connection of the sender is
/// not among it.
pub open spec fn sent_to(actions: Seq<PoolActionView>, addr: Seq<char>) -> Seq<ServerMsgView>
    decreases actions.len(),
{
    if actions.len() == 0 {
        seq![]
    } else {
        let before = sent_to(actions.drop_last(), addr);
        match actions.last() {
            PoolActionView::Send { to, msg } => if to == addr {
                before.push(msg)
            } else {
                before
            },
            _ => before,
        }
    }
}

proof fn lemma_sent_to_joined(a: Seq<PoolActionView>, b: Seq<PoolActionView>, addr: Seq<char>)
    ensures
        sent_to(a + b, addr) == sent_to(a, addr) + sent_to(b, addr),
    decreases b.len(),
{
    if b.len() == 0 {
        assert(a + b =~= a);
        assert(sent_to(a, addr) + sent_to(b, addr) =~= sent_to(a, addr));
    } else {
        lemma_sent_to_joined(a, b.drop_last(), addr);
        assert((a + b).drop_last() =~= a + b.drop_last());
        assert((a + b).last() == b.last());
        assert(sent_to(a + b, addr) =~= sent_to(a, addr) + sent_to(b, addr));
    }
}

proof fn lemma_announced(
    miners: Seq<MinerView>,
    finder: Seq<char>,
    work: ServerMsgView,
    addr: Seq<char>,
)
    requires
        distinct(miners),
    ensures
        sent_to(announcements(miners, finder, work), addr) == (if place(miners, addr) is None {
            seq![]
        } else if addr == finder {
            seq![work]
        } else {
            seq![ServerMsgView::Stop, work]
        }),
    decreases miners.len(),
{
    let all = announcements(miners, finder, work);
    lemma_place(miners, addr);
    if miners.len() > 0 {
        let front = miners.drop_last();
        let to = miners.last().addr;
        let rest = announcements(front, finder, work);
        assert forall|i: int, j: int| 0 <= i < j < front.len() implies (#[trigger] front[i]).addr
            != (#[trigger] front[j]).addr by {
            assert(miners[i].addr != miners[j].addr);
        }
        lemma_announced(front, finder, work, addr);
        lemma_place(front, addr);
        let stop = PoolActionView::Send { to, msg: ServerMsgView::Stop };
        let stopped = if to != finder {
            rest.push(stop)
        } else {
            rest
        };
        assert(all.drop_last() =~= stopped);
        assert(all.last() == (PoolActionView::Send { to, msg: work }));
        if to != finder {
            assert(stopped.drop_last() =~= rest);
            assert(sent_to(stopped, addr) == (if to == addr {
                sent_to(rest, addr).push(ServerMsgView::Stop)
            } else {
                sent_to(rest, addr)
            }));
        }
        if to == addr {
            match place(front, addr) {
                Some(k) => {
                    assert(front[k] == miners[k]);
                    assert(miners[k].addr != miners[miners.len() - 1].addr);
                },
                None => {},
            }
            assert(sent_to(rest, addr) =~= seq![]);
            assert(sent_to(all, addr) =~= (if addr == finder {
                seq![work]
            } else {
                seq![ServerMsgView::Stop, work]
            }));
        } else {
            assert(sent_to(all, addr) == sent_to(rest, addr));
        }
    }
}

/// Once a block is accepted, its finder is sent the next work and nothing else, so no word to stop;
/// every other miner is sent the word to stop and then the next work; nobody else is sent anything.
pub proof fn law_accepted_block_is_announced_once(
    st: PoolView,
    addr: Seq<char>,
    index: u64,
    nonce: u64,
    hash: Seq<char>,
    cx: Circumstances,
    to: Seq<char>,
)
    requires
        accepts(st, cx.authed, index, hash),
        st.valid(),
    ensures
        ({
            let msg = ClientMsgView::Submit { index, nonce, hash };
            let after = exchange(st, addr, msg, cx);
            let work = work_at(after.state.blockchain, cx.work_time);
            sent_to(after.actions, to) == (if place(st.miners, to) is None {
                seq![]
            } else if to == addr {
                seq![work]
            } else {
                seq![ServerMsgView::Stop, work]
            })
        }),
{
    let after = after_accept(st, addr, nonce, hash, cx);
    let work = work_at(after.blockchain, cx.work_time);
    let accepted = ServerMsgView::Accepted {
        block_index: index,
        reward: blockchain::reward_at(index as nat),
    };
    let head = seq![PoolActionView::Save, PoolActionView::Reply { msg: accepted }];
    lemma_place(st.miners, addr);
    lemma_place(st.miners, to);
    lemma_place(after.miners, to);
    assert forall|i: int| 0 <= i < st.miners.len() implies (#[trigger] after.miners[i]).addr
        == st.miners[i].addr by {}
    assert forall|i: int, j: int| 0 <= i < j < after.miners.len() implies (
    #[trigger] after.miners[i]).addr != (#[trigger] after.miners[j]).addr by {
        assert(st.miners[i].addr != st.miners[j].addr);
    }
    match place(st.miners, to) {
        Some(k) => {
            assert(after.miners[k].addr == st.miners[k].addr);
        },
        None => {
            match place(after.miners, to) {
                Some(k) => {
                    assert(st.miners[k].addr == after.miners[k].addr);
                },
                None => {},
            }
        },
    }
    lemma_announced(after.miners, addr, work, to);
    lemma_sent_to_joined(head, announcements(after.miners, addr, work), to);
    assert(head.drop_last() =~= seq![PoolActionView::Save]);
    assert(head.drop_last().drop_last() =~= seq![]);
    assert(sent_to(head.drop_last().drop_last(), to) =~= seq![]);
    assert(sent_to(head.drop_last(), to) =~= seq![]);
    assert(sent_to(head, to) =~= seq![]);
    let sent = sent_to(announcements(after.miners, addr, work), to);
    assert(sent_to(head, to) + sent =~= sent);
}

/// A nonce that solves the work that the server handed out is accepted, as long as no other
/// block has come in between.
pub proof fn law_solved_work_is_accepted(st: PoolView, job: mining::Job, nonce: u64, timestamp: u64)
    requires
        st.blockchain.chain.len() <= u64::MAX,
        work_at(st.blockchain, timestamp) == (ServerMsgView::Work {
            index: job.index,
            prev_hash: job.previous_hash@,
            difficulty: job.difficulty,
            timestamp: job.timestamp,
            data: job.data@,
            reward: blockchain::reward_at(st.blockchain.chain.len()),
        }),
        job.solved_by(nonce),
    ensures
        accepts(st, true, job.index, job.hash_with(nonce)),
{
}

/// A miner that joins and leaves again leaves the others as they were.
pub proof fn law_joining_and_leaving_cancel_out(miners: Seq<MinerView>, miner: MinerView)
    requires
        place(miners, miner.addr) is None,
    ensures
        without_miner(with_miner(miners, miner), miner.addr) == miners,
{
    let joined = miners.push(miner);
    assert(joined.last() == miner);
    assert(joined.remove(joined.len() - 1) =~= miners);
}

/// After a connection has ended, no miner of its address is in the pool.
pub proof fn law_nobody_stays_after_leaving(miners: Seq<MinerView>, addr: Seq<char>)
    requires
        distinct(miners),
    ensures
        place(without_miner(miners, addr), addr) is None,
{
    let left = without_miner(miners, addr);
    lemma_place(miners, addr);
    lemma_place(left, addr);
    match (place(miners, addr), place(left, addr)) {
        (Some(k), Some(i)) => {
            let a = if i < k { i } else { i + 1 };
            assert(left[i] == miners[a]);
            assert(miners[a].addr != miners[k].addr) by {
                if a < k {
                } else {
                    assert(k < a);
                }
            }
        },
        _ => {},
    }
}

// ---- Figures for the dashboard ---------------------------------------------------------------

/// The hash rates of some miners, added up.
pub open spec fn hashrate_sum(miners: Seq<MinerView>) -> nat
    decreases miners.len(),
{
    if miners.len() == 0 {
        0
    } else {
        hashrate_sum(miners.drop_last()) + miners.last().hashrate as nat
    }
}

proof fn lemma_hashrate_sum_grows(miners: Seq<MinerView>, k: int)
    requires
        0 <= k <= miners.len(),
    ensures
        hashrate_sum(miners.take(k)) <= hashrate_sum(miners),
    decreases miners.len() - k,
{
    if k < miners.len() {
        lemma_hashrate_sum_grows(miners, k + 1);
        assert(miners.take(k + 1).drop_last() =~= miners.take(k));
    } else {
        assert(miners.take(k) =~= miners);
    }
}

/// What the dashboard shows of a miner.
pub struct MinerStats {
    pub name: String,
    pub hashrate: u64,
    pub blocks_found: u64,
    pub uptime_secs: u64,
}

/// What the dashboard shows of a miner.
#[verifier::ext_equal]
pub struct MinerStatsView {
    pub name: Seq<char>,
    pub hashrate: u64,
    pub blocks_found: u64,
    pub uptime_secs: u64,
}

impl View for MinerStats {
    type V = MinerStatsView;

    open spec fn view(&self) -> MinerStatsView {
        MinerStatsView {
            name: self.name@,
            hashrate: self.hashrate,
            blocks_found: self.blocks_found,
            uptime_secs: self.uptime_secs,
        }
    }
}

/// The whole seconds between two readings of the clock that never runs backwards; none if they
/// come in the wrong order.
pub open spec fn secs_between(from: u64, to: u64) -> u64 {
    if to >= from {
        ((to - from) / 1_000_000_000) as u64
    } else {
        0
    }
}

/// The whole seconds between two readings of the clock that never runs backwards.
pub fn whole_secs_between(from: u64, to: u64) -> (secs: u64)
    ensures
        secs == secs_between(from, to),
{
    if to >= from { (to - from) / 1_000_000_000 } else { 0 }
}

/// What the dashboard shows of a miner at a given reading of the clock.
pub open spec fn miner_stats(m: MinerView, now: u64) -> MinerStatsView {
    MinerStatsView {
        name: m.name,
        hashrate: m.hashrate,
        blocks_found: m.blocks_found,
        uptime_secs: secs_between(m.joined, now),
    }
}

/// What the dashboard shows of a block.
pub struct RecentBlock {
    pub index: u64,
    pub hash: String,
    pub difficulty: usize,
    pub miner: String,
    pub reward: Double,
    pub timestamp: u64,
}

/// What the dashboard shows of a block.
#[verifier::ext_equal]
pub struct RecentBlockView {
    pub index: u64,
    pub hash: Seq<char>,
    pub difficulty: usize,
    pub miner: Seq<char>,
    pub reward: Double,
    pub timestamp: u64,
}

impl View for RecentBlock {
    type V = RecentBlockView;

    open spec fn view(&self) -> RecentBlockView {
        RecentBlockView {
            index: self.index,
            hash: self.hash@,
            difficulty: self.difficulty,
            miner: self.miner@,
            reward: self.reward,
            timestamp: self.timestamp,
        }
    }
}

/// What the dashboard shows of a block.
pub open spec fn shown(b: BlockView) -> RecentBlockView {
    RecentBlockView {
        index: b.index,
        hash: b.hash,
        difficulty: b.difficulty,
        miner: b.miner,
        reward: b.reward,
        timestamp: b.timestamp,
    }
}

/// The blocks of a chain that were mined: all but those of index zero.
pub open spec fn mined(chain: Seq<BlockView>) -> Seq<RecentBlockView>
    decreases chain.len(),
{
    if chain.len() == 0 {
        seq![]
    } else if chain.last().index > 0 {
        mined(chain.drop_last()).push(shown(chain.last()))
    } else {
        mined(chain.drop_last())
    }
}

/// The blocks that the dashboard shows: the last twenty that were mined, the oldest first.
pub open spec fn recent(chain: Seq<BlockView>) -> Seq<RecentBlockView> {
    let all = mined(chain);
    if all.len() > RECENT_BLOCKS {
        all.skip(all.len() - RECENT_BLOCKS)
    } else {
        all
    }
}

fn show(b: &Block) -> (r: RecentBlock)
    ensures
        r@ == shown(b@),
{
    RecentBlock {
        index: b.index,
        hash: b.hash.clone(),
        difficulty: b.difficulty,
        miner: b.miner.clone(),
        reward: b.reward,
        timestamp: b.timestamp,
    }
}

/// The figures of the pool.
pub struct PoolStats {
    pub chain_length: usize,
    pub difficulty: usize,
    pub total_mined: Double,
    pub blocks_total: u64,
    pub total_hashrate: u64,
    pub miners: Vec<MinerStats>,
    pub recent_blocks: Vec<RecentBlock>,
}

/// The figures of the pool.
#[verifier::ext_equal]
pub struct PoolStatsView {
    pub chain_length: nat,
    pub difficulty: usize,
    pub total_mined: Double,
    pub blocks_total: u64,
    pub total_hashrate: nat,
    pub miners: Seq<MinerStatsView>,
    pub recent_blocks: Seq<RecentBlockView>,
}

impl View for PoolStats {
    type V = PoolStatsView;

    open spec fn view(&self) -> PoolStatsView {
        PoolStatsView {
            chain_length: self.chain_length as nat,
            difficulty: self.difficulty,
            total_mined: self.total_mined,
            blocks_total: self.blocks_total,
            total_hashrate: self.total_hashrate as nat,
            miners: self.miners@.map_values(|m: MinerStats| m@),
            recent_blocks: self.recent_blocks@.map_values(|b: RecentBlock| b@),
        }
    }
}

/// The figures of the pool at a given reading of the clock that never runs backwards.
pub open spec fn figures(st: PoolView, now: u64) -> PoolStatsView {
    PoolStatsView {
        chain_length: st.blockchain.chain.len(),
        difficulty: st.blockchain.difficulty,
        total_mined: st.blockchain.total_mined,
        blocks_total: st.blocks_total,
        total_hashrate: hashrate_sum(st.miners),
        miners: st.miners.map_values(|m: MinerView| miner_stats(m, now)),
        recent_blocks: recent(st.blockchain.chain),
    }
}

impl PoolState {
    /// Whether the hash rates of the miners can be added up.
    pub fn hashrates_fit(&self) -> (yes: bool)
        ensures
            yes == (hashrate_sum(self@.miners) <= u64::MAX),
    {
        let mut sum: u64 = 0;
        let mut i: usize = 0;
        assert(self@.miners.take(0) =~= seq![]);
        while i < self.miners.len()
            invariant
                i <= self.miners@.len(),
                sum == hashrate_sum(self@.miners.take(i as int)),
            decreases self.miners@.len() - i,
        {
            proof {
                let next = self@.miners.take(i + 1);
                assert(next.drop_last() =~= self@.miners.take(i as int));
                assert(next.last() == self.miners@[i as int]@);
                lemma_hashrate_sum_grows(self@.miners, i + 1);
            }
            match sum.checked_add(self.miners[i].hashrate) {
                Some(s) => {
                    sum = s;
                },
                None => {
                    return false;
                },
            }
            i = i + 1;
        }
        assert(self@.miners.take(i as int) =~= self@.miners);
        true
    }

    /// The hash rate of the whole pool.
    pub fn total_hashrate(&self) -> (sum: u64)
        requires
            hashrate_sum(self@.miners) <= u64::MAX,
        ensures
            sum == hashrate_sum(self@.miners),
    {
        let mut sum: u64 = 0;
        let mut i: usize = 0;
        assert(self@.miners.take(0) =~= seq![]);
        while i < self.miners.len()
            invariant
                i <= self.miners@.len(),
                hashrate_sum(self@.miners) <= u64::MAX,
                sum == hashrate_sum(self@.miners.take(i as int)),
            decreases self.miners@.len() - i,
        {
            proof {
                let next = self@.miners.take(i + 1);
                assert(next.drop_last() =~= self@.miners.take(i as int));
                assert(next.last() == self.miners@[i as int]@);
                lemma_hashrate_sum_grows(self@.miners, i + 1);
            }
            sum = sum + self.miners[i].hashrate;
            i = i + 1;
        }
        assert(self@.miners.take(i as int) =~= self@.miners);
        sum
    }

    /// What the dashboard shows of the miners.
    fn miner_figures(&self, now: u64) -> (miners: Vec<MinerStats>)
        ensures
            miners@.map_values(|m: MinerStats| m@) == self@.miners.map_values(
                |m: MinerView| miner_stats(m, now),
            ),
    {
        let mut miners: Vec<MinerStats> = Vec::new();
        let mut i: usize = 0;
        while i < self.miners.len()
            invariant
                i <= self.miners@.len(),
                miners@.len() == i,
                forall|j: int|
                    0 <= j < i ==> (#[trigger] miners@[j])@ == miner_stats(self.miners@[j]@, now),
            decreases self.miners@.len() - i,
        {
            let m = &self.miners[i];
            miners.push(
                MinerStats {
                    name: m.name.clone(),
                    hashrate: m.hashrate,
                    blocks_found: m.blocks_found,
                    uptime_secs: whole_secs_between(m.joined, now),
                },
            );
            i = i + 1;
        }
        assert(miners@.map_values(|m: MinerStats| m@) =~= self@.miners.map_values(
            |m: MinerView| miner_stats(m, now),
        ));
        miners
    }

    /// The blocks that the dashboard shows.
    pub fn recent_blocks(&self) -> (blocks: Vec<RecentBlock>)
        ensures
            blocks@.map_values(|b: RecentBlock| b@) == recent(self@.blockchain.chain),
    {
        let ghost chain = self@.blockchain.chain;
        let len: usize = self.blockchain.chain.len();
        let mut count: usize = 0;
        let mut i: usize = 0;
        assert(chain.take(0) =~= seq![]);
        while i < len
            invariant
                i <= len,
                len == self.blockchain.chain@.len(),
                chain == self@.blockchain.chain,
                count == mined(chain.take(i as int)).len(),
                count <= i,
            decreases len - i,
        {
            assert(chain.take(i + 1).drop_last() =~= chain.take(i as int));
            assert(chain.take(i + 1).last() == self.blockchain.chain@[i as int]@);
            if self.blockchain.chain[i].index > 0 {
                count = count + 1;
            }
            i = i + 1;
        }
        assert(chain.take(len as int) =~= chain);
        let skipped: usize = if count > RECENT_BLOCKS { count - RECENT_BLOCKS } else { 0 };
        let mut blocks: Vec<RecentBlock> = Vec::new();
        let mut seen: usize = 0;
        i = 0;
        assert(mined(chain.take(0)).skip(0) =~= seq![]);
        assert(blocks@.map_values(|b: RecentBlock| b@) =~= seq![]);
        while i < len
            invariant
                i <= len,
                len == self.blockchain.chain@.len(),
                chain == self@.blockchain.chain,
                seen == mined(chain.take(i as int)).len(),
                seen <= i,
                blocks@.map_values(|b: RecentBlock| b@) == (if seen > skipped {
                    mined(chain.take(i as int)).skip(skipped as int)
                } else {
                    seq![]
                }),
            decreases len - i,
        {
            let ghost so_far = mined(chain.take(i as int));
            let ghost before = blocks@.map_values(|b: RecentBlock| b@);
            assert(chain.take(i + 1).drop_last() =~= chain.take(i as int));
            assert(chain.take(i + 1).last() == self.blockchain.chain@[i as int]@);
            if self.blockchain.chain[i].index > 0 {
                seen = seen + 1;
                if seen > skipped {
                    let block = show(&self.blockchain.chain[i]);
                    let ghost view = block@;
                    blocks.push(block);
                    assert(blocks@.map_values(|b: RecentBlock| b@) =~= before.push(view));
                    assert(so_far.push(view).skip(skipped as int) =~= before.push(view));
                }
            }
            i = i + 1;
        }
        assert(chain.take(len as int) =~= chain);
        assert(mined(chain).skip(0) =~= mined(chain));
        blocks
    }

    /// The figures of the pool at a given reading of the clock that never runs backwards.
    pub fn to_stats(&self, now: u64) -> (stats: PoolStats)
        requires
            hashrate_sum(self@.miners) <= u64::MAX,
        ensures
            stats.chain_length == self@.blockchain.chain.len(),
            stats.difficulty == self@.blockchain.difficulty,
            stats.total_mined == self@.blockchain.total_mined,
            stats.blocks_total == self@.blocks_total,
            stats.total_hashrate == hashrate_sum(self@.miners),
            stats.miners@.map_values(|m: MinerStats| m@) == self@.miners.map_values(
                |m: MinerView| miner_stats(m, now),
            ),
            stats.recent_blocks@.map_values(|b: RecentBlock| b@) == recent(self@.blockchain.chain),
            stats@ == figures(self@, now),
    {
        PoolStats {
            chain_length: self.blockchain.chain.len(),
            difficulty: self.blockchain.difficulty,
            total_mined: self.blockchain.total_mined,
            blocks_total: self.blocks_total,
            total_hashrate: self.total_hashrate(),
            miners: self.miner_figures(now),
            recent_blocks: self.recent_blocks(),
        }
    }
}

// ---- The server's screen -----------------------------------------------------------------------

/// The ranks by which the screen lists the miners: the higher the hash rate, the lower the rank.
pub open spec fn screen_ranks(miners: Seq<MinerView>) -> Seq<u64> {
    miners.map_values(|m: MinerView| (u64::MAX - m.hashrate) as u64)
}

impl PoolState {
    /// The places of the miners in the order in which the screen lists them: by hash rate, the
    /// highest first.
    pub fn ranking(&self) -> (places: Vec<usize>)
        ensures
            order::sorted_places(screen_ranks(self@.miners), places@),
    {
        let mut ranks: Vec<u64> = Vec::new();
        let mut i: usize = 0;
        while i < self.miners.len()
            invariant
                i <= self.miners@.len(),
                ranks@.len() == i,
                forall|j: int|
                    0 <= j < i ==> (#[trigger] ranks@[j]) == u64::MAX - self.miners@[j]@.hashrate,
            decreases self.miners@.len() - i,
        {
            ranks.push(u64::MAX - self.miners[i].hashrate);
            i = i + 1;
        }
        assert(ranks@ =~= screen_ranks(self@.miners));
        order::places_by_rank(&ranks)
    }
}

/// On the screen no miner stands above one with a higher hash rate.
pub proof fn law_ranking_goes_down(miners: Seq<MinerView>, places: Seq<usize>, i: int, j: int)
    requires
        order::sorted_places(screen_ranks(miners), places),
        0 <= i < j < places.len(),
    ensures
        miners[places[i] as int].hashrate >= miners[places[j] as int].hashrate,
{
    let ranks = screen_ranks(miners);
    assert(order::comes_before(ranks, places[i], places[j]));
    assert(ranks[places[i] as int] == u64::MAX - miners[places[i] as int].hashrate);
    assert(ranks[places[j] as int] == u64::MAX - miners[places[j] as int].hashrate);
}

/// One line of the table of miners.
pub open spec fn table_row(a: Seq<char>, b: Seq<char>, c: Seq<char>, d: Seq<char>) -> Seq<char> {
    "  "@ + text::column(a, 20) + " "@ + text::column(b, 16) + " "@ + text::column(c, 12) + " "@
        + text::column(d, 10)
}

/// One line of the table of miners.
pub fn table_row_text(a: &str, b: &str, c: &str, d: &str) -> (row: String)
    ensures
        row@ == table_row(a@, b@, c@, d@),
{
    let mut row = "  ".to_owned();
    row.append(text::column_text(a, 20).as_str());
    row.append(" ");
    row.append(text::column_text(b, 16).as_str());
    row.append(" ");
    row.append(text::column_text(c, 12).as_str());
    row.append(" ");
    row.append(text::column_text(d, 10).as_str());
    row
}

// ---- Being found ---------------------------------------------------------------------------------

/// What the server answers to those who look for it.
pub open spec fn discovery_reply(ip: Seq<char>) -> Seq<char> {
    DISCOVERY_PONG@ + "|"@ + ip + ":"@ + text::decimal(POOL_PORT as nat)
}

/// What the server answers to a datagram, if it comes from someone who looks for it.
pub open spec fn discovery_answer(datagram: Seq<char>, ip: Seq<char>) -> Option<Seq<char>> {
    if text::trimmed(datagram) == DISCOVERY_PING@ {
        Some(discovery_reply(ip))
    } else {
        None
    }
}

/// What the server answers to a datagram, if it comes from someone who looks for it.
pub fn answer_discovery(datagram: &str, ip: &str) -> (reply: Option<String>)
    ensures
        match reply {
            Some(r) => text::trimmed(datagram@) == DISCOVERY_PING@ && r@ == discovery_reply(ip@),
            None => text::trimmed(datagram@) != DISCOVERY_PING@,
        },
        (match reply {
            Some(r) => Some(r@),
            None => None,
        }) == discovery_answer(datagram@, ip@),
{
    if text::same_text(text::trim(datagram), DISCOVERY_PING) {
        let mut reply = DISCOVERY_PONG.to_owned();
        reply.append("|");
        reply.append(ip);
        reply.append(":");
        reply.append(text::u64_text(POOL_PORT as u64).as_str());
        Some(reply)
    } else {
        None
    }
}

// ---- What the server's steps come to -------------------------------------------------------------

/// The work handed out is the block that the chain takes up next: it has its number, follows the
/// chain's last block as that block will, at the same difficulty and for the same reward.
pub proof fn law_work_is_the_next_block(
    bc: BlockchainView,
    timestamp: u64,
    nonce: u64,
    hash: Seq<char>,
    attempts: u64,
    found_at: u64,
    total_mined: Double,
)
    requires
        0 < bc.chain.len() <= u64::MAX,
    ensures
        ({
            let b = blockchain::extended(
                bc,
                nonce,
                hash,
                attempts,
                found_at,
                total_mined,
            ).chain.last();
            work_at(bc, timestamp) matches ServerMsgView::Work {
                index,
                prev_hash,
                difficulty,
                timestamp: told,
                data,
                reward,
            } && {
                &&& index == b.index == bc.chain.len()
                &&& prev_hash == b.previous_hash
                &&& prev_hash == bc.chain[bc.chain.len() - 1].hash
                &&& difficulty == b.difficulty == bc.difficulty
                &&& reward == b.reward
                &&& reward == blockchain::reward_at(bc.chain.len())
                &&& told == timestamp
                &&& data == "CryptoCraft Pool Block #"@ + text::decimal(bc.chain.len())
            }
        }),
{
}

/// A miner that joins is in the list, in the place of one that had its address before, or else at
/// the end; the others stay where they were.
pub proof fn law_joining_adds_one(miners: Seq<MinerView>, miner: MinerView, i: int)
    requires
        distinct(miners),
    ensures
        ({
            let now = with_miner(miners, miner);
            let known = exists|k: int|
                0 <= k < miners.len() && (#[trigger] miners[k]).addr == miner.addr;
            &&& now.contains(miner)
            &&& now.len() == (if known {
                miners.len()
            } else {
                miners.len() + 1
            })
            &&& 0 <= i < miners.len() ==> now[i] == (if miners[i].addr == miner.addr {
                miner
            } else {
                miners[i]
            })
            &&& !known ==> now[miners.len() as int] == miner
        }),
{
    let now = with_miner(miners, miner);
    lemma_place(miners, miner.addr);
    match place(miners, miner.addr) {
        Some(k) => {
            assert(now[k] == miner);
            assert(miners[k].addr == miner.addr);
            if 0 <= i < miners.len() && i != k {
                assert(miners[i].addr != miners[k].addr);
            }
        },
        None => {
            assert(now[miners.len() as int] == miner);
        },
    }
}

/// A miner that leaves is gone; the others stay, and no one comes.
pub proof fn law_leaving_takes_one(miners: Seq<MinerView>, addr: Seq<char>, m: MinerView)
    requires
        distinct(miners),
    ensures
        without_miner(miners, addr).contains(m) <==> miners.contains(m) && m.addr != addr,
        (forall|k: int| 0 <= k < miners.len() ==> (#[trigger] miners[k]).addr != addr)
            ==> without_miner(miners, addr) == miners,
{
    let left = without_miner(miners, addr);
    lemma_place(miners, addr);
    match place(miners, addr) {
        Some(k) => {
            if left.contains(m) {
                let i = choose|i: int| 0 <= i < left.len() && left[i] == m;
                let a = if i < k {
                    i
                } else {
                    i + 1
                };
                assert(miners[a] == m);
                assert(miners[a].addr != miners[k].addr);
            }
            if miners.contains(m) && m.addr != addr {
                let a = choose|a: int| 0 <= a < miners.len() && miners[a] == m;
                let i = if a < k {
                    a
                } else {
                    a - 1
                };
                assert(left[i] == m);
            }
        },
        None => {
            if miners.contains(m) {
                let a = choose|a: int| 0 <= a < miners.len() && miners[a] == m;
                assert(miners[a].addr != addr);
            }
        },
    }
}

/// A miner that reports its hash rate is listed with it, and one that found a block with one more;
/// nothing else of it changes, and nothing of any other.
pub proof fn law_reports_concern_one(miners: Seq<MinerView>, addr: Seq<char>, hr: u64, i: int)
    requires
        distinct(miners),
        0 <= i < miners.len(),
        miners[i].blocks_found < u64::MAX,
    ensures
        with_hashrate(miners, addr, hr).len() == miners.len(),
        with_block_found(miners, addr).len() == miners.len(),
        ({
            let m = miners[i];
            let reported = with_hashrate(miners, addr, hr)[i];
            let found = with_block_found(miners, addr)[i];
            &&& m.addr != addr ==> reported == m && found == m
            &&& m.addr == addr ==> {
                &&& reported.hashrate == hr
                &&& reported.addr == m.addr && reported.email == m.email && reported.name == m.name
                &&& reported.blocks_found == m.blocks_found && reported.joined == m.joined
                &&& found.blocks_found == m.blocks_found + 1
                &&& found.addr == m.addr && found.email == m.email && found.name == m.name
                &&& found.hashrate == m.hashrate && found.joined == m.joined
            }
        }),
{
    lemma_place(miners, addr);
    match place(miners, addr) {
        Some(k) => {
            if i != k {
                assert(miners[i].addr != miners[k].addr);
            }
        },
        None => {},
    }
}

/// Whoever says hello joins under the name that was given, with nothing hashed or found yet, and is
/// sent the work for the next block; nothing else changes.
pub proof fn law_hello_is_answered_with_work(
    st: PoolView,
    addr: Seq<char>,
    email: Seq<char>,
    name: Seq<char>,
    cx: Circumstances,
)
    requires
        st.valid(),
    ensures
        ({
            let ex = exchange(st, addr, ClientMsgView::Hello { email, name }, cx);
            let miner = MinerView {
                addr,
                email: seq![],
                name,
                hashrate: 0,
                blocks_found: 0,
                joined: cx.joined,
            };
            &&& ex.authed
            &&& ex.state.miners == with_miner(st.miners, miner)
            &&& ex.state.miners.contains(miner)
            &&& ex.state.blockchain == st.blockchain
            &&& ex.state.save_file == st.save_file
            &&& ex.state.blocks_total == st.blocks_total
            &&& ex.state.bind_ip == st.bind_ip
            &&& ex.actions.len() == 1
            &&& ex.actions[0] == (PoolActionView::Reply {
                msg: ServerMsgView::Work {
                    index: st.blockchain.chain.len() as u64,
                    prev_hash: st.blockchain.chain[st.blockchain.chain.len() - 1].hash,
                    difficulty: st.blockchain.difficulty,
                    timestamp: cx.work_time,
                    data: "CryptoCraft Pool Block #"@ + text::decimal(st.blockchain.chain.len()),
                    reward: blockchain::reward_at(st.blockchain.chain.len()),
                },
            })
        }),
{
    let miner = MinerView {
        addr,
        email: seq![],
        name,
        hashrate: 0,
        blocks_found: 0,
        joined: cx.joined,
    };
    law_joining_adds_one(st.miners, miner, 0);
}

/// A submission is accepted exactly if the sender has said hello, the block is the next one, and the
/// hash begins with as many zeros as the difficulty; else nothing changes, and a sender that has said
/// hello is told that the block is stale or the hash invalid.
pub proof fn law_submissions_are_judged(
    st: PoolView,
    addr: Seq<char>,
    index: u64,
    nonce: u64,
    hash: Seq<char>,
    cx: Circumstances,
)
    requires
        st.valid(),
    ensures
        ({
            let d = st.blockchain.difficulty;
            let zeros = d <= hash.len() && forall|i: int|
                0 <= i < d ==> (#[trigger] hash[i]) == '0';
            let good = cx.authed && index == st.blockchain.chain.len() && zeros;
            let ex = exchange(st, addr, ClientMsgView::Submit { index, nonce, hash }, cx);
            &&& accepts(st, cx.authed, index, hash) <==> good
            &&& ex.authed == cx.authed
            &&& good ==> ex.state.blockchain.chain.len() == st.blockchain.chain.len() + 1
            &&& !good ==> ex.state == st
            &&& !cx.authed ==> ex.actions.len() == 0
            &&& cx.authed && index != st.blockchain.chain.len() ==> ex.actions == seq![
                PoolActionView::Reply { msg: ServerMsgView::Rejected { reason: "stale block"@ } },
            ]
            &&& cx.authed && index == st.blockchain.chain.len() && !zeros ==> ex.actions == seq![
                PoolActionView::Reply { msg: ServerMsgView::Rejected { reason: "invalid hash"@ } },
            ]
        }),
{
    mining::law_good_hashes_begin_with_zeros(hash, st.blockchain.difficulty as nat);
}

/// An accepted submission is taken up as it was sent: the chain grows by a block with its nonce and
/// hash, at the time it came, for the reward of its place; the chain is saved before the finder is
/// told of the reward; and the pool counts one block more.
pub proof fn law_accepted_submission_is_taken_up(
    st: PoolView,
    addr: Seq<char>,
    index: u64,
    nonce: u64,
    hash: Seq<char>,
    cx: Circumstances,
)
    requires
        accepts(st, cx.authed, index, hash),
        st.valid(),
        st.blocks_total < u64::MAX,
    ensures
        ({
            let ex = exchange(st, addr, ClientMsgView::Submit { index, nonce, hash }, cx);
            let n = st.blockchain.chain.len() as int;
            let bc = ex.state.blockchain;
            let b = bc.chain[n];
            &&& bc.chain.len() == n + 1
            &&& forall|i: int| 0 <= i < n ==> (#[trigger] bc.chain[i]) == st.blockchain.chain[i]
            &&& b.index == n
            &&& b.nonce == nonce
            &&& b.hash == hash
            &&& b.timestamp == cx.block_time
            &&& b.previous_hash == st.blockchain.chain[n - 1].hash
            &&& b.difficulty == st.blockchain.difficulty
            &&& b.miner == st.blockchain.miner_name
            &&& b.reward == blockchain::reward_at(n as nat)
            &&& bc.total_mined == cx.total_mined
            &&& ex.state.blocks_total == st.blocks_total + 1
            &&& ex.state.miners == with_block_found(st.miners, addr)
            &&& ex.state.save_file == st.save_file
            &&& ex.state.bind_ip == st.bind_ip
            &&& ex.actions.len() >= 2
            &&& ex.actions[0] == PoolActionView::Save
            &&& ex.actions[1] == (PoolActionView::Reply {
                msg: ServerMsgView::Accepted {
                    block_index: index,
                    reward: blockchain::reward_at(n as nat),
                },
            })
            &&& forall|k: int|
                2 <= k < ex.actions.len() ==> (#[trigger] ex.actions[k]) is Send
        }),
{
    let after = after_accept(st, addr, nonce, hash, cx);
    let work = work_at(after.blockchain, cx.work_time);
    lemma_announcements_are_sent(after.miners, addr, work);
    let ex = exchange(st, addr, ClientMsgView::Submit { index, nonce, hash }, cx);
    let told = announcements(after.miners, addr, work);
    assert forall|k: int| 2 <= k < ex.actions.len() implies (#[trigger] ex.actions[k]) is Send by {
        assert(ex.actions[k] == told[k - 2]);
    }
}

proof fn lemma_announcements_are_sent(
    miners: Seq<MinerView>,
    finder: Seq<char>,
    work: ServerMsgView,
)
    ensures
        forall|k: int|
            0 <= k < announcements(miners, finder, work).len() ==> (#[trigger] announcements(
                miners,
                finder,
                work,
            )[k]) is Send,
    decreases miners.len(),
{
    if miners.len() > 0 {
        lemma_announcements_are_sent(miners.drop_last(), finder, work);
        let rest = announcements(miners.drop_last(), finder, work);
        let all = announcements(miners, finder, work);
        assert forall|k: int| 0 <= k < all.len() implies (#[trigger] all[k]) is Send by {
            if k < rest.len() {
                assert(all[k] == rest[k]);
            }
        }
    }
}

/// A report of a hash rate is taken down without an answer; a farewell ends the conversation and
/// changes nothing.
pub proof fn law_reports_and_farewells(st: PoolView, addr: Seq<char>, hr: u64, cx: Circumstances)
    ensures
        ({
            let told = exchange(st, addr, ClientMsgView::Hashrate { hr }, cx);
            let left = exchange(st, addr, ClientMsgView::Bye, cx);
            &&& told.authed == cx.authed
            &&& told.actions.len() == 0
            &&& told.state == (PoolView { miners: with_hashrate(st.miners, addr, hr), ..st })
            &&& left.authed == cx.authed
            &&& left.state == st
            &&& left.actions == seq![PoolActionView::Close]
        }),
{
}

/// A message can be dealt with at any time, unless it brings a good block that the chain cannot take
/// up then or that can no longer be counted.
pub proof fn law_when_messages_can_be_dealt_with(
    st: PoolView,
    addr: Seq<char>,
    msg: ClientMsgView,
    authed: bool,
    block_time: u64,
)
    ensures
        !(msg is Submit) ==> answerable(st, addr, msg, authed, block_time),
        msg matches ClientMsgView::Submit { index, nonce, hash } ==> {
            &&& !accepts(st, authed, index, hash) ==> answerable(st, addr, msg, authed, block_time)
            &&& blockchain::extendable(st.blockchain, block_time) && st.blocks_total < u64::MAX && (
            forall|k: int|
                0 <= k < st.miners.len() ==> (#[trigger] st.miners[k]).blocks_found < u64::MAX)
                ==> answerable(st, addr, msg, authed, block_time)
            &&& accepts(st, authed, index, hash) && !blockchain::extendable(
                st.blockchain,
                block_time,
            ) ==> !answerable(st, addr, msg, authed, block_time)
        },
{
    lemma_place(st.miners, addr);
}

// ---- What the figures say ----------------------------------------------------------------------------

/// The hash rates of a pool are added up one by one.
pub proof fn law_pool_hash_rates_add_up(miners: Seq<MinerView>, m: MinerView)
    ensures
        hashrate_sum(seq![]) == 0,
        hashrate_sum(miners.push(m)) == hashrate_sum(miners) + m.hashrate,
{
    assert(miners.push(m).drop_last() =~= miners);
}

/// Whole seconds are those that have passed in full; none where the readings are in the wrong order.
pub proof fn law_whole_seconds(from: u64, to: u64)
    ensures
        to >= from ==> secs_between(from, to) * 1_000_000_000 <= to - from < (secs_between(from, to)
            + 1) * 1_000_000_000,
        to < from ==> secs_between(from, to) == 0,
{
}

/// The dashboard shows a miner as it is, with the whole seconds since it joined.
pub proof fn law_miners_are_shown_as_they_are(m: MinerView, now: u64)
    ensures
        miner_stats(m, now).name == m.name,
        miner_stats(m, now).hashrate == m.hashrate,
        miner_stats(m, now).blocks_found == m.blocks_found,
        miner_stats(m, now).uptime_secs == (if now >= m.joined {
            (now - m.joined) / 1_000_000_000
        } else {
            0
        }),
{
}

/// The mined blocks follow the chain block by block: all but those of index zero, each as it is.
pub proof fn law_mined_follows_the_chain(chain: Seq<BlockView>, b: BlockView)
    ensures
        mined(seq![]) == Seq::<RecentBlockView>::empty(),
        b.index == 0 ==> mined(chain.push(b)) == mined(chain),
        b.index > 0 ==> mined(chain.push(b)) == mined(chain).push(
            RecentBlockView {
                index: b.index,
                hash: b.hash,
                difficulty: b.difficulty,
                miner: b.miner,
                reward: b.reward,
                timestamp: b.timestamp,
            },
        ),
{
    assert(chain.push(b).drop_last() =~= chain);
}

/// The dashboard shows the newest mined blocks, the newest last: all of them while there are no more
/// than twenty, and else the last twenty.
pub proof fn law_newest_blocks_are_shown(chain: Seq<BlockView>, i: int)
    ensures
        recent(chain).len() == (if mined(chain).len() <= 20 {
            mined(chain).len()
        } else {
            20
        }),
        0 <= i < recent(chain).len() ==> recent(chain)[recent(chain).len() - 1 - i] == mined(
            chain,
        )[mined(chain).len() - 1 - i],
{
}

/// On the screen miners with the same hash rate stay in their order, and every miner stands once.
pub proof fn law_ranking_is_stable(miners: Seq<MinerView>, places: Seq<usize>, i: int, j: int)
    requires
        order::sorted_places(screen_ranks(miners), places),
        0 <= i < j < places.len(),
    ensures
        places.len() == miners.len(),
        places[i] < miners.len(),
        places[j] < miners.len(),
        places[i] != places[j],
        miners[places[i] as int].hashrate == miners[places[j] as int].hashrate ==> places[i]
            < places[j],
{
    let ranks = screen_ranks(miners);
    order::law_places_are_sorted(ranks, places, i, j);
    assert(ranks[places[i] as int] == u64::MAX - miners[places[i] as int].hashrate);
    assert(ranks[places[j] as int] == u64::MAX - miners[places[j] as int].hashrate);
}

/// A line of the table has its texts in columns that begin at places 2, 23, 40 and 53, where they are
/// not too wide for them.
pub proof fn law_table_has_columns(a: Seq<char>, b: Seq<char>, c: Seq<char>, d: Seq<char>)
    requires
        a.len() <= 20,
        b.len() <= 16,
        c.len() <= 12,
        d.len() <= 10,
    ensures
        ({
            let row = table_row(a, b, c, d);
            &&& row.len() == 63
            &&& row.subrange(2, 2 + a.len() as int) == a
            &&& row.subrange(23, 23 + b.len() as int) == b
            &&& row.subrange(40, 40 + c.len() as int) == c
            &&& row.subrange(53, 53 + d.len() as int) == d
        }),
{
    reveal_strlit("  ");
    reveal_strlit(" ");
    let row = table_row(a, b, c, d);
    assert(row.subrange(2, 2 + a.len() as int) =~= a);
    assert(row.subrange(23, 23 + b.len() as int) =~= b);
    assert(row.subrange(40, 40 + c.len() as int) =~= c);
    assert(row.subrange(53, 53 + d.len() as int) =~= d);
}

/// Whoever sends the word that asks for the server, with any white space around it, is answered with
/// its address, and nobody else is answered.
pub proof fn law_whoever_looks_is_answered(
    a: Seq<char>,
    t: Seq<char>,
    b: Seq<char>,
    ip: Seq<char>,
)
    requires
        forall|i: int| 0 <= i < a.len() ==> text::white_space(#[trigger] a[i]),
        forall|i: int| 0 <= i < b.len() ==> text::white_space(#[trigger] b[i]),
        t.len() > 0 ==> !text::white_space(t[0]) && !text::white_space(t.last()),
    ensures
        t == "CRYPTOCRAFT_DISCOVER_V1"@ ==> discovery_answer(a + t + b, ip) == Some(
            "CRYPTOCRAFT_POOL_V1|"@ + ip + ":8080"@,
        ),
        t != "CRYPTOCRAFT_DISCOVER_V1"@ ==> discovery_answer(a + t + b, ip) is None,
{
    text::law_trimming_takes_off_white_space(a, t, b);
    crate::network::law_discovery_speaks_of_the_pool(ip, seq![]);
}

/// A pool is opened on its chain as it is, without miners and without blocks of its own.
pub proof fn law_pool_is_opened_on_its_chain(
    bc: BlockchainView,
    save_file: Seq<char>,
    bind_ip: Seq<char>,
)
    ensures
        ({
            let st = empty_pool(bc, save_file, bind_ip);
            &&& st.blockchain == bc
            &&& st.save_file == save_file
            &&& st.bind_ip == bind_ip
            &&& st.miners.len() == 0
            &&& st.blocks_total == 0
        }),
{
}

/// The figures say of the pool what is so: the length and difficulty of its chain, what was mined and
/// found, the sum of the hash rates, every miner in its place, and the newest blocks.
pub proof fn law_figures_are_those_of_the_pool(st: PoolView, now: u64, i: int)
    ensures
        ({
            let f = figures(st, now);
            &&& f.chain_length == st.blockchain.chain.len()
            &&& f.difficulty == st.blockchain.difficulty
            &&& f.total_mined == st.blockchain.total_mined
            &&& f.blocks_total == st.blocks_total
            &&& f.total_hashrate == hashrate_sum(st.miners)
            &&& f.miners.len() == st.miners.len()
            &&& 0 <= i < st.miners.len() ==> {
                &&& f.miners[i].name == st.miners[i].name
                &&& f.miners[i].hashrate == st.miners[i].hashrate
                &&& f.miners[i].blocks_found == st.miners[i].blocks_found
                &&& f.miners[i].uptime_secs == secs_between(st.miners[i].joined, now)
            }
            &&& f.recent_blocks == recent(st.blockchain.chain)
        }),
{
}

} // verus!
