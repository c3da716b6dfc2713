//! Crediting a solo miner's rewards on the server, and finding the server for it.

use crate::blockchain::{Block, Blockchain, BlockView, BlockchainView};
use crate::double::Double;
use crate::network;
use crate::pool_server;
use crate::text;
use vstd::prelude::*;
use vstd::string::StringExecFns;

verus! {

/// The file that remembers the server.
pub const SERVER_CONFIG_FILE: &'static str = "cryptocraft_server.txt";

/// How long the server is given to answer, in seconds.
pub const SYNC_TIMEOUT_SECS: u64 = 4;

/// Where the server takes the blocks of solo miners.
pub const SYNC_PATH: &'static str = "/sync";

// ---- What is sent --------------------------------------------------------------------------

/// A block whose reward is to be credited.
pub struct SyncBlock {
    pub index: u64,
    pub reward: Double,
    pub timestamp: u64,
    pub hash: String,
}

/// What is said of a block whose reward is to be credited.
#[verifier::ext_equal]
pub struct SyncBlockView {
    pub index: u64,
    pub reward: Double,
    pub timestamp: u64,
    pub hash: Seq<char>,
}

impl View for SyncBlock {
    type V = SyncBlockView;

    open spec fn view(&self) -> SyncBlockView {
        SyncBlockView {
            index: self.index,
            reward: self.reward,
            timestamp: self.timestamp,
            hash: self.hash@,
        }
    }
}

/// The blocks that a miner wants credited.
pub struct SyncRequest {
    pub email: String,
    pub blocks: Vec<SyncBlock>,
}

/// The answer of the server.
pub struct SyncResponse {
    pub ok: bool,
    pub blocks_credited: u64,
    pub message: String,
}

/// Whether the reward of a block is still to be credited: the block was mined after the last one
/// that was credited, and it earned something.
pub open spec fn pending(b: BlockView, synced_through: u64) -> bool {
    b.index > 0 && b.index > synced_through && (Double { bits: 0 }).less(b.reward)
}

/// What is said of a block.
pub open spec fn reported(b: BlockView) -> SyncBlockView {
    SyncBlockView { index: b.index, reward: b.reward, timestamp: b.timestamp, hash: b.hash }
}

/// The blocks of a chain whose rewards are still to be credited, in the order of the chain.
pub open spec fn unsynced(chain: Seq<BlockView>, synced_through: u64) -> Seq<SyncBlockView>
    decreases chain.len(),
{
    if chain.len() == 0 {
        seq![]
    } else if pending(chain.last(), synced_through) {
        unsynced(chain.drop_last(), synced_through).push(reported(chain.last()))
    } else {
        unsynced(chain.drop_last(), synced_through)
    }
}

/// The blocks of a request, as they are.
pub open spec fn request_blocks(request: SyncRequest) -> Seq<SyncBlockView> {
    request.blocks@.map_values(|b: SyncBlock| b@)
}

fn is_pending(b: &Block, synced_through: u64) -> (yes: bool)
    ensures
        yes == pending(b@, synced_through),
{
    let zero = Double { bits: 0 };
    b.index > 0 && b.index > synced_through && zero.less_than(&b.reward)
}

/// The blocks of a chain whose rewards are still to be credited.
pub fn collect_unsynced(bc: &Blockchain) -> (blocks: Vec<SyncBlock>)
    ensures
        blocks@.map_values(|b: SyncBlock| b@) == unsynced(bc@.chain, bc@.synced_through),
{
    let ghost chain = bc@.chain;
    let mut blocks: Vec<SyncBlock> = Vec::new();
    let mut i: usize = 0;
    assert(chain.take(0) =~= seq![]);
    assert(blocks@.map_values(|b: SyncBlock| b@) =~= seq![]);
    while i < bc.chain.len()
        invariant
            i <= bc.chain@.len(),
            chain == bc@.chain,
            blocks@.map_values(|b: SyncBlock| b@) == unsynced(
                chain.take(i as int),
                bc@.synced_through,
            ),
        decreases bc.chain@.len() - i,
    {
        let ghost so_far = blocks@.map_values(|b: SyncBlock| b@);
        assert(chain.take(i + 1).drop_last() =~= chain.take(i as int));
        assert(chain.take(i + 1).last() == bc.chain@[i as int]@);
        let b = &bc.chain[i];
        if is_pending(b, bc.synced_through) {
            let block = SyncBlock {
                index: b.index,
                reward: b.reward,
                timestamp: b.timestamp,
                hash: b.hash.clone(),
            };
            let ghost view = block@;
            blocks.push(block);
            assert(blocks@.map_values(|b: SyncBlock| b@) =~= so_far.push(view));
        }
        i = i + 1;
    }
    assert(chain.take(i as int) =~= chain);
    blocks
}

/// What is to be done about rewards that have not been credited.
pub enum SyncPlan {
    /// There is no server to send them to.
    Unreachable,
    /// There are none.
    UpToDate,
    /// They are sent to the server of an address.
    Post { server: String, request: SyncRequest },
}

/// What is to be done about rewards that have not been credited.
#[verifier::ext_equal]
pub enum SyncPlanView {
    Unreachable,
    UpToDate,
    Post { server: Seq<char>, email: Seq<char>, blocks: Seq<SyncBlockView> },
}

impl View for SyncPlan {
    type V = SyncPlanView;

    open spec fn view(&self) -> SyncPlanView {
        match *self {
            SyncPlan::Unreachable => SyncPlanView::Unreachable,
            SyncPlan::UpToDate => SyncPlanView::UpToDate,
            SyncPlan::Post { server, request } => SyncPlanView::Post {
                server: server@,
                email: request.email@,
                blocks: request_blocks(request),
            },
        }
    }
}

/// What is to be done about the rewards of a chain that have not been credited: where there is a
/// server and there are such rewards, they are sent to it.
pub open spec fn sync_plan(
    bc: BlockchainView,
    email: Seq<char>,
    server: Option<Seq<char>>,
) -> SyncPlanView {
    let blocks = unsynced(bc.chain, bc.synced_through);
    match server {
        None => SyncPlanView::Unreachable,
        Some(addr) => if blocks.len() == 0 {
            SyncPlanView::UpToDate
        } else {
            SyncPlanView::Post { server: addr, email, blocks }
        },
    }
}

/// Decides what is to be done about rewards that have not been credited, given the address of
/// the server, if one was found.
pub fn try_sync(bc: &Blockchain, email: &str, server: Option<String>) -> (plan: SyncPlan)
    ensures
        match plan {
            SyncPlan::Unreachable => server is None,
            SyncPlan::UpToDate => server is Some && unsynced(
                bc@.chain,
                bc@.synced_through,
            ).len() == 0,
            SyncPlan::Post { server: addr, request } => {
                &&& server == Some(addr)
                &&& request.email@ == email@
                &&& request_blocks(request) == unsynced(bc@.chain, bc@.synced_through)
                &&& request_blocks(request).len() > 0
            },
        },
        plan@ == sync_plan(
            bc@,
            email@,
            match server {
                Some(addr) => Some(addr@),
                None => None,
            },
        ),
{
    match server {
        None => SyncPlan::Unreachable,
        Some(addr) => {
            let blocks = collect_unsynced(bc);
            assert(blocks@.map_values(|b: SyncBlock| b@).len() == blocks@.len());
            if blocks.len() == 0 {
                SyncPlan::UpToDate
            } else {
                SyncPlan::Post {
                    server: addr,
                    request: SyncRequest { email: email.to_owned(), blocks },
                }
            }
        },
    }
}

/// What a chain remembers once the server has answered to some blocks: where it has credited them,
/// that they are.
pub open spec fn answered_chain(
    bc: BlockchainView,
    sent: Seq<SyncBlockView>,
    ok: bool,
) -> BlockchainView {
    if ok {
        BlockchainView { synced_through: sent.last().index, ..bc }
    } else {
        bc
    }
}

/// Takes in the answer of the server to a request. Only where the server has credited the blocks
/// does the chain remember that they are; gives whether it has.
pub fn finish_sync(bc: &mut Blockchain, request: &SyncRequest, response: &Option<SyncResponse>) -> (
synced: bool)
    requires
        request.blocks@.len() > 0,
    ensures
        synced == (response matches Some(r) && r.ok),
        synced ==> final(bc)@ == (BlockchainView {
            synced_through: request_blocks(*request).last().index,
            ..old(bc)@
        }),
        !synced ==> *final(bc) == *old(bc),
        final(bc)@ == answered_chain(
            old(bc)@,
            request_blocks(*request),
            response matches Some(r) && r.ok,
        ),
{
    match response {
        Some(r) => {
            if r.ok {
                let last: u64 = request.blocks[request.blocks.len() - 1].index;
                bc.synced_through = last;
                true
            } else {
                false
            }
        },
        None => false,
    }
}

// ---- What syncing promises -----------------------------------------------------------------

/// Whether the blocks of a chain have growing indices.
pub open spec fn growing(chain: Seq<BlockView>) -> bool {
    forall|i: int, j: int|
        0 <= i < j < chain.len() ==> (#[trigger] chain[i]).index < (#[trigger] chain[j]).index
}

/// A chain whose blocks are numbered in order has growing indices.
pub proof fn law_linked_chain_grows(chain: Seq<BlockView>)
    requires
        crate::blockchain::linked(chain),
    ensures
        growing(chain),
{
}

/// What is sent are blocks of the chain beyond those that were credited.
proof fn lemma_unsynced(chain: Seq<BlockView>, synced_through: u64)
    requires
        growing(chain),
    ensures
        forall|i: int|
            0 <= i < unsynced(chain, synced_through).len() ==> (#[trigger] unsynced(
                chain,
                synced_through,
            )[i]).index > synced_through && exists|k: int|
                0 <= k < chain.len() && pending(chain[k], synced_through)
                    && #[trigger] reported(chain[k]) == unsynced(chain, synced_through)[i],
        forall|k: int|
            0 <= k < chain.len() && pending(#[trigger] chain[k], synced_through) ==> {
                let all = unsynced(chain, synced_through);
                all.len() > 0 && chain[k].index <= all.last().index
            },
        unsynced(chain, synced_through).len() > 0 ==> exists|k: int|
            0 <= k < chain.len() && (#[trigger] chain[k]).index == unsynced(
                chain,
                synced_through,
            ).last().index,
    decreases chain.len(),
{
    if chain.len() > 0 {
        let front = chain.drop_last();
        let all = unsynced(chain, synced_through);
        let less = unsynced(front, synced_through);
        assert forall|i: int, j: int| 0 <= i < j < front.len() implies (#[trigger] front[i]).index
            < (#[trigger] front[j]).index by {
            assert(chain[i].index < chain[j].index);
        }
        lemma_unsynced(front, synced_through);
        assert forall|i: int| 0 <= i < all.len() implies (#[trigger] all[i]).index > synced_through
            && exists|k: int|
            0 <= k < chain.len() && pending(chain[k], synced_through) && #[trigger] reported(
                chain[k],
            ) == all[i] by {
            if i < less.len() {
                assert(all[i] == less[i]);
                let k = choose|k: int|
                    0 <= k < front.len() && pending(front[k], synced_through)
                        && #[trigger] reported(front[k]) == less[i];
                assert(reported(chain[k]) == all[i]);
            } else {
                assert(reported(chain[chain.len() - 1]) == all[i]);
            }
        }
        assert forall|k: int|
            0 <= k < chain.len() && pending(#[trigger] chain[k], synced_through) implies all.len()
            > 0 && chain[k].index <= all.last().index by {
            if k < front.len() {
                assert(pending(front[k], synced_through));
                assert(chain[k].index < chain[chain.len() - 1].index);
            }
        }
        if all.len() > 0 {
            if pending(chain.last(), synced_through) {
                assert(chain[chain.len() - 1].index == all.last().index);
            } else {
                let k = choose|k: int|
                    0 <= k < front.len() && (#[trigger] front[k]).index == less.last().index;
                assert(chain[k].index == all.last().index);
            }
        }
    }
}

/// Every block that is sent lies beyond those that were credited before and within those that
/// are credited afterwards: no reward is credited twice.
pub proof fn law_nothing_is_credited_twice(chain: Seq<BlockView>, synced_through: u64, i: int)
    requires
        growing(chain),
        0 <= i < unsynced(chain, synced_through).len(),
    ensures
        synced_through < unsynced(chain, synced_through)[i].index <= unsynced(
            chain,
            synced_through,
        ).last().index,
{
    lemma_unsynced(chain, synced_through);
    let all = unsynced(chain, synced_through);
    assert(all[i].index > synced_through);
    let k = choose|k: int|
        0 <= k < chain.len() && pending(chain[k], synced_through) && #[trigger] reported(chain[k])
            == all[i];
    assert(pending(chain[k], synced_through));
}

/// Once the server has credited what was sent, nothing is left to send.
pub proof fn law_syncing_leaves_nothing(chain: Seq<BlockView>, synced_through: u64)
    requires
        growing(chain),
        unsynced(chain, synced_through).len() > 0,
    ensures
        unsynced(chain, unsynced(chain, synced_through).last().index).len() == 0,
{
    lemma_unsynced(chain, synced_through);
    let last = unsynced(chain, synced_through).last().index;
    assert(unsynced(chain, synced_through)[unsynced(chain, synced_through).len() - 1].index
        > synced_through);
    lemma_unsynced(chain, last);
    let rest = unsynced(chain, last);
    if rest.len() > 0 {
        assert(rest[0].index > last);
        let k = choose|k: int|
            0 <= k < chain.len() && pending(chain[k], last) && #[trigger] reported(chain[k])
                == rest[0];
        assert(pending(chain[k], synced_through));
        assert(chain[k].index <= last);
    }
}

// ---- Addresses -----------------------------------------------------------------------------

/// The address of a page on a server.
pub open spec fn page_url(server: Seq<char>, page: Seq<char>) -> Seq<char> {
    "http://"@ + server + page
}

/// The address at which a server is asked whether it is there.
pub fn status_url(server: &str) -> (url: String)
    ensures
        url@ == page_url(server@, "/status"@),
{
    let mut url = "http://".to_owned();
    url.append(server);
    url.append("/status");
    url
}

/// The address of the figures of a pool.
pub fn pool_stats_url(server: &str) -> (url: String)
    ensures
        url@ == page_url(server@, "/pool_stats"@),
{
    let mut url = "http://".to_owned();
    url.append(server);
    url.append("/pool_stats");
    url
}

/// The address at which a server is asked for a balance; in the account's name the at signs and
/// the dots are escaped.
pub fn balance_url(server: &str, email: &str) -> (url: String)
    ensures
        url@ == page_url(
            server@,
            "/balance?email="@ + text::replaced(
                text::replaced(email@, '@', "%40"@),
                '.',
                "%2E"@,
            ),
        ),
{
    let escaped = text::replace_char(text::replace_char(email, '@', "%40").as_str(), '.', "%2E");
    let mut url = "http://".to_owned();
    url.append(server);
    url.append("/balance?email=");
    url.append(escaped.as_str());
    assert(url@ =~= page_url(
        server@,
        "/balance?email="@ + text::replaced(text::replaced(email@, '@', "%40"@), '.', "%2E"@),
    ));
    url
}

/// The bits of the number that stands under a key in a JSON object.
pub uninterp spec fn json_number(json: Seq<char>, key: Seq<char>) -> Option<u64>;

/// Trusted: `serde_json::from_str` reads a text as a JSON value, `Value::index` gives what stands
/// under a key of it, and `Value::as_f64` gives that as a double where it is a number. What comes
/// of it is a function of the text and the key alone. Which texts are JSON is not stated.
#[verifier::external_body]
fn number_in_json(json: &str, key: &str) -> (bits: Option<u64>)
    ensures
        bits == json_number(json@, key@),
{
    let value: serde_json::Value = serde_json::from_str(json).ok()?;
    value[key].as_f64().map(|number| number.to_bits())
}

/// The balance that the server answered with, if it did.
pub open spec fn answered_balance(answer: Option<Seq<char>>) -> Option<Double> {
    match answer {
        Some(json) => match json_number(json, "balance"@) {
            Some(bits) => Some(Double { bits }),
            None => None,
        },
        None => None,
    }
}

/// The balance that the server answered with; `None` where it did not answer or where the answer
/// holds no balance.
pub fn fetch_server_balance(answer: &Option<String>) -> (balance: Option<Double>)
    ensures
        balance == (match answer {
            Some(json) => match json_number(json@, "balance"@) {
                Some(bits) => Some(Double { bits }),
                None => None,
            },
            None => None,
        }),
        balance == answered_balance(
            match answer {
                Some(json) => Some(json@),
                None => None,
            },
        ),
{
    match answer {
        Some(json) => match number_in_json(json.as_str(), "balance") {
            Some(bits) => Some(Double { bits }),
            None => None,
        },
        None => None,
    }
}

/// The address of the server that a file remembers, if it remembers one.
pub open spec fn remembered_server(file: Option<Seq<char>>) -> Option<Seq<char>> {
    match file {
        Some(f) => if text::trimmed(f).len() == 0 {
            None
        } else {
            Some(text::trimmed(f))
        },
        None => None,
    }
}

/// The address of the server that a file remembers, if it remembers one.
pub fn last_known_server(file: Option<String>) -> (addr: Option<String>)
    ensures
        match file {
            Some(f) => match addr {
                Some(a) => a@ == text::trimmed(f@) && a@.len() > 0,
                None => text::trimmed(f@).len() == 0,
            },
            None => addr is None,
        },
        (match addr {
            Some(a) => Some(a@),
            None => None,
        }) == remembered_server(
            match file {
                Some(f) => Some(f@),
                None => None,
            },
        ),
{
    match file {
        Some(f) => {
            let t = text::trim(f.as_str());
            if t.is_empty() { None } else { Some(t.to_owned()) }
        },
        None => None,
    }
}

/// Whether a search for the server has found it.
pub fn server_reachable(found: &Option<String>) -> (yes: bool)
    ensures
        yes == found is Some,
{
    found.is_some()
}

// ---- The search for the server ----------------------------------------------------------------

/// How far the search for the server has come.
pub enum Finder {
    /// The remembered address is to be read.
    Remember,
    /// The remembered address is asked whether a server is there.
    AskRemembered { addr: String },
    /// The network is asked at large.
    Discover,
    /// The machine that answered is asked for its dashboard.
    AskDiscovered { addr: String },
    /// A machine of the local networks is tried.
    Scan { k: usize },
    /// A machine that could be reached is asked whether a server is there.
    AskScanned { k: usize },
    /// The server is found; the flag says whether its address is to be remembered.
    Found { addr: String, remember: bool },
    /// There is no server.
    Nowhere,
}

/// How far the search for the server has come.
pub enum FinderView {
    Remember,
    AskRemembered { addr: Seq<char> },
    Discover,
    AskDiscovered { addr: Seq<char> },
    Scan { k: usize },
    AskScanned { k: usize },
    Found { addr: Seq<char>, remember: bool },
    Nowhere,
}

impl View for Finder {
    type V = FinderView;

    open spec fn view(&self) -> FinderView {
        match *self {
            Finder::Remember => FinderView::Remember,
            Finder::AskRemembered { addr } => FinderView::AskRemembered { addr: addr@ },
            Finder::Discover => FinderView::Discover,
            Finder::AskDiscovered { addr } => FinderView::AskDiscovered { addr: addr@ },
            Finder::Scan { k } => FinderView::Scan { k },
            Finder::AskScanned { k } => FinderView::AskScanned { k },
            Finder::Found { addr, remember } => FinderView::Found { addr: addr@, remember },
            Finder::Nowhere => FinderView::Nowhere,
        }
    }
}

/// What comes back from the outside.
pub enum FinderEvent {
    /// An address, or none.
    Address { addr: Option<String> },
    /// Whether a machine answered.
    Answer { yes: bool },
}

/// What comes back from the outside.
pub enum FinderEventView {
    Address { addr: Option<Seq<char>> },
    Answer { yes: bool },
}

impl View for FinderEvent {
    type V = FinderEventView;

    open spec fn view(&self) -> FinderEventView {
        match *self {
            FinderEvent::Address { addr } => FinderEventView::Address {
                addr: match addr {
                    Some(a) => Some(a@),
                    None => None,
                },
            },
            FinderEvent::Answer { yes } => FinderEventView::Answer { yes },
        }
    }
}

/// The machine that is tried after the first `k`, or the end of the search.
pub open spec fn scan_from(k: int) -> FinderView {
    if k < network::CANDIDATES {
        FinderView::Scan { k: k as usize }
    } else {
        FinderView::Nowhere
    }
}

/// How the search goes on after an event; an event that answers nothing that was asked is passed
/// over.
pub open spec fn found_next(state: FinderView, event: FinderEventView) -> FinderView {
    match (state, event) {
        (FinderView::Remember, FinderEventView::Address { addr }) => match addr {
            Some(a) => FinderView::AskRemembered { addr: a },
            None => FinderView::Discover,
        },
        (FinderView::AskRemembered { addr }, FinderEventView::Answer { yes }) => if yes {
            FinderView::Found { addr, remember: false }
        } else {
            FinderView::Discover
        },
        (FinderView::Discover, FinderEventView::Address { addr }) => match addr {
            Some(a) => FinderView::AskDiscovered { addr: network::dashboard_of(a) },
            None => scan_from(0),
        },
        (FinderView::AskDiscovered { addr }, FinderEventView::Answer { yes }) => if yes {
            FinderView::Found { addr, remember: true }
        } else {
            scan_from(0)
        },
        (FinderView::Scan { k }, FinderEventView::Answer { yes }) => if yes {
            FinderView::AskScanned { k }
        } else {
            scan_from(k + 1)
        },
        (FinderView::AskScanned { k }, FinderEventView::Answer { yes }) => if yes {
            FinderView::Found {
                addr: network::candidate(k as int, pool_server::DASHBOARD_PORT as nat),
                remember: true,
            }
        } else {
            scan_from(k + 1)
        },
        _ => state,
    }
}

/// Whether the machines that the search speaks of are among those that are tried.
pub open spec fn on_course(state: FinderView) -> bool {
    match state {
        FinderView::Scan { k } => k < network::CANDIDATES,
        FinderView::AskScanned { k } => k < network::CANDIDATES,
        _ => true,
    }
}

/// What the search asks of the outside.
pub enum FinderAction {
    ReadRemembered,
    Discover,
    /// Ask a server for its status.
    Ping { addr: String },
    /// Try to reach a machine.
    Connect { addr: String },
    /// The search is over.
    Stop,
}

/// What the search asks of the outside.
#[verifier::ext_equal]
pub enum FinderActionView {
    ReadRemembered,
    Discover,
    Ping { addr: Seq<char> },
    Connect { addr: Seq<char> },
    Stop,
}

impl View for FinderAction {
    type V = FinderActionView;

    open spec fn view(&self) -> FinderActionView {
        match *self {
            FinderAction::ReadRemembered => FinderActionView::ReadRemembered,
            FinderAction::Discover => FinderActionView::Discover,
            FinderAction::Ping { addr } => FinderActionView::Ping { addr: addr@ },
            FinderAction::Connect { addr } => FinderActionView::Connect { addr: addr@ },
            FinderAction::Stop => FinderActionView::Stop,
        }
    }
}

/// What the search asks of the outside where it stands.
pub open spec fn asked(state: FinderView) -> FinderActionView {
    match state {
        FinderView::Remember => FinderActionView::ReadRemembered,
        FinderView::AskRemembered { addr } => FinderActionView::Ping { addr },
        FinderView::Discover => FinderActionView::Discover,
        FinderView::AskDiscovered { addr } => FinderActionView::Ping { addr },
        FinderView::Scan { k } => FinderActionView::Connect {
            addr: network::candidate(k as int, pool_server::DASHBOARD_PORT as nat),
        },
        FinderView::AskScanned { k } => FinderActionView::Ping {
            addr: network::candidate(k as int, pool_server::DASHBOARD_PORT as nat),
        },
        FinderView::Found { .. } => FinderActionView::Stop,
        FinderView::Nowhere => FinderActionView::Stop,
    }
}

impl Finder {
    fn scan(k: usize) -> (next: Finder)
        ensures
            next@ == scan_from(k as int),
            on_course(next@),
    {
        if k < network::CANDIDATES { Finder::Scan { k } } else { Finder::Nowhere }
    }

    /// What the search asks of the outside where it stands.
    pub fn action(&self) -> (action: FinderAction)
        requires
            on_course(self@),
        ensures
            match (self@, action) {
                (FinderView::Remember, FinderAction::ReadRemembered) => true,
                (FinderView::AskRemembered { addr }, FinderAction::Ping { addr: a }) => a@ == addr,
                (FinderView::Discover, FinderAction::Discover) => true,
                (FinderView::AskDiscovered { addr }, FinderAction::Ping { addr: a }) => a@ == addr,
                (FinderView::Scan { k }, FinderAction::Connect { addr: a }) => a@
                    == network::candidate(k as int, pool_server::DASHBOARD_PORT as nat),
                (FinderView::AskScanned { k }, FinderAction::Ping { addr: a }) => a@
                    == network::candidate(k as int, pool_server::DASHBOARD_PORT as nat),
                (FinderView::Found { .. }, FinderAction::Stop) => true,
                (FinderView::Nowhere, FinderAction::Stop) => true,
                _ => false,
            },
            action@ == asked(self@),
    {
        match self {
            Finder::Remember => FinderAction::ReadRemembered,
            Finder::AskRemembered { addr } => FinderAction::Ping { addr: addr.clone() },
            Finder::Discover => FinderAction::Discover,
            Finder::AskDiscovered { addr } => FinderAction::Ping { addr: addr.clone() },
            Finder::Scan { k } => FinderAction::Connect {
                addr: network::candidate_text(*k, pool_server::DASHBOARD_PORT),
            },
            Finder::AskScanned { k } => FinderAction::Ping {
                addr: network::candidate_text(*k, pool_server::DASHBOARD_PORT),
            },
            Finder::Found { .. } => FinderAction::Stop,
            Finder::Nowhere => FinderAction::Stop,
        }
    }

    /// How the search goes on after an event.
    pub fn advance(self, event: FinderEvent) -> (next: Finder)
        requires
            on_course(self@),
        ensures
            next@ == found_next(self@, event@),
            on_course(next@),
    {
        match (self, event) {
            (Finder::Remember, FinderEvent::Address { addr }) => match addr {
                Some(a) => Finder::AskRemembered { addr: a },
                None => Finder::Discover,
            },
            (Finder::AskRemembered { addr }, FinderEvent::Answer { yes }) => if yes {
                Finder::Found { addr, remember: false }
            } else {
                Finder::Discover
            },
            (Finder::Discover, FinderEvent::Address { addr }) => match addr {
                Some(a) => Finder::AskDiscovered { addr: network::dashboard_address(a.as_str()) },
                None => Finder::scan(0),
            },
            (Finder::AskDiscovered { addr }, FinderEvent::Answer { yes }) => if yes {
                Finder::Found { addr, remember: true }
            } else {
                Finder::scan(0)
            },
            (Finder::Scan { k }, FinderEvent::Answer { yes }) => if yes {
                Finder::AskScanned { k }
            } else {
                Finder::scan(k + 1)
            },
            (Finder::AskScanned { k }, FinderEvent::Answer { yes }) => if yes {
                Finder::Found {
                    addr: network::candidate_text(k, pool_server::DASHBOARD_PORT),
                    remember: true,
                }
            } else {
                Finder::scan(k + 1)
            },
            (state, _) => state,
        }
    }
}

/// How much of the search is left at most.
pub open spec fn steps_left(state: FinderView) -> nat {
    match state {
        FinderView::Remember => 2 * network::CANDIDATES as nat + 4,
        FinderView::AskRemembered { .. } => 2 * network::CANDIDATES as nat + 3,
        FinderView::Discover => 2 * network::CANDIDATES as nat + 2,
        FinderView::AskDiscovered { .. } => 2 * network::CANDIDATES as nat + 1,
        FinderView::Scan { k } => (2 * (network::CANDIDATES - k)) as nat,
        FinderView::AskScanned { k } => (2 * (network::CANDIDATES - k) - 1) as nat,
        FinderView::Found { .. } => 0,
        FinderView::Nowhere => 0,
    }
}

/// The search for the server ends: every answer to what was asked brings it nearer to its end.
pub proof fn law_search_for_server_ends(state: FinderView, event: FinderEventView)
    requires
        on_course(state),
        match state {
            FinderView::Remember => event is Address,
            FinderView::Discover => event is Address,
            FinderView::Found { .. } => false,
            FinderView::Nowhere => false,
            _ => event is Answer,
        },
    ensures
        steps_left(found_next(state, event)) < steps_left(state),
{
}

/// A server is found only at an address that has just answered.
pub proof fn law_found_server_has_answered(state: FinderView, event: FinderEventView)
    requires
        !(state is Found),
        found_next(state, event) is Found,
    ensures
        event == (FinderEventView::Answer { yes: true }),
        match state {
            FinderView::AskRemembered { addr } => found_next(state, event) == (FinderView::Found {
                addr,
                remember: false,
            }),
            FinderView::AskDiscovered { addr } => found_next(state, event) == (FinderView::Found {
                addr,
                remember: true,
            }),
            FinderView::AskScanned { k } => found_next(state, event) == (FinderView::Found {
                addr: network::candidate(k as int, pool_server::DASHBOARD_PORT as nat),
                remember: true,
            }),
            _ => false,
        },
{
}

// ---- What is sent to the server ------------------------------------------------------------------

/// What is sent follows the chain block by block: a block that is beyond those that were credited
/// and earned more than nothing is sent last, with its own index, reward, time and hash; any other
/// is left out.
pub proof fn law_sending_follows_the_chain(
    chain: Seq<BlockView>,
    b: BlockView,
    synced_through: u64,
)
    ensures
        unsynced(seq![], synced_through) == Seq::<SyncBlockView>::empty(),
        unsynced(chain.push(b), synced_through) == (if b.index > synced_through
            && !b.reward.is_nan() && b.reward.value() > 0 {
            unsynced(chain, synced_through).push(
                SyncBlockView {
                    index: b.index,
                    reward: b.reward,
                    timestamp: b.timestamp,
                    hash: b.hash,
                },
            )
        } else {
            unsynced(chain, synced_through)
        }),
{
    crate::double::law_numbers_are_ordered(Double { bits: 0 }, b.reward);
    assert(chain.push(b).drop_last() =~= chain);
}

/// Every block that is sent says of its block what the chain says.
pub proof fn law_blocks_are_sent_as_they_are(
    chain: Seq<BlockView>,
    synced_through: u64,
    i: int,
) -> (k: int)
    requires
        0 <= i < unsynced(chain, synced_through).len(),
    ensures
        i <= k < chain.len(),
        ({
            let sent = unsynced(chain, synced_through)[i];
            &&& sent.index == chain[k].index
            &&& sent.reward == chain[k].reward
            &&& sent.timestamp == chain[k].timestamp
            &&& sent.hash == chain[k].hash
            &&& chain[k].index > synced_through
            &&& !chain[k].reward.is_nan()
            &&& chain[k].reward.value() > 0
        }),
    decreases chain.len(),
{
    let front = chain.drop_last();
    let before = unsynced(front, synced_through);
    crate::double::law_numbers_are_ordered(Double { bits: 0 }, chain.last().reward);
    if i < before.len() {
        assert(unsynced(chain, synced_through)[i] == before[i]);
        law_blocks_are_sent_as_they_are(front, synced_through, i)
    } else {
        lemma_no_more_than_the_chain(front, synced_through);
        chain.len() - 1
    }
}

proof fn lemma_no_more_than_the_chain(chain: Seq<BlockView>, synced_through: u64)
    ensures
        unsynced(chain, synced_through).len() <= chain.len(),
    decreases chain.len(),
{
    if chain.len() > 0 {
        lemma_no_more_than_the_chain(chain.drop_last(), synced_through);
    }
}

/// What some blocks that are sent have earned together.
pub open spec fn sent_rewards(blocks: Seq<SyncBlockView>) -> int
    decreases blocks.len(),
{
    if blocks.len() == 0 {
        0
    } else {
        sent_rewards(blocks.drop_last()) + blocks.last().reward.value()
    }
}

/// What the blocks of a chain beyond those that were credited have earned together.
pub open spec fn owed_rewards(chain: Seq<BlockView>, synced_through: u64) -> int
    decreases chain.len(),
{
    if chain.len() == 0 {
        0
    } else {
        owed_rewards(chain.drop_last(), synced_through) + (if chain.last().index > synced_through
            && !chain.last().reward.is_nan() && chain.last().reward.value() > 0 {
            chain.last().reward.value()
        } else {
            0
        })
    }
}

/// The rewards that are sent add up to those that are owed.
pub proof fn law_rewards_sent_are_rewards_owed(chain: Seq<BlockView>, synced_through: u64)
    ensures
        sent_rewards(unsynced(chain, synced_through)) == owed_rewards(chain, synced_through),
    decreases chain.len(),
{
    if chain.len() > 0 {
        let front = chain.drop_last();
        law_rewards_sent_are_rewards_owed(front, synced_through);
        law_sending_follows_the_chain(front, chain.last(), synced_through);
        assert(front.push(chain.last()) =~= chain);
        let before = unsynced(front, synced_through);
        let all = unsynced(chain, synced_through);
        if all.len() > before.len() {
            assert(all.drop_last() =~= before);
        }
    }
}

/// The address of a page on a server comes apart into the server and the page again.
pub proof fn law_page_is_on_the_server(server: Seq<char>, page: Seq<char>)
    requires
        forall|i: int| 0 <= i < server.len() ==> server[i] != '/',
        page.len() > 0,
        page[0] == '/',
    ensures
        page_url(server, page) == "http://"@ + server + page,
        crate::http::url_parts(page_url(server, page)) == Some((server, page)),
{
    crate::http::law_url_parts(server, page);
}

/// The search for the server asks the remembered address first, then the network at large, then the
/// machines of the local networks one after the other; each step follows from the answer to the
/// one before it.
pub proof fn law_search_takes_its_steps(addr: Seq<char>, k: usize)
    requires
        k < 1016,
    ensures
        found_next(FinderView::Remember, FinderEventView::Address { addr: Some(addr) })
            == (FinderView::AskRemembered { addr }),
        found_next(FinderView::Remember, FinderEventView::Address { addr: None })
            == FinderView::Discover,
        found_next(FinderView::AskRemembered { addr }, FinderEventView::Answer { yes: true }) == (
        FinderView::Found { addr, remember: false }),
        found_next(FinderView::AskRemembered { addr }, FinderEventView::Answer { yes: false })
            == FinderView::Discover,
        found_next(FinderView::Discover, FinderEventView::Address { addr: Some(addr) }) == (
        FinderView::AskDiscovered { addr: text::before(addr, ':') + ":2700"@ }),
        found_next(FinderView::Discover, FinderEventView::Address { addr: None }) == (
        FinderView::Scan { k: 0 }),
        found_next(FinderView::AskDiscovered { addr }, FinderEventView::Answer { yes: true }) == (
        FinderView::Found { addr, remember: true }),
        found_next(FinderView::AskDiscovered { addr }, FinderEventView::Answer { yes: false }) == (
        FinderView::Scan { k: 0 }),
        found_next(FinderView::Scan { k }, FinderEventView::Answer { yes: true }) == (
        FinderView::AskScanned { k }),
        k < 1015 ==> found_next(FinderView::Scan { k }, FinderEventView::Answer { yes: false }) == (
        FinderView::Scan { k: (k + 1) as usize }),
        k < 1015 ==> found_next(
            FinderView::AskScanned { k },
            FinderEventView::Answer { yes: false },
        ) == (FinderView::Scan { k: (k + 1) as usize }),
        k == 1015 ==> found_next(FinderView::Scan { k }, FinderEventView::Answer { yes: false })
            == FinderView::Nowhere,
        k == 1015 ==> found_next(
            FinderView::AskScanned { k },
            FinderEventView::Answer { yes: false },
        ) == FinderView::Nowhere,
        found_next(FinderView::AskScanned { k }, FinderEventView::Answer { yes: true }) == (
        FinderView::Found { addr: network::candidate(k as int, 2700), remember: true }),
{
    network::law_dashboard_is_on_the_machine(addr);
}

/// Where there is no server, nothing can be sent; where no block is beyond those that were credited
/// and earned something, nothing need be; else all such blocks are sent to the server that was found,
/// in the name of the account.
pub proof fn law_owed_blocks_are_sent(
    bc: BlockchainView,
    email: Seq<char>,
    server: Seq<char>,
    k: int,
)
    ensures
        sync_plan(bc, email, None) == SyncPlanView::Unreachable,
        (forall|i: int|
            0 <= i < bc.chain.len() ==> (#[trigger] bc.chain[i]).index <= bc.synced_through
                || bc.chain[i].reward.is_nan() || bc.chain[i].reward.value() <= 0) ==> sync_plan(
            bc,
            email,
            Some(server),
        ) == SyncPlanView::UpToDate,
        0 <= k < bc.chain.len() && bc.chain[k].index > bc.synced_through
            && !bc.chain[k].reward.is_nan() && bc.chain[k].reward.value() > 0 ==> (sync_plan(
            bc,
            email,
            Some(server),
        ) matches SyncPlanView::Post { server: to, email: who, blocks } && {
            &&& to == server
            &&& who == email
            &&& sent_rewards(blocks) == owed_rewards(bc.chain, bc.synced_through)
            &&& blocks.contains(
                SyncBlockView {
                    index: bc.chain[k].index,
                    reward: bc.chain[k].reward,
                    timestamp: bc.chain[k].timestamp,
                    hash: bc.chain[k].hash,
                },
            )
        }),
{
    let blocks = unsynced(bc.chain, bc.synced_through);
    if blocks.len() > 0 {
        let i = law_blocks_are_sent_as_they_are(bc.chain, bc.synced_through, 0);
        assert(bc.chain[i].index > bc.synced_through);
    }
    law_rewards_sent_are_rewards_owed(bc.chain, bc.synced_through);
    if 0 <= k < bc.chain.len() && bc.chain[k].index > bc.synced_through
        && !bc.chain[k].reward.is_nan() && bc.chain[k].reward.value() > 0 {
        lemma_owed_block_is_sent(bc.chain, bc.synced_through, k);
    }
}

proof fn lemma_owed_block_is_sent(chain: Seq<BlockView>, synced_through: u64, k: int)
    requires
        0 <= k < chain.len(),
        chain[k].index > synced_through,
        !chain[k].reward.is_nan(),
        chain[k].reward.value() > 0,
    ensures
        unsynced(chain, synced_through).contains(reported(chain[k])),
    decreases chain.len(),
{
    let front = chain.drop_last();
    let before = unsynced(front, synced_through);
    let all = unsynced(chain, synced_through);
    crate::double::law_numbers_are_ordered(Double { bits: 0 }, chain[k].reward);
    if k < front.len() {
        lemma_owed_block_is_sent(front, synced_through, k);
        let i = choose|i: int| 0 <= i < before.len() && before[i] == reported(front[k]);
        assert(all[i] == reported(chain[k]));
    } else {
        assert(all[before.len() as int] == reported(chain[k]));
    }
}

/// Only an answer that the blocks were credited changes a chain: it then remembers the last block
/// that was sent, and nothing is left to send. Nothing else of it changes.
pub proof fn law_only_credit_is_remembered(bc: BlockchainView, sent: Seq<SyncBlockView>)
    requires
        sent.len() > 0,
    ensures
        answered_chain(bc, sent, false) == bc,
        ({
            let after = answered_chain(bc, sent, true);
            &&& after.synced_through == sent[sent.len() - 1].index
            &&& after.chain == bc.chain
            &&& after.difficulty == bc.difficulty
            &&& after.total_mined == bc.total_mined
            &&& after.miner_name == bc.miner_name
            &&& growing(bc.chain) && sent == unsynced(bc.chain, bc.synced_through) ==> unsynced(
                after.chain,
                after.synced_through,
            ).len() == 0
        }),
{
    if growing(bc.chain) && sent == unsynced(bc.chain, bc.synced_through) {
        law_syncing_leaves_nothing(bc.chain, bc.synced_through);
    }
}

/// The balance that the server answers with is the number that its answer holds under that name, bit
/// by bit; where there is no answer or no such number, there is no balance.
pub proof fn law_balance_is_the_one_answered(json: Seq<char>)
    ensures
        answered_balance(None) is None,
        json_number(json, "balance"@) is None ==> answered_balance(Some(json)) is None,
        json_number(json, "balance"@) matches Some(bits) ==> {
            let balance = answered_balance(Some(json));
            balance is Some && balance->0.bits == bits
        },
{
}

/// A file remembers what it holds without the white space around it; an empty one remembers nothing.
pub proof fn law_file_remembers_the_server(a: Seq<char>, t: Seq<char>, b: Seq<char>)
    requires
        forall|i: int| 0 <= i < a.len() ==> text::white_space(#[trigger] a[i]),
        forall|i: int| 0 <= i < b.len() ==> text::white_space(#[trigger] b[i]),
        t.len() > 0 ==> !text::white_space(t[0]) && !text::white_space(t.last()),
    ensures
        t.len() > 0 ==> remembered_server(Some(a + t + b)) == Some(t),
        t.len() == 0 ==> remembered_server(Some(a + t + b)) is None,
        remembered_server(None) is None,
{
    text::law_trimming_takes_off_white_space(a, t, b);
}

/// A server is only ever found at the address that was just asked for its status; and every machine
/// that is tried is reached and then asked at the same address.
pub proof fn law_found_server_was_asked(state: FinderView, event: FinderEventView, k: usize)
    requires
        !(state is Found),
    ensures
        found_next(state, event) matches FinderView::Found { addr, remember } ==> asked(state) == (
        FinderActionView::Ping { addr }),
        asked(FinderView::Scan { k }) == (FinderActionView::Connect {
            addr: network::candidate(k as int, 2700),
        }),
        asked(FinderView::AskScanned { k }) == (FinderActionView::Ping {
            addr: network::candidate(k as int, 2700),
        }),
        asked(FinderView::Remember) == FinderActionView::ReadRemembered,
        asked(FinderView::Discover) == FinderActionView::Discover,
        asked(FinderView::Nowhere) == FinderActionView::Stop,
{
}

/// What the search does not wait for changes nothing; once it is over, nothing does.
pub proof fn law_search_waits(state: FinderView, event: FinderEventView)
    ensures
        state is Found || state is Nowhere ==> found_next(state, event) == state,
        (state is Remember || state is Discover) && event is Answer ==> found_next(state, event)
            == state,
        !(state is Remember) && !(state is Discover) && event is Address ==> found_next(
            state,
            event,
        ) == state,
{
}

} // verus!
