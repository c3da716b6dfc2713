//! Mining alone: what the program offers, and how a solo miner's chain grows.

use crate::blockchain;
use crate::blockchain::{Block, Blockchain, BlockchainView};
use crate::double::Double;
use crate::mining;
use crate::mining::Job;
use crate::text;
use vstd::prelude::*;

verus! {

/// The version that the program shows.
pub const VERSION: &'static str = "1.0.0";

// ---- The menu ------------------------------------------------------------------------------

/// What the program can do.
#[derive(Clone, Copy, Debug, PartialEq, Eq, Structural)]
pub enum Mode {
    /// Mine on this machine alone.
    Solo,
    /// Be the server of a pool.
    Host,
    /// Mine for a pool.
    Join,
}

/// What an answer to the menu asks for, if the menu offers it.
pub open spec fn mode_for(answer: Seq<char>) -> Option<Mode> {
    let t = text::trimmed(answer);
    if t == "1"@ {
        Some(Mode::Solo)
    } else if t == "2"@ {
        Some(Mode::Host)
    } else if t == "3"@ {
        Some(Mode::Join)
    } else {
        None
    }
}

/// What an answer to the menu asks for.
pub fn pick_mode(answer: &str) -> (mode: Option<Mode>)
    ensures
        mode == mode_for(answer@),
{
    let t = text::trim(answer);
    if text::same_text(t, "1") {
        Some(Mode::Solo)
    } else if text::same_text(t, "2") {
        Some(Mode::Host)
    } else if text::same_text(t, "3") {
        Some(Mode::Join)
    } else {
        None
    }
}

/// The name that a miner goes by: what stands before the at sign of the address.
pub fn miner_name(email: &str) -> (name: String)
    ensures
        name@ == text::before(email@, '@'),
{
    text::before_char(email, '@').to_owned()
}

// ---- The miner -----------------------------------------------------------------------------

/// A solo miner: its chain, and how many blocks it has found since it started.
pub struct SoloMiner {
    pub blockchain: Blockchain,
    pub blocks_found: u64,
}

/// What a solo miner knows.
#[verifier::ext_equal]
pub struct SoloView {
    pub blockchain: BlockchainView,
    pub blocks_found: u64,
}

impl View for SoloMiner {
    type V = SoloView;

    open spec fn view(&self) -> SoloView {
        SoloView { blockchain: self.blockchain@, blocks_found: self.blocks_found }
    }
}

/// Whether a miner can take up a block that it has found at a given time.
pub open spec fn can_take(st: SoloView, timestamp: u64) -> bool {
    blockchain::extendable(st.blockchain, timestamp) && st.blocks_found < u64::MAX
}

/// What a miner knows once it has taken up a block that it has found.
pub open spec fn taken(
    st: SoloView,
    nonce: u64,
    hash: Seq<char>,
    attempts: u64,
    timestamp: u64,
    total_mined: Double,
) -> SoloView {
    SoloView {
        blockchain: blockchain::extended(
            st.blockchain,
            nonce,
            hash,
            attempts,
            timestamp,
            total_mined,
        ),
        blocks_found: (st.blocks_found + 1) as u64,
    }
}

/// Whether a job is the one that a miner sets itself at a given time.
pub open spec fn own_job(job: Job, bc: BlockchainView, timestamp: u64) -> bool {
    let template = blockchain::solo_template(bc, seq![], timestamp);
    &&& job.index == template.index
    &&& job.timestamp == timestamp
    &&& job.data@ == template.data
    &&& job.previous_hash@ == template.previous_hash
    &&& job.difficulty == template.difficulty
}

impl SoloMiner {
    /// A miner that has found nothing yet.
    pub fn start(bc: Blockchain) -> (miner: SoloMiner)
        ensures
            miner@ == (SoloView { blockchain: bc@, blocks_found: 0 }),
    {
        SoloMiner { blockchain: bc, blocks_found: 0 }
    }

    /// What the miner sets itself to mine at a given time.
    pub fn job_at(&self, timestamp: u64) -> (job: Job)
        requires
            self@.blockchain.chain.len() > 0,
        ensures
            own_job(job, self@.blockchain, timestamp),
    {
        let template = self.blockchain.template_at("", timestamp);
        Job::for_block(&template)
    }

    /// What the miner sets itself to mine now. What the clock says is left open.
    pub fn next_job(&self) -> (job: Job)
        requires
            self@.blockchain.chain.len() > 0,
        ensures
            own_job(job, self@.blockchain, job.timestamp),
    {
        let timestamp: u64 = blockchain::now_secs();
        self.job_at(timestamp)
    }

    /// Takes up a block that was found, at a given time.
    pub fn take_at(
        &mut self,
        nonce: u64,
        hash: String,
        attempts: u64,
        timestamp: u64,
        total_mined: Double,
    ) -> (block: Block)
        requires
            can_take(old(self)@, timestamp),
        ensures
            block@ == blockchain::next_block(
                old(self)@.blockchain,
                nonce,
                hash@,
                attempts,
                timestamp,
            ),
            final(self)@ == taken(old(self)@, nonce, hash@, attempts, timestamp, total_mined),
    {
        let block = self.blockchain.add_block_at(nonce, hash, attempts, timestamp, total_mined);
        self.blocks_found = self.blocks_found + 1;
        block
    }

    /// Takes up a block that was found now. Where the clock does not allow it or the blocks can no
    /// longer be counted, nothing changes.
    pub fn take(&mut self, nonce: u64, hash: String, attempts: u64, total_mined: Double) -> (block:
        Option<Block>)
        ensures
            match block {
                Some(b) => {
                    &&& can_take(old(self)@, b.timestamp)
                    &&& b@ == blockchain::next_block(
                        old(self)@.blockchain,
                        nonce,
                        hash@,
                        attempts,
                        b.timestamp,
                    )
                    &&& final(self)@ == taken(
                        old(self)@,
                        nonce,
                        hash@,
                        attempts,
                        b.timestamp,
                        total_mined,
                    )
                },
                None => *final(self) == *old(self) && exists|timestamp: u64|
                    !can_take(old(self)@, timestamp),
            },
    {
        let timestamp: u64 = blockchain::now_secs();
        if self.blocks_found < u64::MAX && self.blockchain.can_extend(timestamp) {
            Some(self.take_at(nonce, hash, attempts, timestamp, total_mined))
        } else {
            assert(!can_take(self@, timestamp));
            None
        }
    }

    /// Goes on after a search has ended: with the block that was found, unless the user has left or
    /// the search has found nothing.
    pub fn conclude(
        &mut self,
        quit: bool,
        found: Option<(u64, String)>,
        attempts: u64,
        total_mined: Double,
    ) -> (step: SoloStep)
        ensures
            match step {
                SoloStep::Mined { block } => {
                    &&& !quit
                    &&& found matches Some((nonce, hash)) && {
                        &&& can_take(old(self)@, block.timestamp)
                        &&& block@ == blockchain::next_block(
                            old(self)@.blockchain,
                            nonce,
                            hash@,
                            attempts,
                            block.timestamp,
                        )
                        &&& final(self)@ == taken(
                            old(self)@,
                            nonce,
                            hash@,
                            attempts,
                            block.timestamp,
                            total_mined,
                        )
                    }
                },
                SoloStep::Over => (quit || found is None) && *final(self) == *old(self),
                SoloStep::Impossible => {
                    &&& !quit
                    &&& found is Some
                    &&& *final(self) == *old(self)
                    &&& exists|timestamp: u64| !can_take(old(self)@, timestamp)
                },
            },
    {
        if quit {
            return SoloStep::Over;
        }
        match found {
            None => SoloStep::Over,
            Some((nonce, hash)) => match self.take(nonce, hash, attempts, total_mined) {
                Some(block) => SoloStep::Mined { block },
                None => SoloStep::Impossible,
            },
        }
    }
}

/// How a solo miner goes on after a search.
pub enum SoloStep {
    /// A block was taken up; the chain is to be saved.
    Mined { block: Block },
    /// The mining is over.
    Over,
    /// The block cannot be taken up at the time that the clock gives.
    Impossible,
}

/// A proven chain stays proven when it takes up a solution of the job that the miner set itself.
pub proof fn law_mined_blocks_are_proven(
    st: SoloView,
    job: Job,
    nonce: u64,
    attempts: u64,
    timestamp: u64,
    total_mined: Double,
)
    requires
        mining::proven(st.blockchain.chain),
        own_job(job, st.blockchain, job.timestamp),
        job.solved_by(nonce),
    ensures
        mining::proven(
            taken(
                st,
                nonce,
                job.hash_with(nonce),
                attempts,
                timestamp,
                total_mined,
            ).blockchain.chain,
        ),
{
    let chain = st.blockchain.chain;
    let after = taken(st, nonce, job.hash_with(nonce), attempts, timestamp, total_mined);
    assert forall|i: int| 0 < i < after.blockchain.chain.len() implies mining::meets(
        (#[trigger] after.blockchain.chain[i]).hash,
        after.blockchain.chain[i].difficulty as nat,
    ) by {
        if i < chain.len() {
            assert(after.blockchain.chain[i] == chain[i]);
        }
    }
}

/// A new chain has nothing to prove.
pub proof fn law_fresh_chain_is_proven(miner_name: Seq<char>, timestamp: u64)
    ensures
        mining::proven(blockchain::fresh_chain(miner_name, timestamp).chain),
{
}

/// The menu goes by the answer without the white space around it.
pub proof fn law_modes_are_read(a: Seq<char>, t: Seq<char>, b: Seq<char>)
    requires
        forall|i: int| 0 <= i < a.len() ==> text::white_space(#[trigger] a[i]),
        forall|i: int| 0 <= i < b.len() ==> text::white_space(#[trigger] b[i]),
        t.len() > 0 ==> !text::white_space(t[0]) && !text::white_space(t.last()),
    ensures
        t == "1"@ ==> mode_for(a + t + b) == Some(Mode::Solo),
        t == "2"@ ==> mode_for(a + t + b) == Some(Mode::Host),
        t == "3"@ ==> mode_for(a + t + b) == Some(Mode::Join),
        t != "1"@ && t != "2"@ && t != "3"@ ==> mode_for(a + t + b) is None,
{
    reveal_strlit("1");
    reveal_strlit("2");
    reveal_strlit("3");
    assert("1"@[0] == '1' && "2"@[0] == '2' && "3"@[0] == '3');
    text::law_trimming_takes_off_white_space(a, t, b);
}

/// What a miner sets itself to mine is the next block of its chain, on top of the last one, at the
/// difficulty that is in force.
pub proof fn law_own_job_is_the_next_block(job: Job, bc: BlockchainView, timestamp: u64)
    requires
        own_job(job, bc, timestamp),
        0 < bc.chain.len() <= u64::MAX,
    ensures
        job.index == bc.chain.len(),
        job.previous_hash@ == bc.chain[bc.chain.len() - 1].hash,
        job.difficulty == bc.difficulty,
        job.timestamp == timestamp,
        job.data@ == "CryptoCraft Block #"@ + text::decimal(bc.chain.len()),
{
}

/// A block that was found is taken up with its nonce and hash after the last one, and counted.
pub proof fn law_found_block_is_taken_up(
    st: SoloView,
    nonce: u64,
    hash: Seq<char>,
    attempts: u64,
    timestamp: u64,
    total_mined: Double,
)
    requires
        can_take(st, timestamp),
        st.blockchain.chain.len() <= u64::MAX,
    ensures
        ({
            let after = taken(st, nonce, hash, attempts, timestamp, total_mined);
            let n = st.blockchain.chain.len() as int;
            let b = after.blockchain.chain[n];
            &&& n > 0
            &&& st.blocks_found < u64::MAX
            &&& after.blocks_found == st.blocks_found + 1
            &&& after.blockchain.chain.len() == n + 1
            &&& forall|i: int|
                0 <= i < n ==> (#[trigger] after.blockchain.chain[i]) == st.blockchain.chain[i]
            &&& b.index == n
            &&& b.nonce == nonce
            &&& b.hash == hash
            &&& b.timestamp == timestamp
            &&& b.previous_hash == st.blockchain.chain[n - 1].hash
            &&& b.difficulty == st.blockchain.difficulty
            &&& b.miner == st.blockchain.miner_name
            &&& b.reward == blockchain::reward_at(n as nat)
            &&& after.blockchain.total_mined == total_mined
        }),
{
}

/// A block can be taken up exactly if the chain can take it up then and there is room to count it.
pub proof fn law_when_a_miner_can_take(st: SoloView, timestamp: u64)
    ensures
        st.blocks_found < u64::MAX ==> (can_take(st, timestamp) <==> blockchain::extendable(
            st.blockchain,
            timestamp,
        )),
        st.blocks_found == u64::MAX ==> !can_take(st, timestamp),
{
}

} // verus!
