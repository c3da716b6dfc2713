//! The chain of blocks shared by the solo miner, the pool server and the pool client.

use crate::clock;
use crate::double;
use crate::double::Double;
use crate::hashing;
use crate::text;
use vstd::arithmetic::power;
use vstd::arithmetic::power2;
use vstd::prelude::*;
use vstd::string::StringExecFns;

verus! {

/// What the first blocks earn, in whole coins.
pub const BLOCK_REWARD: u64 = 12;

/// After how many blocks the reward halves.
pub const HALVING_INTERVAL: u64 = 100;

/// How long finding a block should take.
pub const TARGET_BLOCK_TIME_SECS: u64 = 120;

/// After how many blocks the difficulty is reconsidered.
pub const DIFFICULTY_ADJUST_INTERVAL: u64 = 10;

/// The largest difficulty.
pub const MAX_DIFFICULTY: usize = 16;

/// The smallest difficulty.
pub const MIN_DIFFICULTY: usize = 1;

/// The seconds from the Unix epoch to now. What the clock says is left open.
pub fn now_secs() -> (secs: u64) {
    clock::seconds_since_epoch()
}

// ---- Rewards -------------------------------------------------------------------

/// The exponent that a count of halvings becomes: its low 32 bits, read as a signed number.
pub open spec fn halving_exponent(halvings: nat) -> int {
    let low = (halvings % 0x1_0000_0000) as int;
    if low < 0x8000_0000 {
        low
    } else {
        low - 0x1_0000_0000
    }
}

/// Twelve coins divided by a power of two, as a double: exact while that power is finite,
/// nothing once it is not, and infinite where the quotient is too large.
pub open spec fn reward_for_exponent(e: int) -> Double {
    if e > 1023 {
        Double { bits: 0 }
    } else if e < -1020 {
        Double { bits: double::INFINITY_BITS }
    } else {
        Double { bits: ((1026 - e) * 0x0010_0000_0000_0000 + 0x0008_0000_0000_0000) as u64 }
    }
}

/// What the block of a given index earns: the first reward, halved once for every full
/// halving interval before it.
pub open spec fn reward_at(index: nat) -> Double {
    reward_for_exponent(halving_exponent(index / (HALVING_INTERVAL as nat)))
}

/// What the block of a given index earns.
pub fn reward_at_index(index: u64) -> (reward: Double)
    ensures
        reward == reward_at(index as nat),
{
    let halvings: u64 = index / HALVING_INTERVAL;
    let low: i64 = (halvings % 0x1_0000_0000) as i64;
    let e: i64 = if low < 0x8000_0000 { low } else { low - 0x1_0000_0000 };
    if e > 1023 {
        Double { bits: 0 }
    } else if e < -1020 {
        Double { bits: double::INFINITY_BITS }
    } else {
        Double { bits: (1026 - e) as u64 * 0x0010_0000_0000_0000 + 0x0008_0000_0000_0000 }
    }
}

/// A reward is exact: the reward after `h` halvings, doubled `h` times, is twelve coins, for as
/// long as the power of two that it is divided by is finite; after that there is none.
pub proof fn law_reward_is_exact(h: nat)
    requires
        h < 0x8000_0000,
    ensures
        h <= 1023 ==> reward_for_exponent(halving_exponent(h)).value() * power2::pow2(h)
            == BLOCK_REWARD * double::one(),
        h > 1023 ==> reward_for_exponent(halving_exponent(h)).value() == 0,
{
    assert(halving_exponent(h) == h);
    let r = reward_for_exponent(h as int);
    if h <= 1023 {
        let unit = 0x0010_0000_0000_0000int;
        let bits = (1026 - h) * unit + 0x0008_0000_0000_0000;
        assert(r.bits == bits && r.magnitude() == bits && bits < double::SIGN_BIT);
        assert(bits / unit == 1026 - h && bits % unit == 0x0008_0000_0000_0000) by {
            vstd::arithmetic::div_mod::lemma_fundamental_div_mod_converse(
                bits,
                unit,
                1026 - h,
                0x0008_0000_0000_0000,
            );
        }
        let p = power2::pow2((1025 - h) as nat);
        assert(r.value() == (unit + 0x0008_0000_0000_0000) * p);
        power2::lemma_pow2_adds((1025 - h) as nat, h);
        assert(0x0018_0000_0000_0000int * p * power2::pow2(h) == 0x0018_0000_0000_0000int * (p
            * power2::pow2(h))) by (nonlinear_arith);
        power2::lemma_pow2_adds(49, 1025);
        power2::lemma2_to64_rest();
        assert(0x0018_0000_0000_0000int * power2::pow2(1025) == 12 * (power2::pow2(49)
            * power2::pow2(1025))) by (nonlinear_arith)
            requires
                power2::pow2(49) == 0x2_0000_0000_0000,
        ;
    } else {
        assert(double::size_of_bits(0) == 0);
    }
}

/// What the block of a given index earns is twelve coins, divided by two once for every full halving
/// interval before it; exactly, for as long as that power of two is finite, and nothing after that.
/// (The count of halvings is taken to fit in 31 bits.)
pub proof fn law_reward_follows_the_index(index: nat)
    requires
        index < 100 * 0x8000_0000,
    ensures
        index / 100 <= 1023 ==> reward_at(index).value() * power2::pow2(index / 100) == BLOCK_REWARD
            * double::one(),
        index / 100 > 1023 ==> reward_at(index).value() == 0,
{
    law_reward_is_exact(index / 100);
}

/// A longer chain never earns more: the reward never rises. (The count of halvings is taken to fit
/// in 31 bits.)
pub proof fn law_reward_never_rises(n: nat, m: nat)
    requires
        n <= m < 100 * 0x8000_0000,
    ensures
        reward_at(m).value() <= reward_at(n).value(),
        n / 100 == m / 100 ==> reward_at(m) == reward_at(n),
{
    let (h, k) = (n / 100, m / 100);
    assert(h <= k);
    law_reward_is_exact(h);
    law_reward_is_exact(k);
    let (a, b) = (reward_at(n).value(), reward_at(m).value());
    power2::lemma_pow2_pos(h);
    power2::lemma_pow2_pos(1074);
    let p = power2::pow2(h);
    if h <= 1023 {
        assert(a >= 0) by (nonlinear_arith)
            requires
                a * p >= 0,
                p > 0,
        ;
    }
    if h < k <= 1023 {
        let q = power2::pow2((k - h) as nat);
        power2::lemma_pow2_pos((k - h) as nat);
        power2::lemma_pow2_adds(h, (k - h) as nat);
        assert(b <= a) by (nonlinear_arith)
            requires
                a * p == b * (p * q),
                a >= 0,
                p > 0,
                q > 0,
        ;
    }
}

/// The reward halves from one halving interval to the next.
pub proof fn law_reward_halves(index: nat)
    requires
        index / 100 < 1023,
    ensures
        reward_at(index).value() == 2 * reward_at(index + HALVING_INTERVAL as nat).value(),
{
    let h = index / 100;
    assert((index + 100) / 100 == h + 1);
    law_reward_is_exact(h);
    law_reward_is_exact(h + 1);
    power2::lemma_pow2_pos(h);
    power2::lemma_pow2_unfold(h + 1);
    let (a, b, p) = (reward_at(index).value(), reward_at(index + 100).value(), power2::pow2(h));
    assert(a == 2 * b) by (nonlinear_arith)
        requires
            a * p == b * (2 * p),
            p > 0,
    ;
}

/// What the blocks below an index earn together, in the units that doubles are counted in.
pub open spec fn minted_below(index: nat) -> int
    decreases index,
{
    if index == 0 {
        0
    } else {
        minted_below((index - 1) as nat) + reward_at((index - 1) as nat).value()
    }
}

proof fn lemma_minted(index: nat)
    requires
        index < 100 * 0x8000_0000,
    ensures
        index / 100 <= 1023 ==> minted_below(index) + (200 - index % 100) * reward_at(index).value()
            == 2400 * double::one(),
        index / 100 > 1023 ==> minted_below(index) <= 2400 * double::one(),
    decreases index,
{
    let h = index / 100;
    if index == 0 {
        law_reward_is_exact(0);
        power2::lemma_pow2(0);
        power2::lemma2_to64();
        assert(minted_below(0) == 0);
        assert(200 * (12 * double::one()) == 2400 * double::one());
        let v = reward_at(0).value();
        assert(v * power2::pow2(0) == v) by (nonlinear_arith)
            requires
                power2::pow2(0) == 1,
        ;
        assert((200 - index % 100) * v == 200 * v) by (nonlinear_arith)
            requires
                index % 100 == 0,
        ;
    } else {
        let last = (index - 1) as nat;
        lemma_minted(last);
        law_reward_is_exact(h);
        law_reward_is_exact(last / 100);
        let (a, b) = (reward_at(last).value(), reward_at(index).value());
        if index % 100 != 0 {
            assert(last / 100 == h && last % 100 == index % 100 - 1);
            assert(a == b);
            assert(a + (200 - index % 100) * b == (200 - last % 100) * a) by (nonlinear_arith)
                requires
                    a == b,
                    last % 100 == index % 100 - 1,
            ;
        } else {
            assert(last / 100 == h - 1 && last % 100 == 99);
            assert((200 - last % 100) * a == 101 * a) by (nonlinear_arith)
                requires
                    last % 100 == 99,
            ;
            assert((200 - index % 100) * b == 200 * b) by (nonlinear_arith)
                requires
                    index % 100 == 0,
            ;
            if h <= 1023 {
                law_reward_halves(last);
                assert(reward_at(last + 100) == reward_at(index)) by {
                    assert((last + 100) / 100 == h);
                }
            } else if h == 1024 {
                power2::lemma_pow2_pos(1023);
                assert(a >= 0) by (nonlinear_arith)
                    requires
                        a * power2::pow2(1023) == 12 * double::one(),
                        double::one() >= 0,
                        power2::pow2(1023) > 0,
                ;
            }
        }
    }
}

/// No more than 2400 coins are ever mined, however long the chain grows. (The count of
/// halvings is taken to fit in 31 bits.)
pub proof fn law_supply_is_bounded(index: nat)
    requires
        index < 100 * 0x8000_0000,
    ensures
        minted_below(index) <= 2400 * double::one(),
{
    lemma_minted(index);
    let h = index / 100;
    if h <= 1023 {
        law_reward_is_exact(h);
        power2::lemma_pow2_pos(h);
        let v = reward_at(index).value();
        assert(v >= 0) by (nonlinear_arith)
            requires
                v * power2::pow2(h) == 12 * double::one(),
                double::one() >= 0,
                power2::pow2(h) > 0,
        ;
        assert((200 - index % 100) * v >= 0) by (nonlinear_arith)
            requires
                v >= 0,
                200 - index % 100 >= 0,
        ;
    }
}

// ---- Blocks --------------------------------------------------------------------

/// One block of the chain.
#[derive(Debug, Clone)]
pub struct Block {
    pub index: u64,
    pub timestamp: u64,
    pub data: String,
    pub previous_hash: String,
    pub hash: String,
    pub nonce: u64,
    pub difficulty: usize,
    pub miner: String,
    pub reward: Double,
}

/// What a block holds.
#[verifier::ext_equal]
pub struct BlockView {
    pub index: u64,
    pub timestamp: u64,
    pub data: Seq<char>,
    pub previous_hash: Seq<char>,
    pub hash: Seq<char>,
    pub nonce: u64,
    pub difficulty: usize,
    pub miner: Seq<char>,
    pub reward: Double,
}

impl View for Block {
    type V = BlockView;

    open spec fn view(&self) -> BlockView {
        BlockView {
            index: self.index,
            timestamp: self.timestamp,
            data: self.data@,
            previous_hash: self.previous_hash@,
            hash: self.hash@,
            nonce: self.nonce,
            difficulty: self.difficulty,
            miner: self.miner@,
            reward: self.reward,
        }
    }
}

/// The text that is hashed for a block and a nonce.
pub open spec fn hash_input(
    index: nat,
    timestamp: nat,
    data: Seq<char>,
    previous_hash: Seq<char>,
    nonce: nat,
    difficulty: nat,
) -> Seq<char> {
    text::decimal(index) + text::decimal(timestamp) + data + previous_hash + text::decimal(nonce)
        + text::decimal(difficulty)
}

/// The hash of a block with a given nonce.
pub open spec fn block_hash(block: BlockView, nonce: u64) -> Seq<char> {
    hashing::fingerprint(
        hash_input(
            block.index as nat,
            block.timestamp as nat,
            block.data,
            block.previous_hash,
            nonce as nat,
            block.difficulty as nat,
        ),
    )
}

/// The first block of every chain, for the time at which it is made.
pub open spec fn genesis_block(timestamp: u64) -> BlockView {
    let blank = BlockView {
        index: 0,
        timestamp,
        data: "Genesis Block -- CryptoCraft v1.0.0"@,
        previous_hash: text::repeated('0', 64),
        hash: seq![],
        nonce: 0,
        difficulty: 1,
        miner: "GENESIS"@,
        reward: Double { bits: 0 },
    };
    BlockView { hash: block_hash(blank, 0), ..blank }
}

/// Hashes the parts of a block together with a nonce.
pub fn hash_parts(
    index: u64,
    timestamp: u64,
    data: &str,
    previous_hash: &str,
    nonce: u64,
    difficulty: usize,
) -> (hash: String)
    ensures
        hash@ == hashing::fingerprint(
            hash_input(
                index as nat,
                timestamp as nat,
                data@,
                previous_hash@,
                nonce as nat,
                difficulty as nat,
            ),
        ),
        hash@.len() == 64,
{
    let mut raw = text::u64_text(index);
    raw.append(text::u64_text(timestamp).as_str());
    raw.append(data);
    raw.append(previous_hash);
    raw.append(text::u64_text(nonce).as_str());
    raw.append(text::u64_text(difficulty as u64).as_str());
    hashing::fingerprint_text(raw.as_str())
}

impl Block {
    /// The first block of a chain, made at a given time.
    pub fn genesis_at(timestamp: u64) -> (block: Block)
        ensures
            block@ == genesis_block(timestamp),
    {
        let mut block = Block {
            index: 0,
            timestamp,
            data: "Genesis Block -- CryptoCraft v1.0.0".to_owned(),
            previous_hash: text::repeat_char('0', 64),
            hash: String::new(),
            nonce: 0,
            difficulty: 1,
            miner: "GENESIS".to_owned(),
            reward: Double { bits: 0 },
        };
        block.hash = block.compute_hash(0);
        block
    }

    /// The first block of a chain, made now.
    pub fn genesis() -> (block: Block)
        ensures
            block@ == genesis_block(block.timestamp),
    {
        Block::genesis_at(now_secs())
    }

    /// The hash of this block with a given nonce.
    pub fn compute_hash(&self, nonce: u64) -> (hash: String)
        ensures
            hash@ == block_hash(self@, nonce),
            hash@.len() == 64,
    {
        hash_parts(
            self.index,
            self.timestamp,
            self.data.as_str(),
            self.previous_hash.as_str(),
            nonce,
            self.difficulty,
        )
    }

    /// A second block with the same contents.
    pub fn duplicate(&self) -> (block: Block)
        ensures
            block@ == self@,
    {
        Block {
            index: self.index,
            timestamp: self.timestamp,
            data: self.data.clone(),
            previous_hash: self.previous_hash.clone(),
            hash: self.hash.clone(),
            nonce: self.nonce,
            difficulty: self.difficulty,
            miner: self.miner.clone(),
            reward: self.reward,
        }
    }
}

// ---- Chains --------------------------------------------------------------------

/// A chain of blocks and what goes with it.
#[derive(Debug)]
pub struct Blockchain {
    pub chain: Vec<Block>,
    pub difficulty: usize,
    pub total_mined: Double,
    pub miner_name: String,
    /// The index of the last block whose reward the server has credited.
    pub synced_through: u64,
}

/// What a chain holds.
#[verifier::ext_equal]
pub struct BlockchainView {
    pub chain: Seq<BlockView>,
    pub difficulty: usize,
    pub total_mined: Double,
    pub miner_name: Seq<char>,
    pub synced_through: u64,
}

impl View for Blockchain {
    type V = BlockchainView;

    open spec fn view(&self) -> BlockchainView {
        BlockchainView {
            chain: self.chain@.map_values(|b: Block| b@),
            difficulty: self.difficulty,
            total_mined: self.total_mined,
            miner_name: self.miner_name@,
            synced_through: self.synced_through,
        }
    }
}

/// A chain that holds nothing but its first block.
pub open spec fn fresh_chain(miner_name: Seq<char>, timestamp: u64) -> BlockchainView {
    BlockchainView {
        chain: seq![genesis_block(timestamp)],
        difficulty: MIN_DIFFICULTY,
        total_mined: Double { bits: 0 },
        miner_name,
        synced_through: 0,
    }
}

/// Whether the difficulty is reconsidered at this length of the chain.
pub open spec fn adjusts(chain: Seq<BlockView>) -> bool {
    chain.len() >= DIFFICULTY_ADJUST_INTERVAL && chain.len() % (DIFFICULTY_ADJUST_INTERVAL as nat)
        == 0
}

/// The seconds from the first to the last of the blocks that are considered.
pub open spec fn window_secs(chain: Seq<BlockView>) -> int {
    chain.last().timestamp - chain[chain.len() - DIFFICULTY_ADJUST_INTERVAL].timestamp
}

/// The seconds that those blocks should have taken.
pub open spec fn target_secs() -> int {
    TARGET_BLOCK_TIME_SECS * (DIFFICULTY_ADJUST_INTERVAL - 1)
}

/// Whether the difficulty can be reconsidered: the clock has not run backwards over the blocks
/// that are considered, and there is room to count up.
pub open spec fn adjustable(chain: Seq<BlockView>, difficulty: usize) -> bool {
    adjusts(chain) ==> window_secs(chain) >= 0 && difficulty < usize::MAX
}

/// The difficulty that follows a given chain: one more where the last blocks came in less than
/// half the time that they should have taken, one less where they took more than twice that.
pub open spec fn adjusted(chain: Seq<BlockView>, difficulty: usize) -> usize {
    if !adjusts(chain) {
        difficulty
    } else if window_secs(chain) < target_secs() / 2 {
        if difficulty < MAX_DIFFICULTY {
            (difficulty + 1) as usize
        } else {
            MAX_DIFFICULTY
        }
    } else if window_secs(chain) > target_secs() * 2 {
        if difficulty > MIN_DIFFICULTY {
            (difficulty - 1) as usize
        } else {
            MIN_DIFFICULTY
        }
    } else {
        difficulty
    }
}

/// The block that a chain takes up next.
pub open spec fn next_block(
    bc: BlockchainView,
    nonce: u64,
    hash: Seq<char>,
    attempts: u64,
    timestamp: u64,
) -> BlockView {
    BlockView {
        index: bc.chain.len() as u64,
        timestamp,
        data: "Block #"@ + text::decimal(bc.chain.len()) + " mined after "@ + text::decimal(
            attempts as nat,
        ) + " attempts"@,
        previous_hash: bc.chain.last().hash,
        hash,
        nonce,
        difficulty: bc.difficulty,
        miner: bc.miner_name,
        reward: reward_at(bc.chain.len()),
    }
}

/// A chain with one more block.
pub open spec fn extended(
    bc: BlockchainView,
    nonce: u64,
    hash: Seq<char>,
    attempts: u64,
    timestamp: u64,
    total_mined: Double,
) -> BlockchainView {
    let chain = bc.chain.push(next_block(bc, nonce, hash, attempts, timestamp));
    BlockchainView { chain, difficulty: adjusted(chain, bc.difficulty), total_mined, ..bc }
}

/// Whether a chain can take up a block at a given time: it has a block to follow, and the
/// difficulty can be reconsidered afterwards.
pub open spec fn extendable(bc: BlockchainView, timestamp: u64) -> bool {
    &&& bc.chain.len() > 0
    &&& adjusts_next(bc.chain) ==> {
        &&& timestamp >= bc.chain[bc.chain.len() + 1 - DIFFICULTY_ADJUST_INTERVAL].timestamp
        &&& bc.difficulty < usize::MAX
    }
}

/// Whether the difficulty is reconsidered once the chain has one more block.
pub open spec fn adjusts_next(chain: Seq<BlockView>) -> bool {
    let len = chain.len() + 1;
    len >= DIFFICULTY_ADJUST_INTERVAL && len % (DIFFICULTY_ADJUST_INTERVAL as nat) == 0
}

/// The work that a solo miner sets itself: the next block, not yet hashed.
pub open spec fn solo_template(bc: BlockchainView, miner: Seq<char>, timestamp: u64) -> BlockView {
    BlockView {
        index: bc.chain.len() as u64,
        timestamp,
        data: "CryptoCraft Block #"@ + text::decimal(bc.chain.len()),
        previous_hash: bc.chain.last().hash,
        hash: seq![],
        nonce: 0,
        difficulty: bc.difficulty,
        miner,
        reward: reward_at(bc.chain.len()),
    }
}

/// A saved chain, under the name of the miner who opened it.
pub open spec fn reopened(saved: BlockchainView, miner_name: Seq<char>) -> BlockchainView {
    BlockchainView { miner_name, ..saved }
}

/// What is hashed while the machine is measured.
pub open spec fn benchmark_input(nonce: nat) -> Seq<char> {
    "benchmark"@ + text::decimal(nonce)
}

impl Blockchain {
    /// A chain that holds nothing but its first block, made at a given time.
    pub fn new_at(miner_name: &str, timestamp: u64) -> (bc: Blockchain)
        ensures
            bc@ == fresh_chain(miner_name@, timestamp),
    {
        let mut chain: Vec<Block> = Vec::new();
        chain.push(Block::genesis_at(timestamp));
        let bc = Blockchain {
            chain,
            difficulty: MIN_DIFFICULTY,
            total_mined: Double { bits: 0 },
            miner_name: miner_name.to_owned(),
            synced_through: 0,
        };
        assert(bc@.chain =~= seq![genesis_block(timestamp)]);
        bc
    }

    /// A chain that holds nothing but its first block, made now.
    pub fn new(miner_name: &str) -> (bc: Blockchain)
        ensures
            exists|timestamp: u64| bc@ == fresh_chain(miner_name@, timestamp),
    {
        let timestamp: u64 = now_secs();
        Blockchain::new_at(miner_name, timestamp)
    }

    /// The chain that a save file held, under the name of the miner who opened it; a new chain
    /// where there was no readable file.
    pub fn load_or_new(miner_name: &str, saved: Option<Blockchain>) -> (bc: Blockchain)
        ensures
            match saved {
                Some(found) => bc@ == (BlockchainView { miner_name: miner_name@, ..found@ }),
                None => exists|timestamp: u64| bc@ == fresh_chain(miner_name@, timestamp),
            },
            saved matches Some(found) ==> bc@ == reopened(found@, miner_name@),
    {
        match saved {
            Some(found) => {
                let mut bc = found;
                bc.miner_name = miner_name.to_owned();
                bc
            },
            None => Blockchain::new(miner_name),
        }
    }

    /// The hash of the last block.
    pub fn latest_hash(&self) -> (hash: &str)
        requires
            self@.chain.len() > 0,
        ensures
            hash@ == self@.chain.last().hash,
    {
        self.chain[self.chain.len() - 1].hash.as_str()
    }

    /// The index of the block that comes next.
    pub fn next_index(&self) -> (index: u64)
        ensures
            index == self@.chain.len(),
    {
        self.chain.len() as u64
    }

    /// What the block that comes next earns.
    pub fn current_reward(&self) -> (reward: Double)
        ensures
            reward == reward_at(self@.chain.len()),
    {
        reward_at_index(self.next_index())
    }

    /// The blocks from the next one to the next halving of the reward.
    pub fn blocks_to_halving(&self) -> (n: u64)
        ensures
            n == HALVING_INTERVAL - self@.chain.len() % (HALVING_INTERVAL as nat),
    {
        HALVING_INTERVAL - self.next_index() % HALVING_INTERVAL
    }

    /// The work that a solo miner sets itself.
    pub fn template_at(&self, miner: &str, timestamp: u64) -> (block: Block)
        requires
            self@.chain.len() > 0,
        ensures
            block@ == solo_template(self@, miner@, timestamp),
    {
        let index: u64 = self.next_index();
        let mut data = "CryptoCraft Block #".to_owned();
        data.append(text::u64_text(index).as_str());
        Block {
            index,
            timestamp,
            data,
            previous_hash: self.latest_hash().to_owned(),
            hash: String::new(),
            nonce: 0,
            difficulty: self.difficulty,
            miner: miner.to_owned(),
            reward: self.current_reward(),
        }
    }

    /// Whether a block can be taken up at a given time.
    pub fn can_extend(&self, timestamp: u64) -> (yes: bool)
        ensures
            yes == extendable(self@, timestamp),
    {
        let len: usize = self.chain.len();
        if len == 0 {
            return false;
        }
        if len == usize::MAX {
            assert(!adjusts_next(self@.chain)) by {
                assert((0xffff_ffffint + 1) % 10 != 0);
                assert((0xffff_ffff_ffff_ffffint + 1) % 10 != 0);
            }
            return true;
        }
        let next: u64 = len as u64 + 1;
        if next < DIFFICULTY_ADJUST_INTERVAL || next % DIFFICULTY_ADJUST_INTERVAL != 0 {
            return true;
        }
        timestamp >= self.chain[(next - DIFFICULTY_ADJUST_INTERVAL) as usize].timestamp
            && self.difficulty < usize::MAX
    }

    /// Takes up a mined block at a given time. `total_mined` is what has been mined in all once
    /// this block's reward is added.
    pub fn add_block_at(
        &mut self,
        nonce: u64,
        hash: String,
        attempts: u64,
        timestamp: u64,
        total_mined: Double,
    ) -> (block: Block)
        requires
            extendable(old(self)@, timestamp),
        ensures
            block@ == next_block(old(self)@, nonce, hash@, attempts, timestamp),
            final(self)@ == extended(old(self)@, nonce, hash@, attempts, timestamp, total_mined),
    {
        let index: u64 = self.next_index();
        let mut data = "Block #".to_owned();
        data.append(text::u64_text(index).as_str());
        data.append(" mined after ");
        data.append(text::u64_text(attempts).as_str());
        data.append(" attempts");
        let block = Block {
            index,
            timestamp,
            data,
            previous_hash: self.latest_hash().to_owned(),
            hash,
            nonce,
            difficulty: self.difficulty,
            miner: self.miner_name.clone(),
            reward: self.current_reward(),
        };
        self.total_mined = total_mined;
        let copy = block.duplicate();
        self.chain.push(copy);
        assert(self@.chain =~= old(self)@.chain.push(block@));
        self.adjust_difficulty();
        block
    }

    /// Takes up a mined block now, unless the clock or the difficulty does not allow it; then
    /// nothing changes.
    pub fn add_block(&mut self, nonce: u64, hash: String, attempts: u64, total_mined: Double) -> (
    block: Option<Block>)
        ensures
            match block {
                Some(b) => {
                    &&& extendable(old(self)@, b.timestamp)
                    &&& b@ == next_block(old(self)@, nonce, hash@, attempts, b.timestamp)
                    &&& final(self)@ == extended(
                        old(self)@,
                        nonce,
                        hash@,
                        attempts,
                        b.timestamp,
                        total_mined,
                    )
                },
                None => *final(self) == *old(self) && exists|timestamp: u64|
                    !extendable(old(self)@, timestamp),
            },
    {
        let timestamp: u64 = now_secs();
        if self.can_extend(timestamp) {
            Some(self.add_block_at(nonce, hash, attempts, timestamp, total_mined))
        } else {
            None
        }
    }

    /// Reconsiders the difficulty after a block was taken up.
    pub fn adjust_difficulty(&mut self)
        requires
            adjustable(old(self)@.chain, old(self)@.difficulty),
        ensures
            final(self)@ == (BlockchainView {
                difficulty: adjusted(old(self)@.chain, old(self)@.difficulty),
                ..old(self)@
            }),
    {
        let len: u64 = self.chain.len() as u64;
        if len < DIFFICULTY_ADJUST_INTERVAL || len % DIFFICULTY_ADJUST_INTERVAL != 0 {
            return;
        }
        let first: usize = self.chain.len() - DIFFICULTY_ADJUST_INTERVAL as usize;
        let elapsed: u64 = self.chain[self.chain.len() - 1].timestamp - self.chain[first].timestamp;
        let target: u64 = TARGET_BLOCK_TIME_SECS * (DIFFICULTY_ADJUST_INTERVAL - 1);
        if elapsed < target / 2 {
            let up: usize = self.difficulty + 1;
            self.difficulty = if up < MAX_DIFFICULTY { up } else { MAX_DIFFICULTY };
        } else if elapsed > target * 2 {
            let down: usize = self.difficulty.saturating_sub(1);
            self.difficulty = if down > MIN_DIFFICULTY { down } else { MIN_DIFFICULTY };
        }
    }
}

// ---- Choosing a starting difficulty ----------------------------------------------

/// The starting difficulty for a measured hash rate: the number of leading zeros that are found
/// once in the target time, which is the logarithm to base sixteen of the hashes made in that
/// time, rounded down and kept between the smallest and the largest difficulty.
pub open spec fn suits(hashrate: u64, difficulty: usize) -> bool {
    let hashes = hashrate * TARGET_BLOCK_TIME_SECS;
    &&& MIN_DIFFICULTY <= difficulty <= MAX_DIFFICULTY
    &&& difficulty > MIN_DIFFICULTY ==> power::pow(16, difficulty as nat) <= hashes
    &&& difficulty < MAX_DIFFICULTY ==> hashes < power::pow(16, difficulty as nat + 1)
}

/// The recommended starting difficulty for a measured hash rate.
pub fn benchmark_difficulty(hashrate: u64) -> (difficulty: usize)
    ensures
        suits(hashrate, difficulty),
{
    let target: u128 = TARGET_BLOCK_TIME_SECS as u128;
    assert(hashrate * target <= 120 * u64::MAX) by (nonlinear_arith)
        requires
            target == 120,
            hashrate <= u64::MAX,
    ;
    let hashes: u128 = hashrate as u128 * target;
    let mut difficulty: usize = MIN_DIFFICULTY;
    let mut next: u128 = 256;
    proof {
        reveal_with_fuel(power::pow, 3);
        assert(power::pow(16, 2) == 256);
    }
    while difficulty < MAX_DIFFICULTY && next <= hashes
        invariant
            MIN_DIFFICULTY <= difficulty <= MAX_DIFFICULTY,
            hashes == hashrate * TARGET_BLOCK_TIME_SECS,
            next == power::pow(16, difficulty as nat + 1),
            difficulty > MIN_DIFFICULTY ==> power::pow(16, difficulty as nat) <= hashes,
        decreases MAX_DIFFICULTY - difficulty,
    {
        difficulty = difficulty + 1;
        proof {
            reveal_with_fuel(power::pow, 2);
            assert(power::pow(16, difficulty as nat + 1) == 16 * power::pow(16, difficulty as nat));
        }
        next = next * 16;
    }
    difficulty
}

/// At most one difficulty suits a hash rate.
pub proof fn law_one_difficulty_suits(hashrate: u64, a: usize, b: usize)
    requires
        suits(hashrate, a),
        suits(hashrate, b),
    ensures
        a == b,
{
    if a < b {
        power::lemma_pow_increases(16, a as nat + 1, b as nat);
    }
    if b < a {
        power::lemma_pow_increases(16, b as nat + 1, a as nat);
    }
}

/// What is hashed while the machine is measured.
pub fn benchmark_hash(nonce: u64) -> (hash: String)
    ensures
        hash@ == hashing::fingerprint("benchmark"@ + text::decimal(nonce as nat)),
        hash@ == hashing::fingerprint(benchmark_input(nonce as nat)),
{
    let mut raw = "benchmark".to_owned();
    raw.append(text::u64_text(nonce).as_str());
    hashing::fingerprint_text(raw.as_str())
}

// ---- What every chain keeps ------------------------------------------------------

/// Whether the blocks of a chain are numbered in order, and each names the hash of the one
/// before it.
pub open spec fn linked(chain: Seq<BlockView>) -> bool {
    &&& chain.len() > 0
    &&& chain.len() <= u64::MAX
    &&& forall|i: int| 0 <= i < chain.len() ==> (#[trigger] chain[i]).index == i
    &&& forall|i: int|
        0 < i < chain.len() ==> (#[trigger] chain[i]).previous_hash == chain[i - 1].hash
}

/// A new chain is linked.
pub proof fn law_fresh_chain_is_linked(miner_name: Seq<char>, timestamp: u64)
    ensures
        linked(fresh_chain(miner_name, timestamp).chain),
{
}

/// A linked chain stays linked when it takes up a block.
pub proof fn law_extending_keeps_links(
    bc: BlockchainView,
    nonce: u64,
    hash: Seq<char>,
    attempts: u64,
    timestamp: u64,
    total_mined: Double,
)
    requires
        linked(bc.chain),
        bc.chain.len() < u64::MAX,
    ensures
        linked(extended(bc, nonce, hash, attempts, timestamp, total_mined).chain),
{
}

/// Taking up a block leaves the blocks before it as they were, and the new one comes last.
pub proof fn law_extending_only_appends(
    bc: BlockchainView,
    nonce: u64,
    hash: Seq<char>,
    attempts: u64,
    timestamp: u64,
    total_mined: Double,
)
    ensures
        ({
            let after = extended(bc, nonce, hash, attempts, timestamp, total_mined);
            &&& after.chain.len() == bc.chain.len() + 1
            &&& after.chain.drop_last() == bc.chain
            &&& after.chain.last() == next_block(bc, nonce, hash, attempts, timestamp)
            &&& after.synced_through == bc.synced_through
            &&& after.miner_name == bc.miner_name
        }),
{
    assert(extended(bc, nonce, hash, attempts, timestamp, total_mined).chain.drop_last()
        =~= bc.chain);
}

/// Whether every block of a chain earned what its place in the chain earns, and the first nothing.
pub open spec fn scheduled(chain: Seq<BlockView>) -> bool {
    &&& chain.len() > 0
    &&& chain[0].reward == (Double { bits: 0 })
    &&& forall|i: int| 0 < i < chain.len() ==> (#[trigger] chain[i]).reward == reward_at(i as nat)
}

/// A new chain keeps to the schedule of rewards, and one that does still does once it has taken up
/// a block.
pub proof fn law_rewards_keep_to_the_schedule(
    miner_name: Seq<char>,
    bc: BlockchainView,
    nonce: u64,
    hash: Seq<char>,
    attempts: u64,
    timestamp: u64,
    total_mined: Double,
)
    ensures
        scheduled(fresh_chain(miner_name, timestamp).chain),
        scheduled(bc.chain) ==> scheduled(
            extended(bc, nonce, hash, attempts, timestamp, total_mined).chain,
        ),
{
}

/// What the blocks of a chain have earned together, in the units that doubles are counted in.
pub open spec fn earned(chain: Seq<BlockView>) -> int
    decreases chain.len(),
{
    if chain.len() == 0 {
        0
    } else {
        earned(chain.drop_last()) + chain.last().reward.value()
    }
}

/// What a chain that keeps to the schedule has earned is what its places earn, without the first.
proof fn lemma_earned(chain: Seq<BlockView>)
    requires
        scheduled(chain),
    ensures
        earned(chain) == minted_below(chain.len()) - reward_at(0).value(),
    decreases chain.len(),
{
    let front = chain.drop_last();
    if chain.len() > 1 {
        assert(scheduled(front)) by {
            assert forall|i: int| 0 < i < front.len() implies (#[trigger] front[i]).reward
                == reward_at(i as nat) by {
                assert(chain[i].reward == reward_at(i as nat));
            }
        }
        lemma_earned(front);
        assert(chain[chain.len() - 1].reward == reward_at((chain.len() - 1) as nat));
    } else {
        assert(front =~= seq![]);
        assert(earned(front) == 0);
        assert(double::size_of_bits(0) == 0);
        assert(minted_below(0) == 0);
        assert(minted_below(1) == minted_below(0) + reward_at(0).value());
    }
}

/// However long a chain grows, its blocks never earn more than 2388 coins together: what all places
/// earn, without the first. (The count of halvings is taken to fit in 31 bits.)
pub proof fn law_chain_earns_at_most_the_supply(chain: Seq<BlockView>)
    requires
        scheduled(chain),
        chain.len() < 100 * 0x8000_0000,
    ensures
        earned(chain) <= 2388 * double::one(),
{
    lemma_earned(chain);
    law_supply_is_bounded(chain.len());
    law_reward_is_exact(0);
    power2::lemma2_to64();
    let v = reward_at(0).value();
    assert(v * power2::pow2(0) == v) by (nonlinear_arith)
        requires
            power2::pow2(0) == 1,
    ;
}

/// The difficulty stays within its bounds, moves by at most one, and only at every tenth block.
pub proof fn law_difficulty_is_bounded(chain: Seq<BlockView>, difficulty: usize)
    requires
        MIN_DIFFICULTY <= difficulty <= MAX_DIFFICULTY,
    ensures
        MIN_DIFFICULTY <= adjusted(chain, difficulty) <= MAX_DIFFICULTY,
        difficulty - 1 <= adjusted(chain, difficulty) <= difficulty + 1,
        chain.len() % 10 != 0 ==> adjusted(chain, difficulty) == difficulty,
{
}

/// Slower blocks never make mining harder.
pub proof fn law_slower_is_not_harder(a: Seq<BlockView>, b: Seq<BlockView>, difficulty: usize)
    requires
        a.len() == b.len(),
        adjusts(a) ==> window_secs(a) <= window_secs(b),
    ensures
        adjusted(b, difficulty) <= adjusted(a, difficulty) || difficulty < MIN_DIFFICULTY
            || difficulty > MAX_DIFFICULTY,
{
}

// ---- What every chain is ---------------------------------------------------------

/// What the blocks of a chain that were mined have earned, added up in order by a given addition.
pub open spec fn added_up(plus: spec_fn(Double, Double) -> Double, chain: Seq<BlockView>) -> Double
    decreases chain.len(),
{
    if chain.len() <= 1 {
        Double { bits: 0 }
    } else {
        plus(added_up(plus, chain.drop_last()), chain.last().reward)
    }
}

/// Whether a chain is sound: it is linked, its times never go down, its difficulty is within the
/// bounds, and what was mined in all is what its blocks have earned, added up in order.
pub open spec fn sound(plus: spec_fn(Double, Double) -> Double, bc: BlockchainView) -> bool {
    &&& linked(bc.chain)
    &&& forall|i: int|
        0 < i < bc.chain.len() ==> bc.chain[i - 1].timestamp <= (#[trigger] bc.chain[i]).timestamp
    &&& MIN_DIFFICULTY <= bc.difficulty <= MAX_DIFFICULTY
    &&& bc.total_mined == added_up(plus, bc.chain)
}

proof fn lemma_times(plus: spec_fn(Double, Double) -> Double, bc: BlockchainView, i: int, j: int)
    requires
        sound(plus, bc),
        0 <= i <= j < bc.chain.len(),
    ensures
        bc.chain[i].timestamp <= bc.chain[j].timestamp,
    decreases j - i,
{
    if i < j {
        lemma_times(plus, bc, i, j - 1);
    }
}

/// A new chain is sound.
pub proof fn law_fresh_chain_is_sound(
    plus: spec_fn(Double, Double) -> Double,
    miner_name: Seq<char>,
    timestamp: u64,
)
    ensures
        sound(plus, fresh_chain(miner_name, timestamp)),
{
}

/// Where the clock has not gone back behind its last block, a sound chain can take up any block, and
/// it stays sound when what was mined in all is raised by the reward.
pub proof fn law_extending_keeps_chains_sound(
    plus: spec_fn(Double, Double) -> Double,
    bc: BlockchainView,
    nonce: u64,
    hash: Seq<char>,
    attempts: u64,
    timestamp: u64,
    total_mined: Double,
)
    requires
        sound(plus, bc),
        bc.chain.len() < u64::MAX,
        bc.chain.last().timestamp <= timestamp,
        total_mined == plus(bc.total_mined, reward_at(bc.chain.len())),
    ensures
        extendable(bc, timestamp),
        sound(plus, extended(bc, nonce, hash, attempts, timestamp, total_mined)),
{
    let after = extended(bc, nonce, hash, attempts, timestamp, total_mined);
    law_extending_keeps_links(bc, nonce, hash, attempts, timestamp, total_mined);
    law_difficulty_is_bounded(after.chain, bc.difficulty);
    assert(after.chain.drop_last() =~= bc.chain);
    if adjusts_next(bc.chain) {
        lemma_times(
            plus,
            bc,
            bc.chain.len() + 1 - DIFFICULTY_ADJUST_INTERVAL,
            bc.chain.len() - 1,
        );
    }
    assert forall|i: int| 0 < i < after.chain.len() implies after.chain[i - 1].timestamp <= (
    #[trigger] after.chain[i]).timestamp by {
        if i < bc.chain.len() {
            assert(bc.chain[i - 1].timestamp <= bc.chain[i].timestamp);
        }
    }
}

/// A block that is taken up: its nonce and hash, the attempts that it took, and the time.
#[verifier::ext_equal]
pub struct Find {
    pub nonce: u64,
    pub hash: Seq<char>,
    pub attempts: u64,
    pub timestamp: u64,
}

/// A new chain after some blocks were taken up one after the other, each time raising what was
/// mined in all by the reward.
pub open spec fn grown(
    plus: spec_fn(Double, Double) -> Double,
    miner_name: Seq<char>,
    timestamp: u64,
    finds: Seq<Find>,
) -> BlockchainView
    decreases finds.len(),
{
    if finds.len() == 0 {
        fresh_chain(miner_name, timestamp)
    } else {
        let bc = grown(plus, miner_name, timestamp, finds.drop_last());
        let f = finds.last();
        extended(
            bc,
            f.nonce,
            f.hash,
            f.attempts,
            f.timestamp,
            plus(bc.total_mined, reward_at(bc.chain.len())),
        )
    }
}

/// Every chain that has grown by taking up blocks is sound, whatever the blocks are, as long as the
/// clock never went back; and it holds them all, in order, after its first block.
pub proof fn law_grown_chains_are_sound(
    plus: spec_fn(Double, Double) -> Double,
    miner_name: Seq<char>,
    timestamp: u64,
    finds: Seq<Find>,
)
    requires
        finds.len() < u64::MAX,
        forall|i: int| 0 <= i < finds.len() ==> timestamp <= (#[trigger] finds[i]).timestamp,
        forall|i: int|
            0 < i < finds.len() ==> finds[i - 1].timestamp <= (#[trigger] finds[i]).timestamp,
    ensures
        sound(plus, grown(plus, miner_name, timestamp, finds)),
        grown(plus, miner_name, timestamp, finds).chain.len() == finds.len() + 1,
        grown(plus, miner_name, timestamp, finds).chain.last().timestamp == (if finds.len() == 0 {
            timestamp
        } else {
            finds.last().timestamp
        }),
        grown(plus, miner_name, timestamp, finds).chain[0] == genesis_block(timestamp),
        forall|i: int|
            #![trigger finds[i]]
            0 <= i < finds.len() ==> {
                let block = grown(plus, miner_name, timestamp, finds).chain[i + 1];
                &&& block.data == "Block #"@ + text::decimal((i + 1) as nat) + " mined after "@
                    + text::decimal(finds[i].attempts as nat) + " attempts"@
                &&& block.nonce == finds[i].nonce
                &&& block.hash == finds[i].hash
                &&& block.timestamp == finds[i].timestamp
                &&& block.miner == miner_name
                &&& block.reward == reward_at((i + 1) as nat)
            },
        grown(plus, miner_name, timestamp, finds).miner_name == miner_name,
    decreases finds.len(),
{
    if finds.len() > 0 {
        let front = finds.drop_last();
        assert forall|i: int| 0 <= i < front.len() implies timestamp <= (
        #[trigger] front[i]).timestamp by {
            assert(finds[i] == front[i]);
        }
        assert forall|i: int| 0 < i < front.len() implies front[i - 1].timestamp <= (
        #[trigger] front[i]).timestamp by {
            assert(finds[i] == front[i]);
        }
        law_grown_chains_are_sound(plus, miner_name, timestamp, front);
        let bc = grown(plus, miner_name, timestamp, front);
        let f = finds.last();
        assert(finds[finds.len() - 1] == f);
        law_extending_keeps_chains_sound(
            plus,
            bc,
            f.nonce,
            f.hash,
            f.attempts,
            f.timestamp,
            plus(bc.total_mined, reward_at(bc.chain.len())),
        );
        let after = grown(plus, miner_name, timestamp, finds);
        assert forall|i: int| #![trigger finds[i]] 0 <= i < finds.len() implies {
            let block = after.chain[i + 1];
            &&& block.data == "Block #"@ + text::decimal((i + 1) as nat) + " mined after "@
                + text::decimal(finds[i].attempts as nat) + " attempts"@
            &&& block.nonce == finds[i].nonce
            &&& block.hash == finds[i].hash
            &&& block.timestamp == finds[i].timestamp
            &&& block.miner == miner_name
            &&& block.reward == reward_at((i + 1) as nat)
        } by {
            if i < front.len() {
                assert(front[i] == finds[i]);
                assert(after.chain[i + 1] == bc.chain[i + 1]);
            }
        }
    }
}

// ---- What hashing promises -------------------------------------------------------

/// Where texts end alike, what stands before is the same.
proof fn lemma_same_ending(a: Seq<char>, b: Seq<char>, end: Seq<char>)
    requires
        a + end == b + end,
    ensures
        a == b,
{
    assert((a + end).len() == a.len() + end.len());
    assert((b + end).len() == b.len() + end.len());
    assert(a =~= (a + end).take(a.len() as int));
    assert(b =~= (b + end).take(b.len() as int));
}

/// Where texts begin alike, what follows is the same.
proof fn lemma_same_beginning(start: Seq<char>, a: Seq<char>, b: Seq<char>)
    requires
        start + a == start + b,
    ensures
        a == b,
{
    assert((start + a).len() == start.len() + a.len());
    assert((start + b).len() == start.len() + b.len());
    assert(a =~= (start + a).skip(start.len() as int));
    assert(b =~= (start + b).skip(start.len() as int));
}

/// What is hashed for a block holds, in this order and with nothing between or around them, the
/// numerals of its index and its time, its data, the hash before it, the numeral of the whole nonce
/// and that of the difficulty.
pub proof fn law_hash_input_holds_all(
    index: nat,
    timestamp: nat,
    data: Seq<char>,
    previous_hash: Seq<char>,
    nonce: nat,
    difficulty: nat,
)
    ensures
        ({
            let s = hash_input(index, timestamp, data, previous_hash, nonce, difficulty);
            let a = text::decimal(index).len() as int;
            let b = a + text::decimal(timestamp).len();
            let c = b + data.len();
            let d = c + previous_hash.len();
            let e = d + text::decimal(nonce).len();
            let f = e + text::decimal(difficulty).len();
            &&& s.len() == f
            &&& text::digits_value(s.subrange(0, a)) == index
            &&& text::digits_value(s.subrange(a, b)) == timestamp
            &&& s.subrange(b, c) == data
            &&& s.subrange(c, d) == previous_hash
            &&& s.subrange(d, e) == text::decimal(nonce)
            &&& text::digits_value(s.subrange(d, e)) == nonce
            &&& s.subrange(e, f) == text::decimal(difficulty)
            &&& text::digits_value(s.subrange(e, f)) == difficulty
        }),
{
    let s = hash_input(index, timestamp, data, previous_hash, nonce, difficulty);
    let a = text::decimal(index).len() as int;
    let b = a + text::decimal(timestamp).len();
    let c = b + data.len();
    let d = c + previous_hash.len();
    let e = d + text::decimal(nonce).len();
    let f = e + text::decimal(difficulty).len();
    text::law_decimal_reads_back(index);
    text::law_decimal_reads_back(timestamp);
    text::law_decimal_reads_back(nonce);
    text::law_decimal_reads_back(difficulty);
    assert(s.subrange(0, a) =~= text::decimal(index));
    assert(s.subrange(a, b) =~= text::decimal(timestamp));
    assert(s.subrange(b, c) =~= data);
    assert(s.subrange(c, d) =~= previous_hash);
    assert(s.subrange(d, e) =~= text::decimal(nonce));
    assert(s.subrange(e, f) =~= text::decimal(difficulty));
}

/// For a fixed block every nonce gives a text of its own to hash: what is hashed for two different
/// nonces is different.
pub proof fn law_every_nonce_is_hashed_apart(
    index: nat,
    timestamp: nat,
    data: Seq<char>,
    previous_hash: Seq<char>,
    nonce: nat,
    other: nat,
    difficulty: nat,
)
    requires
        hash_input(index, timestamp, data, previous_hash, nonce, difficulty) == hash_input(
            index,
            timestamp,
            data,
            previous_hash,
            other,
            difficulty,
        ),
    ensures
        nonce == other,
{
    let start = text::decimal(index) + text::decimal(timestamp) + data + previous_hash;
    let end = text::decimal(difficulty);
    lemma_same_ending(start + text::decimal(nonce), start + text::decimal(other), end);
    lemma_same_beginning(start, text::decimal(nonce), text::decimal(other));
    text::law_decimal_tells_apart(nonce, other);
}

/// Nothing of a block can be changed on its own without changing what is hashed: neither the index
/// nor the time, the data, the hash before it or the difficulty.
pub proof fn law_every_part_is_hashed(
    index: nat,
    timestamp: nat,
    data: Seq<char>,
    previous_hash: Seq<char>,
    nonce: nat,
    difficulty: nat,
    number: nat,
    words: Seq<char>,
)
    ensures
        ({
            let s = hash_input(index, timestamp, data, previous_hash, nonce, difficulty);
            &&& s == hash_input(number, timestamp, data, previous_hash, nonce, difficulty) ==> number
                == index
            &&& s == hash_input(index, number, data, previous_hash, nonce, difficulty) ==> number
                == timestamp
            &&& s == hash_input(index, timestamp, words, previous_hash, nonce, difficulty) ==> words
                == data
            &&& s == hash_input(index, timestamp, data, words, nonce, difficulty) ==> words
                == previous_hash
            &&& s == hash_input(index, timestamp, data, previous_hash, nonce, number) ==> number
                == difficulty
        }),
{
    let s = hash_input(index, timestamp, data, previous_hash, nonce, difficulty);
    let (i, t, n, d) = (
        text::decimal(index),
        text::decimal(timestamp),
        text::decimal(nonce),
        text::decimal(difficulty),
    );
    let x = text::decimal(number);
    assert(s =~= i + (t + data + previous_hash + n + d));
    assert(s =~= i + t + (data + previous_hash + n + d));
    assert(s =~= i + t + data + (previous_hash + n + d));
    assert(s =~= i + t + data + previous_hash + (n + d));
    if s == hash_input(number, timestamp, data, previous_hash, nonce, difficulty) {
        assert(s =~= x + (t + data + previous_hash + n + d));
        lemma_same_ending(i, x, t + data + previous_hash + n + d);
        text::law_decimal_tells_apart(index, number);
    }
    if s == hash_input(index, number, data, previous_hash, nonce, difficulty) {
        assert(s =~= i + x + (data + previous_hash + n + d));
        lemma_same_ending(i + t, i + x, data + previous_hash + n + d);
        lemma_same_beginning(i, t, x);
        text::law_decimal_tells_apart(timestamp, number);
    }
    if s == hash_input(index, timestamp, words, previous_hash, nonce, difficulty) {
        assert(s =~= i + t + words + (previous_hash + n + d));
        lemma_same_ending(i + t + data, i + t + words, previous_hash + n + d);
        lemma_same_beginning(i + t, data, words);
    }
    if s == hash_input(index, timestamp, data, words, nonce, difficulty) {
        assert(s =~= i + t + data + words + (n + d));
        lemma_same_ending(i + t + data + previous_hash, i + t + data + words, n + d);
        lemma_same_beginning(i + t + data, previous_hash, words);
    }
    if s == hash_input(index, timestamp, data, previous_hash, nonce, number) {
        lemma_same_beginning(i + t + data + previous_hash + n, d, x);
        text::law_decimal_tells_apart(difficulty, number);
    }
}

/// The hash of a block is the SHA-256 digest, in hexadecimal, of the bytes of what is hashed for it:
/// all of its own index, time, data, hash before it and difficulty, and the whole nonce.
pub proof fn law_block_hash_is_of_the_block(block: BlockView, nonce: u64)
    ensures
        block_hash(block, nonce) == hashing::hexadecimal(
            hashing::sha256(
                vstd::utf8::encode_utf8(
                    text::decimal(block.index as nat) + text::decimal(block.timestamp as nat)
                        + block.data + block.previous_hash + text::decimal(nonce as nat)
                        + text::decimal(block.difficulty as nat),
                ),
            ),
        ),
{
}

// ---- What new chains and new blocks are ------------------------------------------

/// The first block has number zero, names sixty-four zeros as the hash before it, was mined by
/// nobody for nothing, and carries its own hash.
pub proof fn law_first_block(timestamp: u64)
    ensures
        ({
            let b = genesis_block(timestamp);
            &&& b.index == 0
            &&& b.timestamp == timestamp
            &&& b.data == "Genesis Block -- CryptoCraft v1.0.0"@
            &&& b.previous_hash.len() == 64
            &&& forall|i: int| 0 <= i < 64 ==> (#[trigger] b.previous_hash[i]) == '0'
            &&& b.nonce == 0
            &&& b.difficulty == 1
            &&& b.miner == "GENESIS"@
            &&& b.reward.value() == 0
            &&& b.hash == block_hash(b, b.nonce)
        }),
{
    assert(double::size_of_bits(0) == 0);
}

/// A new chain holds its first block and nothing else; it is as easy as can be, has mined nothing
/// and has had nothing credited.
pub proof fn law_new_chain(miner_name: Seq<char>, timestamp: u64)
    ensures
        ({
            let bc = fresh_chain(miner_name, timestamp);
            &&& bc.chain.len() == 1
            &&& bc.chain[0] == genesis_block(timestamp)
            &&& bc.difficulty == 1
            &&& bc.total_mined.value() == 0
            &&& bc.miner_name == miner_name
            &&& bc.synced_through == 0
        }),
{
    assert(double::size_of_bits(0) == 0);
}

/// A block that is taken up is numbered by its place, follows the last block, and carries what it was
/// found with, the difficulty that was in force, the name of the chain's miner and the reward of its
/// place; what was mined in all is what was handed in.
pub proof fn law_block_is_taken_up_as_found(
    bc: BlockchainView,
    nonce: u64,
    hash: Seq<char>,
    attempts: u64,
    timestamp: u64,
    total_mined: Double,
)
    requires
        0 < bc.chain.len() <= u64::MAX,
    ensures
        ({
            let after = extended(bc, nonce, hash, attempts, timestamp, total_mined);
            let n = bc.chain.len() as int;
            let b = after.chain[n];
            &&& after.chain.len() == n + 1
            &&& forall|i: int| 0 <= i < n ==> (#[trigger] after.chain[i]) == bc.chain[i]
            &&& b.index == n
            &&& b.timestamp == timestamp
            &&& b.previous_hash == bc.chain[n - 1].hash
            &&& b.hash == hash
            &&& b.nonce == nonce
            &&& b.difficulty == bc.difficulty
            &&& b.miner == bc.miner_name
            &&& b.reward == reward_at(n as nat)
            &&& b.data == "Block #"@ + text::decimal(n as nat) + " mined after "@ + text::decimal(
                attempts as nat,
            ) + " attempts"@
            &&& after.total_mined == total_mined
            &&& after.miner_name == bc.miner_name
            &&& after.synced_through == bc.synced_through
        }),
{
}

/// What a solo miner sets itself to mine is the block that the chain takes up next: it has its
/// number, follows the same block, at the same difficulty and for the same reward.
pub proof fn law_template_is_the_next_block(
    bc: BlockchainView,
    miner: Seq<char>,
    timestamp: u64,
    nonce: u64,
    hash: Seq<char>,
    attempts: u64,
    found_at: u64,
    total_mined: Double,
)
    requires
        0 < bc.chain.len() <= u64::MAX,
    ensures
        ({
            let t = solo_template(bc, miner, timestamp);
            let b = extended(bc, nonce, hash, attempts, found_at, total_mined).chain.last();
            &&& t.index == b.index == bc.chain.len()
            &&& t.previous_hash == b.previous_hash
            &&& t.previous_hash == bc.chain[bc.chain.len() - 1].hash
            &&& t.difficulty == b.difficulty == bc.difficulty
            &&& t.reward == b.reward
            &&& t.timestamp == timestamp
            &&& t.miner == miner
            &&& t.data == "CryptoCraft Block #"@ + text::decimal(bc.chain.len())
        }),
{
}

/// At every tenth block the difficulty follows the pace of the last ten: it rises by one where they
/// took less than nine minutes, falls by one where they took more than thirty-six, and else stays;
/// it is never more than sixteen nor less than one. At other lengths it stays.
pub proof fn law_difficulty_follows_the_pace(chain: Seq<BlockView>, difficulty: usize)
    ensures
        chain.len() < 10 || chain.len() % 10 != 0 ==> adjusted(chain, difficulty) == difficulty,
        chain.len() >= 10 && chain.len() % 10 == 0 ==> {
            let secs = chain[chain.len() - 1].timestamp - chain[chain.len() - 10].timestamp;
            &&& secs < 540 && difficulty < 16 ==> adjusted(chain, difficulty) == difficulty + 1
            &&& secs < 540 && difficulty >= 16 ==> adjusted(chain, difficulty) == 16
            &&& 540 <= secs <= 2160 ==> adjusted(chain, difficulty) == difficulty
            &&& secs > 2160 && difficulty > 1 ==> adjusted(chain, difficulty) == difficulty - 1
            &&& secs > 2160 && difficulty <= 1 ==> adjusted(chain, difficulty) == 1
        },
{
}

/// A chain takes up blocks at any time, except where the difficulty is reconsidered and the clock
/// stands before the first of the last ten blocks.
pub proof fn law_when_a_block_can_be_taken_up(bc: BlockchainView, timestamp: u64)
    ensures
        bc.chain.len() == 0 ==> !extendable(bc, timestamp),
        bc.chain.len() > 0 && bc.chain.len() % 10 != 9 ==> extendable(bc, timestamp),
        bc.chain.len() % 10 == 9 && bc.difficulty < usize::MAX ==> (extendable(bc, timestamp)
            <==> timestamp >= bc.chain[bc.chain.len() - 9].timestamp),
        bc.chain.len() % 10 == 9 && bc.difficulty == usize::MAX ==> !extendable(bc, timestamp),
{
}

/// Where the count of halvings is beyond 31 bits, the power of two that the reward is divided by is
/// below one, and the reward grows accordingly, until it is infinite.
pub proof fn law_reward_beyond_the_last_halving(e: int)
    requires
        -0x8000_0000 <= e < 0,
    ensures
        e >= -1020 ==> reward_for_exponent(e).value() == 12 * power2::pow2((-e) as nat)
            * double::one(),
        e < -1020 ==> reward_for_exponent(e).bits == 0x7ff0_0000_0000_0000,
        halving_exponent((0x1_0000_0000 + e) as nat) == e,
        forall|h: nat| #[trigger] halving_exponent(h) == halving_exponent(h % 0x1_0000_0000),
{
    if e >= -1020 {
        let r = reward_for_exponent(e);
        let unit = 0x0010_0000_0000_0000int;
        let bits = (1026 - e) * unit + 0x0008_0000_0000_0000;
        assert(r.bits == bits && bits < double::SIGN_BIT);
        vstd::arithmetic::div_mod::lemma_fundamental_div_mod_converse(
            bits,
            unit,
            1026 - e,
            0x0008_0000_0000_0000,
        );
        let p = power2::pow2((1025 - e) as nat);
        assert(r.value() == 0x0018_0000_0000_0000int * p);
        power2::lemma2_to64_rest();
        power2::lemma_pow2_adds(49, 1025);
        power2::lemma_pow2_adds((-e) as nat, 1025);
        let (x, y) = (power2::pow2((-e) as nat), power2::pow2(1025));
        assert(0x0018_0000_0000_0000int * (x * y) == 12 * x * (power2::pow2(49) * y))
            by (nonlinear_arith)
            requires
                power2::pow2(49) == 0x2_0000_0000_0000,
        ;
    }
}

/// The starting difficulty is the logarithm to base sixteen of the hashes made in two minutes,
/// rounded down, kept between one and sixteen.
pub proof fn law_starting_difficulty_is_a_logarithm(hashrate: u64, difficulty: usize)
    requires
        suits(hashrate, difficulty),
    ensures
        1 <= difficulty <= 16,
        hashrate * 120 < 256 ==> difficulty == 1,
        hashrate * 120 >= 256 && hashrate * 120 < power::pow(16, 17) ==> power::pow(
            16,
            difficulty as nat,
        ) <= hashrate * 120 < power::pow(16, difficulty as nat + 1),
        hashrate * 120 >= power::pow(16, 17) ==> difficulty == 16,
{
    reveal_with_fuel(power::pow, 3);
    assert(power::pow(16, 2) == 256);
    if hashrate * 120 < 256 && difficulty > 1 {
        power::lemma_pow_increases(16, 2, difficulty as nat);
    }
    if hashrate * 120 >= power::pow(16, 17) && difficulty < 16 {
        power::lemma_pow_increases(16, difficulty as nat + 1, 17);
    }
    assert(power::pow(16, 1) == 16);
}

/// A saved chain is opened as it was saved; only the name of its miner is that of who opened it.
pub proof fn law_saved_chain_is_kept(saved: BlockchainView, miner_name: Seq<char>)
    ensures
        ({
            let bc = reopened(saved, miner_name);
            &&& bc.chain == saved.chain
            &&& bc.difficulty == saved.difficulty
            &&& bc.total_mined == saved.total_mined
            &&& bc.synced_through == saved.synced_through
            &&& bc.miner_name == miner_name
        }),
{
}

/// While the machine is measured, every nonce gives a text of its own to hash.
pub proof fn law_measuring_hashes_every_nonce(nonce: nat, other: nat)
    ensures
        benchmark_input(nonce).take(9) == "benchmark"@,
        text::digits_value(benchmark_input(nonce).skip(9)) == nonce,
        benchmark_input(nonce) == benchmark_input(other) ==> nonce == other,
{
    reveal_strlit("benchmark");
    text::law_decimal_reads_back(nonce);
    text::law_decimal_reads_back(other);
    assert(benchmark_input(nonce).take(9) =~= "benchmark"@);
    assert(benchmark_input(nonce).skip(9) =~= text::decimal(nonce));
    assert(benchmark_input(other).skip(9) =~= text::decimal(other));
}

} // verus!
