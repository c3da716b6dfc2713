//! The search for a nonce whose hash begins with enough zeros.

use crate::blockchain;
use crate::blockchain::{Block, BlockView};
use crate::hashing;
use crate::text;
use vstd::prelude::*;
use vstd::string::StrSliceExecFns;

verus! {

/// After how many hashes a thread adds them to the shared count.
pub const COUNT_UNIT: u64 = 10_000;

/// How many characters of a hash are shown while mining.
pub const PEEK_LEN: usize = 16;

// ---- When a hash is good enough ---------------------------------------------------

/// Whether a hash begins with as many zeros as the difficulty asks for.
pub open spec fn meets(hash: Seq<char>, difficulty: nat) -> bool {
    text::begins(hash, text::repeated('0', difficulty))
}

/// The number of zeros that a text begins with.
pub open spec fn zeros(hash: Seq<char>) -> nat
    decreases hash.len(),
{
    if hash.len() > 0 && hash[0] == '0' {
        1 + zeros(hash.drop_first())
    } else {
        0
    }
}

/// A hash is good enough exactly if it begins with at least as many zeros as the difficulty.
pub proof fn law_meets_counts_zeros(hash: Seq<char>, difficulty: nat)
    ensures
        meets(hash, difficulty) <==> zeros(hash) >= difficulty,
    decreases difficulty,
{
    let want = text::repeated('0', difficulty);
    if difficulty == 0 {
        assert(hash.subrange(0, 0) =~= want);
    } else if hash.len() == 0 || hash[0] != '0' {
        if meets(hash, difficulty) {
            assert(hash.subrange(0, difficulty as int)[0] == want[0]);
        }
    } else {
        let rest = hash.drop_first();
        let less = text::repeated('0', (difficulty - 1) as nat);
        law_meets_counts_zeros(rest, (difficulty - 1) as nat);
        if meets(rest, (difficulty - 1) as nat) {
            assert forall|i: int| 0 <= i < difficulty implies hash[i] == '0' by {
                if i > 0 {
                    assert(rest.subrange(0, difficulty - 1)[i - 1] == less[i - 1]);
                    assert(hash[i] == rest[i - 1]);
                }
            }
            assert(hash.subrange(0, difficulty as int) =~= want);
        }
        if meets(hash, difficulty) {
            assert forall|i: int| 0 <= i < difficulty - 1 implies rest[i] == '0' by {
                assert(hash.subrange(0, difficulty as int)[i + 1] == want[i + 1]);
            }
            assert(rest.subrange(0, difficulty - 1) =~= less);
        }
    }
}

/// Counts the zeros that a hash begins with.
pub fn leading_zeros(hash: &str) -> (n: usize)
    ensures
        n == zeros(hash@),
{
    let chars = text::chars_of(hash);
    let mut n: usize = 0;
    assert(hash@.skip(0) =~= hash@);
    while n < chars.len() && chars[n] == '0'
        invariant
            chars@ == hash@,
            n <= chars@.len(),
            zeros(hash@) == n + zeros(hash@.skip(n as int)),
        decreases chars@.len() - n,
    {
        assert(hash@.skip(n as int).drop_first() =~= hash@.skip(n + 1));
        n = n + 1;
    }
    n
}

/// Whether a hash begins with as many zeros as the difficulty asks for.
pub fn meets_difficulty(hash: &str, difficulty: usize) -> (yes: bool)
    ensures
        yes == meets(hash@, difficulty as nat),
{
    proof {
        law_meets_counts_zeros(hash@, difficulty as nat);
    }
    leading_zeros(hash) >= difficulty
}

/// Whether every block of a chain but the first has a hash that meets the difficulty under which it
/// was mined.
pub open spec fn proven(chain: Seq<BlockView>) -> bool {
    forall|i: int|
        0 < i < chain.len() ==> meets(
            (#[trigger] chain[i]).hash,
            chain[i].difficulty as nat,
        )
}

/// The beginning of a hash, as it is shown while mining.
pub open spec fn peek(hash: Seq<char>) -> Seq<char> {
    hash.take(PEEK_LEN as int)
}

/// The beginning of a hash, as it is shown while mining.
pub fn peek_of(hash: &str) -> (peek: String)
    requires
        hash@.len() >= PEEK_LEN,
    ensures
        peek@ == hash@.take(PEEK_LEN as int),
        peek@ == self::peek(hash@),
{
    assert(hash@.take(16) =~= hash@.subrange(0, 16));
    hash.substring_char(0, PEEK_LEN).to_owned()
}

// ---- What is searched -------------------------------------------------------------

/// A block to be mined.
pub struct Job {
    pub index: u64,
    pub timestamp: u64,
    pub data: String,
    pub previous_hash: String,
    pub difficulty: usize,
}

impl Job {
    /// The hash that a nonce gives.
    pub open spec fn hash_with(self, nonce: u64) -> Seq<char> {
        hashing::fingerprint(
            blockchain::hash_input(
                self.index as nat,
                self.timestamp as nat,
                self.data@,
                self.previous_hash@,
                nonce as nat,
                self.difficulty as nat,
            ),
        )
    }

    /// Whether a nonce solves the job.
    pub open spec fn solved_by(self, nonce: u64) -> bool {
        meets(self.hash_with(nonce), self.difficulty as nat)
    }

    /// The job of mining a block that has not been hashed yet.
    pub fn for_block(template: &Block) -> (job: Job)
        ensures
            forall|nonce: u64|
                #![trigger job.hash_with(nonce)]
                job.hash_with(nonce) == blockchain::block_hash(template@, nonce),
            job.difficulty == template.difficulty,
            job.index == template.index,
            job.timestamp == template.timestamp,
            job.data@ == template.data@,
            job.previous_hash@ == template.previous_hash@,
    {
        Job {
            index: template.index,
            timestamp: template.timestamp,
            data: template.data.clone(),
            previous_hash: template.previous_hash.clone(),
            difficulty: template.difficulty,
        }
    }
}

// ---- How one thread searches --------------------------------------------------------

/// Where one thread's search stands.
#[derive(Clone, Copy, Debug, PartialEq, Eq, Structural)]
pub struct Search {
    /// The nonce to try next, if there is one.
    pub next: Option<u64>,
    /// The last nonce to try; none if the search goes on past the largest number to zero.
    pub last: Option<u64>,
    /// The hashes made since the shared count was raised.
    pub uncounted: u64,
}

/// What came of trying one nonce.
pub struct Trial {
    pub nonce: u64,
    pub hash: String,
    /// Whether a whole unit of hashes is to be added to the shared count.
    pub count: bool,
    /// Whether the nonce solves the job.
    pub solved: bool,
}

/// The number after a given one, with zero after the largest.
pub open spec fn following(n: u64) -> u64 {
    if n == u64::MAX {
        0
    } else {
        (n + 1) as u64
    }
}

/// Where a search stands after it has tried one nonce.
pub open spec fn tried(s: Search, job: Job) -> Search {
    match s.next {
        None => s,
        Some(nonce) => Search {
            next: if job.solved_by(nonce) || s.last == Some(nonce) {
                None
            } else {
                Some(following(nonce))
            },
            last: s.last,
            uncounted: if s.uncounted + 1 >= COUNT_UNIT {
                0
            } else {
                (s.uncounted + 1) as u64
            },
        },
    }
}

impl Search {
    /// The search of one thread of several through all nonces, each through its own part.
    pub fn part(thread: u64, threads: u64) -> (s: Search)
        requires
            thread < threads,
        ensures
            s.next == Some(part_start(thread, threads)),
            s.last == Some(part_end(thread, threads)),
            s.uncounted == 0,
    {
        proof {
            lemma_parts_fit(thread, threads);
        }
        let chunk: u64 = u64::MAX / threads;
        let start: u64 = thread * chunk;
        let end: u64 = if thread == threads - 1 { u64::MAX } else { start + chunk };
        Search { next: Some(start), last: Some(end), uncounted: 0 }
    }

    /// The endless search of one thread of several, spread out evenly from a common base.
    pub fn spread(base: u64, thread: u64, threads: u64) -> (s: Search)
        requires
            thread < threads,
        ensures
            s.next == Some(((base + thread * (u64::MAX / threads)) % 0x1_0000_0000_0000_0000) as u64),
            s.last is None,
            s.uncounted == 0,
    {
        proof {
            lemma_parts_fit(thread, threads);
        }
        let chunk: u64 = u64::MAX / threads;
        let start: u64 = base.wrapping_add(thread * chunk);
        Search { next: Some(start), last: None, uncounted: 0 }
    }

    /// Tries the next nonce. The search is over once a nonce solves the job or the last one
    /// has been tried.
    pub fn try_next(&mut self, job: &Job) -> (trial: Trial)
        requires
            old(self).next is Some,
            old(self).uncounted < COUNT_UNIT,
        ensures
            trial.nonce == old(self).next->0,
            trial.hash@ == job.hash_with(trial.nonce),
            trial.hash@.len() == 64,
            trial.solved == job.solved_by(trial.nonce),
            trial.count == (old(self).uncounted + 1 == COUNT_UNIT),
            *final(self) == tried(*old(self), *job),
            final(self).uncounted < COUNT_UNIT,
    {
        let nonce: u64 = match self.next {
            Some(n) => n,
            None => 0,
        };
        let hash = blockchain::hash_parts(
            job.index,
            job.timestamp,
            job.data.as_str(),
            job.previous_hash.as_str(),
            nonce,
            job.difficulty,
        );
        let made: u64 = self.uncounted + 1;
        let count = made == COUNT_UNIT;
        self.uncounted = if count { 0 } else { made };
        let solved = meets_difficulty(hash.as_str(), job.difficulty);
        let at_end = match self.last {
            Some(end) => end == nonce,
            None => false,
        };
        self.next = if solved || at_end {
            None
        } else if nonce == u64::MAX {
            Some(0)
        } else {
            Some(nonce + 1)
        };
        Trial { nonce, hash, count, solved }
    }
}

// ---- What the searches cover --------------------------------------------------------

/// The first nonce of a thread's part.
pub open spec fn part_start(thread: u64, threads: u64) -> u64 {
    (thread * (u64::MAX / threads)) as u64
}

/// The last nonce of a thread's part.
pub open spec fn part_end(thread: u64, threads: u64) -> u64 {
    if thread == threads - 1 {
        u64::MAX
    } else {
        (part_start(thread, threads) + u64::MAX / threads) as u64
    }
}

proof fn lemma_parts_fit(thread: u64, threads: u64)
    requires
        thread < threads,
    ensures
        u64::MAX / threads > 0,
        thread * (u64::MAX / threads) <= u64::MAX,
        thread < threads - 1 ==> thread * (u64::MAX / threads) + u64::MAX / threads <= u64::MAX,
{
    let chunk = (u64::MAX / threads) as int;
    let (t, n) = (thread as int, threads as int);
    vstd::arithmetic::div_mod::lemma_fundamental_div_mod(u64::MAX as int, n);
    assert(chunk >= 1) by {
        vstd::arithmetic::div_mod::lemma_div_non_zero(u64::MAX as int, n);
    }
    assert(n * chunk <= u64::MAX);
    assert(t * chunk + chunk <= n * chunk) by (nonlinear_arith)
        requires
            t + 1 <= n,
            chunk >= 0,
    ;
    assert(t * chunk >= 0) by (nonlinear_arith)
        requires
            t >= 0,
            chunk >= 0,
    ;
}

/// Together the threads of a solo miner search through every nonce: each nonce lies in the part
/// of some thread.
pub proof fn law_parts_cover_all_nonces(nonce: u64, threads: u64) -> (thread: u64)
    requires
        threads > 0,
    ensures
        thread < threads,
        part_start(thread, threads) <= nonce <= part_end(thread, threads),
{
    lemma_parts_fit(0, threads);
    let chunk = (u64::MAX / threads) as int;
    let q = nonce as int / chunk;
    vstd::arithmetic::div_mod::lemma_fundamental_div_mod(nonce as int, chunk);
    assert(q >= 0) by {
        vstd::arithmetic::div_mod::lemma_div_pos_is_pos(nonce as int, chunk);
    }
    let last = (threads - 1) as int;
    if q < last {
        let t = q as u64;
        lemma_parts_fit(t, threads);
        assert(chunk * q == q * chunk) by (nonlinear_arith);
        t
    } else {
        lemma_parts_fit((threads - 1) as u64, threads);
        assert(last * chunk <= chunk * q) by (nonlinear_arith)
            requires
                last <= q,
                chunk > 0,
        ;
        (threads - 1) as u64
    }
}

/// Where a search stands after it has tried some nonces.
pub open spec fn tried_many(s: Search, job: Job, n: nat) -> Search
    decreases n,
{
    if n == 0 {
        s
    } else {
        tried(tried_many(s, job, (n - 1) as nat), job)
    }
}

/// A search tries the nonces of its part in order and skips none: as long as none has solved the
/// job and the end is not reached, the nonce that it tries after `n` others is `n` further on.
pub proof fn law_search_skips_nothing(s: Search, job: Job, start: u64, end: u64, n: nat)
    requires
        s.next == Some(start),
        s.last == Some(end),
        start + n <= end,
        forall|k: u64| start <= k < start + n ==> !job.solved_by(k),
    ensures
        tried_many(s, job, n).next == Some((start + n) as u64),
        tried_many(s, job, n).last == s.last,
    decreases n,
{
    if n > 0 {
        law_search_skips_nothing(s, job, start, end, (n - 1) as nat);
        assert(!job.solved_by((start + (n - 1)) as u64));
    }
}

/// The endless search of a pool client tries every nonce before it tries one again: as long as
/// none has solved the job, the nonce that it tries after `n` others is `n` further on, with
/// zero after the largest.
pub proof fn law_endless_search_goes_round(s: Search, job: Job, start: u64, n: nat)
    requires
        s.next == Some(start),
        s.last is None,
        forall|k: u64| !job.solved_by(k),
    ensures
        tried_many(s, job, n).next == Some(((start + n) % 0x1_0000_0000_0000_0000) as u64),
        tried_many(s, job, n).last is None,
    decreases n,
{
    if n > 0 {
        law_endless_search_goes_round(s, job, start, (n - 1) as nat);
        let before = ((start + (n - 1)) % 0x1_0000_0000_0000_0000) as u64;
        assert(!job.solved_by(before));
        assert((start + n) % 0x1_0000_0000_0000_0000 == following(before));
    }
}

// ---- The machine --------------------------------------------------------------------

/// Trusted: `num_cpus::get` counts the processors of the machine. Nothing is promised of the
/// count.
pub assume_specification[ num_cpus::get ]() -> usize
;

/// Trusted: `rand::random` draws a number. Nothing is promised of it.
#[verifier::external_body]
fn random_u64() -> (n: u64) {
    rand::random()
}

/// How many threads to mine with: one for each processor, and at least one. How many processors
/// there are is left open.
pub fn thread_count() -> (n: usize)
    ensures
        n >= 1,
{
    at_least_one(num_cpus::get())
}

/// How many threads a machine with a number of processors mines with.
pub open spec fn threads_for(cpus: usize) -> usize {
    if cpus == 0 {
        1
    } else {
        cpus
    }
}

/// A count of processors, or one where there seems to be none.
pub fn at_least_one(cpus: usize) -> (n: usize)
    ensures
        n == (if cpus == 0 { 1 } else { cpus }),
        n == threads_for(cpus),
{
    if cpus == 0 { 1 } else { cpus }
}

/// The searches of a pool client's threads, from a base drawn at random.
pub fn spread_searches(threads: usize) -> (searches: Vec<Search>)
    ensures
        exists|base: u64| spread_from(searches@, base, threads),
{
    let base: u64 = random_u64();
    spread_searches_from(base, threads)
}

/// Whether these are the searches of a pool client's threads from a given base.
pub open spec fn spread_from(searches: Seq<Search>, base: u64, threads: usize) -> bool {
    &&& searches.len() == threads
    &&& forall|t: int|
        0 <= t < threads ==> (#[trigger] searches[t]) == (Search {
            next: Some(
                ((base + t * (u64::MAX / (threads as u64))) % 0x1_0000_0000_0000_0000) as u64,
            ),
            last: None,
            uncounted: 0,
        })
}

/// The searches of a pool client's threads from a given base.
pub fn spread_searches_from(base: u64, threads: usize) -> (searches: Vec<Search>)
    ensures
        spread_from(searches@, base, threads),
{
    let mut searches: Vec<Search> = Vec::new();
    let mut t: usize = 0;
    while t < threads
        invariant
            t <= threads,
            searches@.len() == t,
            forall|i: int|
                0 <= i < t ==> (#[trigger] searches@[i]) == (Search {
                    next: Some(
                        ((base + i * (u64::MAX / (threads as u64)))
                            % 0x1_0000_0000_0000_0000) as u64,
                    ),
                    last: None,
                    uncounted: 0,
                }),
        decreases threads - t,
    {
        searches.push(Search::spread(base, t as u64, threads as u64));
        t = t + 1;
    }
    searches
}

/// Whether these are the searches of a solo miner's threads.
pub open spec fn parted(searches: Seq<Search>, threads: usize) -> bool {
    &&& searches.len() == threads
    &&& forall|t: int|
        0 <= t < threads ==> (#[trigger] searches[t]) == (Search {
            next: Some(part_start(t as u64, threads as u64)),
            last: Some(part_end(t as u64, threads as u64)),
            uncounted: 0,
        })
}

/// The searches of a solo miner's threads, which part all nonces among them.
pub fn part_searches(threads: usize) -> (searches: Vec<Search>)
    ensures
        parted(searches@, threads),
{
    let mut searches: Vec<Search> = Vec::new();
    let mut t: usize = 0;
    while t < threads
        invariant
            t <= threads,
            searches@.len() == t,
            forall|i: int|
                0 <= i < t ==> (#[trigger] searches@[i]) == (Search {
                    next: Some(part_start(i as u64, threads as u64)),
                    last: Some(part_end(i as u64, threads as u64)),
                    uncounted: 0,
                }),
        decreases threads - t,
    {
        searches.push(Search::part(t as u64, threads as u64));
        t = t + 1;
    }
    searches
}

// ---- What mining promises -----------------------------------------------------------

/// The number of zeros that a text begins with: so many characters are zeros, and the next, if there
/// is one, is not.
pub proof fn law_zeros_are_counted(hash: Seq<char>)
    ensures
        zeros(hash) <= hash.len(),
        forall|i: int| 0 <= i < zeros(hash) ==> (#[trigger] hash[i]) == '0',
        zeros(hash) < hash.len() ==> hash[zeros(hash) as int] != '0',
    decreases hash.len(),
{
    if hash.len() > 0 && hash[0] == '0' {
        let rest = hash.drop_first();
        law_zeros_are_counted(rest);
        assert forall|i: int| 0 <= i < zeros(hash) implies (#[trigger] hash[i]) == '0' by {
            if i > 0 {
                assert(rest[i - 1] == hash[i]);
            }
        }
        if zeros(hash) < hash.len() {
            assert(rest[zeros(rest) as int] == hash[zeros(hash) as int]);
        }
    }
}

/// A hash is good enough exactly if it is long enough and each of its first characters, as many as
/// the difficulty, is a zero.
pub proof fn law_good_hashes_begin_with_zeros(hash: Seq<char>, difficulty: nat)
    ensures
        meets(hash, difficulty) <==> difficulty <= hash.len() && forall|i: int|
            0 <= i < difficulty ==> (#[trigger] hash[i]) == '0',
{
    law_meets_counts_zeros(hash, difficulty);
    law_zeros_are_counted(hash);
    if difficulty <= hash.len() && (forall|i: int|
        0 <= i < difficulty ==> (#[trigger] hash[i]) == '0') && zeros(hash) < difficulty {
        assert(hash[zeros(hash) as int] == '0');
    }
}

/// The hash that a nonce gives is the digest, in hexadecimal, of the bytes of the job's own index,
/// time, data, hash before it, of the whole nonce and of the difficulty; the nonce solves the job
/// exactly if that begins with as many zeros as the difficulty.
pub proof fn law_solutions_are_hashes_with_zeros(job: Job, nonce: u64)
    ensures
        job.hash_with(nonce) == hashing::hexadecimal(
            hashing::sha256(
                vstd::utf8::encode_utf8(
                    text::decimal(job.index as nat) + text::decimal(job.timestamp as nat)
                        + job.data@ + job.previous_hash@ + text::decimal(nonce as nat)
                        + text::decimal(job.difficulty as nat),
                ),
            ),
        ),
        job.solved_by(nonce) <==> job.difficulty <= job.hash_with(nonce).len() && forall|i: int|
            0 <= i < job.difficulty ==> (#[trigger] job.hash_with(nonce)[i]) == '0',
{
    law_good_hashes_begin_with_zeros(job.hash_with(nonce), job.difficulty as nat);
}

/// A search is over once a nonce solves the job or was the last one, and not before; else the next
/// number follows, zero after the largest. Every hash is counted: those that were not counted yet,
/// with the ten thousand that now are, are one more than before.
pub proof fn law_search_goes_on_until_it_is_over(s: Search, job: Job, nonce: u64)
    requires
        s.next == Some(nonce),
        s.uncounted < 10_000,
    ensures
        tried(s, job).next is None <==> job.solved_by(nonce) || s.last == Some(nonce),
        tried(s, job).next matches Some(next) ==> next == (if nonce == 0xffff_ffff_ffff_ffff {
            0
        } else {
            nonce + 1
        }),
        tried(s, job).last == s.last,
        tried(s, job).uncounted + (if s.uncounted == 9_999 {
            10_000int
        } else {
            0int
        }) == s.uncounted + 1,
{
}

/// The parts of a solo miner's threads begin at zero, end at the largest number, and each begins where
/// the one before it ends.
pub proof fn law_parts_join(thread: u64, threads: u64)
    requires
        thread < threads,
    ensures
        thread == 0 ==> part_start(thread, threads) == 0,
        thread == threads - 1 ==> part_end(thread, threads) == u64::MAX,
        thread < threads - 1 ==> part_end(thread, threads) == part_start(
            (thread + 1) as u64,
            threads,
        ),
        part_start(thread, threads) <= part_end(thread, threads),
        thread < threads - 1 ==> part_end(thread, threads) - part_start(thread, threads)
            == 0xffff_ffff_ffff_ffffint / threads as int,
{
    lemma_parts_fit(thread, threads);
    let (t, c) = (thread as int, (u64::MAX / threads) as int);
    assert((t + 1) * c == t * c + c) by (nonlinear_arith);
    assert(0 * c == 0);
}

/// The searches of a solo miner's threads are one for each thread, each through its own part.
pub proof fn law_every_thread_has_its_part(searches: Seq<Search>, threads: usize, t: int)
    requires
        parted(searches, threads),
        0 <= t < threads,
    ensures
        searches.len() == threads,
        searches[t].next == Some(part_start(t as u64, threads as u64)),
        searches[t].last == Some(part_end(t as u64, threads as u64)),
        searches[t].uncounted == 0,
{
}

/// The searches of a pool client's threads begin at the base and then at equal distances, as many as
/// there are threads; they have no end.
pub proof fn law_searches_are_spread_evenly(
    searches: Seq<Search>,
    base: u64,
    threads: usize,
    t: int,
)
    requires
        spread_from(searches, base, threads),
        0 <= t < threads,
    ensures
        searches.len() == threads,
        searches[0].next == Some(base),
        searches[t].last is None,
        searches[t].uncounted == 0,
        searches[t].next matches Some(start) && (start - base - t * (0xffff_ffff_ffff_ffffint
            / threads as int)) % 0x1_0000_0000_0000_0000 == 0,
{
    let m = 0x1_0000_0000_0000_0000int;
    let step = 0xffff_ffff_ffff_ffffint / threads as int;
    let x = base + t * step;
    let start = (x % m) as u64;
    assert(searches[t].next == Some(start));
    assert(searches[0].next == Some(((base + 0 * step) % m) as u64));
    assert(0 * step == 0);
    assert(start - x == -(x / m) * m) by {
        vstd::arithmetic::div_mod::lemma_fundamental_div_mod(x, m);
        assert(m * (x / m) == (x / m) * m) by (nonlinear_arith);
        assert(-(x / m) * m == -((x / m) * m)) by (nonlinear_arith);
    }
    vstd::arithmetic::div_mod::lemma_mod_multiples_basic(-(x / m), m);
}

/// What is shown of a hash while mining are its first sixteen characters, each as it is.
pub proof fn law_peek_is_the_beginning(hash: Seq<char>, i: int)
    requires
        hash.len() >= 16,
        0 <= i < 16,
    ensures
        peek(hash).len() == 16,
        peek(hash)[i] == hash[i],
{
}

/// Every processor mines, and at least one thread does.
pub proof fn law_every_processor_mines(cpus: usize)
    ensures
        cpus >= 1 ==> threads_for(cpus) == cpus,
        threads_for(0) == 1,
{
}

/// A search finds the first solution of its part, however far it is: it comes to that nonce, and ends
/// there.
pub proof fn law_search_finds_the_first_solution(
    s: Search,
    job: Job,
    start: u64,
    end: u64,
    solution: u64,
)
    requires
        s.next == Some(start),
        s.last == Some(end),
        start <= solution <= end,
        job.solved_by(solution),
        forall|k: u64| start <= k < solution ==> !job.solved_by(k),
    ensures
        tried_many(s, job, (solution - start) as nat).next == Some(solution),
        tried_many(s, job, (solution - start + 1) as nat).next is None,
{
    let n = (solution - start) as nat;
    law_search_skips_nothing(s, job, start, end, n);
    assert(tried_many(s, job, n + 1) == tried(tried_many(s, job, n), job));
}

} // verus!
