//! Blocks of a hash chain and their proof of work.

use crate::difficulty::digest_meets_difficulty;
use crate::difficulty::low_bits_zero;
use crate::hashing::sha256;
use crate::hashing::sha256_digest;
use crate::partition::chunk_count;
use crate::partition::chunk_first;
use crate::partition::chunk_last;
use crate::partition::interval_len;
use crate::partition::holds;
use crate::partition::is_partition;
use crate::partition::partition_covers_interval;
use crate::partition::partition_is_ordered;
use crate::partition::partition_stays_inside;
use crate::partition::partition;
use crate::queue::QueueError;
use crate::queue::Rejected;
use crate::queue::Task;
use crate::queue::WorkQueue;
use crate::text::decimal_text;
use crate::text::hex_text;
use crate::text::push_decimal;
use crate::text::push_hex;
use std::sync::Arc;
use vstd::arithmetic::power2::lemma2_to64;
use vstd::arithmetic::power2::lemma2_to64_rest;
use vstd::arithmetic::power2::lemma_pow2_strictly_increases;
use vstd::arithmetic::power2::pow2;
use vstd::bits::lemma_u64_shl_is_mul;
use vstd::prelude::*;
use vstd::string::*;
use vstd::utf8::encode_utf8;

verus! {

/// The number of chunks into which a block's whole search interval is cut.
pub const SEARCH_CHUNKS: u64 = 2345;

/// What a block is, as plain values.
pub struct BlockView {
    pub prev_hash: Seq<u8>,
    pub generation: u64,
    pub difficulty: u8,
    pub data: Seq<char>,
    pub proof: Option<u64>,
}

/// One link of a hash chain.
#[derive(Debug)]
pub struct Block {
    prev_hash: [u8; 32],
    generation: u64,
    difficulty: u8,
    data: String,
    proof: Option<u64>,
}

impl View for Block {
    type V = BlockView;

    closed spec fn view(&self) -> BlockView {
        BlockView {
            prev_hash: self.prev_hash@,
            generation: self.generation,
            difficulty: self.difficulty,
            data: self.data@,
            proof: self.proof,
        }
    }
}

impl Clone for Block {
    fn clone(&self) -> (b: Block)
        ensures
            b@ == self@,
    {
        Block {
            prev_hash: self.prev_hash,
            generation: self.generation,
            difficulty: self.difficulty,
            data: self.data.clone(),
            proof: self.proof,
        }
    }
}

/// What the canonical text of a block begins with under every candidate:
/// the predecessor digest in hexadecimal, then generation, difficulty and
/// payload, the integers in decimal, each followed by a colon.
pub open spec fn text_prefix(b: BlockView) -> Seq<char> {
    hex_text(b.prev_hash) + seq![':'] + decimal_text(b.generation as nat) + seq![':']
        + decimal_text(b.difficulty as nat) + seq![':'] + b.data + seq![':']
}

/// The canonical text of a block under a candidate proof: the prefix that
/// its fields give, then the proof in decimal.
pub open spec fn canonical_text(b: BlockView, proof: u64) -> Seq<char> {
    text_prefix(b) + decimal_text(proof as nat)
}

/// The digest of a block under a candidate proof: SHA-256 of the UTF-8
/// bytes of its canonical text.
pub open spec fn digest_for_proof(b: BlockView, proof: u64) -> Seq<u8> {
    sha256_digest(encode_utf8(canonical_text(b, proof)))
}

/// Whether `proof` makes the block valid.
pub open spec fn valid_for(b: BlockView, proof: u64) -> bool {
    low_bits_zero(digest_for_proof(b, proof), b.difficulty as nat)
}

/// Whether the block holds a proof, and that proof makes it valid.
pub open spec fn is_valid_block(b: BlockView) -> bool {
    match b.proof {
        Some(p) => valid_for(b, p),
        None => false,
    }
}

/// The last candidate of a block's search interval `[0, 8 * 2^difficulty)`,
/// cut off at the largest 64-bit proof.
pub open spec fn search_end(difficulty: u8) -> u64 {
    if 8 * pow2(difficulty as nat) - 1 <= u64::MAX {
        (8 * pow2(difficulty as nat) - 1) as u64
    } else {
        u64::MAX
    }
}

/// What a scan of the candidates `lo..=hi` in ascending order reports: the
/// least valid proof among them, or that there is none.
pub open spec fn is_scan_result(b: BlockView, lo: u64, hi: u64, r: Option<u64>) -> bool {
    match r {
        Some(p) => {
            &&& lo <= p <= hi
            &&& valid_for(b, p)
            &&& forall|q: u64| lo <= q < p ==> !valid_for(b, q)
        },
        None => forall|q: u64| lo <= q <= hi ==> !valid_for(b, q),
    }
}

impl Block {
    /// The first block of a chain: no predecessor, no payload, no proof.
    pub fn initial(difficulty: u8) -> (b: Block)
        ensures
            b@ == (BlockView {
                prev_hash: Seq::new(32, |i: int| 0u8),
                generation: 0,
                difficulty,
                data: Seq::empty(),
                proof: None,
            }),
    {
        let b = Block {
            prev_hash: [0u8; 32],
            generation: 0,
            difficulty,
            data: String::new(),
            proof: None,
        };
        assert(b.prev_hash@ =~= Seq::new(32, |i: int| 0u8));
        b
    }

    /// A block that can follow `previous`: it carries the digest of
    /// `previous` under its assigned proof, the next generation, the same
    /// difficulty, the given payload and no proof.
    pub fn next(previous: &Block, data: String) -> (b: Block)
        requires
            previous@.proof is Some,
            previous@.generation < u64::MAX,
        ensures
            b@ == (BlockView {
                prev_hash: digest_for_proof(previous@, previous@.proof->0),
                generation: (previous@.generation + 1) as u64,
                difficulty: previous@.difficulty,
                data: data@,
                proof: None,
            }),
    {
        Block {
            prev_hash: previous.hash(),
            generation: previous.generation + 1,
            difficulty: previous.difficulty,
            data,
            proof: None,
        }
    }

    /// The predecessor's digest.
    pub fn prev_hash(&self) -> (h: [u8; 32])
        ensures
            h@ == self@.prev_hash,
    {
        self.prev_hash
    }

    /// The block's index in its chain.
    pub fn generation(&self) -> (g: u64)
        ensures
            g == self@.generation,
    {
        self.generation
    }

    /// The number of low-order digest bits that must be zero.
    pub fn difficulty(&self) -> (d: u8)
        ensures
            d == self@.difficulty,
    {
        self.difficulty
    }

    /// The payload.
    pub fn data(&self) -> (s: &str)
        ensures
            s@ == self@.data,
    {
        self.data.as_str()
    }

    /// The assigned proof, if any.
    pub fn assigned_proof(&self) -> (p: Option<u64>)
        ensures
            p == self@.proof,
    {
        self.proof
    }

    /// The part of the canonical text that stands before the proof.
    pub fn text_prefix(&self) -> (s: String)
        ensures
            s@ == text_prefix(self@),
    {
        let mut s = String::new();
        push_hex(&mut s, self.prev_hash.as_slice());
        s.append(":");
        push_decimal(&mut s, self.generation);
        s.append(":");
        push_decimal(&mut s, self.difficulty as u64);
        s.append(":");
        s.append(self.data.as_str());
        s.append(":");
        proof {
            reveal_strlit(":");
            assert(":"@ =~= seq![':']);
            assert(s@ =~= text_prefix(self@));
        }
        s
    }

    /// The canonical text of the block under the candidate `proof`.
    pub fn hash_string_for_proof(&self, proof: u64) -> (s: String)
        ensures
            s@ == canonical_text(self@, proof),
    {
        let mut s = self.text_prefix();
        push_decimal(&mut s, proof);
        s
    }

    /// The canonical text of the block under its assigned proof.
    pub fn hash_string(&self) -> (s: String)
        requires
            self@.proof is Some,
        ensures
            s@ == canonical_text(self@, self@.proof->0),
    {
        self.hash_string_for_proof(self.proof.unwrap())
    }

    /// The digest of the block under the candidate `proof`.
    pub fn hash_for_proof(&self, proof: u64) -> (digest: [u8; 32])
        ensures
            digest@ == digest_for_proof(self@, proof),
    {
        let s = self.hash_string_for_proof(proof);
        sha256(s.as_str().as_bytes())
    }

    /// The digest of the block under its assigned proof.
    pub fn hash(&self) -> (digest: [u8; 32])
        requires
            self@.proof is Some,
        ensures
            digest@ == digest_for_proof(self@, self@.proof->0),
    {
        self.hash_for_proof(self.proof.unwrap())
    }

    /// Assigns `proof` without checking it.
    pub fn set_proof(&mut self, proof: u64)
        ensures
            final(self)@ == (BlockView { proof: Some(proof), ..old(self)@ }),
    {
        self.proof = Some(proof);
    }

    /// Whether the block would be valid with `proof` assigned.
    pub fn is_valid_for_proof(&self, proof: u64) -> (ok: bool)
        ensures
            ok == valid_for(self@, proof),
    {
        let digest = self.hash_for_proof(proof);
        digest_meets_difficulty(&digest, self.difficulty)
    }

    /// Whether the block holds a proof that makes it valid.
    pub fn is_valid(&self) -> (ok: bool)
        ensures
            ok == is_valid_block(self@),
    {
        match self.proof {
            Some(p) => self.is_valid_for_proof(p),
            None => false,
        }
    }

    /// Scans the candidates `start..=end` in ascending order and hands back
    /// the first valid proof.
    pub fn scan(&self, start: u64, end: u64) -> (r: Option<u64>)
        ensures
            is_scan_result(self@, start, end, r),
    {
        if start > end {
            return None;
        }
        let prefix = self.text_prefix();
        let mut p: u64 = start;
        loop
            invariant
                start <= p <= end,
                prefix@ == text_prefix(self@),
                forall|q: u64| start <= q < p ==> !valid_for(self@, q),
            decreases end - p,
        {
            let mut text = prefix.clone();
            push_decimal(&mut text, p);
            let digest = sha256(text.as_str().as_bytes());
            if digest_meets_difficulty(&digest, self.difficulty) {
                return Some(p);
            }
            if p == end {
                return None;
            }
            p += 1;
        }
    }

    /// Tries every proof from 0 upward and assigns the first valid one,
    /// which makes the block valid. Hands back `false`, and leaves the
    /// block as it was, when no 64-bit proof is valid.
    pub fn mine_serial(&mut self) -> (found: bool)
        ensures
            final(self)@ == (BlockView { proof: final(self)@.proof, ..old(self)@ }),
            is_scan_result(old(self)@, 0, u64::MAX, if found { final(self)@.proof } else { None }),
            found ==> final(self)@.proof is Some && is_valid_block(final(self)@),
            !found ==> final(self)@ == old(self)@,
    {
        match self.scan(0, u64::MAX) {
            Some(p) => {
                self.proof = Some(p);
                proof {
                    assigned_proof_is_checked(old(self)@, p);
                }
                true
            },
            None => false,
        }
    }

    /// The last candidate of the block's search interval.
    pub fn search_end(&self) -> (end: u64)
        ensures
            end == search_end(self@.difficulty),
    {
        proof {
            lemma2_to64();
            lemma2_to64_rest();
        }
        if self.difficulty >= 61 {
            proof {
                if self.difficulty > 61 {
                    lemma_pow2_strictly_increases(61, self.difficulty as nat);
                }
            }
            u64::MAX
        } else {
            proof {
                if self.difficulty < 60 {
                    lemma_pow2_strictly_increases(self.difficulty as nat, 60);
                }
                lemma_u64_shl_is_mul(8, self.difficulty as u64);
            }
            (8u64 << (self.difficulty as u64)) - 1
        }
    }
}

/// Why a search ended without a proof.
#[derive(Debug, Clone, Copy, PartialEq, Eq)]
pub enum MineError {
    /// No candidate of the interval is a valid proof.
    Exhausted,
}

/// What a mining task is, as plain values.
pub struct MiningTaskView {
    pub block: BlockView,
    pub start: u64,
    pub end: u64,
}

/// One chunk of a search: a shared, read-only block and the inclusive
/// range of candidates to try on it.
pub struct MiningTask {
    block: Arc<Block>,
    start: u64,
    end: u64,
}

impl View for MiningTask {
    type V = MiningTaskView;

    closed spec fn view(&self) -> MiningTaskView {
        MiningTaskView { block: self.block@, start: self.start, end: self.end }
    }
}

/// Calls `Arc::clone`: the new handle points at the same block as `block`,
/// so both show the same value. Not proved.
#[verifier::external_body]
fn share(block: &Arc<Block>) -> (handle: Arc<Block>)
    ensures
        handle@ == block@,
{
    Arc::clone(block)
}

impl MiningTask {
    /// The task that tries the candidates `start..=end` on `block`.
    pub fn new(block: Arc<Block>, start: u64, end: u64) -> (task: MiningTask)
        ensures
            task@ == (MiningTaskView { block: block@, start, end }),
    {
        MiningTask { block, start, end }
    }

    /// The first candidate of the task's range.
    pub fn start(&self) -> (start: u64)
        ensures
            start == self@.start,
    {
        self.start
    }

    /// The last candidate of the task's range.
    pub fn end(&self) -> (end: u64)
        ensures
            end == self@.end,
    {
        self.end
    }
}

impl Task for MiningTask {
    type Output = u64;

    /// Scans the task's range in ascending order for a valid proof.
    fn run(&self) -> (r: Option<u64>)
        ensures
            is_scan_result(self@.block, self@.start, self@.end, r),
    {
        self.block.scan(self.start, self.end)
    }
}

/// The ranges of a sequence of tasks, in order.
pub open spec fn task_ranges(tasks: Seq<MiningTask>) -> Seq<(u64, u64)> {
    Seq::new(tasks.len(), |i: int| (tasks[i]@.start, tasks[i]@.end))
}

/// Task `i` of a search of `[start, end]` on block `b` in `chunks` chunks:
/// chunk `i` of the interval, tried on `b`.
pub open spec fn plan_task(b: BlockView, start: u64, end: u64, chunks: u64, i: int) -> MiningTaskView {
    MiningTaskView {
        block: b,
        start: chunk_first(
            start as int,
            interval_len(start, end),
            chunk_count(start, end, chunks),
            i,
        ) as u64,
        end: chunk_last(
            start as int,
            interval_len(start, end),
            chunk_count(start, end, chunks),
            i,
        ) as u64,
    }
}

/// `tasks` is what a search of `[start, end]` on block `b` in `chunks`
/// chunks consists of: one task per chunk, in ascending order, each on `b`.
pub open spec fn is_plan(tasks: Seq<MiningTask>, b: BlockView, start: u64, end: u64, chunks: u64) -> bool {
    &&& tasks.len() == chunk_count(start, end, chunks)
    &&& forall|i: int|
        #![trigger tasks[i]]
        0 <= i < tasks.len() ==> tasks[i]@ == plan_task(b, start, end, chunks, i)
    &&& is_partition(task_ranges(tasks), start, end)
}

/// What running `tasks` one after the other, and stopping at the first
/// output, reports: the output of the first task that has one.
pub open spec fn is_first_output(tasks: Seq<MiningTask>, r: Option<u64>) -> bool {
    match r {
        Some(p) => exists|i: int|
            #![trigger tasks[i]]
            {
                &&& 0 <= i < tasks.len()
                &&& is_scan_result(tasks[i]@.block, tasks[i]@.start, tasks[i]@.end, Some(p))
                &&& forall|k: int|
                    #![trigger tasks[k]]
                    0 <= k < i ==> is_scan_result(
                        tasks[k]@.block,
                        tasks[k]@.start,
                        tasks[k]@.end,
                        None,
                    )
            },
        None => forall|k: int|
            #![trigger tasks[k]]
            0 <= k < tasks.len() ==> is_scan_result(
                tasks[k]@.block,
                tasks[k]@.start,
                tasks[k]@.end,
                None,
            ),
    }
}

impl Block {
    /// The tasks of a search of `[start, end]` in at most `chunks` chunks:
    /// the chunks are as even as can be, none is empty, and every task
    /// shares one copy of this block.
    pub fn mining_tasks(&self, start: u64, end: u64, chunks: u64) -> (tasks: Vec<MiningTask>)
        requires
            start <= end,
            chunks >= 1,
        ensures
            is_plan(tasks@, self@, start, end, chunks),
    {
        let ranges = partition(start, end, chunks);
        let block = Arc::new(self.clone());
        let mut tasks: Vec<MiningTask> = Vec::new();
        let mut i: usize = 0;
        while i < ranges.len()
            invariant
                i <= ranges.len(),
                tasks@.len() == i,
                block@ == self@,
                forall|k: int|
                    #![trigger tasks@[k]]
                    0 <= k < i ==> tasks@[k]@ == (MiningTaskView {
                        block: self@,
                        start: ranges@[k].0,
                        end: ranges@[k].1,
                    }),
            decreases ranges.len() - i,
        {
            let r = ranges[i];
            tasks.push(MiningTask::new(share(&block), r.0, r.1));
            i += 1;
        }
        assert(task_ranges(tasks@) =~= ranges@);
        tasks
    }

    /// Hands the tasks of a search of `[start, end]` to `queue`, one per
    /// chunk and in ascending order, and stops at the first that the queue
    /// does not take. A queue that is shut down takes none; while it is
    /// open, only a channel without receivers hands a task back.
    pub fn enqueue_range(
        &self,
        queue: &mut WorkQueue<MiningTask>,
        start: u64,
        end: u64,
        chunks: u64,
    ) -> (r: Result<(), Rejected<MiningTask>>)
        requires
            start <= end,
            chunks >= 1,
        ensures
            final(queue).accepting() == old(queue).accepting(),
            final(queue).live_workers() == old(queue).live_workers(),
            !old(queue).accepting() ==> r is Err,
            r matches Err(e) ==> {
                &&& e.cause == if old(queue).accepting() {
                    QueueError::Disconnected
                } else {
                    QueueError::Closed
                }
                &&& exists|i: int|
                    0 <= i < chunk_count(start, end, chunks) && e.task@ == plan_task(
                        self@,
                        start,
                        end,
                        chunks,
                        i,
                    )
            },
    {
        let ranges = partition(start, end, chunks);
        let block = Arc::new(self.clone());
        let mut i: usize = 0;
        while i < ranges.len()
            invariant
                i <= ranges.len(),
                ranges@.len() == chunk_count(start, end, chunks),
                ranges@.len() >= 1,
                block@ == self@,
                forall|k: int|
                    #![trigger ranges@[k]]
                    0 <= k < ranges@.len() ==> plan_task(self@, start, end, chunks, k) == (
                    MiningTaskView { block: self@, start: ranges@[k].0, end: ranges@[k].1 }),
                queue.accepting() == old(queue).accepting(),
                queue.live_workers() == old(queue).live_workers(),
                i > 0 ==> old(queue).accepting(),
            decreases ranges.len() - i,
        {
            let range = ranges[i];
            let task = MiningTask::new(share(&block), range.0, range.1);
            match queue.enqueue(task) {
                Ok(_) => {},
                Err(e) => {
                    assert(e.task@ == plan_task(self@, start, end, chunks, i as int));
                    return Err(e);
                },
            }
            i += 1;
        }
        Ok(())
    }

    /// The tasks of a search of the block's whole search interval.
    pub fn search_tasks(&self) -> (tasks: Vec<MiningTask>)
        ensures
            is_plan(tasks@, self@, 0, search_end(self@.difficulty), SEARCH_CHUNKS),
    {
        self.mining_tasks(0, self.search_end(), SEARCH_CHUNKS)
    }

    /// Ends a search: assigns the proof that it found, or reports that the
    /// interval held none and leaves the block as it was.
    pub fn accept(&mut self, outcome: Option<u64>) -> (r: Result<(), MineError>)
        ensures
            match outcome {
                Some(p) => r is Ok && final(self)@ == (BlockView { proof: Some(p), ..old(self)@ }),
                None => r == Err::<(), MineError>(MineError::Exhausted) && final(self)@ == old(
                    self,
                )@,
            },
    {
        match outcome {
            Some(p) => {
                self.proof = Some(p);
                Ok(())
            },
            None => Err(MineError::Exhausted),
        }
    }
}

/// Runs `tasks` one after the other on the calling thread and hands back
/// the first output.
pub fn run_in_order(tasks: &Vec<MiningTask>) -> (r: Option<u64>)
    ensures
        is_first_output(tasks@, r),
{
    let mut i: usize = 0;
    while i < tasks.len()
        invariant
            i <= tasks.len(),
            forall|k: int|
                #![trigger tasks@[k]]
                0 <= k < i ==> is_scan_result(
                    tasks@[k]@.block,
                    tasks@[k]@.start,
                    tasks@[k]@.end,
                    None,
                ),
        decreases tasks.len() - i,
    {
        match tasks[i].run() {
            Some(p) => {
                assert(is_scan_result(tasks@[i as int]@.block, tasks@[i as int]@.start, tasks@[i as int]@.end, Some(p)));
                return Some(p);
            },
            None => {},
        }
        i += 1;
    }
    None
}

/// Validity is decided by a block's fields and the candidate alone: two
/// blocks with the same fields agree on every candidate, and so do two
/// checks of one block.
pub proof fn validity_is_deterministic(a: Block, b: Block, proof: u64)
    requires
        a@.prev_hash == b@.prev_hash,
        a@.generation == b@.generation,
        a@.difficulty == b@.difficulty,
        a@.data == b@.data,
    ensures
        digest_for_proof(a@, proof) == digest_for_proof(b@, proof),
        valid_for(a@, proof) == valid_for(b@, proof),
{
    assert(canonical_text(a@, proof) == canonical_text(b@, proof));
}

/// With difficulty 0 every candidate is a valid proof, so a scan from 0
/// reports 0.
pub proof fn zero_difficulty_accepts_every_proof(b: BlockView, proof: u64, end: u64)
    requires
        b.difficulty == 0,
    ensures
        valid_for(b, proof),
        is_scan_result(b, 0, end, Some(0)),
{
    assert(valid_for(b, 0));
}

/// A search that finds a proof finds the same one however far beyond it
/// the interval reaches: the search of a block's search interval and the
/// serial search of all 64-bit proofs agree whenever the former succeeds.
pub proof fn found_proof_outlasts_longer_search(b: BlockView, lo: u64, hi: u64, further: u64, p: u64)
    requires
        is_scan_result(b, lo, hi, Some(p)),
        hi <= further,
    ensures
        is_scan_result(b, lo, further, Some(p)),
{
}

/// An assigned proof is never taken on trust: a block to which `proof` was
/// assigned is valid exactly when `proof` meets the block's difficulty.
pub proof fn assigned_proof_is_checked(b: BlockView, proof: u64)
    ensures
        is_valid_block(BlockView { proof: Some(proof), ..b }) == valid_for(b, proof),
{
    let assigned = BlockView { proof: Some(proof), ..b };
    assert(canonical_text(assigned, proof) == canonical_text(b, proof));
}

/// Whichever task of a plan yields an output, that output is a valid proof
/// for the block and lies in the interval that was searched.
pub proof fn plan_outputs_are_valid(
    tasks: Seq<MiningTask>,
    b: BlockView,
    start: u64,
    end: u64,
    chunks: u64,
    i: int,
    proof: u64,
)
    requires
        is_plan(tasks, b, start, end, chunks),
        0 <= i < tasks.len(),
        is_scan_result(tasks[i]@.block, tasks[i]@.start, tasks[i]@.end, Some(proof)),
    ensures
        valid_for(b, proof),
        start <= proof <= end,
{
    let ranges = task_ranges(tasks);
    partition_stays_inside(ranges, start, end, i);
    assert(ranges[i] == (tasks[i]@.start, tasks[i]@.end));
}

/// Running the tasks of a plan in order finds what one scan of the whole
/// interval finds: the least valid proof of `[start, end]`, or none where
/// the interval holds none.
pub proof fn in_order_search_finds_least_proof(
    tasks: Seq<MiningTask>,
    b: BlockView,
    start: u64,
    end: u64,
    chunks: u64,
    r: Option<u64>,
)
    requires
        is_plan(tasks, b, start, end, chunks),
        is_first_output(tasks, r),
    ensures
        is_scan_result(b, start, end, r),
{
    let ranges = task_ranges(tasks);
    assert forall|k: int| 0 <= k < tasks.len() implies #[trigger] ranges[k] == (
        tasks[k]@.start,
        tasks[k]@.end,
    ) && tasks[k]@.block == b by {}
    match r {
        Some(p) => {
            let i = choose|i: int|
                #![trigger tasks[i]]
                {
                    &&& 0 <= i < tasks.len()
                    &&& is_scan_result(tasks[i]@.block, tasks[i]@.start, tasks[i]@.end, Some(p))
                    &&& forall|k: int|
                        #![trigger tasks[k]]
                        0 <= k < i ==> is_scan_result(
                            tasks[k]@.block,
                            tasks[k]@.start,
                            tasks[k]@.end,
                            None,
                        )
                };
            plan_outputs_are_valid(tasks, b, start, end, chunks, i, p);
            assert forall|q: u64| start <= q < p implies !valid_for(b, q) by {
                partition_covers_interval(ranges, start, end, q as int);
                let j = choose|j: int| 0 <= j < ranges.len() && holds(#[trigger] ranges[j], q as int);
                assert(ranges[j] == (tasks[j]@.start, tasks[j]@.end));
                assert(ranges[i] == (tasks[i]@.start, tasks[i]@.end));
                if i < j {
                    partition_is_ordered(ranges, start, end, i, j);
                } else if j < i {
                    assert(is_scan_result(tasks[j]@.block, tasks[j]@.start, tasks[j]@.end, None));
                }
            }
        },
        None => {
            assert forall|q: u64| start <= q <= end implies !valid_for(b, q) by {
                partition_covers_interval(ranges, start, end, q as int);
                let j = choose|j: int| 0 <= j < ranges.len() && holds(#[trigger] ranges[j], q as int);
                assert(ranges[j] == (tasks[j]@.start, tasks[j]@.end));
                assert(is_scan_result(tasks[j]@.block, tasks[j]@.start, tasks[j]@.end, None));
            }
        },
    }
}

} // verus!
