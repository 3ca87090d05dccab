//! The sniffer: which transactions add liquidity, and the decisions of its
//! polling loop.

pub mod chain;

use vstd::prelude::*;
use crate::felt::{Felt, lower_hex, lemma_felt_hex_identifies};
use crate::seq_facts::{lemma_push_contains, lemma_take_contains};
use self::chain::{Chain, Tx};

verus! {

/// Call data adds liquidity when it names both the AMM contract and the
/// add-liquidity selector, and these two differ.
pub open spec fn add_liquidity_detected(amm: Felt, add_liquidity: Felt, calldata: Seq<Felt>) -> bool {
    &&& amm != add_liquidity
    &&& calldata.contains(amm)
    &&& calldata.contains(add_liquidity)
}

/// Appending more call data never withdraws a detection.
pub proof fn lemma_add_liquidity_extension(amm: Felt, add_liquidity: Felt, calldata: Seq<Felt>, more: Seq<Felt>)
    requires
        add_liquidity_detected(amm, add_liquidity, calldata),
    ensures
        add_liquidity_detected(amm, add_liquidity, calldata + more),
{
    let k1 = choose|k: int| 0 <= k < calldata.len() && calldata[k] == amm;
    let k2 = choose|k: int| 0 <= k < calldata.len() && calldata[k] == add_liquidity;
    assert((calldata + more)[k1] == amm);
    assert((calldata + more)[k2] == add_liquidity);
}

/// Detection depends only on which values the call data holds, not on
/// their order or repetition.
pub proof fn lemma_add_liquidity_same_members(amm: Felt, add_liquidity: Felt, c1: Seq<Felt>, c2: Seq<Felt>)
    requires
        forall|x: Felt| c1.contains(x) <==> c2.contains(x),
    ensures
        add_liquidity_detected(amm, add_liquidity, c1) == add_liquidity_detected(amm, add_liquidity, c2),
{
}

/// The AMM contract and the selector play interchangeable parts, though
/// the scan treats an entry equal to both as the AMM contract only.
pub proof fn lemma_add_liquidity_roles(amm: Felt, add_liquidity: Felt, calldata: Seq<Felt>)
    ensures
        add_liquidity_detected(amm, add_liquidity, calldata) == add_liquidity_detected(add_liquidity, amm, calldata),
{
}

/// Scans the call data for the AMM contract and the add-liquidity selector,
/// stopping as soon as both have been seen. An entry equal to the AMM
/// contract counts only as the AMM contract.
pub fn is_add_liquidity(amm: &Felt, add_liquidity: &Felt, calldata: &[Felt]) -> (r: bool)
    ensures
        r == add_liquidity_detected(*amm, *add_liquidity, calldata@),
        r == (*amm != *add_liquidity && (exists|i: int| 0 <= i < calldata@.len() && calldata@[i] == *amm)
            && (exists|j: int| 0 <= j < calldata@.len() && calldata@[j] == *add_liquidity)),
{
    let mut value1_found = false;
    let mut value2_found = false;
    let mut i: usize = 0;
    while i < calldata.len()
        invariant
            i <= calldata@.len(),
            value1_found == calldata@.take(i as int).contains(*amm),
            value2_found == (*amm != *add_liquidity && calldata@.take(i as int).contains(
                *add_liquidity,
            )),
            !(value1_found && value2_found),
        decreases calldata.len() - i,
    {
        let data = calldata[i];
        proof {
            assert(calldata@.take(i + 1) =~= calldata@.take(i as int).push(data));
            lemma_push_contains(calldata@.take(i as int), data, *amm);
            lemma_push_contains(calldata@.take(i as int), data, *add_liquidity);
        }
        if data == *amm {
            value1_found = true;
        } else if data == *add_liquidity {
            value2_found = true;
        }
        i = i + 1;
        if value1_found && value2_found {
            proof {
                lemma_take_contains(calldata@, i as int, *amm);
                lemma_take_contains(calldata@, i as int, *add_liquidity);
            }
            return true;
        }
    }
    proof {
        assert(calldata@.take(i as int) =~= calldata@);
    }
    return false;
}


/// What the sniffer remembers between two polls of the pending block: the
/// parent hash it last saw, and how many of that block's transactions it
/// has read.
pub struct SniffState {
    pub latest_block_hash: String,
    pub latest_block_len: usize,
}

/// What the sniffer does for one poll.
pub struct SniffAction {
    /// The pending block has the parent last seen: report it and wait.
    pub same_block: bool,
    /// A new block began: look in the latest accepted block for the
    /// transactions after this many, which the last polls did not see.
    pub check_missing_from: Option<usize>,
    /// Read the pending block's transactions from this index on.
    pub scan_from: usize,
}

/// The action of one poll, given the state and the pending block's parent
/// hash and number of transactions.
pub open spec fn sniff_action(state_hash: Seq<char>, state_len: usize, parent_hash: Seq<char>, txs_len: usize) -> (bool, Option<usize>, usize) {
    let same = state_hash == parent_hash;
    let from = if same { state_len } else { 0 };
    (same, if same { None } else { Some(state_len) }, if from > txs_len { 0 } else { from })
}

/// What one poll does, by case: a poll that finds the parent already seen
/// reads from where the last poll stopped, or from the start if the block
/// shrank; a poll that finds a new parent reads from the start and asks for
/// the missed transactions after those already read.
pub proof fn lemma_sniff_poll_cases(state_hash: Seq<char>, state_len: usize, parent_hash: Seq<char>, txs_len: usize)
    ensures
        state_hash == parent_hash && state_len <= txs_len ==> sniff_action(state_hash, state_len, parent_hash, txs_len) == (true, None::<usize>, state_len),
        state_hash == parent_hash && state_len > txs_len ==> sniff_action(state_hash, state_len, parent_hash, txs_len) == (true, None::<usize>, 0usize),
        state_hash != parent_hash ==> sniff_action(state_hash, state_len, parent_hash, txs_len) == (false, Some(state_len), 0usize),
{
}

/// The index from which each poll of a run reads. The run starts from a
/// state with `state_hash` and `state_len`; every poll finds a pending block
/// with parent `parent_hash`, the `k`-th one with `lens[k]` transactions.
/// After each poll the state holds that parent and that length, as
/// `sniff_step` ensures.
pub open spec fn run_scan_starts(state_hash: Seq<char>, state_len: usize, parent_hash: Seq<char>, lens: Seq<usize>) -> Seq<usize>
    decreases lens.len(),
{
    if lens.len() == 0 {
        Seq::empty()
    } else {
        let prev = run_scan_starts(state_hash, state_len, parent_hash, lens.drop_last());
        let last_hash = if lens.len() == 1 { state_hash } else { parent_hash };
        let last_len = if lens.len() == 1 { state_len } else { lens[lens.len() - 2] };
        prev.push(sniff_action(last_hash, last_len, parent_hash, lens.last()).2)
    }
}

proof fn lemma_run_scan_starts_shape(state_hash: Seq<char>, state_len: usize, parent_hash: Seq<char>, lens: Seq<usize>)
    requires
        state_hash != parent_hash,
        forall|a: int, b: int| 0 <= a <= b < lens.len() ==> lens[a] <= lens[b],
    ensures
        run_scan_starts(state_hash, state_len, parent_hash, lens).len() == lens.len(),
        forall|k: int| 0 <= k < lens.len() ==> #[trigger] run_scan_starts(state_hash, state_len, parent_hash, lens)[k]
            == (if k == 0 { 0 } else { lens[k - 1] }),
    decreases lens.len(),
{
    if lens.len() > 0 {
        let front = lens.drop_last();
        lemma_run_scan_starts_shape(state_hash, state_len, parent_hash, front);
        let starts = run_scan_starts(state_hash, state_len, parent_hash, lens);
        let prev = run_scan_starts(state_hash, state_len, parent_hash, front);
        assert forall|k: int| 0 <= k < lens.len() implies #[trigger] starts[k] == (if k == 0 { 0 } else { lens[k - 1] }) by {
            if k < lens.len() - 1 {
                assert(starts[k] == prev[k]);
                if k > 0 {
                    assert(front[k - 1] == lens[k - 1]);
                }
            }
        }
    }
}

proof fn lemma_run_covers(lens: Seq<usize>, starts: Seq<usize>, i: int)
    requires
        starts.len() == lens.len(),
        lens.len() > 0,
        forall|a: int, b: int| 0 <= a <= b < lens.len() ==> lens[a] <= lens[b],
        forall|k: int| 0 <= k < lens.len() ==> #[trigger] starts[k] == (if k == 0 { 0 } else { lens[k - 1] }),
        0 <= i < lens.last(),
    ensures
        exists|k: int| 0 <= k < lens.len() && starts[k] <= i < #[trigger] lens[k],
    decreases lens.len(),
{
    let n = lens.len() - 1;
    if n == 0 || i >= lens[n - 1] {
        assert(starts[n] <= i < lens[n]);
    } else {
        let front = lens.drop_last();
        let sfront = starts.drop_last();
        assert forall|k: int| 0 <= k < front.len() implies #[trigger] sfront[k] == (if k == 0 { 0 } else { front[k - 1] }) by {
            assert(sfront[k] == starts[k]);
        }
        lemma_run_covers(front, sfront, i);
        let k = choose|k: int| 0 <= k < front.len() && sfront[k] <= i < #[trigger] front[k];
        assert(starts[k] <= i < lens[k]);
    }
}

/// Poll `k` of a run reads transaction index `i`.
pub open spec fn read_in_poll(starts: Seq<usize>, lens: Seq<usize>, k: int, i: int) -> bool {
    0 <= k < lens.len() && starts[k] <= i < lens[k]
}

/// Some poll of a run reads transaction index `i`.
pub open spec fn read_in_run(starts: Seq<usize>, lens: Seq<usize>, i: int) -> bool {
    exists|k: int| #[trigger] read_in_poll(starts, lens, k, i)
}

/// Over a run of polls of one pending block, whose first poll finds a parent
/// not seen before and whose transaction counts never shrink, every
/// transaction index below the last count is read exactly once: by the
/// first poll that sees more transactions than the index. The first poll
/// reads from the start; each later poll reads from where the one before
/// stopped.
pub proof fn lemma_sniff_reads_each_tx_once(state_hash: Seq<char>, state_len: usize, parent_hash: Seq<char>, lens: Seq<usize>)
    requires
        state_hash != parent_hash,
        lens.len() > 0,
        forall|a: int, b: int| 0 <= a <= b < lens.len() ==> lens[a] <= lens[b],
    ensures
        run_scan_starts(state_hash, state_len, parent_hash, lens).len() == lens.len(),
        forall|k: int| 0 <= k < lens.len() ==> #[trigger] run_scan_starts(state_hash, state_len, parent_hash, lens)[k]
            == (if k == 0 { 0 } else { lens[k - 1] }),
        forall|i: int| 0 <= i < lens.last() ==> #[trigger] read_in_run(
            run_scan_starts(state_hash, state_len, parent_hash, lens),
            lens,
            i,
        ),
        forall|i: int, k1: int, k2: int|
            #[trigger] read_in_poll(run_scan_starts(state_hash, state_len, parent_hash, lens), lens, k1, i)
            && #[trigger] read_in_poll(run_scan_starts(state_hash, state_len, parent_hash, lens), lens, k2, i)
            ==> k1 == k2,
{
    let starts = run_scan_starts(state_hash, state_len, parent_hash, lens);
    lemma_run_scan_starts_shape(state_hash, state_len, parent_hash, lens);
    assert forall|i: int| 0 <= i < lens.last() implies #[trigger] read_in_run(starts, lens, i) by {
        lemma_run_covers(lens, starts, i);
        let k = choose|k: int| 0 <= k < lens.len() && starts[k] <= i < #[trigger] lens[k];
        assert(read_in_poll(starts, lens, k, i));
    }
    assert forall|i: int, k1: int, k2: int|
        #[trigger] read_in_poll(starts, lens, k1, i) && #[trigger] read_in_poll(starts, lens, k2, i)
        implies k1 == k2 by {
        if k1 < k2 {
            assert(starts[k2] == lens[k2 - 1]);
            assert(lens[k1] <= lens[k2 - 1]);
        } else if k2 < k1 {
            assert(starts[k1] == lens[k1 - 1]);
            assert(lens[k2] <= lens[k1 - 1]);
        }
    }
}

/// A poll takes its block to be the one last seen exactly when the parent
/// hashes, as `get_parent_hash` writes them, belong to the same element.
pub proof fn lemma_same_block_iff_same_parent(last_parent: Felt, parent: Felt, state_len: usize, txs_len: usize)
    ensures
        sniff_action(lower_hex(last_parent@), state_len, lower_hex(parent@), txs_len).0 <==> last_parent == parent,
{
    if lower_hex(last_parent@) == lower_hex(parent@) {
        lemma_felt_hex_identifies(last_parent, parent);
    }
}

impl SniffState {
    /// The state before the first poll: no hash seen, nothing read.
    pub fn new() -> (r: Self)
        ensures
            r.latest_block_hash@ == Seq::<char>::empty(),
            r.latest_block_len == 0,
    {
        SniffState { latest_block_hash: String::new(), latest_block_len: 0 }
    }
}

/// One poll of the pending block: decides what to do with a block whose
/// parent hash and number of transactions are given, and the state after it.
pub fn sniff_step(state: &SniffState, parent_hash: &String, txs_len: usize) -> (r: (SniffState, SniffAction))
    ensures
        (r.1.same_block, r.1.check_missing_from, r.1.scan_from) == sniff_action(
            state.latest_block_hash@,
            state.latest_block_len,
            parent_hash@,
            txs_len,
        ),
        r.1.scan_from <= txs_len,
        r.0.latest_block_hash@ == parent_hash@,
        r.0.latest_block_len == txs_len,
{
    let mut latest_block_len = state.latest_block_len;
    let same_block = state.latest_block_hash == *parent_hash;
    let check_missing_from = if same_block {
        None
    } else {
        let seen = latest_block_len;
        latest_block_len = 0;
        Some(seen)
    };
    if latest_block_len > txs_len {
        latest_block_len = 0;
    }
    let action = SniffAction { same_block, check_missing_from, scan_from: latest_block_len };
    (SniffState { latest_block_hash: parent_hash.clone(), latest_block_len: txs_len }, action)
}

/// The indices, from `from` on and in increasing order, of the transactions
/// that the chain takes to add liquidity.
pub fn liquidity_txs<C: Chain + ?Sized>(chain_handler: &C, txs: &Vec<Tx>, from: usize) -> (r: Vec<usize>)
    requires
        from <= txs@.len(),
    ensures
        forall|k: int| 0 <= k < r@.len() ==> from <= #[trigger] r@[k] < txs@.len()
            && chain_handler.adds_liquidity(txs@[r@[k] as int]@),
        forall|k1: int, k2: int| 0 <= k1 < k2 < r@.len() ==> r@[k1] < r@[k2],
        forall|j: int| from <= j < txs@.len() && chain_handler.adds_liquidity(#[trigger] txs@[j]@)
            ==> r@.contains(j as usize),
{
    let mut r: Vec<usize> = Vec::new();
    let mut i: usize = from;
    while i < txs.len()
        invariant
            from <= i <= txs@.len(),
            forall|k: int| 0 <= k < r@.len() ==> from <= #[trigger] r@[k] < i
                && chain_handler.adds_liquidity(txs@[r@[k] as int]@),
            forall|k1: int, k2: int| 0 <= k1 < k2 < r@.len() ==> r@[k1] < r@[k2],
            forall|j: int| from <= j < i && chain_handler.adds_liquidity(#[trigger] txs@[j]@)
                ==> r@.contains(j as usize),
        decreases txs.len() - i,
    {
        let ghost before = r@;
        let adds = txs[i].is_add_liquidity(chain_handler);
        if adds {
            r.push(i);
            proof {
                assert forall|j: int| from <= j < i + 1 && chain_handler.adds_liquidity(#[trigger] txs@[j]@)
                    implies r@.contains(j as usize) by {
                    if j < i {
                        let k = choose|k: int| 0 <= k < before.len() && before[k] == j as usize;
                        assert(r@[k] == j as usize);
                    } else {
                        assert(r@[r@.len() - 1] == j as usize);
                    }
                }
            }
        }
        i = i + 1;
    }
    r
}

/// How many transactions of the latest accepted block the polls missed,
/// given how many of its transactions they read, or `None` if none.
pub fn missing_tx_count(latest_block_len: usize, txs_len: usize) -> (r: Option<usize>)
    requires
        latest_block_len <= txs_len,
    ensures
        r == if txs_len != latest_block_len {
            Some((txs_len - latest_block_len) as usize)
        } else {
            None::<usize>
        },
{
    if txs_len != latest_block_len {
        Some(txs_len - latest_block_len)
    } else {
        None
    }
}

} // verus!
