//! The decisions of the block monitor, which watches the pending block for
//! transactions that call the JediSwap AMM and names the tokens of each
//! add-liquidity call in them.

use vstd::prelude::*;
use crate::felt::{Felt, be_value};
use crate::seq_facts::lemma_push_contains;

verus! {

/// What the monitor remembers between two polls: the parent hash of the
/// pending block it last went through.
pub struct MonitorState {
    pub latest_block_hash: Felt,
}

impl MonitorState {
    /// The state before the first poll: the zero element, as
    /// `FieldElement::default()` is.
    pub fn new() -> (r: Self)
        ensures
            be_value(r.latest_block_hash@) == 0,
    {
        MonitorState { latest_block_hash: Felt::zero() }
    }

    /// One poll of a pending block with this parent: whether it is the
    /// block already gone through (then the monitor waits and polls again),
    /// and the state after the poll, which remembers the parent.
    pub fn step(&self, parent_hash: &Felt) -> (r: (MonitorState, bool))
        ensures
            r.1 == (self.latest_block_hash == *parent_hash),
            r.0.latest_block_hash == *parent_hash,
    {
        let same_block = self.latest_block_hash == *parent_hash;
        (MonitorState { latest_block_hash: *parent_hash }, same_block)
    }
}

/// How the lookups for one occurrence of the selector end when its token
/// positions run past the call data: with no token looked up, or after
/// looking up the first.
#[derive(Clone, Copy, Debug, PartialEq)]
pub enum PartialLookup {
    NoToken,
    FirstToken(Felt),
}

/// The token pairs that the monitor looks up, in order, while going through
/// the first `n` entries of the call data: for each entry equal to the
/// selector, the entries two and three places after it. The first
/// occurrence whose second token lies past the call data ends the lookups;
/// it is returned as the second component, and nothing after it counts.
pub open spec fn token_lookups(calldata: Seq<Felt>, add_liquidity: Felt, n: int) -> (Seq<(Felt, Felt)>, Option<PartialLookup>)
    decreases n,
{
    if n <= 0 {
        (Seq::empty(), None)
    } else {
        let prev = token_lookups(calldata, add_liquidity, n - 1);
        let i = n - 1;
        if prev.1 is Some || calldata[i] != add_liquidity {
            prev
        } else if i + 3 < calldata.len() {
            (prev.0.push((calldata[i + 2], calldata[i + 3])), None)
        } else if i + 2 < calldata.len() {
            (prev.0, Some(PartialLookup::FirstToken(calldata[i + 2])))
        } else {
            (prev.0, Some(PartialLookup::NoToken))
        }
    }
}

/// The positions, below `n`, of the entries equal to the add-liquidity
/// selector, in increasing order.
pub open spec fn selector_positions(calldata: Seq<Felt>, add_liquidity: Felt, n: int) -> Seq<int> {
    Seq::new(n as nat, |i: int| i).filter(|i: int| calldata[i] == add_liquidity)
}

/// The two entries after the entry next to position `i`.
pub open spec fn token_pair_at(calldata: Seq<Felt>, i: int) -> (Felt, Felt) {
    (calldata[i + 2], calldata[i + 3])
}

/// How the lookups for the selector at position `f` end when the second
/// token lies past the call data.
pub open spec fn partial_lookup_at(calldata: Seq<Felt>, f: int) -> PartialLookup {
    if f + 2 < calldata.len() {
        PartialLookup::FirstToken(calldata[f + 2])
    } else {
        PartialLookup::NoToken
    }
}

proof fn lemma_selector_positions_step(calldata: Seq<Felt>, add_liquidity: Felt, n: int)
    requires
        n >= 1,
    ensures
        selector_positions(calldata, add_liquidity, n) == if calldata[n - 1] == add_liquidity {
            selector_positions(calldata, add_liquidity, n - 1).push(n - 1)
        } else {
            selector_positions(calldata, add_liquidity, n - 1)
        },
{
    let all = Seq::new(n as nat, |i: int| i);
    assert(all.drop_last() =~= Seq::new((n - 1) as nat, |i: int| i));
    assert(all.last() == n - 1);
    reveal(Seq::filter);
}

proof fn lemma_token_lookups_prefix(calldata: Seq<Felt>, add_liquidity: Felt, n: int)
    requires
        0 <= n <= calldata.len(),
    ensures
        token_lookups(calldata, add_liquidity, n).1 is None <==> (forall|i: int|
            0 <= i < n && #[trigger] calldata[i] == add_liquidity ==> i + 3 < calldata.len()),
        token_lookups(calldata, add_liquidity, n).1 is None ==> token_lookups(calldata, add_liquidity, n).0
            == selector_positions(calldata, add_liquidity, n).map_values(|i: int| token_pair_at(calldata, i)),
        token_lookups(calldata, add_liquidity, n).1 is Some ==> exists|f: int|
            0 <= f < n && #[trigger] calldata[f] == add_liquidity && f + 3 >= calldata.len()
            && (forall|i: int| 0 <= i < f && #[trigger] calldata[i] == add_liquidity ==> i + 3 < calldata.len())
            && token_lookups(calldata, add_liquidity, n).0 == selector_positions(calldata, add_liquidity, f).map_values(
                |i: int| token_pair_at(calldata, i),
            )
            && token_lookups(calldata, add_liquidity, n).1 == Some(partial_lookup_at(calldata, f)),
    decreases n,
{
    if n == 0 {
        assert(selector_positions(calldata, add_liquidity, 0) =~= Seq::<int>::empty()) by {
            reveal(Seq::filter);
        }
        assert(token_lookups(calldata, add_liquidity, 0).0 =~= selector_positions(calldata, add_liquidity, 0).map_values(
            |i: int| token_pair_at(calldata, i),
        ));
    } else {
        lemma_token_lookups_prefix(calldata, add_liquidity, n - 1);
        lemma_selector_positions_step(calldata, add_liquidity, n);
        let i = n - 1;
        let prev = token_lookups(calldata, add_liquidity, n - 1);
        let pos = selector_positions(calldata, add_liquidity, n - 1);
        if prev.1 is Some {
            let f = choose|f: int|
                0 <= f < n - 1 && #[trigger] calldata[f] == add_liquidity && f + 3 >= calldata.len()
                && (forall|i: int| 0 <= i < f && #[trigger] calldata[i] == add_liquidity ==> i + 3 < calldata.len())
                && prev.0 == selector_positions(calldata, add_liquidity, f).map_values(|i: int| token_pair_at(calldata, i))
                && prev.1 == Some(partial_lookup_at(calldata, f));
            assert(calldata[f] == add_liquidity);
        } else if calldata[i] != add_liquidity {
        } else if i + 3 < calldata.len() {
            assert(pos.push(i).map_values(|j: int| token_pair_at(calldata, j)) =~= pos.map_values(
                |j: int| token_pair_at(calldata, j),
            ).push(token_pair_at(calldata, i)));
        } else {
            assert(calldata[i] == add_liquidity);
        }
    }
}

/// What the monitor looks up in call data, said by selector positions: the
/// lookups run to the end exactly when every selector has both of its
/// tokens inside the call data, and then they give the two tokens after
/// every selector, wherever it stands, in order. Otherwise they stop at the
/// first selector whose second token lies past the end, after the pairs of
/// all selectors before it, with what could be looked up for that one.
pub proof fn lemma_token_lookups_meaning(calldata: Seq<Felt>, add_liquidity: Felt)
    ensures
        token_lookups(calldata, add_liquidity, calldata.len() as int).1 is None <==> (forall|i: int|
            0 <= i < calldata.len() && #[trigger] calldata[i] == add_liquidity ==> i + 3 < calldata.len()),
        token_lookups(calldata, add_liquidity, calldata.len() as int).1 is None ==> token_lookups(
            calldata,
            add_liquidity,
            calldata.len() as int,
        ).0 == selector_positions(calldata, add_liquidity, calldata.len() as int).map_values(
            |i: int| token_pair_at(calldata, i),
        ),
        token_lookups(calldata, add_liquidity, calldata.len() as int).1 is Some ==> exists|f: int|
            0 <= f < calldata.len() && #[trigger] calldata[f] == add_liquidity && f + 3 >= calldata.len()
            && (forall|i: int| 0 <= i < f && #[trigger] calldata[i] == add_liquidity ==> i + 3 < calldata.len())
            && token_lookups(calldata, add_liquidity, calldata.len() as int).0 == selector_positions(
                calldata,
                add_liquidity,
                f,
            ).map_values(|i: int| token_pair_at(calldata, i))
            && token_lookups(calldata, add_liquidity, calldata.len() as int).1 == Some(partial_lookup_at(calldata, f)),
{
    lemma_token_lookups_prefix(calldata, add_liquidity, calldata.len() as int);
}

proof fn lemma_token_lookups_stopped(calldata: Seq<Felt>, add_liquidity: Felt, n: int, m: int)
    requires
        0 <= n <= m,
        token_lookups(calldata, add_liquidity, n).1 is Some,
    ensures
        token_lookups(calldata, add_liquidity, m) == token_lookups(calldata, add_liquidity, n),
    decreases m - n,
{
    if m > n {
        lemma_token_lookups_stopped(calldata, add_liquidity, n, m - 1);
    }
}

/// The token pairs that the monitor looks up for a transaction, one pair
/// per occurrence of the add-liquidity selector, and how the lookups end if
/// a token position runs past the call data (where the original indexing
/// panics). Only call data that names the AMM contract is looked into.
pub fn liquidity_token_lookups(calldata: &[Felt], amm_swap: &Felt, add_liquidity: &Felt) -> (r: (Vec<(Felt, Felt)>, Option<PartialLookup>))
    ensures
        calldata@.contains(*amm_swap) ==> r.0@ == token_lookups(calldata@, *add_liquidity, calldata@.len() as int).0,
        calldata@.contains(*amm_swap) ==> r.1 == token_lookups(calldata@, *add_liquidity, calldata@.len() as int).1,
        !calldata@.contains(*amm_swap) ==> r.0@.len() == 0 && r.1 is None,
        calldata@.contains(*amm_swap) && (forall|i: int| 0 <= i < calldata@.len() && #[trigger] calldata@[i] == *add_liquidity
            ==> i + 3 < calldata@.len()) ==> r.1 is None && r.0@ == selector_positions(
            calldata@,
            *add_liquidity,
            calldata@.len() as int,
        ).map_values(|i: int| token_pair_at(calldata@, i)),
{
    proof {
        lemma_token_lookups_meaning(calldata@, *add_liquidity);
    }
    let mut found = false;
    let mut j: usize = 0;
    while j < calldata.len()
        invariant
            j <= calldata@.len(),
            found == calldata@.take(j as int).contains(*amm_swap),
        decreases calldata.len() - j,
    {
        proof {
            assert(calldata@.take(j + 1) =~= calldata@.take(j as int).push(calldata@[j as int]));
            lemma_push_contains(calldata@.take(j as int), calldata@[j as int], *amm_swap);
        }
        if calldata[j] == *amm_swap {
            found = true;
        }
        j = j + 1;
    }
    assert(calldata@.take(j as int) =~= calldata@);
    let mut pairs: Vec<(Felt, Felt)> = Vec::new();
    if !found {
        return (pairs, None);
    }
    let n = calldata.len();
    let mut index: usize = 0;
    while index < n
        invariant
            n == calldata@.len(),
            index <= n,
            calldata@.contains(*amm_swap),
            token_lookups(calldata@, *add_liquidity, index as int).1 is None,
            pairs@ == token_lookups(calldata@, *add_liquidity, index as int).0,
        decreases n - index,
    {
        if calldata[index] == *add_liquidity {
            if 3 < n - index {
                pairs.push((calldata[index + 2], calldata[index + 3]));
            } else {
                let partial = if 2 < n - index {
                    PartialLookup::FirstToken(calldata[index + 2])
                } else {
                    PartialLookup::NoToken
                };
                proof {
                    lemma_token_lookups_stopped(calldata@, *add_liquidity, index + 1, n as int);
                }
                return (pairs, Some(partial));
            }
        }
        index = index + 1;
    }
    (pairs, None)
}

} // verus!
