//! The persisted data model of the breeding ledger: the global configuration,
//! the identifier allocator, and the per-process breeding record.

use vstd::prelude::*;

use crate::error::BreedError;

verus! {

/// An opaque caller identity (a canonical address in the host environment).
/// The core compares identities only for equality of their canonical text.
#[derive(Debug)]
pub struct Identity(pub String);

impl View for Identity {
    type V = Seq<char>;

    open spec fn view(&self) -> Seq<char> {
        self.0@
    }
}

impl PartialEq for Identity {
    fn eq(&self, other: &Identity) -> bool {
        self.0 == other.0
    }
}

impl vstd::std_specs::cmp::PartialEqSpecImpl for Identity {
    open spec fn obeys_eq_spec() -> bool {
        true
    }

    open spec fn eq_spec(&self, other: &Identity) -> bool {
        self.0@ == other.0@
    }
}

impl Clone for Identity {
    fn clone(&self) -> (r: Identity)
        ensures
            r == *self,
    {
        Identity(self.0.clone())
    }
}

/// The global tunables of the ledger.
///
/// The four breeding parameters drive the core; the remaining fields are
/// opaque pass-through metadata for the external child-asset collaborator.
/// Invariant: `breed_duration` is at least one second.
#[derive(Debug)]
pub struct Config {
    /// The maximum number of records the allocator will ever issue.
    pub breed_count_limit: u32,
    /// Seconds that must elapse before a record matures.
    pub breed_duration: u64,
    /// Fee charged per breed: amount.
    pub breed_price_amount: u128,
    /// Fee charged per breed: currency denomination.
    pub breed_price_denom: String,
    /// Opaque pass-through: time the breeding program opens.
    pub breed_start_time: u64,
    /// Opaque pass-through: base URI for child-asset metadata.
    pub child_base_uri: String,
    /// Opaque pass-through: the child-asset contract.
    pub child_contract_addr: Identity,
    /// Opaque pass-through: maximum supply of child assets.
    pub child_nft_max_supply: u32,
    /// Opaque pass-through: the parent-asset contract.
    pub parent_contract_addr: Identity,
}

impl Config {
    /// The configuration invariant: a breeding process always takes time.
    pub open spec fn wf(self) -> bool {
        self.breed_duration >= 1
    }
}

/// The configuration together with the current administrator identity.
/// Exactly one instance exists; created at initialization, changed only by
/// `update_config`.
#[derive(Debug)]
pub struct ConfigState {
    pub config: Config,
    pub owner: Identity,
}

/// The identifier allocator: `count` records were ever issued under the
/// capacity check, and `latest_id` is the highest identifier handed out.
/// Identifiers are issued strictly increasing, starting at 1.
#[derive(Clone, Copy, Debug, PartialEq, Eq, Structural)]
pub struct BreedCount {
    pub count: u64,
    pub latest_id: u64,
}

/// The transition `next_id` makes on success: the capacity check passed,
/// the next identifier in sequence was issued, and both counters advanced.
pub open spec fn next_id_issues(pre: BreedCount, post: BreedCount, id: u64, limit: u32) -> bool {
    &&& pre.count < limit
    &&& id == pre.latest_id + 1
    &&& post.latest_id == id
    &&& post.count == pre.count + 1
}

impl BreedCount {
    /// Mints the next record identifier, or fails with `CapacityExceeded`
    /// once `count` has reached the configured limit. This is the sole path
    /// by which identifiers come into being.
    pub fn next_id(&mut self, limit: u32) -> (r: Result<u64, BreedError>)
        requires
            old(self).latest_id < u64::MAX,
        ensures
            match r {
                Ok(id) => next_id_issues(*old(self), *final(self), id, limit),
                Err(e) => {
                    &&& e == BreedError::CapacityExceeded
                    &&& old(self).count >= limit
                    &&& *final(self) == *old(self)
                },
            },
    {
        if self.count >= limit as u64 {
            return Err(BreedError::CapacityExceeded);
        }
        let id = self.latest_id + 1;
        self.count = self.count + 1;
        self.latest_id = id;
        Ok(id)
    }

    /// How many records were ever issued.
    pub fn current_count(&self) -> (c: u64)
        ensures
            c == self.count,
    {
        self.count
    }
}

/// Successive successful calls of `next_id` issue exactly the identifiers
/// `1, 2, ..., N`, with no gaps and no repeats, and advance `count` by one
/// per identifier — so a counter started at zero serves exactly `limit`
/// requests before the capacity check fails.
pub proof fn lemma_next_id_sequence(states: Seq<BreedCount>, ids: Seq<u64>, limit: u32)
    requires
        states.len() == ids.len() + 1,
        states[0].latest_id == 0,
        forall|k: int|
            0 <= k < ids.len() ==> #[trigger] next_id_issues(
                states[k],
                states[k + 1],
                ids[k],
                limit,
            ),
    ensures
        forall|k: int| 0 <= k < ids.len() ==> #[trigger] ids[k] == k + 1,
        states[states.len() - 1].latest_id == ids.len(),
        states[states.len() - 1].count == states[0].count + ids.len(),
        states[0].count == 0 && ids.len() >= limit ==> states[states.len() - 1].count >= limit,
    decreases ids.len(),
{
    if ids.len() > 0 {
        let n = ids.len() as int;
        assert forall|k: int| 0 <= k < ids.drop_last().len() implies #[trigger] next_id_issues(
            states.drop_last()[k],
            states.drop_last()[k + 1],
            ids.drop_last()[k],
            limit,
        ) by {
            assert(next_id_issues(states[k], states[k + 1], ids[k], limit));
        }
        lemma_next_id_sequence(states.drop_last(), ids.drop_last(), limit);
        assert(next_id_issues(states[n - 1], states[n], ids[n - 1], limit));
        assert(states.drop_last()[n - 1] == states[n - 1]);
        assert forall|k: int| 0 <= k < ids.len() implies #[trigger] ids[k] == k + 1 by {
            if k < n - 1 {
                assert(ids.drop_last()[k] == k + 1);
            }
        }
    }
}

/// One breeding process: started by `owner` over the two named parent
/// assets at `start_time`, maturing at `end_time`, settled at most once.
#[derive(Debug)]
pub struct Breed {
    pub id: u64,
    pub owner: Identity,
    pub nft_token_id1: String,
    pub nft_token_id2: String,
    pub start_time: u64,
    pub end_time: u64,
    pub is_withdrawn: bool,
}

impl Breed {
    pub fn new(
        id: u64,
        owner: Identity,
        nft_token_id1: String,
        nft_token_id2: String,
        start_time: u64,
        end_time: u64,
        is_withdrawn: bool,
    ) -> (r: Breed)
        ensures
            r == (Breed { id, owner, nft_token_id1, nft_token_id2, start_time, end_time, is_withdrawn }),
    {
        Breed { id, owner, nft_token_id1, nft_token_id2, start_time, end_time, is_withdrawn }
    }
}

impl Clone for Breed {
    fn clone(&self) -> (r: Breed)
        ensures
            r == *self,
    {
        Breed {
            id: self.id,
            owner: self.owner.clone(),
            nft_token_id1: self.nft_token_id1.clone(),
            nft_token_id2: self.nft_token_id2.clone(),
            start_time: self.start_time,
            end_time: self.end_time,
            is_withdrawn: self.is_withdrawn,
        }
    }
}

} // verus!
