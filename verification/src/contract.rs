//! The breeding lifecycle engine: initialization, configuration updates,
//! record creation, one-time settlement, fee custody, and the query layer.
//!
//! Every operation works on an explicit [`Ledger`] handed in by the caller,
//! together with the caller's identity and the dispatcher's notion of the
//! current time. An operation either commits all of its changes and returns
//! `Ok`, or changes nothing and returns the error.

use vstd::prelude::*;

use crate::error::{BreedError, InvalidStateKind};
use crate::state::{Breed, BreedCount, Config, ConfigState, Identity, next_id_issues};

verus! {

/// The whole persisted state of the ledger: the configuration singleton,
/// the allocator singleton, and one record per issued identifier.
///
/// Records are never deleted, and identifiers are dense: the record with
/// identifier `i` sits at index `i - 1`.
#[derive(Debug)]
pub struct Ledger {
    pub config_state: ConfigState,
    pub breed_count: BreedCount,
    pub breeds: Vec<Breed>,
}

impl Ledger {
    /// Well-formedness: the counters agree with the record set, the record
    /// set stays within the range a `u32` capacity limit ever admits, each
    /// record sits under its own identifier, and the configuration holds
    /// its invariant.
    pub open spec fn wf(self) -> bool {
        &&& self.breed_count.count == self.breeds@.len()
        &&& self.breed_count.latest_id == self.breeds@.len()
        &&& self.breeds@.len() <= u32::MAX
        &&& forall|i: int|
            0 <= i < self.breeds@.len() ==> (#[trigger] self.breeds@[i]).id == i + 1
        &&& self.config_state.config.wf()
    }

    /// Looks a record up by its identifier; `None` if no such record
    /// exists.
    pub fn get(&self, breed_id: u64) -> (r: Option<&Breed>)
        requires
            self.wf(),
        ensures
            match r {
                Some(b) => 1 <= breed_id <= self.breeds@.len() && *b == self.breeds@[breed_id
                    - 1],
                None => !(1 <= breed_id <= self.breeds@.len()),
            },
    {
        if breed_id >= 1 && breed_id <= self.breeds.len() as u64 {
            Some(&self.breeds[(breed_id - 1) as usize])
        } else {
            None
        }
    }
}

/// Creates the ledger at process start: the given configuration, the caller
/// as administrator, an allocator at zero, and no records.
pub fn init(config: Config, owner: Identity) -> (st: Ledger)
    requires
        config.wf(),
    ensures
        st.wf(),
        st.config_state.config == config,
        st.config_state.owner == owner,
        st.breed_count == (BreedCount { count: 0, latest_id: 0 }),
        st.breeds@.len() == 0,
{
    Ledger {
        config_state: ConfigState { config, owner },
        breed_count: BreedCount { count: 0, latest_id: 0 },
        breeds: Vec::new(),
    }
}

/// Overwrites exactly the supplied configuration fields; every omitted
/// field, the pass-through metadata, and the record set stay as they were.
/// Only the current administrator may call this; supplying `owner`
/// transfers administration immediately.
pub fn update_config(
    st: &mut Ledger,
    sender: &Identity,
    breed_count_limit: Option<u32>,
    breed_duration: Option<u64>,
    breed_price_amount: Option<u128>,
    breed_price_denom: Option<String>,
    owner: Option<Identity>,
) -> (r: Result<(), BreedError>)
    requires
        old(st).wf(),
        breed_duration matches Some(d) ==> d >= 1,
    ensures
        final(st).wf(),
        r is Ok <==> sender@ == old(st).config_state.owner@,
        r is Err ==> r == Err::<(), BreedError>(BreedError::Unauthorized) && *final(st) == *old(
            st,
        ),
        r is Ok ==> ({
            let c0 = old(st).config_state.config;
            let c1 = final(st).config_state.config;
            &&& c1.breed_count_limit == (match breed_count_limit {
                Some(v) => v,
                None => c0.breed_count_limit,
            })
            &&& c1.breed_duration == (match breed_duration {
                Some(v) => v,
                None => c0.breed_duration,
            })
            &&& c1.breed_price_amount == (match breed_price_amount {
                Some(v) => v,
                None => c0.breed_price_amount,
            })
            &&& c1.breed_price_denom == (match breed_price_denom {
                Some(v) => v,
                None => c0.breed_price_denom,
            })
            &&& c1.breed_start_time == c0.breed_start_time
            &&& c1.child_base_uri == c0.child_base_uri
            &&& c1.child_contract_addr == c0.child_contract_addr
            &&& c1.child_nft_max_supply == c0.child_nft_max_supply
            &&& c1.parent_contract_addr == c0.parent_contract_addr
            &&& final(st).config_state.owner == (match owner {
                Some(o) => o,
                None => old(st).config_state.owner,
            })
            &&& final(st).breed_count == old(st).breed_count
            &&& final(st).breeds == old(st).breeds
        }),
{
    if !(*sender == st.config_state.owner) {
        return Err(BreedError::Unauthorized);
    }
    if let Some(limit) = breed_count_limit {
        st.config_state.config.breed_count_limit = limit;
    }
    if let Some(duration) = breed_duration {
        st.config_state.config.breed_duration = duration;
    }
    if let Some(amount) = breed_price_amount {
        st.config_state.config.breed_price_amount = amount;
    }
    if let Some(denom) = breed_price_denom {
        st.config_state.config.breed_price_denom = denom;
    }
    if let Some(new_owner) = owner {
        st.config_state.owner = new_owner;
    }
    Ok(())
}

/// Opens a breeding process over the two named parent assets: a breed
/// request must name both parents, the allocator must be under its
/// capacity limit, and on success the new record matures exactly
/// `breed_duration` seconds after `now`. On any failure nothing changes —
/// in particular the allocator does not advance.
pub fn breed(
    st: &mut Ledger,
    sender: Identity,
    now: u64,
    nft_token_id1: String,
    nft_token_id2: String,
) -> (r: Result<u64, BreedError>)
    requires
        old(st).wf(),
        now + old(st).config_state.config.breed_duration <= u64::MAX,
    ensures
        final(st).wf(),
        final(st).config_state == old(st).config_state,
        (nft_token_id1@.len() == 0 || nft_token_id2@.len() == 0) ==> r == Err::<u64, BreedError>(
            BreedError::InvalidState(InvalidStateKind::MissingParents),
        ) && *final(st) == *old(st),
        (nft_token_id1@.len() > 0 && nft_token_id2@.len() > 0 && old(st).breed_count.count >= old(
            st,
        ).config_state.config.breed_count_limit) ==> r == Err::<u64, BreedError>(
            BreedError::CapacityExceeded,
        ) && *final(st) == *old(st),
        (nft_token_id1@.len() > 0 && nft_token_id2@.len() > 0 && old(st).breed_count.count < old(
            st,
        ).config_state.config.breed_count_limit) ==> ({
            let id = (old(st).breeds@.len() + 1) as u64;
            &&& r == Ok::<u64, BreedError>(id)
            &&& next_id_issues(old(st).breed_count, final(st).breed_count, id, old(
                st,
            ).config_state.config.breed_count_limit)
            &&& final(st).breeds@ == old(st).breeds@.push(
                (Breed {
                    id,
                    owner: sender,
                    nft_token_id1,
                    nft_token_id2,
                    start_time: now,
                    end_time: (now + old(st).config_state.config.breed_duration) as u64,
                    is_withdrawn: false,
                }),
            )
        }),
{
    if nft_token_id1.as_str().is_empty() || nft_token_id2.as_str().is_empty() {
        return Err(BreedError::InvalidState(InvalidStateKind::MissingParents));
    }
    let limit = st.config_state.config.breed_count_limit;
    let id = match st.breed_count.next_id(limit) {
        Ok(id) => id,
        Err(e) => {
            return Err(e);
        },
    };
    let end_time = now + st.config_state.config.breed_duration;
    let record = Breed::new(id, sender, nft_token_id1, nft_token_id2, now, end_time, false);
    st.breeds.push(record);
    Ok(id)
}

/// The parameterless breed request of the earlier interface. A breed must
/// name both parent assets, so this request carries none and is always
/// rejected as malformed; the ledger stays as it was.
pub fn start_breed(st: &mut Ledger, sender: Identity, now: u64) -> (r: Result<u64, BreedError>)
    requires
        old(st).wf(),
        now + old(st).config_state.config.breed_duration <= u64::MAX,
    ensures
        final(st).wf(),
        *final(st) == *old(st),
        r == Err::<u64, BreedError>(BreedError::InvalidState(InvalidStateKind::MissingParents)),
{
    breed(st, sender, now, String::new(), String::new())
}

/// A record may be settled: the caller owns it, it has matured, and it was
/// not settled before.
pub open spec fn can_settle(b: Breed, sender: Seq<char>, now: u64) -> bool {
    &&& b.owner@ == sender
    &&& now >= b.end_time
    &&& !b.is_withdrawn
}

/// The record after its one-time settlement: only the flag changes.
pub open spec fn settled(b: Breed) -> Breed {
    Breed { is_withdrawn: true, ..b }
}

/// Settlement is terminal: once a record was settled, no caller at no time
/// can settle it again.
pub proof fn lemma_settlement_is_terminal(
    b: Breed,
    sender1: Seq<char>,
    now1: u64,
    sender2: Seq<char>,
    now2: u64,
)
    requires
        can_settle(b, sender1, now1),
    ensures
        !can_settle(settled(b), sender2, now2),
{
}

/// Settles the record exactly once: only its owner, only once `now` has
/// reached the record's maturity time, and only if it was never settled
/// before. On success the settlement flag flips and everything else stays;
/// on failure nothing changes.
pub fn withdraw(st: &mut Ledger, sender: &Identity, now: u64, breed_id: u64) -> (r: Result<
    (),
    BreedError,
>)
    requires
        old(st).wf(),
    ensures
        final(st).wf(),
        final(st).config_state == old(st).config_state,
        final(st).breed_count == old(st).breed_count,
        !(1 <= breed_id <= old(st).breeds@.len()) ==> r == Err::<(), BreedError>(
            BreedError::NotFound,
        ) && *final(st) == *old(st),
        1 <= breed_id <= old(st).breeds@.len() ==> ({
            let b = old(st).breeds@[breed_id - 1];
            &&& b.owner@ != sender@ ==> r == Err::<(), BreedError>(BreedError::Unauthorized)
                && *final(st) == *old(st)
            &&& b.owner@ == sender@ && now < b.end_time ==> r == Err::<(), BreedError>(
                BreedError::InvalidState(InvalidStateKind::NotMatured),
            ) && *final(st) == *old(st)
            &&& b.owner@ == sender@ && now >= b.end_time && b.is_withdrawn ==> r == Err::<
                (),
                BreedError,
            >(BreedError::InvalidState(InvalidStateKind::AlreadySettled)) && *final(st) == *old(st)
            &&& can_settle(b, sender@, now) ==> r == Ok::<(), BreedError>(()) && final(st).breeds@
                == old(st).breeds@.update(breed_id - 1, settled(b))
        }),
{
    if breed_id < 1 || breed_id > st.breeds.len() as u64 {
        return Err(BreedError::NotFound);
    }
    let idx: usize = (breed_id - 1) as usize;
    if !(st.breeds[idx].owner == *sender) {
        return Err(BreedError::Unauthorized);
    }
    if now < st.breeds[idx].end_time {
        return Err(BreedError::InvalidState(InvalidStateKind::NotMatured));
    }
    if st.breeds[idx].is_withdrawn {
        return Err(BreedError::InvalidState(InvalidStateKind::AlreadySettled));
    }
    let record = st.breeds[idx].clone();
    let settled_record = Breed { is_withdrawn: true, ..record };
    st.breeds[idx] = settled_record;
    Ok(())
}

/// Decides a fee withdrawal: only the administrator may take the custodied
/// balance, a zero balance is refused, and otherwise the entire balance is
/// released to the caller. The caller supplies the balance and performs
/// the transfer; per-record state is never touched.
pub fn withdraw_fund(st: &Ledger, sender: &Identity, balance: u128) -> (r: Result<
    u128,
    BreedError,
>)
    ensures
        sender@ != st.config_state.owner@ ==> r == Err::<u128, BreedError>(
            BreedError::Unauthorized,
        ),
        sender@ == st.config_state.owner@ && balance == 0 ==> r == Err::<u128, BreedError>(
            BreedError::InsufficientBalance,
        ),
        sender@ == st.config_state.owner@ && balance > 0 ==> r == Ok::<u128, BreedError>(balance),
{
    if !(*sender == st.config_state.owner) {
        return Err(BreedError::Unauthorized);
    }
    if balance == 0 {
        return Err(BreedError::InsufficientBalance);
    }
    Ok(balance)
}

/// The publicly visible configuration: every tunable plus the current
/// administrator, as stored.
#[derive(Debug)]
pub struct ConfigResponse {
    pub breed_count_limit: u32,
    pub breed_duration: u64,
    pub breed_price_amount: u128,
    pub breed_price_denom: String,
    pub breed_start_time: u64,
    pub child_base_uri: String,
    pub child_contract_addr: Identity,
    pub child_nft_max_supply: u32,
    pub owner: Identity,
    pub parent_contract_addr: Identity,
}

/// Reads the configuration; publicly visible, no authorization required.
pub fn query_config(st: &Ledger) -> (r: ConfigResponse)
    ensures
        r.breed_count_limit == st.config_state.config.breed_count_limit,
        r.breed_duration == st.config_state.config.breed_duration,
        r.breed_price_amount == st.config_state.config.breed_price_amount,
        r.breed_price_denom == st.config_state.config.breed_price_denom,
        r.breed_start_time == st.config_state.config.breed_start_time,
        r.child_base_uri == st.config_state.config.child_base_uri,
        r.child_contract_addr == st.config_state.config.child_contract_addr,
        r.child_nft_max_supply == st.config_state.config.child_nft_max_supply,
        r.owner == st.config_state.owner,
        r.parent_contract_addr == st.config_state.config.parent_contract_addr,
{
    ConfigResponse {
        breed_count_limit: st.config_state.config.breed_count_limit,
        breed_duration: st.config_state.config.breed_duration,
        breed_price_amount: st.config_state.config.breed_price_amount,
        breed_price_denom: st.config_state.config.breed_price_denom.clone(),
        breed_start_time: st.config_state.config.breed_start_time,
        child_base_uri: st.config_state.config.child_base_uri.clone(),
        child_contract_addr: st.config_state.config.child_contract_addr.clone(),
        child_nft_max_supply: st.config_state.config.child_nft_max_supply,
        owner: st.config_state.owner.clone(),
        parent_contract_addr: st.config_state.config.parent_contract_addr.clone(),
    }
}

/// The publicly visible face of one record. The child token is produced by
/// the external minting collaborator after settlement and is not tracked
/// by the core, so it reads as absent here.
#[derive(Debug)]
pub struct BreedInfoResponse {
    pub child_token_id: Option<String>,
    pub end_time: u64,
    pub nft_owner: Identity,
    pub nft_token_id1: String,
    pub nft_token_id2: String,
    pub start_time: u64,
    pub withdrawn: bool,
}

/// What a record looks like through the query layer.
pub open spec fn spec_info(b: Breed) -> BreedInfoResponse {
    BreedInfoResponse {
        child_token_id: None,
        end_time: b.end_time,
        nft_owner: b.owner,
        nft_token_id1: b.nft_token_id1,
        nft_token_id2: b.nft_token_id2,
        start_time: b.start_time,
        withdrawn: b.is_withdrawn,
    }
}

fn to_info(b: &Breed) -> (r: BreedInfoResponse)
    ensures
        r == spec_info(*b),
{
    BreedInfoResponse {
        child_token_id: None,
        end_time: b.end_time,
        nft_owner: b.owner.clone(),
        nft_token_id1: b.nft_token_id1.clone(),
        nft_token_id2: b.nft_token_id2.clone(),
        start_time: b.start_time,
        withdrawn: b.is_withdrawn,
    }
}

/// Reads one record by identifier; `None` if no such record exists.
pub fn query_breed_info(st: &Ledger, breed_id: u64) -> (r: Option<BreedInfoResponse>)
    requires
        st.wf(),
    ensures
        match r {
            Some(info) => 1 <= breed_id <= st.breeds@.len() && info == spec_info(
                st.breeds@[breed_id - 1],
            ),
            None => !(1 <= breed_id <= st.breeds@.len()),
        },
{
    match st.get(breed_id) {
        Some(b) => Some(to_info(b)),
        None => None,
    }
}

/// The records whose one-time settlement is still outstanding.
pub open spec fn open_records(s: Seq<Breed>) -> Seq<Breed> {
    s.filter(|b: Breed| !b.is_withdrawn)
}

/// The records that were settled.
pub open spec fn settled_records(s: Seq<Breed>) -> Seq<Breed> {
    s.filter(|b: Breed| b.is_withdrawn)
}

/// The records that bred from the given parent asset, on either side.
pub open spec fn records_of_parent(s: Seq<Breed>, parent: Seq<char>) -> Seq<Breed> {
    s.filter(|b: Breed| b.nft_token_id1@ == parent || b.nft_token_id2@ == parent)
}

/// The records owned by the given identity, in creation order.
pub open spec fn records_of_owner(s: Seq<Breed>, owner: Seq<char>) -> Seq<Breed> {
    s.filter(|b: Breed| b.owner@ == owner)
}

proof fn lemma_open_records_push(s: Seq<Breed>, x: Breed)
    ensures
        open_records(s.push(x)) == (if !x.is_withdrawn {
            open_records(s).push(x)
        } else {
            open_records(s)
        }),
{
    reveal(Seq::filter);
    assert(s.push(x).drop_last() =~= s);
    assert(s.push(x).last() == x);
}

proof fn lemma_settled_records_push(s: Seq<Breed>, x: Breed)
    ensures
        settled_records(s.push(x)) == (if x.is_withdrawn {
            settled_records(s).push(x)
        } else {
            settled_records(s)
        }),
{
    reveal(Seq::filter);
    assert(s.push(x).drop_last() =~= s);
    assert(s.push(x).last() == x);
}

proof fn lemma_records_of_parent_push(s: Seq<Breed>, x: Breed, parent: Seq<char>)
    ensures
        records_of_parent(s.push(x), parent) == (if x.nft_token_id1@ == parent
            || x.nft_token_id2@ == parent {
            records_of_parent(s, parent).push(x)
        } else {
            records_of_parent(s, parent)
        }),
{
    reveal(Seq::filter);
    assert(s.push(x).drop_last() =~= s);
    assert(s.push(x).last() == x);
}

proof fn lemma_records_of_owner_push(s: Seq<Breed>, x: Breed, owner: Seq<char>)
    ensures
        records_of_owner(s.push(x), owner) == (if x.owner@ == owner {
            records_of_owner(s, owner).push(x)
        } else {
            records_of_owner(s, owner)
        }),
{
    reveal(Seq::filter);
    assert(s.push(x).drop_last() =~= s);
    assert(s.push(x).last() == x);
}

/// Counts the records whose settlement is still outstanding.
pub fn query_breed_requests_count(st: &Ledger) -> (n: u32)
    requires
        st.wf(),
    ensures
        n == open_records(st.breeds@).len(),
{
    let mut n: u32 = 0;
    let mut i: usize = 0;
    while i < st.breeds.len()
        invariant
            st.wf(),
            i <= st.breeds@.len(),
            n <= i,
            n == open_records(st.breeds@.subrange(0, i as int)).len(),
        decreases st.breeds@.len() - i,
    {
        proof {
            lemma_open_records_push(st.breeds@.subrange(0, i as int), st.breeds@[i as int]);
            assert(st.breeds@.subrange(0, i as int + 1) =~= st.breeds@.subrange(0, i as int).push(
                st.breeds@[i as int],
            ));
        }
        if !st.breeds[i].is_withdrawn {
            n = n + 1;
        }
        i = i + 1;
    }
    proof {
        assert(st.breeds@.subrange(0, st.breeds@.len() as int) =~= st.breeds@);
    }
    n
}

/// Counts the records that were settled.
pub fn query_breed_finished_count(st: &Ledger) -> (n: u32)
    requires
        st.wf(),
    ensures
        n == settled_records(st.breeds@).len(),
{
    let mut n: u32 = 0;
    let mut i: usize = 0;
    while i < st.breeds.len()
        invariant
            st.wf(),
            i <= st.breeds@.len(),
            n <= i,
            n == settled_records(st.breeds@.subrange(0, i as int)).len(),
        decreases st.breeds@.len() - i,
    {
        proof {
            lemma_settled_records_push(st.breeds@.subrange(0, i as int), st.breeds@[i as int]);
            assert(st.breeds@.subrange(0, i as int + 1) =~= st.breeds@.subrange(0, i as int).push(
                st.breeds@[i as int],
            ));
        }
        if st.breeds[i].is_withdrawn {
            n = n + 1;
        }
        i = i + 1;
    }
    proof {
        assert(st.breeds@.subrange(0, st.breeds@.len() as int) =~= st.breeds@);
    }
    n
}

/// Counts the records that bred from the given parent asset.
pub fn query_breeded_count(st: &Ledger, parent_nft_token_id: String) -> (n: u32)
    requires
        st.wf(),
    ensures
        n == records_of_parent(st.breeds@, parent_nft_token_id@).len(),
{
    let mut n: u32 = 0;
    let mut i: usize = 0;
    while i < st.breeds.len()
        invariant
            st.wf(),
            i <= st.breeds@.len(),
            n <= i,
            n == records_of_parent(st.breeds@.subrange(0, i as int), parent_nft_token_id@).len(),
        decreases st.breeds@.len() - i,
    {
        proof {
            lemma_records_of_parent_push(
                st.breeds@.subrange(0, i as int),
                st.breeds@[i as int],
                parent_nft_token_id@,
            );
            assert(st.breeds@.subrange(0, i as int + 1) =~= st.breeds@.subrange(0, i as int).push(
                st.breeds@[i as int],
            ));
        }
        if st.breeds[i].nft_token_id1 == parent_nft_token_id || st.breeds[i].nft_token_id2
            == parent_nft_token_id {
            n = n + 1;
        }
        i = i + 1;
    }
    proof {
        assert(st.breeds@.subrange(0, st.breeds@.len() as int) =~= st.breeds@);
    }
    n
}

/// Counts the records owned by the given identity.
pub fn query_user_breedings_length(st: &Ledger, user: &Identity) -> (n: u32)
    requires
        st.wf(),
    ensures
        n == records_of_owner(st.breeds@, user@).len(),
{
    let mut n: u32 = 0;
    let mut i: usize = 0;
    while i < st.breeds.len()
        invariant
            st.wf(),
            i <= st.breeds@.len(),
            n <= i,
            n == records_of_owner(st.breeds@.subrange(0, i as int), user@).len(),
        decreases st.breeds@.len() - i,
    {
        proof {
            lemma_records_of_owner_push(
                st.breeds@.subrange(0, i as int),
                st.breeds@[i as int],
                user@,
            );
            assert(st.breeds@.subrange(0, i as int + 1) =~= st.breeds@.subrange(0, i as int).push(
                st.breeds@[i as int],
            ));
        }
        if st.breeds[i].owner == *user {
            n = n + 1;
        }
        i = i + 1;
    }
    proof {
        assert(st.breeds@.subrange(0, st.breeds@.len() as int) =~= st.breeds@);
    }
    n
}

/// A requested sort order reads as descending exactly when it says so;
/// every other request, the explicit ascending one included, sorts
/// ascending.
pub open spec fn descending(sort: Seq<char>) -> bool {
    sort == "descending"@
}

/// Start times never decrease along the sequence.
pub open spec fn sorted_ascending(s: Seq<BreedInfoResponse>) -> bool {
    forall|a: int, b: int|
        0 <= a < b < s.len() ==> (#[trigger] s[a]).start_time <= (#[trigger] s[b]).start_time
}

/// Start times never increase along the sequence.
pub open spec fn sorted_descending(s: Seq<BreedInfoResponse>) -> bool {
    forall|a: int, b: int|
        0 <= a < b < s.len() ==> (#[trigger] s[a]).start_time >= (#[trigger] s[b]).start_time
}

/// `t` is `source` rearranged into the requested order: the same records,
/// sorted by start time in the direction the sort string asks for.
pub open spec fn sorted_run(
    t: Seq<BreedInfoResponse>,
    source: Seq<BreedInfoResponse>,
    sort: Seq<char>,
) -> bool {
    &&& t.len() == source.len()
    &&& t.to_multiset() == source.to_multiset()
    &&& if descending(sort) {
        sorted_descending(t)
    } else {
        sorted_ascending(t)
    }
}

/// `a` may stand before `b` in the requested direction.
pub open spec fn may_precede(a: u64, b: u64, desc: bool) -> bool {
    if desc {
        a >= b
    } else {
        a <= b
    }
}

/// Where a record with the given start time lands when inserted into `s`:
/// after every leading record that may precede it, so records with equal
/// start times keep their relative order.
pub open spec fn insert_pos(s: Seq<BreedInfoResponse>, key: u64, desc: bool) -> int
    decreases s.len(),
{
    if s.len() == 0 {
        0
    } else if may_precede(s.first().start_time, key, desc) {
        1 + insert_pos(s.drop_first(), key, desc)
    } else {
        0
    }
}

/// `s` with `x` inserted at its stable position.
pub open spec fn insert_sorted(
    s: Seq<BreedInfoResponse>,
    x: BreedInfoResponse,
    desc: bool,
) -> Seq<BreedInfoResponse> {
    s.insert(insert_pos(s, x.start_time, desc), x)
}

/// The stable sort by start time: records inserted one by one, each after
/// every record that may precede it. This pins the sorted order completely,
/// ties included.
pub open spec fn stable_sort(s: Seq<BreedInfoResponse>, desc: bool) -> Seq<BreedInfoResponse>
    decreases s.len(),
{
    if s.len() == 0 {
        Seq::empty()
    } else {
        insert_sorted(stable_sort(s.drop_last(), desc), s.last(), desc)
    }
}

proof fn lemma_insert_pos_from_scan(s: Seq<BreedInfoResponse>, key: u64, desc: bool, j: int)
    requires
        0 <= j <= s.len(),
        forall|k: int| 0 <= k < j ==> may_precede((#[trigger] s[k]).start_time, key, desc),
        j < s.len() ==> !may_precede(s[j].start_time, key, desc),
    ensures
        insert_pos(s, key, desc) == j,
    decreases j,
{
    if j == 0 {
        if s.len() > 0 {
            assert(!may_precede(s[0].start_time, key, desc));
        }
    } else {
        assert(may_precede(s[0].start_time, key, desc));
        assert forall|k: int| 0 <= k < j - 1 implies may_precede(
            (#[trigger] s.drop_first()[k]).start_time,
            key,
            desc,
        ) by {
            assert(s.drop_first()[k] == s[k + 1]);
        }
        if j - 1 < s.drop_first().len() {
            assert(s.drop_first()[j - 1] == s[j]);
        }
        lemma_insert_pos_from_scan(s.drop_first(), key, desc, j - 1);
    }
}

spec fn sorted_prefix(s: Seq<BreedInfoResponse>, k: int, desc: bool) -> bool {
    forall|a: int, b: int|
        0 <= a < b < k && b < s.len() ==> if desc {
            (#[trigger] s[a]).start_time >= (#[trigger] s[b]).start_time
        } else {
            (#[trigger] s[a]).start_time <= (#[trigger] s[b]).start_time
        }
}

fn sort_is_descending(sort: &str) -> (r: bool)
    ensures
        r == descending(sort@),
{
    let s: String = sort.to_owned();
    let d: String = "descending".to_owned();
    s == d
}

fn keeps_before(a: u64, b: u64, desc: bool) -> (r: bool)
    ensures
        r == may_precede(a, b, desc),
{
    if desc {
        a >= b
    } else {
        a <= b
    }
}

/// Sorts records by start time, ascending unless the sort string asks for
/// descending order: the result is exactly the stable sort of the given
/// records — the same records, in the requested order, with records of
/// equal start time kept in their given order.
pub fn sort_breedings(breedings: Vec<BreedInfoResponse>, sort: &str) -> (r: Vec<
    BreedInfoResponse,
>)
    ensures
        r@ == stable_sort(breedings@, descending(sort@)),
        sorted_run(r@, breedings@, sort@),
{
    broadcast use vstd::seq_lib::group_to_multiset_ensures;
    broadcast use vstd::multiset::group_multiset_axioms;

    let desc = sort_is_descending(sort);
    let mut v = breedings;
    proof {
        if v@.len() >= 1 {
            let one = v@.subrange(0, 1);
            assert(one.drop_last() =~= Seq::<BreedInfoResponse>::empty());
            assert(stable_sort(one.drop_last(), desc) == Seq::<BreedInfoResponse>::empty());
            assert(insert_pos(Seq::<BreedInfoResponse>::empty(), one.last().start_time, desc)
                == 0);
            assert(stable_sort(one, desc) == insert_sorted(
                Seq::<BreedInfoResponse>::empty(),
                one.last(),
                desc,
            ));
            assert(stable_sort(one, desc) =~= one);
        }
    }
    let mut i: usize = 1;
    while i < v.len()
        invariant
            desc == descending(sort@),
            v@.len() == breedings@.len(),
            v@.to_multiset() == breedings@.to_multiset(),
            1 <= i,
            sorted_prefix(v@, i as int, desc),
            v@.subrange(
                0,
                if i as int <= v@.len() {
                    i as int
                } else {
                    v@.len() as int
                },
            ) == stable_sort(
                breedings@.subrange(
                    0,
                    if i as int <= v@.len() {
                        i as int
                    } else {
                        v@.len() as int
                    },
                ),
                desc,
            ),
            v@.subrange(
                if i as int <= v@.len() {
                    i as int
                } else {
                    v@.len() as int
                },
                v@.len() as int,
            ) == breedings@.subrange(
                if i as int <= v@.len() {
                    i as int
                } else {
                    v@.len() as int
                },
                breedings@.len() as int,
            ),
        decreases v@.len() - i,
    {
        let key = v[i].start_time;
        let mut j: usize = 0;
        while j < i && keeps_before(v[j].start_time, key, desc)
            invariant
                j <= i,
                i < v@.len(),
                key == v@[i as int].start_time,
                forall|k: int| 0 <= k < j ==> may_precede((#[trigger] v@[k]).start_time, key, desc),
            decreases i - j,
        {
            j = j + 1;
        }
        proof {
            let p = v@.subrange(0, i as int);
            assert(p.len() == i);
            assert forall|k: int| 0 <= k < j implies may_precede(
                (#[trigger] p[k]).start_time,
                key,
                desc,
            ) by {
                assert(p[k] == v@[k]);
            }
            if (j as int) < i as int {
                assert(p[j as int] == v@[j as int]);
            }
            lemma_insert_pos_from_scan(p, key, desc, j as int);
            assert(v@[i as int] == breedings@[i as int]) by {
                assert(v@.subrange(i as int, v@.len() as int)[0] == v@[i as int]);
            }
            assert(breedings@.subrange(0, i as int + 1).drop_last() =~= breedings@.subrange(
                0,
                i as int,
            ));
            assert(breedings@.subrange(0, i as int + 1).last() == breedings@[i as int]);
        }
        if j < i {
            let ghost u = v@;
            let ghost p = v@.subrange(0, i as int);
            let x = v.remove(i);
            v.insert(j, x);
            proof {
                broadcast use vstd::seq_lib::group_to_multiset_ensures;
                broadcast use vstd::multiset::group_multiset_axioms;

                assert(x == u[i as int]);
                assert(v@ == u.remove(i as int).insert(j as int, x));
                assert(u.contains(x)) by {
                    assert(u[i as int] == x);
                }
                assert(u.to_multiset().count(x) > 0);
                assert(u.remove(i as int).to_multiset() == u.to_multiset().remove(x));
                assert(v@.to_multiset() == u.remove(i as int).to_multiset().insert(x));
                assert(v@.to_multiset() =~= u.to_multiset());
                assert(forall|k: int| 0 <= k < j ==> #[trigger] v@[k] == u[k]);
                assert(v@[j as int] == x);
                assert(forall|k: int| j < k <= i ==> #[trigger] v@[k] == u[k - 1]);
                assert(forall|k: int| i < k < v@.len() ==> #[trigger] v@[k] == u[k]);
                assert(sorted_prefix(v@, i as int + 1, desc)) by {
                    assert forall|a: int, b: int|
                        0 <= a < b < i as int + 1 && b < v@.len() implies (if desc {
                        (v@[a]).start_time >= (v@[b]).start_time
                    } else {
                        (v@[a]).start_time <= (v@[b]).start_time
                    }) by {
                        if a < j {
                            assert(v@[a] == u[a]);
                        }
                        if b < j {
                            assert(v@[b] == u[b]);
                        }
                        if j < a {
                            assert(v@[a] == u[a - 1]);
                        }
                        if j < b {
                            assert(v@[b] == u[b - 1]);
                        }
                    }
                }
                assert(v@.subrange(0, i as int + 1) =~= p.insert(j as int, x)) by {
                    assert(p.insert(j as int, x).len() == i + 1);
                    assert(forall|k: int|
                        0 <= k < j ==> #[trigger] p.insert(j as int, x)[k] == p[k]);
                    assert(p.insert(j as int, x)[j as int] == x);
                    assert(forall|k: int|
                        j < k <= i ==> #[trigger] p.insert(j as int, x)[k] == p[k - 1]);
                    assert(forall|k: int| 0 <= k < i ==> #[trigger] p[k] == u[k]);
                }
                assert(v@.subrange(0, i as int + 1) == stable_sort(
                    breedings@.subrange(0, i as int + 1),
                    desc,
                ));
                assert(v@.subrange(i as int + 1, v@.len() as int) =~= breedings@.subrange(
                    i as int + 1,
                    breedings@.len() as int,
                )) by {
                    assert forall|k: int| i as int + 1 <= k < v@.len() implies v@[k]
                        == breedings@[k] by {
                        assert(v@[k] == u[k]);
                        assert(u.subrange(i as int, u.len() as int)[k - i] == u[k]);
                    }
                }
            }
        } else {
            proof {
                let p = v@.subrange(0, i as int);
                assert(sorted_prefix(v@, i as int + 1, desc));
                assert(v@.subrange(0, i as int + 1) =~= p.insert(i as int, v@[i as int]));
                assert(v@.subrange(0, i as int + 1) == stable_sort(
                    breedings@.subrange(0, i as int + 1),
                    desc,
                ));
                assert(v@.subrange(i as int + 1, v@.len() as int) =~= breedings@.subrange(
                    i as int + 1,
                    breedings@.len() as int,
                )) by {
                    assert forall|k: int| i as int + 1 <= k < v@.len() implies v@[k]
                        == breedings@[k] by {
                        assert(v@.subrange(i as int, v@.len() as int)[k - i] == v@[k]);
                    }
                }
            }
        }
        i = i + 1;
    }
    proof {
        assert(v@.subrange(0, v@.len() as int) =~= v@);
        assert(breedings@.subrange(0, breedings@.len() as int) =~= breedings@);
        assert(v@.to_multiset().len() == v@.len());
        assert(breedings@.to_multiset().len() == breedings@.len());
        if descending(sort@) {
            assert(sorted_descending(v@));
        } else {
            assert(sorted_ascending(v@));
        }
    }
    v
}

/// The page `[from, from + count)` of a sequence, truncated to what is
/// there: an offset at or beyond the end yields the empty page, and a page
/// reaching past the end yields the available tail.
pub open spec fn page(s: Seq<BreedInfoResponse>, from: int, count: int) -> Seq<BreedInfoResponse>
    recommends
        0 <= from,
        0 <= count,
{
    let lo = if from <= s.len() {
        from
    } else {
        s.len() as int
    };
    let hi = if from + count <= s.len() {
        from + count
    } else {
        s.len() as int
    };
    s.subrange(lo, hi)
}

fn paginate(v: Vec<BreedInfoResponse>, from: u32, count: u32) -> (r: Vec<BreedInfoResponse>)
    ensures
        r@ == page(v@, from as int, count as int),
{
    let ghost orig = v@;
    let ghost hi: int = if from as int + count as int <= orig.len() {
        from as int + count as int
    } else {
        orig.len() as int
    };
    let mut v = v;
    let end: u64 = from as u64 + count as u64;
    if end < v.len() as u64 {
        v.truncate(end as usize);
    }
    proof {
        assert(v@ =~= orig.subrange(0, hi));
    }
    let mut k: u32 = 0;
    while k < from && v.len() > 0
        invariant
            k <= from,
            k as int <= hi,
            hi <= orig.len(),
            v@ == orig.subrange(if k as int <= hi {
                k as int
            } else {
                hi
            }, hi),
        decreases from - k,
    {
        let ghost before = v@;
        let _ = v.remove(0);
        proof {
            assert(before == orig.subrange(k as int, hi));
            assert(v@ =~= orig.subrange(k as int + 1, hi));
        }
        k = k + 1;
    }
    proof {
        if k == from {
            assert(v@ == page(orig, from as int, count as int));
        } else {
            assert(v@.len() == 0);
            assert(k as int == hi);
            assert(page(orig, from as int, count as int).len() == 0);
            assert(v@ =~= page(orig, from as int, count as int));
        }
    }
    v
}

/// What the records of the whole ledger look like through the query layer,
/// in creation order.
pub open spec fn all_infos(s: Seq<Breed>) -> Seq<BreedInfoResponse> {
    s.map_values(|b: Breed| spec_info(b))
}

/// What the records of one owner look like through the query layer, in
/// creation order.
pub open spec fn user_infos(s: Seq<Breed>, owner: Seq<char>) -> Seq<BreedInfoResponse> {
    all_infos(records_of_owner(s, owner))
}

/// A page of all records: everything there is, sorted as requested.
#[derive(Debug)]
pub struct QueryBreedingsResponse {
    pub breed_info: Vec<BreedInfoResponse>,
}

/// Lists all records, sorted by start time as requested, then cut to the
/// page `[from, from + count)`. An offset at or beyond the end yields an
/// empty page, never a failure.
pub fn query_breedings(st: &Ledger, count: u32, from: u32, sort: String) -> (r:
    QueryBreedingsResponse)
    requires
        st.wf(),
    ensures
        r.breed_info@ == page(
            stable_sort(all_infos(st.breeds@), descending(sort@)),
            from as int,
            count as int,
        ),
        sorted_run(stable_sort(all_infos(st.breeds@), descending(sort@)), all_infos(st.breeds@), sort@),
        from >= st.breeds@.len() ==> r.breed_info@.len() == 0,
{
    let mut infos: Vec<BreedInfoResponse> = Vec::new();
    let mut i: usize = 0;
    while i < st.breeds.len()
        invariant
            st.wf(),
            i <= st.breeds@.len(),
            infos@ == all_infos(st.breeds@.subrange(0, i as int)),
        decreases st.breeds@.len() - i,
    {
        let info = to_info(&st.breeds[i]);
        infos.push(info);
        proof {
            assert(st.breeds@.subrange(0, i as int + 1) =~= st.breeds@.subrange(0, i as int).push(
                st.breeds@[i as int],
            ));
            assert(infos@ =~= all_infos(st.breeds@.subrange(0, i as int + 1)));
        }
        i = i + 1;
    }
    proof {
        assert(st.breeds@.subrange(0, st.breeds@.len() as int) =~= st.breeds@);
    }
    let sorted_v = sort_breedings(infos, sort.as_str());
    let paged = paginate(sorted_v, from, count);
    QueryBreedingsResponse { breed_info: paged }
}

/// Lists the records of one owner: the owner's records in creation order,
/// sorted by start time as requested, then cut to the page
/// `[from, from + count)`. An offset at or beyond the end yields an empty
/// page, never a failure.
pub fn query_user_breedings(
    st: &Ledger,
    count: u32,
    from: u32,
    sort: String,
    user: &Identity,
) -> (r: Vec<BreedInfoResponse>)
    requires
        st.wf(),
    ensures
        r@ == page(
            stable_sort(user_infos(st.breeds@, user@), descending(sort@)),
            from as int,
            count as int,
        ),
        sorted_run(
            stable_sort(user_infos(st.breeds@, user@), descending(sort@)),
            user_infos(st.breeds@, user@),
            sort@,
        ),
        from >= user_infos(st.breeds@, user@).len() ==> r@.len() == 0,
{
    let mut infos: Vec<BreedInfoResponse> = Vec::new();
    let mut i: usize = 0;
    while i < st.breeds.len()
        invariant
            st.wf(),
            i <= st.breeds@.len(),
            infos@ == user_infos(st.breeds@.subrange(0, i as int), user@),
        decreases st.breeds@.len() - i,
    {
        proof {
            lemma_records_of_owner_push(
                st.breeds@.subrange(0, i as int),
                st.breeds@[i as int],
                user@,
            );
            assert(st.breeds@.subrange(0, i as int + 1) =~= st.breeds@.subrange(0, i as int).push(
                st.breeds@[i as int],
            ));
        }
        if st.breeds[i].owner == *user {
            let info = to_info(&st.breeds[i]);
            infos.push(info);
            proof {
                assert(infos@ =~= user_infos(st.breeds@.subrange(0, i as int + 1), user@));
            }
        }
        i = i + 1;
    }
    proof {
        assert(st.breeds@.subrange(0, st.breeds@.len() as int) =~= st.breeds@);
    }
    let sorted_v = sort_breedings(infos, sort.as_str());
    let paged = paginate(sorted_v, from, count);
    paged
}

/// How many records exist in all.
pub fn query_breedings_length(st: &Ledger) -> (n: u32)
    requires
        st.wf(),
    ensures
        n == st.breeds@.len(),
{
    st.breeds.len() as u32
}

} // verus!
