use breeding::contract::{
    breed, init, query_breed_finished_count, query_breed_info, query_breed_requests_count,
    query_breeded_count, query_breedings, query_breedings_length, query_config,
    query_user_breedings, query_user_breedings_length, sort_breedings, start_breed, withdraw,
    withdraw_fund, BreedInfoResponse, Ledger,
};
use breeding::error::{BreedError, InvalidStateKind};
use breeding::msg::Metadata;
use breeding::state::{BreedCount, Config, Identity};

fn ident(name: &str) -> Identity {
    Identity(name.to_owned())
}

fn config(limit: u32, duration: u64) -> Config {
    Config {
        breed_count_limit: limit,
        breed_duration: duration,
        breed_price_amount: 5,
        breed_price_denom: "uluna".to_owned(),
        breed_start_time: 0,
        child_base_uri: "ipfs://base/".to_owned(),
        child_contract_addr: ident("child-contract"),
        child_nft_max_supply: 1000,
        parent_contract_addr: ident("parent-contract"),
    }
}

fn ledger(limit: u32, duration: u64) -> Ledger {
    init(config(limit, duration), ident("admin"))
}

fn breed_ok(st: &mut Ledger, owner: &str, now: u64, p1: &str, p2: &str) -> u64 {
    breed(st, ident(owner), now, p1.to_owned(), p2.to_owned()).expect("breed should succeed")
}

fn start_times(infos: &[BreedInfoResponse]) -> Vec<u64> {
    infos.iter().map(|i| i.start_time).collect()
}

#[test]
fn update_config_keeps_unspecified_fields() {
    let mut st = ledger(7, 100);
    let r = breeding::contract::update_config(
        &mut st,
        &ident("admin"),
        None,
        Some(250),
        None,
        None,
        None,
    );
    assert_eq!(r, Ok(()));
    let c = query_config(&st);
    assert_eq!(c.breed_duration, 250);
    assert_eq!(c.breed_count_limit, 7);
    assert_eq!(c.breed_price_amount, 5);
    assert_eq!(c.breed_price_denom, "uluna");
    assert_eq!(c.breed_start_time, 0);
    assert_eq!(c.child_base_uri, "ipfs://base/");
    assert_eq!(c.child_contract_addr, ident("child-contract"));
    assert_eq!(c.child_nft_max_supply, 1000);
    assert_eq!(c.parent_contract_addr, ident("parent-contract"));
    assert_eq!(c.owner, ident("admin"));
}

#[test]
fn update_config_rejects_non_owner() {
    let mut st = ledger(7, 100);
    let r = breeding::contract::update_config(
        &mut st,
        &ident("mallory"),
        Some(1),
        Some(1),
        None,
        None,
        None,
    );
    assert_eq!(r, Err(BreedError::Unauthorized));
    let c = query_config(&st);
    assert_eq!(c.breed_count_limit, 7);
    assert_eq!(c.breed_duration, 100);
}

#[test]
fn update_config_transfers_ownership() {
    let mut st = ledger(7, 100);
    let r = breeding::contract::update_config(
        &mut st,
        &ident("admin"),
        None,
        None,
        None,
        None,
        Some(ident("successor")),
    );
    assert_eq!(r, Ok(()));
    let old_admin = breeding::contract::update_config(
        &mut st,
        &ident("admin"),
        Some(9),
        None,
        None,
        None,
        None,
    );
    assert_eq!(old_admin, Err(BreedError::Unauthorized));
    let new_admin = breeding::contract::update_config(
        &mut st,
        &ident("successor"),
        Some(9),
        None,
        None,
        None,
        None,
    );
    assert_eq!(new_admin, Ok(()));
    assert_eq!(query_config(&st).breed_count_limit, 9);
}

#[test]
fn next_id_counts_one_to_n_then_fails() {
    let mut counter = BreedCount { count: 0, latest_id: 0 };
    let limit: u32 = 3;
    for expected in 1..=3u64 {
        assert_eq!(counter.next_id(limit), Ok(expected));
    }
    assert_eq!(counter.next_id(limit), Err(BreedError::CapacityExceeded));
    assert_eq!(counter.current_count(), 3);
    assert_eq!(counter.latest_id, 3);
}

#[test]
fn breed_sets_end_time_exactly() {
    let mut st = ledger(10, 86400);
    let id = breed_ok(&mut st, "alice", 1_700_000_000, "dragon-1", "dragon-2");
    assert_eq!(id, 1);
    let info = query_breed_info(&st, id).expect("record exists");
    assert_eq!(info.start_time, 1_700_000_000);
    assert_eq!(info.end_time, 1_700_000_000 + 86400);
    assert_eq!(info.nft_owner, ident("alice"));
    assert_eq!(info.nft_token_id1, "dragon-1");
    assert_eq!(info.nft_token_id2, "dragon-2");
    assert!(!info.withdrawn);
    assert_eq!(info.child_token_id, None);
}

#[test]
fn breed_requires_both_parents() {
    let mut st = ledger(10, 100);
    let r = breed(&mut st, ident("alice"), 10, "".to_owned(), "dragon-2".to_owned());
    assert_eq!(r, Err(BreedError::InvalidState(InvalidStateKind::MissingParents)));
    let r = breed(&mut st, ident("alice"), 10, "dragon-1".to_owned(), "".to_owned());
    assert_eq!(r, Err(BreedError::InvalidState(InvalidStateKind::MissingParents)));
    assert_eq!(query_breedings_length(&st), 0);
}

#[test]
fn start_breed_is_rejected_as_malformed() {
    let mut st = ledger(10, 100);
    let r = start_breed(&mut st, ident("alice"), 10);
    assert_eq!(r, Err(BreedError::InvalidState(InvalidStateKind::MissingParents)));
    assert_eq!(query_breedings_length(&st), 0);
    assert_eq!(st.breed_count.current_count(), 0);
}

#[test]
fn withdraw_exactly_once_per_record() {
    let mut st = ledger(10, 100);
    let id = breed_ok(&mut st, "alice", 1000, "p1", "p2");

    let by_other = withdraw(&mut st, &ident("bob"), 2000, id);
    assert_eq!(by_other, Err(BreedError::Unauthorized));

    let early = withdraw(&mut st, &ident("alice"), 1099, id);
    assert_eq!(early, Err(BreedError::InvalidState(InvalidStateKind::NotMatured)));

    let on_time = withdraw(&mut st, &ident("alice"), 1100, id);
    assert_eq!(on_time, Ok(()));

    let again = withdraw(&mut st, &ident("alice"), 5000, id);
    assert_eq!(again, Err(BreedError::InvalidState(InvalidStateKind::AlreadySettled)));

    let missing = withdraw(&mut st, &ident("alice"), 5000, 42);
    assert_eq!(missing, Err(BreedError::NotFound));
}

#[test]
fn scenario_limit_one_full_lifecycle() {
    let mut st = ledger(1, 60);
    let first = breed(&mut st, ident("alice"), 100, "a".to_owned(), "b".to_owned());
    assert_eq!(first, Ok(1));
    let second = breed(&mut st, ident("alice"), 101, "a".to_owned(), "b".to_owned());
    assert_eq!(second, Err(BreedError::CapacityExceeded));
    let early = withdraw(&mut st, &ident("alice"), 159, 1);
    assert_eq!(early, Err(BreedError::InvalidState(InvalidStateKind::NotMatured)));
    let settled = withdraw(&mut st, &ident("alice"), 161, 1);
    assert_eq!(settled, Ok(()));
    let repeated = withdraw(&mut st, &ident("alice"), 161, 1);
    assert_eq!(repeated, Err(BreedError::InvalidState(InvalidStateKind::AlreadySettled)));
}

#[test]
fn list_sorts_by_start_time() {
    let mut st = ledger(10, 100);
    breed_ok(&mut st, "alice", 30, "p1", "p2");
    breed_ok(&mut st, "alice", 10, "p3", "p4");
    breed_ok(&mut st, "alice", 20, "p5", "p6");

    let asc = query_breedings(&st, 2, 0, "ascending".to_owned());
    assert_eq!(start_times(&asc.breed_info), vec![10, 20]);

    let desc = query_breedings(&st, 2, 0, "descending".to_owned());
    assert_eq!(start_times(&desc.breed_info), vec![30, 20]);
}

#[test]
fn unknown_sort_string_falls_back_to_ascending() {
    let mut st = ledger(10, 100);
    breed_ok(&mut st, "alice", 30, "p1", "p2");
    breed_ok(&mut st, "alice", 10, "p3", "p4");
    breed_ok(&mut st, "alice", 20, "p5", "p6");
    let listed = query_breedings(&st, 3, 0, "strangest".to_owned());
    assert_eq!(start_times(&listed.breed_info), vec![10, 20, 30]);
}

#[test]
fn list_beyond_range_returns_empty() {
    let mut st = ledger(10, 100);
    breed_ok(&mut st, "alice", 1, "p1", "p2");
    breed_ok(&mut st, "alice", 2, "p3", "p4");
    breed_ok(&mut st, "alice", 3, "p5", "p6");
    let listed = query_breedings(&st, 5, 10, "ascending".to_owned());
    assert!(listed.breed_info.is_empty());
}

#[test]
fn list_truncates_to_available_tail() {
    let mut st = ledger(10, 100);
    breed_ok(&mut st, "alice", 1, "p1", "p2");
    breed_ok(&mut st, "alice", 2, "p3", "p4");
    breed_ok(&mut st, "alice", 3, "p5", "p6");
    let listed = query_breedings(&st, 5, 2, "ascending".to_owned());
    assert_eq!(start_times(&listed.breed_info), vec![3]);
}

#[test]
fn list_for_owner_keeps_creation_order() {
    let mut st = ledger(10, 100);
    breed_ok(&mut st, "alice", 50, "a1", "a2");
    breed_ok(&mut st, "bob", 50, "b1", "b2");
    breed_ok(&mut st, "alice", 50, "a3", "a4");

    let listed = query_user_breedings(&st, 10, 0, "ascending".to_owned(), &ident("alice"));
    assert_eq!(listed.len(), 2);
    assert_eq!(listed[0].nft_token_id1, "a1");
    assert_eq!(listed[1].nft_token_id1, "a3");
    assert!(listed.iter().all(|i| i.nft_owner == ident("alice")));

    assert_eq!(query_user_breedings_length(&st, &ident("alice")), 2);
    assert_eq!(query_user_breedings_length(&st, &ident("bob")), 1);
    assert_eq!(query_user_breedings_length(&st, &ident("carol")), 0);
}

#[test]
fn sort_breedings_orders_standalone_sequences() {
    let mut st = ledger(10, 100);
    breed_ok(&mut st, "alice", 5, "p1", "p2");
    breed_ok(&mut st, "alice", 1, "p3", "p4");
    breed_ok(&mut st, "alice", 9, "p5", "p6");
    let infos = query_breedings(&st, 3, 0, "ascending".to_owned()).breed_info;
    let resorted = sort_breedings(infos, "descending");
    assert_eq!(start_times(&resorted), vec![9, 5, 1]);
}

#[test]
fn equal_start_times_keep_creation_order() {
    let mut st = ledger(10, 100);
    breed_ok(&mut st, "alice", 5, "x1", "x1b");
    breed_ok(&mut st, "bob", 5, "x2", "x2b");
    breed_ok(&mut st, "carol", 5, "x3", "x3b");
    let asc = query_breedings(&st, 3, 0, "ascending".to_owned()).breed_info;
    let asc_tokens: Vec<&str> = asc.iter().map(|i| i.nft_token_id1.as_str()).collect();
    assert_eq!(asc_tokens, vec!["x1", "x2", "x3"]);
    let desc = query_breedings(&st, 3, 0, "descending".to_owned()).breed_info;
    let desc_tokens: Vec<&str> = desc.iter().map(|i| i.nft_token_id1.as_str()).collect();
    assert_eq!(desc_tokens, vec!["x1", "x2", "x3"]);
}

#[test]
fn counts_follow_settlements() {
    let mut st = ledger(10, 100);
    breed_ok(&mut st, "alice", 10, "p1", "p2");
    breed_ok(&mut st, "alice", 20, "p1", "p9");
    breed_ok(&mut st, "bob", 30, "p7", "p8");
    assert_eq!(query_breed_requests_count(&st), 3);
    assert_eq!(query_breed_finished_count(&st), 0);

    withdraw(&mut st, &ident("alice"), 200, 1).expect("matured");
    assert_eq!(query_breed_requests_count(&st), 2);
    assert_eq!(query_breed_finished_count(&st), 1);

    assert_eq!(query_breeded_count(&st, "p1".to_owned()), 2);
    assert_eq!(query_breeded_count(&st, "p8".to_owned()), 1);
    assert_eq!(query_breeded_count(&st, "p0".to_owned()), 0);
    assert_eq!(query_breedings_length(&st), 3);
}

#[test]
fn query_breed_info_absent_is_none() {
    let st = ledger(10, 100);
    assert!(query_breed_info(&st, 1).is_none());
    assert!(query_breed_info(&st, 0).is_none());
}

#[test]
fn get_returns_stored_record() {
    let mut st = ledger(10, 100);
    let id = breed_ok(&mut st, "alice", 10, "p1", "p2");
    let record = st.get(id).expect("record exists");
    assert_eq!(record.id, id);
    assert_eq!(record.owner, ident("alice"));
    assert!(st.get(2).is_none());
}

#[test]
fn withdraw_fund_is_owner_gated() {
    let st = ledger(10, 100);
    assert_eq!(withdraw_fund(&st, &ident("mallory"), 700), Err(BreedError::Unauthorized));
    assert_eq!(withdraw_fund(&st, &ident("admin"), 0), Err(BreedError::InsufficientBalance));
    assert_eq!(withdraw_fund(&st, &ident("admin"), 700), Ok(700));
}

#[test]
fn metadata_compares_by_bytes() {
    assert_eq!(Metadata(vec![1, 2, 3]), Metadata(vec![1, 2, 3]));
    assert_ne!(Metadata(vec![1, 2, 3]), Metadata(vec![1, 2]));
}

#[test]
fn counter_failure_keeps_state() {
    let mut st = ledger(1, 100);
    breed_ok(&mut st, "alice", 10, "p1", "p2");
    let refused = breed(&mut st, ident("bob"), 20, "q1".to_owned(), "q2".to_owned());
    assert_eq!(refused, Err(BreedError::CapacityExceeded));
    assert_eq!(st.breed_count.current_count(), 1);
    assert_eq!(st.breed_count.latest_id, 1);
    assert_eq!(query_breedings_length(&st), 1);
}
