use state_engine::access_rights::AccessRights;
use state_engine::bytesrepr::Error;
use state_engine::contract::Contract;
use state_engine::engine::{
    commit_response, effective_protocol_version, parse_state_hash, query_response, CommitResponse,
    DeployResponse, EngineConfig, EngineState, QueryResponse, Unsupported,
};
use state_engine::global_state::{
    CommitResult, GlobalState, MissingKeyPolicy, ReadFailure, Transform,
};
use state_engine::key::Key;
use state_engine::named_keys::NamedKeys;
use state_engine::protocol_version::ProtocolVersion;
use state_engine::query::{key_is_readable, query, QueryResult};
use state_engine::stored_value::{Account, StoredValue, TypeMismatch, TypeTag, Value};

fn account_a() -> Key {
    Key::Account([0xaau8; 20])
}

fn account_b() -> Key {
    Key::Account([0xbbu8; 20])
}

fn balance(amount: u64) -> StoredValue {
    StoredValue::Value(Value::UInt64(amount))
}

fn root_after(result: CommitResult) -> [u8; 32] {
    match result {
        CommitResult::Success { state_root } => state_root,
        other => panic!("the commit failed: {:?}", other),
    }
}

fn read_u64(store: &GlobalState, root: &[u8; 32], key: &Key) -> u64 {
    match store.read(root, key) {
        Ok(StoredValue::Value(Value::UInt64(v))) => *v,
        _ => panic!("no unsigned number under the key"),
    }
}

fn read_i32(store: &GlobalState, root: &[u8; 32], key: &Key) -> i32 {
    match store.read(root, key) {
        Ok(StoredValue::Value(Value::Int32(v))) => *v,
        _ => panic!("no signed number under the key"),
    }
}

/// A store with account A at 1000, and the root of that state.
fn genesis() -> (GlobalState, [u8; 32]) {
    let (mut store, empty) = GlobalState::new();
    let result = store.commit(
        &empty,
        vec![(account_a(), Transform::Write(balance(1000)))],
        MissingKeyPolicy::Fail,
    );
    let root = root_after(result);
    (store, root)
}

#[test]
fn writes_land_in_the_new_root_and_leave_the_old_one() {
    let (mut store, genesis_root) = genesis();
    let result = store.commit(
        &genesis_root,
        vec![
            (account_a(), Transform::Write(balance(900))),
            (account_b(), Transform::Write(balance(100))),
        ],
        MissingKeyPolicy::Fail,
    );
    let new_root = root_after(result);
    assert_ne!(new_root, genesis_root);
    assert_eq!(read_u64(&store, &new_root, &account_a()), 900);
    assert_eq!(read_u64(&store, &new_root, &account_b()), 100);
    assert_eq!(read_u64(&store, &genesis_root, &account_a()), 1000);
    assert_eq!(store.read(&genesis_root, &account_b()).err(), Some(ReadFailure::ValueNotFound));
}

#[test]
fn add_on_a_missing_key_fails_where_the_policy_says_so() {
    let (mut store, root) = genesis();
    let result = store.commit(
        &root,
        vec![(account_b(), Transform::AddUInt64(50))],
        MissingKeyPolicy::Fail,
    );
    assert_eq!(result, CommitResult::KeyNotFound(account_b()));
    assert!(store.contains_root(&root));
    assert_eq!(read_u64(&store, &root, &account_a()), 1000);
    assert_eq!(store.read(&root, &account_b()).err(), Some(ReadFailure::ValueNotFound));
}

#[test]
fn add_on_a_missing_key_starts_from_zero_where_the_policy_says_so() {
    let (mut store, root) = genesis();
    let result = store.commit(
        &root,
        vec![(account_b(), Transform::AddUInt64(50)), (Key::Hash([1u8; 32]), Transform::AddInt32(-3))],
        MissingKeyPolicy::TreatAsZero,
    );
    let new_root = root_after(result);
    assert_eq!(read_u64(&store, &new_root, &account_b()), 50);
    assert_eq!(read_i32(&store, &new_root, &Key::Hash([1u8; 32])), -3);
    assert_eq!(store.read(&root, &account_b()).err(), Some(ReadFailure::ValueNotFound));
}

#[test]
fn commit_is_deterministic_across_stores() {
    let (mut first, root_one) = genesis();
    let (mut second, root_two) = genesis();
    assert_eq!(root_one, root_two);
    let effects = || {
        vec![
            (account_a(), Transform::AddUInt64(5)),
            (account_b(), Transform::Write(balance(7))),
        ]
    };
    let a = root_after(first.commit(&root_one, effects(), MissingKeyPolicy::Fail));
    let b = root_after(second.commit(&root_two, effects(), MissingKeyPolicy::Fail));
    let again = root_after(first.commit(&root_one, effects(), MissingKeyPolicy::Fail));
    assert_eq!(a, b);
    assert_eq!(a, again);
    assert_eq!(read_u64(&first, &a, &account_a()), 1005);
}

#[test]
fn the_root_does_not_depend_on_the_order_of_independent_writes() {
    let (mut store, root) = genesis();
    let one = root_after(store.commit(
        &root,
        vec![
            (account_b(), Transform::Write(balance(1))),
            (Key::Hash([3u8; 32]), Transform::Write(balance(2))),
        ],
        MissingKeyPolicy::Fail,
    ));
    let other = root_after(store.commit(
        &root,
        vec![
            (Key::Hash([3u8; 32]), Transform::Write(balance(2))),
            (account_b(), Transform::Write(balance(1))),
        ],
        MissingKeyPolicy::Fail,
    ));
    assert_eq!(one, other);
}

#[test]
fn a_failing_transform_publishes_nothing() {
    let (mut store, root) = genesis();
    let would_be = {
        let (mut probe, probe_root) = genesis();
        root_after(probe.commit(
            &probe_root,
            vec![(account_b(), Transform::Write(balance(5)))],
            MissingKeyPolicy::Fail,
        ))
    };
    let result = store.commit(
        &root,
        vec![
            (account_b(), Transform::Write(balance(5))),
            (Key::Hash([9u8; 32]), Transform::Identity),
            (account_a(), Transform::Write(balance(0))),
        ],
        MissingKeyPolicy::Fail,
    );
    assert_eq!(result, CommitResult::KeyNotFound(Key::Hash([9u8; 32])));
    assert!(!store.contains_root(&would_be));
    assert_eq!(read_u64(&store, &root, &account_a()), 1000);
    assert_eq!(store.read(&root, &account_b()).err(), Some(ReadFailure::ValueNotFound));
}

#[test]
fn two_additions_equal_one_addition_of_the_sum() {
    let (mut store, root) = genesis();
    let step = root_after(store.commit(
        &root,
        vec![(account_a(), Transform::AddUInt64(u64::MAX))],
        MissingKeyPolicy::Fail,
    ));
    let two = root_after(store.commit(
        &step,
        vec![(account_a(), Transform::AddUInt64(3))],
        MissingKeyPolicy::Fail,
    ));
    let one = root_after(store.commit(
        &root,
        vec![(account_a(), Transform::AddUInt64(u64::MAX.wrapping_add(3)))],
        MissingKeyPolicy::Fail,
    ));
    let both = root_after(store.commit(
        &root,
        vec![(account_a(), Transform::AddUInt64(u64::MAX)), (account_a(), Transform::AddUInt64(3))],
        MissingKeyPolicy::Fail,
    ));
    assert_eq!(two, one);
    assert_eq!(both, one);
    assert_eq!(read_u64(&store, &one, &account_a()), 1002);
    assert_eq!(read_u64(&store, &step, &account_a()), 999);
}

#[test]
fn signed_addition_wraps() {
    let (mut store, empty) = GlobalState::new();
    let key = Key::Hash([1u8; 32]);
    let root = root_after(store.commit(
        &empty,
        vec![(key, Transform::Write(StoredValue::Value(Value::Int32(i32::MAX))))],
        MissingKeyPolicy::Fail,
    ));
    let next = root_after(store.commit(&root, vec![(key, Transform::AddInt32(1))], MissingKeyPolicy::Fail));
    assert_eq!(read_i32(&store, &next, &key), i32::MIN);
}

#[test]
fn addition_of_another_shape_is_a_type_mismatch() {
    let (mut store, root) = genesis();
    let result = store.commit(&root, vec![(account_a(), Transform::AddInt32(1))], MissingKeyPolicy::Fail);
    assert_eq!(
        result,
        CommitResult::TypeMismatch(TypeMismatch { expected: TypeTag::Int32, found: TypeTag::UInt64 })
    );
    let account = StoredValue::Account(Account::new([1u8; 20], NamedKeys::new()));
    let with_account = root_after(store.commit(
        &root,
        vec![(account_b(), Transform::Write(account))],
        MissingKeyPolicy::Fail,
    ));
    let result = store.commit(
        &with_account,
        vec![(account_b(), Transform::AddUInt64(1))],
        MissingKeyPolicy::TreatAsZero,
    );
    assert_eq!(
        result,
        CommitResult::TypeMismatch(TypeMismatch { expected: TypeTag::UInt64, found: TypeTag::Account })
    );
}

#[test]
fn commit_against_an_unknown_root_fails() {
    let (mut store, _) = genesis();
    let result = store.commit(&[0x42u8; 32], vec![], MissingKeyPolicy::Fail);
    assert_eq!(result, CommitResult::RootNotFound);
    assert_eq!(store.read(&[0x42u8; 32], &account_a()).err(), Some(ReadFailure::RootNotFound));
    assert!(!store.contains_root(&[0x42u8; 32]));
}

#[test]
fn identity_confirms_a_value_and_changes_nothing() {
    let (mut store, root) = genesis();
    let result = store.commit(&root, vec![(account_a(), Transform::Identity)], MissingKeyPolicy::Fail);
    assert_eq!(result, CommitResult::Success { state_root: root });
    let result = store.commit(&root, vec![], MissingKeyPolicy::Fail);
    assert_eq!(result, CommitResult::Success { state_root: root });
}

#[test]
fn two_commits_from_one_root_stand_side_by_side() {
    let (mut store, root) = genesis();
    let first = root_after(store.commit(
        &root,
        vec![(account_a(), Transform::Write(balance(1)))],
        MissingKeyPolicy::Fail,
    ));
    let second = root_after(store.commit(
        &root,
        vec![(account_a(), Transform::Write(balance(2)))],
        MissingKeyPolicy::Fail,
    ));
    assert_ne!(first, second);
    assert_eq!(read_u64(&store, &first, &account_a()), 1);
    assert_eq!(read_u64(&store, &second, &account_a()), 2);
    assert_eq!(read_u64(&store, &root, &account_a()), 1000);
}

#[test]
fn a_write_through_a_reference_ignores_its_rights() {
    let (mut store, empty) = GlobalState::new();
    let writer = Key::URef([7u8; 32], AccessRights::WRITE());
    let reader = Key::URef([7u8; 32], AccessRights::READ());
    let root = root_after(store.commit(
        &empty,
        vec![(writer, Transform::Write(balance(11)))],
        MissingKeyPolicy::Fail,
    ));
    assert_eq!(read_u64(&store, &root, &reader), 11);
}

/// Account X knows "Bar", a readable reference to a number, "Code", a contract that knows
/// "Up", the account itself, and "Locked", a reference that may only be written.
fn with_names() -> (GlobalState, [u8; 32], Key) {
    let (mut store, empty) = GlobalState::new();
    let x = Key::Account([1u8; 20]);
    let bar = Key::URef([2u8; 32], AccessRights::READ_ADD_WRITE());
    let locked = Key::URef([3u8; 32], AccessRights::WRITE());
    let code = Key::Hash([4u8; 32]);
    let mut names = NamedKeys::new();
    names.insert("Bar".to_string(), bar);
    names.insert("Code".to_string(), code);
    names.insert("Locked".to_string(), locked);
    names.insert("self".to_string(), x);
    let mut contract_names = NamedKeys::new();
    contract_names.insert("Up".to_string(), x);
    contract_names.insert("Bar".to_string(), bar);
    let contract = Contract::new(vec![1, 2, 3], contract_names, ProtocolVersion::V1_0_0());
    let root = root_after(store.commit(
        &empty,
        vec![
            (x, Transform::Write(StoredValue::Account(Account::new([1u8; 20], names)))),
            (bar, Transform::Write(balance(5))),
            (locked, Transform::Write(balance(6))),
            (code, Transform::Write(StoredValue::Contract(contract))),
        ],
        MissingKeyPolicy::Fail,
    ));
    (store, root, x)
}

fn path(names: &[&str]) -> Vec<String> {
    names.iter().map(|n| n.to_string()).collect()
}

#[test]
fn query_follows_names() {
    let (store, root, x) = with_names();
    assert!(matches!(
        query(&store, &root, x, &path(&["Bar"])),
        QueryResult::Success(StoredValue::Value(Value::UInt64(5)))
    ));
    assert!(matches!(
        query(&store, &root, x, &path(&["Code", "Bar"])),
        QueryResult::Success(StoredValue::Value(Value::UInt64(5)))
    ));
    assert!(matches!(query(&store, &root, x, &path(&[])), QueryResult::Success(StoredValue::Account(_))));
    assert!(matches!(query(&store, &root, x, &path(&["Code"])), QueryResult::Success(StoredValue::Contract(_))));
}

#[test]
fn query_reports_the_name_it_could_not_resolve() {
    let (store, root, x) = with_names();
    match query(&store, &root, x, &path(&["Bar", "Baz"])) {
        QueryResult::ValueNotFound(name) => assert_eq!(name, "Baz"),
        _ => panic!("the name cannot be resolved"),
    }
    match query(&store, &root, x, &path(&["Nope", "Bar"])) {
        QueryResult::ValueNotFound(name) => assert_eq!(name, "Nope"),
        _ => panic!("the name cannot be resolved"),
    }
    match query(&store, &root, Key::Hash([0x77u8; 32]), &path(&["Bar"])) {
        QueryResult::ValueNotFound(name) => assert_eq!(name, ""),
        _ => panic!("nothing lies under the base key"),
    }
}

#[test]
fn query_stops_at_a_self_reference() {
    let (store, root, x) = with_names();
    match query(&store, &root, x, &path(&["self"])) {
        QueryResult::CircularReference(name) => assert_eq!(name, "self"),
        _ => panic!("the name leads back to the account"),
    }
    match query(&store, &root, x, &path(&["self", "self", "Bar"])) {
        QueryResult::CircularReference(name) => assert_eq!(name, "self"),
        _ => panic!("the name leads back to the account"),
    }
    // A cycle of two: the account, its contract, and back.
    match query(&store, &root, x, &path(&["Code", "Up", "Bar"])) {
        QueryResult::CircularReference(name) => assert_eq!(name, "Up"),
        _ => panic!("the name leads back to the account"),
    }
}

#[test]
fn query_needs_the_right_to_read() {
    let (store, root, x) = with_names();
    let locked = Key::URef([3u8; 32], AccessRights::WRITE());
    assert!(matches!(
        query(&store, &root, locked, &path(&[])),
        QueryResult::InsufficientRights(k) if k == locked
    ));
    assert!(matches!(
        query(&store, &root, x, &path(&["Locked"])),
        QueryResult::InsufficientRights(k) if k == locked
    ));
    assert!(matches!(
        query(&store, &root, Key::URef([3u8; 32], AccessRights::READ()), &path(&[])),
        QueryResult::Success(StoredValue::Value(Value::UInt64(6)))
    ));
    assert!(!key_is_readable(&locked));
    assert!(!key_is_readable(&Key::URef([3u8; 32], AccessRights::ADD_WRITE())));
    assert!(key_is_readable(&Key::URef([3u8; 32], AccessRights::READ_ADD())));
    assert!(key_is_readable(&x));
}

#[test]
fn query_against_an_unknown_root() {
    let (store, _, x) = with_names();
    assert!(matches!(query(&store, &[0u8; 32], x, &path(&["Bar"])), QueryResult::RootNotFound));
}

fn engine() -> EngineState {
    EngineState::new(EngineConfig { missing_key_policy: MissingKeyPolicy::Fail })
}

#[test]
fn engine_runs_genesis_commits_and_answers_queries() {
    let mut engine = engine();
    let genesis_hash = match engine.run_genesis(vec![(account_a(), Transform::Write(balance(1000)))]) {
        DeployResponse::Success { poststate_hash } => poststate_hash,
        other => panic!("genesis failed: {:?}", other),
    };
    assert_eq!(genesis_hash.len(), 32);
    let response = engine.commit(
        &genesis_hash,
        ProtocolVersion::V1_0_0(),
        vec![
            (account_a(), Transform::Write(balance(900))),
            (account_b(), Transform::Write(balance(100))),
        ],
    );
    let new_hash = match response {
        CommitResponse::Success { poststate_hash } => poststate_hash,
        other => panic!("the commit failed: {:?}", other),
    };
    assert_eq!(
        engine.query(&new_hash, account_a(), &vec![]),
        QueryResponse::Success(balance(900).to_bytes().unwrap())
    );
    assert_eq!(
        engine.query(&new_hash, account_b(), &vec![]),
        QueryResponse::Success(vec![2, 1, 100, 0, 0, 0, 0, 0, 0, 0])
    );
    assert_eq!(
        engine.query(&genesis_hash, account_a(), &vec![]),
        QueryResponse::Success(balance(1000).to_bytes().unwrap())
    );
    assert_eq!(
        engine.query(&genesis_hash, account_b(), &vec![]),
        QueryResponse::Failure(String::new())
    );
    assert_eq!(engine.missing_parent(&new_hash), None);
    assert_eq!(engine.missing_parent(&[1u8; 32]), Some(vec![1u8; 32]));
    assert_eq!(engine.missing_parent(&[1u8; 3]), Some(vec![1u8; 3]));
    assert!(engine.global_state().contains_root(&engine.empty_root()));
}

#[test]
fn engine_reports_failures() {
    let mut engine = engine();
    let empty = engine.empty_root();
    assert_eq!(
        engine.commit(&[1u8, 2, 3], ProtocolVersion::V1_0_0(), vec![]),
        CommitResponse::FailedTransform("Could not parse pre-state hash".to_string())
    );
    assert_eq!(
        engine.commit(&[9u8; 32], ProtocolVersion::V1_0_0(), vec![]),
        CommitResponse::MissingPrestate(vec![9u8; 32])
    );
    assert_eq!(
        engine.commit(&empty, ProtocolVersion::V1_0_0(), vec![(account_a(), Transform::AddUInt64(50))]),
        CommitResponse::KeyNotFound(account_a())
    );
    assert_eq!(
        engine.commit(&empty, ProtocolVersion::V1_0_0(), vec![(account_a(), Transform::Identity)]),
        CommitResponse::KeyNotFound(account_a())
    );
    assert_eq!(
        engine.query(&[9u8; 32], account_a(), &vec![]),
        QueryResponse::Failure("Root not found".to_string())
    );
    assert_eq!(
        engine.query(&[9u8; 31], account_a(), &vec![]),
        QueryResponse::Failure("Could not parse state hash".to_string())
    );
    assert_eq!(
        engine.query(&empty, Key::URef([1u8; 32], AccessRights::WRITE()), &vec![]),
        QueryResponse::Failure("Insufficient access rights".to_string())
    );
    assert_eq!(
        engine.run_genesis(vec![(account_a(), Transform::Identity)]),
        DeployResponse::FailedDeploy("Key not found".to_string())
    );
}

#[test]
fn upgrade_never_goes_back_in_versions() {
    let mut engine = engine();
    let empty = engine.empty_root();
    let v1 = ProtocolVersion::V1_0_0();
    let v2 = ProtocolVersion::from_parts(2, 0, 0);
    assert_eq!(
        engine.upgrade(&empty, v2, v1, vec![]),
        DeployResponse::FailedDeploy("Invalid protocol version".to_string())
    );
    assert_eq!(
        engine.upgrade(&empty, v1, v1, vec![]),
        DeployResponse::FailedDeploy("Invalid protocol version".to_string())
    );
    assert_eq!(
        engine.upgrade(&[1u8], v1, v2, vec![]),
        DeployResponse::FailedDeploy("Could not parse pre-state hash".to_string())
    );
    assert_eq!(
        engine.upgrade(&[1u8; 32], v1, v2, vec![]),
        DeployResponse::FailedDeploy("Root not found".to_string())
    );
    let upgraded = engine.upgrade(&empty, v1, v2, vec![(account_a(), Transform::Write(balance(3)))]);
    match upgraded {
        DeployResponse::Success { poststate_hash } => {
            assert_eq!(
                engine.query(&poststate_hash, account_a(), &vec![]),
                QueryResponse::Success(balance(3).to_bytes().unwrap())
            );
        }
        other => panic!("the upgrade failed: {:?}", other),
    }
}

#[test]
fn responses_of_results() {
    assert_eq!(
        commit_response(CommitResult::Success { state_root: [5u8; 32] }, &[1u8; 32]),
        CommitResponse::Success { poststate_hash: vec![5u8; 32] }
    );
    assert_eq!(
        commit_response(CommitResult::RootNotFound, &[1u8; 32]),
        CommitResponse::MissingPrestate(vec![1u8; 32])
    );
    assert_eq!(
        commit_response(CommitResult::Serialization(Error::OutOfMemoryError), &[1u8; 32]),
        CommitResponse::FailedTransform("OutOfMemoryError".to_string())
    );
    let mismatch = TypeMismatch { expected: TypeTag::Int32, found: TypeTag::Contract };
    assert_eq!(
        commit_response(CommitResult::TypeMismatch(mismatch), &[1u8; 32]),
        CommitResponse::TypeMismatch(mismatch)
    );
    assert_eq!(
        query_response(QueryResult::CircularReference("loop".to_string())),
        QueryResponse::Failure("loop".to_string())
    );
    assert_eq!(
        query_response(QueryResult::ValueNotFound("Baz".to_string())),
        QueryResponse::Failure("Baz".to_string())
    );
    let value = balance(1);
    assert_eq!(
        query_response(QueryResult::Success(&value)),
        QueryResponse::Success(vec![2, 1, 1, 0, 0, 0, 0, 0, 0, 0])
    );
}

#[test]
fn state_hashes_have_32_bytes() {
    assert_eq!(parse_state_hash(&[7u8; 32]), Some([7u8; 32]));
    assert_eq!(parse_state_hash(&[7u8; 31]), None);
    assert_eq!(parse_state_hash(&[7u8; 33]), None);
    assert_eq!(parse_state_hash(&[]), None);
}

#[test]
fn commits_run_under_version_one_at_least() {
    assert_eq!(
        effective_protocol_version(ProtocolVersion::from_parts(0, 0, 0)),
        ProtocolVersion::V1_0_0()
    );
    assert_eq!(
        effective_protocol_version(ProtocolVersion::from_parts(1, 0, 0)),
        ProtocolVersion::V1_0_0()
    );
    assert_eq!(
        effective_protocol_version(ProtocolVersion::from_parts(1, 4, 2)),
        ProtocolVersion::from_parts(1, 4, 2)
    );
}

#[test]
fn operations_that_are_not_offered_say_so() {
    let engine = engine();
    assert_eq!(engine.bid_state(), Err(Unsupported::Unimplemented));
    assert_eq!(engine.distribute_rewards(), Err(Unsupported::Unimplemented));
    assert_eq!(engine.slash(), Err(Unsupported::Unimplemented));
    assert_eq!(engine.unbond_payout(), Err(Unsupported::Unimplemented));
}
