use evm_diff::bytecode::Bytecode;
use evm_diff::diff::{Divergence, Mode, Note, Outcome};
use evm_diff::engine::{DiffEngine, RunResult};
use evm_diff::extract::{
    extract_contract_state, Answer, ContractState, Extraction, IndexEntry, Query, QueryFault,
};
use evm_diff::primitives::{keccak_empty, Address, B256, U256};
use evm_diff::report::Report;
use evm_diff::storage::StorageMap;
use evm_diff::types::{
    AbciState, Account, DbAccount, DbAccountInfo, EvmBlock, EvmDb, EvmState, Exchange, Header,
    HyperEvm, SealedBlock,
};

const BLOCK: u64 = 77;

fn key(n: u64) -> B256 {
    B256::from_u256(U256::from_u64(n))
}

fn val(n: u64) -> U256 {
    U256::from_u64(n)
}

fn fault(message: &str) -> QueryFault {
    QueryFault { message: message.to_string() }
}

/// A state store held in memory: accounts, codes, and a storage index kept
/// sorted by address and slot, read through a cursor.
struct Store {
    accounts: Vec<(Address, Result<Option<Account>, QueryFault>)>,
    account_codes: Vec<(Address, Result<Option<Bytecode>, QueryFault>)>,
    codes: Vec<(B256, Result<Option<Bytecode>, QueryFault>)>,
    index: Vec<IndexEntry>,
    index_fault_at: Option<usize>,
    cursor: usize,
    asked: Vec<Query>,
}

impl Store {
    fn new() -> Store {
        Store {
            accounts: Vec::new(),
            account_codes: Vec::new(),
            codes: Vec::new(),
            index: Vec::new(),
            index_fault_at: None,
            cursor: 0,
            asked: Vec::new(),
        }
    }

    fn with_account(mut self, address: Address, account: Account) -> Store {
        self.accounts.push((address, Ok(Some(account))));
        self
    }

    fn with_slot(mut self, address: Address, slot: u64, value: u64) -> Store {
        self.index.push(IndexEntry { address, key: key(slot), value: val(value) });
        self.index.sort_by(|a, b| (a.address.bytes, a.key.bytes).cmp(&(b.address.bytes, b.key.bytes)));
        self
    }

    fn with_code(mut self, hash: B256, code: Option<Bytecode>) -> Store {
        self.codes.push((hash, Ok(code)));
        self
    }

    fn entry_at(&self, position: usize) -> Answer {
        if self.index_fault_at == Some(position) {
            return Answer::Entry(Err(fault("index unreadable")));
        }
        Answer::Entry(Ok(self.index.get(position).copied()))
    }

    fn answer(&mut self, query: Query) -> Answer {
        self.asked.push(query);
        match query {
            Query::BasicAccount(address) => {
                match self.accounts.iter().find(|(a, _)| *a == address) {
                    Some((_, Ok(found))) => Answer::Account(Ok(*found)),
                    Some((_, Err(f))) => Answer::Account(Err(f.clone())),
                    None => Answer::Account(Ok(None)),
                }
            }
            Query::AccountCode(address) => {
                match self.account_codes.iter().find(|(a, _)| *a == address) {
                    Some((_, Ok(found))) => Answer::Code(Ok(found.clone())),
                    Some((_, Err(f))) => Answer::Code(Err(f.clone())),
                    None => Answer::Code(Ok(None)),
                }
            }
            Query::BytecodeByHash(hash) => {
                match self.codes.iter().find(|(h, _)| *h == hash) {
                    Some((_, Ok(found))) => Answer::Code(Ok(found.clone())),
                    Some((_, Err(f))) => Answer::Code(Err(f.clone())),
                    None => Answer::Code(Ok(None)),
                }
            }
            Query::StorageSeek(address) => {
                match self.index.iter().position(|e| e.address == address) {
                    Some(position) => {
                        self.cursor = position;
                        self.entry_at(position)
                    }
                    None => {
                        self.cursor = self.index.len();
                        if self.index_fault_at == Some(usize::MAX) {
                            Answer::Entry(Err(fault("index unreadable")))
                        } else {
                            Answer::Entry(Ok(None))
                        }
                    }
                }
            }
            Query::StorageNext => {
                self.cursor += 1;
                self.entry_at(self.cursor)
            }
        }
    }
}

fn extract(store: &mut Store, address: Address) -> Result<Option<ContractState>, QueryFault> {
    let mut extraction = extract_contract_state(address);
    loop {
        match extraction.query() {
            Some(query) => {
                let (next, accepted) = extraction.answer(store.answer(query));
                assert!(accepted);
                extraction = next;
            }
            None => match extraction.finish() {
                Ok(result) => return result,
                Err(_) => unreachable!(),
            },
        }
    }
}

fn snapshot(accounts: Vec<(Address, DbAccount)>, contracts: Vec<(B256, Bytecode)>) -> AbciState {
    AbciState {
        exchange: Exchange {
            hyper_evm: HyperEvm {
                state2: EvmState {
                    evm_db: EvmDb::InMemory { accounts, contracts },
                    block_hashes: Vec::new(),
                },
                latest_block2: EvmBlock::Reth115(SealedBlock { header: Header { number: BLOCK } }),
            },
        },
    }
}

fn run(state: AbciState, mode: Mode, store: &mut Store) -> Result<Report, QueryFault> {
    let mut engine = DiffEngine::new(state, mode);
    assert_eq!(engine.block_number(), BLOCK);
    loop {
        match engine.query() {
            Some(query) => {
                let (next, accepted) = engine.answer(store.answer(query));
                assert!(accepted);
                engine = next;
            }
            None => match engine.finish() {
                RunResult::Finished(report) => return Ok(report),
                RunResult::Aborted(f) => return Err(f),
                RunResult::Unfinished(_) => unreachable!(),
            },
        }
    }
}

fn record(balance: u64, nonce: u64, storage: &[(u64, u64)]) -> DbAccount {
    DbAccount {
        info: DbAccountInfo { balance: val(balance), nonce, code_hash: keccak_empty() },
        storage: storage.iter().map(|(k, v)| (val(*k), val(*v))).collect(),
    }
}

fn stored(balance: u64, nonce: u64) -> Account {
    Account { nonce, balance: val(balance), bytecode_hash: None }
}

fn addr_a() -> Address {
    Address::repeat_byte(0xaa)
}

fn addr_b() -> Address {
    Address::repeat_byte(0xbb)
}

#[test]
fn extraction_stops_at_the_next_address() {
    let mut store = Store::new()
        .with_account(addr_a(), stored(1, 1))
        .with_account(addr_b(), stored(2, 2))
        .with_slot(addr_b(), 1, 100)
        .with_slot(addr_a(), 3, 30)
        .with_slot(addr_a(), 1, 10)
        .with_slot(addr_b(), 2, 200)
        .with_slot(addr_a(), 2, 20);
    let state = extract(&mut store, addr_a()).unwrap().unwrap();
    assert_eq!(state.address, addr_a());
    assert_eq!(state.account, stored(1, 1));
    assert_eq!(state.bytecode, None);
    assert_eq!(state.storage.len(), 3);
    assert_eq!(state.storage.get(&key(1)), Some(val(10)));
    assert_eq!(state.storage.get(&key(2)), Some(val(20)));
    assert_eq!(state.storage.get(&key(3)), Some(val(30)));
    // one seek, then one step per entry of the address: the last step met B
    assert_eq!(
        store.asked,
        vec![
            Query::BasicAccount(addr_a()),
            Query::AccountCode(addr_a()),
            Query::StorageSeek(addr_a()),
            Query::StorageNext,
            Query::StorageNext,
            Query::StorageNext,
        ]
    );
    let other = extract(&mut store, addr_b()).unwrap().unwrap();
    assert_eq!(other.storage.len(), 2);
    assert_eq!(other.storage.get(&key(1)), Some(val(100)));
    assert_eq!(other.storage.get(&key(2)), Some(val(200)));
}

#[test]
fn extraction_of_an_unknown_address_asks_no_further() {
    let mut store = Store::new().with_slot(addr_a(), 1, 10);
    assert_eq!(extract(&mut store, addr_a()), Ok(None));
    assert_eq!(store.asked, vec![Query::BasicAccount(addr_a())]);
}

#[test]
fn extraction_without_storage_is_empty() {
    let mut store = Store::new().with_account(addr_a(), stored(5, 0)).with_slot(addr_b(), 1, 1);
    let state = extract(&mut store, addr_a()).unwrap().unwrap();
    assert!(state.storage.is_empty());
    assert_eq!(store.asked.len(), 3);
}

#[test]
fn extraction_carries_the_code() {
    let mut store = Store::new().with_account(addr_a(), stored(5, 0));
    store.account_codes.push((addr_a(), Ok(Some(Bytecode::LegacyRaw(vec![0x60, 0x00])))));
    let state = extract(&mut store, addr_a()).unwrap().unwrap();
    assert_eq!(state.bytecode, Some(Bytecode::LegacyRaw(vec![0x60, 0x00])));
}

#[test]
fn extraction_passes_faults_on() {
    let mut store = Store::new();
    store.accounts.push((addr_a(), Err(fault("no account"))));
    assert_eq!(extract(&mut store, addr_a()), Err(fault("no account")));

    let mut store = Store::new().with_account(addr_a(), stored(1, 1));
    store.account_codes.push((addr_a(), Err(fault("no code"))));
    assert_eq!(extract(&mut store, addr_a()), Err(fault("no code")));

    let mut store = Store::new()
        .with_account(addr_a(), stored(1, 1))
        .with_slot(addr_a(), 1, 10)
        .with_slot(addr_a(), 2, 20);
    store.index_fault_at = Some(1);
    assert_eq!(extract(&mut store, addr_a()), Err(fault("index unreadable")));
}

#[test]
fn extraction_drops_an_answer_of_the_wrong_kind() {
    let extraction = extract_contract_state(addr_a());
    let (extraction, accepted) = extraction.answer(Answer::Entry(Ok(None)));
    assert!(!accepted);
    assert_eq!(extraction.query(), Some(Query::BasicAccount(addr_a())));
    let (extraction, accepted) = extraction.answer(Answer::Account(Ok(Some(stored(1, 1)))));
    assert!(accepted);
    assert_eq!(extraction.query(), Some(Query::AccountCode(addr_a())));
    assert_eq!(extraction, Extraction::with_account(addr_a(), stored(1, 1)));
    let unfinished = extraction.finish();
    assert_eq!(unfinished, Err(Extraction::with_account(addr_a(), stored(1, 1))));
}

#[test]
fn matching_account_with_zero_slot_in_store_is_clean() {
    let state = snapshot(vec![(addr_a(), record(100, 1, &[(1, 7)]))], vec![]);
    let mut store = Store::new()
        .with_account(addr_a(), stored(100, 1))
        .with_slot(addr_a(), 1, 7)
        .with_slot(addr_a(), 2, 0);
    for mode in [Mode::FailFast, Mode::Exhaustive] {
        let report = run(state.clone(), mode, &mut store).unwrap();
        assert_eq!(report, Report { divergences: vec![], notes: vec![] });
        assert_eq!(report.outcome(), Outcome::Clean);
        assert_eq!(report.exit_code(), 0);
    }
}

#[test]
fn balance_mismatch_is_one_divergence() {
    let state = snapshot(vec![(addr_a(), record(100, 1, &[(1, 7)]))], vec![]);
    let mut store = Store::new()
        .with_account(addr_a(), stored(99, 1))
        .with_slot(addr_a(), 1, 7)
        .with_slot(addr_a(), 2, 0);
    for mode in [Mode::FailFast, Mode::Exhaustive] {
        let report = run(state.clone(), mode, &mut store).unwrap();
        assert_eq!(
            report.divergences,
            vec![Divergence::Balance {
                address: addr_a(),
                expected: val(100),
                actual: val(99),
                block_number: BLOCK,
            }]
        );
        assert!(report.notes.is_empty());
        assert_eq!(report.outcome(), Outcome::Divergent);
        assert_eq!(report.exit_code(), 1);
    }
}

#[test]
fn snapshot_zero_slot_is_filtered() {
    let state = snapshot(vec![(addr_a(), record(1, 1, &[(1, 0), (2, 5)]))], vec![]);
    let mut store = Store::new().with_account(addr_a(), stored(1, 1)).with_slot(addr_a(), 2, 5);
    let report = run(state, Mode::Exhaustive, &mut store).unwrap();
    assert_eq!(report.outcome(), Outcome::Clean);
}

#[test]
fn storage_mismatch_carries_both_maps() {
    let state = snapshot(vec![(addr_a(), record(1, 1, &[(1, 7), (2, 0)]))], vec![]);
    let mut store = Store::new()
        .with_account(addr_a(), stored(1, 1))
        .with_slot(addr_a(), 1, 8)
        .with_slot(addr_a(), 3, 9);
    let report = run(state, Mode::Exhaustive, &mut store).unwrap();
    let mut expected = StorageMap::new();
    expected.insert(key(1), val(7));
    let mut actual = StorageMap::new();
    actual.insert(key(1), val(8));
    actual.insert(key(3), val(9));
    assert_eq!(
        report.divergences,
        vec![Divergence::Storage { address: addr_a(), expected, actual, block_number: BLOCK }]
    );
}

#[test]
fn absent_account_with_defaults_is_clean() {
    let state = snapshot(vec![(addr_a(), DbAccount::default())], vec![]);
    let mut store = Store::new();
    let report = run(state, Mode::FailFast, &mut store).unwrap();
    assert_eq!(report.outcome(), Outcome::Clean);
    assert_eq!(store.asked, vec![Query::BasicAccount(addr_a())]);
}

#[test]
fn absent_account_with_anything_else_is_one_divergence() {
    let mut with_code = DbAccount::default();
    with_code.info.code_hash = B256::repeat_byte(1);
    let mut everything = record(5, 6, &[(1, 1)]);
    everything.info.code_hash = B256::repeat_byte(1);
    for touched in [
        record(1, 0, &[]),
        record(0, 1, &[]),
        with_code,
        record(0, 0, &[(1, 1)]),
        record(0, 0, &[(1, 0)]),
        everything,
    ] {
        for mode in [Mode::FailFast, Mode::Exhaustive] {
            let state = snapshot(vec![(addr_a(), touched.clone())], vec![]);
            let report = run(state, mode, &mut Store::new()).unwrap();
            assert_eq!(
                report.divergences,
                vec![Divergence::AbsentAccount {
                    address: addr_a(),
                    info: touched.info,
                    storage_len: touched.storage.len(),
                    block_number: BLOCK,
                }]
            );
        }
    }
}

#[test]
fn fail_fast_stops_at_the_first_divergence() {
    let accounts = vec![
        (addr_a(), record(100, 1, &[])),
        (addr_b(), record(200, 2, &[])),
    ];
    let state = snapshot(accounts, vec![(B256::repeat_byte(9), Bytecode::LegacyRaw(vec![1]))]);
    let mut store = Store::new()
        .with_account(addr_a(), stored(99, 2))
        .with_account(addr_b(), stored(201, 2));
    let report = run(state.clone(), Mode::FailFast, &mut store).unwrap();
    assert_eq!(
        report.divergences,
        vec![Divergence::Balance {
            address: addr_a(),
            expected: val(100),
            actual: val(99),
            block_number: BLOCK,
        }]
    );
    assert_eq!(store.asked, vec![Query::BasicAccount(addr_a())]);

    let mut store = Store::new()
        .with_account(addr_a(), stored(99, 2))
        .with_account(addr_b(), stored(201, 2));
    let report = run(state, Mode::Exhaustive, &mut store).unwrap();
    assert_eq!(
        report.divergences,
        vec![
            Divergence::Balance {
                address: addr_a(),
                expected: val(100),
                actual: val(99),
                block_number: BLOCK,
            },
            Divergence::Nonce { address: addr_a(), expected: 1, actual: 2, block_number: BLOCK },
            Divergence::Balance {
                address: addr_b(),
                expected: val(200),
                actual: val(201),
                block_number: BLOCK,
            },
            Divergence::MissingBytecode { code_hash: B256::repeat_byte(9), block_number: BLOCK },
        ]
    );
}

#[test]
fn code_hash_mismatch_is_reported() {
    let state = snapshot(vec![(addr_a(), record(1, 1, &[]))], vec![]);
    let mut account = stored(1, 1);
    account.bytecode_hash = Some(B256::repeat_byte(3));
    let mut store = Store::new().with_account(addr_a(), account);
    let report = run(state, Mode::FailFast, &mut store).unwrap();
    assert_eq!(
        report.divergences,
        vec![Divergence::CodeHash {
            address: addr_a(),
            expected: keccak_empty(),
            actual: B256::repeat_byte(3),
            block_number: BLOCK,
        }]
    );
}

#[test]
fn account_fault_is_noted_and_the_run_goes_on() {
    let accounts = vec![(addr_a(), record(100, 1, &[])), (addr_b(), record(200, 2, &[]))];
    let state = snapshot(accounts, vec![]);
    let mut store = Store::new().with_account(addr_b(), stored(200, 3));
    store.accounts.push((addr_a(), Err(fault("disk"))));
    let report = run(state, Mode::FailFast, &mut store).unwrap();
    assert_eq!(report.notes, vec![Note::AccountFault { address: addr_a(), fault: fault("disk") }]);
    assert_eq!(
        report.divergences,
        vec![Divergence::Nonce { address: addr_b(), expected: 2, actual: 3, block_number: BLOCK }]
    );
}

#[test]
fn only_an_account_fault_leaves_the_run_clean() {
    let state = snapshot(vec![(addr_a(), record(100, 1, &[]))], vec![]);
    let mut store = Store::new();
    store.accounts.push((addr_a(), Err(fault("disk"))));
    let report = run(state, Mode::Exhaustive, &mut store).unwrap();
    assert_eq!(report.outcome(), Outcome::Clean);
    assert_eq!(report.notes.len(), 1);
}

#[test]
fn storage_and_code_faults_abort_the_run() {
    let state = snapshot(vec![(addr_a(), record(1, 1, &[]))], vec![]);
    let mut store = Store::new().with_account(addr_a(), stored(1, 1)).with_slot(addr_a(), 1, 1);
    store.index_fault_at = Some(0);
    assert_eq!(run(state.clone(), Mode::Exhaustive, &mut store), Err(fault("index unreadable")));

    let mut store = Store::new().with_account(addr_a(), stored(1, 1));
    store.account_codes.push((addr_a(), Err(fault("code"))));
    assert_eq!(run(state, Mode::Exhaustive, &mut store), Err(fault("code")));

    let state = snapshot(vec![], vec![(B256::repeat_byte(9), Bytecode::LegacyRaw(vec![1]))]);
    let mut store = Store::new();
    store.codes.push((B256::repeat_byte(9), Err(fault("by hash"))));
    assert_eq!(run(state, Mode::Exhaustive, &mut store), Err(fault("by hash")));
}

#[test]
fn empty_code_hash_accepts_nothing_or_empty_code() {
    let contracts = vec![(keccak_empty(), Bytecode::LegacyRaw(vec![]))];
    let state = snapshot(vec![], contracts);
    let report = run(state.clone(), Mode::FailFast, &mut Store::new()).unwrap();
    assert_eq!(report.outcome(), Outcome::Clean);

    let mut store = Store::new().with_code(keccak_empty(), Some(Bytecode::LegacyRaw(vec![])));
    let report = run(state.clone(), Mode::FailFast, &mut store).unwrap();
    assert_eq!(report.outcome(), Outcome::Clean);

    let mut store = Store::new().with_code(keccak_empty(), Some(Bytecode::LegacyRaw(vec![0x60])));
    let report = run(state, Mode::FailFast, &mut store).unwrap();
    assert_eq!(
        report.divergences,
        vec![Divergence::EmptyCode { actual: vec![0x60], block_number: BLOCK }]
    );
}

#[test]
fn code_is_compared_by_canonical_bytes() {
    let hash = B256::repeat_byte(5);
    let state = snapshot(vec![], vec![(hash, Bytecode::LegacyRaw(vec![0x60, 0x00]))]);
    let analyzed = evm_diff::bytecode::LegacyAnalyzedBytecode::new(vec![0x60, 0x00, 0x00], 2, vec![0]).unwrap();
    let mut store = Store::new().with_code(hash, Some(Bytecode::LegacyAnalyzed(analyzed)));
    assert_eq!(run(state.clone(), Mode::FailFast, &mut store).unwrap().outcome(), Outcome::Clean);

    let mut store = Store::new().with_code(hash, Some(Bytecode::LegacyRaw(vec![0x60, 0x01])));
    let report = run(state, Mode::FailFast, &mut store).unwrap();
    assert_eq!(
        report.divergences,
        vec![Divergence::Bytecode {
            code_hash: hash,
            expected: vec![0x60, 0x00],
            actual: vec![0x60, 0x01],
            block_number: BLOCK,
        }]
    );
}

#[test]
fn missing_code_is_a_divergence_but_for_the_zero_hash() {
    let hash = B256::repeat_byte(5);
    let state = snapshot(vec![], vec![(hash, Bytecode::LegacyRaw(vec![1]))]);
    let report = run(state, Mode::FailFast, &mut Store::new()).unwrap();
    assert_eq!(
        report.divergences,
        vec![Divergence::MissingBytecode { code_hash: hash, block_number: BLOCK }]
    );

    let state = snapshot(vec![], vec![(B256::zero(), Bytecode::LegacyRaw(vec![1, 2]))]);
    let report = run(state, Mode::FailFast, &mut Store::new()).unwrap();
    assert_eq!(report.outcome(), Outcome::Clean);
    assert_eq!(report.notes, vec![Note::ZeroHashAbsent { code: vec![1, 2] }]);
}

#[test]
fn of_two_codes_under_one_hash_the_last_counts() {
    let hash = B256::repeat_byte(5);
    let other = B256::repeat_byte(6);
    let contracts = vec![
        (hash, Bytecode::LegacyRaw(vec![1])),
        (other, Bytecode::LegacyRaw(vec![3])),
        (hash, Bytecode::LegacyRaw(vec![2])),
    ];
    let state = snapshot(vec![], contracts);
    let mut store = Store::new()
        .with_code(hash, Some(Bytecode::LegacyRaw(vec![2])))
        .with_code(other, Some(Bytecode::LegacyRaw(vec![3])));
    let report = run(state.clone(), Mode::Exhaustive, &mut store).unwrap();
    assert_eq!(report.outcome(), Outcome::Clean);
    assert_eq!(store.asked, vec![Query::BytecodeByHash(other), Query::BytecodeByHash(hash)]);

    let mut store = Store::new()
        .with_code(hash, Some(Bytecode::LegacyRaw(vec![1])))
        .with_code(other, Some(Bytecode::LegacyRaw(vec![3])));
    let report = run(state, Mode::Exhaustive, &mut store).unwrap();
    assert_eq!(report.divergences.len(), 1);
}

#[test]
fn accounts_are_taken_in_snapshot_order_duplicates_too() {
    let accounts = vec![
        (addr_b(), record(1, 1, &[])),
        (addr_a(), record(2, 2, &[])),
        (addr_b(), record(1, 1, &[])),
    ];
    let state = snapshot(accounts, vec![]);
    let mut store = Store::new().with_account(addr_a(), stored(2, 2)).with_account(addr_b(), stored(1, 1));
    let report = run(state, Mode::Exhaustive, &mut store).unwrap();
    assert_eq!(report.outcome(), Outcome::Clean);
    let asked: Vec<Query> =
        store.asked.iter().copied().filter(|q| matches!(q, Query::BasicAccount(_))).collect();
    assert_eq!(
        asked,
        vec![
            Query::BasicAccount(addr_b()),
            Query::BasicAccount(addr_a()),
            Query::BasicAccount(addr_b()),
        ]
    );
}

#[test]
fn empty_snapshot_is_clean_at_once() {
    let engine = DiffEngine::new(snapshot(vec![], vec![]), Mode::FailFast);
    assert_eq!(engine.query(), None);
    assert_eq!(engine.finish(), RunResult::Finished(Report::new()));
}

#[test]
fn engine_drops_an_answer_of_the_wrong_kind() {
    let state = snapshot(vec![(addr_a(), record(1, 1, &[]))], vec![]);
    let engine = DiffEngine::new(state.clone(), Mode::FailFast);
    let (engine, accepted) = engine.answer(Answer::Code(Ok(None)));
    assert!(!accepted);
    assert_eq!(engine, DiffEngine::new(state, Mode::FailFast));
    assert_eq!(engine.query(), Some(Query::BasicAccount(addr_a())));
    match engine.finish() {
        RunResult::Unfinished(engine) => {
            assert_eq!(engine.query(), Some(Query::BasicAccount(addr_a())))
        }
        _ => panic!("the run has not ended"),
    }
}
