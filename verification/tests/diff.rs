use evm_diff::bytecode::Bytecode;
use evm_diff::diff::{
    check_absent_account, check_account, check_bytecode, check_storage, is_untouched, CodeVerdict,
    Divergence, Mode, Note,
};
use evm_diff::primitives::{keccak_empty, Address, B256, U256};
use evm_diff::storage::StorageMap;
use evm_diff::types::{Account, DbAccount, DbAccountInfo};

fn val(n: u64) -> U256 {
    U256::from_u64(n)
}

fn key(n: u64) -> B256 {
    B256::from_u256(val(n))
}

fn address() -> Address {
    Address::repeat_byte(0xaa)
}

fn info(balance: u64, nonce: u64) -> DbAccountInfo {
    DbAccountInfo { balance: val(balance), nonce, code_hash: keccak_empty() }
}

fn clean() -> CodeVerdict {
    CodeVerdict { divergences: vec![], notes: vec![] }
}

#[test]
fn equal_accounts_do_not_diverge() {
    let stored = Account { nonce: 1, balance: val(100), bytecode_hash: None };
    for mode in [Mode::FailFast, Mode::Exhaustive] {
        assert_eq!(check_account(mode, address(), &info(100, 1), &stored, 7), vec![]);
    }
    let explicit = Account { nonce: 1, balance: val(100), bytecode_hash: Some(keccak_empty()) };
    assert_eq!(check_account(Mode::Exhaustive, address(), &info(100, 1), &explicit, 7), vec![]);
}

#[test]
fn every_field_is_compared_in_order() {
    let stored = Account { nonce: 2, balance: val(99), bytecode_hash: Some(B256::repeat_byte(1)) };
    let balance = Divergence::Balance {
        address: address(),
        expected: val(100),
        actual: val(99),
        block_number: 7,
    };
    let nonce = Divergence::Nonce { address: address(), expected: 1, actual: 2, block_number: 7 };
    let code = Divergence::CodeHash {
        address: address(),
        expected: keccak_empty(),
        actual: B256::repeat_byte(1),
        block_number: 7,
    };
    assert_eq!(
        check_account(Mode::Exhaustive, address(), &info(100, 1), &stored, 7),
        vec![balance.clone(), nonce.clone(), code.clone()]
    );
    assert_eq!(check_account(Mode::FailFast, address(), &info(100, 1), &stored, 7), vec![balance]);
    assert_eq!(
        check_account(Mode::FailFast, address(), &info(99, 1), &stored, 7),
        vec![nonce.clone()]
    );
    assert_eq!(check_account(Mode::FailFast, address(), &info(99, 2), &stored, 7), vec![code.clone()]);
    assert_eq!(
        check_account(Mode::Exhaustive, address(), &info(99, 1), &stored, 7),
        vec![nonce, code]
    );
}

#[test]
fn balances_differ_in_any_limb() {
    let stored = Account { nonce: 0, balance: U256 { limbs: [0, 0, 0, 1] }, bytecode_hash: None };
    let found = check_account(Mode::FailFast, address(), &info(0, 0), &stored, 1);
    assert_eq!(found.len(), 1);
}

#[test]
fn untouched_records() {
    assert!(is_untouched(&DbAccount::default()));
    assert!(!is_untouched(&DbAccount { info: info(1, 0), storage: vec![] }));
    assert!(!is_untouched(&DbAccount { info: info(0, 1), storage: vec![] }));
    assert!(!is_untouched(&DbAccount { info: info(0, 0), storage: vec![(val(1), val(0))] }));
    let mut coded = DbAccount::default();
    coded.info.code_hash = B256::zero();
    assert!(!is_untouched(&coded));
}

#[test]
fn absent_account_verdicts() {
    assert_eq!(check_absent_account(address(), &DbAccount::default(), 3), vec![]);
    let touched = DbAccount { info: info(5, 0), storage: vec![(val(1), val(2))] };
    assert_eq!(
        check_absent_account(address(), &touched, 3),
        vec![Divergence::AbsentAccount {
            address: address(),
            info: info(5, 0),
            storage_len: 1,
            block_number: 3,
        }]
    );
}

#[test]
fn storage_verdicts() {
    let mut stored = StorageMap::new();
    stored.insert(key(2), val(5));
    let pairs = vec![(val(1), val(0)), (val(2), val(5))];
    assert_eq!(check_storage(address(), &pairs, stored.clone(), 3), vec![]);

    let mut with_zero = stored.clone();
    with_zero.insert(key(9), val(0));
    assert_eq!(check_storage(address(), &pairs, with_zero, 3), vec![]);

    let pairs = vec![(val(2), val(6))];
    let mut expected = StorageMap::new();
    expected.insert(key(2), val(6));
    assert_eq!(
        check_storage(address(), &pairs, stored.clone(), 3),
        vec![Divergence::Storage { address: address(), expected, actual: stored.clone(), block_number: 3 }]
    );
    assert_eq!(check_storage(address(), &vec![], stored, 3).len(), 1);
    assert_eq!(check_storage(address(), &vec![], StorageMap::new(), 3), vec![]);
}

#[test]
fn code_verdicts_under_the_empty_hash() {
    let code = Bytecode::LegacyRaw(vec![]);
    assert_eq!(check_bytecode(keccak_empty(), &code, &None, 3), clean());
    assert_eq!(check_bytecode(keccak_empty(), &code, &Some(Bytecode::LegacyRaw(vec![])), 3), clean());
    assert_eq!(
        check_bytecode(keccak_empty(), &code, &Some(Bytecode::LegacyRaw(vec![1, 2])), 3),
        CodeVerdict {
            divergences: vec![Divergence::EmptyCode { actual: vec![1, 2], block_number: 3 }],
            notes: vec![],
        }
    );
    // what the snapshot holds under that hash is not looked at
    let odd = Bytecode::LegacyRaw(vec![9]);
    assert_eq!(check_bytecode(keccak_empty(), &odd, &None, 3), clean());
}

#[test]
fn code_verdicts_under_other_hashes() {
    let hash = B256::repeat_byte(4);
    let code = Bytecode::LegacyRaw(vec![1, 2]);
    assert_eq!(check_bytecode(hash, &code, &Some(Bytecode::LegacyRaw(vec![1, 2])), 3), clean());
    assert_eq!(
        check_bytecode(hash, &code, &Some(Bytecode::LegacyRaw(vec![1])), 3),
        CodeVerdict {
            divergences: vec![Divergence::Bytecode {
                code_hash: hash,
                expected: vec![1, 2],
                actual: vec![1],
                block_number: 3,
            }],
            notes: vec![],
        }
    );
    assert_eq!(
        check_bytecode(hash, &code, &None, 3),
        CodeVerdict {
            divergences: vec![Divergence::MissingBytecode { code_hash: hash, block_number: 3 }],
            notes: vec![],
        }
    );
    assert_eq!(
        check_bytecode(B256::zero(), &code, &None, 3),
        CodeVerdict { divergences: vec![], notes: vec![Note::ZeroHashAbsent { code: vec![1, 2] }] }
    );
    assert_eq!(
        check_bytecode(B256::zero(), &code, &Some(Bytecode::LegacyRaw(vec![])), 3).divergences.len(),
        1
    );
}
