use evm_diff::primitives::{keccak_empty, B256, U256};
use evm_diff::types::{Account, DbAccount, DbAccountInfo, EvmBlock, Header, SealedBlock};

#[test]
fn omitted_info_fields_take_their_defaults() {
    let info = DbAccountInfo::default();
    assert_eq!(info.balance, U256::from_u64(0));
    assert_eq!(info.nonce, 0);
    assert_eq!(info.code_hash, keccak_empty());
    assert_eq!(info.code_hash.bytes, alloy_primitives::KECCAK256_EMPTY.0);
    assert_eq!(info.code_hash.bytes, alloy_primitives::keccak256(b"").0);
}

#[test]
fn omitted_account_fields_take_their_defaults() {
    let account = DbAccount::default();
    assert_eq!(account.info, DbAccountInfo::default());
    assert!(account.storage.is_empty());
}

#[test]
fn account_without_code_has_the_empty_code_hash() {
    let bare = Account { nonce: 0, balance: U256::zero(), bytecode_hash: None };
    assert_eq!(bare.get_bytecode_hash(), keccak_empty());
    let coded = Account { nonce: 0, balance: U256::zero(), bytecode_hash: Some(B256::repeat_byte(7)) };
    assert_eq!(coded.get_bytecode_hash(), B256::repeat_byte(7));
}

#[test]
fn block_number_is_read_from_the_header() {
    let block = EvmBlock::Reth115(SealedBlock { header: Header { number: 4242 } });
    assert_eq!(block.number(), 4242);
}
