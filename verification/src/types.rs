//! The snapshot of the ledger as it is decoded, and the account record that
//! the state store answers with.

use crate::bytecode::Bytecode;
use crate::primitives::{keccak_empty, keccak_empty_bytes, Address, B256, U256};
use vstd::prelude::*;

verus! {

/// What the state store holds on an account.
#[derive(Clone, Copy, Debug, PartialEq, Eq)]
pub struct Account {
    /// The number of transactions sent from the account.
    pub nonce: u64,
    /// The balance of the account.
    pub balance: U256,
    /// The hash of the account's code, or `None` where it has no code.
    pub bytecode_hash: Option<B256>,
}

impl Account {
    /// The bytes of the hash of the account's code: those of the stored
    /// hash, or of the hash of the empty byte string where none is stored.
    pub open spec fn code_hash_bytes(&self) -> Seq<u8> {
        match self.bytecode_hash {
            Some(hash) => hash@,
            None => keccak_empty_bytes(),
        }
    }

    /// The hash of the account's code; the hash of the empty byte string
    /// where the account has no code.
    pub fn get_bytecode_hash(&self) -> (r: B256)
        ensures
            r@ == self.code_hash_bytes(),
    {
        match self.bytecode_hash {
            Some(hash) => hash,
            None => keccak_empty(),
        }
    }
}

/// Balance, nonce and code hash of an account in a snapshot.
#[derive(Clone, Copy, Debug, PartialEq, Eq)]
pub struct DbAccountInfo {
    pub balance: U256,
    pub nonce: u64,
    pub code_hash: B256,
}

impl DbAccountInfo {
    /// Whether these are the values of an account that was never touched:
    /// balance zero, nonce zero, and the code hash of the empty byte string.
    pub open spec fn is_untouched(&self) -> bool {
        &&& self.balance.value() == 0
        &&& self.nonce == 0
        &&& self.code_hash@ == keccak_empty_bytes()
    }
}

impl Default for DbAccountInfo {
    /// The values that stand in for fields that a record leaves out.
    fn default() -> (r: DbAccountInfo)
        ensures
            r.balance == U256::from_u64_spec(0),
            r.nonce == 0,
            r.code_hash@ == keccak_empty_bytes(),
            r.is_untouched(),
    {
        DbAccountInfo { balance: U256::zero(), nonce: 0, code_hash: keccak_empty() }
    }
}

/// An account in a snapshot: its info and its storage as a list of (slot,
/// value) pairs, in the order of the source.
#[derive(Clone, Debug, PartialEq, Eq)]
pub struct DbAccount {
    pub info: DbAccountInfo,
    pub storage: Vec<(U256, U256)>,
}

impl DbAccount {
    /// Whether the record is that of an account that does not exist:
    /// untouched info and no storage pair at all.
    pub open spec fn is_untouched(&self) -> bool {
        self.info.is_untouched() && self.storage@.len() == 0
    }
}

impl Default for DbAccount {
    /// The record that stands in where a snapshot leaves out an account's
    /// info and storage.
    fn default() -> (r: DbAccount)
        ensures
            r.info.balance == U256::from_u64_spec(0),
            r.info.nonce == 0,
            r.info.code_hash@ == keccak_empty_bytes(),
            r.storage@ == Seq::<(U256, U256)>::empty(),
            r.is_untouched(),
    {
        DbAccount { info: DbAccountInfo::default(), storage: Vec::new() }
    }
}

/// The header of a block, as far as the comparison reads it.
#[derive(Clone, Copy, Debug, PartialEq, Eq)]
pub struct Header {
    /// The number of the block.
    pub number: u64,
}

/// A block, given by its header.
#[derive(Clone, Copy, Debug, PartialEq, Eq)]
pub struct SealedBlock {
    pub header: Header,
}

/// A block in one of the representations a snapshot may hold it in.
#[derive(Clone, Copy, Debug, PartialEq, Eq)]
pub enum EvmBlock {
    Reth115(SealedBlock),
}

impl EvmBlock {
    /// The number of the block.
    pub open spec fn number_spec(&self) -> u64 {
        match self {
            EvmBlock::Reth115(block) => block.header.number,
        }
    }

    /// The number of the block.
    pub fn number(&self) -> (r: u64)
        ensures
            r == self.number_spec(),
    {
        match self {
            EvmBlock::Reth115(block) => block.header.number,
        }
    }
}

/// The accounts and contract codes of a snapshot.
#[derive(Clone, Debug, PartialEq, Eq)]
pub enum EvmDb {
    InMemory { accounts: Vec<(Address, DbAccount)>, contracts: Vec<(B256, Bytecode)> },
}

/// The ledger state of a snapshot, with the hashes of recent blocks.
#[derive(Clone, Debug, PartialEq, Eq)]
pub struct EvmState {
    pub evm_db: EvmDb,
    pub block_hashes: Vec<(U256, B256)>,
}

/// The ledger of a snapshot and the block it was taken at.
#[derive(Clone, Debug, PartialEq, Eq)]
pub struct HyperEvm {
    pub state2: EvmState,
    pub latest_block2: EvmBlock,
}

/// The part of a snapshot that holds the ledger.
#[derive(Clone, Debug, PartialEq, Eq)]
pub struct Exchange {
    pub hyper_evm: HyperEvm,
}

/// The root of a decoded snapshot.
#[derive(Clone, Debug, PartialEq, Eq)]
pub struct AbciState {
    pub exchange: Exchange,
}

} // verus!
