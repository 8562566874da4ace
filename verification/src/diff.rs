//! What counts as a divergence between a snapshot and the state store, and
//! the comparison of one account, one storage map or one contract code.

use crate::bytecode::{same_bytes, Bytecode};
use crate::extract::QueryFault;
use crate::primitives::{
    keccak_empty, keccak_empty_bytes, lemma_same_bytes, Address, B256, U256,
};
use crate::storage::{nonzero_slots, snapshot_slots, StorageMap};
use crate::types::{Account, DbAccount, DbAccountInfo};
use vstd::prelude::*;

verus! {

/// How a run goes on after a divergence.
#[derive(Clone, Copy, Debug, PartialEq, Eq, Structural)]
pub enum Mode {
    /// The run ends with the first divergence.
    FailFast,
    /// The run goes through the whole snapshot and records every divergence.
    Exhaustive,
}

/// How a run ended.
#[derive(Clone, Copy, Debug, PartialEq, Eq, Structural)]
pub enum Outcome {
    /// No divergence was recorded.
    Clean,
    /// At least one divergence was recorded.
    Divergent,
}

/// A mismatch between the snapshot and the state store. `expected` is what
/// the snapshot holds, `actual` what the store holds, and `block_number` the
/// block at which the store was asked.
#[derive(Clone, Debug, PartialEq, Eq)]
pub enum Divergence {
    /// The balances differ.
    Balance { address: Address, expected: U256, actual: U256, block_number: u64 },
    /// The nonces differ.
    Nonce { address: Address, expected: u64, actual: u64, block_number: u64 },
    /// The code hashes differ.
    CodeHash { address: Address, expected: B256, actual: B256, block_number: u64 },
    /// The storage maps differ in a slot that does not hold zero.
    Storage { address: Address, expected: StorageMap, actual: StorageMap, block_number: u64 },
    /// The store has no account at the address, and the snapshot's record is
    /// not that of an untouched account.
    AbsentAccount { address: Address, info: DbAccountInfo, storage_len: usize, block_number: u64 },
    /// The canonical bytes of the code differ.
    Bytecode { code_hash: B256, expected: Vec<u8>, actual: Vec<u8>, block_number: u64 },
    /// The store holds code under the hash of the empty byte string.
    EmptyCode { actual: Vec<u8>, block_number: u64 },
    /// The store holds no code under the hash.
    MissingBytecode { code_hash: B256, block_number: u64 },
}

/// A divergence with byte strings as sequences and storage as maps.
pub enum DivergenceView {
    Balance { address: Address, expected: U256, actual: U256, block_number: u64 },
    Nonce { address: Address, expected: u64, actual: u64, block_number: u64 },
    CodeHash { address: Address, expected: Seq<u8>, actual: Seq<u8>, block_number: u64 },
    Storage {
        address: Address,
        expected: Map<Seq<u8>, U256>,
        actual: Map<Seq<u8>, U256>,
        block_number: u64,
    },
    AbsentAccount { address: Address, info: DbAccountInfo, storage_len: nat, block_number: u64 },
    Bytecode { code_hash: B256, expected: Seq<u8>, actual: Seq<u8>, block_number: u64 },
    EmptyCode { actual: Seq<u8>, block_number: u64 },
    MissingBytecode { code_hash: B256, block_number: u64 },
}

impl DivergenceView {
    /// The address that the divergence is about; `None` for one about a
    /// contract code.
    pub open spec fn address(self) -> Option<Address> {
        match self {
            DivergenceView::Balance { address, .. } => Some(address),
            DivergenceView::Nonce { address, .. } => Some(address),
            DivergenceView::CodeHash { address, .. } => Some(address),
            DivergenceView::Storage { address, .. } => Some(address),
            DivergenceView::AbsentAccount { address, .. } => Some(address),
            _ => None,
        }
    }
}

impl View for Divergence {
    type V = DivergenceView;

    open spec fn view(&self) -> DivergenceView {
        match self {
            Divergence::Balance { address, expected, actual, block_number } => {
                DivergenceView::Balance {
                    address: *address,
                    expected: *expected,
                    actual: *actual,
                    block_number: *block_number,
                }
            },
            Divergence::Nonce { address, expected, actual, block_number } => {
                DivergenceView::Nonce {
                    address: *address,
                    expected: *expected,
                    actual: *actual,
                    block_number: *block_number,
                }
            },
            Divergence::CodeHash { address, expected, actual, block_number } => {
                DivergenceView::CodeHash {
                    address: *address,
                    expected: expected@,
                    actual: actual@,
                    block_number: *block_number,
                }
            },
            Divergence::Storage { address, expected, actual, block_number } => {
                DivergenceView::Storage {
                    address: *address,
                    expected: expected@,
                    actual: actual@,
                    block_number: *block_number,
                }
            },
            Divergence::AbsentAccount { address, info, storage_len, block_number } => {
                DivergenceView::AbsentAccount {
                    address: *address,
                    info: *info,
                    storage_len: *storage_len as nat,
                    block_number: *block_number,
                }
            },
            Divergence::Bytecode { code_hash, expected, actual, block_number } => {
                DivergenceView::Bytecode {
                    code_hash: *code_hash,
                    expected: expected@,
                    actual: actual@,
                    block_number: *block_number,
                }
            },
            Divergence::EmptyCode { actual, block_number } => DivergenceView::EmptyCode {
                actual: actual@,
                block_number: *block_number,
            },
            Divergence::MissingBytecode { code_hash, block_number } => {
                DivergenceView::MissingBytecode {
                    code_hash: *code_hash,
                    block_number: *block_number,
                }
            },
        }
    }
}

/// Something worth telling that is no divergence.
#[derive(Clone, Debug, PartialEq, Eq)]
pub enum Note {
    /// The store failed to look up the account at the address; the account
    /// was left unchecked.
    AccountFault { address: Address, fault: QueryFault },
    /// The snapshot holds code under the all-zero hash, and the store holds
    /// none under it.
    ZeroHashAbsent { code: Vec<u8> },
}

/// A note with byte strings as sequences.
pub enum NoteView {
    AccountFault { address: Address, fault: QueryFault },
    ZeroHashAbsent { code: Seq<u8> },
}

impl View for Note {
    type V = NoteView;

    open spec fn view(&self) -> NoteView {
        match self {
            Note::AccountFault { address, fault } => NoteView::AccountFault {
                address: *address,
                fault: *fault,
            },
            Note::ZeroHashAbsent { code } => NoteView::ZeroHashAbsent { code: code@ },
        }
    }
}

/// The views of a list of divergences.
pub open spec fn divergence_views(list: Seq<Divergence>) -> Seq<DivergenceView> {
    list.map_values(|d: Divergence| d@)
}

/// The views of a list of notes.
pub open spec fn note_views(list: Seq<Note>) -> Seq<NoteView> {
    list.map_values(|n: Note| n@)
}

/// The all-zero 32-byte word.
pub open spec fn zero_word_bytes() -> Seq<u8> {
    Seq::new(32, |i: int| 0u8)
}

/// The divergence, if any, between the balance in a snapshot and the one in
/// the store.
pub open spec fn balance_divergence(
    address: Address,
    info: DbAccountInfo,
    stored: Account,
    block_number: u64,
) -> Seq<DivergenceView> {
    if info.balance != stored.balance {
        seq![
            DivergenceView::Balance {
                address,
                expected: info.balance,
                actual: stored.balance,
                block_number,
            },
        ]
    } else {
        Seq::empty()
    }
}

/// The divergence, if any, between the nonce in a snapshot and the one in
/// the store.
pub open spec fn nonce_divergence(
    address: Address,
    info: DbAccountInfo,
    stored: Account,
    block_number: u64,
) -> Seq<DivergenceView> {
    if info.nonce != stored.nonce {
        seq![
            DivergenceView::Nonce {
                address,
                expected: info.nonce,
                actual: stored.nonce,
                block_number,
            },
        ]
    } else {
        Seq::empty()
    }
}

/// The divergence, if any, between the code hash in a snapshot and the one
/// in the store, where an account without code has the hash of the empty
/// byte string.
pub open spec fn code_hash_divergence(
    address: Address,
    info: DbAccountInfo,
    stored: Account,
    block_number: u64,
) -> Seq<DivergenceView> {
    if info.code_hash@ != stored.code_hash_bytes() {
        seq![
            DivergenceView::CodeHash {
                address,
                expected: info.code_hash@,
                actual: stored.code_hash_bytes(),
                block_number,
            },
        ]
    } else {
        Seq::empty()
    }
}

/// At most the first element of a list.
pub open spec fn first_of(list: Seq<DivergenceView>) -> Seq<DivergenceView> {
    if list.len() > 1 {
        list.take(1)
    } else {
        list
    }
}

/// The divergences between the info of an account in a snapshot and the
/// account that the store holds at the same address: one for each of
/// balance, nonce and code hash that differs, in this order; in fail-fast
/// mode only the first of them.
pub open spec fn account_divergences(
    mode: Mode,
    address: Address,
    info: DbAccountInfo,
    stored: Account,
    block_number: u64,
) -> Seq<DivergenceView> {
    let all = balance_divergence(address, info, stored, block_number) + nonce_divergence(
        address,
        info,
        stored,
        block_number,
    ) + code_hash_divergence(address, info, stored, block_number);
    match mode {
        Mode::Exhaustive => all,
        Mode::FailFast => first_of(all),
    }
}

/// The divergences for an address at which the store holds no account: none
/// where the snapshot's record is that of an untouched account, else one.
pub open spec fn absent_divergences(
    address: Address,
    record: DbAccount,
    block_number: u64,
) -> Seq<DivergenceView> {
    if record.is_untouched() {
        Seq::empty()
    } else {
        seq![
            DivergenceView::AbsentAccount {
                address,
                info: record.info,
                storage_len: record.storage@.len(),
                block_number,
            },
        ]
    }
}

/// The divergences between the storage of an account in a snapshot, given
/// as its list of pairs, and the storage that the store holds for it: none
/// where the two agree on every slot that does not hold zero, else one that
/// carries both maps.
pub open spec fn storage_divergences(
    address: Address,
    pairs: Seq<(U256, U256)>,
    stored: Map<Seq<u8>, U256>,
    block_number: u64,
) -> Seq<DivergenceView> {
    if nonzero_slots(snapshot_slots(pairs)) == nonzero_slots(stored) {
        Seq::empty()
    } else {
        seq![
            DivergenceView::Storage {
                address,
                expected: snapshot_slots(pairs),
                actual: stored,
                block_number,
            },
        ]
    }
}

/// What the comparison of one contract code gave.
#[derive(Clone, Debug, PartialEq, Eq)]
pub struct CodeVerdict {
    pub divergences: Vec<Divergence>,
    pub notes: Vec<Note>,
}

/// A verdict with its lists as sequences of views.
pub struct CodeVerdictView {
    pub divergences: Seq<DivergenceView>,
    pub notes: Seq<NoteView>,
}

impl View for CodeVerdict {
    type V = CodeVerdictView;

    open spec fn view(&self) -> CodeVerdictView {
        CodeVerdictView {
            divergences: divergence_views(self.divergences@),
            notes: note_views(self.notes@),
        }
    }
}

/// The verdict on one contract code of a snapshot, with canonical bytes
/// `expected` under `code_hash`, against the canonical bytes that the store
/// holds under that hash, if it holds any.
///
/// Under the hash of the empty byte string the store may hold nothing or
/// empty code; anything else is a divergence. Under any other hash the
/// store must hold the same canonical bytes. Where it holds none, that is a
/// divergence, except under the all-zero hash, which stands for no real
/// contract: there it is a note.
pub open spec fn code_verdict(
    code_hash: B256,
    expected: Seq<u8>,
    stored: Option<Seq<u8>>,
    block_number: u64,
) -> CodeVerdictView {
    let clean = CodeVerdictView { divergences: Seq::empty(), notes: Seq::empty() };
    if code_hash@ == keccak_empty_bytes() {
        match stored {
            Some(actual) if actual.len() != 0 => CodeVerdictView {
                divergences: seq![DivergenceView::EmptyCode { actual, block_number }],
                notes: Seq::empty(),
            },
            _ => clean,
        }
    } else {
        match stored {
            Some(actual) => {
                if actual == expected {
                    clean
                } else {
                    CodeVerdictView {
                        divergences: seq![
                            DivergenceView::Bytecode { code_hash, expected, actual, block_number },
                        ],
                        notes: Seq::empty(),
                    }
                }
            },
            None => {
                if code_hash@ == zero_word_bytes() {
                    CodeVerdictView {
                        divergences: Seq::empty(),
                        notes: seq![NoteView::ZeroHashAbsent { code: expected }],
                    }
                } else {
                    CodeVerdictView {
                        divergences: seq![
                            DivergenceView::MissingBytecode { code_hash, block_number },
                        ],
                        notes: Seq::empty(),
                    }
                }
            },
        }
    }
}

/// The canonical bytes of the code that a store answered with, if it
/// answered with any.
pub open spec fn stored_canonical(stored: Option<Bytecode>) -> Option<Seq<u8>> {
    match stored {
        Some(code) => Some(code.canonical()),
        None => None,
    }
}

/// Compares the info of an account in a snapshot with the account that the
/// store holds at the same address.
pub fn check_account(
    mode: Mode,
    address: Address,
    info: &DbAccountInfo,
    stored: &Account,
    block_number: u64,
) -> (r: Vec<Divergence>)
    ensures
        divergence_views(r@) == account_divergences(mode, address, *info, *stored, block_number),
{
    let ghost balance = balance_divergence(address, *info, *stored, block_number);
    let ghost nonce = nonce_divergence(address, *info, *stored, block_number);
    let ghost code = code_hash_divergence(address, *info, *stored, block_number);
    let mut out: Vec<Divergence> = Vec::new();
    assert(divergence_views(out@) =~= Seq::empty());
    if !(info.balance == stored.balance) {
        out.push(
            Divergence::Balance {
                address,
                expected: info.balance,
                actual: stored.balance,
                block_number,
            },
        );
        assert(divergence_views(out@) =~= balance);
        if mode == Mode::FailFast {
            assert(first_of(balance + nonce + code) =~= balance);
            return out;
        }
    }
    assert(divergence_views(out@) =~= balance);
    if info.nonce != stored.nonce {
        out.push(
            Divergence::Nonce {
                address,
                expected: info.nonce,
                actual: stored.nonce,
                block_number,
            },
        );
        assert(divergence_views(out@) =~= balance + nonce);
        if mode == Mode::FailFast {
            assert(first_of(balance + nonce + code) =~= balance + nonce);
            return out;
        }
    }
    assert(divergence_views(out@) =~= balance + nonce);
    let actual = stored.get_bytecode_hash();
    if !(info.code_hash == actual) {
        out.push(
            Divergence::CodeHash { address, expected: info.code_hash, actual, block_number },
        );
    } else {
        assert(info.code_hash@ == stored.code_hash_bytes());
    }
    proof {
        if info.code_hash@ == stored.code_hash_bytes() {
            lemma_same_bytes(info.code_hash, actual);
        }
        assert(divergence_views(out@) =~= balance + nonce + code);
        assert(first_of(balance + nonce + code) =~= balance + nonce + code
            || mode == Mode::Exhaustive);
    }
    out
}

/// Whether a snapshot's record is that of an untouched account: balance
/// zero, nonce zero, the code hash of the empty byte string, no storage
/// pair.
pub fn is_untouched(record: &DbAccount) -> (r: bool)
    ensures
        r == record.is_untouched(),
{
    let empty = keccak_empty();
    proof {
        if record.info.code_hash@ == keccak_empty_bytes() {
            lemma_same_bytes(record.info.code_hash, empty);
        }
    }
    record.info.balance.is_zero() && record.info.nonce == 0 && record.info.code_hash == empty
        && record.storage.len() == 0
}

/// Judges the snapshot's record of an address at which the store holds no
/// account.
pub fn check_absent_account(address: Address, record: &DbAccount, block_number: u64) -> (r: Vec<
    Divergence,
>)
    ensures
        divergence_views(r@) == absent_divergences(address, *record, block_number),
{
    let mut out: Vec<Divergence> = Vec::new();
    if !is_untouched(record) {
        out.push(
            Divergence::AbsentAccount {
                address,
                info: record.info,
                storage_len: record.storage.len(),
                block_number,
            },
        );
    }
    assert(divergence_views(out@) =~= absent_divergences(address, *record, block_number));
    out
}

/// Compares the storage of an account in a snapshot, given as its list of
/// pairs, with the storage that the store holds for it.
pub fn check_storage(
    address: Address,
    pairs: &Vec<(U256, U256)>,
    stored: StorageMap,
    block_number: u64,
) -> (r: Vec<Divergence>)
    ensures
        divergence_views(r@) == storage_divergences(address, pairs@, stored@, block_number),
{
    let expected = StorageMap::from_snapshot(pairs);
    let mut out: Vec<Divergence> = Vec::new();
    if !expected.same_nonzero_slots(&stored) {
        out.push(Divergence::Storage { address, expected, actual: stored, block_number });
    }
    assert(divergence_views(out@) =~= storage_divergences(
        address,
        pairs@,
        stored@,
        block_number,
    ));
    out
}

/// Compares one contract code of a snapshot with the code that the store
/// holds under the same hash, if it holds any.
pub fn check_bytecode(
    code_hash: B256,
    code: &Bytecode,
    stored: &Option<Bytecode>,
    block_number: u64,
) -> (r: CodeVerdict)
    ensures
        r@ == code_verdict(code_hash, code.canonical(), stored_canonical(*stored), block_number),
{
    let mut divergences: Vec<Divergence> = Vec::new();
    let mut notes: Vec<Note> = Vec::new();
    let empty_hash = keccak_empty();
    let zero_hash = B256::zero();
    proof {
        if code_hash@ == keccak_empty_bytes() {
            lemma_same_bytes(code_hash, empty_hash);
        }
        if code_hash@ == zero_word_bytes() {
            lemma_same_bytes(code_hash, zero_hash);
        }
    }
    if code_hash == empty_hash {
        match stored {
            Some(found) => {
                if !found.is_empty() {
                    divergences.push(
                        Divergence::EmptyCode { actual: found.original_bytes(), block_number },
                    );
                }
            },
            None => {},
        }
    } else {
        match stored {
            Some(found) => {
                let expected = code.original_bytes();
                let actual = found.original_bytes();
                if !same_bytes(&expected, &actual) {
                    divergences.push(
                        Divergence::Bytecode { code_hash, expected, actual, block_number },
                    );
                }
            },
            None => {
                if code_hash == zero_hash {
                    notes.push(Note::ZeroHashAbsent { code: code.original_bytes() });
                } else {
                    divergences.push(Divergence::MissingBytecode { code_hash, block_number });
                }
            },
        }
    }
    let verdict = CodeVerdict { divergences, notes };
    proof {
        let want = code_verdict(
            code_hash,
            code.canonical(),
            stored_canonical(*stored),
            block_number,
        );
        assert(verdict@.divergences =~= want.divergences);
        assert(verdict@.notes =~= want.notes);
    }
    verdict
}

/// A pair with value zero, wherever it stands in a snapshot's storage list,
/// changes nothing of the storage that the list stands for.
pub proof fn lemma_zero_pair_ignored(pairs: Seq<(U256, U256)>, at: int, slot: U256, value: U256)
    requires
        0 <= at <= pairs.len(),
        value.value() == 0,
    ensures
        snapshot_slots(pairs.insert(at, (slot, value))) == snapshot_slots(pairs),
    decreases pairs.len() - at,
{
    let longer = pairs.insert(at, (slot, value));
    if at == pairs.len() {
        assert(longer.drop_last() =~= pairs);
    } else {
        assert(longer.drop_last() =~= pairs.drop_last().insert(at, (slot, value)));
        assert(longer.last() == pairs.last());
        lemma_zero_pair_ignored(pairs.drop_last(), at, slot, value);
    }
}

/// A snapshot's storage never holds a slot with value zero.
pub proof fn lemma_snapshot_slots_nonzero(pairs: Seq<(U256, U256)>)
    ensures
        nonzero_slots(snapshot_slots(pairs)) == snapshot_slots(pairs),
    decreases pairs.len(),
{
    if pairs.len() > 0 {
        lemma_snapshot_slots_nonzero(pairs.drop_last());
        let rest = snapshot_slots(pairs.drop_last());
        assert forall|k: Seq<u8>| #[trigger]
            nonzero_slots(rest).dom().contains(k) == rest.dom().contains(k) by {}
    }
    assert(nonzero_slots(snapshot_slots(pairs)) =~= snapshot_slots(pairs));
}

/// Zero-valued pairs in the snapshot do not bear on the comparison of
/// storage: with or without such a pair the same divergences are found.
pub proof fn lemma_storage_ignores_zero_pair(
    address: Address,
    pairs: Seq<(U256, U256)>,
    at: int,
    slot: U256,
    value: U256,
    stored: Map<Seq<u8>, U256>,
    block_number: u64,
)
    requires
        0 <= at <= pairs.len(),
        value.value() == 0,
    ensures
        storage_divergences(address, pairs.insert(at, (slot, value)), stored, block_number)
            == storage_divergences(address, pairs, stored, block_number),
{
    lemma_zero_pair_ignored(pairs, at, slot, value);
}

/// A slot that the store holds with value zero does not bear on whether the
/// storage diverges: the verdict is the same as without that slot.
pub proof fn lemma_storage_ignores_zero_slot(
    address: Address,
    pairs: Seq<(U256, U256)>,
    stored: Map<Seq<u8>, U256>,
    key: Seq<u8>,
    value: U256,
    block_number: u64,
)
    requires
        value.value() == 0,
        !stored.dom().contains(key),
    ensures
        storage_divergences(address, pairs, stored.insert(key, value), block_number).len() == 0
            <==> storage_divergences(address, pairs, stored, block_number).len() == 0,
{
    assert(nonzero_slots(stored.insert(key, value)) =~= nonzero_slots(stored));
}

/// Storage diverges if and only if snapshot and store differ in a slot that
/// does not hold zero: one holds it and the other does not, or both hold it
/// with different values.
pub proof fn lemma_storage_verdict(
    address: Address,
    pairs: Seq<(U256, U256)>,
    stored: Map<Seq<u8>, U256>,
    block_number: u64,
)
    ensures
        storage_divergences(address, pairs, stored, block_number).len() <= 1,
        storage_divergences(address, pairs, stored, block_number).len() == 0 <==> (forall|
            k: Seq<u8>,
        |
            (#[trigger] snapshot_slots(pairs).dom().contains(k)) == (stored.dom().contains(k)
                && stored[k].value() != 0) && (snapshot_slots(pairs).dom().contains(k)
                ==> snapshot_slots(pairs)[k] == stored[k])),
{
    lemma_snapshot_slots_nonzero(pairs);
    let a = snapshot_slots(pairs);
    let b = nonzero_slots(stored);
    if a == b {
        assert forall|k: Seq<u8>|
            (#[trigger] a.dom().contains(k)) == (stored.dom().contains(k) && stored[k].value()
                != 0) && (a.dom().contains(k) ==> a[k] == stored[k]) by {
            assert(a.dom().contains(k) == b.dom().contains(k));
        }
    }
    if forall|k: Seq<u8>|
        (#[trigger] a.dom().contains(k)) == (stored.dom().contains(k) && stored[k].value() != 0)
            && (a.dom().contains(k) ==> a[k] == stored[k]) {
        assert forall|k: Seq<u8>| #[trigger] a.dom().contains(k) == b.dom().contains(k) by {}
        assert(a.dom() =~= b.dom());
        assert(a =~= b);
    }
}

/// At an address without an account in the store, the record of an
/// untouched account is no divergence, and any other record is exactly one,
/// which names that address.
pub proof fn lemma_absent_account(address: Address, record: DbAccount, block_number: u64)
    ensures
        record.is_untouched() ==> absent_divergences(address, record, block_number).len() == 0,
        !record.is_untouched() ==> absent_divergences(address, record, block_number).len() == 1
            && absent_divergences(address, record, block_number)[0].address() == Some(address)
            && (absent_divergences(address, record, block_number)[0] is AbsentAccount),
{
}

/// Under the hash of the empty byte string, a store that holds nothing or
/// empty code is no divergence, and a store that holds any other code is
/// one.
pub proof fn lemma_empty_code_hash(
    code_hash: B256,
    expected: Seq<u8>,
    stored: Option<Seq<u8>>,
    block_number: u64,
)
    requires
        code_hash@ == keccak_empty_bytes(),
    ensures
        code_verdict(code_hash, expected, stored, block_number).notes.len() == 0,
        code_verdict(code_hash, expected, stored, block_number).divergences.len() == (if stored
            matches Some(actual) && actual.len() != 0 {
            1nat
        } else {
            0nat
        }),
{
}

/// Under any hash but that of the empty byte string, code that the store
/// holds is no divergence if and only if its canonical bytes are those of
/// the snapshot; code that the store lacks is a divergence, except under the
/// all-zero hash, where it is a note.
pub proof fn lemma_code_verdict(
    code_hash: B256,
    expected: Seq<u8>,
    stored: Option<Seq<u8>>,
    block_number: u64,
)
    requires
        code_hash@ != keccak_empty_bytes(),
    ensures
        code_verdict(code_hash, expected, stored, block_number).divergences.len() == 0 <==> (
        stored == Some(expected) || (stored is None && code_hash@ == zero_word_bytes())),
        code_verdict(code_hash, expected, stored, block_number).notes.len() == (if stored is None
            && code_hash@ == zero_word_bytes() {
            1nat
        } else {
            0nat
        }),
        code_verdict(code_hash, expected, stored, block_number).divergences.len() <= 1,
{
}

/// In fail-fast mode the comparison of an account's info gives at most one
/// divergence; in either mode it gives none if and only if balance, nonce
/// and code hash all agree.
pub proof fn lemma_account_verdict(
    mode: Mode,
    address: Address,
    info: DbAccountInfo,
    stored: Account,
    block_number: u64,
)
    ensures
        account_divergences(mode, address, info, stored, block_number).len() <= 3,
        mode == Mode::FailFast ==> account_divergences(
            mode,
            address,
            info,
            stored,
            block_number,
        ).len() <= 1,
        account_divergences(mode, address, info, stored, block_number).len() == 0 <==> (
        info.balance == stored.balance && info.nonce == stored.nonce && info.code_hash@
            == stored.code_hash_bytes()),
{
}

} // verus!
