//! Reading the full state of one contract out of a state store: its
//! account, its code, and all of its storage.
//!
//! The store is not reached from here. An [`Extraction`] says which lookup
//! it needs next, and is handed the answer. The storage of an address is
//! recovered from a sorted index of (address, slot) entries by one exact
//! seek and a forward walk that ends at the first entry of another address.

use crate::bytecode::Bytecode;
use crate::primitives::{Address, B256, U256};
use crate::storage::StorageMap;
use crate::types::Account;
use vstd::prelude::*;

verus! {

/// A lookup that the state store failed to carry out. "Not found" is no
/// fault: it is an answer.
#[derive(Clone, Debug, PartialEq, Eq)]
pub struct QueryFault {
    /// What the store said.
    pub message: String,
}

/// One entry of the sorted storage index.
#[derive(Clone, Copy, Debug, PartialEq, Eq)]
pub struct IndexEntry {
    /// The address whose storage the entry belongs to.
    pub address: Address,
    /// The slot.
    pub key: B256,
    /// The value held in the slot.
    pub value: U256,
}

/// A lookup in the state store.
#[derive(Clone, Copy, Debug, PartialEq, Eq)]
pub enum Query {
    /// The account at this address.
    BasicAccount(Address),
    /// The code of the account at this address.
    AccountCode(Address),
    /// The first entry of the storage index that belongs to this address.
    StorageSeek(Address),
    /// The entry of the storage index that follows the one last returned.
    StorageNext,
    /// The code with this hash.
    BytecodeByHash(B256),
}

/// What the state store answered.
#[derive(Debug, PartialEq, Eq)]
pub enum Answer {
    /// To `BasicAccount`.
    Account(Result<Option<Account>, QueryFault>),
    /// To `AccountCode` and to `BytecodeByHash`.
    Code(Result<Option<Bytecode>, QueryFault>),
    /// To `StorageSeek` and to `StorageNext`; `None` at the end of the index.
    Entry(Result<Option<IndexEntry>, QueryFault>),
}

/// The complete state of a contract: account, code and storage.
#[derive(Clone, Debug, PartialEq, Eq)]
pub struct ContractState {
    /// The address of the contract.
    pub address: Address,
    /// Balance, nonce and code hash.
    pub account: Account,
    /// The code; `None` where the account has none.
    pub bytecode: Option<Bytecode>,
    /// All storage slots of the contract.
    pub storage: StorageMap,
}

/// A contract's state with its storage as a mathematical map.
pub struct ContractStateView {
    pub address: Address,
    pub account: Account,
    pub bytecode: Option<Bytecode>,
    pub storage: Map<Seq<u8>, U256>,
}

impl View for ContractState {
    type V = ContractStateView;

    open spec fn view(&self) -> ContractStateView {
        ContractStateView {
            address: self.address,
            account: self.account,
            bytecode: self.bytecode,
            storage: self.storage@,
        }
    }
}

/// An extraction in progress, or its result.
#[derive(Debug, PartialEq, Eq)]
pub enum Extraction {
    /// Waiting for the account.
    Account { address: Address },
    /// Waiting for the code.
    Code { address: Address, account: Account },
    /// Waiting for the first storage entry.
    Seek { address: Address, account: Account, bytecode: Option<Bytecode> },
    /// Waiting for a further storage entry.
    Scan { address: Address, account: Account, bytecode: Option<Bytecode>, storage: StorageMap },
    /// The address has an account, and this is its state.
    Found(ContractState),
    /// The address has no account.
    Absent { address: Address },
    /// The store failed.
    Failed(QueryFault),
}

/// An extraction with storage as a mathematical map.
pub enum ExtractionView {
    Account { address: Address },
    Code { address: Address, account: Account },
    Seek { address: Address, account: Account, bytecode: Option<Bytecode> },
    Scan {
        address: Address,
        account: Account,
        bytecode: Option<Bytecode>,
        storage: Map<Seq<u8>, U256>,
    },
    Found(ContractStateView),
    Absent { address: Address },
    Failed(QueryFault),
}

impl View for Extraction {
    type V = ExtractionView;

    open spec fn view(&self) -> ExtractionView {
        match self {
            Extraction::Account { address } => ExtractionView::Account { address: *address },
            Extraction::Code { address, account } => ExtractionView::Code {
                address: *address,
                account: *account,
            },
            Extraction::Seek { address, account, bytecode } => ExtractionView::Seek {
                address: *address,
                account: *account,
                bytecode: *bytecode,
            },
            Extraction::Scan { address, account, bytecode, storage } => ExtractionView::Scan {
                address: *address,
                account: *account,
                bytecode: *bytecode,
                storage: storage@,
            },
            Extraction::Found(state) => ExtractionView::Found(state@),
            Extraction::Absent { address } => ExtractionView::Absent { address: *address },
            Extraction::Failed(fault) => ExtractionView::Failed(*fault),
        }
    }
}

impl ExtractionView {
    /// The lookup that the extraction waits for; `None` once it has ended.
    pub open spec fn query(self) -> Option<Query> {
        match self {
            ExtractionView::Account { address } => Some(Query::BasicAccount(address)),
            ExtractionView::Code { address, .. } => Some(Query::AccountCode(address)),
            ExtractionView::Seek { address, .. } => Some(Query::StorageSeek(address)),
            ExtractionView::Scan { .. } => Some(Query::StorageNext),
            _ => None,
        }
    }

    /// Whether the extraction has ended.
    pub open spec fn ended(self) -> bool {
        self.query().is_none()
    }

    /// Whether `answer` is of the kind that the extraction waits for.
    pub open spec fn expects(self, answer: Answer) -> bool {
        match self {
            ExtractionView::Account { .. } => answer is Account,
            ExtractionView::Code { .. } => answer is Code,
            ExtractionView::Seek { .. } | ExtractionView::Scan { .. } => answer is Entry,
            _ => false,
        }
    }

    /// The extraction after a storage entry, or the end of the index, came
    /// back while `storage` had been collected: an entry of the same address
    /// is taken in and the walk goes on; anything else ends the walk.
    pub open spec fn after_entry(
        address: Address,
        account: Account,
        bytecode: Option<Bytecode>,
        storage: Map<Seq<u8>, U256>,
        entry: Option<IndexEntry>,
    ) -> ExtractionView {
        match entry {
            Some(e) if e.address == address => ExtractionView::Scan {
                address,
                account,
                bytecode,
                storage: storage.insert(e.key@, e.value),
            },
            _ => ExtractionView::Found(ContractStateView { address, account, bytecode, storage }),
        }
    }

    /// The extraction after `answer` came back. An answer of another kind
    /// than the one waited for changes nothing.
    pub open spec fn after(self, answer: Answer) -> ExtractionView {
        match (self, answer) {
            (ExtractionView::Account { address }, Answer::Account(Ok(Some(account)))) => {
                ExtractionView::Code { address, account }
            },
            (ExtractionView::Account { address }, Answer::Account(Ok(None))) => {
                ExtractionView::Absent { address }
            },
            (ExtractionView::Account { .. }, Answer::Account(Err(fault))) => {
                ExtractionView::Failed(fault)
            },
            (ExtractionView::Code { address, account }, Answer::Code(Ok(bytecode))) => {
                ExtractionView::Seek { address, account, bytecode }
            },
            (ExtractionView::Code { .. }, Answer::Code(Err(fault))) => ExtractionView::Failed(
                fault,
            ),
            (ExtractionView::Seek { address, account, bytecode }, Answer::Entry(Ok(entry))) => {
                ExtractionView::after_entry(address, account, bytecode, Map::empty(), entry)
            },
            (
                ExtractionView::Scan { address, account, bytecode, storage },
                Answer::Entry(Ok(entry)),
            ) => ExtractionView::after_entry(address, account, bytecode, storage, entry),
            (ExtractionView::Seek { .. }, Answer::Entry(Err(fault))) => ExtractionView::Failed(
                fault,
            ),
            (ExtractionView::Scan { .. }, Answer::Entry(Err(fault))) => ExtractionView::Failed(
                fault,
            ),
            _ => self,
        }
    }
}

/// Begins the extraction of the state of the contract at `contract_address`.
/// The first lookup it asks for is that of the account.
pub fn extract_contract_state(contract_address: Address) -> (r: Extraction)
    ensures
        r@ == (ExtractionView::Account { address: contract_address }),
{
    Extraction::Account { address: contract_address }
}

impl Extraction {
    /// Begins an extraction for an address whose account is known already.
    /// The first lookup it asks for is that of the code.
    pub fn with_account(address: Address, account: Account) -> (r: Extraction)
        ensures
            r@ == (ExtractionView::Code { address, account }),
    {
        Extraction::Code { address, account }
    }

    /// The lookup to make next; `None` once the extraction has ended.
    pub fn query(&self) -> (r: Option<Query>)
        ensures
            r == self@.query(),
    {
        match self {
            Extraction::Account { address } => Some(Query::BasicAccount(*address)),
            Extraction::Code { address, .. } => Some(Query::AccountCode(*address)),
            Extraction::Seek { address, .. } => Some(Query::StorageSeek(*address)),
            Extraction::Scan { .. } => Some(Query::StorageNext),
            _ => None,
        }
    }

    /// Takes in an entry of the storage index, or its end.
    fn take_entry(
        address: Address,
        account: Account,
        bytecode: Option<Bytecode>,
        storage: StorageMap,
        entry: Option<IndexEntry>,
    ) -> (r: Extraction)
        ensures
            r@ == ExtractionView::after_entry(address, account, bytecode, storage@, entry),
    {
        match entry {
            Some(e) => {
                if e.address == address {
                    let mut storage = storage;
                    storage.insert(e.key, e.value);
                    Extraction::Scan { address, account, bytecode, storage }
                } else {
                    Extraction::Found(ContractState { address, account, bytecode, storage })
                }
            },
            None => Extraction::Found(ContractState { address, account, bytecode, storage }),
        }
    }

    /// Hands the extraction the answer to the lookup it asked for. The
    /// second result says whether the answer was of the kind waited for; one
    /// that was not is dropped, and the extraction comes back as it was.
    pub fn answer(self, answer: Answer) -> (r: (Extraction, bool))
        ensures
            r.1 == self@.expects(answer),
            r.0@ == self@.after(answer),
            !r.1 ==> r.0 == self,
    {
        match (self, answer) {
            (Extraction::Account { address }, Answer::Account(Ok(Some(account)))) => (
                Extraction::Code { address, account },
                true,
            ),
            (Extraction::Account { address }, Answer::Account(Ok(None))) => (
                Extraction::Absent { address },
                true,
            ),
            (Extraction::Account { .. }, Answer::Account(Err(fault))) => (
                Extraction::Failed(fault),
                true,
            ),
            (Extraction::Code { address, account }, Answer::Code(Ok(bytecode))) => (
                Extraction::Seek { address, account, bytecode },
                true,
            ),
            (Extraction::Code { .. }, Answer::Code(Err(fault))) => (
                Extraction::Failed(fault),
                true,
            ),
            (Extraction::Seek { address, account, bytecode }, Answer::Entry(Ok(entry))) => (
                Extraction::take_entry(address, account, bytecode, StorageMap::new(), entry),
                true,
            ),
            (Extraction::Scan { address, account, bytecode, storage }, Answer::Entry(Ok(entry))) => (
                Extraction::take_entry(address, account, bytecode, storage, entry),
                true,
            ),
            (Extraction::Seek { .. }, Answer::Entry(Err(fault))) => (
                Extraction::Failed(fault),
                true,
            ),
            (Extraction::Scan { .. }, Answer::Entry(Err(fault))) => (
                Extraction::Failed(fault),
                true,
            ),
            (extraction, _) => (extraction, false),
        }
    }

    /// The result of an extraction that has ended: the state of the
    /// contract, `None` for an address without an account, or the store's
    /// fault. An extraction that has not ended comes back as it is.
    pub fn finish(self) -> (r: Result<Result<Option<ContractState>, QueryFault>, Extraction>)
        ensures
            r.is_ok() == self@.ended(),
            match r {
                Ok(Ok(Some(state))) => self == Extraction::Found(state),
                Ok(Ok(None)) => (self is Absent),
                Ok(Err(fault)) => self == Extraction::Failed(fault),
                Err(extraction) => extraction == self,
            },
    {
        match self {
            Extraction::Found(state) => Ok(Ok(Some(state))),
            Extraction::Absent { .. } => Ok(Ok(None)),
            Extraction::Failed(fault) => Ok(Err(fault)),
            extraction => Err(extraction),
        }
    }
}

/// The extraction after it was handed the entries of a storage index one
/// by one, from position `from` on, and the end of the index after the last
/// of them. Once the extraction has ended, no further entry is asked for.
pub open spec fn walk(v: ExtractionView, index: Seq<IndexEntry>, from: int) -> ExtractionView
    decreases index.len() - from,
{
    if !(v is Seek || v is Scan) {
        v
    } else if from < 0 || from >= index.len() {
        v.after(Answer::Entry(Ok(None)))
    } else {
        walk(v.after(Answer::Entry(Ok(Some(index[from])))), index, from + 1)
    }
}

/// The first position from `from` on whose entry belongs to another address
/// than `address`; the length of the index where there is none.
pub open spec fn group_end(index: Seq<IndexEntry>, address: Address, from: int) -> int
    decreases index.len() - from,
{
    if from < 0 || from >= index.len() {
        index.len() as int
    } else if index[from].address != address {
        from
    } else {
        group_end(index, address, from + 1)
    }
}

/// `base` after the slots of `entries` were put into it, in their order.
pub open spec fn with_entries(base: Map<Seq<u8>, U256>, entries: Seq<IndexEntry>) -> Map<
    Seq<u8>,
    U256,
>
    decreases entries.len(),
{
    if entries.len() == 0 {
        base
    } else {
        with_entries(base, entries.drop_last()).insert(entries.last().key@, entries.last().value)
    }
}

/// Whether the entries of each address stand together in the index.
pub open spec fn grouped_by_address(index: Seq<IndexEntry>) -> bool {
    forall|i: int, j: int, k: int|
        #![trigger index[i], index[j], index[k]]
        0 <= i < j < k < index.len() && index[i].address == index[k].address ==> index[j].address
            == index[i].address
}

/// The address that an extraction is about, while it reads storage.
pub open spec fn walk_address(v: ExtractionView) -> Address {
    match v {
        ExtractionView::Seek { address, .. } => address,
        ExtractionView::Scan { address, .. } => address,
        _ => arbitrary(),
    }
}

/// The storage that an extraction has collected, while it reads storage.
pub open spec fn walk_storage(v: ExtractionView) -> Map<Seq<u8>, U256> {
    match v {
        ExtractionView::Scan { storage, .. } => storage,
        _ => Map::empty(),
    }
}

/// Where the group of `address` that begins at `from` ends.
pub proof fn lemma_group_end(index: Seq<IndexEntry>, address: Address, from: int)
    requires
        0 <= from <= index.len(),
    ensures
        from <= group_end(index, address, from) <= index.len(),
        forall|i: int|
            from <= i < group_end(index, address, from) ==> (#[trigger] index[i]).address
                == address,
        group_end(index, address, from) < index.len() ==> index[group_end(
            index,
            address,
            from,
        )].address != address,
    decreases index.len() - from,
{
    if from < index.len() && index[from].address == address {
        lemma_group_end(index, address, from + 1);
    }
}

/// Putting a slot in first and a list of entries after it is putting in the
/// list with that entry at its head.
pub proof fn lemma_with_entries_front(
    base: Map<Seq<u8>, U256>,
    first: IndexEntry,
    rest: Seq<IndexEntry>,
)
    ensures
        with_entries(base.insert(first.key@, first.value), rest) == with_entries(
            base,
            seq![first] + rest,
        ),
    decreases rest.len(),
{
    let all = seq![first] + rest;
    let begun = base.insert(first.key@, first.value);
    if rest.len() == 0 {
        assert(all.drop_last() =~= Seq::<IndexEntry>::empty());
        assert(all.last() == first);
        assert(with_entries(base, all.drop_last()) == base);
        assert(with_entries(base, all) == begun);
        assert(with_entries(begun, rest) == begun);
    } else {
        assert(all.drop_last() =~= seq![first] + rest.drop_last());
        assert(all.last() == rest.last());
        lemma_with_entries_front(base, first, rest.drop_last());
        assert(with_entries(base, all) == with_entries(base, all.drop_last()).insert(
            rest.last().key@,
            rest.last().value,
        ));
        assert(with_entries(begun, rest) == with_entries(begun, rest.drop_last()).insert(
            rest.last().key@,
            rest.last().value,
        ));
    }
}

/// The keys of `with_entries`: those of `base` and those of the entries.
pub proof fn lemma_with_entries_keys(base: Map<Seq<u8>, U256>, entries: Seq<IndexEntry>)
    ensures
        forall|k: Seq<u8>| #[trigger]
            with_entries(base, entries).dom().contains(k) <==> base.dom().contains(k) || exists|
                i: int,
            |
                0 <= i < entries.len() && (#[trigger] entries[i]).key@ == k,
    decreases entries.len(),
{
    if entries.len() > 0 {
        let front = entries.drop_last();
        let last = entries.last();
        lemma_with_entries_keys(base, front);
        assert forall|k: Seq<u8>| #[trigger]
            with_entries(base, entries).dom().contains(k) <==> base.dom().contains(k) || exists|
                i: int,
            |
                0 <= i < entries.len() && (#[trigger] entries[i]).key@ == k by {
            if with_entries(base, front).dom().contains(k) && !base.dom().contains(k) {
                let i = choose|i: int| 0 <= i < front.len() && (#[trigger] front[i]).key@ == k;
                assert(entries[i].key@ == k);
            }
            if k == last.key@ {
                assert(entries[entries.len() - 1].key@ == k);
            }
            if exists|i: int| 0 <= i < entries.len() && (#[trigger] entries[i]).key@ == k {
                let i = choose|i: int| 0 <= i < entries.len() && (#[trigger] entries[i]).key@ == k;
                if i < front.len() {
                    assert(front[i].key@ == k);
                }
            }
        }
    }
}

/// Under the key of an entry that no later entry shares its key with,
/// `with_entries` holds the value of that entry.
pub proof fn lemma_with_entries_value(base: Map<Seq<u8>, U256>, entries: Seq<IndexEntry>, i: int)
    requires
        0 <= i < entries.len(),
        forall|j: int| i < j < entries.len() ==> (#[trigger] entries[j]).key@ != entries[i].key@,
    ensures
        with_entries(base, entries)[entries[i].key@] == entries[i].value,
    decreases entries.len(),
{
    let front = entries.drop_last();
    let last = entries.last();
    if i < front.len() {
        assert(entries[entries.len() - 1].key@ != entries[i].key@);
        assert(front[i] == entries[i]);
        assert forall|j: int| i < j < front.len() implies (#[trigger] front[j]).key@
            != front[i].key@ by {
            assert(front[j] == entries[j]);
        }
        lemma_with_entries_value(base, front, i);
    }
}

/// A walk over a storage index from position `from` on takes in the entries
/// up to the first one of another address, and nothing after it: the state
/// it ends with holds what the extraction had collected before, and the
/// slots of those entries.
pub proof fn lemma_walk_takes_group(v: ExtractionView, index: Seq<IndexEntry>, from: int)
    requires
        v is Seek || v is Scan,
        0 <= from <= index.len(),
    ensures
        walk(v, index, from) matches ExtractionView::Found(state) && state.address == walk_address(
            v,
        ) && state.storage == with_entries(
            walk_storage(v),
            index.subrange(from, group_end(index, walk_address(v), from)),
        ),
        v matches ExtractionView::Seek { account, bytecode, .. } ==> walk(
            v,
            index,
            from,
        )->Found_0.account == account && walk(v, index, from)->Found_0.bytecode == bytecode,
        v matches ExtractionView::Scan { account, bytecode, .. } ==> walk(
            v,
            index,
            from,
        )->Found_0.account == account && walk(v, index, from)->Found_0.bytecode == bytecode,
    decreases index.len() - from,
{
    let address = walk_address(v);
    let end = group_end(index, address, from);
    lemma_group_end(index, address, from);
    if from >= index.len() || index[from].address != address {
        assert(index.subrange(from, end) =~= Seq::<IndexEntry>::empty());
        if from < index.len() {
            let next = v.after(Answer::Entry(Ok(Some(index[from]))));
            assert(walk(next, index, from + 1) == next);
        }
    } else {
        let entry = index[from];
        let next = v.after(Answer::Entry(Ok(Some(entry))));
        lemma_walk_takes_group(next, index, from + 1);
        lemma_group_end(index, address, from + 1);
        lemma_with_entries_front(walk_storage(v), entry, index.subrange(from + 1, end));
        assert(seq![entry] + index.subrange(from + 1, end) =~= index.subrange(from, end));
    }
}

/// In an index in which the entries of each address stand together, the
/// group that begins at the first entry of an address holds all entries of
/// that address.
pub proof fn lemma_group_is_whole(index: Seq<IndexEntry>, address: Address, from: int)
    requires
        grouped_by_address(index),
        0 <= from < index.len(),
        index[from].address == address,
        forall|i: int| 0 <= i < from ==> (#[trigger] index[i]).address != address,
    ensures
        from < group_end(index, address, from) <= index.len(),
        forall|i: int|
            0 <= i < index.len() ==> ((#[trigger] index[i]).address == address <==> from <= i
                < group_end(index, address, from)),
{
    let end = group_end(index, address, from);
    lemma_group_end(index, address, from);
    assert forall|i: int| 0 <= i < index.len() && (#[trigger] index[i]).address
        == address implies from <= i < end by {
        if i > end {
            let _ = (index[from], index[end], index[i]);
            assert(index[end].address == index[from].address);
        }
    }
}

/// A walk that begins at the first entry of an address, over an index in
/// which the entries of each address stand together, collects the storage
/// of that address and of no other: its keys are the slots of the entries of
/// that address.
pub proof fn lemma_walk_collects_address(v: ExtractionView, index: Seq<IndexEntry>, from: int)
    requires
        v is Seek,
        grouped_by_address(index),
        0 <= from < index.len(),
        index[from].address == walk_address(v),
        forall|i: int| 0 <= i < from ==> (#[trigger] index[i]).address != walk_address(v),
    ensures
        walk(v, index, from) matches ExtractionView::Found(state) && state.address == walk_address(
            v,
        ) && (forall|k: Seq<u8>| #[trigger]
            state.storage.dom().contains(k) <==> exists|i: int|
                0 <= i < index.len() && (#[trigger] index[i]).address == walk_address(v)
                    && index[i].key@ == k),
{
    let address = walk_address(v);
    let end = group_end(index, address, from);
    lemma_walk_takes_group(v, index, from);
    lemma_group_is_whole(index, address, from);
    let group = index.subrange(from, end);
    let storage = with_entries(Map::empty(), group);
    assert forall|k: Seq<u8>| #[trigger]
        storage.dom().contains(k) <==> exists|i: int|
            0 <= i < index.len() && (#[trigger] index[i]).address == address && index[i].key@
                == k by {
        lemma_group_key(index, address, from, end, k);
    }
}

/// After such a walk, a slot for which the address has exactly one entry
/// holds the value of that entry.
pub proof fn lemma_walk_collects_value(
    v: ExtractionView,
    index: Seq<IndexEntry>,
    from: int,
    i: int,
)
    requires
        v is Seek,
        grouped_by_address(index),
        0 <= from < index.len(),
        index[from].address == walk_address(v),
        forall|i: int| 0 <= i < from ==> (#[trigger] index[i]).address != walk_address(v),
        0 <= i < index.len(),
        index[i].address == walk_address(v),
        forall|j: int|
            0 <= j < index.len() && j != i && (#[trigger] index[j]).address == walk_address(v)
                ==> index[j].key@ != index[i].key@,
    ensures
        walk(v, index, from) matches ExtractionView::Found(state) && state.storage[index[i].key@]
            == index[i].value,
{
    let address = walk_address(v);
    let end = group_end(index, address, from);
    lemma_walk_takes_group(v, index, from);
    lemma_group_is_whole(index, address, from);
    lemma_group_value(index, address, from, end, i);
}

/// Whether a key is among the slots of a stretch of the index that holds all
/// entries of an address and no other entry.
pub proof fn lemma_group_key(
    index: Seq<IndexEntry>,
    address: Address,
    from: int,
    end: int,
    k: Seq<u8>,
)
    requires
        0 <= from <= end <= index.len(),
        forall|i: int|
            0 <= i < index.len() ==> ((#[trigger] index[i]).address == address <==> from <= i
                < end),
    ensures
        with_entries(Map::empty(), index.subrange(from, end)).dom().contains(k) <==> exists|
            i: int,
        |
            0 <= i < index.len() && (#[trigger] index[i]).address == address && index[i].key@ == k,
{
    let group = index.subrange(from, end);
    let storage = with_entries(Map::empty(), group);
    lemma_with_entries_keys(Map::empty(), group);
    assert(storage.dom().contains(k) <==> exists|i: int|
        0 <= i < group.len() && (#[trigger] group[i]).key@ == k);
    if storage.dom().contains(k) {
        let g = choose|g: int| 0 <= g < group.len() && (#[trigger] group[g]).key@ == k;
        let i = from + g;
        assert(group[g] == index[i]);
        assert(0 <= i < index.len() && index[i].address == address && index[i].key@ == k);
    }
    if exists|i: int|
        0 <= i < index.len() && (#[trigger] index[i]).address == address && index[i].key@ == k {
        let i = choose|i: int|
            0 <= i < index.len() && (#[trigger] index[i]).address == address && index[i].key@
                == k;
        let g = i - from;
        assert(group[g] == index[i]);
        assert(0 <= g < group.len() && group[g].key@ == k);
    }
}

/// The value under the slot of an entry, in the slots of a stretch of the
/// index that holds all entries of an address and no other entry.
pub proof fn lemma_group_value(
    index: Seq<IndexEntry>,
    address: Address,
    from: int,
    end: int,
    i: int,
)
    requires
        0 <= from <= end <= index.len(),
        forall|i: int|
            0 <= i < index.len() ==> ((#[trigger] index[i]).address == address <==> from <= i
                < end),
        0 <= i < index.len(),
        index[i].address == address,
        forall|j: int|
            0 <= j < index.len() && j != i && (#[trigger] index[j]).address == address
                ==> index[j].key@ != index[i].key@,
    ensures
        with_entries(Map::empty(), index.subrange(from, end))[index[i].key@] == index[i].value,
{
    let group = index.subrange(from, end);
    let g = i - from;
    assert(group[g] == index[i]);
    assert forall|j: int| g < j < group.len() implies (#[trigger] group[j]).key@
        != group[g].key@ by {
        assert(group[j] == index[from + j]);
        assert(index[from + j].address == address);
    }
    lemma_with_entries_value(Map::empty(), group, g);
}

} // verus!
