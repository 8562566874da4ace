//! What a whole run comes to when the state store answers every lookup
//! without fault: the divergences that it records are those between the
//! snapshot and the store, account by account and code by code.

use crate::bytecode::Bytecode;
use crate::diff::{
    absent_divergences, account_divergences, code_verdict, storage_divergences, stored_canonical,
    CodeVerdictView, DivergenceView, Mode, NoteView,
};
use crate::engine::{
    is_last_occurrence, stage_from_account, stage_from_contract, EngineView, StageView,
};
use crate::extract::{
    group_end, grouped_by_address, lemma_group_end, lemma_group_is_whole, lemma_group_key,
    lemma_walk_takes_group, walk, with_entries, Answer, ContractStateView, ExtractionView,
    IndexEntry, Query,
};
use crate::primitives::{Address, B256, U256};
use crate::types::{Account, DbAccount};
use vstd::prelude::*;

verus! {

/// A state store as a mathematical value: the accounts and codes it holds,
/// and its storage index.
pub struct StoreModel {
    /// The accounts, by address.
    pub accounts: Map<Address, Account>,
    /// The code of each account that has code, by address.
    pub account_codes: Map<Address, Bytecode>,
    /// The codes, by hash.
    pub codes: Map<B256, Bytecode>,
    /// The storage index.
    pub index: Seq<IndexEntry>,
}

/// The first position from `from` on whose entry belongs to `address`; the
/// length of the index where there is none.
pub open spec fn seek_position(index: Seq<IndexEntry>, address: Address, from: int) -> int
    decreases index.len() - from,
{
    if from < 0 || from >= index.len() {
        index.len() as int
    } else if index[from].address == address {
        from
    } else {
        seek_position(index, address, from + 1)
    }
}

/// The entry at a position of the index; `None` beyond its end.
pub open spec fn entry_at(index: Seq<IndexEntry>, position: int) -> Option<IndexEntry> {
    if 0 <= position < index.len() {
        Some(index[position])
    } else {
        None
    }
}

impl StoreModel {
    /// The account at an address, if the store holds one.
    pub open spec fn account(self, address: Address) -> Option<Account> {
        if self.accounts.dom().contains(address) {
            Some(self.accounts[address])
        } else {
            None
        }
    }

    /// The code with a hash, if the store holds one.
    pub open spec fn code(self, hash: B256) -> Option<Bytecode> {
        if self.codes.dom().contains(hash) {
            Some(self.codes[hash])
        } else {
            None
        }
    }

    /// The code of the account at an address, if it has code.
    pub open spec fn account_code(self, address: Address) -> Option<Bytecode> {
        if self.account_codes.dom().contains(address) {
            Some(self.account_codes[address])
        } else {
            None
        }
    }

    /// The storage that the index holds for an address: the slots of the
    /// entries from the first one of that address up to the first one of
    /// another address after it.
    pub open spec fn storage(self, address: Address) -> Map<Seq<u8>, U256> {
        let first = seek_position(self.index, address, 0);
        with_entries(
            Map::empty(),
            self.index.subrange(first, group_end(self.index, address, first)),
        )
    }

    /// The store's answer to a lookup, with the cursor on the storage index
    /// at `cursor`, and where the cursor stands after it.
    pub open spec fn reply(self, cursor: int, query: Query) -> (Answer, int) {
        match query {
            Query::BasicAccount(address) => (Answer::Account(Ok(self.account(address))), cursor),
            Query::AccountCode(address) => (Answer::Code(Ok(self.account_code(address))), cursor),
            Query::BytecodeByHash(hash) => (Answer::Code(Ok(self.code(hash))), cursor),
            Query::StorageSeek(address) => {
                let first = seek_position(self.index, address, 0);
                (Answer::Entry(Ok(entry_at(self.index, first))), first)
            },
            Query::StorageNext => (
                Answer::Entry(Ok(entry_at(self.index, cursor + 1))),
                cursor + 1,
            ),
        }
    }

    /// A run, and the cursor, after at most `steps` lookups were made and
    /// answered by the store. A run that has ended stays as it is.
    pub open spec fn drive(self, v: EngineView, cursor: int, steps: nat) -> (EngineView, int)
        decreases steps,
    {
        if steps == 0 {
            (v, cursor)
        } else {
            match v.query() {
                None => (v, cursor),
                Some(query) => {
                    let (answer, moved) = self.reply(cursor, query);
                    self.drive(v.after(answer), moved, (steps - 1) as nat)
                },
            }
        }
    }

    /// The divergences between one account of the snapshot and the store:
    /// those of an absent account where the store holds none at the address;
    /// else those of the account's info, and then those of its storage. In
    /// fail-fast mode nothing follows a divergence.
    pub open spec fn account_findings(
        self,
        mode: Mode,
        address: Address,
        record: DbAccount,
        block_number: u64,
    ) -> Seq<DivergenceView> {
        match self.account(address) {
            None => absent_divergences(address, record, block_number),
            Some(stored) => {
                let info = account_divergences(mode, address, record.info, stored, block_number);
                if mode == Mode::FailFast && info.len() > 0 {
                    info
                } else {
                    info + storage_divergences(
                        address,
                        record.storage@,
                        self.storage(address),
                        block_number,
                    )
                }
            },
        }
    }

    /// The divergences and notes between one contract code of the snapshot
    /// and the store.
    pub open spec fn code_findings(
        self,
        code_hash: B256,
        code: Bytecode,
        block_number: u64,
    ) -> CodeVerdictView {
        code_verdict(
            code_hash,
            code.canonical(),
            stored_canonical(self.code(code_hash)),
            block_number,
        )
    }
}

/// Where the first entry of an address stands.
pub proof fn lemma_seek_position(index: Seq<IndexEntry>, address: Address, from: int)
    requires
        0 <= from <= index.len(),
    ensures
        from <= seek_position(index, address, from) <= index.len(),
        seek_position(index, address, from) < index.len() ==> index[seek_position(
            index,
            address,
            from,
        )].address == address,
        forall|i: int|
            from <= i < seek_position(index, address, from) ==> (#[trigger] index[i]).address
                != address,
    decreases index.len() - from,
{
    if from < index.len() && index[from].address != address {
        lemma_seek_position(index, address, from + 1);
    }
}

impl StoreModel {
    /// Lookups made one after another add up.
    pub proof fn lemma_drive_on(self, v: EngineView, cursor: int, first: nat, then: nat)
        ensures
            self.drive(v, cursor, first + then) == self.drive(
                self.drive(v, cursor, first).0,
                self.drive(v, cursor, first).1,
                then,
            ),
        decreases first,
    {
        if first > 0 {
            match v.query() {
                None => {
                    self.lemma_drive_ended(v, cursor, then);
                },
                Some(query) => {
                    let (answer, moved) = self.reply(cursor, query);
                    self.lemma_drive_on(v.after(answer), moved, (first - 1) as nat, then);
                    assert(self.drive(v, cursor, first + then) == self.drive(
                        v.after(answer),
                        moved,
                        (first + then - 1) as nat,
                    ));
                },
            }
        }
    }

    /// A run that has ended stays as it is.
    pub proof fn lemma_drive_ended(self, v: EngineView, cursor: int, steps: nat)
        requires
            v.query() is None,
        ensures
            self.drive(v, cursor, steps) == (v, cursor),
    {
    }

    /// One lookup and its answer.
    pub proof fn lemma_drive_one(self, v: EngineView, cursor: int, query: Query)
        requires
            v.query() == Some(query),
        ensures
            self.drive(v, cursor, 1) == (
                v.after(self.reply(cursor, query).0),
                self.reply(cursor, query).1,
            ),
    {
        let (answer, moved) = self.reply(cursor, query);
        assert(self.drive(v.after(answer), moved, 0) == (v.after(answer), moved));
    }
}

impl StoreModel {
    /// A run that reads on in the storage index, after the entry at
    /// `cursor`, comes to the end of the walk.
    pub proof fn lemma_drive_scan(self, v: EngineView, i: int, cursor: int) -> (steps: nat)
        requires
            v.stage is Storage,
            v.stage->Storage_0 == i,
            v.stage->Storage_1 is Scan,
            0 <= cursor < self.index.len(),
        ensures
            self.drive(v, cursor, steps).0 == v.after_extraction_step(
                i,
                walk(v.stage->Storage_1, self.index, cursor + 1),
            ),
        decreases self.index.len() - cursor,
    {
        let extraction = v.stage->Storage_1;
        let (answer, moved) = self.reply(cursor, Query::StorageNext);
        let next = extraction.after(answer);
        let v1 = v.after(answer);
        self.lemma_drive_one(v, cursor, Query::StorageNext);
        assert(v1 == v.after_extraction_step(i, next));
        if next is Scan {
            assert(cursor + 1 < self.index.len());
            let more = self.lemma_drive_scan(v1, i, cursor + 1);
            let end = walk(next, self.index, cursor + 2);
            assert(walk(extraction, self.index, cursor + 1) == end);
            lemma_walk_takes_group(next, self.index, cursor + 2);
            assert(v1.after_extraction_step(i, end) == v.after_extraction_step(i, end));
            self.lemma_drive_on(v, cursor, 1, more);
            1 + more
        } else {
            assert(walk(extraction, self.index, cursor + 1) == next) by {
                if cursor + 1 < self.index.len() {
                    assert(walk(next, self.index, cursor + 2) == next);
                }
            }
            1
        }
    }

    /// A run that begins to read the storage of the account with index `i`
    /// comes to the comparison of the storage that the store holds for the
    /// address.
    pub proof fn lemma_drive_storage(self, v: EngineView, i: int, cursor: int) -> (steps: nat)
        requires
            v.stage is Storage,
            v.stage->Storage_0 == i,
            v.stage->Storage_1 is Code,
            v.stage->Storage_1->Code_address == v.accounts[i].0,
        ensures
            self.drive(v, cursor, steps).0 == v.proceed(
                storage_divergences(
                    v.accounts[i].0,
                    v.accounts[i].1.storage@,
                    self.storage(v.accounts[i].0),
                    v.block_number,
                ),
                Seq::empty(),
                v.after_account(i),
            ),
    {
        let address = v.accounts[i].0;
        let account = v.stage->Storage_1->Code_account;
        let first = seek_position(self.index, address, 0);
        lemma_seek_position(self.index, address, 0);
        lemma_group_end(self.index, address, first);
        // the code
        let (code_answer, _) = self.reply(cursor, Query::AccountCode(address));
        let v1 = v.after(code_answer);
        self.lemma_drive_one(v, cursor, Query::AccountCode(address));
        let seeking = ExtractionView::Seek {
            address,
            account,
            bytecode: self.account_code(address),
        };
        assert(v1 == (EngineView { stage: StageView::Storage(i, seeking), ..v }));
        // the seek
        let (seek_answer, _) = self.reply(cursor, Query::StorageSeek(address));
        let v2 = v1.after(seek_answer);
        self.lemma_drive_one(v1, cursor, Query::StorageSeek(address));
        self.lemma_drive_on(v, cursor, 1, 1);
        assert(self.drive(v, cursor, 2) == (v2, first));
        let sought = seeking.after(seek_answer);
        assert(v2 == v1.after_extraction_step(i, sought));
        let end = walk(seeking, self.index, first);
        lemma_walk_takes_group(seeking, self.index, first);
        assert(end->Found_0.storage == self.storage(address));
        assert(v1.after_extraction_step(i, end) == v.after_extraction_step(i, end));
        if sought is Scan {
            assert(first < self.index.len());
            assert(end == walk(sought, self.index, first + 1));
            let more = self.lemma_drive_scan(v2, i, first);
            lemma_walk_takes_group(sought, self.index, first + 1);
            assert(v2.after_extraction_step(i, end) == v.after_extraction_step(i, end));
            self.lemma_drive_on(v, cursor, 2, more);
            2 + more
        } else {
            assert(end == sought) by {
                if first < self.index.len() {
                    assert(walk(sought, self.index, first + 1) == sought);
                }
            }
            2
        }
    }
}

/// What a run found: its divergences and its notes.
pub struct Findings {
    pub divergences: Seq<DivergenceView>,
    pub notes: Seq<NoteView>,
}

impl StoreModel {
    /// What the contract codes of a snapshot from index `from` on come to:
    /// the verdict on each code that stands last under its hash, in the
    /// order of the snapshot. In fail-fast mode nothing follows a
    /// divergence.
    pub open spec fn contracts_findings(
        self,
        mode: Mode,
        contracts: Seq<(B256, Bytecode)>,
        block_number: u64,
        from: int,
    ) -> Findings
        decreases contracts.len() - from,
    {
        if from < 0 || from >= contracts.len() {
            Findings { divergences: Seq::empty(), notes: Seq::empty() }
        } else if !is_last_occurrence(contracts, from) {
            self.contracts_findings(mode, contracts, block_number, from + 1)
        } else {
            let verdict = self.code_findings(contracts[from].0, contracts[from].1, block_number);
            if mode == Mode::FailFast && verdict.divergences.len() > 0 {
                Findings { divergences: verdict.divergences, notes: verdict.notes }
            } else {
                let rest = self.contracts_findings(mode, contracts, block_number, from + 1);
                Findings {
                    divergences: verdict.divergences + rest.divergences,
                    notes: verdict.notes + rest.notes,
                }
            }
        }
    }

    /// What a snapshot comes to from the account with index `from` on: the
    /// divergences of each account, in the order of the snapshot and with
    /// every occurrence of an address, and then what the contract codes come
    /// to. In fail-fast mode nothing follows a divergence.
    pub open spec fn findings(
        self,
        mode: Mode,
        accounts: Seq<(Address, DbAccount)>,
        contracts: Seq<(B256, Bytecode)>,
        block_number: u64,
        from: int,
    ) -> Findings
        decreases accounts.len() - from,
    {
        if from < 0 || from >= accounts.len() {
            self.contracts_findings(mode, contracts, block_number, 0)
        } else {
            let found = self.account_findings(
                mode,
                accounts[from].0,
                accounts[from].1,
                block_number,
            );
            if mode == Mode::FailFast && found.len() > 0 {
                Findings { divergences: found, notes: Seq::empty() }
            } else {
                let rest = self.findings(mode, accounts, contracts, block_number, from + 1);
                Findings { divergences: found + rest.divergences, notes: rest.notes }
            }
        }
    }

    /// A run that waits for the store's account for the account with index
    /// `i` comes to record what that account comes to.
    pub proof fn lemma_drive_account(self, v: EngineView, i: int, cursor: int) -> (steps: nat)
        requires
            v.stage == StageView::Account(i),
        ensures
            self.drive(v, cursor, steps).0 == v.proceed(
                self.account_findings(v.mode, v.accounts[i].0, v.accounts[i].1, v.block_number),
                Seq::empty(),
                v.after_account(i),
            ),
    {
        let address = v.accounts[i].0;
        let record = v.accounts[i].1;
        let (answer, _) = self.reply(cursor, Query::BasicAccount(address));
        let v1 = v.after(answer);
        self.lemma_drive_one(v, cursor, Query::BasicAccount(address));
        let found = self.account_findings(v.mode, address, record, v.block_number);
        let want = v.proceed(found, Seq::empty(), v.after_account(i));
        match self.account(address) {
            None => 1,
            Some(stored) => {
                let info = account_divergences(
                    v.mode,
                    address,
                    record.info,
                    stored,
                    v.block_number,
                );
                if v.mode == Mode::FailFast && info.len() > 0 {
                    1
                } else {
                    let storage = storage_divergences(
                        address,
                        record.storage@,
                        self.storage(address),
                        v.block_number,
                    );
                    let more = self.lemma_drive_storage(v1, i, cursor);
                    let end = v1.proceed(storage, Seq::empty(), v1.after_account(i));
                    assert(end.divergences =~= want.divergences);
                    assert(end.notes =~= want.notes);
                    assert(end == want);
                    self.lemma_drive_on(v, cursor, 1, more);
                    1 + more
                }
            },
        }
    }

    /// A run that takes up the contract codes from index `from` on comes to
    /// its end, with what those codes come to added to its records.
    pub proof fn lemma_drive_contracts(self, v: EngineView, from: int, cursor: int) -> (steps: nat)
        requires
            0 <= from <= v.contracts.len(),
            v.stage == stage_from_contract(v.contracts, from),
        ensures
            self.drive(v, cursor, steps).0.stage == StageView::Done,
            self.drive(v, cursor, steps).0.divergences == v.divergences + self.contracts_findings(
                v.mode,
                v.contracts,
                v.block_number,
                from,
            ).divergences,
            self.drive(v, cursor, steps).0.notes == v.notes + self.contracts_findings(
                v.mode,
                v.contracts,
                v.block_number,
                from,
            ).notes,
        decreases v.contracts.len() - from,
    {
        let all = self.contracts_findings(v.mode, v.contracts, v.block_number, from);
        if from == v.contracts.len() {
            assert(v.divergences + all.divergences =~= v.divergences);
            assert(v.notes + all.notes =~= v.notes);
            0
        } else if !is_last_occurrence(v.contracts, from) {
            self.lemma_drive_contracts(v, from + 1, cursor)
        } else {
            let (code_hash, code) = v.contracts[from];
            let verdict = self.code_findings(code_hash, code, v.block_number);
            let (answer, _) = self.reply(cursor, Query::BytecodeByHash(code_hash));
            let v1 = v.after(answer);
            self.lemma_drive_one(v, cursor, Query::BytecodeByHash(code_hash));
            assert(v1 == v.proceed(verdict.divergences, verdict.notes, v.contract_stage(from + 1)));
            if v.mode == Mode::FailFast && verdict.divergences.len() > 0 {
                1
            } else {
                let more = self.lemma_drive_contracts(v1, from + 1, cursor);
                let rest = self.contracts_findings(v.mode, v.contracts, v.block_number, from + 1);
                self.lemma_drive_on(v, cursor, 1, more);
                assert((v.divergences + verdict.divergences) + rest.divergences =~= v.divergences
                    + all.divergences);
                assert((v.notes + verdict.notes) + rest.notes =~= v.notes + all.notes);
                1 + more
            }
        }
    }

    /// A run that takes up the accounts from index `from` on comes to its
    /// end, with what the rest of the snapshot comes to added to its
    /// records.
    pub proof fn lemma_drive_accounts(self, v: EngineView, from: int, cursor: int) -> (steps: nat)
        requires
            0 <= from <= v.accounts.len(),
            v.stage == stage_from_account(v.accounts, v.contracts, from),
        ensures
            self.drive(v, cursor, steps).0.stage == StageView::Done,
            self.drive(v, cursor, steps).0.divergences == v.divergences + self.findings(
                v.mode,
                v.accounts,
                v.contracts,
                v.block_number,
                from,
            ).divergences,
            self.drive(v, cursor, steps).0.notes == v.notes + self.findings(
                v.mode,
                v.accounts,
                v.contracts,
                v.block_number,
                from,
            ).notes,
        decreases v.accounts.len() - from,
    {
        let all = self.findings(v.mode, v.accounts, v.contracts, v.block_number, from);
        if from == v.accounts.len() {
            self.lemma_drive_contracts(v, 0, cursor)
        } else {
            let found = self.account_findings(
                v.mode,
                v.accounts[from].0,
                v.accounts[from].1,
                v.block_number,
            );
            let one = self.lemma_drive_account(v, from, cursor);
            let (v1, moved) = self.drive(v, cursor, one);
            if v.mode == Mode::FailFast && found.len() > 0 {
                assert(v1.notes =~= v.notes + all.notes);
                one
            } else {
                let more = self.lemma_drive_accounts(v1, from + 1, moved);
                let rest = self.findings(v.mode, v.accounts, v.contracts, v.block_number, from + 1);
                self.lemma_drive_on(v, cursor, one, more);
                assert((v.divergences + found) + rest.divergences =~= v.divergences
                    + all.divergences);
                assert((v.notes + Seq::<NoteView>::empty()) + rest.notes =~= v.notes + all.notes);
                one + more
            }
        }
    }

    /// A run over a snapshot, against a store that answers every lookup
    /// without fault, comes to its end after finitely many lookups, and has
    /// then recorded what the snapshot comes to against that store, no more
    /// and no less, in the order of the snapshot.
    pub proof fn lemma_run(
        self,
        accounts: Seq<(Address, DbAccount)>,
        contracts: Seq<(B256, Bytecode)>,
        block_number: u64,
        mode: Mode,
    ) -> (steps: nat)
        ensures
            self.drive(EngineView::start(accounts, contracts, block_number, mode), 0, steps).0.stage
                == StageView::Done,
            self.drive(
                EngineView::start(accounts, contracts, block_number, mode),
                0,
                steps,
            ).0.divergences == self.findings(mode, accounts, contracts, block_number, 0).divergences,
            self.drive(EngineView::start(accounts, contracts, block_number, mode), 0, steps).0.notes
                == self.findings(mode, accounts, contracts, block_number, 0).notes,
    {
        let start = EngineView::start(accounts, contracts, block_number, mode);
        let all = self.findings(mode, accounts, contracts, block_number, 0);
        let steps = self.lemma_drive_accounts(start, 0, 0);
        assert(start.divergences + all.divergences =~= all.divergences);
        assert(start.notes + all.notes =~= all.notes);
        steps
    }
}

impl StoreModel {
    /// Where the entries of each address stand together in the index, the
    /// storage that the store holds for an address has the slots of the
    /// entries of that address, and of no other.
    pub proof fn lemma_storage_is_of_address(self, address: Address, k: Seq<u8>)
        requires
            grouped_by_address(self.index),
        ensures
            self.storage(address).dom().contains(k) <==> exists|i: int|
                0 <= i < self.index.len() && (#[trigger] self.index[i]).address == address
                    && self.index[i].key@ == k,
    {
        let first = seek_position(self.index, address, 0);
        let end = group_end(self.index, address, first);
        lemma_seek_position(self.index, address, 0);
        lemma_group_end(self.index, address, first);
        if first < self.index.len() {
            lemma_group_is_whole(self.index, address, first);
        }
        lemma_group_key(self.index, address, first, end, k);
    }
}

impl StoreModel {
    /// The full state of the contract at an address, as the store holds it;
    /// `None` where it holds no account there.
    pub open spec fn contract_state(self, address: Address) -> Option<ContractStateView> {
        match self.account(address) {
            None => None,
            Some(account) => Some(
                ContractStateView {
                    address,
                    account,
                    bytecode: self.account_code(address),
                    storage: self.storage(address),
                },
            ),
        }
    }

    /// An extraction, and the cursor, after at most `steps` lookups were
    /// made and answered by the store. An extraction that has ended stays as
    /// it is.
    pub open spec fn extract(self, x: ExtractionView, cursor: int, steps: nat) -> (
        ExtractionView,
        int,
    )
        decreases steps,
    {
        if steps == 0 {
            (x, cursor)
        } else {
            match x.query() {
                None => (x, cursor),
                Some(query) => {
                    let (answer, moved) = self.reply(cursor, query);
                    self.extract(x.after(answer), moved, (steps - 1) as nat)
                },
            }
        }
    }

    /// An extraction that reads on in the storage index, after the entry at
    /// `cursor`, comes to the end of the walk.
    pub proof fn lemma_extract_scan(self, x: ExtractionView, cursor: int) -> (steps: nat)
        requires
            x is Scan,
            0 <= cursor < self.index.len(),
        ensures
            self.extract(x, cursor, steps).0 == walk(x, self.index, cursor + 1),
        decreases self.index.len() - cursor,
    {
        let (answer, moved) = self.reply(cursor, Query::StorageNext);
        let next = x.after(answer);
        assert(self.extract(next, moved, 0) == (next, moved));
        if next is Scan {
            let more = self.lemma_extract_scan(next, cursor + 1);
            assert(walk(x, self.index, cursor + 1) == walk(next, self.index, cursor + 2));
            assert(self.extract(x, cursor, 1 + more) == self.extract(next, moved, more));
            1 + more
        } else {
            assert(walk(x, self.index, cursor + 1) == next) by {
                if cursor + 1 < self.index.len() {
                    assert(walk(next, self.index, cursor + 2) == next);
                }
            }
            1
        }
    }

    /// An extraction against a store that answers every lookup without
    /// fault comes to its end after finitely many lookups: with the state
    /// that the store holds for the address, or without one where the store
    /// holds no account there.
    pub proof fn lemma_extract(self, address: Address, cursor: int) -> (steps: nat)
        ensures
            self.extract(ExtractionView::Account { address }, cursor, steps).0 == (
            match self.contract_state(address) {
                Some(state) => ExtractionView::Found(state),
                None => ExtractionView::Absent { address },
            }),
    {
        let begin = ExtractionView::Account { address };
        let first = seek_position(self.index, address, 0);
        lemma_seek_position(self.index, address, 0);
        lemma_group_end(self.index, address, first);
        match self.account(address) {
            None => {
                let gone = ExtractionView::Absent { address };
                assert(self.extract(gone, cursor, 0) == (gone, cursor));
                1
            },
            Some(account) => {
                let coded = ExtractionView::Code { address, account };
                let seeking = ExtractionView::Seek {
                    address,
                    account,
                    bytecode: self.account_code(address),
                };
                let sought = seeking.after(self.reply(cursor, Query::StorageSeek(address)).0);
                let end = walk(seeking, self.index, first);
                lemma_walk_takes_group(seeking, self.index, first);
                assert(end == ExtractionView::Found(self.contract_state(address).unwrap()));
                assert(self.extract(sought, first, 0) == (sought, first));
                assert(self.extract(seeking, cursor, 1) == (sought, first));
                assert(self.extract(coded, cursor, 2) == self.extract(seeking, cursor, 1));
                assert(self.extract(begin, cursor, 3) == self.extract(coded, cursor, 2));
                if sought is Scan {
                    assert(end == walk(sought, self.index, first + 1));
                    let more = self.lemma_extract_scan(sought, first);
                    assert(self.extract(seeking, cursor, 1 + more) == self.extract(
                        sought,
                        first,
                        more,
                    ));
                    assert(self.extract(coded, cursor, 2 + more) == self.extract(
                        seeking,
                        cursor,
                        1 + more,
                    ));
                    assert(self.extract(begin, cursor, 3 + more) == self.extract(
                        coded,
                        cursor,
                        2 + more,
                    ));
                    3 + more
                } else {
                    assert(end == sought) by {
                        if first < self.index.len() {
                            assert(walk(sought, self.index, first + 1) == sought);
                        }
                    }
                    3
                }
            },
        }
    }
}

} // verus!
