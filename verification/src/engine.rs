//! The run over a whole snapshot: every account, then every distinct
//! contract code.
//!
//! The engine never reaches the state store. It says which lookup it needs
//! next, is handed the answer, and decides from it what to record and what
//! to ask for after that.

use crate::bytecode::Bytecode;
use crate::diff::{
    absent_divergences, account_divergences, check_absent_account, check_account, check_bytecode,
    check_storage, code_verdict, divergence_views, lemma_account_verdict, note_views,
    storage_divergences, stored_canonical, Divergence, DivergenceView, Mode, Note, NoteView,
};
use crate::extract::{Answer, Extraction, ExtractionView, Query, QueryFault};
use crate::primitives::{Address, B256};
use crate::report::Report;
use crate::types::{AbciState, Account, DbAccount, EvmDb};
use vstd::prelude::*;

verus! {

/// Whether no later entry of `contracts` has the hash of entry `i`. Of
/// several codes under one hash the last one counts, so these are the
/// entries that a run checks.
pub open spec fn is_last_occurrence(contracts: Seq<(B256, Bytecode)>, i: int) -> bool {
    forall|j: int| i < j < contracts.len() ==> (#[trigger] contracts[j]).0 != contracts[i].0
}

/// The first index from `from` on that is a last occurrence; the length of
/// the list where there is none.
pub open spec fn next_contract(contracts: Seq<(B256, Bytecode)>, from: int) -> int
    decreases contracts.len() - from,
{
    if from < 0 || from >= contracts.len() {
        contracts.len() as int
    } else if is_last_occurrence(contracts, from) {
        from
    } else {
        next_contract(contracts, from + 1)
    }
}

/// Where a run stands.
pub enum StageView {
    /// Waiting for the store's account for the account with this index.
    Account(int),
    /// Reading the store's state of the account with this index.
    Storage(int, ExtractionView),
    /// Waiting for the store's code for the contract with this index.
    Contract(int),
    /// The run has ended.
    Done,
    /// The run was given up because the store failed.
    Aborted(QueryFault),
}

/// A run as a mathematical value.
pub struct EngineView {
    pub accounts: Seq<(Address, DbAccount)>,
    pub contracts: Seq<(B256, Bytecode)>,
    pub block_number: u64,
    pub mode: Mode,
    pub stage: StageView,
    pub divergences: Seq<DivergenceView>,
    pub notes: Seq<NoteView>,
}

/// The stage at which the contracts from index `from` on are taken up: that
/// of the first one that is a last occurrence, or the end of the run.
pub open spec fn stage_from_contract(contracts: Seq<(B256, Bytecode)>, from: int) -> StageView {
    let next = next_contract(contracts, from);
    if next < contracts.len() {
        StageView::Contract(next)
    } else {
        StageView::Done
    }
}

/// The stage at which the accounts from index `next` on are taken up; after
/// the last account, the contracts follow.
pub open spec fn stage_from_account(
    accounts: Seq<(Address, DbAccount)>,
    contracts: Seq<(B256, Bytecode)>,
    next: int,
) -> StageView {
    if next < accounts.len() {
        StageView::Account(next)
    } else {
        stage_from_contract(contracts, 0)
    }
}

impl EngineView {
    /// The stage at which the contracts from index `from` on are taken up.
    pub open spec fn contract_stage(self, from: int) -> StageView {
        stage_from_contract(self.contracts, from)
    }

    /// The stage that follows the account with index `i`.
    pub open spec fn after_account(self, i: int) -> StageView {
        stage_from_account(self.accounts, self.contracts, i + 1)
    }

    /// The run at its beginning.
    pub open spec fn start(
        accounts: Seq<(Address, DbAccount)>,
        contracts: Seq<(B256, Bytecode)>,
        block_number: u64,
        mode: Mode,
    ) -> EngineView {
        let blank = EngineView {
            accounts,
            contracts,
            block_number,
            mode,
            stage: StageView::Done,
            divergences: Seq::empty(),
            notes: Seq::empty(),
        };
        EngineView { stage: stage_from_account(accounts, contracts, 0), ..blank }
    }

    /// The run after it recorded `divergences` and `notes`: it goes on to
    /// `stage`, unless it is in fail-fast mode and a divergence was recorded,
    /// which ends it.
    pub open spec fn proceed(
        self,
        divergences: Seq<DivergenceView>,
        notes: Seq<NoteView>,
        stage: StageView,
    ) -> EngineView {
        EngineView {
            stage: if self.mode == Mode::FailFast && divergences.len() > 0 {
                StageView::Done
            } else {
                stage
            },
            divergences: self.divergences + divergences,
            notes: self.notes + notes,
            ..self
        }
    }

    /// The lookup that the run waits for; `None` once it has ended.
    pub open spec fn query(self) -> Option<Query> {
        match self.stage {
            StageView::Account(i) => Some(Query::BasicAccount(self.accounts[i].0)),
            StageView::Storage(_, extraction) => extraction.query(),
            StageView::Contract(i) => Some(Query::BytecodeByHash(self.contracts[i].0)),
            _ => None,
        }
    }

    /// Whether `answer` is of the kind that the run waits for.
    pub open spec fn expects(self, answer: Answer) -> bool {
        match self.stage {
            StageView::Account(_) => answer is Account,
            StageView::Storage(_, extraction) => extraction.expects(answer),
            StageView::Contract(_) => answer is Code,
            _ => false,
        }
    }

    /// The run after the store's answer on the account with index `i`.
    ///
    /// A fault is noted and the account left unchecked. Where the store has
    /// no account, the snapshot's record must be that of an untouched
    /// account. Where it has one, balance, nonce and code hash are compared,
    /// and the run goes on to read the account's storage.
    pub open spec fn after_account_answer(
        self,
        i: int,
        lookup: Result<Option<Account>, QueryFault>,
    ) -> EngineView {
        let (address, record) = self.accounts[i];
        match lookup {
            Err(fault) => self.proceed(
                Seq::empty(),
                seq![NoteView::AccountFault { address, fault }],
                self.after_account(i),
            ),
            Ok(None) => self.proceed(
                absent_divergences(address, record, self.block_number),
                Seq::empty(),
                self.after_account(i),
            ),
            Ok(Some(stored)) => self.proceed(
                account_divergences(self.mode, address, record.info, stored, self.block_number),
                Seq::empty(),
                StageView::Storage(i, ExtractionView::Code { address, account: stored }),
            ),
        }
    }

    /// The run after the extraction for the account with index `i` moved on
    /// to `extraction`.
    ///
    /// Once the store's state is complete, its storage is compared with the
    /// snapshot's. A fault of the store ends the run.
    pub open spec fn after_extraction_step(self, i: int, extraction: ExtractionView) -> EngineView {
        let (address, record) = self.accounts[i];
        match extraction {
            ExtractionView::Found(state) => self.proceed(
                storage_divergences(address, record.storage@, state.storage, self.block_number),
                Seq::empty(),
                self.after_account(i),
            ),
            ExtractionView::Absent { .. } => self.proceed(
                Seq::empty(),
                Seq::empty(),
                self.after_account(i),
            ),
            ExtractionView::Failed(fault) => EngineView {
                stage: StageView::Aborted(fault),
                ..self
            },
            _ => EngineView { stage: StageView::Storage(i, extraction), ..self },
        }
    }

    /// The run after the store's answer on the contract with index `i`. A
    /// fault of the store ends the run.
    pub open spec fn after_contract_answer(
        self,
        i: int,
        lookup: Result<Option<Bytecode>, QueryFault>,
    ) -> EngineView {
        let (code_hash, code) = self.contracts[i];
        match lookup {
            Err(fault) => EngineView { stage: StageView::Aborted(fault), ..self },
            Ok(stored) => {
                let verdict = code_verdict(
                    code_hash,
                    code.canonical(),
                    stored_canonical(stored),
                    self.block_number,
                );
                self.proceed(verdict.divergences, verdict.notes, self.contract_stage(i + 1))
            },
        }
    }

    /// The run after `answer` came back. An answer of another kind than the
    /// one waited for changes nothing.
    pub open spec fn after(self, answer: Answer) -> EngineView {
        if !self.expects(answer) {
            self
        } else {
            match self.stage {
                StageView::Account(i) => self.after_account_answer(i, answer->Account_0),
                StageView::Storage(i, extraction) => self.after_extraction_step(
                    i,
                    extraction.after(answer),
                ),
                StageView::Contract(i) => self.after_contract_answer(i, answer->Code_0),
                _ => self,
            }
        }
    }
}

/// Where a run stands.
#[derive(Debug, PartialEq, Eq)]
pub enum Stage {
    /// Waiting for the store's account for the account with this index.
    Account(usize),
    /// Reading the store's state of the account with this index.
    Storage(usize, Extraction),
    /// Waiting for the store's code for the contract with this index.
    Contract(usize),
    /// The run has ended.
    Done,
    /// The run was given up because the store failed.
    Aborted(QueryFault),
}

impl View for Stage {
    type V = StageView;

    open spec fn view(&self) -> StageView {
        match self {
            Stage::Account(i) => StageView::Account(*i as int),
            Stage::Storage(i, extraction) => StageView::Storage(*i as int, extraction@),
            Stage::Contract(i) => StageView::Contract(*i as int),
            Stage::Done => StageView::Done,
            Stage::Aborted(fault) => StageView::Aborted(*fault),
        }
    }
}

/// Whether no later entry of `contracts` has the hash of entry `i`.
fn last_occurrence(contracts: &Vec<(B256, Bytecode)>, i: usize) -> (r: bool)
    requires
        i < contracts@.len(),
    ensures
        r == is_last_occurrence(contracts@, i as int),
{
    let len: usize = contracts.len();
    let mut j: usize = i + 1;
    while j < len
        invariant
            len == contracts@.len(),
            i < j <= contracts@.len(),
            forall|k: int| i < k < j ==> (#[trigger] contracts@[k]).0 != contracts@[i as int].0,
        decreases contracts@.len() - j,
    {
        if contracts[j].0 == contracts[i].0 {
            return false;
        }
        j += 1;
    }
    true
}

/// The stage at which the contracts from index `from` on are taken up.
fn contract_stage(contracts: &Vec<(B256, Bytecode)>, from: usize) -> (r: Stage)
    requires
        from <= contracts@.len(),
    ensures
        r@ == stage_from_contract(contracts@, from as int),
        r matches Stage::Contract(i) ==> i < contracts@.len(),
        (r is Contract) || (r is Done),
{
    let mut k: usize = from;
    while k < contracts.len()
        invariant
            from <= k <= contracts@.len(),
            next_contract(contracts@, from as int) == next_contract(contracts@, k as int),
        decreases contracts@.len() - k,
    {
        if last_occurrence(contracts, k) {
            return Stage::Contract(k);
        }
        k += 1;
    }
    Stage::Done
}

/// The stage at which the accounts from index `next` on are taken up.
fn account_stage(
    accounts: &Vec<(Address, DbAccount)>,
    contracts: &Vec<(B256, Bytecode)>,
    next: usize,
) -> (r: Stage)
    ensures
        r@ == stage_from_account(accounts@, contracts@, next as int),
        r matches Stage::Account(k) ==> k < accounts@.len(),
        r matches Stage::Contract(k) ==> k < contracts@.len(),
        !(r is Storage) && !(r is Aborted),
{
    if next < accounts.len() {
        Stage::Account(next)
    } else {
        contract_stage(contracts, 0)
    }
}

/// A run over a snapshot.
#[derive(Debug, PartialEq, Eq)]
pub struct DiffEngine {
    accounts: Vec<(Address, DbAccount)>,
    contracts: Vec<(B256, Bytecode)>,
    block_number: u64,
    mode: Mode,
    stage: Stage,
    report: Report,
}

impl View for DiffEngine {
    type V = EngineView;

    closed spec fn view(&self) -> EngineView {
        EngineView {
            accounts: self.accounts@,
            contracts: self.contracts@,
            block_number: self.block_number,
            mode: self.mode,
            stage: self.stage@,
            divergences: self.report.divergences_view(),
            notes: self.report.notes_view(),
        }
    }
}

/// What a run that has ended hands back.
#[derive(Debug, PartialEq, Eq)]
pub enum RunResult {
    /// The run went through; this is what it recorded.
    Finished(Report),
    /// The run was given up because the store failed.
    Aborted(QueryFault),
    /// The run has not ended; it comes back as it is.
    Unfinished(DiffEngine),
}

impl DiffEngine {
    #[verifier::type_invariant]
    spec fn in_range(&self) -> bool {
        match self.stage {
            Stage::Account(i) => i < self.accounts@.len(),
            Stage::Storage(i, extraction) => i < self.accounts@.len() && !extraction@.ended(),
            Stage::Contract(i) => i < self.contracts@.len(),
            _ => true,
        }
    }

    /// A run over the accounts and contracts of `state`, against a store
    /// that is asked at the block of `state`.
    pub fn new(state: AbciState, mode: Mode) -> (r: DiffEngine)
        ensures
            r@ == EngineView::start(
                state.exchange.hyper_evm.state2.evm_db->accounts@,
                state.exchange.hyper_evm.state2.evm_db->contracts@,
                state.exchange.hyper_evm.latest_block2.number_spec(),
                mode,
            ),
    {
        let block_number = state.exchange.hyper_evm.latest_block2.number();
        match state.exchange.hyper_evm.state2.evm_db {
            EvmDb::InMemory { accounts, contracts } => {
                let stage = account_stage(&accounts, &contracts, 0);
                let engine = DiffEngine {
                    accounts,
                    contracts,
                    block_number,
                    mode,
                    stage,
                    report: Report::new(),
                };
                proof {
                    assert(engine@.divergences =~= Seq::empty());
                    assert(engine@.notes =~= Seq::empty());
                }
                engine
            },
        }
    }

    /// The block at which the store is asked.
    pub fn block_number(&self) -> (r: u64)
        ensures
            r == self@.block_number,
    {
        self.block_number
    }

    /// The lookup to make next; `None` once the run has ended.
    pub fn query(&self) -> (r: Option<Query>)
        ensures
            r == self@.query(),
    {
        proof {
            use_type_invariant(self);
        }
        match &self.stage {
            Stage::Account(i) => Some(Query::BasicAccount(self.accounts[*i].0)),
            Stage::Storage(_, extraction) => extraction.query(),
            Stage::Contract(i) => Some(Query::BytecodeByHash(self.contracts[*i].0)),
            _ => None,
        }
    }

    /// Puts what one comparison gave into the report and picks the stage
    /// that follows.
    fn proceed(
        self,
        divergences: Vec<Divergence>,
        notes: Vec<Note>,
        stage: Stage,
    ) -> (r: DiffEngine)
        requires
            stage matches Stage::Account(k) ==> k < self@.accounts.len(),
            stage matches Stage::Storage(k, extraction) ==> k < self@.accounts.len()
                && !extraction@.ended(),
            stage matches Stage::Contract(k) ==> k < self@.contracts.len(),
        ensures
            r@ == self@.proceed(
                divergence_views(divergences@),
                note_views(notes@),
                stage@,
            ),
    {
        let DiffEngine { accounts, contracts, block_number, mode, stage: _, report } = self;
        let halt = mode == Mode::FailFast && divergences.len() > 0;
        let mut report = report;
        report.record(divergences, notes);
        DiffEngine {
            accounts,
            contracts,
            block_number,
            mode,
            stage: if halt {
                Stage::Done
            } else {
                stage
            },
            report,
        }
    }

    /// The run with another stage and nothing else changed.
    fn at_stage(self, stage: Stage) -> (r: DiffEngine)
        requires
            stage matches Stage::Account(k) ==> k < self@.accounts.len(),
            stage matches Stage::Storage(k, extraction) ==> k < self@.accounts.len()
                && !extraction@.ended(),
            stage matches Stage::Contract(k) ==> k < self@.contracts.len(),
        ensures
            r@ == (EngineView { stage: stage@, ..self@ }),
            stage == self.stage ==> r == self,
    {
        let DiffEngine { accounts, contracts, block_number, mode, stage: _, report } = self;
        DiffEngine { accounts, contracts, block_number, mode, stage, report }
    }
}

impl DiffEngine {
    /// Takes in the store's answer on the account with index `i`.
    fn answer_account(
        self,
        i: usize,
        lookup: Result<Option<Account>, QueryFault>,
    ) -> (r: DiffEngine)
        requires
            self@.stage == StageView::Account(i as int),
        ensures
            r@ == self@.after_account_answer(i as int, lookup),
    {
        proof {
            use_type_invariant(&self);
        }
        let address = self.accounts[i].0;
        let block_number = self.block_number;
        let following: usize = if i < self.accounts.len() {
            i + 1
        } else {
            i
        };
        match lookup {
            Err(fault) => {
                let next = account_stage(&self.accounts, &self.contracts, following);
                let mut notes: Vec<Note> = Vec::new();
                notes.push(Note::AccountFault { address, fault });
                proof {
                    assert(note_views(notes@) =~= seq![
                        NoteView::AccountFault { address, fault },
                    ]);
                    assert(divergence_views(Seq::<Divergence>::empty())
                        =~= Seq::empty());
                }
                self.proceed(Vec::new(), notes, next)
            },
            Ok(None) => {
                let next = account_stage(&self.accounts, &self.contracts, following);
                let found = check_absent_account(address, &self.accounts[i].1, block_number);
                proof {
                    assert(note_views(Seq::<Note>::empty()) =~= Seq::empty());
                }
                self.proceed(found, Vec::new(), next)
            },
            Ok(Some(stored)) => {
                let found = check_account(
                    self.mode,
                    address,
                    &self.accounts[i].1.info,
                    &stored,
                    block_number,
                );
                proof {
                    assert(note_views(Seq::<Note>::empty()) =~= Seq::empty());
                }
                let reading = Extraction::with_account(address, stored);
                self.proceed(found, Vec::new(), Stage::Storage(i, reading))
            },
        }
    }

    /// Takes in the extraction for the account with index `i` after it was
    /// handed an answer.
    fn answer_extraction(self, i: usize, extraction: Extraction) -> (r: DiffEngine)
        requires
            i < self@.accounts.len(),
        ensures
            r@ == self@.after_extraction_step(i as int, extraction@),
    {
        let address = self.accounts[i].0;
        let block_number = self.block_number;
        let following: usize = if i < self.accounts.len() {
            i + 1
        } else {
            i
        };
        match extraction {
            Extraction::Found(state) => {
                let next = account_stage(&self.accounts, &self.contracts, following);
                let found = check_storage(
                    address,
                    &self.accounts[i].1.storage,
                    state.storage,
                    block_number,
                );
                proof {
                    assert(note_views(Seq::<Note>::empty()) =~= Seq::empty());
                }
                self.proceed(found, Vec::new(), next)
            },
            Extraction::Absent { .. } => {
                let next = account_stage(&self.accounts, &self.contracts, following);
                proof {
                    assert(note_views(Seq::<Note>::empty()) =~= Seq::empty());
                    assert(divergence_views(Seq::<Divergence>::empty())
                        =~= Seq::empty());
                }
                self.proceed(Vec::new(), Vec::new(), next)
            },
            Extraction::Failed(fault) => self.at_stage(Stage::Aborted(fault)),
            extraction => self.at_stage(Stage::Storage(i, extraction)),
        }
    }

    /// Takes in the store's answer on the contract with index `i`.
    fn answer_contract(
        self,
        i: usize,
        lookup: Result<Option<Bytecode>, QueryFault>,
    ) -> (r: DiffEngine)
        requires
            self@.stage == StageView::Contract(i as int),
        ensures
            r@ == self@.after_contract_answer(i as int, lookup),
    {
        proof {
            use_type_invariant(&self);
        }
        match lookup {
            Err(fault) => self.at_stage(Stage::Aborted(fault)),
            Ok(stored) => {
                let verdict = check_bytecode(
                    self.contracts[i].0,
                    &self.contracts[i].1,
                    &stored,
                    self.block_number,
                );
                let following: usize = if i < self.contracts.len() {
                    i + 1
                } else {
                    i
                };
                let next = contract_stage(&self.contracts, following);
                self.proceed(verdict.divergences, verdict.notes, next)
            },
        }
    }
}

impl DiffEngine {
    /// Hands the run the answer to the lookup it asked for. The second
    /// result says whether the answer was of the kind waited for; one that
    /// was not is dropped, and the run comes back as it was.
    pub fn answer(self, answer: Answer) -> (r: (DiffEngine, bool))
        ensures
            r.1 == self@.expects(answer),
            r.0@ == self@.after(answer),
            !r.1 ==> r.0 == self,
    {
        proof {
            use_type_invariant(&self);
        }
        let DiffEngine { accounts, contracts, block_number, mode, stage, report } = self;
        match (stage, answer) {
            (Stage::Account(i), Answer::Account(lookup)) => {
                let engine = DiffEngine {
                    accounts,
                    contracts,
                    block_number,
                    mode,
                    stage: Stage::Account(i),
                    report,
                };
                (engine.answer_account(i, lookup), true)
            },
            (Stage::Storage(i, extraction), answer) => {
                let (extraction, accepted) = extraction.answer(answer);
                if accepted {
                    let engine = DiffEngine {
                        accounts,
                        contracts,
                        block_number,
                        mode,
                        stage: Stage::Done,
                        report,
                    };
                    (engine.answer_extraction(i, extraction), true)
                } else {
                    let stage = Stage::Storage(i, extraction);
                    (DiffEngine { accounts, contracts, block_number, mode, stage, report }, false)
                }
            },
            (Stage::Contract(i), Answer::Code(lookup)) => {
                let engine = DiffEngine {
                    accounts,
                    contracts,
                    block_number,
                    mode,
                    stage: Stage::Contract(i),
                    report,
                };
                (engine.answer_contract(i, lookup), true)
            },
            (stage, _) => (
                DiffEngine { accounts, contracts, block_number, mode, stage, report },
                false,
            ),
        }
    }

    /// What a run that has ended recorded, or the fault that it was given up
    /// for. A run that has not ended comes back as it is.
    pub fn finish(self) -> (r: RunResult)
        ensures
            match r {
                RunResult::Finished(report) => self@.stage == StageView::Done
                    && report.divergences_view() == self@.divergences && report.notes_view()
                    == self@.notes,
                RunResult::Aborted(fault) => self@.stage == StageView::Aborted(fault),
                RunResult::Unfinished(engine) => engine == self && self@.query().is_some(),
            },
    {
        proof {
            use_type_invariant(&self);
        }
        let DiffEngine { accounts, contracts, block_number, mode, stage, report } = self;
        match stage {
            Stage::Done => RunResult::Finished(report),
            Stage::Aborted(fault) => RunResult::Aborted(fault),
            stage => {
                let engine = DiffEngine { accounts, contracts, block_number, mode, stage, report };
                RunResult::Unfinished(engine)
            },
        }
    }
}

/// `next_contract` finds the first last occurrence from `from` on: what it
/// skips are entries whose hash comes again further on.
pub proof fn lemma_next_contract(contracts: Seq<(B256, Bytecode)>, from: int)
    requires
        0 <= from <= contracts.len(),
    ensures
        from <= next_contract(contracts, from) <= contracts.len(),
        next_contract(contracts, from) < contracts.len() ==> is_last_occurrence(
            contracts,
            next_contract(contracts, from),
        ),
        forall|j: int|
            from <= j < next_contract(contracts, from) ==> !is_last_occurrence(contracts, j),
    decreases contracts.len() - from,
{
    if from < contracts.len() && !is_last_occurrence(contracts, from) {
        lemma_next_contract(contracts, from + 1);
    }
}

/// Every hash of the list has exactly one last occurrence, so a run checks
/// each distinct hash once, against the code that stands last under it.
pub proof fn lemma_one_last_occurrence(contracts: Seq<(B256, Bytecode)>, i: int)
    requires
        0 <= i < contracts.len(),
    ensures
        exists|k: int|
            i <= k < contracts.len() && (#[trigger] contracts[k]).0 == contracts[i].0
                && is_last_occurrence(contracts, k),
        forall|k: int, m: int|
            0 <= k < m < contracts.len() && (#[trigger] contracts[k]).0 == (
            #[trigger] contracts[m]).0 ==> !is_last_occurrence(contracts, k),
    decreases contracts.len() - i,
{
    let found = |k: int|
        i <= k < contracts.len() && contracts[k].0 == contracts[i].0 && is_last_occurrence(
            contracts,
            k,
        );
    if is_last_occurrence(contracts, i) {
        assert(found(i));
    } else {
        let j = choose|j: int| i < j < contracts.len() && (#[trigger] contracts[j]).0
            == contracts[i].0;
        lemma_one_last_occurrence(contracts, j);
        let k = choose|k: int|
            j <= k < contracts.len() && (#[trigger] contracts[k]).0 == contracts[j].0
                && is_last_occurrence(contracts, k);
        assert(found(k));
    }
    assert forall|k: int, m: int|
        0 <= k < m < contracts.len() && (#[trigger] contracts[k]).0 == (
        #[trigger] contracts[m]).0 implies !is_last_occurrence(contracts, k) by {}
}

/// A run that has ended asks for nothing and takes no answer.
pub proof fn lemma_ended_is_final(v: EngineView, answer: Answer)
    requires
        v.stage is Done || v.stage is Aborted,
    ensures
        v.query() is None,
        !v.expects(answer),
        v.after(answer) == v,
{
}

/// An answer changes neither the snapshot nor the mode nor the block, and
/// what was recorded stays as it is: divergences and notes are only added at
/// the end.
pub proof fn lemma_records_grow(v: EngineView, answer: Answer)
    ensures
        v.after(answer).accounts == v.accounts,
        v.after(answer).contracts == v.contracts,
        v.after(answer).mode == v.mode,
        v.after(answer).block_number == v.block_number,
        v.divergences.is_prefix_of(v.after(answer).divergences),
        v.notes.is_prefix_of(v.after(answer).notes),
{
    let next = v.after(answer);
    assert(next.divergences.len() >= v.divergences.len());
    assert(next.notes.len() >= v.notes.len());
    assert(next.divergences.subrange(0, v.divergences.len() as int) =~= v.divergences);
    assert(next.notes.subrange(0, v.notes.len() as int) =~= v.notes);
}

/// In fail-fast mode an answer adds at most one divergence, and a run that
/// recorded one has ended.
pub proof fn lemma_fail_fast_stops(v: EngineView, answer: Answer)
    requires
        v.mode == Mode::FailFast,
    ensures
        v.after(answer).divergences.len() <= v.divergences.len() + 1,
        v.after(answer).divergences.len() > v.divergences.len() ==> v.after(answer).stage
            == StageView::Done,
{
    if v.expects(answer) {
        match v.stage {
            StageView::Account(i) => {
                let (address, record) = v.accounts[i];
                if let Answer::Account(Ok(Some(stored))) = answer {
                    lemma_account_verdict(
                        v.mode,
                        address,
                        record.info,
                        stored,
                        v.block_number,
                    );
                }
            },
            StageView::Storage(i, extraction) => {},
            StageView::Contract(i) => {},
            _ => {},
        }
    }
}

/// A fault of the store on an account is lenient: it is noted, nothing is
/// recorded as a divergence, and the run goes on with what follows that
/// account.
pub proof fn lemma_account_fault_is_noted(v: EngineView, i: int, fault: QueryFault)
    requires
        v.stage == StageView::Account(i),
    ensures
        v.after(Answer::Account(Err(fault))).divergences == v.divergences,
        v.after(Answer::Account(Err(fault))).notes == v.notes.push(
            NoteView::AccountFault { address: v.accounts[i].0, fault },
        ),
        v.after(Answer::Account(Err(fault))).stage == v.after_account(i),
{
    let next = v.after(Answer::Account(Err(fault)));
    assert(next.divergences =~= v.divergences);
    assert(next.notes =~= v.notes.push(NoteView::AccountFault { address: v.accounts[i].0, fault }));
}

/// A fault of the store on a contract code, on an account's code or on the
/// storage index ends the run.
pub proof fn lemma_store_fault_aborts(v: EngineView, answer: Answer, fault: QueryFault)
    requires
        v.expects(answer),
        (v.stage is Contract && answer == Answer::Code(Err(fault))) || (v.stage is Storage && (
        answer == Answer::Code(Err(fault)) || answer == Answer::Entry(Err(fault)))),
    ensures
        v.after(answer).stage == StageView::Aborted(fault),
        v.after(answer).divergences == v.divergences,
        v.after(answer).notes == v.notes,
{
}

/// At an address without an account in the store, the record of an
/// untouched account leaves the run clean, and any other record adds exactly
/// one divergence, which names that address.
pub proof fn lemma_absent_account_in_run(v: EngineView, i: int)
    requires
        v.stage == StageView::Account(i),
    ensures
        v.accounts[i].1.is_untouched() ==> v.after(Answer::Account(Ok(None))).divergences
            == v.divergences,
        !v.accounts[i].1.is_untouched() ==> v.after(Answer::Account(Ok(None))).divergences
            == v.divergences.push(
            DivergenceView::AbsentAccount {
                address: v.accounts[i].0,
                info: v.accounts[i].1.info,
                storage_len: v.accounts[i].1.storage@.len(),
                block_number: v.block_number,
            },
        ),
{
    let next = v.after(Answer::Account(Ok(None)));
    if v.accounts[i].1.is_untouched() {
        assert(next.divergences =~= v.divergences);
    } else {
        assert(next.divergences =~= v.divergences.push(
            DivergenceView::AbsentAccount {
                address: v.accounts[i].0,
                info: v.accounts[i].1.info,
                storage_len: v.accounts[i].1.storage@.len(),
                block_number: v.block_number,
            },
        ));
    }
}

} // verus!
