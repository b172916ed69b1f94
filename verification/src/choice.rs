use vstd::prelude::*;
use crate::address::{names, Address};
use crate::contract::{ContractId, ContractState, ContractStateView};
use crate::error::Error;
use crate::storage::{
    lemma_extends_reflexive, lemma_extends_transitive, AuthorizersGuard, RecordView, Storage,
    StorageView,
};

verus! {

/// One atomic unit of work on a store: a chain of choice exercises that
/// takes effect as a whole or not at all.
///
/// The transaction owns the store while it runs. Each step sees what the
/// steps before it did. The first step that is refused marks the transaction
/// as failed; from then on every step is refused with the same error, and
/// `finish` hands the store back exactly as `begin` received it.
pub struct Transaction {
    storage: Storage,
    caller: Address,
    marks: Vec<usize>,
    saved: Vec<Address>,
    journal: Vec<ContractId>,
    failure: Option<Error>,
    initial: Ghost<StorageView>,
}

/// The record `record` with its archived flag set.
pub open spec fn archived_version(record: RecordView) -> RecordView {
    RecordView { state: record.state, archived: true }
}

/// Whether `current` can be taken back to `initial` with what a transaction
/// keeps: `marks` holds how many identifiers each template had issued, and
/// `journal` names the contracts that were archived since.
spec fn undoable(
    current: StorageView,
    initial: StorageView,
    marks: Seq<usize>,
    journal: Seq<ContractId>,
) -> bool {
    &&& marks.len() == initial.tables.len()
    &&& current.tables.len() == initial.tables.len()
    &&& forall|t: int|
        0 <= t < marks.len() ==> {
            &&& #[trigger] marks[t] == initial.tables[t].slots.len()
            &&& marks[t] <= current.tables[t].slots.len()
            &&& current.tables[t].name == initial.tables[t].name
        }
    &&& forall|id: ContractId|
        initial.issued(id) ==> {
            ||| #[trigger] current.record(id) == initial.record(id)
            ||| {
                &&& initial.active(id)
                &&& current.record(id) == Some(archived_version(initial.record(id)->0))
                &&& journal.contains(id)
            }
        }
    &&& forall|k: int|
        0 <= k < journal.len() ==> {
            &&& current.record(#[trigger] journal[k]) is Some
            &&& initial.issued(journal[k]) ==> initial.active(journal[k])
        }
}

proof fn lemma_create_undoable(
    current: StorageView,
    initial: StorageView,
    marks: Seq<usize>,
    journal: Seq<ContractId>,
    template: u32,
    state: ContractStateView,
)
    requires
        undoable(current, initial, marks, journal),
        current.can_create(template),
    ensures
        undoable(current.with_created(template, state), initial, marks, journal),
{
    let after = current.with_created(template, state);
    assert forall|t: int| 0 <= t < marks.len() implies {
        &&& #[trigger] marks[t] == initial.tables[t].slots.len()
        &&& marks[t] <= after.tables[t].slots.len()
        &&& after.tables[t].name == initial.tables[t].name
    } by {}
    assert forall|id: ContractId| current.issued(id) implies after.record(id) == current.record(
        id,
    ) by {}
    assert forall|id: ContractId| initial.issued(id) implies {
        ||| #[trigger] after.record(id) == initial.record(id)
        ||| {
            &&& initial.active(id)
            &&& after.record(id) == Some(archived_version(initial.record(id)->0))
            &&& journal.contains(id)
        }
    } by {
        assert(marks[id.template as int] == initial.tables[id.template as int].slots.len());
    }
    assert forall|k: int| 0 <= k < journal.len() implies {
        &&& after.record(#[trigger] journal[k]) is Some
        &&& initial.issued(journal[k]) ==> initial.active(journal[k])
    } by {}
}

proof fn lemma_archive_undoable(
    current: StorageView,
    initial: StorageView,
    marks: Seq<usize>,
    journal: Seq<ContractId>,
    target: ContractId,
)
    requires
        undoable(current, initial, marks, journal),
        current.active(target),
    ensures
        undoable(current.with_archived(target), initial, marks, journal.push(target)),
{
    let after = current.with_archived(target);
    let longer = journal.push(target);
    assert forall|t: int| 0 <= t < marks.len() implies {
        &&& #[trigger] marks[t] == initial.tables[t].slots.len()
        &&& marks[t] <= after.tables[t].slots.len()
        &&& after.tables[t].name == initial.tables[t].name
    } by {}
    assert forall|id: ContractId| id != target implies after.record(id) == current.record(id) by {}
    assert(longer[journal.len() as int] == target);
    assert forall|id: ContractId| journal.contains(id) implies longer.contains(id) by {
        let k = choose|k: int| 0 <= k < journal.len() && journal[k] == id;
        assert(longer[k] == id);
    }
    assert forall|id: ContractId| initial.issued(id) implies {
        ||| #[trigger] after.record(id) == initial.record(id)
        ||| {
            &&& initial.active(id)
            &&& after.record(id) == Some(archived_version(initial.record(id)->0))
            &&& longer.contains(id)
        }
    } by {}
    assert forall|k: int| 0 <= k < longer.len() implies {
        &&& after.record(#[trigger] longer[k]) is Some
        &&& initial.issued(longer[k]) ==> initial.active(longer[k])
    } by {}
}

impl Transaction {
    /// The store as the transaction received it.
    pub closed spec fn initial(&self) -> StorageView {
        self.initial@
    }

    /// The store as the steps so far have left it.
    pub closed spec fn current(&self) -> StorageView {
        self.storage@
    }

    /// The party on whose call the transaction runs.
    pub closed spec fn caller(&self) -> Seq<char> {
        self.caller@
    }

    /// The error of the first refused step, if a step was refused.
    pub closed spec fn failure(&self) -> Option<Error> {
        self.failure
    }

    /// What the transaction keeps so that it can be undone.
    pub closed spec fn wf(&self) -> bool {
        &&& self.storage.wf()
        &&& self.initial@.wf()
        &&& names(self.saved@) == self.initial@.authorizers
        &&& undoable(self.storage@, self.initial@, self.marks@, self.journal@)
    }

    /// Starts a transaction on `storage` for the caller `caller`.
    pub fn begin(storage: Storage, caller: Address) -> (tx: Transaction)
        requires
            storage.wf(),
        ensures
            tx.wf(),
            tx.initial() == storage@,
            tx.current() == storage@,
            tx.caller() == caller@,
            tx.failure() is None,
    {
        let saved = storage.authorizers();
        let mut marks: Vec<usize> = Vec::new();
        let count = storage.template_count();
        let mut t: usize = 0;
        while t < count
            invariant
                storage.wf(),
                count == storage@.tables.len(),
                t <= count,
                marks@.len() == t,
                forall|s: int| 0 <= s < t ==> #[trigger] marks@[s] == storage@.tables[s].slots.len(),
            decreases count - t,
        {
            marks.push(storage.issued_count(t as u32));
            t += 1;
        }
        Transaction {
            storage,
            caller,
            marks,
            saved,
            journal: Vec::new(),
            failure: None,
            initial: Ghost(storage@),
        }
    }

    /// Whether a step was refused.
    pub fn has_failed(&self) -> (failed: bool)
        ensures
            failed == self.failure() is Some,
    {
        self.failure.is_some()
    }

    /// Creates a contract of `template` with the given state.
    pub fn create(&mut self, template: u32, state: ContractState) -> (result: Result<
        ContractId,
        Error,
    >)
        requires
            old(self).wf(),
        ensures
            final(self).wf(),
            final(self).current().extends(old(self).current()),
            final(self).initial() == old(self).initial(),
            final(self).caller() == old(self).caller(),
            match old(self).failure() {
                Some(e) => {
                    &&& result == Err::<ContractId, Error>(e)
                    &&& final(self).failure() == Some(e)
                    &&& final(self).current() == old(self).current()
                },
                None => if old(self).current().can_create(template) {
                    &&& result == Ok::<ContractId, Error>(old(self).current().next_id(template))
                    &&& final(self).failure() is None
                    &&& final(self).current() == old(self).current().with_created(
                        template,
                        state@,
                    )
                } else {
                    &&& result == Err::<ContractId, Error>(Error::InvariantViolation)
                    &&& final(self).failure() == Some(Error::InvariantViolation)
                    &&& final(self).current() == old(self).current()
                },
            },
    {
        if let Some(e) = self.failure {
            return Err(e);
        }
        proof {
            if self.storage@.can_create(template) {
                lemma_create_undoable(
                    self.storage@,
                    self.initial@,
                    self.marks@,
                    self.journal@,
                    template,
                    state@,
                );
            }
        }
        match self.storage.create(template, state) {
            Ok(id) => Ok(id),
            Err(e) => {
                self.failure = Some(e);
                Err(e)
            },
        }
    }

    /// Reads the state of an active contract, as the steps so far have left
    /// the store. Nobody's authorization is asked for.
    pub fn fetch(&mut self, id: ContractId) -> (result: Result<ContractState, Error>)
        requires
            old(self).wf(),
        ensures
            final(self).wf(),
            final(self).current().extends(old(self).current()),
            final(self).initial() == old(self).initial(),
            final(self).caller() == old(self).caller(),
            final(self).current() == old(self).current(),
            match old(self).failure() {
                Some(e) => {
                    &&& result == Err::<ContractState, Error>(e)
                    &&& final(self).failure() == Some(e)
                },
                None => if old(self).current().active(id) {
                    &&& result matches Ok(state)
                    &&& state@ == old(self).current().record(id)->0.state
                    &&& final(self).failure() is None
                } else {
                    &&& result == Err::<ContractState, Error>(Error::NotFound)
                    &&& final(self).failure() == Some(Error::NotFound)
                },
            },
    {
        if let Some(e) = self.failure {
            return Err(e);
        }
        let found = match self.storage.fetch(id) {
            Ok(state) => Ok(state.clone()),
            Err(e) => Err(e),
        };
        match found {
            Ok(state) => Ok(state),
            Err(e) => {
                self.failure = Some(e);
                Err(e)
            },
        }
    }

    /// Looks up what is stored under `id`, as the steps so far have left the
    /// store: the state and the archived flag, or nothing. Finding nothing is
    /// no failure, and the transaction stays as it is. A failed transaction
    /// answers no lookup.
    pub fn get(&self, id: ContractId) -> (found: Option<(ContractState, bool)>)
        ensures
            match found {
                Some((state, archived)) => {
                    &&& self.failure() is None
                    &&& self.current().record(id) == Some(RecordView { state: state@, archived })
                },
                None => self.failure() is Some || self.current().record(id) is None,
            },
    {
        if self.failure.is_some() {
            return None;
        }
        match self.storage.get(id) {
            Some((state, archived)) => Some((state.clone(), archived)),
            None => None,
        }
    }

    /// What a transaction in hand says of its stores: both are within their
    /// limits, and the current one came from the initial one.
    pub proof fn lemma_stores(&self)
        requires
            self.wf(),
        ensures
            self.initial().wf(),
            self.current().wf(),
            self.current().extends(self.initial()),
    {
        lemma_undoable_extends(self.storage@, self.initial@, self.marks@, self.journal@);
    }

    /// Exercises a choice on the contract under `id` for the transaction's
    /// caller and the parties `controllers` that the choice belongs to. A
    /// consuming choice archives the contract.
    pub fn exercise(&mut self, id: ContractId, controllers: &Vec<Address>, consuming: bool) -> (result:
        Result<ContractState, Error>)
        requires
            old(self).wf(),
        ensures
            final(self).wf(),
            final(self).current().extends(old(self).current()),
            final(self).initial() == old(self).initial(),
            final(self).caller() == old(self).caller(),
            match old(self).failure() {
                Some(e) => {
                    &&& result == Err::<ContractState, Error>(e)
                    &&& final(self).failure() == Some(e)
                    &&& final(self).current() == old(self).current()
                },
                None => match old(self).current().refusal(
                    id,
                    names(controllers@),
                    old(self).caller(),
                ) {
                    Some(e) => {
                        &&& result == Err::<ContractState, Error>(e)
                        &&& final(self).failure() == Some(e)
                        &&& final(self).current() == old(self).current()
                    },
                    None => {
                        &&& result matches Ok(state)
                        &&& state@ == old(self).current().record(id)->0.state
                        &&& final(self).failure() is None
                        &&& final(self).current() == old(self).current().after_exercise(
                            id,
                            consuming,
                        )
                    },
                },
            },
    {
        if let Some(e) = self.failure {
            return Err(e);
        }
        match self.storage.exercise(id, controllers, &self.caller, consuming) {
            Ok(state) => {
                if consuming {
                    proof {
                        lemma_archive_undoable(
                            old(self).storage@,
                            self.initial@,
                            self.marks@,
                            self.journal@,
                            id,
                        );
                    }
                    self.journal.push(id);
                }
                Ok(state)
            },
            Err(e) => {
                self.failure = Some(e);
                Err(e)
            },
        }
    }

    /// Checks a condition that the running choice depends on. A condition
    /// that does not hold fails the transaction.
    pub fn require(&mut self, condition: bool) -> (result: Result<(), Error>)
        requires
            old(self).wf(),
        ensures
            final(self).wf(),
            final(self).current().extends(old(self).current()),
            final(self).initial() == old(self).initial(),
            final(self).caller() == old(self).caller(),
            final(self).current() == old(self).current(),
            match old(self).failure() {
                Some(e) => result == Err::<(), Error>(e) && final(self).failure() == Some(e),
                None => if condition {
                    result == Ok::<(), Error>(()) && final(self).failure() is None
                } else {
                    &&& result == Err::<(), Error>(Error::InvariantViolation)
                    &&& final(self).failure() == Some(Error::InvariantViolation)
                },
            },
    {
        if let Some(e) = self.failure {
            return Err(e);
        }
        if condition {
            Ok(())
        } else {
            self.failure = Some(Error::InvariantViolation);
            Err(Error::InvariantViolation)
        }
    }

    /// Declares that the running call chain acts for `party`. A failed
    /// transaction declares nothing.
    pub fn authorize(&mut self, party: Address)
        requires
            old(self).wf(),
        ensures
            final(self).wf(),
            final(self).current().extends(old(self).current()),
            final(self).initial() == old(self).initial(),
            final(self).caller() == old(self).caller(),
            final(self).failure() == old(self).failure(),
            final(self).current().tables == old(self).current().tables,
            final(self).current().authorizers == if old(self).failure() is None {
                old(self).current().authorizers.push(party@)
            } else {
                old(self).current().authorizers
            },
    {
        if self.failure.is_none() {
            self.storage.authorize(party);
            proof {
                lemma_tables_undoable(
                    old(self).storage@,
                    self.storage@,
                    self.initial@,
                    self.marks@,
                    self.journal@,
                );
            }
        }
    }

    /// Opens a delegated scope on the authorizers declared so far.
    pub fn acquire_authorizers_guard(&self) -> (guard: AuthorizersGuard)
        ensures
            guard.base() == self.current().authorizers.len(),
    {
        self.storage.acquire_authorizers_guard()
    }

    /// Closes the scope that `guard` opened: the authorizers declared since
    /// then are dropped, also in a failed transaction.
    pub fn release_authorizers_guard(&mut self, guard: AuthorizersGuard)
        requires
            old(self).wf(),
        ensures
            final(self).wf(),
            final(self).current().extends(old(self).current()),
            final(self).initial() == old(self).initial(),
            final(self).caller() == old(self).caller(),
            final(self).failure() == old(self).failure(),
            final(self).current().tables == old(self).current().tables,
            final(self).current().authorizers == if guard.base() <= old(
                self,
            ).current().authorizers.len() {
                old(self).current().authorizers.take(guard.base() as int)
            } else {
                old(self).current().authorizers
            },
    {
        self.storage.release_authorizers_guard(guard);
        proof {
            lemma_tables_undoable(
                old(self).storage@,
                self.storage@,
                self.initial@,
                self.marks@,
                self.journal@,
            );
        }
    }

    /// Widens the observers of the contract under `id` to `observers`. A
    /// stored state is never changed, so the contract is archived, by a
    /// consuming choice that belongs to `controllers`, and a contract with
    /// the same signers and payload and the new observers is created in the
    /// same template.
    pub fn disclose(&mut self, id: ContractId, observers: Vec<Address>, controllers: &Vec<Address>) -> (result:
        Result<ContractId, Error>)
        requires
            old(self).wf(),
        ensures
            final(self).wf(),
            final(self).current().extends(old(self).current()),
            final(self).initial() == old(self).initial(),
            final(self).caller() == old(self).caller(),
            match old(self).failure() {
                Some(e) => {
                    &&& result == Err::<ContractId, Error>(e)
                    &&& final(self).failure() == Some(e)
                    &&& final(self).current() == old(self).current()
                },
                None => match old(self).current().refusal(
                    id,
                    names(controllers@),
                    old(self).caller(),
                ) {
                    Some(e) => {
                        &&& result == Err::<ContractId, Error>(e)
                        &&& final(self).failure() == Some(e)
                        &&& final(self).current() == old(self).current()
                    },
                    None => {
                        let archived = old(self).current().with_archived(id);
                        let wider = ContractStateView {
                            observers: names(observers@),
                            ..old(self).current().record(id)->0.state
                        };
                        if archived.can_create(id.template) {
                            &&& result == Ok::<ContractId, Error>(archived.next_id(id.template))
                            &&& final(self).failure() is None
                            &&& final(self).current() == archived.with_created(id.template, wider)
                        } else {
                            &&& result == Err::<ContractId, Error>(Error::InvariantViolation)
                            &&& final(self).failure() == Some(Error::InvariantViolation)
                            &&& final(self).current() == archived
                        }
                    },
                },
            },
    {
        let state = match self.exercise(id, controllers, true) {
            Ok(state) => state,
            Err(e) => {
                return Err(e);
            },
        };
        let ghost archived = self.storage@;
        let created = self.create(id.template, state.disclosed_to(observers));
        proof {
            lemma_extends_transitive(old(self).storage@, archived, self.storage@);
        }
        created
    }

    /// Ends the transaction and hands the store back. If no step was
    /// refused, the store holds what the steps did. If one was, the store is
    /// what it was at `begin`, and the error of that step is returned. Either
    /// way the authorizers are those of `begin`: nothing that was declared
    /// inside the transaction outlives it.
    pub fn finish(self) -> (outcome: (Storage, Result<(), Error>))
        requires
            self.wf(),
        ensures
            outcome.0.wf(),
            outcome.0@.extends(self.initial()),
            match self.failure() {
                Some(e) => outcome.1 == Err::<(), Error>(e) && outcome.0@ == self.initial(),
                None => {
                    &&& outcome.1 == Ok::<(), Error>(())
                    &&& outcome.0@ == (StorageView {
                        authorizers: self.initial().authorizers,
                        tables: self.current().tables,
                    })
                },
            },
    {
        let ghost initial = self.initial@;
        let Transaction { storage, caller: _, marks, saved, journal, failure, initial: _ } = self;
        let mut storage = storage;
        match failure {
            None => {
                proof {
                    lemma_undoable_extends(storage@, initial, marks@, journal@);
                }
                storage.set_authorizers(saved);
                (storage, Ok(()))
            },
            Some(e) => {
                let mut k: usize = 0;
                assert(journal@.skip(0) =~= journal@);
                while k < journal.len()
                    invariant
                        k <= journal.len(),
                        storage.wf(),
                        undoable(storage@, initial, marks@, journal@.skip(k as int)),
                    decreases journal.len() - k,
                {
                    proof {
                        let rest = journal@.skip(k as int);
                        assert(rest.skip(1) =~= journal@.skip(k + 1));
                        lemma_reinstate_undoable(storage@, initial, marks@, rest);
                    }
                    storage.reinstate(journal[k]);
                    k += 1;
                }
                proof {
                    lemma_undone_matches(storage@, initial, marks@, journal@.skip(k as int));
                }
                let mut t: usize = 0;
                while t < marks.len()
                    invariant
                        t <= marks.len(),
                        initial.wf(),
                        marks@.len() == initial.tables.len(),
                        storage@.tables.len() == initial.tables.len(),
                        forall|s: int| 0 <= s < t ==> #[trigger] storage@.tables[s] == initial.tables[s],
                        forall|s: int|
                            t <= s < marks@.len() ==> {
                                &&& #[trigger] marks@[s] == initial.tables[s].slots.len()
                                &&& marks@[s] <= storage@.tables[s].slots.len()
                                &&& storage@.tables[s].name == initial.tables[s].name
                                &&& storage@.tables[s].slots.take(marks@[s] as int)
                                    == initial.tables[s].slots
                            },
                    decreases marks.len() - t,
                {
                    storage.shorten(t as u32, marks[t]);
                    t += 1;
                }
                storage.set_authorizers(saved);
                proof {
                    assert(storage@.tables =~= initial.tables);
                    lemma_extends_reflexive(initial);
                }
                (storage, Err(e))
            },
        }
    }
}

/// A store that differs from an undoable one in its authorizers alone is
/// undoable too.
proof fn lemma_tables_undoable(
    before: StorageView,
    after: StorageView,
    initial: StorageView,
    marks: Seq<usize>,
    journal: Seq<ContractId>,
)
    requires
        undoable(before, initial, marks, journal),
        after.tables == before.tables,
    ensures
        undoable(after, initial, marks, journal),
{
    assert forall|id: ContractId| after.record(id) == before.record(id) by {}
    assert forall|id: ContractId| initial.issued(id) implies {
        ||| #[trigger] after.record(id) == initial.record(id)
        ||| {
            &&& initial.active(id)
            &&& after.record(id) == Some(archived_version(initial.record(id)->0))
            &&& journal.contains(id)
        }
    } by {}
    assert forall|k: int| 0 <= k < journal.len() implies {
        &&& after.record(#[trigger] journal[k]) is Some
        &&& initial.issued(journal[k]) ==> initial.active(journal[k])
    } by {}
}

/// What a transaction has made of a store comes from that store.
proof fn lemma_undoable_extends(
    current: StorageView,
    initial: StorageView,
    marks: Seq<usize>,
    journal: Seq<ContractId>,
)
    requires
        undoable(current, initial, marks, journal),
    ensures
        current.extends(initial),
        (StorageView { authorizers: initial.authorizers, tables: current.tables }).extends(initial),
{
    let committed = StorageView { authorizers: initial.authorizers, tables: current.tables };
    assert forall|t: int| 0 <= t < initial.tables.len() implies {
        &&& (#[trigger] current.tables[t]).name == initial.tables[t].name
        &&& initial.tables[t].slots.len() <= current.tables[t].slots.len()
    } by {
        assert(marks[t] == initial.tables[t].slots.len());
    }
    assert forall|id: ContractId| #[trigger] initial.record(id) is Some implies {
        &&& current.record(id) is Some
        &&& current.record(id)->0.state == initial.record(id)->0.state
        &&& initial.record(id)->0.archived ==> current.record(id)->0.archived
    } by {}
    assert forall|id: ContractId| #[trigger] initial.record(id) is Some implies {
        &&& committed.record(id) is Some
        &&& committed.record(id)->0.state == initial.record(id)->0.state
        &&& initial.record(id)->0.archived ==> committed.record(id)->0.archived
    } by {}
}

/// Taking back the first archival of the journal leaves a store that the
/// rest of the journal undoes.
proof fn lemma_reinstate_undoable(
    current: StorageView,
    initial: StorageView,
    marks: Seq<usize>,
    journal: Seq<ContractId>,
)
    requires
        current.wf(),
        undoable(current, initial, marks, journal),
        journal.len() > 0,
    ensures
        current.record(journal[0]) is Some,
        ({
            let after = current.with_slot(
                journal[0],
                Some(RecordView { state: current.record(journal[0])->0.state, archived: false }),
            );
            after.wf() && undoable(after, initial, marks, journal.skip(1))
        }),
{
    let target = journal[0];
    let rest = journal.skip(1);
    let after = current.with_slot(
        target,
        Some(RecordView { state: current.record(target)->0.state, archived: false }),
    );
    assert forall|t: int| 0 <= t < marks.len() implies {
        &&& #[trigger] marks[t] == initial.tables[t].slots.len()
        &&& marks[t] <= after.tables[t].slots.len()
        &&& after.tables[t].name == initial.tables[t].name
    } by {}
    assert forall|id: ContractId| initial.issued(id) implies {
        ||| #[trigger] after.record(id) == initial.record(id)
        ||| {
            &&& initial.active(id)
            &&& after.record(id) == Some(archived_version(initial.record(id)->0))
            &&& rest.contains(id)
        }
    } by {
        if id != target && current.record(id) != initial.record(id) {
            let k = choose|k: int| 0 <= k < journal.len() && journal[k] == id;
            assert(rest[k - 1] == id);
        }
    }
    assert forall|k: int| 0 <= k < rest.len() implies {
        &&& after.record(#[trigger] rest[k]) is Some
        &&& initial.issued(rest[k]) ==> initial.active(rest[k])
    } by {}
}

/// With every archival taken back, each table begins with what it held at
/// the start.
proof fn lemma_undone_matches(
    current: StorageView,
    initial: StorageView,
    marks: Seq<usize>,
    journal: Seq<ContractId>,
)
    requires
        initial.wf(),
        undoable(current, initial, marks, journal),
        journal.len() == 0,
    ensures
        forall|s: int|
            0 <= s < marks.len() ==> {
                &&& #[trigger] marks[s] == initial.tables[s].slots.len()
                &&& marks[s] <= current.tables[s].slots.len()
                &&& current.tables[s].name == initial.tables[s].name
                &&& current.tables[s].slots.take(marks[s] as int) == initial.tables[s].slots
            },
{
    assert forall|s: int| 0 <= s < marks.len() implies {
        &&& #[trigger] marks[s] == initial.tables[s].slots.len()
        &&& marks[s] <= current.tables[s].slots.len()
        &&& current.tables[s].name == initial.tables[s].name
        &&& current.tables[s].slots.take(marks[s] as int) == initial.tables[s].slots
    } by {
        assert forall|i: int| 0 <= i < marks[s] implies current.tables[s].slots[i]
            == initial.tables[s].slots[i] by {
            let id = ContractId { template: s as u32, id: i as u32 };
            assert(current.record(id) == initial.record(id) || journal.contains(id));
        }
    }
}

/// The test that an identifier is another one than `target`.
pub open spec fn other_than(target: ContractId) -> spec_fn(ContractId) -> bool {
    |id: ContractId| id != target
}

/// The list `list` without every occurrence of `target`.
pub open spec fn others(list: Seq<ContractId>, target: ContractId) -> Seq<ContractId> {
    list.filter(other_than(target))
}

/// Takes `target` out of `list`. It has to occur there exactly once: a list
/// that holds it twice, or not at all, is refused.
pub fn remove_once(list: &Vec<ContractId>, target: ContractId) -> (result: Result<
    Vec<ContractId>,
    Error,
>)
    ensures
        match result {
            Ok(rest) => rest@ == others(list@, target) && rest@.len() + 1 == list@.len(),
            Err(e) => e == Error::InvariantViolation && others(list@, target).len() + 1
                != list@.len(),
        },
{
    let mut rest: Vec<ContractId> = Vec::new();
    let mut i: usize = 0;
    while i < list.len()
        invariant
            i <= list.len(),
            rest@ == others(list@.take(i as int), target),
            rest@.len() <= i,
        decreases list.len() - i,
    {
        proof {
            let longer = list@.take(i + 1);
            assert(longer =~= list@.take(i as int).push(list@[i as int]));
            list@.take(i as int).lemma_filter_push(list@[i as int], other_than(target));
        }
        if list[i] != target {
            rest.push(list[i]);
        }
        i += 1;
    }
    assert(list@.take(list.len() as int) =~= list@);
    if list.len() > 0 && rest.len() == list.len() - 1 {
        Ok(rest)
    } else {
        Err(Error::InvariantViolation)
    }
}

} // verus!
