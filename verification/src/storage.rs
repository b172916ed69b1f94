use vstd::prelude::*;
use crate::address::{contains_address, covered_by, names, Address};
use crate::contract::{ContractId, ContractState, ContractStateView};
use crate::error::Error;

verus! {

struct Record {
    state: ContractState,
    archived: bool,
}

/// One stored contract version: its state and whether it has been archived.
pub struct RecordView {
    pub state: ContractStateView,
    pub archived: bool,
}

struct Table {
    name: String,
    slots: Vec<Option<Record>>,
}

/// One template's table. The slot at index `i` belongs to the identifier
/// `i`; it is empty while the identifier is issued and nothing is stored.
pub struct TableView {
    pub name: Seq<char>,
    pub slots: Seq<Option<RecordView>>,
}

/// The contract store of one execution: a table per registered template and
/// the list of parties that the running call chain may act for.
pub struct Storage {
    authorizers: Vec<Address>,
    tables: Vec<Table>,
}

/// What a store holds.
pub struct StorageView {
    pub authorizers: Seq<Seq<char>>,
    pub tables: Seq<TableView>,
}

/// Proof that a delegated scope was opened. It remembers how long the list
/// of authorizers was at that moment, and closing the scope cuts the list
/// back to that length.
#[derive(Debug)]
pub struct AuthorizersGuard {
    len: usize,
}

spec fn slot_view(slot: Option<Record>) -> Option<RecordView> {
    match slot {
        Some(record) => Some(RecordView { state: record.state@, archived: record.archived }),
        None => None,
    }
}

spec fn table_view(table: Table) -> TableView {
    TableView {
        name: table.name@,
        slots: Seq::new(table.slots@.len(), |i: int| slot_view(table.slots@[i])),
    }
}

impl View for Storage {
    type V = StorageView;

    closed spec fn view(&self) -> StorageView {
        StorageView {
            authorizers: names(self.authorizers@),
            tables: Seq::new(self.tables@.len(), |t: int| table_view(self.tables@[t])),
        }
    }
}

/// Whether no two of `names` are the same text.
pub open spec fn distinct_names(names: Seq<String>) -> bool {
    forall|s: int, t: int|
        0 <= s < t < names.len() ==> (#[trigger] names[s])@ != (#[trigger] names[t])@
}

/// The parties a choice needs: the signers of the contract it is exercised
/// on, and the parties the choice belongs to.
pub open spec fn required_signers(state: ContractStateView, controllers: Seq<Seq<char>>) -> Seq<
    Seq<char>,
> {
    state.signers + controllers
}

/// The parties that a context may act for. While no authorizer is declared
/// that is the caller alone; once some are declared it is they, and the
/// caller counts for nothing more.
pub open spec fn effective_authorizers(authorizers: Seq<Seq<char>>, caller: Seq<char>) -> Seq<
    Seq<char>,
> {
    if authorizers.len() == 0 {
        seq![caller]
    } else {
        authorizers
    }
}

/// Whether a context with the given authorizers and caller may act for all of
/// `required`.
pub open spec fn authorized(
    authorizers: Seq<Seq<char>>,
    caller: Seq<char>,
    required: Seq<Seq<char>>,
) -> bool {
    covered_by(required, effective_authorizers(authorizers, caller))
}

impl StorageView {
    /// The limits that the width of an identifier sets, and that no two
    /// templates share a name.
    pub open spec fn wf(self) -> bool {
        &&& self.tables.len() <= u32::MAX
        &&& forall|t: int|
            0 <= t < self.tables.len() ==> (#[trigger] self.tables[t]).slots.len() <= u32::MAX
        &&& forall|s: int, t: int|
            0 <= s < t < self.tables.len() ==> (#[trigger] self.tables[s]).name != (
            #[trigger] self.tables[t]).name
    }

    /// Whether a template of this name is registered.
    pub open spec fn has_name(self, name: Seq<char>) -> bool {
        exists|t: int| 0 <= t < self.tables.len() && (#[trigger] self.tables[t]).name == name
    }

    /// Whether `id` has been issued: its template exists and its number is
    /// below that template's counter.
    pub open spec fn issued(self, id: ContractId) -> bool {
        &&& id.template < self.tables.len()
        &&& id.id < self.tables[id.template as int].slots.len()
    }

    /// What is stored under `id`, if anything.
    pub open spec fn record(self, id: ContractId) -> Option<RecordView> {
        if self.issued(id) {
            self.tables[id.template as int].slots[id.id as int]
        } else {
            None
        }
    }

    /// Whether `id` holds a contract that has not been archived.
    pub open spec fn active(self, id: ContractId) -> bool {
        self.record(id) matches Some(record) && !record.archived
    }

    /// Whether `id` holds a contract that has been archived.
    pub open spec fn archived(self, id: ContractId) -> bool {
        self.record(id) matches Some(record) && record.archived
    }

    /// This store with one more template, its table empty.
    pub open spec fn with_table(self, name: Seq<char>) -> StorageView {
        StorageView {
            tables: self.tables.push(TableView { name, slots: Seq::empty() }),
            ..self
        }
    }

    /// This store with `slot` appended to the table of `template`.
    pub open spec fn with_next(self, template: u32, slot: Option<RecordView>) -> StorageView {
        let table = self.tables[template as int];
        StorageView {
            tables: self.tables.update(
                template as int,
                TableView { slots: table.slots.push(slot), ..table },
            ),
            ..self
        }
    }

    /// This store with `slot` in the place of `id`.
    pub open spec fn with_slot(self, id: ContractId, slot: Option<RecordView>) -> StorageView {
        let table = self.tables[id.template as int];
        StorageView {
            tables: self.tables.update(
                id.template as int,
                TableView { slots: table.slots.update(id.id as int, slot), ..table },
            ),
            ..self
        }
    }

    /// This store with the table of `template` cut back to its first `len`
    /// identifiers.
    pub open spec fn cut(self, template: u32, len: nat) -> StorageView {
        let table = self.tables[template as int];
        StorageView {
            tables: self.tables.update(
                template as int,
                TableView { slots: table.slots.take(len as int), ..table },
            ),
            ..self
        }
    }

    /// This store with the contract under `id` archived.
    pub open spec fn with_archived(self, id: ContractId) -> StorageView {
        self.with_slot(
            id,
            Some(RecordView { state: self.record(id)->0.state, archived: true }),
        )
    }

    /// Whether a contract of `template` can be created: the template is
    /// registered and has identifiers left.
    pub open spec fn can_create(self, template: u32) -> bool {
        &&& template < self.tables.len()
        &&& self.tables[template as int].slots.len() < u32::MAX
    }

    /// The identifier that the next contract of `template` gets.
    pub open spec fn next_id(self, template: u32) -> ContractId {
        ContractId { template, id: self.tables[template as int].slots.len() as u32 }
    }

    /// This store with one more contract of `template`, active.
    pub open spec fn with_created(self, template: u32, state: ContractStateView) -> StorageView {
        self.with_next(template, Some(RecordView { state, archived: false }))
    }

    /// Why a choice on `id` is refused in this store, if it is: the contract
    /// is missing or archived, or the context is not authorized for its
    /// signers and the choice's controllers.
    pub open spec fn refusal(
        self,
        id: ContractId,
        controllers: Seq<Seq<char>>,
        caller: Seq<char>,
    ) -> Option<Error> {
        if !self.active(id) {
            Some(Error::NotFound)
        } else if !authorized(
            self.authorizers,
            caller,
            required_signers(self.record(id)->0.state, controllers),
        ) {
            Some(Error::Unauthorized)
        } else {
            None
        }
    }

    /// This store after a choice on `id` went through.
    pub open spec fn after_exercise(self, id: ContractId, consuming: bool) -> StorageView {
        if consuming {
            self.with_archived(id)
        } else {
            self
        }
    }

    /// Whether this store can have come from `earlier` by ledger operations:
    /// every template and identifier of `earlier` is still there, every
    /// stored state is what it was, and what was archived is archived.
    pub open spec fn extends(self, earlier: StorageView) -> bool {
        &&& earlier.tables.len() <= self.tables.len()
        &&& forall|t: int|
            0 <= t < earlier.tables.len() ==> {
                &&& (#[trigger] self.tables[t]).name == earlier.tables[t].name
                &&& earlier.tables[t].slots.len() <= self.tables[t].slots.len()
            }
        &&& forall|id: ContractId| #[trigger]
            earlier.record(id) is Some ==> {
                &&& self.record(id) is Some
                &&& self.record(id)->0.state == earlier.record(id)->0.state
                &&& earlier.record(id)->0.archived ==> self.record(id)->0.archived
            }
    }
}

impl Storage {
    /// Whether the store is within the limits of its identifiers.
    pub open spec fn wf(&self) -> bool {
        self@.wf()
    }

    /// A store with no template and no authorizer.
    pub fn new() -> (storage: Storage)
        ensures
            storage.wf(),
            storage@.tables.len() == 0,
            storage@.authorizers.len() == 0,
    {
        Storage { authorizers: Vec::new(), tables: Vec::new() }
    }

    /// The number of registered templates.
    pub fn template_count(&self) -> (count: usize)
        ensures
            count == self@.tables.len(),
    {
        self.tables.len()
    }

    /// The tag of the template called `name`, if one is registered.
    pub fn template(&self, name: &String) -> (tag: Option<u32>)
        requires
            self.wf(),
        ensures
            match tag {
                Some(t) => t < self@.tables.len() && self@.tables[t as int].name == name@,
                None => !self@.has_name(name@),
            },
    {
        let mut t: usize = 0;
        while t < self.tables.len()
            invariant
                self.wf(),
                t <= self.tables.len(),
                forall|s: int| 0 <= s < t ==> (#[trigger] self@.tables[s]).name != name@,
            decreases self.tables.len() - t,
        {
            if self.tables[t].name == *name {
                return Some(t as u32);
            }
            t += 1;
        }
        None
    }

    /// Registers a template under `name` and returns its tag. A name can be
    /// registered once: a second registration is refused.
    pub fn register(&mut self, name: String) -> (result: Result<u32, Error>)
        requires
            old(self).wf(),
        ensures
            final(self).wf(),
            final(self)@.extends(old(self)@),
            match result {
                Ok(tag) => {
                    &&& !old(self)@.has_name(name@)
                    &&& old(self)@.tables.len() < u32::MAX
                    &&& tag == old(self)@.tables.len()
                    &&& final(self)@ == old(self)@.with_table(name@)
                },
                Err(e) => {
                    &&& e == Error::InvariantViolation
                    &&& old(self)@.has_name(name@) || old(self)@.tables.len() == u32::MAX
                    &&& final(self)@ == old(self)@
                },
            },
    {
        if self.tables.len() >= u32::MAX as usize {
            return Err(Error::InvariantViolation);
        }
        if self.template(&name).is_some() {
            return Err(Error::InvariantViolation);
        }
        let tag = self.tables.len() as u32;
        self.tables.push(Table { name, slots: Vec::new() });
        assert(self@.tables[tag as int].slots =~= Seq::empty());
        assert(self@.tables =~= old(self)@.with_table(name@).tables);
        Ok(tag)
    }

    /// A store with one empty table for each of `names`, in that order: the
    /// template named first gets the tag 0. The names have to differ from
    /// each other, and there can be no more of them than there are tags.
    pub fn with_templates(names: &Vec<String>) -> (result: Result<Storage, Error>)
        ensures
            match result {
                Ok(storage) => {
                    &&& storage.wf()
                    &&& distinct_names(names@)
                    &&& storage@.authorizers.len() == 0
                    &&& storage@.tables.len() == names@.len()
                    &&& forall|t: int|
                        0 <= t < names@.len() ==> #[trigger] storage@.tables[t] == (TableView {
                            name: names@[t]@,
                            slots: Seq::empty(),
                        })
                },
                Err(e) => {
                    &&& e == Error::InvariantViolation
                    &&& !distinct_names(names@) || names@.len() > u32::MAX
                },
            },
    {
        let mut storage = Storage::new();
        let mut i: usize = 0;
        while i < names.len()
            invariant
                i <= names.len(),
                storage.wf(),
                storage@.authorizers.len() == 0,
                storage@.tables.len() == i,
                forall|t: int|
                    0 <= t < i ==> #[trigger] storage@.tables[t] == (TableView {
                        name: names@[t]@,
                        slots: Seq::empty(),
                    }),
                forall|s: int, t: int| 0 <= s < t < i ==> (#[trigger] names@[s])@ != (#[trigger] names@[t])@,
            decreases names.len() - i,
        {
            let ghost before = storage@;
            match storage.register(names[i].clone()) {
                Ok(_) => {
                    proof {
                        assert forall|s: int| 0 <= s < i implies (#[trigger] names@[s])@
                            != names@[i as int]@ by {
                            assert(before.tables[s].name == names@[s]@);
                        }
                    }
                },
                Err(e) => {
                    return Err(e);
                },
            }
            i += 1;
        }
        Ok(storage)
    }

    /// How many identifiers the template `template` has issued; 0 for a
    /// template that is not registered.
    pub fn issued_count(&self, template: u32) -> (count: usize)
        ensures
            count == if template < self@.tables.len() {
                self@.tables[template as int].slots.len()
            } else {
                0
            },
    {
        if (template as usize) < self.tables.len() {
            self.tables[template as usize].slots.len()
        } else {
            0
        }
    }

    /// Issues the next identifier of `template`. Identifiers of one template
    /// count up from 0, and each template counts for itself. Nothing is
    /// stored under the new identifier yet.
    pub fn allocate(&mut self, template: u32) -> (result: Result<u32, Error>)
        requires
            old(self).wf(),
        ensures
            final(self).wf(),
            final(self)@.extends(old(self)@),
            match result {
                Ok(id) => {
                    &&& template < old(self)@.tables.len()
                    &&& old(self)@.tables[template as int].slots.len() < u32::MAX
                    &&& id == old(self)@.tables[template as int].slots.len()
                    &&& final(self)@ == old(self)@.with_next(template, None)
                },
                Err(e) => {
                    &&& e == Error::InvariantViolation
                    &&& template >= old(self)@.tables.len() || old(self)@.tables[template as int].slots.len()
                        == u32::MAX
                    &&& final(self)@ == old(self)@
                },
            },
    {
        let t = template as usize;
        if t >= self.tables.len() {
            return Err(Error::InvariantViolation);
        }
        if self.tables[t].slots.len() >= u32::MAX as usize {
            return Err(Error::InvariantViolation);
        }
        let id = self.tables[t].slots.len() as u32;
        self.tables[t].slots.push(None);
        proof {
            let after = old(self)@.with_next(template, None);
            assert(self@.tables[t as int].slots =~= after.tables[t as int].slots);
            assert(self@.tables =~= after.tables);
        }
        Ok(id)
    }

    /// Stores `state` under an identifier that was issued and holds nothing
    /// yet. A stored state is never replaced: an identifier that holds a
    /// contract is refused, and so is one that was never issued.
    pub fn put(&mut self, id: ContractId, state: ContractState, archived: bool) -> (result: Result<
        (),
        Error,
    >)
        requires
            old(self).wf(),
        ensures
            final(self).wf(),
            final(self)@.extends(old(self)@),
            match result {
                Ok(()) => {
                    &&& old(self)@.issued(id)
                    &&& old(self)@.record(id) is None
                    &&& final(self)@ == old(self)@.with_slot(
                        id,
                        Some(RecordView { state: state@, archived }),
                    )
                },
                Err(e) => {
                    &&& e == Error::InvariantViolation
                    &&& !old(self)@.issued(id) || old(self)@.record(id) is Some
                    &&& final(self)@ == old(self)@
                },
            },
    {
        let t = id.template as usize;
        let i = id.id as usize;
        if t >= self.tables.len() {
            return Err(Error::InvariantViolation);
        }
        if i >= self.tables[t].slots.len() {
            return Err(Error::InvariantViolation);
        }
        if self.tables[t].slots[i].is_some() {
            return Err(Error::InvariantViolation);
        }
        self.tables[t].slots[i] = Some(Record { state, archived });
        proof {
            let after = old(self)@.with_slot(id, Some(RecordView { state: state@, archived }));
            assert(self@.tables[t as int].slots =~= after.tables[t as int].slots);
            assert(self@.tables =~= after.tables);
        }
        Ok(())
    }

    /// What is stored under `id`: the state and the archived flag.
    pub fn get(&self, id: ContractId) -> (found: Option<(&ContractState, bool)>)
        ensures
            match found {
                Some((state, archived)) => self@.record(id) == Some(
                    RecordView { state: state@, archived },
                ),
                None => self@.record(id) is None,
            },
    {
        let t = id.template as usize;
        let i = id.id as usize;
        if t >= self.tables.len() {
            return None;
        }
        if i >= self.tables[t].slots.len() {
            return None;
        }
        match &self.tables[t].slots[i] {
            Some(record) => Some((&record.state, record.archived)),
            None => None,
        }
    }

    /// Marks the contract under `id` as archived. The stored state stays as
    /// it is, and an archived contract stays archived.
    pub fn archive(&mut self, id: ContractId) -> (result: Result<(), Error>)
        requires
            old(self).wf(),
        ensures
            final(self).wf(),
            final(self)@.extends(old(self)@),
            match result {
                Ok(()) => {
                    &&& old(self)@.record(id) is Some
                    &&& final(self)@ == old(self)@.with_archived(id)
                },
                Err(e) => {
                    &&& e == Error::NotFound
                    &&& old(self)@.record(id) is None
                    &&& final(self)@ == old(self)@
                },
            },
    {
        let t = id.template as usize;
        let i = id.id as usize;
        if t >= self.tables.len() {
            return Err(Error::NotFound);
        }
        if i >= self.tables[t].slots.len() {
            return Err(Error::NotFound);
        }
        if self.tables[t].slots[i].is_none() {
            return Err(Error::NotFound);
        }
        match &mut self.tables[t].slots[i] {
            Some(record) => {
                record.archived = true;
            },
            None => {},
        }
        proof {
            let after = old(self)@.with_archived(id);
            assert(self@.tables[t as int].slots =~= after.tables[t as int].slots);
            assert(self@.tables =~= after.tables);
        }
        Ok(())
    }

    /// Whether the running context may act for every party of `parties`.
    /// While no authorizer is declared, each party has to be the caller. Once
    /// authorizers are declared, each party has to be one of them, and the
    /// caller counts for nothing more. The list is read as a set: the order
    /// of the parties and a party named twice make no difference.
    pub fn is_authorized(&self, parties: &Vec<Address>, caller: &Address) -> (allowed: bool)
        ensures
            allowed == authorized(self@.authorizers, caller@, names(parties@)),
    {
        let delegated = self.authorizers.len() > 0;
        let mut i: usize = 0;
        while i < parties.len()
            invariant
                i <= parties.len(),
                delegated == (self@.authorizers.len() > 0),
                forall|j: int|
                    0 <= j < i ==> effective_authorizers(self@.authorizers, caller@).contains(
                        #[trigger] names(parties@)[j],
                    ),
            decreases parties.len() - i,
        {
            let allowed = if delegated {
                contains_address(&self.authorizers, &parties[i])
            } else {
                parties[i].same_as(caller)
            };
            assert(names(parties@)[i as int] == parties@[i as int]@);
            proof {
                if !delegated {
                    let only = seq![caller@];
                    assert(only[0] == caller@);
                }
            }
            if !allowed {
                return false;
            }
            i += 1;
        }
        true
    }

    /// Opens a delegated scope: the guard remembers the authorizers declared
    /// so far.
    pub fn acquire_authorizers_guard(&self) -> (guard: AuthorizersGuard)
        ensures
            guard.base() == self@.authorizers.len(),
    {
        AuthorizersGuard { len: self.authorizers.len() }
    }

    /// Declares that the running call chain acts for `party`.
    pub fn authorize(&mut self, party: Address)
        ensures
            final(self)@.extends(old(self)@),
            final(self)@.tables == old(self)@.tables,
            final(self)@.authorizers == old(self)@.authorizers.push(party@),
    {
        self.authorizers.push(party);
    }

    /// Closes the scope that `guard` opened: the authorizers declared since
    /// then are dropped, whatever happened in between.
    pub fn release_authorizers_guard(&mut self, guard: AuthorizersGuard)
        ensures
            final(self)@.extends(old(self)@),
            final(self)@.tables == old(self)@.tables,
            final(self)@.authorizers == if guard.base() <= old(self)@.authorizers.len() {
                old(self)@.authorizers.take(guard.base() as int)
            } else {
                old(self)@.authorizers
            },
    {
        self.authorizers.truncate(guard.len);
    }

    /// Creates a contract of `template` with the given state. The new
    /// contract is active and gets the next identifier of its template.
    pub fn create(&mut self, template: u32, state: ContractState) -> (result: Result<
        ContractId,
        Error,
    >)
        requires
            old(self).wf(),
        ensures
            final(self).wf(),
            final(self)@.extends(old(self)@),
            match result {
                Ok(id) => {
                    &&& old(self)@.can_create(template)
                    &&& id == old(self)@.next_id(template)
                    &&& final(self)@ == old(self)@.with_created(template, state@)
                    &&& final(self)@.active(id)
                },
                Err(e) => {
                    &&& e == Error::InvariantViolation
                    &&& !old(self)@.can_create(template)
                    &&& final(self)@ == old(self)@
                },
            },
    {
        let t = template as usize;
        if t >= self.tables.len() {
            return Err(Error::InvariantViolation);
        }
        if self.tables[t].slots.len() >= u32::MAX as usize {
            return Err(Error::InvariantViolation);
        }
        let id = ContractId { template, id: self.tables[t].slots.len() as u32 };
        let ghost record = RecordView { state: state@, archived: false };
        self.tables[t].slots.push(Some(Record { state, archived: false }));
        proof {
            let after = old(self)@.with_next(template, Some(record));
            assert(self@.tables[t as int].slots =~= after.tables[t as int].slots);
            assert(self@.tables =~= after.tables);
        }
        Ok(id)
    }

    /// Reads the state of an active contract. Nobody's authorization is
    /// asked for, and nothing is archived.
    pub fn fetch(&self, id: ContractId) -> (result: Result<&ContractState, Error>)
        ensures
            match result {
                Ok(state) => self@.active(id) && state@ == self@.record(id)->0.state,
                Err(e) => e == Error::NotFound && !self@.active(id),
            },
    {
        match self.get(id) {
            Some((state, archived)) => {
                if archived {
                    Err(Error::NotFound)
                } else {
                    Ok(state)
                }
            },
            None => Err(Error::NotFound),
        }
    }

    /// Exercises a choice on the contract under `id`, for a caller and the
    /// parties `controllers` that the choice belongs to.
    ///
    /// The contract has to be active, and the context has to be authorized
    /// for its signers and for the controllers. Then the state is handed out
    /// for the body of the choice to work on, and a consuming choice archives
    /// the contract. A refused exercise changes nothing.
    pub fn exercise(
        &mut self,
        id: ContractId,
        controllers: &Vec<Address>,
        caller: &Address,
        consuming: bool,
    ) -> (result: Result<ContractState, Error>)
        requires
            old(self).wf(),
        ensures
            final(self).wf(),
            final(self)@.extends(old(self)@),
            match old(self)@.refusal(id, names(controllers@), caller@) {
                Some(e) => result == Err::<ContractState, Error>(e) && final(self)@ == old(self)@,
                None => {
                    &&& result matches Ok(state)
                    &&& state@ == old(self)@.record(id)->0.state
                    &&& final(self)@ == old(self)@.after_exercise(id, consuming)
                },
            },
    {
        let state = match self.fetch(id) {
            Ok(state) => state.clone(),
            Err(e) => {
                return Err(e);
            },
        };
        let signed = self.is_authorized(&state.signers, caller);
        let controlled = self.is_authorized(controllers, caller);
        proof {
            lemma_authorized_concat(
                self@.authorizers,
                caller@,
                state@.signers,
                names(controllers@),
            );
        }
        if !(signed && controlled) {
            return Err(Error::Unauthorized);
        }
        if consuming {
            match self.archive(id) {
                Ok(()) => {},
                Err(e) => {
                    return Err(e);
                },
            }
        }
        Ok(state)
    }
}

impl Storage {
    /// Takes back the archival of the contract under `id`. Only the rollback
    /// of an abandoned transaction does this.
    pub(crate) fn reinstate(&mut self, id: ContractId)
        requires
            old(self)@.record(id) is Some,
        ensures
            final(self)@ == old(self)@.with_slot(
                id,
                Some(RecordView { state: old(self)@.record(id)->0.state, archived: false }),
            ),
    {
        let t = id.template as usize;
        let i = id.id as usize;
        match &mut self.tables[t].slots[i] {
            Some(record) => {
                record.archived = false;
            },
            None => {},
        }
        proof {
            let after = old(self)@.with_slot(
                id,
                Some(RecordView { state: old(self)@.record(id)->0.state, archived: false }),
            );
            assert(self@.tables[t as int].slots =~= after.tables[t as int].slots);
            assert(self@.tables =~= after.tables);
        }
    }

    /// Forgets the identifiers of `template` from `len` on. Only the rollback
    /// of an abandoned transaction does this.
    pub(crate) fn shorten(&mut self, template: u32, len: usize)
        requires
            template < old(self)@.tables.len(),
            len <= old(self)@.tables[template as int].slots.len(),
        ensures
            final(self)@ == old(self)@.cut(template, len as nat),
    {
        let t = template as usize;
        self.tables[t].slots.truncate(len);
        proof {
            let after = old(self)@.cut(template, len as nat);
            assert(self@.tables[t as int].slots =~= after.tables[t as int].slots);
            assert(self@.tables =~= after.tables);
        }
    }

    /// Puts `list` in the place of the declared authorizers.
    pub(crate) fn set_authorizers(&mut self, list: Vec<Address>)
        ensures
            final(self)@.tables == old(self)@.tables,
            final(self)@.authorizers == names(list@),
    {
        self.authorizers = list;
    }

    /// A copy of the declared authorizers.
    pub fn authorizers(&self) -> (list: Vec<Address>)
        ensures
            names(list@) == self@.authorizers,
    {
        crate::address::clone_addresses(&self.authorizers)
    }
}

impl AuthorizersGuard {
    /// The number of authorizers that were declared when the scope opened.
    pub closed spec fn base(&self) -> nat {
        self.len as nat
    }
}

/// A context is authorized for two lists of parties together exactly when it
/// is authorized for each.
pub proof fn lemma_authorized_concat(
    authorizers: Seq<Seq<char>>,
    caller: Seq<char>,
    first: Seq<Seq<char>>,
    second: Seq<Seq<char>>,
)
    ensures
        authorized(authorizers, caller, first + second) == (authorized(authorizers, caller, first)
            && authorized(authorizers, caller, second)),
{
    let both = first + second;
    let allowed = effective_authorizers(authorizers, caller);
    if authorized(authorizers, caller, both) {
        assert forall|i: int| 0 <= i < first.len() implies allowed.contains(
            #[trigger] first[i],
        ) by {
            assert(both[i] == first[i]);
        }
        assert forall|i: int| 0 <= i < second.len() implies allowed.contains(
            #[trigger] second[i],
        ) by {
            assert(both[i + first.len()] == second[i]);
        }
    }
}

/// Nothing came between a store and itself.
pub proof fn lemma_extends_reflexive(store: StorageView)
    ensures
        store.extends(store),
{
}

/// What came from a store that came from another came from the other.
pub proof fn lemma_extends_transitive(first: StorageView, second: StorageView, third: StorageView)
    requires
        second.extends(first),
        third.extends(second),
    ensures
        third.extends(first),
{
    assert forall|id: ContractId| #[trigger] first.record(id) is Some implies {
        &&& third.record(id) is Some
        &&& third.record(id)->0.state == first.record(id)->0.state
        &&& first.record(id)->0.archived ==> third.record(id)->0.archived
    } by {}
}

/// Archival is permanent: a contract that is archived in a store is archived
/// in every store that comes from it, with the state it had, and no choice
/// on it goes through there.
pub proof fn lemma_archived_forever(
    earlier: StorageView,
    later: StorageView,
    id: ContractId,
    controllers: Seq<Seq<char>>,
    caller: Seq<char>,
)
    requires
        later.extends(earlier),
        earlier.archived(id),
    ensures
        later.archived(id),
        !later.active(id),
        later.record(id)->0.state == earlier.record(id)->0.state,
        later.refusal(id, controllers, caller) == Some(Error::NotFound),
{
}

/// Archival is permanent over any series of stores of which each came from
/// the one before: what is archived at one point of the series is archived,
/// with the same state, at every later point, and no choice on it goes
/// through there.
pub proof fn lemma_archived_through(
    stores: Seq<StorageView>,
    from: int,
    to: int,
    id: ContractId,
    controllers: Seq<Seq<char>>,
    caller: Seq<char>,
)
    requires
        forall|k: int| 0 <= k < stores.len() - 1 ==> (#[trigger] stores[k + 1]).extends(stores[k]),
        0 <= from <= to < stores.len(),
        stores[from].archived(id),
    ensures
        stores[to].archived(id),
        stores[to].record(id)->0.state == stores[from].record(id)->0.state,
        stores[to].refusal(id, controllers, caller) == Some(Error::NotFound),
    decreases to - from,
{
    if from < to {
        lemma_archived_through(stores, from, to - 1, id, controllers, caller);
        assert(stores[to - 1 + 1].extends(stores[to - 1]));
        lemma_archived_forever(stores[to - 1], stores[to], id, controllers, caller);
    }
}

/// An identifier is issued once: the identifier that the next contract of a
/// template gets is none that the template has issued.
pub proof fn lemma_fresh_identifier(store: StorageView, id: ContractId)
    requires
        store.wf(),
        store.issued(id),
    ensures
        store.next_id(id.template) != id,
{
}

/// A choice goes through only where the parties that the context may act for
/// include every signer of the contract and every controller of the choice.
pub proof fn lemma_exercise_needs_authority(
    store: StorageView,
    id: ContractId,
    controllers: Seq<Seq<char>>,
    caller: Seq<char>,
)
    requires
        store.refusal(id, controllers, caller) is None,
    ensures
        store.active(id),
        covered_by(store.record(id)->0.state.signers, effective_authorizers(store.authorizers, caller)),
        covered_by(controllers, effective_authorizers(store.authorizers, caller)),
{
    lemma_authorized_concat(store.authorizers, caller, store.record(id)->0.state.signers, controllers);
}

/// Closing a delegated scope gives back the authorizers as they were when it
/// was opened, whatever was declared inside it.
pub proof fn lemma_guard_restores(at_open: Seq<Seq<char>>, declared: Seq<Seq<char>>)
    ensures
        (at_open + declared).take(at_open.len() as int) == at_open,
{
}

} // verus!
