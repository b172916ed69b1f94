use vstd::prelude::*;
use crate::error::Error;

verus! {

/// A topic: the 32 bytes under which the host indexes an event.
pub type Hash = [u8; 32];

struct EventStruct {
    name: String,
    indexed: Vec<bool>,
}

/// The declaration of one event: its name, and for each field in order
/// whether the field is indexed.
pub struct EventStructView {
    pub name: Seq<char>,
    pub indexed: Seq<bool>,
}

/// The events that a contract declares.
pub struct EventStructs {
    structs: Vec<EventStruct>,
}

/// The value of one field of an event that is emitted: its encoding, and the
/// topic that stands for it where the field is indexed.
#[derive(Debug, PartialEq, Eq)]
pub struct Field {
    pub encoded: Vec<u8>,
    pub topic: Hash,
}

/// What a field carries.
pub struct FieldView {
    pub encoded: Seq<u8>,
    pub topic: Hash,
}

impl View for Field {
    type V = FieldView;

    open spec fn view(&self) -> FieldView {
        FieldView { encoded: self.encoded@, topic: self.topic }
    }
}

/// One emitted event, as the host logs it.
#[derive(Debug, PartialEq, Eq)]
pub struct LogEntry {
    pub data: Vec<u8>,
    pub topics: Vec<Hash>,
}

/// What a log entry holds.
pub struct LogEntryView {
    pub data: Seq<u8>,
    pub topics: Seq<Hash>,
}

impl View for LogEntry {
    type V = LogEntryView;

    open spec fn view(&self) -> LogEntryView {
        LogEntryView { data: self.data@, topics: self.topics@ }
    }
}

/// The events that one execution has emitted, in order.
pub struct Events {
    log: Vec<LogEntry>,
}

spec fn struct_view(declared: EventStruct) -> EventStructView {
    EventStructView { name: declared.name@, indexed: declared.indexed@ }
}

impl View for EventStructs {
    type V = Seq<EventStructView>;

    closed spec fn view(&self) -> Seq<EventStructView> {
        Seq::new(self.structs@.len(), |i: int| struct_view(self.structs@[i]))
    }
}

impl View for Events {
    type V = Seq<LogEntryView>;

    closed spec fn view(&self) -> Seq<LogEntryView> {
        Seq::new(self.log@.len(), |i: int| self.log@[i]@)
    }
}

/// The views of a list of fields, in order.
pub open spec fn field_views(fields: Seq<Field>) -> Seq<FieldView> {
    Seq::new(fields.len(), |i: int| fields[i]@)
}

/// The data of an event, from its first `n` fields: the encodings of the
/// fields that are not indexed, one after the other. An indexed field is
/// left out of the data.
pub open spec fn data_of(fields: Seq<FieldView>, indexed: Seq<bool>, n: nat) -> Seq<u8>
    decreases n,
{
    if n == 0 {
        Seq::empty()
    } else if indexed[n - 1] {
        data_of(fields, indexed, (n - 1) as nat)
    } else {
        data_of(fields, indexed, (n - 1) as nat) + fields[n - 1].encoded
    }
}

/// The topics of the first `n` fields of an event: those of its indexed
/// fields, in the order of the fields.
pub open spec fn field_topics(fields: Seq<FieldView>, indexed: Seq<bool>, n: nat) -> Seq<Hash>
    decreases n,
{
    if n == 0 {
        Seq::empty()
    } else if indexed[n - 1] {
        field_topics(fields, indexed, (n - 1) as nat).push(fields[n - 1].topic)
    } else {
        field_topics(fields, indexed, (n - 1) as nat)
    }
}

/// The entry that the host logs for an event: the topic of the event's
/// signature comes first, then the topics of the indexed fields.
pub open spec fn entry_of(signature: Hash, fields: Seq<FieldView>, indexed: Seq<bool>) -> LogEntryView {
    LogEntryView {
        data: data_of(fields, indexed, fields.len()),
        topics: seq![signature] + field_topics(fields, indexed, fields.len()),
    }
}

/// Whether an event of this name is among `declared`.
pub open spec fn declares(declared: Seq<EventStructView>, name: Seq<char>) -> bool {
    exists|i: int| 0 <= i < declared.len() && (#[trigger] declared[i]).name == name
}

impl EventStructs {
    /// No two declared events share a name, and their number fits a tag.
    pub open spec fn wf(&self) -> bool {
        &&& self@.len() <= u32::MAX
        &&& forall|i: int, j: int|
            0 <= i < j < self@.len() ==> (#[trigger] self@[i]).name != (#[trigger] self@[j]).name
    }

    /// A contract that declares no event.
    pub fn new() -> (structs: EventStructs)
        ensures
            structs.wf(),
            structs@.len() == 0,
    {
        EventStructs { structs: Vec::new() }
    }

    /// The number of declared events.
    pub fn len(&self) -> (count: usize)
        ensures
            count == self@.len(),
    {
        self.structs.len()
    }

    /// The tag of the event called `name`, if it is declared.
    pub fn find(&self, name: &String) -> (tag: Option<u32>)
        requires
            self.wf(),
        ensures
            match tag {
                Some(t) => t < self@.len() && self@[t as int].name == name@,
                None => !declares(self@, name@),
            },
    {
        let mut i: usize = 0;
        while i < self.structs.len()
            invariant
                self.wf(),
                i <= self.structs.len(),
                forall|j: int| 0 <= j < i ==> (#[trigger] self@[j]).name != name@,
            decreases self.structs.len() - i,
        {
            if self.structs[i].name == *name {
                return Some(i as u32);
            }
            i += 1;
        }
        None
    }

    /// Declares an event with the given name; `indexed` says of each field,
    /// in order, whether it is indexed. The event gets the next tag. A name
    /// can be declared once.
    pub fn declare(&mut self, name: String, indexed: Vec<bool>) -> (result: Result<u32, Error>)
        requires
            old(self).wf(),
        ensures
            final(self).wf(),
            match result {
                Ok(tag) => {
                    &&& !declares(old(self)@, name@)
                    &&& old(self)@.len() < u32::MAX
                    &&& tag == old(self)@.len()
                    &&& final(self)@ == old(self)@.push(
                        EventStructView { name: name@, indexed: indexed@ },
                    )
                },
                Err(e) => {
                    &&& e == Error::InvariantViolation
                    &&& declares(old(self)@, name@) || old(self)@.len() == u32::MAX
                    &&& final(self)@ == old(self)@
                },
            },
    {
        if self.structs.len() >= u32::MAX as usize {
            return Err(Error::InvariantViolation);
        }
        if self.find(&name).is_some() {
            return Err(Error::InvariantViolation);
        }
        let tag = self.structs.len() as u32;
        self.structs.push(EventStruct { name, indexed });
        assert(self@ =~= old(self)@.push(EventStructView { name: name@, indexed: indexed@ }));
        Ok(tag)
    }

    /// Makes the log entry of an event from the values of its fields and the
    /// topic of its signature. The event has to be declared, with as many
    /// fields as are given.
    pub fn entry(&self, event: u32, signature: Hash, fields: &Vec<Field>) -> (result: Result<
        LogEntry,
        Error,
    >)
        ensures
            match result {
                Ok(entry) => {
                    &&& event < self@.len()
                    &&& self@[event as int].indexed.len() == fields@.len()
                    &&& entry@ == entry_of(
                        signature,
                        field_views(fields@),
                        self@[event as int].indexed,
                    )
                },
                Err(e) => {
                    &&& e == Error::InvariantViolation
                    &&& event >= self@.len() || self@[event as int].indexed.len() != fields@.len()
                },
            },
    {
        let at = event as usize;
        if at >= self.structs.len() {
            return Err(Error::InvariantViolation);
        }
        let indexed = &self.structs[at].indexed;
        if indexed.len() != fields.len() {
            return Err(Error::InvariantViolation);
        }
        let ghost views = field_views(fields@);
        let mut data: Vec<u8> = Vec::new();
        let mut topics: Vec<Hash> = Vec::new();
        topics.push(signature);
        let mut i: usize = 0;
        while i < fields.len()
            invariant
                i <= fields.len(),
                indexed@.len() == fields@.len(),
                views == field_views(fields@),
                data@ == data_of(views, indexed@, i as nat),
                topics@ == seq![signature] + field_topics(views, indexed@, i as nat),
            decreases fields.len() - i,
        {
            if indexed[i] {
                topics.push(fields[i].topic);
            } else {
                let encoded = &fields[i].encoded;
                let mut k: usize = 0;
                while k < encoded.len()
                    invariant
                        k <= encoded.len(),
                        i < fields.len(),
                        encoded@ == views[i as int].encoded,
                        data@ == data_of(views, indexed@, i as nat) + encoded@.take(k as int),
                    decreases encoded.len() - k,
                {
                    data.push(encoded[k]);
                    k += 1;
                }
            }
            i += 1;
        }
        Ok(LogEntry { data, topics })
    }
}

impl Events {
    /// A log without entries.
    pub fn new() -> (events: Events)
        ensures
            events@.len() == 0,
    {
        Events { log: Vec::new() }
    }

    /// The number of events emitted so far.
    pub fn len(&self) -> (count: usize)
        ensures
            count == self@.len(),
    {
        self.log.len()
    }

    /// The event that was emitted as the `index`-th, counting from 0.
    pub fn get(&self, index: usize) -> (entry: Option<&LogEntry>)
        ensures
            match entry {
                Some(found) => index < self@.len() && found@ == self@[index as int],
                None => index >= self@.len(),
            },
    {
        if index < self.log.len() {
            Some(&self.log[index])
        } else {
            None
        }
    }

    /// Emits an event: its entry is added to the end of the log. An event
    /// that is not declared, or that is given with another number of fields
    /// than it declares, is refused and leaves the log as it was.
    pub fn emit(&mut self, structs: &EventStructs, event: u32, signature: Hash, fields: &Vec<Field>) -> (result:
        Result<(), Error>)
        ensures
            if event < structs@.len() && structs@[event as int].indexed.len() == fields@.len() {
                &&& result == Ok::<(), Error>(())
                &&& final(self)@ == old(self)@.push(
                    entry_of(signature, field_views(fields@), structs@[event as int].indexed),
                )
            } else {
                &&& result == Err::<(), Error>(Error::InvariantViolation)
                &&& final(self)@ == old(self)@
            },
    {
        match structs.entry(event, signature, fields) {
            Ok(entry) => {
                self.log.push(entry);
                Ok(())
            },
            Err(e) => Err(e),
        }
    }
}

} // verus!
