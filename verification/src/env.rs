use vstd::prelude::*;
use vstd::utf8::{decode_utf8, valid_utf8};
use crate::address::Address;

verus! {

/// How many bytes the buffer of an environment holds at most.
pub const CAPACITY: usize = 16384;

/// Why the environment could not do what was asked.
#[derive(Clone, Copy, Debug, PartialEq, Eq, Structural)]
pub enum EnvError {
    /// The call data is too short to hold a selector.
    UnableToReadCallData,
    /// The call to a foreign contract was refused by the host.
    FailToCallForeignContract,
    /// The host holds nothing under the key.
    UnableToReadFromStorage,
}

/// How the contract was entered.
#[derive(Clone, Copy, Debug, PartialEq, Eq, Structural)]
pub enum CallMode {
    /// The contract is being deployed: the call data are the arguments of
    /// the constructor.
    Deploy,
    /// A method of the contract is called: the call data begin with the
    /// selector of the method.
    Call,
}

/// The data of a call: the selector of the method, and its arguments still
/// encoded.
#[derive(Debug, PartialEq, Eq)]
pub struct CallData {
    pub selector: [u8; 4],
    pub data: Vec<u8>,
}

/// The environment of a contract that runs on a chain. It keeps the buffer
/// through which every value passes between the contract and the host. The
/// host calls themselves are made by the caller of these functions, who hands
/// in what the host gave.
pub struct EnvInstance {
    buffer: Vec<u8>,
}

impl View for EnvInstance {
    type V = Seq<u8>;

    closed spec fn view(&self) -> Seq<u8> {
        self.buffer@
    }
}

/// The text that `String::from_utf8_lossy` makes of `bytes`.
pub uninterp spec fn utf8_lossy(bytes: Seq<u8>) -> Seq<char>;

/// The number that eight bytes stand for, the least significant byte first.
pub open spec fn le_u64(bytes: Seq<u8>) -> nat
    recommends
        bytes.len() == 8,
{
    (bytes[0] as nat) + (bytes[1] as nat) * 0x100 + (bytes[2] as nat) * 0x1_0000 + (bytes[3] as nat)
        * 0x100_0000 + (bytes[4] as nat) * 0x1_0000_0000 + (bytes[5] as nat) * 0x100_0000_0000
        + (bytes[6] as nat) * 0x1_0000_0000_0000 + (bytes[7] as nat) * 0x100_0000_0000_0000
}

/// The numbers that `bytes` stand for, eight bytes each.
pub open spec fn le_u64s(bytes: Seq<u8>) -> Seq<nat>
    recommends
        bytes.len() % 8 == 0,
{
    Seq::new((bytes.len() / 8) as nat, |i: int| le_u64(bytes.subrange(8 * i, 8 * i + 8)))
}

/// Calls `String::from_utf8_lossy` and takes the text as a `String`. For
/// bytes that are UTF-8 the text is what they encode; for other bytes std
/// puts a replacement character in the place of each ill-formed part.
#[verifier::external_body]
fn string_from_utf8_lossy(bytes: &[u8]) -> (text: String)
    ensures
        text@ == utf8_lossy(bytes@),
        valid_utf8(bytes@) ==> text@ == decode_utf8(bytes@),
{
    String::from_utf8_lossy(bytes).into_owned()
}

/// Calls `String::from_utf8`: the text that the bytes encode, and nothing
/// where they are not UTF-8.
#[verifier::external_body]
fn string_from_utf8(bytes: Vec<u8>) -> (text: Option<String>)
    ensures
        match text {
            Some(s) => valid_utf8(bytes@) && s@ == decode_utf8(bytes@),
            None => !valid_utf8(bytes@),
        },
{
    String::from_utf8(bytes).ok()
}

/// A copy of `bytes`.
pub fn copy_of(bytes: &[u8]) -> (copy: Vec<u8>)
    ensures
        copy@ == bytes@,
{
    let mut copy: Vec<u8> = Vec::new();
    let mut i: usize = 0;
    while i < bytes.len()
        invariant
            i <= bytes.len(),
            copy@ == bytes@.take(i as int),
        decreases bytes.len() - i,
    {
        copy.push(bytes[i]);
        i += 1;
    }
    copy
}

/// Reads the number that the eight bytes from `start` on stand for.
fn read_le_u64(bytes: &[u8], start: usize) -> (value: u64)
    requires
        start + 8 <= bytes.len(),
    ensures
        value == le_u64(bytes@.subrange(start as int, start + 8)),
{
    (bytes[start] as u64) + (bytes[start + 1] as u64) * 0x100 + (bytes[start + 2] as u64) * 0x1_0000
        + (bytes[start + 3] as u64) * 0x100_0000 + (bytes[start + 4] as u64) * 0x1_0000_0000 + (
    bytes[start + 5] as u64) * 0x100_0000_0000 + (bytes[start + 6] as u64) * 0x1_0000_0000_0000 + (
    bytes[start + 7] as u64) * 0x100_0000_0000_0000
}

impl EnvInstance {
    /// Whether the buffer is within its capacity.
    pub open spec fn wf(&self) -> bool {
        self@.len() <= CAPACITY
    }

    /// An environment with an empty buffer.
    pub fn new() -> (env: EnvInstance)
        ensures
            env.wf(),
            env@.len() == 0,
    {
        EnvInstance { buffer: Vec::new() }
    }

    /// Empties the buffer.
    pub fn reset_buffer(&mut self)
        ensures
            final(self)@ == Seq::<u8>::empty(),
            final(self).wf(),
    {
        self.buffer.clear();
    }

    /// How many bytes the buffer holds.
    pub fn buffer_len(&self) -> (len: usize)
        ensures
            len == self@.len(),
    {
        self.buffer.len()
    }

    fn fill(&mut self, bytes: &[u8])
        ensures
            final(self)@ == bytes@,
    {
        self.buffer = copy_of(bytes);
    }

    /// Puts an encoded value into the buffer, in the place of what the
    /// buffer held.
    pub fn encode_into_buffer_scale(&mut self, encoded: &[u8])
        requires
            encoded@.len() <= CAPACITY,
        ensures
            final(self)@ == encoded@,
            final(self).wf(),
    {
        self.reset_buffer();
        self.fill(encoded);
    }

    /// The bytes in the buffer, for decoding.
    pub fn decode_from_buffer_scale(&self) -> (encoded: Vec<u8>)
        ensures
            encoded@ == self@,
    {
        copy_of(self.buffer.as_slice())
    }

    /// Takes what the host found under a key. What was found passes through
    /// the buffer and is handed out for decoding; where the host found
    /// nothing, its error is handed on and the buffer stays as it was.
    pub fn get_storage(&mut self, fetched: Result<&[u8], EnvError>) -> (result: Result<
        Vec<u8>,
        EnvError,
    >)
        requires
            old(self).wf(),
            fetched matches Ok(bytes) ==> bytes@.len() <= CAPACITY,
        ensures
            final(self).wf(),
            match fetched {
                Ok(bytes) => {
                    &&& result matches Ok(value)
                    &&& value@ == bytes@
                    &&& final(self)@ == bytes@
                },
                Err(e) => result == Err::<Vec<u8>, EnvError>(e) && final(self)@ == old(self)@,
            },
    {
        match fetched {
            Ok(bytes) => {
                self.fill(bytes);
                Ok(self.decode_from_buffer_scale())
            },
            Err(e) => Err(e),
        }
    }

    /// Splits the data of a call. A call of a method begins with the four
    /// bytes of the selector, and data too short for them are refused. A
    /// deployment has no selector: its selector is zero and all of the data
    /// are arguments.
    pub fn get_call_data(&mut self, mode: CallMode, call_data: Vec<u8>) -> (result: Result<
        CallData,
        EnvError,
    >)
        ensures
            final(self)@ == old(self)@,
            match result {
                Ok(parsed) => match mode {
                    CallMode::Call => {
                        &&& call_data@.len() >= 4
                        &&& parsed.selector@ == call_data@.take(4)
                        &&& parsed.data@ == call_data@.skip(4)
                    },
                    CallMode::Deploy => {
                        &&& parsed.selector@ == seq![0u8, 0u8, 0u8, 0u8]
                        &&& parsed.data@ == call_data@
                    },
                },
                Err(e) => {
                    &&& e == EnvError::UnableToReadCallData
                    &&& mode == CallMode::Call
                    &&& call_data@.len() < 4
                },
            },
    {
        match mode {
            CallMode::Call => {
                if call_data.len() < 4 {
                    return Err(EnvError::UnableToReadCallData);
                }
                let selector = [call_data[0], call_data[1], call_data[2], call_data[3]];
                let mut data: Vec<u8> = Vec::new();
                let mut i: usize = 4;
                while i < call_data.len()
                    invariant
                        4 <= i <= call_data.len(),
                        data@ == call_data@.subrange(4, i as int),
                    decreases call_data.len() - i,
                {
                    data.push(call_data[i]);
                    i += 1;
                }
                Ok(CallData { selector, data })
            },
            CallMode::Deploy => {
                let selector = [0u8, 0u8, 0u8, 0u8];
                Ok(CallData { selector, data: call_data })
            },
        }
    }

    /// Takes the outcome of a call to a foreign contract: the status that
    /// the host reported, whether the call returns nothing, and the data
    /// that came back.
    ///
    /// A status other than 0 means that the call failed. A call that returns
    /// nothing leaves the buffer empty. Data that fit pass through the
    /// buffer; longer data are handed out and leave the buffer as it was.
    pub fn call(&mut self, status: u32, unit: bool, return_data: &[u8]) -> (result: Result<
        Vec<u8>,
        EnvError,
    >)
        requires
            old(self).wf(),
        ensures
            final(self).wf(),
            if status != 0 {
                &&& result == Err::<Vec<u8>, EnvError>(EnvError::FailToCallForeignContract)
                &&& final(self)@ == old(self)@
            } else if unit {
                &&& result matches Ok(value)
                &&& value@.len() == 0
                &&& final(self)@.len() == 0
            } else {
                &&& result matches Ok(value)
                &&& value@ == return_data@
                &&& final(self)@ == if return_data@.len() <= CAPACITY {
                    return_data@
                } else {
                    old(self)@
                }
            },
    {
        if status != 0 {
            return Err(EnvError::FailToCallForeignContract);
        }
        if unit {
            self.reset_buffer();
            Ok(self.decode_from_buffer_scale())
        } else if return_data.len() <= CAPACITY {
            self.fill(return_data);
            Ok(self.decode_from_buffer_scale())
        } else {
            Ok(copy_of(return_data))
        }
    }

    fn address_from(&mut self, raw: &[u8]) -> (address: Address)
        requires
            raw@.len() <= CAPACITY,
        ensures
            final(self).wf(),
            final(self)@ == raw@,
            address@ == utf8_lossy(raw@),
            valid_utf8(raw@) ==> address@ == decode_utf8(raw@),
    {
        self.fill(raw);
        Address::new(string_from_utf8_lossy(self.buffer.as_slice()))
    }

    /// The caller, from the bytes in which the host names it.
    pub fn get_caller(&mut self, raw: &[u8]) -> (address: Address)
        requires
            raw@.len() <= CAPACITY,
        ensures
            final(self).wf(),
            final(self)@ == raw@,
            address@ == utf8_lossy(raw@),
            valid_utf8(raw@) ==> address@ == decode_utf8(raw@),
    {
        self.address_from(raw)
    }

    /// The origin of the transaction, from the bytes in which the host names
    /// it.
    pub fn get_tx_origin(&mut self, raw: &[u8]) -> (address: Address)
        requires
            raw@.len() <= CAPACITY,
        ensures
            final(self).wf(),
            final(self)@ == raw@,
            address@ == utf8_lossy(raw@),
            valid_utf8(raw@) ==> address@ == decode_utf8(raw@),
    {
        self.address_from(raw)
    }

    /// The contract's own address, from the bytes in which the host names
    /// it.
    pub fn get_address(&mut self, raw: &[u8]) -> (address: Address)
        requires
            raw@.len() <= CAPACITY,
        ensures
            final(self).wf(),
            final(self)@ == raw@,
            address@ == utf8_lossy(raw@),
            valid_utf8(raw@) ==> address@ == decode_utf8(raw@),
    {
        self.address_from(raw)
    }

    /// What a token points to, from the bytes that the host gave for it. No
    /// bytes mean that there is no such token: the text is empty and the
    /// buffer stays as it was. Bytes that are not UTF-8 give no text.
    pub fn get_not_fungible_asset_info(&mut self, raw: &[u8]) -> (text: Option<String>)
        requires
            old(self).wf(),
            raw@.len() <= CAPACITY,
        ensures
            final(self).wf(),
            final(self)@ == if raw@.len() == 0 {
                old(self)@
            } else {
                raw@
            },
            match text {
                Some(uri) => {
                    &&& raw@.len() == 0 || valid_utf8(raw@)
                    &&& uri@ == if raw@.len() == 0 {
                        Seq::<char>::empty()
                    } else {
                        decode_utf8(raw@)
                    }
                },
                None => raw@.len() != 0 && !valid_utf8(raw@),
            },
    {
        if raw.len() == 0 {
            return Some(String::new());
        }
        self.fill(raw);
        string_from_utf8(self.decode_from_buffer_scale())
    }

    /// The identifiers of the tokens that a party owns, from the bytes in
    /// which the host lists them: eight bytes for each, the least
    /// significant first. Where the host reports an error there are none,
    /// and the buffer stays as it was.
    pub fn get_not_fungible_asset_ids(&mut self, fetched: Result<&[u8], EnvError>) -> (ids: Vec<u64>)
        requires
            old(self).wf(),
            fetched matches Ok(raw) ==> raw@.len() <= CAPACITY && raw@.len() % 8 == 0,
        ensures
            final(self).wf(),
            match fetched {
                Ok(raw) => {
                    &&& final(self)@ == raw@
                    &&& ids@.len() == raw@.len() / 8
                    &&& forall|i: int| 0 <= i < ids@.len() ==> #[trigger] ids@[i] == le_u64s(raw@)[i]
                },
                Err(_) => ids@.len() == 0 && final(self)@ == old(self)@,
            },
    {
        let mut ids: Vec<u64> = Vec::new();
        if let Ok(raw) = fetched {
            self.fill(raw);
            let size = raw.len();
            let mut start: usize = 0;
            while start < size
                invariant
                    size == raw@.len(),
                    size % 8 == 0,
                    start % 8 == 0,
                    start <= size,
                    ids@.len() == start / 8,
                    forall|i: int| 0 <= i < ids@.len() ==> #[trigger] ids@[i] == le_u64s(raw@)[i],
                decreases size - start,
            {
                let id = read_le_u64(raw, start);
                ids.push(id);
                start += 8;
            }
        }
        ids
    }
}

} // verus!
