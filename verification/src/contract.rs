use vstd::prelude::*;
use crate::address::{clone_addresses, names, Address};

verus! {

/// The key of one contract instance: the template it was made from and the
/// number it was given in that template's table. An id carries no data.
#[derive(Clone, Copy, Debug, PartialEq, Eq, Hash, Structural)]
pub struct ContractId {
    pub template: u32,
    pub id: u32,
}

/// The payload of one contract version. It is fixed at creation: the ledger
/// never changes a stored state, it archives the version and stores another.
#[derive(Debug, PartialEq, Eq)]
pub struct ContractState {
    /// The parties whose authorization every choice on this contract needs.
    pub signers: Vec<Address>,
    /// The parties who may read this contract and have no say over it.
    pub observers: Vec<Address>,
    /// The remaining fields, serialized.
    pub payload: Vec<u8>,
}

/// What a contract state says, apart from how it is held in memory.
pub struct ContractStateView {
    pub signers: Seq<Seq<char>>,
    pub observers: Seq<Seq<char>>,
    pub payload: Seq<u8>,
}

impl View for ContractState {
    type V = ContractStateView;

    open spec fn view(&self) -> ContractStateView {
        ContractStateView {
            signers: names(self.signers@),
            observers: names(self.observers@),
            payload: self.payload@,
        }
    }
}

impl Clone for ContractState {
    fn clone(&self) -> (copy: Self)
        ensures
            copy@ == self@,
    {
        ContractState {
            signers: clone_addresses(&self.signers),
            observers: clone_addresses(&self.observers),
            payload: self.payload.clone(),
        }
    }
}

impl ContractState {
    /// This state with `observers` in place of its own observers.
    pub fn disclosed_to(&self, observers: Vec<Address>) -> (wider: ContractState)
        ensures
            wider@ == (ContractStateView { observers: names(observers@), ..self@ }),
    {
        ContractState {
            signers: clone_addresses(&self.signers),
            observers,
            payload: self.payload.clone(),
        }
    }
}

} // verus!
