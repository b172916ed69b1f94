use vstd::prelude::*;

verus! {

/// The identity of a party, as the host reports it: a piece of text.
///
/// Two addresses are the same party exactly when their texts are equal, so
/// every contract speaks of an address through its view.
#[derive(Debug, PartialEq, Eq, Hash)]
pub struct Address {
    name: String,
}

impl View for Address {
    type V = Seq<char>;

    closed spec fn view(&self) -> Seq<char> {
        self.name@
    }
}

impl Clone for Address {
    fn clone(&self) -> (copy: Self)
        ensures
            copy == *self,
    {
        Address { name: self.name.clone() }
    }
}

/// The texts of a list of addresses, in order.
pub open spec fn names(list: Seq<Address>) -> Seq<Seq<char>> {
    Seq::new(list.len(), |i: int| list[i]@)
}

/// Whether every text of `required` occurs in `allowed`.
pub open spec fn covered_by(required: Seq<Seq<char>>, allowed: Seq<Seq<char>>) -> bool {
    forall|i: int| 0 <= i < required.len() ==> allowed.contains(#[trigger] required[i])
}

impl Address {
    /// The address with the given text.
    pub fn new(name: String) -> (address: Address)
        ensures
            address@ == name@,
    {
        Address { name }
    }

    /// The text of this address.
    pub fn as_str(&self) -> (text: &str)
        ensures
            text@ == self@,
    {
        self.name.as_str()
    }

    /// Whether `self` and `other` name the same party.
    pub fn same_as(&self, other: &Address) -> (same: bool)
        ensures
            same == (self@ == other@),
    {
        self.name == other.name
    }

    /// Whether this address names no party at all.
    pub fn is_empty(&self) -> (empty: bool)
        ensures
            empty == (self@.len() == 0),
    {
        self.name.as_str().is_empty()
    }
}

/// Whether `party` occurs in `list`.
pub fn contains_address(list: &Vec<Address>, party: &Address) -> (found: bool)
    ensures
        found == names(list@).contains(party@),
{
    let mut i: usize = 0;
    while i < list.len()
        invariant
            i <= list.len(),
            forall|j: int| 0 <= j < i ==> names(list@)[j] != party@,
        decreases list.len() - i,
    {
        if list[i].same_as(party) {
            assert(names(list@)[i as int] == party@);
            return true;
        }
        i += 1;
    }
    false
}

/// A copy of `list`, party for party.
pub fn clone_addresses(list: &Vec<Address>) -> (copy: Vec<Address>)
    ensures
        copy@ == list@,
{
    let mut copy: Vec<Address> = Vec::new();
    let mut i: usize = 0;
    while i < list.len()
        invariant
            i <= list.len(),
            copy@ == list@.subrange(0, i as int),
        decreases list.len() - i,
    {
        copy.push(list[i].clone());
        i += 1;
    }
    copy
}

} // verus!
