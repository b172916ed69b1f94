use vstd::prelude::*;

verus! {

/// What one party holds of a fungible asset.
pub struct HoldingView {
    pub owner: Seq<char>,
    pub amount: nat,
}

/// One movement of a fungible asset between two parties.
pub struct Transfer {
    pub from: Seq<char>,
    pub to: Seq<char>,
    pub amount: nat,
}

/// The sum of all holdings.
pub open spec fn total(holdings: Seq<HoldingView>) -> nat
    decreases holdings.len(),
{
    if holdings.len() == 0 {
        0
    } else {
        total(holdings.drop_last()) + holdings.last().amount
    }
}

/// Whether no party has two holdings.
pub open spec fn distinct_owners(holdings: Seq<HoldingView>) -> bool {
    forall|i: int, j: int|
        0 <= i < j < holdings.len() ==> (#[trigger] holdings[i]).owner != (
        #[trigger] holdings[j]).owner
}

/// Whether `owner` has a holding.
pub open spec fn holds(holdings: Seq<HoldingView>, owner: Seq<char>) -> bool {
    exists|i: int| 0 <= i < holdings.len() && (#[trigger] holdings[i]).owner == owner
}

/// The place of the holding of `owner`, where there is one.
pub open spec fn place_of(holdings: Seq<HoldingView>, owner: Seq<char>) -> int {
    choose|i: int| 0 <= i < holdings.len() && (#[trigger] holdings[i]).owner == owner
}

/// What `owner` holds: the amount of its holding, and nothing without one.
pub open spec fn balance(holdings: Seq<HoldingView>, owner: Seq<char>) -> nat {
    if holds(holdings, owner) {
        holdings[place_of(holdings, owner)].amount
    } else {
        0
    }
}

/// The holdings after `owner` received `amount`: its holding grows, or a
/// holding is opened for it at the end.
pub open spec fn credited(holdings: Seq<HoldingView>, owner: Seq<char>, amount: nat) -> Seq<
    HoldingView,
> {
    if holds(holdings, owner) {
        let at = place_of(holdings, owner);
        holdings.update(at, HoldingView { owner, amount: holdings[at].amount + amount })
    } else {
        holdings.push(HoldingView { owner, amount })
    }
}

/// The holdings after `owner` gave `amount`, which it has to hold. A party
/// without a holding can give nothing, and the holdings stay as they are.
pub open spec fn debited(holdings: Seq<HoldingView>, owner: Seq<char>, amount: nat) -> Seq<
    HoldingView,
> {
    if holds(holdings, owner) {
        let at = place_of(holdings, owner);
        holdings.update(at, HoldingView { owner, amount: (holdings[at].amount - amount) as nat })
    } else {
        holdings
    }
}

/// Whether a transfer can be made: the giver holds the amount.
pub open spec fn can_transfer(holdings: Seq<HoldingView>, transfer: Transfer) -> bool {
    transfer.amount <= balance(holdings, transfer.from)
}

/// The holdings after a transfer. A transfer that cannot be made moves
/// nothing.
pub open spec fn transferred(holdings: Seq<HoldingView>, transfer: Transfer) -> Seq<HoldingView> {
    if can_transfer(holdings, transfer) {
        credited(debited(holdings, transfer.from, transfer.amount), transfer.to, transfer.amount)
    } else {
        holdings
    }
}

/// The holdings after a series of transfers, made one after the other.
pub open spec fn transferred_all(holdings: Seq<HoldingView>, transfers: Seq<Transfer>) -> Seq<
    HoldingView,
>
    decreases transfers.len(),
{
    if transfers.len() == 0 {
        holdings
    } else {
        transferred(transferred_all(holdings, transfers.drop_last()), transfers.last())
    }
}

/// Replacing one holding changes the sum by the difference of the amounts.
pub proof fn lemma_total_update(holdings: Seq<HoldingView>, at: int, holding: HoldingView)
    requires
        0 <= at < holdings.len(),
    ensures
        total(holdings.update(at, holding)) == total(holdings) - holdings[at].amount
            + holding.amount,
    decreases holdings.len(),
{
    let after = holdings.update(at, holding);
    if at == holdings.len() - 1 {
        assert(after.drop_last() =~= holdings.drop_last());
    } else {
        lemma_total_update(holdings.drop_last(), at, holding);
        assert(after.drop_last() =~= holdings.drop_last().update(at, holding));
    }
}

/// One more holding adds its amount to the sum.
pub proof fn lemma_total_push(holdings: Seq<HoldingView>, holding: HoldingView)
    ensures
        total(holdings.push(holding)) == total(holdings) + holding.amount,
{
    assert(holdings.push(holding).drop_last() =~= holdings);
}

/// No holding is larger than the sum, and no two together are.
pub proof fn lemma_total_bounds(holdings: Seq<HoldingView>, i: int, j: int)
    requires
        0 <= i < holdings.len(),
        0 <= j < holdings.len(),
    ensures
        holdings[i].amount <= total(holdings),
        i != j ==> holdings[i].amount + holdings[j].amount <= total(holdings),
    decreases holdings.len(),
{
    let last = holdings.len() - 1;
    if i < last && j < last {
        lemma_total_bounds(holdings.drop_last(), i, j);
    } else if i < last {
        lemma_total_bounds(holdings.drop_last(), i, i);
    } else if j < last {
        lemma_total_bounds(holdings.drop_last(), j, j);
    }
}

/// Among distinct owners, the holding of a party is where its name stands.
pub proof fn lemma_place(holdings: Seq<HoldingView>, at: int)
    requires
        distinct_owners(holdings),
        0 <= at < holdings.len(),
    ensures
        holds(holdings, holdings[at].owner),
        place_of(holdings, holdings[at].owner) == at,
        balance(holdings, holdings[at].owner) == holdings[at].amount,
{
}

/// Receiving adds the amount to the sum and keeps the owners distinct.
pub proof fn lemma_credited(holdings: Seq<HoldingView>, owner: Seq<char>, amount: nat)
    requires
        distinct_owners(holdings),
    ensures
        total(credited(holdings, owner, amount)) == total(holdings) + amount,
        distinct_owners(credited(holdings, owner, amount)),
        balance(credited(holdings, owner, amount), owner) == balance(holdings, owner) + amount,
        forall|other: Seq<char>|
            other != owner ==> #[trigger] balance(credited(holdings, owner, amount), other)
                == balance(holdings, other),
{
    let after = credited(holdings, owner, amount);
    if holds(holdings, owner) {
        let at = place_of(holdings, owner);
        lemma_total_update(holdings, at, HoldingView { owner, amount: holdings[at].amount + amount });
        assert forall|i: int| 0 <= i < after.len() implies (#[trigger] after[i]).owner
            == holdings[i].owner by {}
        lemma_place(after, at);
        assert forall|other: Seq<char>| other != owner implies #[trigger] balance(after, other)
            == balance(holdings, other) by {
            lemma_same_owners_balance(holdings, after, other);
        }
    } else {
        lemma_total_push(holdings, HoldingView { owner, amount });
        lemma_place(after, holdings.len() as int);
    }
}

/// Where two lists name the same owners in the same places and agree on the
/// holding of `other`, they agree on what `other` holds.
proof fn lemma_same_owners_balance(
    before: Seq<HoldingView>,
    after: Seq<HoldingView>,
    other: Seq<char>,
)
    requires
        distinct_owners(before),
        before.len() == after.len(),
        forall|i: int| 0 <= i < before.len() ==> (#[trigger] after[i]).owner == before[i].owner,
        forall|i: int|
            0 <= i < before.len() && before[i].owner == other ==> (#[trigger] after[i]).amount
                == before[i].amount,
    ensures
        balance(after, other) == balance(before, other),
        holds(after, other) == holds(before, other),
{
    if holds(before, other) {
        let at = place_of(before, other);
        lemma_place(after, at);
        lemma_place(before, at);
    }
}

/// Giving takes the amount from the sum and keeps the owners distinct.
pub proof fn lemma_debited(holdings: Seq<HoldingView>, owner: Seq<char>, amount: nat)
    requires
        distinct_owners(holdings),
        amount <= balance(holdings, owner),
    ensures
        total(debited(holdings, owner, amount)) == total(holdings) - amount,
        distinct_owners(debited(holdings, owner, amount)),
        holds(debited(holdings, owner, amount), owner) == holds(holdings, owner),
        balance(debited(holdings, owner, amount), owner) == balance(holdings, owner) - amount,
        forall|other: Seq<char>|
            other != owner ==> #[trigger] balance(debited(holdings, owner, amount), other)
                == balance(holdings, other),
{
    if !holds(holdings, owner) {
        return ;
    }
    let after = debited(holdings, owner, amount);
    let at = place_of(holdings, owner);
    lemma_total_update(
        holdings,
        at,
        HoldingView { owner, amount: (holdings[at].amount - amount) as nat },
    );
    lemma_total_bounds(holdings, at, at);
    lemma_place(after, at);
    assert forall|other: Seq<char>| other != owner implies #[trigger] balance(after, other)
        == balance(holdings, other) by {
        lemma_same_owners_balance(holdings, after, other);
    }
}

/// A transfer leaves the sum of all holdings as it was.
pub proof fn lemma_transfer_conserves(holdings: Seq<HoldingView>, transfer: Transfer)
    requires
        distinct_owners(holdings),
    ensures
        total(transferred(holdings, transfer)) == total(holdings),
        distinct_owners(transferred(holdings, transfer)),
{
    if can_transfer(holdings, transfer) {
        lemma_debited(holdings, transfer.from, transfer.amount);
        lemma_credited(
            debited(holdings, transfer.from, transfer.amount),
            transfer.to,
            transfer.amount,
        );
    }
}

/// Conservation: whatever transfers are made, in whatever order, the sum of
/// all holdings stays what it was. Only an issuance changes it.
pub proof fn lemma_transfers_conserve(holdings: Seq<HoldingView>, transfers: Seq<Transfer>)
    requires
        distinct_owners(holdings),
    ensures
        total(transferred_all(holdings, transfers)) == total(holdings),
        distinct_owners(transferred_all(holdings, transfers)),
    decreases transfers.len(),
{
    if transfers.len() > 0 {
        lemma_transfers_conserve(holdings, transfers.drop_last());
        lemma_transfer_conserves(
            transferred_all(holdings, transfers.drop_last()),
            transfers.last(),
        );
    }
}

} // verus!
