use vstd::prelude::*;
use crate::address::Address;
use crate::balances::{
    balance, credited, debited, distinct_owners, holds, lemma_credited, lemma_debited,
    lemma_place, lemma_total_bounds, lemma_transfer_conserves, total, transferred, HoldingView,
    Transfer,
};
use crate::error::Error;

verus! {

struct Holding {
    owner: Address,
    amount: u64,
}

struct Token {
    owner: Address,
    uri: String,
}

struct Asset {
    name: String,
    issuer: Address,
    fungible: bool,
    total_supply: u64,
    description: String,
    issued: u64,
    holdings: Vec<Holding>,
    tokens: Vec<Token>,
}

/// One token of a non-fungible asset. The token at index `i` of its asset
/// has the identifier `i + 1`; no token has the identifier 0.
pub struct TokenView {
    pub owner: Seq<char>,
    pub uri: Seq<char>,
}

/// One registered asset and who holds what of it.
pub struct AssetView {
    pub name: Seq<char>,
    pub issuer: Seq<char>,
    pub fungible: bool,
    pub total_supply: u64,
    pub description: Seq<char>,
    pub holdings: Seq<HoldingView>,
    pub tokens: Seq<TokenView>,
}

/// The assets of one execution: what is registered, who holds what, for whom
/// the execution runs, and how many handles are out.
pub struct Assets {
    caller: Address,
    contract: Address,
    assets: Vec<Asset>,
    live: u64,
}

/// What the asset ledger holds.
pub struct AssetsView {
    pub caller: Seq<char>,
    pub contract: Seq<char>,
    pub assets: Seq<AssetView>,
    pub live: nat,
}

/// Custody of value that was withdrawn and has to be deposited: an amount of
/// a fungible asset, or one token of a non-fungible one. A handle is made by
/// a withdrawal only, and a deposit takes it.
#[derive(Debug)]
pub struct AssetHandle {
    asset: u32,
    value: u64,
    uri: String,
    from_self: bool,
}

/// What the host says of the party that is to receive a deposit.
#[derive(Clone, Copy, Debug, PartialEq, Eq, Structural)]
pub enum Recipient {
    /// An account without code: it takes any asset.
    Account,
    /// A contract, which was asked whether it supports the asset.
    Contract { supports: bool },
}

spec fn holding_views(holdings: Seq<Holding>) -> Seq<HoldingView> {
    Seq::new(
        holdings.len(),
        |i: int| HoldingView { owner: holdings[i].owner@, amount: holdings[i].amount as nat },
    )
}

spec fn token_views(tokens: Seq<Token>) -> Seq<TokenView> {
    Seq::new(tokens.len(), |i: int| TokenView { owner: tokens[i].owner@, uri: tokens[i].uri@ })
}

spec fn asset_view(asset: Asset) -> AssetView {
    AssetView {
        name: asset.name@,
        issuer: asset.issuer@,
        fungible: asset.fungible,
        total_supply: asset.total_supply,
        description: asset.description@,
        holdings: holding_views(asset.holdings@),
        tokens: token_views(asset.tokens@),
    }
}

impl View for Assets {
    type V = AssetsView;

    closed spec fn view(&self) -> AssetsView {
        AssetsView {
            caller: self.caller@,
            contract: self.contract@,
            assets: Seq::new(self.assets@.len(), |a: int| asset_view(self.assets@[a])),
            live: self.live as nat,
        }
    }
}

/// Whether `owner` owns the token `id`.
pub open spec fn owns(tokens: Seq<TokenView>, owner: Seq<char>, id: u64) -> bool {
    1 <= id <= tokens.len() && tokens[id - 1].owner == owner
}

/// The identifiers of the tokens that `owner` owns, in rising order.
pub open spec fn tokens_of(tokens: Seq<TokenView>, owner: Seq<char>) -> Seq<u64>
    decreases tokens.len(),
{
    if tokens.len() == 0 {
        Seq::empty()
    } else if tokens.last().owner == owner {
        tokens_of(tokens.drop_last(), owner).push(tokens.len() as u64)
    } else {
        tokens_of(tokens.drop_last(), owner)
    }
}

impl AssetView {
    /// The limits of one asset: no party has two holdings, and no more is
    /// issued than the total supply. A fungible asset has no tokens, and a
    /// non-fungible one no holdings.
    pub open spec fn wf(self) -> bool {
        &&& distinct_owners(self.holdings)
        &&& total(self.holdings) <= self.total_supply
        &&& self.tokens.len() <= self.total_supply
        &&& self.fungible ==> self.tokens.len() == 0
        &&& !self.fungible ==> self.holdings.len() == 0
    }

    /// How much of this asset `owner` holds: an amount, or a number of
    /// tokens.
    pub open spec fn held_by(self, owner: Seq<char>) -> nat {
        if self.fungible {
            balance(self.holdings, owner)
        } else {
            tokens_of(self.tokens, owner).len()
        }
    }

    /// Whether `owner` can give `value`: that amount of a fungible asset, or
    /// the token of that identifier.
    pub open spec fn has(self, owner: Seq<char>, value: u64) -> bool {
        if self.fungible {
            value <= balance(self.holdings, owner)
        } else {
            owns(self.tokens, owner, value)
        }
    }

    /// This asset after `from` gave `value` to `to`.
    pub open spec fn moved(self, from: Seq<char>, to: Seq<char>, value: u64) -> AssetView {
        if self.fungible {
            AssetView {
                holdings: transferred(self.holdings, Transfer { from, to, amount: value as nat }),
                ..self
            }
        } else {
            AssetView {
                tokens: self.tokens.update(
                    value - 1,
                    TokenView { owner: to, uri: self.tokens[value - 1].uri },
                ),
                ..self
            }
        }
    }
}

impl AssetsView {
    /// The limits of the ledger: those of each asset, and no two assets
    /// share a name.
    pub open spec fn wf(self) -> bool {
        &&& self.assets.len() <= u32::MAX
        &&& forall|a: int| 0 <= a < self.assets.len() ==> (#[trigger] self.assets[a]).wf()
        &&& forall|a: int, b: int|
            0 <= a < b < self.assets.len() ==> (#[trigger] self.assets[a]).name != (
            #[trigger] self.assets[b]).name
    }

    /// Whether an asset of this name is registered.
    pub open spec fn has_name(self, name: Seq<char>) -> bool {
        exists|a: int| 0 <= a < self.assets.len() && (#[trigger] self.assets[a]).name == name
    }

    /// The party that a withdrawal or transfer takes from.
    pub open spec fn source(self, from_self: bool) -> Seq<char> {
        if from_self {
            self.contract
        } else {
            self.caller
        }
    }

    /// Whether the source can give `value` of `asset`.
    pub open spec fn sufficient(self, asset: u32, value: u64, from_self: bool) -> bool {
        asset < self.assets.len() && self.assets[asset as int].has(self.source(from_self), value)
    }

    /// Whether a handle on `value` of `asset` can be made: the source can
    /// give the value, and the count of handles has room for one more.
    pub open spec fn withdrawable(self, asset: u32, value: u64, from_self: bool) -> bool {
        &&& self.sufficient(asset, value, from_self)
        &&& self.live < u64::MAX
    }

    /// Whether a deposit of the given value goes through: the recipient
    /// takes the asset, the source can still give the value, and a handle is
    /// out.
    pub open spec fn depositable(
        self,
        asset: u32,
        value: u64,
        from_self: bool,
        recipient: Recipient,
    ) -> bool {
        &&& recipient != (Recipient::Contract { supports: false })
        &&& self.sufficient(asset, value, from_self)
        &&& self.live > 0
    }

    /// Whether a token of `asset` can be issued: the asset is registered, is
    /// not fungible, and has fewer tokens than its total supply allows.
    pub open spec fn can_issue_token(self, asset: u32) -> bool {
        &&& asset < self.assets.len()
        &&& !self.assets[asset as int].fungible
        &&& self.assets[asset as int].tokens.len() < self.assets[asset as int].total_supply
    }

    /// This ledger with one more token of `asset`, owned by `to`.
    pub open spec fn with_token(self, asset: u32, to: Seq<char>, uri: Seq<char>) -> AssetsView {
        self.with_asset(
            asset,
            AssetView {
                tokens: self.assets[asset as int].tokens.push(TokenView { owner: to, uri }),
                ..self.assets[asset as int]
            },
        )
    }

    /// Whether this ledger holds, of every asset, the same sum as `earlier`.
    pub open spec fn same_totals(self, earlier: AssetsView) -> bool {
        &&& self.assets.len() == earlier.assets.len()
        &&& forall|b: int|
            0 <= b < self.assets.len() ==> total((#[trigger] self.assets[b]).holdings) == total(
                earlier.assets[b].holdings,
            )
    }

    /// This ledger with `changed` in the place of `asset`.
    pub open spec fn with_asset(self, asset: u32, changed: AssetView) -> AssetsView {
        AssetsView { assets: self.assets.update(asset as int, changed), ..self }
    }

    /// This ledger after the source gave `value` of `asset` to `to`.
    pub open spec fn after_transfer(
        self,
        asset: u32,
        to: Seq<char>,
        value: u64,
        from_self: bool,
    ) -> AssetsView {
        self.with_asset(
            asset,
            self.assets[asset as int].moved(self.source(from_self), to, value),
        )
    }
}

impl AssetHandle {
    /// The asset that the handle is of.
    pub closed spec fn asset_tag(&self) -> u32 {
        self.asset
    }

    /// The amount, or the identifier of the token.
    pub closed spec fn amount_or_id(&self) -> u64 {
        self.value
    }

    /// Whether the value comes from the contract's own holding.
    pub closed spec fn origin_is_self(&self) -> bool {
        self.from_self
    }

    /// The token's address of its content; empty for a fungible asset.
    pub closed spec fn token_uri(&self) -> Seq<char> {
        self.uri@
    }

    /// The asset that the handle is of.
    pub fn asset(&self) -> (tag: u32)
        ensures
            tag == self.asset_tag(),
    {
        self.asset
    }

    /// The amount that the handle carries, or the identifier of its token.
    pub fn value(&self) -> (value: u64)
        ensures
            value == self.amount_or_id(),
    {
        self.value
    }

    /// The identifier of the token that the handle carries.
    pub fn id(&self) -> (id: u64)
        ensures
            id == self.amount_or_id(),
    {
        self.value
    }

    /// The token's address of its content.
    pub fn uri(&self) -> (uri: &String)
        ensures
            uri@ == self.token_uri(),
    {
        &self.uri
    }

    /// Whether the value was withdrawn from the contract's own holding.
    pub fn from_self(&self) -> (from_self: bool)
        ensures
            from_self == self.origin_is_self(),
    {
        self.from_self
    }
}

fn find_holding(holdings: &Vec<Holding>, owner: &Address) -> (found: Option<usize>)
    ensures
        match found {
            Some(at) => at < holdings.len() && holding_views(holdings@)[at as int].owner
                == owner@,
            None => !holds(holding_views(holdings@), owner@),
        },
{
    let mut i: usize = 0;
    while i < holdings.len()
        invariant
            i <= holdings.len(),
            forall|j: int| 0 <= j < i ==> (#[trigger] holding_views(holdings@)[j]).owner != owner@,
        decreases holdings.len() - i,
    {
        if holdings[i].owner.same_as(owner) {
            return Some(i);
        }
        i += 1;
    }
    None
}

impl Assets {
    /// Whether the ledger is within its limits and its books agree.
    pub open spec fn wf(&self) -> bool {
        self@.wf() && self.books_agree()
    }

    /// Whether the ledger has counted of each asset what its holders hold.
    pub closed spec fn books_agree(&self) -> bool {
        forall|a: int|
            0 <= a < self.assets@.len() ==> (#[trigger] self.assets@[a]).issued == total(
                holding_views(self.assets@[a].holdings@),
            )
    }

    /// A ledger without assets, for an execution that `caller` started on
    /// the contract `contract`.
    pub fn new(caller: Address, contract: Address) -> (assets: Assets)
        ensures
            assets.wf(),
            assets@.caller == caller@,
            assets@.contract == contract@,
            assets@.assets.len() == 0,
            assets@.live == 0,
    {
        Assets { caller, contract, assets: Vec::new(), live: 0 }
    }

    /// The tag of the asset called `name`, if one is registered.
    pub fn asset_named(&self, name: &String) -> (tag: Option<u32>)
        requires
            self.wf(),
        ensures
            match tag {
                Some(a) => a < self@.assets.len() && self@.assets[a as int].name == name@,
                None => !self@.has_name(name@),
            },
    {
        let mut a: usize = 0;
        while a < self.assets.len()
            invariant
                self.wf(),
                a <= self.assets.len(),
                forall|b: int| 0 <= b < a ==> (#[trigger] self@.assets[b]).name != name@,
            decreases self.assets.len() - a,
        {
            if self.assets[a].name == *name {
                return Some(a as u32);
            }
            a += 1;
        }
        None
    }

    /// Registers an asset. A name can be registered once; the new asset gets
    /// the next tag, and nothing of it is issued yet.
    pub fn register_asset(
        &mut self,
        name: String,
        issuer: Address,
        fungible: bool,
        total_supply: u64,
        description: String,
    ) -> (registered: bool)
        requires
            old(self).wf(),
        ensures
            final(self).wf(),
            registered == (!old(self)@.has_name(name@) && old(self)@.assets.len() < u32::MAX),
            final(self)@ == if registered {
                AssetsView {
                    assets: old(self)@.assets.push(
                        AssetView {
                            name: name@,
                            issuer: issuer@,
                            fungible,
                            total_supply,
                            description: description@,
                            holdings: Seq::empty(),
                            tokens: Seq::empty(),
                        },
                    ),
                    ..old(self)@
                }
            } else {
                old(self)@
            },
    {
        if self.assets.len() >= u32::MAX as usize {
            return false;
        }
        if self.asset_named(&name).is_some() {
            return false;
        }
        let ghost added = AssetView {
            name: name@,
            issuer: issuer@,
            fungible,
            total_supply,
            description: description@,
            holdings: Seq::empty(),
            tokens: Seq::empty(),
        };
        self.assets.push(
            Asset {
                name,
                issuer,
                fungible,
                total_supply,
                description,
                issued: 0,
                holdings: Vec::new(),
                tokens: Vec::new(),
            },
        );
        proof {
            let a = old(self).assets.len() as int;
            assert(self@.assets[a].holdings =~= Seq::empty());
            assert(self@.assets[a].tokens =~= Seq::empty());
            assert(self@.assets =~= old(self)@.assets.push(added));
        }
        true
    }

    /// How much of `asset` the party `owner` holds: the amount of a fungible
    /// asset, the number of tokens of a non-fungible one, and 0 of an asset
    /// that is not registered.
    pub fn get_asset_balance(&self, asset: u32, owner: &Address) -> (held: u64)
        requires
            self.wf(),
        ensures
            held == if asset < self@.assets.len() {
                self@.assets[asset as int].held_by(owner@)
            } else {
                0
            },
    {
        let a = asset as usize;
        if a >= self.assets.len() {
            return 0;
        }
        assert(self@.assets[a as int].wf());
        if self.assets[a].fungible {
            match find_holding(&self.assets[a].holdings, owner) {
                Some(at) => {
                    proof {
                        lemma_place(self@.assets[a as int].holdings, at as int);
                    }
                    self.assets[a].holdings[at].amount
                },
                None => 0,
            }
        } else {
            let tokens = &self.assets[a].tokens;
            let ghost views = token_views(tokens@);
            let mut count: u64 = 0;
            let mut i: usize = 0;
            while i < tokens.len()
                invariant
                    i <= tokens.len(),
                    tokens@.len() <= u64::MAX,
                    views == token_views(tokens@),
                    count == tokens_of(views.take(i as int), owner@).len(),
                    count <= i,
                decreases tokens.len() - i,
            {
                proof {
                    let longer = views.take(i + 1);
                    assert(longer.drop_last() =~= views.take(i as int));
                }
                if tokens[i].owner.same_as(owner) {
                    count += 1;
                }
                i += 1;
            }
            assert(views.take(tokens.len() as int) =~= views);
            count
        }
    }

    /// The identifiers of the tokens of `asset` that `owner` owns, in rising
    /// order.
    pub fn get_not_fungible_asset_ids(&self, asset: u32, owner: &Address) -> (ids: Vec<u64>)
        requires
            self.wf(),
        ensures
            ids@ == if asset < self@.assets.len() {
                tokens_of(self@.assets[asset as int].tokens, owner@)
            } else {
                Seq::empty()
            },
    {
        let mut ids: Vec<u64> = Vec::new();
        let a = asset as usize;
        if a >= self.assets.len() {
            return ids;
        }
        assert(self@.assets[a as int].wf());
        let tokens = &self.assets[a].tokens;
        let ghost views = token_views(tokens@);
        let mut i: usize = 0;
        while i < tokens.len()
            invariant
                i <= tokens.len(),
                tokens@.len() <= u64::MAX,
                views == token_views(tokens@),
                ids@ == tokens_of(views.take(i as int), owner@),
            decreases tokens.len() - i,
        {
            proof {
                let longer = views.take(i + 1);
                assert(longer.drop_last() =~= views.take(i as int));
            }
            if tokens[i].owner.same_as(owner) {
                ids.push(i as u64 + 1);
            }
            i += 1;
        }
        assert(views.take(tokens.len() as int) =~= views);
        ids
    }

    /// What the token `id` of `asset` points to, if `owner` owns it, and the
    /// empty text if not.
    pub fn get_not_fungible_asset_info(&self, asset: u32, owner: &Address, id: u64) -> (uri: String)
        requires
            self.wf(),
        ensures
            uri@ == if asset < self@.assets.len() && owns(
                self@.assets[asset as int].tokens,
                owner@,
                id,
            ) {
                self@.assets[asset as int].tokens[id - 1].uri
            } else {
                Seq::empty()
            },
    {
        let a = asset as usize;
        if a >= self.assets.len() {
            return String::new();
        }
        let tokens = &self.assets[a].tokens;
        if id == 0 || id > tokens.len() as u64 {
            return String::new();
        }
        let at = (id - 1) as usize;
        if tokens[at].owner.same_as(owner) {
            tokens[at].uri.clone()
        } else {
            String::new()
        }
    }

    /// Issues `amount` of the fungible asset `asset` to `to`. No more is
    /// issued than the total supply of the asset: an issuance that would go
    /// beyond it is refused as a whole.
    pub fn issue_fungible_asset(&mut self, asset: u32, to: &Address, amount: u64) -> (issued: bool)
        requires
            old(self).wf(),
        ensures
            final(self).wf(),
            issued == {
                &&& asset < old(self)@.assets.len()
                &&& old(self)@.assets[asset as int].fungible
                &&& total(old(self)@.assets[asset as int].holdings) + amount <= old(
                    self,
                )@.assets[asset as int].total_supply
            },
            final(self)@ == if issued {
                old(self)@.with_asset(
                    asset,
                    AssetView {
                        holdings: credited(
                            old(self)@.assets[asset as int].holdings,
                            to@,
                            amount as nat,
                        ),
                        ..old(self)@.assets[asset as int]
                    },
                )
            } else {
                old(self)@
            },
    {
        let a = asset as usize;
        if a >= self.assets.len() {
            return false;
        }
        if !self.assets[a].fungible {
            return false;
        }
        assert(self@.assets[a as int].wf());
        if amount > self.assets[a].total_supply - self.assets[a].issued {
            return false;
        }
        proof {
            lemma_credited(self@.assets[a as int].holdings, to@, amount as nat);
        }
        credit(&mut self.assets[a].holdings, to, amount);
        self.assets[a].issued = self.assets[a].issued + amount;
        proof {
            self.lemma_changed(*old(self), a as int);
        }
        true
    }

    /// Issues one token of the non-fungible asset `asset` to `to` and
    /// returns its identifier. Identifiers count up from 1. Where nothing
    /// can be issued the result is 0: the asset is not registered, is
    /// fungible, or has as many tokens as its total supply allows.
    pub fn issue_not_fungible_asset(&mut self, asset: u32, to: &Address, uri: String) -> (id: u64)
        requires
            old(self).wf(),
        ensures
            final(self).wf(),
            id == if old(self)@.can_issue_token(asset) {
                old(self)@.assets[asset as int].tokens.len() + 1
            } else {
                0
            },
            final(self)@ == if id != 0 {
                old(self)@.with_token(asset, to@, uri@)
            } else {
                old(self)@
            },
    {
        let a = asset as usize;
        if a >= self.assets.len() {
            return 0;
        }
        if self.assets[a].fungible {
            return 0;
        }
        if self.assets[a].tokens.len() as u64 >= self.assets[a].total_supply {
            return 0;
        }
        let id = self.assets[a].tokens.len() as u64 + 1;
        self.assets[a].tokens.push(Token { owner: to.clone(), uri });
        proof {
            assert(self@.assets[a as int].tokens =~= old(self)@.assets[a as int].tokens.push(
                TokenView { owner: to@, uri: uri@ },
            ));
            self.lemma_changed(*old(self), a as int);
        }
        id
    }

    /// Issues one token of the non-fungible asset `asset` to `to`: the
    /// identifier of the token, or nothing where no token can be issued.
    pub fn issue_to(&mut self, asset: u32, to: &Address, uri: String) -> (issued: Option<u64>)
        requires
            old(self).wf(),
        ensures
            final(self).wf(),
            match issued {
                Some(id) => {
                    &&& old(self)@.can_issue_token(asset)
                    &&& id == old(self)@.assets[asset as int].tokens.len() + 1
                    &&& final(self)@ == old(self)@.with_token(asset, to@, uri@)
                },
                None => !old(self)@.can_issue_token(asset) && final(self)@ == old(self)@,
            },
    {
        match self.issue_not_fungible_asset(asset, to, uri) {
            0 => None,
            id => Some(id),
        }
    }

    /// Moves `value` of `asset` to `to`: an amount of a fungible asset, or
    /// the token of that identifier. The value is taken from the contract's
    /// own holding or from the caller's. A transfer that the source cannot
    /// cover moves nothing.
    pub fn transfer_asset(&mut self, asset: u32, to: &Address, value: u64, from_self: bool) -> (moved:
        bool)
        requires
            old(self).wf(),
        ensures
            final(self).wf(),
            moved == old(self)@.sufficient(asset, value, from_self),
            final(self)@ == if moved {
                old(self)@.after_transfer(asset, to@, value, from_self)
            } else {
                old(self)@
            },
            final(self)@.same_totals(old(self)@),
    {
        proof {
            if old(self)@.sufficient(asset, value, from_self) {
                lemma_ledger_transfer_conserves(old(self)@, asset, to@, value, from_self);
            }
        }
        let a = asset as usize;
        if a >= self.assets.len() {
            return false;
        }
        let source = if from_self {
            self.contract.clone()
        } else {
            self.caller.clone()
        };
        if self.assets[a].fungible {
            let ghost before = self@.assets[a as int].holdings;
            let held = match find_holding(&self.assets[a].holdings, &source) {
                Some(at) => {
                    proof {
                        lemma_place(before, at as int);
                    }
                    self.assets[a].holdings[at].amount
                },
                None => 0,
            };
            if value > held {
                return false;
            }
            proof {
                lemma_debited(before, source@, value as nat);
                lemma_credited(debited(before, source@, value as nat), to@, value as nat);
            }
            debit(&mut self.assets[a].holdings, &source, value);
            credit(&mut self.assets[a].holdings, to, value);
            proof {
                self.lemma_changed(*old(self), a as int);
            }
            true
        } else {
            if value == 0 || value > self.assets[a].tokens.len() as u64 {
                return false;
            }
            let at = (value - 1) as usize;
            if !self.assets[a].tokens[at].owner.same_as(&source) {
                return false;
            }
            self.assets[a].tokens[at].owner = to.clone();
            proof {
                assert(self@.assets[a as int].tokens =~= old(self)@.assets[a as int].tokens.update(
                    at as int,
                    TokenView {
                        owner: to@,
                        uri: old(self)@.assets[a as int].tokens[at as int].uri,
                    },
                ));
                self.lemma_changed(*old(self), a as int);
            }
            true
        }
    }

    /// Takes custody of `value` of `asset` from the caller: an amount of a
    /// fungible asset, or the token of that identifier. Where the caller
    /// cannot give the value there is no handle, and nothing else happens.
    /// Nothing moves before the handle is deposited.
    pub fn withdraw_from_caller(&mut self, asset: u32, value: u64) -> (handle: Option<AssetHandle>)
        requires
            old(self).wf(),
        ensures
            final(self).wf(),
            handle is Some == old(self)@.withdrawable(asset, value, false),
            final(self)@ == if handle is Some {
                AssetsView { live: old(self)@.live + 1, ..old(self)@ }
            } else {
                old(self)@
            },
            handle matches Some(h) ==> {
                &&& h.asset_tag() == asset
                &&& h.amount_or_id() == value
                &&& !h.origin_is_self()
                &&& h.token_uri() == if old(self)@.assets[asset as int].fungible {
                    Seq::<char>::empty()
                } else {
                    old(self)@.assets[asset as int].tokens[value - 1].uri
                }
            },
    {
        self.withdraw(asset, value, false)
    }

    /// Takes custody of `value` of `asset` from the contract's own holding.
    /// Where the contract cannot give the value there is no handle, and
    /// nothing else happens.
    pub fn withdraw_from_self(&mut self, asset: u32, value: u64) -> (handle: Option<AssetHandle>)
        requires
            old(self).wf(),
        ensures
            final(self).wf(),
            handle is Some == old(self)@.withdrawable(asset, value, true),
            final(self)@ == if handle is Some {
                AssetsView { live: old(self)@.live + 1, ..old(self)@ }
            } else {
                old(self)@
            },
            handle matches Some(h) ==> {
                &&& h.asset_tag() == asset
                &&& h.amount_or_id() == value
                &&& h.origin_is_self()
                &&& h.token_uri() == if old(self)@.assets[asset as int].fungible {
                    Seq::<char>::empty()
                } else {
                    old(self)@.assets[asset as int].tokens[value - 1].uri
                }
            },
    {
        self.withdraw(asset, value, true)
    }

    fn owns_token(&self, asset: u32, owner: &Address, id: u64) -> (owned: bool)
        requires
            asset < self@.assets.len(),
        ensures
            owned == owns(self@.assets[asset as int].tokens, owner@, id),
    {
        let tokens = &self.assets[asset as usize].tokens;
        if id == 0 || id > tokens.len() as u64 {
            return false;
        }
        let at = (id - 1) as usize;
        assert(self@.assets[asset as int].tokens[at as int].owner == tokens@[at as int].owner@);
        tokens[at].owner.same_as(owner)
    }

    fn withdraw(&mut self, asset: u32, value: u64, from_self: bool) -> (handle: Option<AssetHandle>)
        requires
            old(self).wf(),
        ensures
            final(self).wf(),
            handle is Some == old(self)@.withdrawable(asset, value, from_self),
            final(self)@ == if handle is Some {
                AssetsView { live: old(self)@.live + 1, ..old(self)@ }
            } else {
                old(self)@
            },
            handle matches Some(h) ==> {
                &&& h.asset_tag() == asset
                &&& h.amount_or_id() == value
                &&& h.origin_is_self() == from_self
                &&& h.token_uri() == if old(self)@.assets[asset as int].fungible {
                    Seq::<char>::empty()
                } else {
                    old(self)@.assets[asset as int].tokens[value - 1].uri
                }
            },
    {
        let a = asset as usize;
        if a >= self.assets.len() {
            return None;
        }
        if self.live == u64::MAX {
            return None;
        }
        let source = if from_self {
            self.contract.clone()
        } else {
            self.caller.clone()
        };
        let uri = if self.assets[a].fungible {
            if self.get_asset_balance(asset, &source) < value {
                return None;
            }
            String::new()
        } else {
            if !self.owns_token(asset, &source, value) {
                return None;
            }
            self.get_not_fungible_asset_info(asset, &source, value)
        };
        self.live = self.live + 1;
        Some(AssetHandle { asset, value, uri, from_self })
    }

    /// Deposits what `handle` carries with `to`, and takes the handle.
    ///
    /// A contract that does not support the asset gets nothing. Otherwise
    /// the value moves from the source of the withdrawal to `to`, if the
    /// source can still give it. A deposit that does not go through is a
    /// defect: nothing moves, and the handle stays counted as out.
    pub fn deposit(&mut self, handle: AssetHandle, to: &Address, recipient: Recipient) -> (result:
        Result<(), Error>)
        requires
            old(self).wf(),
        ensures
            final(self).wf(),
            result is Ok == old(self)@.depositable(
                handle.asset_tag(),
                handle.amount_or_id(),
                handle.origin_is_self(),
                recipient,
            ),
            result matches Err(e) ==> e == Error::InvariantViolation,
            final(self)@ == if result is Ok {
                AssetsView {
                    live: (old(self)@.live - 1) as nat,
                    ..old(self)@.after_transfer(
                        handle.asset_tag(),
                        to@,
                        handle.amount_or_id(),
                        handle.origin_is_self(),
                    )
                }
            } else {
                old(self)@
            },
            final(self)@.same_totals(old(self)@),
    {
        if self.live == 0 {
            return Err(Error::InvariantViolation);
        }
        match recipient {
            Recipient::Contract { supports } => {
                if !supports {
                    return Err(Error::InvariantViolation);
                }
            },
            Recipient::Account => {},
        }
        if !self.transfer_asset(handle.asset, to, handle.value, handle.from_self) {
            return Err(Error::InvariantViolation);
        }
        self.live = self.live - 1;
        Ok(())
    }

    /// How many handles are out: withdrawn and not deposited.
    pub fn live_handles(&self) -> (live: u64)
        ensures
            live == self@.live,
    {
        self.live
    }

    /// The check at the end of a scope: every handle that was withdrawn has
    /// to be deposited by then. A handle that is still out is a defect.
    pub fn settle(&self) -> (result: Result<(), Error>)
        ensures
            result == if self@.live == 0 {
                Ok::<(), Error>(())
            } else {
                Err::<(), Error>(Error::InvariantViolation)
            },
    {
        if self.live == 0 {
            Ok(())
        } else {
            Err(Error::InvariantViolation)
        }
    }

    /// The most that can ever be issued of `asset`; 0 for an asset that is
    /// not registered.
    pub fn total_supply(&self, asset: u32) -> (supply: u64)
        ensures
            supply == if asset < self@.assets.len() {
                self@.assets[asset as int].total_supply
            } else {
                0
            },
    {
        if (asset as usize) < self.assets.len() {
            self.assets[asset as usize].total_supply
        } else {
            0
        }
    }

    /// The party that issues `asset`, if the asset is registered.
    pub fn issuer(&self, asset: u32) -> (issuer: Option<Address>)
        ensures
            match issuer {
                Some(party) => asset < self@.assets.len() && party@
                    == self@.assets[asset as int].issuer,
                None => asset >= self@.assets.len(),
            },
    {
        if (asset as usize) < self.assets.len() {
            Some(self.assets[asset as usize].issuer.clone())
        } else {
            None
        }
    }

    /// What `asset` is said to be; the empty text for an asset that is not
    /// registered.
    pub fn description(&self, asset: u32) -> (text: String)
        ensures
            text@ == if asset < self@.assets.len() {
                self@.assets[asset as int].description
            } else {
                Seq::empty()
            },
    {
        if (asset as usize) < self.assets.len() {
            self.assets[asset as usize].description.clone()
        } else {
            String::new()
        }
    }

    /// After a change to the asset `a` alone, the view differs in that asset
    /// alone, and the books of the others agree as before.
    proof fn lemma_changed(&self, before: Assets, a: int)
        requires
            before.wf(),
            0 <= a < before.assets@.len(),
            self.assets@.len() == before.assets@.len(),
            forall|b: int|
                0 <= b < before.assets@.len() && b != a ==> self.assets@[b] == before.assets@[b],
            self.caller == before.caller,
            self.contract == before.contract,
            self.live == before.live,
            asset_view(self.assets@[a]).wf(),
            asset_view(self.assets@[a]).name == asset_view(before.assets@[a]).name,
            self.assets@[a].issued == total(holding_views(self.assets@[a].holdings@)),
        ensures
            self.wf(),
            self@ == before@.with_asset(a as u32, asset_view(self.assets@[a])),
    {
        assert(self@.assets =~= before@.assets.update(a, asset_view(self.assets@[a])));
        assert forall|b: int, c: int| 0 <= b < c < self@.assets.len() implies (
        #[trigger] self@.assets[b]).name != (#[trigger] self@.assets[c]).name by {
            assert(before@.assets[b].name != before@.assets[c].name);
        }
    }
}

fn credit(holdings: &mut Vec<Holding>, owner: &Address, amount: u64)
    requires
        distinct_owners(holding_views(old(holdings)@)),
        total(holding_views(old(holdings)@)) + amount <= u64::MAX,
    ensures
        holding_views(final(holdings)@) == credited(
            holding_views(old(holdings)@),
            owner@,
            amount as nat,
        ),
{
    let ghost before = holding_views(holdings@);
    match find_holding(holdings, owner) {
        Some(at) => {
            proof {
                lemma_place(before, at as int);
                lemma_total_bounds(before, at as int, at as int);
            }
            holdings[at].amount = holdings[at].amount + amount;
        },
        None => {
            holdings.push(Holding { owner: owner.clone(), amount });
        },
    }
}

fn debit(holdings: &mut Vec<Holding>, owner: &Address, amount: u64)
    requires
        distinct_owners(holding_views(old(holdings)@)),
        amount <= balance(holding_views(old(holdings)@), owner@),
    ensures
        holding_views(final(holdings)@) == debited(
            holding_views(old(holdings)@),
            owner@,
            amount as nat,
        ),
{
    let ghost before = holding_views(holdings@);
    match find_holding(holdings, owner) {
        Some(at) => {
            proof {
                lemma_place(before, at as int);
            }
            holdings[at].amount = holdings[at].amount - amount;
        },
        None => {},
    }
}

/// One step in the life of the handles of a scope.
pub enum HandleStep {
    /// A withdrawal that made a handle.
    Withdrawn,
    /// A deposit that went through and took a handle.
    Deposited,
}

/// How many of `steps` are withdrawals.
pub open spec fn withdrawals(steps: Seq<HandleStep>) -> nat
    decreases steps.len(),
{
    if steps.len() == 0 {
        0
    } else if steps.last() is Withdrawn {
        withdrawals(steps.drop_last()) + 1
    } else {
        withdrawals(steps.drop_last())
    }
}

/// How many handles are out after `steps`, none being out before. A deposit
/// needs a handle that is out; `None` where a step of `steps` has none.
pub open spec fn live_after(steps: Seq<HandleStep>) -> Option<nat>
    decreases steps.len(),
{
    if steps.len() == 0 {
        Some(0)
    } else {
        match live_after(steps.drop_last()) {
            None => None,
            Some(live) => match steps.last() {
                HandleStep::Withdrawn => Some(live + 1),
                HandleStep::Deposited => if live > 0 {
                    Some((live - 1) as nat)
                } else {
                    None
                },
            },
        }
    }
}

/// Linearity: after any series of withdrawals and deposits, the handles
/// that are out are the withdrawn ones less the deposited ones. So the check
/// at the end of the scope passes exactly when every withdrawal was followed
/// by its deposit.
pub proof fn lemma_live_is_withdrawn_less_deposited(steps: Seq<HandleStep>)
    requires
        live_after(steps) is Some,
    ensures
        live_after(steps)->0 == 2 * withdrawals(steps) - steps.len(),
        live_after(steps)->0 == 0 <==> steps.len() == 2 * withdrawals(steps),
    decreases steps.len(),
{
    if steps.len() > 0 {
        lemma_live_is_withdrawn_less_deposited(steps.drop_last());
    }
}

/// What keeps the sums step by step keeps them over the whole series: a
/// series of transfers, withdrawals and deposits leaves the sum of the
/// holdings of every asset as it was at the start.
pub proof fn lemma_same_totals_transitive(first: AssetsView, second: AssetsView, third: AssetsView)
    requires
        second.same_totals(first),
        third.same_totals(second),
    ensures
        third.same_totals(first),
{
    assert forall|b: int| 0 <= b < third.assets.len() implies total(
        (#[trigger] third.assets[b]).holdings,
    ) == total(first.assets[b].holdings) by {
        assert(total(second.assets[b].holdings) == total(first.assets[b].holdings));
    }
}

/// Conservation at the ledger: a transfer leaves the sum of the holdings of
/// every asset as it was, and the ledger within its limits.
pub proof fn lemma_ledger_transfer_conserves(
    ledger: AssetsView,
    asset: u32,
    to: Seq<char>,
    value: u64,
    from_self: bool,
)
    requires
        ledger.wf(),
        ledger.sufficient(asset, value, from_self),
    ensures
        ledger.after_transfer(asset, to, value, from_self).wf(),
        ledger.after_transfer(asset, to, value, from_self).same_totals(ledger),
{
    lemma_transfer_conserves(
        ledger.assets[asset as int].holdings,
        Transfer { from: ledger.source(from_self), to, amount: value as nat },
    );
}

} // verus!
