use liquid_ledger::address::Address;
use liquid_ledger::choice::{remove_once, Transaction};
use liquid_ledger::contract::{ContractId, ContractState};
use liquid_ledger::error::Error;
use liquid_ledger::storage::Storage;

const IOU: u32 = 0;
const ITEM: u32 = 1;
const OFFER: u32 = 2;
const SHOP: u32 = 3;
const VENDOR_RELATIONSHIP: u32 = 4;
const USER_RELATIONSHIP: u32 = 5;

fn addr(name: &str) -> Address {
    Address::new(name.to_string())
}

fn fields(parts: &[String]) -> Vec<u8> {
    parts.join("|").into_bytes()
}

fn parts(payload: &[u8]) -> Vec<String> {
    String::from_utf8(payload.to_vec()).unwrap().split('|').map(|part| part.to_string()).collect()
}

fn ids_text(ids: &[ContractId]) -> String {
    ids.iter().map(|id| format!("{}:{}", id.template, id.id)).collect::<Vec<_>>().join(",")
}

fn ids_of(text: &str) -> Vec<ContractId> {
    text.split(',')
        .filter(|part| !part.is_empty())
        .map(|part| {
            let (template, id) = part.split_once(':').unwrap();
            ContractId { template: template.parse().unwrap(), id: id.parse().unwrap() }
        })
        .collect()
}

fn iou(issuer: &str, owner: &str, amount: u64, currency: &str) -> ContractState {
    ContractState {
        signers: vec![addr(issuer)],
        observers: Vec::new(),
        payload: fields(&[owner.to_string(), amount.to_string(), currency.to_string()]),
    }
}

fn item(producer: &str, owner: &str, label: &str) -> ContractState {
    ContractState {
        signers: vec![addr(producer)],
        observers: Vec::new(),
        payload: fields(&[owner.to_string(), label.to_string()]),
    }
}

fn offer(owner: &str, vendor: &str, item_id: ContractId, price: u64, currency: &str) -> ContractState {
    ContractState {
        signers: vec![addr(owner), addr(vendor)],
        observers: Vec::new(),
        payload: fields(&[ids_text(&[item_id]), price.to_string(), currency.to_string()]),
    }
}

fn shop(owner: &str, users: &[&str], offers: &[ContractId]) -> ContractState {
    ContractState {
        signers: vec![addr(owner)],
        observers: Vec::new(),
        payload: fields(&[users.join(","), ids_text(offers)]),
    }
}

fn relationship(owner: &str, member: &str) -> ContractState {
    ContractState {
        signers: vec![addr(owner), addr(member)],
        observers: Vec::new(),
        payload: fields(&[member.to_string()]),
    }
}

fn with_owner(state: &ContractState, new_owner: &str) -> ContractState {
    let mut all = parts(&state.payload);
    all[0] = new_owner.to_string();
    ContractState {
        signers: state.signers.clone(),
        observers: state.observers.clone(),
        payload: fields(&all),
    }
}

struct World {
    storage: Storage,
    shop: ContractId,
    item: ContractId,
    vendor_relationship: ContractId,
    user_relationship: ContractId,
}

fn world() -> World {
    let names: Vec<String> =
        ["Iou", "Item", "Offer", "Shop", "VendorRelationship", "UserRelationship"]
            .iter()
            .map(|name| name.to_string())
            .collect();
    let mut storage = Storage::with_templates(&names).unwrap();
    let shop_id = storage.create(SHOP, shop("owner", &["user"], &[])).unwrap();
    let item_id = storage.create(ITEM, item("producer", "vendor", "chair")).unwrap();
    let vendor_relationship =
        storage.create(VENDOR_RELATIONSHIP, relationship("owner", "vendor")).unwrap();
    let user_relationship =
        storage.create(USER_RELATIONSHIP, relationship("owner", "user")).unwrap();
    World { storage, shop: shop_id, item: item_id, vendor_relationship, user_relationship }
}

fn transfer(tx: &mut Transaction, id: ContractId, new_owner: &str) -> Result<ContractId, Error> {
    let current = tx.fetch(id)?;
    let owner = parts(&current.payload)[0].clone();
    let consumed = tx.exercise(id, &vec![addr(&owner)], true)?;
    tx.create(id.template, with_owner(&consumed, new_owner))
}

fn offer_item(
    tx: &mut Transaction,
    relationship_id: ContractId,
    shop_id: ContractId,
    item_id: ContractId,
    price: u64,
    currency: &str,
) -> Result<(ContractId, ContractId), Error> {
    let me = tx.exercise(relationship_id, &vec![addr("vendor")], false)?;
    let vendor = parts(&me.payload)[0].clone();
    let shop_state = tx.fetch(shop_id)?;
    let shop_fields = parts(&shop_state.payload);
    let mut users: Vec<Address> =
        shop_fields[0].split(',').filter(|user| !user.is_empty()).map(addr).collect();
    users.push(addr("owner"));
    let disclosed = tx.disclose(item_id, users, &vec![addr(&vendor)])?;
    let offer_id = tx.create(OFFER, offer("owner", &vendor, disclosed, price, currency))?;
    let mut offers = ids_of(&shop_fields[1]);
    offers.push(offer_id);
    let new_shop = tx.create(SHOP, shop("owner", &["user"], &offers))?;
    Ok((new_shop, offer_id))
}

fn buy_item(
    tx: &mut Transaction,
    relationship_id: ContractId,
    shop_id: ContractId,
    offer_id: ContractId,
    iou_id: ContractId,
) -> Result<(ContractId, ContractId, ContractId), Error> {
    let me = tx.exercise(relationship_id, &vec![addr("user")], false)?;
    let user = parts(&me.payload)[0].clone();
    let shop_state = tx.fetch(shop_id)?;
    let offer_state = tx.fetch(offer_id)?;
    let iou_state = tx.fetch(iou_id)?;
    let offer_fields = parts(&offer_state.payload);
    let iou_fields = parts(&iou_state.payload);
    tx.require(offer_fields[1] == iou_fields[1])?;
    tx.require(offer_fields[2] == iou_fields[2])?;
    let shop_fields = parts(&shop_state.payload);
    let open = ids_of(&shop_fields[1]);
    let left = match remove_once(&open, offer_id) {
        Ok(left) => left,
        Err(_) => {
            tx.require(false)?;
            Vec::new()
        }
    };
    let new_shop = tx.create(SHOP, shop("owner", &["user"], &left))?;
    let vendor = offer_state.signers[1].as_str().to_string();
    let settled = tx.exercise(offer_id, &vec![addr("owner")], true)?;
    let item_id = ids_of(&parts(&settled.payload)[0])[0];
    let new_item = transfer(tx, item_id, &user)?;
    let new_iou = transfer(tx, iou_id, &vendor)?;
    Ok((new_shop, new_item, new_iou))
}

fn act_for(tx: &mut Transaction, names: &[&str]) {
    for name in names {
        tx.authorize(addr(name));
    }
}

fn offered(world: World, price: u64) -> (Storage, ContractId, ContractId, ContractId) {
    let mut tx = Transaction::begin(world.storage, addr("vendor"));
    act_for(&mut tx, &["vendor", "owner", "producer"]);
    let (shop_id, offer_id) =
        offer_item(&mut tx, world.vendor_relationship, world.shop, world.item, price, "USD")
            .unwrap();
    let (storage, result) = tx.finish();
    assert_eq!(result, Ok(()));
    (storage, shop_id, offer_id, world.user_relationship)
}

fn everything(storage: &Storage) -> Vec<Vec<Option<(ContractState, bool)>>> {
    let mut all = Vec::new();
    for template in 0..6 {
        let mut table = Vec::new();
        for id in 0..storage.issued_count(template) as u32 {
            table.push(
                storage
                    .get(ContractId { template, id })
                    .map(|(state, archived)| (state.clone(), archived)),
            );
        }
        all.push(table);
    }
    all
}

#[test]
fn buying_at_the_offered_price_swaps_item_and_iou() {
    let (mut storage, shop_id, offer_id, user_relationship) = offered(world(), 100);
    let iou_id = storage.create(IOU, iou("issuer", "user", 100, "USD")).unwrap();
    let open_before = ids_of(&parts(&storage.fetch(shop_id).unwrap().payload)[1]);
    assert_eq!(open_before, vec![offer_id]);

    let mut tx = Transaction::begin(storage, addr("user"));
    act_for(&mut tx, &["user", "owner", "vendor", "issuer", "producer"]);
    let (new_shop, new_item, new_iou) =
        buy_item(&mut tx, user_relationship, shop_id, offer_id, iou_id).unwrap();
    let (storage, result) = tx.finish();
    assert_eq!(result, Ok(()));

    let open_after = ids_of(&parts(&storage.fetch(new_shop).unwrap().payload)[1]);
    assert_eq!(open_after.len() + 1, open_before.len());
    assert!(!open_after.contains(&offer_id));
    assert_eq!(parts(&storage.fetch(new_item).unwrap().payload)[0], "user");
    assert_eq!(storage.fetch(new_item).unwrap().signers, vec![addr("producer")]);
    assert_eq!(parts(&storage.fetch(new_iou).unwrap().payload)[0], "vendor");
    assert_eq!(parts(&storage.fetch(new_iou).unwrap().payload)[1], "100");
    assert_eq!(storage.fetch(offer_id), Err(Error::NotFound));
    assert_eq!(storage.fetch(iou_id), Err(Error::NotFound));
    assert!(storage.authorizers().is_empty());
}

#[test]
fn buying_below_the_price_aborts_and_changes_nothing() {
    let (mut storage, shop_id, offer_id, user_relationship) = offered(world(), 100);
    let iou_id = storage.create(IOU, iou("issuer", "user", 99, "USD")).unwrap();
    let before = everything(&storage);

    let mut tx = Transaction::begin(storage, addr("user"));
    act_for(&mut tx, &["user", "owner", "vendor", "issuer", "producer"]);
    let bought = buy_item(&mut tx, user_relationship, shop_id, offer_id, iou_id);
    assert_eq!(bought, Err(Error::InvariantViolation));
    let (storage, result) = tx.finish();

    assert_eq!(result, Err(Error::InvariantViolation));
    assert_eq!(everything(&storage), before);
    assert_eq!(ids_of(&parts(&storage.fetch(shop_id).unwrap().payload)[1]), vec![offer_id]);
    assert_eq!(parts(&storage.fetch(iou_id).unwrap().payload)[0], "user");
    assert!(storage.fetch(offer_id).is_ok());
}

#[test]
fn buying_in_another_currency_aborts() {
    let (mut storage, shop_id, offer_id, user_relationship) = offered(world(), 100);
    let iou_id = storage.create(IOU, iou("issuer", "user", 100, "EUR")).unwrap();
    let before = everything(&storage);
    let mut tx = Transaction::begin(storage, addr("user"));
    act_for(&mut tx, &["user", "owner", "vendor", "issuer", "producer"]);
    assert_eq!(
        buy_item(&mut tx, user_relationship, shop_id, offer_id, iou_id),
        Err(Error::InvariantViolation)
    );
    let (storage, result) = tx.finish();
    assert_eq!(result, Err(Error::InvariantViolation));
    assert_eq!(everything(&storage), before);
}

#[test]
fn a_failure_late_in_the_chain_undoes_the_early_writes() {
    let (mut storage, shop_id, offer_id, user_relationship) = offered(world(), 100);
    let iou_id = storage.create(IOU, iou("issuer", "user", 100, "USD")).unwrap();
    let before = everything(&storage);
    let mut tx = Transaction::begin(storage, addr("user"));
    // the issuer is not declared: the shop and the item are written, the
    // transfer of the IOU is refused
    act_for(&mut tx, &["user", "owner", "vendor", "producer"]);
    assert_eq!(
        buy_item(&mut tx, user_relationship, shop_id, offer_id, iou_id),
        Err(Error::Unauthorized)
    );
    let (storage, result) = tx.finish();
    assert_eq!(result, Err(Error::Unauthorized));
    assert_eq!(everything(&storage), before);
}

#[test]
fn a_stranger_cannot_exercise_the_vendor_s_choice() {
    let world = world();
    let before = everything(&world.storage);
    let mut tx = Transaction::begin(world.storage, addr("mallory"));
    let refused =
        offer_item(&mut tx, world.vendor_relationship, world.shop, world.item, 100, "USD");
    assert_eq!(refused, Err(Error::Unauthorized));
    let (storage, result) = tx.finish();
    assert_eq!(result, Err(Error::Unauthorized));
    assert_eq!(everything(&storage), before);
    assert_eq!(storage.issued_count(OFFER), 0);
    assert_eq!(storage.issued_count(SHOP), 1);
    assert!(!storage.get(world.item).unwrap().1);
}

#[test]
fn an_offer_discloses_the_item_by_recreating_it() {
    let world = world();
    let item_before = world.item;
    let (storage, shop_id, offer_id, _) = offered(world, 100);
    assert!(storage.get(item_before).unwrap().1);
    let offer_state = storage.fetch(offer_id).unwrap();
    let disclosed = ids_of(&parts(&offer_state.payload)[0])[0];
    assert_ne!(disclosed, item_before);
    assert_eq!(storage.fetch(disclosed).unwrap().observers, vec![addr("user"), addr("owner")]);
    assert_eq!(ids_of(&parts(&storage.fetch(shop_id).unwrap().payload)[1]), vec![offer_id]);
}
