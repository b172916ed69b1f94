use liquid_ledger::address::{clone_addresses, contains_address, Address};
use liquid_ledger::contract::{ContractId, ContractState};
use liquid_ledger::error::Error;
use liquid_ledger::storage::Storage;

fn party(name: &str) -> Address {
    Address::new(name.to_string())
}

fn state(signers: &[&str], payload: &[u8]) -> ContractState {
    ContractState {
        signers: signers.iter().map(|name| party(name)).collect(),
        observers: Vec::new(),
        payload: payload.to_vec(),
    }
}

fn store(names: &[&str]) -> Storage {
    let names: Vec<String> = names.iter().map(|name| name.to_string()).collect();
    Storage::with_templates(&names).unwrap()
}

#[test]
fn a_new_store_has_no_template() {
    let storage = Storage::new();
    assert_eq!(storage.template_count(), 0);
    assert!(storage.authorizers().is_empty());
    assert_eq!(storage.template(&"Iou".to_string()), None);
}

#[test]
fn addresses_compare_by_their_text() {
    let alice = party("alice");
    assert!(alice.same_as(&party("alice")));
    assert!(!alice.same_as(&party("Alice")));
    assert_eq!(alice.as_str(), "alice");
    assert!(!alice.is_empty());
    assert!(party("").is_empty());
    let list = vec![party("alice"), party("bob")];
    assert!(contains_address(&list, &party("bob")));
    assert!(!contains_address(&list, &party("carol")));
    assert_eq!(clone_addresses(&list), list);
}

#[test]
fn templates_get_tags_in_order_of_registration() {
    let mut storage = Storage::new();
    assert_eq!(storage.register("Iou".to_string()), Ok(0));
    assert_eq!(storage.register("Item".to_string()), Ok(1));
    assert_eq!(storage.template_count(), 2);
    assert_eq!(storage.template(&"Item".to_string()), Some(1));
    assert_eq!(storage.template(&"Offer".to_string()), None);
}

#[test]
fn a_template_is_registered_once() {
    let mut storage = Storage::new();
    assert_eq!(storage.register("Iou".to_string()), Ok(0));
    assert_eq!(storage.register("Iou".to_string()), Err(Error::InvariantViolation));
    assert_eq!(storage.template_count(), 1);
}

#[test]
fn with_templates_refuses_a_repeated_name() {
    let names = vec!["Iou".to_string(), "Item".to_string(), "Iou".to_string()];
    assert!(matches!(Storage::with_templates(&names), Err(Error::InvariantViolation)));
    let storage = store(&["Iou", "Item", "Offer"]);
    assert_eq!(storage.template(&"Offer".to_string()), Some(2));
    assert_eq!(storage.issued_count(2), 0);
}

#[test]
fn identifiers_count_up_for_each_template_alone() {
    let mut storage = store(&["Iou", "Item"]);
    assert_eq!(storage.allocate(0), Ok(0));
    assert_eq!(storage.allocate(0), Ok(1));
    assert_eq!(storage.allocate(1), Ok(0));
    assert_eq!(storage.allocate(0), Ok(2));
    assert_eq!(storage.issued_count(0), 3);
    assert_eq!(storage.issued_count(1), 1);
    assert_eq!(storage.issued_count(7), 0);
    assert_eq!(storage.allocate(2), Err(Error::InvariantViolation));
}

#[test]
fn put_fills_an_issued_identifier_once() {
    let mut storage = store(&["Iou"]);
    let id = ContractId { template: 0, id: storage.allocate(0).unwrap() };
    assert!(storage.get(id).is_none());
    assert_eq!(storage.put(id, state(&["bank"], b"100"), false), Ok(()));
    let (found, archived) = storage.get(id).unwrap();
    assert_eq!(found, &state(&["bank"], b"100"));
    assert!(!archived);
    assert_eq!(storage.put(id, state(&["thief"], b"1"), false), Err(Error::InvariantViolation));
    let (found, _) = storage.get(id).unwrap();
    assert_eq!(found, &state(&["bank"], b"100"));
    let never_issued = ContractId { template: 0, id: 9 };
    assert_eq!(storage.put(never_issued, state(&[], b""), false), Err(Error::InvariantViolation));
    let no_template = ContractId { template: 4, id: 0 };
    assert_eq!(storage.put(no_template, state(&[], b""), false), Err(Error::InvariantViolation));
}

#[test]
fn archive_sets_the_flag_and_keeps_the_state() {
    let mut storage = store(&["Iou"]);
    let id = storage.create(0, state(&["bank"], b"100")).unwrap();
    assert_eq!(storage.archive(id), Ok(()));
    let (found, archived) = storage.get(id).unwrap();
    assert_eq!(found, &state(&["bank"], b"100"));
    assert!(archived);
    assert_eq!(storage.archive(id), Ok(()));
    assert!(storage.get(id).unwrap().1);
    assert_eq!(storage.archive(ContractId { template: 0, id: 1 }), Err(Error::NotFound));
    assert_eq!(storage.archive(ContractId { template: 3, id: 0 }), Err(Error::NotFound));
}

#[test]
fn create_stores_an_active_contract_under_the_next_identifier() {
    let mut storage = store(&["Iou", "Item"]);
    assert_eq!(storage.create(1, state(&["maker"], b"chair")), Ok(ContractId { template: 1, id: 0 }));
    assert_eq!(storage.create(1, state(&["maker"], b"table")), Ok(ContractId { template: 1, id: 1 }));
    assert_eq!(storage.create(0, state(&["bank"], b"5")), Ok(ContractId { template: 0, id: 0 }));
    assert_eq!(storage.fetch(ContractId { template: 1, id: 1 }), Ok(&state(&["maker"], b"table")));
    assert_eq!(storage.create(2, state(&[], b"")), Err(Error::InvariantViolation));
}

#[test]
fn fetch_needs_an_active_contract_and_nobody_s_authority() {
    let mut storage = store(&["Iou"]);
    let id = storage.create(0, state(&["bank"], b"100")).unwrap();
    assert_eq!(storage.fetch(id), Ok(&state(&["bank"], b"100")));
    assert_eq!(storage.fetch(ContractId { template: 0, id: 1 }), Err(Error::NotFound));
    storage.archive(id).unwrap();
    assert_eq!(storage.fetch(id), Err(Error::NotFound));
}

#[test]
fn a_consuming_exercise_archives_and_a_second_one_finds_nothing() {
    let mut storage = store(&["Iou"]);
    let id = storage.create(0, state(&["bank"], b"100")).unwrap();
    let bank = party("bank");
    let got = storage.exercise(id, &Vec::new(), &bank, true);
    assert_eq!(got, Ok(state(&["bank"], b"100")));
    assert!(storage.get(id).unwrap().1);
    assert_eq!(storage.exercise(id, &Vec::new(), &bank, true), Err(Error::NotFound));
    assert_eq!(storage.exercise(id, &Vec::new(), &bank, false), Err(Error::NotFound));
}

#[test]
fn a_choice_that_does_not_consume_leaves_the_contract_active() {
    let mut storage = store(&["Iou"]);
    let id = storage.create(0, state(&["bank"], b"100")).unwrap();
    let bank = party("bank");
    assert_eq!(storage.exercise(id, &Vec::new(), &bank, false), Ok(state(&["bank"], b"100")));
    assert!(!storage.get(id).unwrap().1);
    assert_eq!(storage.fetch(id), Ok(&state(&["bank"], b"100")));
}

#[test]
fn an_archived_contract_stays_archived_whatever_follows() {
    let mut storage = store(&["Iou", "Item"]);
    let bank = party("bank");
    let id = storage.create(0, state(&["bank"], b"100")).unwrap();
    storage.exercise(id, &Vec::new(), &bank, true).unwrap();
    storage.create(0, state(&["bank"], b"7")).unwrap();
    storage.create(1, state(&["maker"], b"chair")).unwrap();
    storage.allocate(0).unwrap();
    storage.register("Offer".to_string()).unwrap();
    assert_eq!(storage.put(id, state(&["bank"], b"100"), false), Err(Error::InvariantViolation));
    storage.authorize(party("bank"));
    let guard = storage.acquire_authorizers_guard();
    storage.release_authorizers_guard(guard);
    let (found, archived) = storage.get(id).unwrap();
    assert!(archived);
    assert_eq!(found, &state(&["bank"], b"100"));
    assert_eq!(storage.exercise(id, &Vec::new(), &bank, true), Err(Error::NotFound));
    assert_eq!(storage.fetch(id), Err(Error::NotFound));
}

#[test]
fn without_authorizers_every_required_party_is_the_caller() {
    let storage = store(&[]);
    let alice = party("alice");
    assert!(storage.is_authorized(&vec![], &alice));
    assert!(storage.is_authorized(&vec![party("alice")], &alice));
    assert!(storage.is_authorized(&vec![party("alice"), party("alice")], &alice));
    assert!(!storage.is_authorized(&vec![party("alice"), party("bob")], &alice));
    assert!(!storage.is_authorized(&vec![party("bob")], &alice));
}

#[test]
fn with_authorizers_the_caller_counts_for_nothing_more() {
    let mut storage = store(&[]);
    let alice = party("alice");
    storage.authorize(party("bob"));
    storage.authorize(party("carol"));
    assert!(storage.is_authorized(&vec![party("bob"), party("carol")], &alice));
    assert!(storage.is_authorized(&vec![], &alice));
    assert!(!storage.is_authorized(&vec![party("alice")], &alice));
    assert!(!storage.is_authorized(&vec![party("bob"), party("dave")], &alice));
}

#[test]
fn exercise_is_authorized_at_guard_depths_0_1_and_2() {
    let buyer = party("buyer");
    let mut storage = store(&["Swap"]);
    let swap = storage.create(0, state(&["buyer", "vendor"], b"")).unwrap();
    let own = storage.create(0, state(&["buyer"], b"")).unwrap();
    let controllers = vec![party("buyer")];

    // depth 0: the caller alone
    assert_eq!(storage.exercise(own, &controllers, &buyer, false), Ok(state(&["buyer"], b"")));
    assert_eq!(storage.exercise(swap, &controllers, &buyer, true), Err(Error::Unauthorized));
    assert!(!storage.get(swap).unwrap().1);

    // depth 1: one scope that declares the buyer only
    let outer = storage.acquire_authorizers_guard();
    storage.authorize(party("buyer"));
    assert_eq!(storage.exercise(swap, &controllers, &buyer, true), Err(Error::Unauthorized));

    // depth 2: a nested scope that adds the vendor
    let inner = storage.acquire_authorizers_guard();
    storage.authorize(party("vendor"));
    assert_eq!(
        storage.exercise(swap, &controllers, &buyer, false),
        Ok(state(&["buyer", "vendor"], b""))
    );
    storage.release_authorizers_guard(inner);
    assert_eq!(storage.authorizers(), vec![party("buyer")]);
    assert_eq!(storage.exercise(swap, &controllers, &buyer, true), Err(Error::Unauthorized));
    storage.release_authorizers_guard(outer);
    assert!(storage.authorizers().is_empty());
    assert_eq!(storage.exercise(swap, &controllers, &buyer, true), Err(Error::Unauthorized));
    assert!(!storage.get(swap).unwrap().1);
}

#[test]
fn controllers_are_required_beside_the_signers() {
    let mut storage = store(&["Iou"]);
    let id = storage.create(0, state(&["bank"], b"100")).unwrap();
    let bank = party("bank");
    assert_eq!(
        storage.exercise(id, &vec![party("owner")], &bank, true),
        Err(Error::Unauthorized)
    );
    storage.authorize(party("bank"));
    storage.authorize(party("owner"));
    assert_eq!(
        storage.exercise(id, &vec![party("owner")], &party("anyone"), true),
        Ok(state(&["bank"], b"100"))
    );
}

#[test]
fn a_missing_contract_is_reported_before_a_missing_authority() {
    let mut storage = store(&["Iou"]);
    let nobody = party("nobody");
    assert_eq!(
        storage.exercise(ContractId { template: 0, id: 0 }, &vec![party("bank")], &nobody, true),
        Err(Error::NotFound)
    );
}

#[test]
fn a_released_guard_cuts_the_authorizers_back() {
    let mut storage = store(&[]);
    storage.authorize(party("a"));
    let guard = storage.acquire_authorizers_guard();
    storage.authorize(party("b"));
    storage.authorize(party("c"));
    assert_eq!(storage.authorizers().len(), 3);
    storage.release_authorizers_guard(guard);
    assert_eq!(storage.authorizers(), vec![party("a")]);
}

#[test]
fn a_stale_guard_does_not_lengthen_the_list() {
    let mut storage = store(&[]);
    storage.authorize(party("a"));
    storage.authorize(party("b"));
    let late = storage.acquire_authorizers_guard();
    let guard = {
        let mut other = store(&[]);
        other.authorize(party("x"));
        other.acquire_authorizers_guard()
    };
    storage.release_authorizers_guard(guard);
    assert_eq!(storage.authorizers(), vec![party("a")]);
    storage.release_authorizers_guard(late);
    assert_eq!(storage.authorizers(), vec![party("a")]);
}

#[test]
fn disclosed_to_replaces_the_observers_only() {
    let before = ContractState {
        signers: vec![party("maker")],
        observers: vec![party("old")],
        payload: b"chair".to_vec(),
    };
    let after = before.disclosed_to(vec![party("u1"), party("u2")]);
    assert_eq!(after.signers, before.signers);
    assert_eq!(after.payload, before.payload);
    assert_eq!(after.observers, vec![party("u1"), party("u2")]);
    assert_eq!(before.clone(), before);
}
