use liquid_ledger::definition::{DefinitionError, Definitions, GenerateMode};

fn s(text: &str) -> String {
    text.to_string()
}

#[test]
fn interfaces_come_before_the_one_contract() {
    let mut definitions = Definitions::new();
    assert!(!definitions.has_contract());
    assert_eq!(definitions.define(GenerateMode::Interface, s("entry"), s("Entry")), Ok(()));
    assert_eq!(definitions.define(GenerateMode::Interface, s("kv"), s("KvTable")), Ok(()));
    assert_eq!(definitions.define(GenerateMode::Contract, s("shop"), s("")), Ok(()));
    assert!(definitions.has_contract());
    assert_eq!(definitions.interface_count(), 2);
    let second = definitions.interface(1).unwrap();
    assert_eq!(second.ident(), "kv");
    assert_eq!(second.interface_ident(), "KvTable");
    assert!(definitions.interface(2).is_none());
}

#[test]
fn a_second_contract_is_refused() {
    let mut definitions = Definitions::new();
    assert_eq!(definitions.define(GenerateMode::Contract, s("one"), s("")), Ok(()));
    assert_eq!(
        definitions.define(GenerateMode::Contract, s("two"), s("")),
        Err(DefinitionError::ContractRedefined)
    );
    assert!(definitions.has_contract());
    assert_eq!(definitions.interface_count(), 0);
}

#[test]
fn an_interface_after_the_contract_is_refused() {
    let mut definitions = Definitions::new();
    assert_eq!(definitions.define(GenerateMode::Interface, s("early"), s("Early")), Ok(()));
    assert_eq!(definitions.define(GenerateMode::Contract, s("one"), s("")), Ok(()));
    assert_eq!(
        definitions.define(GenerateMode::Interface, s("late"), s("Late")),
        Err(DefinitionError::InterfaceAfterContract)
    );
    assert_eq!(definitions.interface_count(), 1);
    assert_eq!(definitions.interface(0).unwrap().ident(), "early");
}
