use vstd::prelude::*;

verus! {

/// What a definition declares.
#[derive(Clone, Copy, Debug, PartialEq, Eq, Structural)]
pub enum GenerateMode {
    /// The contract of the project.
    Contract,
    /// The interface of a foreign contract that the project calls.
    Interface,
}

/// Why a definition is refused.
#[derive(Clone, Copy, Debug, PartialEq, Eq, Structural)]
pub enum DefinitionError {
    /// The project already has its contract: it can have one only.
    ContractRedefined,
    /// An interface is defined after the contract: interfaces come first.
    InterfaceAfterContract,
}

/// A defined interface: the name of its module and the name under which the
/// contract calls it.
#[derive(Debug, PartialEq, Eq)]
pub struct InterfaceInfo {
    ident: String,
    interface_ident: String,
}

/// What an interface is called, apart from how the names are held.
pub struct InterfaceInfoView {
    pub ident: Seq<char>,
    pub interface_ident: Seq<char>,
}

impl View for InterfaceInfo {
    type V = InterfaceInfoView;

    closed spec fn view(&self) -> InterfaceInfoView {
        InterfaceInfoView { ident: self.ident@, interface_ident: self.interface_ident@ }
    }
}

impl InterfaceInfo {
    /// The name of the interface's module.
    pub fn ident(&self) -> (name: &String)
        ensures
            name@ == self@.ident,
    {
        &self.ident
    }

    /// The name under which the contract calls the interface.
    pub fn interface_ident(&self) -> (name: &String)
        ensures
            name@ == self@.interface_ident,
    {
        &self.interface_ident
    }
}

/// The definitions of one project, in the order in which they were made.
pub struct Definitions {
    contract_count: u8,
    interfaces: Vec<InterfaceInfo>,
}

/// What has been defined so far.
pub struct DefinitionsView {
    pub has_contract: bool,
    pub interfaces: Seq<InterfaceInfoView>,
}

impl View for Definitions {
    type V = DefinitionsView;

    closed spec fn view(&self) -> DefinitionsView {
        DefinitionsView {
            has_contract: self.contract_count != 0,
            interfaces: Seq::new(self.interfaces@.len(), |i: int| self.interfaces@[i]@),
        }
    }
}

impl DefinitionsView {
    /// Why a definition in the given mode is refused now, if it is.
    pub open spec fn refusal(self, mode: GenerateMode) -> Option<DefinitionError> {
        if !self.has_contract {
            None
        } else {
            match mode {
                GenerateMode::Contract => Some(DefinitionError::ContractRedefined),
                GenerateMode::Interface => Some(DefinitionError::InterfaceAfterContract),
            }
        }
    }

    /// The definitions with one more, which was not refused.
    pub open spec fn with(
        self,
        mode: GenerateMode,
        ident: Seq<char>,
        interface_ident: Seq<char>,
    ) -> DefinitionsView {
        match mode {
            GenerateMode::Contract => DefinitionsView { has_contract: true, ..self },
            GenerateMode::Interface => DefinitionsView {
                interfaces: self.interfaces.push(InterfaceInfoView { ident, interface_ident }),
                ..self
            },
        }
    }
}

impl Definitions {
    /// A project in which nothing is defined yet.
    pub fn new() -> (definitions: Definitions)
        ensures
            !definitions@.has_contract,
            definitions@.interfaces.len() == 0,
    {
        Definitions { contract_count: 0, interfaces: Vec::new() }
    }

    /// Whether the contract of the project is defined.
    pub fn has_contract(&self) -> (defined: bool)
        ensures
            defined == self@.has_contract,
    {
        self.contract_count != 0
    }

    /// The number of interfaces defined so far.
    pub fn interface_count(&self) -> (count: usize)
        ensures
            count == self@.interfaces.len(),
    {
        self.interfaces.len()
    }

    /// The interface that was defined as the `index`-th, counting from 0.
    pub fn interface(&self, index: usize) -> (info: Option<&InterfaceInfo>)
        ensures
            match info {
                Some(found) => index < self@.interfaces.len() && found@
                    == self@.interfaces[index as int],
                None => index >= self@.interfaces.len(),
            },
    {
        if index < self.interfaces.len() {
            Some(&self.interfaces[index])
        } else {
            None
        }
    }

    /// Takes note of one definition. A project has one contract, and its
    /// interfaces are defined before it: a second contract is refused, and so
    /// is an interface that comes after the contract. A refused definition
    /// leaves no trace.
    pub fn define(&mut self, mode: GenerateMode, ident: String, interface_ident: String) -> (result:
        Result<(), DefinitionError>)
        ensures
            match old(self)@.refusal(mode) {
                Some(e) => result == Err::<(), DefinitionError>(e) && final(self)@ == old(self)@,
                None => {
                    &&& result == Ok::<(), DefinitionError>(())
                    &&& final(self)@ == old(self)@.with(mode, ident@, interface_ident@)
                },
            },
    {
        match mode {
            GenerateMode::Contract => {
                if self.contract_count != 0 {
                    return Err(DefinitionError::ContractRedefined);
                }
                self.contract_count = 1;
                assert(self@.interfaces =~= old(self)@.interfaces);
                Ok(())
            },
            GenerateMode::Interface => {
                if self.contract_count != 0 {
                    return Err(DefinitionError::InterfaceAfterContract);
                }
                self.interfaces.push(InterfaceInfo { ident, interface_ident });
                assert(self@.interfaces =~= old(self)@.interfaces.push(
                    InterfaceInfoView { ident: ident@, interface_ident: interface_ident@ },
                ));
                Ok(())
            },
        }
    }
}

} // verus!
