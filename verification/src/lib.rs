//! A multi-party contract ledger.
//!
//! Agreements between parties are held as contracts: records that their
//! signers authorized and that are never changed once stored. A contract
//! changes only through a choice, which archives the version it is exercised
//! on and creates others, and a chain of choices takes effect as a whole or
//! not at all. Value is held as assets, which move under custody of handles
//! that have to be deposited.
//!
//! - [`storage`] keeps the contracts, one table for each template, and checks
//!   who may act for whom.
//! - [`choice`] runs a chain of choices as one transaction.
//! - [`assets`] and [`balances`] keep the assets and state what a transfer
//!   does to them.
//! - [`events`] makes the log entries of the events that a contract emits.
//! - [`definition`] keeps the order in which a project defines its contract
//!   and its interfaces.
//! - [`env`] holds the rules of the buffer through which values pass between
//!   a contract and its chain.
//! - [`int256`] is a signed number of 256 bits, and [`twos`] states what
//!   bytes in two's complement stand for.

pub mod address;
pub mod assets;
pub mod balances;
pub mod choice;
pub mod contract;
pub mod definition;
pub mod env;
pub mod error;
pub mod events;
pub mod int256;
pub mod storage;
pub mod twos;
