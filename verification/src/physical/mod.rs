//! Physical action claims, their pure validation, and the Core decisions that
//! turn an exact reviewed claim into finite, revocable task authority.
pub mod binding;
pub mod contracts;
pub mod control;
pub mod domains;
pub mod narrowing;
pub mod registry;
pub mod service;
pub mod session;
pub mod ledger;
