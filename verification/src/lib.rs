//! A verified business-management core: clients, suppliers, products, an
//! inventory-movement ledger, and the order/invoice/quote documents whose
//! line items each bind to exactly one stock movement.
//!
//! The store keeps the schema's rules as proved invariants: unique keys,
//! resolving foreign keys, cascade deletion, and the exclusive
//! movement-reference rule. Stock levels are never stored; they are
//! derived from the ledger on every query.

pub mod commands;
pub mod deletes;
pub mod laws;
pub mod model;
pub mod mutations;
pub mod queries;
pub mod relay;
pub mod session;
pub mod store;
