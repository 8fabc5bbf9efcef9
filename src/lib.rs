//! Convergence of a DNS provider's record set with a desired list of entries.

pub mod catalog;
pub mod cloudflare;
pub mod domain;
pub mod guarantees;
pub mod models;
pub mod reconcile;
