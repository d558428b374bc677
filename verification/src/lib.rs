//! Budget assignment ledger with the synchronization machinery that keeps it
//! consistent with recorded transactions and manual inter-budget transfers,
//! plus the recurring-target/schedule lifecycle a budget owns.

use vstd::prelude::*;

pub mod db;
pub mod laws;
pub mod models;
pub mod routes;

verus! {

/// Application-level error taxonomy, classified for the request layer:
/// a missing resource, a client error, or an internal failure.
#[derive(Debug)]
pub enum AppError {
    NotFound(String),
    BadRequest(String),
    InternalServerError(String),
}

} // verus!
