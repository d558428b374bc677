//! Request-level operations: the protocols that keep budgets, schedules
//! and transactions consistent across multi-row write sequences.

pub mod budgets;
pub mod transactions;
pub mod users;
