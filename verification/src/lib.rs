//! Smart-pointer building blocks with verified contracts.
//!
//! The crate offers a single-owner box, destruction hooks with scoped
//! disposal, reference-counted handles into a store of shared cells, and a
//! cell that enforces the shared-or-exclusive borrow rule at run time.  Cons
//! lists built from these pieces show sharing, shared mutation and the leak
//! that a reference cycle causes.

pub mod cell;
pub mod chain;
pub mod cycle;
pub mod destruction;
pub mod indirection;
pub mod list;
pub mod mut_list;
pub mod patterns;
pub mod random;
pub mod shared;
pub mod shared_cell;
