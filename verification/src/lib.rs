//! Core of a personal task tracker whose items can either live on a single
//! machine or be kept consistent between one authoritative server replica and
//! any number of client replicas.
//!
//! The crate covers the item kinds ([`Todo`](todo::Todo) and
//! [`Task`](task::Task)) together with their recurrence-calendar logic, the
//! replicated collection [`SyncList`](synclist::SyncList) that assigns dense
//! identifiers and enforces role-dependent removal semantics, the aggregate
//! list store [`TdList`](tdlist::TdList), the pure part of the
//! synchronization protocol ([`sync`]), and the decisions behind the
//! user-facing commands ([`commands`]). Network transport, persistence and
//! command-line handling live outside this crate and consume it through the
//! functions here.

pub mod commands;
pub mod date;
pub mod error;
pub mod item;
pub mod sync;
pub mod synclist;
pub mod task;
pub mod tdlist;
pub mod todo;

pub use commands::ItemKind;
pub use date::{Date, Weekday};
pub use error::MtdError;
pub use item::ItemState;
pub use sync::Delta;
pub use synclist::SyncList;
pub use task::Task;
pub use tdlist::TdList;
pub use todo::Todo;
