//! A small task-list core: an order-preserving list with a single optional
//! cursor, a pending/completed task board, a command dispatcher, and a
//! verified text codec for the persisted pending list.

pub mod board;
pub mod codec;
pub mod command;
pub mod list;
