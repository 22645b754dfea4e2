//! Dispatching messages from an at-least-once queue to a user handler.
//!
//! A [`Dispatcher`] keeps the receipts of the messages that are being worked
//! on, says which queue calls are due after each event of its loop, and never
//! asks for a message to be deleted before its worker has returned.
pub mod batch;
pub mod command;
pub mod dispatch;
pub mod history;
pub mod message;
pub mod pool;
pub mod registry;
pub mod request;
pub mod server;

pub use dispatch::{Dispatch, Dispatcher, Phase, WorkerOutcome};
pub use message::Message;
pub use registry::ReceiptSet;
pub use server::{Handler, Server, WithGracefulShutdown};
