//! A connection manager: many duplex connections behind one command and event
//! interface, each connection served by a worker of its own.
//!
//! The library holds the manager's registry of workers, its routing of
//! commands and worker reports, and each worker's decisions. Spawning tasks,
//! sleeping and transport I/O belong to the caller.

mod channel;
pub mod event;
pub mod registry;
pub mod manager;
pub mod worker;

pub use channel::Received;
pub use event::{ConMgrCommand, ConMgrEvent, WorkerReport};
pub use registry::{WorkerEntry, WorkerRegistry};
pub use manager::{backoff_after, Intake, Backoff, ConMgrResult, ConnectionMgr, ConnectionMgrHandle, BATCH, IDLE_DELAY_MS};
pub use worker::{command_action, read_action, write_action, CommandAction, ConnectionWorker, NewWorker, ReadAction, ReadOutcome, RoundStep, WorkerRound};
