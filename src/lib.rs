//! Core domain model and storage rules for a kanban ticket tracker.
//!
//! Tickets move through a fixed status workflow, carry acceptance criteria
//! and an optional date range, and are identified by identifiers that the
//! board mints from a counter. The storage module states where records live
//! and how listing and search select them; reading and writing files is left
//! to the caller.

pub mod board;
pub mod error;
pub mod sorting;
pub mod storage;
pub mod task;
pub mod text;
pub mod ticket;
pub mod time;

pub use board::{AgentMode, Board, BoardConfig, Column};
pub use error::HlaviError;
pub use sorting::{sort_tickets, SortField, SortOrder};
pub use storage::{FileStorage, InitStep, SqliteStorage};
pub use task::{Task, TaskId, TaskStatus};
pub use ticket::{AcceptanceCriteria, Ticket, TicketId, TicketStatus};
pub use time::Timestamp;
