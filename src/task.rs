//! Task-flavoured names for the ticket model: a task is a ticket.
use vstd::prelude::*;

verus! {

pub use crate::ticket::AcceptanceCriteria;

pub type Task = crate::ticket::Ticket;

pub type TaskId = crate::ticket::TicketId;

pub type TaskStatus = crate::ticket::TicketStatus;

} // verus!
