//! The board: column configuration and the authority that mints identifiers.
use crate::ticket::{id_text, status_label, status_rank, TicketId, TicketStatus};
use vstd::prelude::*;
use vstd::string::*;

verus! {

/// How an automated agent works on a column's tickets.
#[derive(Debug, Clone, Copy, PartialEq, Eq, Structural)]
pub enum AgentMode {
    Attended,
    Unattended,
}

/// One column of the board and the status it shows.
#[derive(Debug, Clone)]
pub struct Column {
    pub name: String,
    pub status: TicketStatus,
    pub agent_enabled: bool,
    pub agent_mode: Option<AgentMode>,
}

impl Column {
    pub fn new(name: String, status: TicketStatus) -> (r: Column)
        ensures
            r.name == name,
            r.status == status,
            !r.agent_enabled,
            r.agent_mode is None,
    {
        Column { name, status, agent_enabled: false, agent_mode: None }
    }

    /// The same column with an agent working on it in the given mode.
    pub fn with_agent(self, mode: AgentMode) -> (r: Column)
        ensures
            r.name == self.name,
            r.status == self.status,
            r.agent_enabled,
            r.agent_mode == Some(mode),
    {
        let mut col = self;
        col.agent_enabled = true;
        col.agent_mode = Some(mode);
        col
    }
}

/// The board's name and its columns, in display order.
#[derive(Debug, Clone)]
pub struct BoardConfig {
    pub name: String,
    pub columns: Vec<Column>,
}

/// The shipped layout: one column per status in workflow order, named after
/// its status, with an unattended agent on the `InProgress` column only.
pub open spec fn is_default_layout(columns: Seq<Column>) -> bool {
    &&& columns.len() == 7
    &&& forall|i: int|
        0 <= i < 7 ==> {
            let c = #[trigger] columns[i];
            &&& status_rank(c.status) == i
            &&& c.name@ == status_label(c.status)
            &&& c.agent_enabled == (c.status == TicketStatus::InProgress)
            &&& c.agent_mode == (if c.status == TicketStatus::InProgress {
                Some(AgentMode::Unattended)
            } else {
                None
            })
        }
}

impl Default for BoardConfig {
    fn default() -> (r: BoardConfig)
        ensures
            r.name@ == "Default Board"@,
            is_default_layout(r.columns@),
    {
        let mut columns: Vec<Column> = Vec::new();
        columns.push(Column::new(String::from_str("New"), TicketStatus::New));
        columns.push(Column::new(String::from_str("Open"), TicketStatus::Open));
        columns.push(
            Column::new(String::from_str("In Progress"), TicketStatus::InProgress).with_agent(
                AgentMode::Unattended,
            ),
        );
        columns.push(Column::new(String::from_str("Pending"), TicketStatus::Pending));
        columns.push(Column::new(String::from_str("Review"), TicketStatus::Review));
        columns.push(Column::new(String::from_str("Done"), TicketStatus::Done));
        columns.push(Column::new(String::from_str("Closed"), TicketStatus::Closed));
        BoardConfig { name: String::from_str("Default Board"), columns }
    }
}

/// `j` is the first column that shows `status`.
pub open spec fn first_column(columns: Seq<Column>, status: TicketStatus, j: int) -> bool {
    &&& 0 <= j < columns.len()
    &&& columns[j].status == status
    &&& forall|k: int| 0 <= k < j ==> (#[trigger] columns[k]).status != status
}

/// A column shows `status`.
pub open spec fn has_column(columns: Seq<Column>, status: TicketStatus) -> bool {
    exists|j: int| 0 <= j < columns.len() && (#[trigger] columns[j]).status == status
}

/// The first column that shows a status is the only first one.
proof fn lemma_first_column_unique(columns: Seq<Column>, status: TicketStatus, a: int, b: int)
    requires
        first_column(columns, status, a),
        first_column(columns, status, b),
    ensures
        a == b,
{
    if a < b {
        assert(columns[a].status == status);
    } else if b < a {
        assert(columns[b].status == status);
    }
}

/// The identifiers are pairwise distinct.
pub open spec fn distinct_ids(ids: Seq<TicketId>) -> bool {
    forall|i: int, j: int| 0 <= i < ids.len() && 0 <= j < ids.len() && i != j ==> ids[i]@ != ids[j]@
}

/// Board state: its configuration, the identifiers it knows, and the
/// counter that the next identifier is made from.
#[derive(Debug)]
pub struct Board {
    pub config: BoardConfig,
    pub tickets: Vec<TicketId>,
    pub next_ticket_number: u32,
}

impl Board {
    /// The counter starts at one and the known identifiers are distinct.
    pub open spec fn wf(&self) -> bool {
        &&& self.next_ticket_number >= 1
        &&& distinct_ids(self.tickets@)
    }

    pub fn new(config: BoardConfig) -> (r: Board)
        ensures
            r.config == config,
            r.tickets@.len() == 0,
            r.next_ticket_number == 1,
            r.wf(),
    {
        Board { config, tickets: Vec::new(), next_ticket_number: 1 }
    }

    /// Mints the identifier for the current counter and advances the counter.
    pub fn next_ticket_id(&mut self) -> (r: TicketId)
        requires
            old(self).next_ticket_number < u32::MAX,
        ensures
            r@ == id_text(old(self).next_ticket_number as nat),
            final(self).next_ticket_number == old(self).next_ticket_number + 1,
            final(self).config == old(self).config,
            final(self).tickets == old(self).tickets,
            old(self).wf() ==> final(self).wf(),
    {
        let id = TicketId::new(self.next_ticket_number);
        self.next_ticket_number = self.next_ticket_number + 1;
        id
    }

    /// Records an identifier as known; one already known is left as it is.
    pub fn add_ticket(&mut self, ticket_id: TicketId)
        ensures
            (exists|i: int| 0 <= i < old(self).tickets@.len() && (#[trigger] old(self).tickets@[i])@ == ticket_id@)
                ==> final(self).tickets@ == old(self).tickets@,
            !(exists|i: int| 0 <= i < old(self).tickets@.len() && (#[trigger] old(self).tickets@[i])@ == ticket_id@)
                ==> final(self).tickets@ == old(self).tickets@.push(ticket_id),
            final(self).config == old(self).config,
            final(self).next_ticket_number == old(self).next_ticket_number,
            old(self).wf() ==> final(self).wf(),
    {
        let n = self.tickets.len();
        let mut i: usize = 0;
        while i < n
            invariant
                n == self.tickets@.len(),
                self == old(self),
                i <= n,
                forall|k: int| 0 <= k < i ==> (#[trigger] self.tickets@[k])@ != ticket_id@,
            decreases n - i,
        {
            if self.tickets[i] == ticket_id {
                return;
            }
            i = i + 1;
        }
        self.tickets.push(ticket_id);
        proof {
            let s = self.tickets@;
            assert forall|a: int, b: int| 0 <= a < s.len() && 0 <= b < s.len() && a != b && old(self).wf()
                implies s[a]@ != s[b]@ by {
                if a < n && b < n {
                    assert(s[a] == old(self).tickets@[a]);
                    assert(s[b] == old(self).tickets@[b]);
                } else if a < n {
                    assert(s[a] == old(self).tickets@[a]);
                } else {
                    assert(s[b] == old(self).tickets@[b]);
                }
            }
        }
    }

    /// The first column that shows `status`, if any.
    pub fn get_column_for_status(&self, status: &TicketStatus) -> (r: Option<&Column>)
        ensures
            r is None <==> !has_column(self.config.columns@, *status),
            forall|j: int| first_column(self.config.columns@, *status, j) ==> r == Some(&self.config.columns@[j]),
    {
        let n = self.config.columns.len();
        let mut i: usize = 0;
        while i < n
            invariant
                n == self.config.columns@.len(),
                i <= n,
                forall|k: int| 0 <= k < i ==> (#[trigger] self.config.columns@[k]).status != *status,
            decreases n - i,
        {
            if self.config.columns[i].status == *status {
                proof {
                    assert forall|j: int| first_column(self.config.columns@, *status, j) implies j == i by {
                        lemma_first_column_unique(self.config.columns@, *status, j, i as int);
                    }
                }
                return Some(&self.config.columns[i]);
            }
            i = i + 1;
        }
        None
    }

    /// Whether the first column that shows `status` has an agent; false when
    /// no column shows it.
    pub fn is_agent_enabled_for_status(&self, status: &TicketStatus) -> (r: bool)
        ensures
            !has_column(self.config.columns@, *status) ==> !r,
            forall|j: int|
                first_column(self.config.columns@, *status, j) ==> r == self.config.columns@[j].agent_enabled,
    {
        match self.get_column_for_status(status) {
            Some(col) => col.agent_enabled,
            None => false,
        }
    }

    /// The agent mode of the first column that shows `status`; none when no
    /// column shows it.
    pub fn get_agent_mode_for_status(&self, status: &TicketStatus) -> (r: Option<AgentMode>)
        ensures
            !has_column(self.config.columns@, *status) ==> r is None,
            forall|j: int|
                first_column(self.config.columns@, *status, j) ==> r == self.config.columns@[j].agent_mode,
    {
        match self.get_column_for_status(status) {
            Some(col) => col.agent_mode,
            None => None,
        }
    }
}

impl Default for Board {
    fn default() -> (r: Board)
        ensures
            r.config.name@ == "Default Board"@,
            is_default_layout(r.config.columns@),
            r.tickets@.len() == 0,
            r.next_ticket_number == 1,
            r.wf(),
    {
        Board::new(BoardConfig::default())
    }
}

} // verus!
