//! Tickets: identifiers, the status workflow, acceptance criteria and the
//! ticket aggregate that keeps their invariants.
use crate::error::HlaviError;
use crate::text::{
    all_digits, decimal, decimal_text, digits_value, is_digit, is_upper_or_digit, lemma_decimal,
    numeral_digits, numeral_value, parse_unsigned,
    same_text, upper_of, uppercase,
};
use crate::time::{current_time, Timestamp};
use vstd::prelude::*;
use vstd::string::*;

verus! {

/// The fixed prefix of every ticket identifier.
pub open spec fn id_prefix() -> Seq<char> {
    seq!['H', 'L', 'A']
}

/// The canonical identifier text for a counter value.
pub open spec fn id_text(n: nat) -> Seq<char> {
    id_prefix() + decimal(n)
}

/// Identifier text: the prefix in capitals, then a non-empty run of ASCII
/// digits, with no sign, whose value fits the counter type.
pub open spec fn is_id_text(u: Seq<char>) -> bool {
    &&& u.len() > 3
    &&& u.subrange(0, 3) == id_prefix()
    &&& all_digits(u.subrange(3, u.len() as int))
    &&& digits_value(u.subrange(3, u.len() as int)) <= u32::MAX
}

/// Text made of ASCII capitals and digits only, which upper-casing leaves as it is.
pub open spec fn all_upper_or_digit(s: Seq<char>) -> bool {
    forall|i: int| 0 <= i < s.len() ==> is_upper_or_digit(#[trigger] s[i])
}

/// Identifier of a ticket, such as `HLA1` or `HLA100`, always stored upper-case.
#[derive(Debug, Clone, Hash)]
pub struct TicketId(String);

impl View for TicketId {
    type V = Seq<char>;

    closed spec fn view(&self) -> Seq<char> {
        self.0@
    }
}

impl TicketId {
    /// The identifier for a counter value: the prefix followed by its decimal digits.
    pub fn new(counter: u32) -> (r: TicketId)
        ensures
            r@ == id_text(counter as nat),
    {
        let mut s = String::from_str("HLA");
        let digits = decimal_text(counter);
        s.append(digits.as_str());
        proof {
            reveal_strlit("HLA");
            assert("HLA"@ =~= id_prefix());
        }
        TicketId(s)
    }

    pub fn as_str(&self) -> (r: &str)
        ensures
            r@ == self@,
    {
        self.0.as_str()
    }

    /// The identifier whose text is `upper`, when `upper` is identifier text
    /// as it stands: the prefix in capitals, then a numeral that fits the
    /// counter type.
    pub fn from_upper(upper: String) -> (r: Option<TicketId>)
        ensures
            r is Some <==> is_id_text(upper@),
            r matches Some(id) ==> id@ == upper@,
    {
        let u = upper.as_str();
        let n = u.unicode_len();
        if n > 3 {
            let c0 = u.get_char(0);
            let c1 = u.get_char(1);
            let c2 = u.get_char(2);
            proof {
                let p = u@.subrange(0, 3);
                assert(p[0] == c0 && p[1] == c1 && p[2] == c2);
            }
            if c0 == 'H' && c1 == 'L' && c2 == 'A' {
                assert(u@.subrange(0, 3) =~= id_prefix());
                let rest = u.substring_char(3, n);
                let c3 = u.get_char(3);
                assert(rest@[0] == c3);
                if c3 != '+' && parse_unsigned(rest, 4294967295).is_some() {
                    assert(numeral_digits(rest@) == rest@);
                    return Some(TicketId(upper));
                }
                assert(c3 == '+' ==> !is_digit(rest@[0]));
                assert(c3 != '+' ==> numeral_digits(rest@) == rest@);
            }
        }
        None
    }

    /// Reads an identifier, ignoring case; the result holds the upper-case form.
    pub fn parse(s: &str) -> (r: Result<TicketId, HlaviError>)
        ensures
            r is Ok <==> is_id_text(upper_of(s@)),
            r matches Ok(id) ==> id@ == upper_of(s@),
            r matches Err(e) ==> (e matches HlaviError::InvalidTicketId(t) && t@ == s@),
            all_upper_or_digit(s@) ==> (r is Ok <==> is_id_text(s@)),
            all_upper_or_digit(s@) ==> (r matches Ok(id) ==> id@ == s@),
    {
        match TicketId::from_upper(uppercase(s)) {
            Some(id) => Ok(id),
            None => Err(HlaviError::InvalidTicketId(String::from_str(s))),
        }
    }
}

impl std::str::FromStr for TicketId {
    type Err = HlaviError;

    fn from_str(s: &str) -> Result<TicketId, HlaviError> {
        TicketId::parse(s)
    }
}

impl PartialEq for TicketId {
    fn eq(&self, other: &TicketId) -> (r: bool) {
        self.0 == other.0
    }
}

impl vstd::std_specs::cmp::PartialEqSpecImpl for TicketId {
    open spec fn obeys_eq_spec() -> bool {
        true
    }

    open spec fn eq_spec(&self, other: &TicketId) -> bool {
        self@ == other@
    }
}

impl Eq for TicketId {

}

/// Formatting a counter and reading the text back gives the same
/// identifier, whatever the counter: the canonical text is made of capitals
/// and digits, so reading it keeps it as it is, and it is valid identifier text.
pub proof fn lemma_id_round_trip(n: u32)
    ensures
        all_upper_or_digit(id_text(n as nat)),
        is_id_text(id_text(n as nat)),
        digits_value(id_text(n as nat).subrange(3, id_text(n as nat).len() as int)) == n,
{
    lemma_decimal(n as nat);
    let t = id_text(n as nat);
    assert(t.subrange(0, 3) =~= id_prefix());
    assert(t.subrange(3, t.len() as int) =~= decimal(n as nat));
    assert forall|i: int| 0 <= i < t.len() implies is_upper_or_digit(#[trigger] t[i]) by {
        if i >= 3 {
            assert(t[i] == decimal(n as nat)[i - 3]);
        }
    }
}

/// Where a ticket stands in the workflow.
#[derive(Debug, Clone, Copy, PartialEq, Eq, Structural)]
pub enum TicketStatus {
    New,
    Open,
    InProgress,
    Pending,
    Review,
    Done,
    Closed,
}

/// The workflow's edges: a status may always stay as it is, and may move
/// along the listed edges only.
pub open spec fn transition_allowed(from: TicketStatus, to: TicketStatus) -> bool {
    ||| from == to
    ||| (from == TicketStatus::New && to == TicketStatus::Open)
    ||| (from == TicketStatus::Open && to == TicketStatus::InProgress)
    ||| (from == TicketStatus::Open && to == TicketStatus::Closed)
    ||| (from == TicketStatus::InProgress && to == TicketStatus::Pending)
    ||| (from == TicketStatus::InProgress && to == TicketStatus::Review)
    ||| (from == TicketStatus::InProgress && to == TicketStatus::Open)
    ||| (from == TicketStatus::Pending && to == TicketStatus::Review)
    ||| (from == TicketStatus::Pending && to == TicketStatus::InProgress)
    ||| (from == TicketStatus::Review && to == TicketStatus::Done)
    ||| (from == TicketStatus::Review && to == TicketStatus::InProgress)
    ||| (from == TicketStatus::Done && to == TicketStatus::Closed)
    ||| (from == TicketStatus::Done && to == TicketStatus::InProgress)
}

/// The name of a status as shown to people.
pub open spec fn status_label(s: TicketStatus) -> Seq<char> {
    match s {
        TicketStatus::New => "New"@,
        TicketStatus::Open => "Open"@,
        TicketStatus::InProgress => "In Progress"@,
        TicketStatus::Pending => "Pending"@,
        TicketStatus::Review => "Review"@,
        TicketStatus::Done => "Done"@,
        TicketStatus::Closed => "Closed"@,
    }
}

/// The position of a status in the workflow, from `New` (0) to `Closed` (6).
pub open spec fn status_rank(s: TicketStatus) -> nat {
    match s {
        TicketStatus::New => 0,
        TicketStatus::Open => 1,
        TicketStatus::InProgress => 2,
        TicketStatus::Pending => 3,
        TicketStatus::Review => 4,
        TicketStatus::Done => 5,
        TicketStatus::Closed => 6,
    }
}

impl TicketStatus {
    /// Whether the workflow lets a ticket move from `self` to `target`.
    pub fn can_transition_to(&self, target: &TicketStatus) -> (r: bool)
        ensures
            r == transition_allowed(*self, *target),
    {
        match (*self, *target) {
            (TicketStatus::New, TicketStatus::Open) => true,
            (TicketStatus::Open, TicketStatus::InProgress) => true,
            (TicketStatus::Open, TicketStatus::Closed) => true,
            (TicketStatus::InProgress, TicketStatus::Pending) => true,
            (TicketStatus::InProgress, TicketStatus::Review) => true,
            (TicketStatus::InProgress, TicketStatus::Open) => true,
            (TicketStatus::Pending, TicketStatus::Review) => true,
            (TicketStatus::Pending, TicketStatus::InProgress) => true,
            (TicketStatus::Review, TicketStatus::Done) => true,
            (TicketStatus::Review, TicketStatus::InProgress) => true,
            (TicketStatus::Done, TicketStatus::Closed) => true,
            (TicketStatus::Done, TicketStatus::InProgress) => true,
            _ => *self == *target,
        }
    }

    /// The name of the status as shown to people.
    pub fn to_string(&self) -> (r: String)
        ensures
            r@ == status_label(*self),
    {
        match self {
            TicketStatus::New => String::from_str("New"),
            TicketStatus::Open => String::from_str("Open"),
            TicketStatus::InProgress => String::from_str("In Progress"),
            TicketStatus::Pending => String::from_str("Pending"),
            TicketStatus::Review => String::from_str("Review"),
            TicketStatus::Done => String::from_str("Done"),
            TicketStatus::Closed => String::from_str("Closed"),
        }
    }
}

/// A completable condition attached to a ticket.
#[derive(Debug, Clone)]
pub struct AcceptanceCriteria {
    pub id: usize,
    pub description: String,
    pub completed: bool,
    pub created_at: Timestamp,
    pub completed_at: Option<Timestamp>,
}

impl AcceptanceCriteria {
    /// A completion time is recorded exactly when the criterion is completed.
    pub open spec fn wf(&self) -> bool {
        self.completed <==> self.completed_at is Some
    }

    pub fn new(id: usize, description: String) -> (r: AcceptanceCriteria)
        ensures
            r.id == id,
            r.description == description,
            !r.completed,
            r.completed_at is None,
            r.created_at.is_clock_reading(),
            r.wf(),
    {
        AcceptanceCriteria {
            id,
            description,
            completed: false,
            created_at: current_time(),
            completed_at: None,
        }
    }

    pub fn mark_completed(&mut self)
        ensures
            final(self).completed,
            final(self).completed_at is Some,
            final(self).completed_at->0.is_clock_reading(),
            final(self).id == old(self).id,
            final(self).description == old(self).description,
            final(self).created_at == old(self).created_at,
            final(self).wf(),
    {
        self.completed = true;
        self.completed_at = Some(current_time());
    }

    pub fn mark_incomplete(&mut self)
        ensures
            !final(self).completed,
            final(self).completed_at is None,
            final(self).id == old(self).id,
            final(self).description == old(self).description,
            final(self).created_at == old(self).created_at,
            final(self).wf(),
    {
        self.completed = false;
        self.completed_at = None;
    }

    /// Flips the completion, setting or clearing the completion time with it.
    pub fn toggle(&mut self)
        ensures
            final(self).completed == !old(self).completed,
            final(self).id == old(self).id,
            final(self).description == old(self).description,
            final(self).created_at == old(self).created_at,
            final(self).wf(),
    {
        if self.completed {
            self.mark_incomplete();
        } else {
            self.mark_completed();
        }
    }
}

/// The two dates are in order where both are present.
pub open spec fn dates_ordered(start: Option<Timestamp>, end: Option<Timestamp>) -> bool {
    match (start, end) {
        (Some(s), Some(e)) => s.at_or_before(e),
        _ => true,
    }
}

/// A non-empty list of criteria, all of them completed.
pub open spec fn all_completed(acs: Seq<AcceptanceCriteria>) -> bool {
    acs.len() > 0 && forall|i: int| 0 <= i < acs.len() ==> #[trigger] acs[i].completed
}

/// The position that a number names, counting criteria from one.
pub open spec fn numbered_position(len: nat, identifier: Seq<char>) -> Option<int> {
    match numeral_value(identifier) {
        Some(k) => if 1 <= k && k <= len {
            Some(k - 1)
        } else {
            None
        },
        None => None,
    }
}

/// `j` is the first criterion whose description is `identifier`.
pub open spec fn first_described(acs: Seq<AcceptanceCriteria>, identifier: Seq<char>, j: int) -> bool {
    &&& 0 <= j < acs.len()
    &&& acs[j].description@ == identifier
    &&& forall|k: int| 0 <= k < j ==> (#[trigger] acs[k]).description@ != identifier
}

/// Some criterion has `identifier` as its description.
pub open spec fn has_description(acs: Seq<AcceptanceCriteria>, identifier: Seq<char>) -> bool {
    exists|j: int| 0 <= j < acs.len() && (#[trigger] acs[j]).description@ == identifier
}

/// A unit of work on the board.
#[derive(Debug, Clone)]
pub struct Ticket {
    pub id: TicketId,
    pub title: String,
    pub description: Option<String>,
    pub status: TicketStatus,
    pub acceptance_criteria: Vec<AcceptanceCriteria>,
    pub created_at: Timestamp,
    pub updated_at: Timestamp,
    pub agent_assigned: bool,
    pub rejection_reason: Option<String>,
    pub start_date: Option<Timestamp>,
    pub end_date: Option<Timestamp>,
}

/// The two tickets agree on everything but the time of the last update.
pub open spec fn same_but_update_time(a: Ticket, b: Ticket) -> bool {
    &&& a.id == b.id
    &&& a.title == b.title
    &&& a.description == b.description
    &&& a.status == b.status
    &&& a.acceptance_criteria@ == b.acceptance_criteria@
    &&& a.created_at == b.created_at
    &&& a.agent_assigned == b.agent_assigned
    &&& a.rejection_reason == b.rejection_reason
    &&& a.start_date == b.start_date
    &&& a.end_date == b.end_date
}

impl Ticket {
    /// The dates are in order and every criterion records its completion
    /// time exactly when it is completed.
    pub open spec fn wf(&self) -> bool {
        &&& dates_ordered(self.start_date, self.end_date)
        &&& forall|i: int|
            0 <= i < self.acceptance_criteria@.len() ==> (#[trigger] self.acceptance_criteria@[i]).wf()
    }

    /// A fresh ticket: status `New`, no criteria, no dates, nothing assigned.
    pub fn new(id: TicketId, title: String) -> (r: Ticket)
        ensures
            r.id == id,
            r.title == title,
            r.description is None,
            r.status == TicketStatus::New,
            r.acceptance_criteria@.len() == 0,
            r.created_at == r.updated_at,
            r.created_at.is_clock_reading(),
            !r.agent_assigned,
            r.rejection_reason is None,
            r.start_date is None,
            r.end_date is None,
            r.wf(),
    {
        let now = current_time();
        Ticket {
            id,
            title,
            description: None,
            status: TicketStatus::New,
            acceptance_criteria: Vec::new(),
            created_at: now,
            updated_at: now,
            agent_assigned: false,
            rejection_reason: None,
            start_date: None,
            end_date: None,
        }
    }

    pub fn set_title(&mut self, title: String)
        ensures
            same_but_update_time(*final(self), (Ticket { title: title, ..*old(self) })),
            final(self).updated_at.is_clock_reading(),
            old(self).wf() ==> final(self).wf(),
    {
        self.title = title;
        self.updated_at = current_time();
    }

    pub fn set_description(&mut self, description: String)
        ensures
            same_but_update_time(*final(self), (Ticket { description: Some(description), ..*old(self) })),
            final(self).updated_at.is_clock_reading(),
            old(self).wf() ==> final(self).wf(),
    {
        self.description = Some(description);
        self.updated_at = current_time();
    }

    /// Sets the start date; it may not lie after an end date already set.
    pub fn set_start_date(&mut self, date: Timestamp) -> (r: Result<(), HlaviError>)
        ensures
            r is Err <==> (old(self).end_date matches Some(e) && !date.at_or_before(e)),
            r is Err ==> r == Err::<(), HlaviError>(
                HlaviError::InvalidDateRange { start: date, end: old(self).end_date->0 },
            ),
            r is Err ==> *final(self) == *old(self),
            r is Ok ==> same_but_update_time(*final(self), (Ticket { start_date: Some(date), ..*old(self) })),
            r is Ok ==> final(self).updated_at.is_clock_reading(),
            old(self).wf() ==> final(self).wf(),
    {
        if let Some(end) = self.end_date {
            if date.is_after(&end) {
                return Err(HlaviError::InvalidDateRange { start: date, end });
            }
        }
        self.start_date = Some(date);
        self.updated_at = current_time();
        Ok(())
    }

    /// Sets the end date; it may not lie before a start date already set.
    pub fn set_end_date(&mut self, date: Timestamp) -> (r: Result<(), HlaviError>)
        ensures
            r is Err <==> (old(self).start_date matches Some(s) && !s.at_or_before(date)),
            r is Err ==> r == Err::<(), HlaviError>(
                HlaviError::InvalidDateRange { start: old(self).start_date->0, end: date },
            ),
            r is Err ==> *final(self) == *old(self),
            r is Ok ==> same_but_update_time(*final(self), (Ticket { end_date: Some(date), ..*old(self) })),
            r is Ok ==> final(self).updated_at.is_clock_reading(),
            old(self).wf() ==> final(self).wf(),
    {
        if let Some(start) = self.start_date {
            if start.is_after(&date) {
                return Err(HlaviError::InvalidDateRange { start, end: date });
            }
        }
        self.end_date = Some(date);
        self.updated_at = current_time();
        Ok(())
    }

    pub fn clear_start_date(&mut self)
        ensures
            same_but_update_time(*final(self), (Ticket { start_date: None, ..*old(self) })),
            final(self).updated_at.is_clock_reading(),
            old(self).wf() ==> final(self).wf(),
    {
        self.start_date = None;
        self.updated_at = current_time();
    }

    pub fn clear_end_date(&mut self)
        ensures
            same_but_update_time(*final(self), (Ticket { end_date: None, ..*old(self) })),
            final(self).updated_at.is_clock_reading(),
            old(self).wf() ==> final(self).wf(),
    {
        self.end_date = None;
        self.updated_at = current_time();
    }

    /// Sets both dates at once; the start may not lie after the end, and
    /// equal dates are accepted.
    pub fn set_date_range(&mut self, start: Timestamp, end: Timestamp) -> (r: Result<(), HlaviError>)
        ensures
            r is Ok <==> start.at_or_before(end),
            r is Err ==> r == Err::<(), HlaviError>(HlaviError::InvalidDateRange { start, end }),
            r is Err ==> *final(self) == *old(self),
            r is Ok ==> same_but_update_time(
                *final(self),
                (Ticket { start_date: Some(start), end_date: Some(end), ..*old(self) }),
            ),
            r is Ok ==> final(self).updated_at.is_clock_reading(),
            old(self).wf() ==> final(self).wf(),
    {
        if start.is_after(&end) {
            return Err(HlaviError::InvalidDateRange { start, end });
        }
        self.start_date = Some(start);
        self.end_date = Some(end);
        self.updated_at = current_time();
        Ok(())
    }

    /// Appends an open criterion numbered one past the current count.
    pub fn add_acceptance_criterion(&mut self, description: String)
        requires
            old(self).acceptance_criteria@.len() < usize::MAX,
        ensures
            final(self).acceptance_criteria@.len() == old(self).acceptance_criteria@.len() + 1,
            final(self).acceptance_criteria@.drop_last() == old(self).acceptance_criteria@,
            final(self).acceptance_criteria@.last().id == old(self).acceptance_criteria@.len() + 1,
            final(self).acceptance_criteria@.last().description == description,
            !final(self).acceptance_criteria@.last().completed,
            final(self).acceptance_criteria@.last().completed_at is None,
            same_but_update_time(
                *final(self),
                (Ticket { acceptance_criteria: final(self).acceptance_criteria, ..*old(self) }),
            ),
            final(self).updated_at.is_clock_reading(),
            old(self).wf() ==> final(self).wf(),
    {
        let id = self.acceptance_criteria.len() + 1;
        self.acceptance_criteria.push(AcceptanceCriteria::new(id, description));
        self.updated_at = current_time();
        assert(self.acceptance_criteria@.drop_last() =~= old(self).acceptance_criteria@);
    }

    /// Removes one criterion: the one a number names, counting from one, or
    /// else the first whose description is `identifier`. The others keep
    /// their numbers.
    pub fn remove_acceptance_criterion(&mut self, identifier: &str) -> (r: Result<(), HlaviError>)
        ensures
            numbered_position(old(self).acceptance_criteria@.len(), identifier@) matches Some(j) ==> {
                &&& r is Ok
                &&& final(self).acceptance_criteria@ == old(self).acceptance_criteria@.remove(j)
            },
            numbered_position(old(self).acceptance_criteria@.len(), identifier@) is None ==> (r is Ok
                <==> has_description(old(self).acceptance_criteria@, identifier@)),
            numbered_position(old(self).acceptance_criteria@.len(), identifier@) is None && r is Ok
                ==> exists|j: int|
                first_described(old(self).acceptance_criteria@, identifier@, j)
                    && final(self).acceptance_criteria@ == old(self).acceptance_criteria@.remove(j),
            r is Ok ==> same_but_update_time(
                *final(self),
                (Ticket { acceptance_criteria: final(self).acceptance_criteria, ..*old(self) }),
            ),
            r is Err ==> r == Err::<(), HlaviError>(HlaviError::AcceptanceCriteriaNotFound),
            r is Err ==> *final(self) == *old(self),
            r is Ok ==> final(self).updated_at.is_clock_reading(),
            old(self).wf() ==> final(self).wf(),
    {
        let len = self.acceptance_criteria.len();
        if let Some(index) = parse_unsigned(identifier, usize::MAX as u64) {
            if index > 0 && index <= len as u64 {
                self.acceptance_criteria.remove((index - 1) as usize);
                self.updated_at = current_time();
                return Ok(());
            }
        }
        let mut pos: usize = 0;
        while pos < len
            invariant
                len == self.acceptance_criteria@.len(),
                self == old(self),
                pos <= len,
                numbered_position(len as nat, identifier@) is None,
                forall|k: int| 0 <= k < pos ==> (#[trigger] self.acceptance_criteria@[k]).description@ != identifier@,
            decreases len - pos,
        {
            if same_text(self.acceptance_criteria[pos].description.as_str(), identifier) {
                assert(first_described(old(self).acceptance_criteria@, identifier@, pos as int));
                self.acceptance_criteria.remove(pos);
                self.updated_at = current_time();
                return Ok(());
            }
            pos = pos + 1;
        }
        Err(HlaviError::AcceptanceCriteriaNotFound)
    }

    /// Moves the ticket to `new_status` if the workflow allows it, replacing
    /// the rejection reason with the one given.
    pub fn transition_to(&mut self, new_status: TicketStatus, rejection_reason: Option<String>) -> (r:
        Result<(), HlaviError>)
        ensures
            r is Ok <==> transition_allowed(old(self).status, new_status),
            r matches Err(e) ==> (e matches HlaviError::InvalidStatusTransition { from, to }
                && from@ == status_label(old(self).status) && to@ == status_label(new_status)),
            r is Err ==> *final(self) == *old(self),
            r is Ok ==> same_but_update_time(
                *final(self),
                (Ticket { status: new_status, rejection_reason: rejection_reason, ..*old(self) }),
            ),
            r is Ok ==> final(self).updated_at.is_clock_reading(),
            old(self).wf() ==> final(self).wf(),
    {
        if !self.status.can_transition_to(&new_status) {
            return Err(
                HlaviError::InvalidStatusTransition {
                    from: self.status.to_string(),
                    to: new_status.to_string(),
                },
            );
        }
        self.status = new_status;
        self.rejection_reason = rejection_reason;
        self.updated_at = current_time();
        Ok(())
    }

    /// True when there is at least one criterion and all are completed.
    pub fn all_acceptance_criteria_completed(&self) -> (r: bool)
        ensures
            r == all_completed(self.acceptance_criteria@),
    {
        let n = self.acceptance_criteria.len();
        if n == 0 {
            return false;
        }
        let mut i: usize = 0;
        while i < n
            invariant
                n == self.acceptance_criteria@.len(),
                i <= n,
                forall|k: int| 0 <= k < i ==> #[trigger] self.acceptance_criteria@[k].completed,
            decreases n - i,
        {
            if !self.acceptance_criteria[i].completed {
                return false;
            }
            i = i + 1;
        }
        true
    }

    /// The ticket is in review and all of its criteria are completed.
    pub fn can_mark_done(&self) -> (r: bool)
        ensures
            r == (self.status == TicketStatus::Review && all_completed(self.acceptance_criteria@)),
    {
        self.status == TicketStatus::Review && self.all_acceptance_criteria_completed()
    }
}

} // verus!
