//! Ordering tickets for display.
use crate::storage::lemma_insert_to_multiset;
use crate::text::{compare_text, lemma_text_cmp_reverse, lemma_text_cmp_transitive, lower_of, lowercase, same_text, text_cmp};
use crate::ticket::{status_rank, AcceptanceCriteria, Ticket, TicketStatus};
use crate::time::Timestamp;
use std::cmp::Ordering;
use vstd::prelude::*;
use vstd::string::*;

verus! {

broadcast use vstd::seq_lib::group_to_multiset_ensures;

/// What tickets can be sorted by.
#[derive(Debug, Clone, Copy, PartialEq, Eq, Structural)]
pub enum SortField {
    Id,
    Title,
    Status,
    Created,
    Updated,
    Start,
    End,
    AcProgress,
    AcCount,
}

/// The direction of a sort.
#[derive(Debug, Clone, Copy, PartialEq, Eq, Structural)]
pub enum SortOrder {
    Ascending,
    Descending,
}

/// The sort field a lower-case name stands for.
pub open spec fn sort_field_named(name: Seq<char>) -> Option<SortField> {
    if name == "id"@ {
        Some(SortField::Id)
    } else if name == "title"@ {
        Some(SortField::Title)
    } else if name == "status"@ {
        Some(SortField::Status)
    } else if name == "created"@ {
        Some(SortField::Created)
    } else if name == "updated"@ {
        Some(SortField::Updated)
    } else if name == "start"@ {
        Some(SortField::Start)
    } else if name == "end"@ {
        Some(SortField::End)
    } else if name == "ac-progress"@ {
        Some(SortField::AcProgress)
    } else if name == "ac-count"@ {
        Some(SortField::AcCount)
    } else {
        None
    }
}

/// The sort order a lower-case name stands for.
pub open spec fn sort_order_named(name: Seq<char>) -> Option<SortOrder> {
    if name == "asc"@ {
        Some(SortOrder::Ascending)
    } else if name == "desc"@ {
        Some(SortOrder::Descending)
    } else {
        None
    }
}

impl SortField {
    /// The sort field that a lower-case name stands for.
    pub fn from_lower_name(l: &str) -> (r: Option<SortField>)
        ensures
            r == sort_field_named(l@),
    {
        if same_text(l, "id") {
            Some(SortField::Id)
        } else if same_text(l, "title") {
            Some(SortField::Title)
        } else if same_text(l, "status") {
            Some(SortField::Status)
        } else if same_text(l, "created") {
            Some(SortField::Created)
        } else if same_text(l, "updated") {
            Some(SortField::Updated)
        } else if same_text(l, "start") {
            Some(SortField::Start)
        } else if same_text(l, "end") {
            Some(SortField::End)
        } else if same_text(l, "ac-progress") {
            Some(SortField::AcProgress)
        } else if same_text(l, "ac-count") {
            Some(SortField::AcCount)
        } else {
            None
        }
    }

    /// Reads a sort field name, ignoring case.
    pub fn parse(s: &str) -> (r: Result<SortField, String>)
        ensures
            sort_field_named(lower_of(s@)) matches Some(f) ==> r == Ok::<SortField, String>(f),
            sort_field_named(lower_of(s@)) is None ==> (r matches Err(m) && m@ == "Invalid sort field '"@
                + s@ + "'. Valid fields: id, title, status, created, updated, start, end, ac-progress, ac-count"@),
    {
        let lower = lowercase(s);
        match SortField::from_lower_name(lower.as_str()) {
            Some(f) => Ok(f),
            None => {
                let mut m = String::from_str("Invalid sort field '");
                m.append(s);
                m.append(
                    "'. Valid fields: id, title, status, created, updated, start, end, ac-progress, ac-count",
                );
                Err(m)
            },
        }
    }
}

impl std::str::FromStr for SortField {
    type Err = String;

    fn from_str(s: &str) -> Result<SortField, String> {
        SortField::parse(s)
    }
}

impl SortOrder {
    /// The sort order that a lower-case name stands for.
    pub fn from_lower_name(l: &str) -> (r: Option<SortOrder>)
        ensures
            r == sort_order_named(l@),
    {
        if same_text(l, "asc") {
            Some(SortOrder::Ascending)
        } else if same_text(l, "desc") {
            Some(SortOrder::Descending)
        } else {
            None
        }
    }

    /// Reads a sort order name, ignoring case.
    pub fn parse(s: &str) -> (r: Result<SortOrder, String>)
        ensures
            sort_order_named(lower_of(s@)) matches Some(o) ==> r == Ok::<SortOrder, String>(o),
            sort_order_named(lower_of(s@)) is None ==> (r matches Err(m) && m@ == "Invalid sort order '"@
                + s@ + "'. Valid orders: asc, desc"@),
    {
        let lower = lowercase(s);
        match SortOrder::from_lower_name(lower.as_str()) {
            Some(o) => Ok(o),
            None => {
                let mut m = String::from_str("Invalid sort order '");
                m.append(s);
                m.append("'. Valid orders: asc, desc");
                Err(m)
            },
        }
    }
}

impl std::str::FromStr for SortOrder {
    type Err = String;

    fn from_str(s: &str) -> Result<SortOrder, String> {
        SortOrder::parse(s)
    }
}

pub open spec fn int_cmp(a: int, b: int) -> Ordering {
    if a < b {
        Ordering::Less
    } else if a > b {
        Ordering::Greater
    } else {
        Ordering::Equal
    }
}

pub open spec fn reversed(o: Ordering) -> Ordering {
    match o {
        Ordering::Less => Ordering::Greater,
        Ordering::Equal => Ordering::Equal,
        Ordering::Greater => Ordering::Less,
    }
}

/// Instants in time order.
pub open spec fn time_cmp(a: Timestamp, b: Timestamp) -> Ordering {
    if a.seconds != b.seconds {
        int_cmp(a.seconds as int, b.seconds as int)
    } else {
        int_cmp(a.nanos as int, b.nanos as int)
    }
}

/// Optional dates in time order, with every present date before every absent one.
pub open spec fn date_cmp(a: Option<Timestamp>, b: Option<Timestamp>) -> Ordering {
    match (a, b) {
        (Some(x), Some(y)) => time_cmp(x, y),
        (Some(_), None) => Ordering::Less,
        (None, Some(_)) => Ordering::Greater,
        (None, None) => Ordering::Equal,
    }
}

/// The number of completed criteria.
pub open spec fn completed_count(acs: Seq<AcceptanceCriteria>) -> nat
    decreases acs.len(),
{
    if acs.len() == 0 {
        0
    } else {
        completed_count(acs.drop_last()) + if acs.last().completed {
            1nat
        } else {
            0nat
        }
    }
}

/// Completion fractions compared exactly: `done / total` for each ticket,
/// and zero for a ticket without criteria.
pub open spec fn progress_cmp(a: Ticket, b: Ticket) -> Ordering {
    let ta = a.acceptance_criteria@.len();
    let tb = b.acceptance_criteria@.len();
    let na: int = if ta == 0 { 0 } else { completed_count(a.acceptance_criteria@) as int };
    let nb: int = if tb == 0 { 0 } else { completed_count(b.acceptance_criteria@) as int };
    let da: int = if ta == 0 { 1 } else { ta as int };
    let db: int = if tb == 0 { 1 } else { tb as int };
    int_cmp(na * db, nb * da)
}

/// How two tickets compare on one field, in ascending order. Titles are
/// compared lower-cased.
pub open spec fn field_cmp(a: Ticket, b: Ticket, field: SortField) -> Ordering {
    match field {
        SortField::Id => text_cmp(a.id@, b.id@),
        SortField::Title => text_cmp(lower_of(a.title@), lower_of(b.title@)),
        SortField::Status => int_cmp(status_rank(a.status) as int, status_rank(b.status) as int),
        SortField::Created => time_cmp(a.created_at, b.created_at),
        SortField::Updated => time_cmp(a.updated_at, b.updated_at),
        SortField::Start => date_cmp(a.start_date, b.start_date),
        SortField::End => date_cmp(a.end_date, b.end_date),
        SortField::AcProgress => progress_cmp(a, b),
        SortField::AcCount => int_cmp(
            a.acceptance_criteria@.len() as int,
            b.acceptance_criteria@.len() as int,
        ),
    }
}

/// Optional dates in the given direction: present dates by time, reversed
/// when descending, and every present date before every absent one in
/// either direction.
pub open spec fn date_cmp_in(a: Option<Timestamp>, b: Option<Timestamp>, order: SortOrder) -> Ordering {
    match (a, b) {
        (Some(x), Some(y)) => match order {
            SortOrder::Ascending => time_cmp(x, y),
            SortOrder::Descending => time_cmp(y, x),
        },
        (Some(_), None) => Ordering::Less,
        (None, Some(_)) => Ordering::Greater,
        (None, None) => Ordering::Equal,
    }
}

/// How two tickets compare on one field in the given direction. Descending
/// reverses the ascending comparison, except that tickets without the date
/// sorted on come last in either direction.
pub open spec fn sort_cmp(a: Ticket, b: Ticket, field: SortField, order: SortOrder) -> Ordering {
    match field {
        SortField::Start => date_cmp_in(a.start_date, b.start_date, order),
        SortField::End => date_cmp_in(a.end_date, b.end_date, order),
        _ => match order {
            SortOrder::Ascending => field_cmp(a, b, field),
            SortOrder::Descending => reversed(field_cmp(a, b, field)),
        },
    }
}

/// Each ticket comes no later in the order than the next one.
pub open spec fn tickets_in_order(ts: Seq<Ticket>, field: SortField, order: SortOrder) -> bool {
    forall|i: int|
        0 <= i < ts.len() - 1 ==> #[trigger] sort_cmp(ts[i], ts[i + 1], field, order) != Ordering::Greater
}

/// Swapping two tickets reverses how they compare.
pub proof fn lemma_sort_cmp_reverse(a: Ticket, b: Ticket, field: SortField, order: SortOrder)
    ensures
        sort_cmp(a, b, field, order) == Ordering::Greater ==> sort_cmp(b, a, field, order) == Ordering::Less,
        sort_cmp(a, b, field, order) == Ordering::Equal ==> sort_cmp(b, a, field, order) == Ordering::Equal,
{
    lemma_text_cmp_reverse(a.id@, b.id@);
    lemma_text_cmp_reverse(lower_of(a.title@), lower_of(b.title@));
}

/// Coming no later is transitive.
pub proof fn lemma_sort_cmp_transitive(a: Ticket, b: Ticket, c: Ticket, field: SortField, order: SortOrder)
    requires
        sort_cmp(a, b, field, order) != Ordering::Greater,
        sort_cmp(b, c, field, order) != Ordering::Greater,
    ensures
        sort_cmp(a, c, field, order) != Ordering::Greater,
{
    if field != SortField::Start && field != SortField::End {
        let (x, y, z) = match order {
            SortOrder::Ascending => (a, b, c),
            SortOrder::Descending => (c, b, a),
        };
        if order == SortOrder::Descending {
            lemma_field_cmp_reverse(a, b, field);
            lemma_field_cmp_reverse(b, c, field);
            lemma_field_cmp_reverse(a, c, field);
        }
        lemma_field_cmp_transitive(x, y, z, field);
    }
}

proof fn lemma_field_cmp_reverse(a: Ticket, b: Ticket, field: SortField)
    ensures
        field_cmp(a, b, field) == reversed(field_cmp(b, a, field)),
{
    lemma_text_cmp_reverse(a.id@, b.id@);
    lemma_text_cmp_reverse(lower_of(a.title@), lower_of(b.title@));
}

proof fn lemma_field_cmp_transitive(a: Ticket, b: Ticket, c: Ticket, field: SortField)
    requires
        field_cmp(a, b, field) != Ordering::Greater,
        field_cmp(b, c, field) != Ordering::Greater,
    ensures
        field_cmp(a, c, field) != Ordering::Greater,
{
    match field {
        SortField::Id => lemma_text_cmp_transitive(a.id@, b.id@, c.id@),
        SortField::Title => lemma_text_cmp_transitive(
            lower_of(a.title@),
            lower_of(b.title@),
            lower_of(c.title@),
        ),
        SortField::AcProgress => {
            let ta = a.acceptance_criteria@.len();
            let tb = b.acceptance_criteria@.len();
            let tc = c.acceptance_criteria@.len();
            let na: int = if ta == 0 { 0 } else { completed_count(a.acceptance_criteria@) as int };
            let nb: int = if tb == 0 { 0 } else { completed_count(b.acceptance_criteria@) as int };
            let nc: int = if tc == 0 { 0 } else { completed_count(c.acceptance_criteria@) as int };
            let da: int = if ta == 0 { 1 } else { ta as int };
            let db: int = if tb == 0 { 1 } else { tb as int };
            let dc: int = if tc == 0 { 1 } else { tc as int };
            assert(na * dc <= nc * da) by (nonlinear_arith)
                requires
                    na * db <= nb * da,
                    nb * dc <= nc * db,
                    da > 0,
                    db > 0,
                    dc > 0,
            {
                assert(na * db * dc <= nb * da * dc);
                assert(nb * dc * da <= nc * db * da);
            }
        },
        _ => {},
    }
}

/// Each ticket comes no later than every later one.
pub open spec fn tickets_sorted(ts: Seq<Ticket>, field: SortField, order: SortOrder) -> bool {
    forall|i: int, j: int|
        0 <= i < j < ts.len() ==> #[trigger] sort_cmp(ts[i], ts[j], field, order) != Ordering::Greater
}

proof fn lemma_in_order_to_pair(ts: Seq<Ticket>, field: SortField, order: SortOrder, i: int, j: int)
    requires
        tickets_in_order(ts, field, order),
        0 <= i < j < ts.len(),
    ensures
        sort_cmp(ts[i], ts[j], field, order) != Ordering::Greater,
    decreases j - i,
{
    assert(sort_cmp(ts[j - 1], ts[(j - 1) + 1], field, order) != Ordering::Greater);
    if j > i + 1 {
        lemma_in_order_to_pair(ts, field, order, i, j - 1);
        lemma_sort_cmp_transitive(ts[i], ts[j - 1], ts[j], field, order);
    }
}

/// Tickets whose neighbours are in order are in order throughout.
proof fn lemma_in_order_sorted(ts: Seq<Ticket>, field: SortField, order: SortOrder)
    requires
        tickets_in_order(ts, field, order),
    ensures
        tickets_sorted(ts, field, order),
{
    assert forall|i: int, j: int| 0 <= i < j < ts.len() implies #[trigger] sort_cmp(
        ts[i],
        ts[j],
        field,
        order,
    ) != Ordering::Greater by {
        lemma_in_order_to_pair(ts, field, order, i, j);
    }
}

fn int_order(a: u128, b: u128) -> (r: Ordering)
    ensures
        r == int_cmp(a as int, b as int),
{
    if a < b {
        Ordering::Less
    } else if a > b {
        Ordering::Greater
    } else {
        Ordering::Equal
    }
}

/// Compares two statuses by their place in the workflow.
pub fn compare_status(a: &TicketStatus, b: &TicketStatus) -> (r: Ordering)
    ensures
        r == int_cmp(status_rank(*a) as int, status_rank(*b) as int),
{
    int_order(status_order(a), status_order(b))
}

fn status_order(s: &TicketStatus) -> (r: u128)
    ensures
        r == status_rank(*s),
{
    match s {
        TicketStatus::New => 0,
        TicketStatus::Open => 1,
        TicketStatus::InProgress => 2,
        TicketStatus::Pending => 3,
        TicketStatus::Review => 4,
        TicketStatus::Done => 5,
        TicketStatus::Closed => 6,
    }
}

fn compare_times(a: &Timestamp, b: &Timestamp) -> (r: Ordering)
    ensures
        r == time_cmp(*a, *b),
{
    if a.seconds < b.seconds {
        Ordering::Less
    } else if a.seconds > b.seconds {
        Ordering::Greater
    } else {
        int_order(a.nanos as u128, b.nanos as u128)
    }
}

/// Compares optional dates: present dates by time, and every present date
/// before every absent one.
pub fn compare_option_dates(a: Option<Timestamp>, b: Option<Timestamp>) -> (r: Ordering)
    ensures
        r == date_cmp(a, b),
{
    match (a, b) {
        (Some(x), Some(y)) => compare_times(&x, &y),
        (Some(_), None) => Ordering::Less,
        (None, Some(_)) => Ordering::Greater,
        (None, None) => Ordering::Equal,
    }
}

fn count_completed(acs: &Vec<AcceptanceCriteria>) -> (r: usize)
    ensures
        r == completed_count(acs@),
        r <= acs@.len(),
{
    let mut count: usize = 0;
    let mut i: usize = 0;
    while i < acs.len()
        invariant
            i <= acs@.len(),
            count == completed_count(acs@.subrange(0, i as int)),
            count <= i,
        decreases acs@.len() - i,
    {
        let ghost next = acs@.subrange(0, i + 1);
        assert(next.drop_last() =~= acs@.subrange(0, i as int));
        if acs[i].completed {
            count = count + 1;
        }
        i = i + 1;
    }
    assert(acs@.subrange(0, acs@.len() as int) =~= acs@);
    count
}

/// Compares the share of completed criteria, exactly; a ticket without
/// criteria counts as having none completed.
pub fn compare_ac_progress(a: &Ticket, b: &Ticket) -> (r: Ordering)
    ensures
        r == progress_cmp(*a, *b),
{
    let ta = a.acceptance_criteria.len();
    let tb = b.acceptance_criteria.len();
    let na: u128 = if ta == 0 { 0 } else { count_completed(&a.acceptance_criteria) as u128 };
    let nb: u128 = if tb == 0 { 0 } else { count_completed(&b.acceptance_criteria) as u128 };
    let da: u128 = if ta == 0 { 1 } else { ta as u128 };
    let db: u128 = if tb == 0 { 1 } else { tb as u128 };
    assert(na * db <= u64::MAX as u128 * u64::MAX as u128) by (nonlinear_arith)
        requires
            na <= u64::MAX,
            db <= u64::MAX,
    ;
    assert(nb * da <= u64::MAX as u128 * u64::MAX as u128) by (nonlinear_arith)
        requires
            nb <= u64::MAX,
            da <= u64::MAX,
    ;
    int_order(na * db, nb * da)
}

/// Compares two tickets on one field, in ascending order.
pub fn compare_tickets(a: &Ticket, b: &Ticket, field: SortField) -> (r: Ordering)
    ensures
        r == field_cmp(*a, *b, field),
{
    match field {
        SortField::Id => compare_text(a.id.as_str(), b.id.as_str()),
        SortField::Title => {
            let x = lowercase(a.title.as_str());
            let y = lowercase(b.title.as_str());
            compare_text(x.as_str(), y.as_str())
        },
        SortField::Status => compare_status(&a.status, &b.status),
        SortField::Created => compare_times(&a.created_at, &b.created_at),
        SortField::Updated => compare_times(&a.updated_at, &b.updated_at),
        SortField::Start => compare_option_dates(a.start_date, b.start_date),
        SortField::End => compare_option_dates(a.end_date, b.end_date),
        SortField::AcProgress => compare_ac_progress(a, b),
        SortField::AcCount => int_order(
            a.acceptance_criteria.len() as u128,
            b.acceptance_criteria.len() as u128,
        ),
    }
}

fn compare_dates_in(a: Option<Timestamp>, b: Option<Timestamp>, order: SortOrder) -> (r: Ordering)
    ensures
        r == date_cmp_in(a, b, order),
{
    match (a, b) {
        (Some(x), Some(y)) => match order {
            SortOrder::Ascending => compare_times(&x, &y),
            SortOrder::Descending => compare_times(&y, &x),
        },
        (Some(_), None) => Ordering::Less,
        (None, Some(_)) => Ordering::Greater,
        (None, None) => Ordering::Equal,
    }
}

fn compare_in_order(a: &Ticket, b: &Ticket, field: SortField, order: SortOrder) -> (r: Ordering)
    ensures
        r == sort_cmp(*a, *b, field, order),
{
    match field {
        SortField::Start => compare_dates_in(a.start_date, b.start_date, order),
        SortField::End => compare_dates_in(a.end_date, b.end_date, order),
        _ => {
            let c = compare_tickets(a, b, field);
            match order {
                SortOrder::Ascending => c,
                SortOrder::Descending => match c {
                    Ordering::Less => Ordering::Greater,
                    Ordering::Equal => Ordering::Equal,
                    Ordering::Greater => Ordering::Less,
                },
            }
        },
    }
}

/// Puts `t` after every ticket that does not come after it.
fn insert_ticket(out: &mut Vec<Ticket>, t: Ticket, field: SortField, order: SortOrder) -> (k: usize)
    requires
        tickets_in_order(old(out)@, field, order),
    ensures
        k <= old(out)@.len(),
        final(out)@ == old(out)@.insert(k as int, t),
        k < old(out)@.len() ==> sort_cmp(old(out)@[k as int], t, field, order) == Ordering::Greater,
        tickets_in_order(final(out)@, field, order),
        final(out)@.to_multiset() == old(out)@.to_multiset().insert(t),
{
    let n = out.len();
    let mut k: usize = 0;
    loop
        invariant
            k <= n,
            n == out@.len(),
            out@ == old(out)@,
            forall|j: int| 0 <= j < k ==> sort_cmp(#[trigger] out@[j], t, field, order) != Ordering::Greater,
        ensures
            k <= n,
            out@ == old(out)@,
            forall|j: int| 0 <= j < k ==> sort_cmp(#[trigger] out@[j], t, field, order) != Ordering::Greater,
            k == n || sort_cmp(out@[k as int], t, field, order) == Ordering::Greater,
        decreases n - k,
    {
        if k == n {
            break;
        }
        let c = compare_in_order(&out[k], &t, field, order);
        if let Ordering::Greater = c {
            break;
        }
        k = k + 1;
    }
    let ghost before = out@;
    out.insert(k, t);
    proof {
        let s = out@;
        assert(s =~= before.insert(k as int, t));
        lemma_insert_to_multiset(before, k as int, t);
        assert forall|i: int| 0 <= i < s.len() - 1 implies #[trigger] sort_cmp(s[i], s[i + 1], field, order)
            != Ordering::Greater by {
            if i + 1 < k {
                assert(s[i] == before[i] && s[i + 1] == before[i + 1]);
                assert(sort_cmp(before[i], before[i + 1], field, order) != Ordering::Greater);
            } else if i + 1 == k {
                assert(s[i] == before[i] && s[i + 1] == t);
                assert(sort_cmp(before[i], t, field, order) != Ordering::Greater);
            } else if i == k {
                assert(s[i] == t && s[i + 1] == before[i]);
                lemma_sort_cmp_reverse(before[i], t, field, order);
            } else {
                assert(s[i] == before[i - 1] && s[i + 1] == before[i]);
                assert(sort_cmp(before[i - 1], before[(i - 1) + 1], field, order) != Ordering::Greater);
            }
        }
    }
    k
}

/// `p` sends each place of `after` to the place in `before` that its ticket
/// came from, one to one, and tickets that compare equal keep their
/// relative order.
pub open spec fn stable_arrangement(
    before: Seq<Ticket>,
    after: Seq<Ticket>,
    p: Seq<int>,
    field: SortField,
    order: SortOrder,
) -> bool {
    &&& p.len() == after.len()
    &&& after.len() == before.len()
    &&& forall|i: int| 0 <= i < p.len() ==> 0 <= #[trigger] p[i] < before.len() && after[i] == before[p[i]]
    &&& forall|i: int, j: int| #![trigger p[i], p[j]] 0 <= i < j < p.len() ==> p[i] != p[j]
    &&& forall|i: int, j: int|
        0 <= i < j < p.len() && #[trigger] sort_cmp(after[i], after[j], field, order) == Ordering::Equal
            ==> p[i] < p[j]
}

/// Sorts the tickets by `field` in the direction `order`, keeping the
/// relative order of tickets that compare equal. For the start and end
/// dates, tickets without that date come last in either direction.
pub fn sort_tickets(tickets: &mut Vec<Ticket>, field: SortField, order: SortOrder)
    ensures
        tickets_sorted(final(tickets)@, field, order),
        final(tickets)@.to_multiset() == old(tickets)@.to_multiset(),
        exists|p: Seq<int>| stable_arrangement(old(tickets)@, final(tickets)@, p, field, order),
        field == SortField::Start ==> forall|i: int, j: int|
            0 <= i < j < final(tickets)@.len() && (#[trigger] final(tickets)@[i]).start_date is None
                ==> (#[trigger] final(tickets)@[j]).start_date is None,
        field == SortField::End ==> forall|i: int, j: int|
            0 <= i < j < final(tickets)@.len() && (#[trigger] final(tickets)@[i]).end_date is None
                ==> (#[trigger] final(tickets)@[j]).end_date is None,
{
    let ghost all = tickets@;
    let ghost n0 = tickets@.len();
    let ghost mut m: int = 0;
    let ghost mut pos: Seq<int> = Seq::empty();
    let mut out: Vec<Ticket> = Vec::new();
    assert(out@.to_multiset().add(tickets@.to_multiset()) =~= old(tickets)@.to_multiset());
    assert(all.subrange(0, n0 as int) =~= all);
    while tickets.len() > 0
        invariant
            all == old(tickets)@,
            n0 == all.len(),
            0 <= m <= n0,
            tickets@ == all.subrange(m, n0 as int),
            tickets_in_order(out@, field, order),
            out@.to_multiset().add(tickets@.to_multiset()) == all.to_multiset(),
            pos.len() == out@.len(),
            out@.len() == m,
            forall|i: int| 0 <= i < pos.len() ==> 0 <= #[trigger] pos[i] < m && out@[i] == all[pos[i]],
            forall|i: int, j: int| #![trigger pos[i], pos[j]] 0 <= i < j < pos.len() ==> pos[i] != pos[j],
            forall|i: int, j: int|
                0 <= i < j < pos.len() && #[trigger] sort_cmp(out@[i], out@[j], field, order)
                    == Ordering::Equal ==> pos[i] < pos[j],
        decreases tickets@.len(),
    {
        let ghost before = tickets@;
        let ghost o = out@;
        let t = tickets.remove(0);
        assert(before.remove(0) =~= tickets@);
        assert(before.contains(t));
        assert(t == all[m]);
        proof {
            lemma_in_order_sorted(o, field, order);
        }
        let k = insert_ticket(&mut out, t, field, order);
        assert(out@.to_multiset().add(tickets@.to_multiset()) =~= o.to_multiset().add(
            before.to_multiset(),
        ));
        proof {
            let np = pos.insert(k as int, m);
            let s = out@;
            let ki = k as int;
            assert forall|i: int| 0 <= i < np.len() implies 0 <= #[trigger] np[i] < m + 1 && s[i] == all[np[i]] by {
                if i < ki {
                    assert(np[i] == pos[i] && s[i] == o[i]);
                } else if i > ki {
                    assert(np[i] == pos[i - 1] && s[i] == o[i - 1]);
                }
            }
            assert forall|i: int, j: int| #![trigger np[i], np[j]] 0 <= i < j < np.len() implies np[i] != np[j] by {
                let a = if i < ki { i } else { i - 1 };
                let b = if j < ki { j } else { j - 1 };
                if i != ki && j != ki {
                    assert(np[i] == pos[a] && np[j] == pos[b]);
                    assert(pos[a] != pos[b]);
                } else if i == ki {
                    assert(np[j] == pos[b]);
                } else {
                    assert(np[i] == pos[a]);
                }
            }
            assert forall|i: int, j: int|
                0 <= i < j < np.len() && #[trigger] sort_cmp(s[i], s[j], field, order) == Ordering::Equal
                    implies np[i] < np[j] by {
                if i != ki && j != ki {
                    let a = if i < ki { i } else { i - 1 };
                    let b = if j < ki { j } else { j - 1 };
                    assert(np[i] == pos[a] && np[j] == pos[b]);
                    assert(s[i] == o[a] && s[j] == o[b]);
                    assert(sort_cmp(o[a], o[b], field, order) == Ordering::Equal);
                } else if j == ki {
                    assert(np[i] == pos[i]);
                } else {
                    let b = j - 1;
                    assert(s[i] == t && s[j] == o[b]);
                    assert(sort_cmp(o[ki], t, field, order) == Ordering::Greater);
                    lemma_sort_cmp_reverse(t, o[b], field, order);
                    if b == ki {
                        lemma_sort_cmp_reverse(o[ki], t, field, order);
                    } else {
                        assert(sort_cmp(o[ki], o[b], field, order) != Ordering::Greater);
                        lemma_sort_cmp_transitive(o[ki], o[b], t, field, order);
                    }
                }
            }
            pos = np;
            m = m + 1;
        }
        assert(tickets@ =~= all.subrange(m, n0 as int));
    }
    proof {
        lemma_in_order_sorted(out@, field, order);
        assert(stable_arrangement(all, out@, pos, field, order));
        let s = out@;
        if field == SortField::Start {
            assert forall|i: int, j: int|
                0 <= i < j < s.len() && (#[trigger] s[i]).start_date is None implies (#[trigger] s[j]).start_date
                is None by {
                assert(sort_cmp(s[i], s[j], field, order) != Ordering::Greater);
            }
        }
        if field == SortField::End {
            assert forall|i: int, j: int|
                0 <= i < j < s.len() && (#[trigger] s[i]).end_date is None implies (#[trigger] s[j]).end_date
                is None by {
                assert(sort_cmp(s[i], s[j], field, order) != Ordering::Greater);
            }
        }
    }
    *tickets = out;
}

} // verus!
