//! The rules of the file-backed store: where each record lives, which files
//! in the tickets directory count as tickets and in what order, which
//! tickets a search selects, what a missing file means, and what setting up
//! a project directory has to do. Reading and writing the files is left to
//! the caller.
use crate::error::HlaviError;
use crate::text::{
    compare_text, joined, join_path, lemma_text_cmp_reverse, lemma_text_cmp_transitive, lower_of, lowercase, occurs_in,
    same_text, text_cmp, text_contains, upper_of,
};
use crate::ticket::{is_id_text, Ticket, TicketId};
use std::cmp::Ordering;
use vstd::prelude::*;
use vstd::string::*;

verus! {

broadcast use vstd::seq_lib::group_to_multiset_ensures;

/// Inserting an element anywhere adds it once to the multiset.
pub proof fn lemma_insert_to_multiset<A>(s: Seq<A>, k: int, x: A)
    requires
        0 <= k <= s.len(),
    ensures
        s.insert(k, x).to_multiset() =~= s.to_multiset().insert(x),
{
    let t = s.insert(k, x);
    assert(t.remove(k) =~= s);
    assert(t[k] == x);
    assert(t.contains(x));
}

/// The text written to the ignore file of a new project directory.
pub open spec fn ignore_file_text() -> Seq<char> {
    "# Local caches\n*.db\n*.db-*\n"@
}

/// Where a project's records are kept, below a project root.
pub struct FileStorage {
    root_path: String,
}

/// One thing that setting up a project directory has to do.
#[derive(Debug)]
pub enum InitStep {
    /// Create this directory and any missing parents.
    CreateDir(String),
    /// Write a default board to this file.
    WriteDefaultBoard(String),
    /// Write this text to this file.
    WriteFile(String, String),
}

/// An `InitStep` as plain values: its kind (0, 1 or 2), its path, its text.
pub open spec fn step_view(s: InitStep) -> (nat, Seq<char>, Seq<char>) {
    match s {
        InitStep::CreateDir(p) => (0, p@, Seq::empty()),
        InitStep::WriteDefaultBoard(p) => (1, p@, Seq::empty()),
        InitStep::WriteFile(p, t) => (2, p@, t@),
    }
}

/// The steps that set up the directory at `root`, given which of its parts
/// already exist: each missing part is made, in this order, and nothing else.
pub open spec fn init_plan(
    root: Seq<char>,
    root_exists: bool,
    tickets_dir_exists: bool,
    board_exists: bool,
    ignore_file_exists: bool,
) -> Seq<(nat, Seq<char>, Seq<char>)> {
    let a: Seq<(nat, Seq<char>, Seq<char>)> = if root_exists {
        Seq::empty()
    } else {
        seq![(0nat, root, Seq::empty())]
    };
    let b: Seq<(nat, Seq<char>, Seq<char>)> = if tickets_dir_exists {
        Seq::empty()
    } else {
        seq![(0nat, joined(root, "tickets"@), Seq::empty())]
    };
    let c: Seq<(nat, Seq<char>, Seq<char>)> = if board_exists {
        Seq::empty()
    } else {
        seq![(1nat, joined(root, "board.json"@), Seq::empty())]
    };
    let d: Seq<(nat, Seq<char>, Seq<char>)> = if ignore_file_exists {
        Seq::empty()
    } else {
        seq![(2nat, joined(root, ".gitignore"@), ignore_file_text())]
    };
    a + b + c + d
}

impl FileStorage {
    /// The directory that holds the records.
    pub closed spec fn root(&self) -> Seq<char> {
        self.root_path@
    }

    /// The store of the project at `project_root`, kept in its `.hlavi` directory.
    pub fn new(project_root: &str) -> (r: FileStorage)
        ensures
            r.root() == joined(project_root@, ".hlavi"@),
    {
        FileStorage { root_path: join_path(project_root, ".hlavi") }
    }

    pub fn root_path(&self) -> (r: &str)
        ensures
            r@ == self.root(),
    {
        self.root_path.as_str()
    }

    pub fn tickets_dir(&self) -> (r: String)
        ensures
            r@ == joined(self.root(), "tickets"@),
    {
        join_path(self.root_path.as_str(), "tickets")
    }

    pub fn board_file(&self) -> (r: String)
        ensures
            r@ == joined(self.root(), "board.json"@),
    {
        join_path(self.root_path.as_str(), "board.json")
    }

    pub fn ignore_file(&self) -> (r: String)
        ensures
            r@ == joined(self.root(), ".gitignore"@),
    {
        join_path(self.root_path.as_str(), ".gitignore")
    }

    /// The file of one ticket: its identifier with a `.json` extension, in
    /// the tickets directory.
    pub fn ticket_file(&self, id: &TicketId) -> (r: String)
        ensures
            r@ == joined(joined(self.root(), "tickets"@), id@ + ".json"@),
    {
        let dir = self.tickets_dir();
        let mut name = String::from_str(id.as_str());
        name.append(".json");
        join_path(dir.as_str(), name.as_str())
    }

    /// What setting up the project directory has to do, given which of its
    /// parts exist already. Running it twice does nothing the second time.
    pub fn initialization_steps(
        &self,
        root_exists: bool,
        tickets_dir_exists: bool,
        board_exists: bool,
        ignore_file_exists: bool,
    ) -> (r: Vec<InitStep>)
        ensures
            r@.map_values(|s: InitStep| step_view(s)) == init_plan(
                self.root(),
                root_exists,
                tickets_dir_exists,
                board_exists,
                ignore_file_exists,
            ),
    {
        let mut steps: Vec<InitStep> = Vec::new();
        if !root_exists {
            steps.push(InitStep::CreateDir(String::from_str(self.root_path.as_str())));
        }
        let ghost a = steps@.map_values(|s: InitStep| step_view(s));
        if !tickets_dir_exists {
            steps.push(InitStep::CreateDir(self.tickets_dir()));
        }
        let ghost b = steps@.map_values(|s: InitStep| step_view(s));
        if !board_exists {
            steps.push(InitStep::WriteDefaultBoard(self.board_file()));
        }
        let ghost c = steps@.map_values(|s: InitStep| step_view(s));
        if !ignore_file_exists {
            let text = String::from_str("# Local caches\n*.db\n*.db-*\n");
            steps.push(InitStep::WriteFile(self.ignore_file(), text));
        }
        proof {
            let plan = init_plan(self.root(), root_exists, tickets_dir_exists, board_exists, ignore_file_exists);
            assert(steps@.map_values(|s: InitStep| step_view(s)) =~= plan);
        }
        steps
    }
}

/// `load_ticket` and `delete_ticket` need the ticket's file: its absence
/// means the ticket is not found.
pub fn require_ticket_file(id: &TicketId, file_exists: bool) -> (r: Result<(), HlaviError>)
    ensures
        r is Ok <==> file_exists,
        r matches Err(e) ==> (e matches HlaviError::TicketNotFound(t) && t@ == id@),
{
    if file_exists {
        Ok(())
    } else {
        Err(HlaviError::TicketNotFound(String::from_str(id.as_str())))
    }
}

/// `load_board` needs the board file: its absence means the project has not
/// been set up.
pub fn require_board_file(file_exists: bool) -> (r: Result<(), HlaviError>)
    ensures
        r is Ok <==> file_exists,
        r is Err ==> r == Err::<(), HlaviError>(HlaviError::BoardNotInitialized),
{
    if file_exists {
        Ok(())
    } else {
        Err(HlaviError::BoardNotInitialized)
    }
}

/// A project is set up when both its directory and its board file exist.
pub fn is_initialized(root_exists: bool, board_exists: bool) -> (r: bool)
    ensures
        r == (root_exists && board_exists),
{
    root_exists && board_exists
}

/// The stem of a file name ending in `.json`.
pub open spec fn json_stem(name: Seq<char>) -> Option<Seq<char>> {
    if name.len() >= 5 && name.subrange(name.len() - 5, name.len() as int) == ".json"@ {
        Some(name.subrange(0, name.len() - 5))
    } else {
        None
    }
}

/// The identifier that a file name in the tickets directory stands for, if any.
pub open spec fn listed_id(name: Seq<char>) -> Option<Seq<char>> {
    match json_stem(name) {
        Some(stem) => if is_id_text(upper_of(stem)) {
            Some(upper_of(stem))
        } else {
            None
        },
        None => None,
    }
}

/// The identifiers that a list of file names stands for, in list order.
pub open spec fn listed_ids(names: Seq<String>) -> Seq<Seq<char>>
    decreases names.len(),
{
    if names.len() == 0 {
        Seq::empty()
    } else {
        let rest = listed_ids(names.drop_last());
        match listed_id(names.last()@) {
            Some(id) => rest.push(id),
            None => rest,
        }
    }
}

/// Each identifier's text is at most the next one's.
pub open spec fn ids_in_order(ids: Seq<TicketId>) -> bool {
    forall|i: int| 0 <= i < ids.len() - 1 ==> #[trigger] text_cmp(ids[i]@, ids[i + 1]@) != Ordering::Greater
}

/// Every identifier's text is at most that of every later one.
pub open spec fn ids_sorted(ids: Seq<TicketId>) -> bool {
    forall|i: int, j: int| 0 <= i < j < ids.len() ==> #[trigger] text_cmp(ids[i]@, ids[j]@) != Ordering::Greater
}

proof fn lemma_in_order_to_pair(ids: Seq<TicketId>, i: int, j: int)
    requires
        ids_in_order(ids),
        0 <= i < j < ids.len(),
    ensures
        text_cmp(ids[i]@, ids[j]@) != Ordering::Greater,
    decreases j - i,
{
    assert(text_cmp(ids[j - 1]@, ids[(j - 1) + 1]@) != Ordering::Greater);
    if j > i + 1 {
        lemma_in_order_to_pair(ids, i, j - 1);
        lemma_text_cmp_transitive(ids[i]@, ids[j - 1]@, ids[j]@);
    }
}

/// Identifiers whose neighbours are in order are in order throughout.
proof fn lemma_in_order_sorted(ids: Seq<TicketId>)
    requires
        ids_in_order(ids),
    ensures
        ids_sorted(ids),
{
    assert forall|i: int, j: int| 0 <= i < j < ids.len() implies #[trigger] text_cmp(ids[i]@, ids[j]@)
        != Ordering::Greater by {
        lemma_in_order_to_pair(ids, i, j);
    }
}

pub open spec fn id_views(ids: Seq<TicketId>) -> Seq<Seq<char>> {
    ids.map_values(|t: TicketId| t@)
}

/// Puts `id` after every identifier that is not greater, keeping the order.
fn insert_in_order(out: &mut Vec<TicketId>, id: TicketId)
    requires
        ids_in_order(old(out)@),
    ensures
        ids_in_order(final(out)@),
        id_views(final(out)@).to_multiset() == id_views(old(out)@).to_multiset().insert(id@),
{
    let n = out.len();
    let mut k: usize = 0;
    loop
        invariant
            k <= n,
            n == out@.len(),
            out@ == old(out)@,
            forall|j: int| 0 <= j < k ==> text_cmp((#[trigger] out@[j])@, id@) != Ordering::Greater,
        ensures
            k <= n,
            out@ == old(out)@,
            forall|j: int| 0 <= j < k ==> text_cmp((#[trigger] out@[j])@, id@) != Ordering::Greater,
            k == n || text_cmp(out@[k as int]@, id@) == Ordering::Greater,
        decreases n - k,
    {
        if k == n {
            break;
        }
        let c = compare_text(out[k].as_str(), id.as_str());
        if let Ordering::Greater = c {
            break;
        }
        k = k + 1;
    }
    let ghost before = out@;
    let ghost idv = id@;
    out.insert(k, id);
    proof {
        let s = out@;
        assert(s =~= before.insert(k as int, id));
        assert(id_views(s) =~= id_views(before).insert(k as int, idv));
        lemma_insert_to_multiset(id_views(before), k as int, idv);
        assert forall|i: int| 0 <= i < s.len() - 1 implies #[trigger] text_cmp(s[i]@, s[i + 1]@)
            != Ordering::Greater by {
            if i + 1 < k {
                assert(s[i] == before[i] && s[i + 1] == before[i + 1]);
                assert(text_cmp(before[i]@, before[i + 1]@) != Ordering::Greater);
            } else if i + 1 == k {
                assert(s[i] == before[i] && s[i + 1] == id);
                assert(text_cmp(before[i]@, idv) != Ordering::Greater);
            } else if i == k {
                assert(s[i] == id && s[i + 1] == before[i]);
                lemma_text_cmp_reverse(before[i]@, idv);
            } else {
                assert(s[i] == before[i - 1] && s[i + 1] == before[i]);
                assert(text_cmp(before[i - 1]@, before[(i - 1) + 1]@) != Ordering::Greater);
            }
        }
    }
}

/// The identifiers that the tickets directory holds, given its file names:
/// the names `<id>.json` whose stem reads as an identifier, ordered by their
/// text.
pub fn ticket_ids_from_file_names(names: &Vec<String>) -> (r: Vec<TicketId>)
    ensures
        ids_sorted(r@),
        id_views(r@).to_multiset() == listed_ids(names@).to_multiset(),
{
    let mut out: Vec<TicketId> = Vec::new();
    let mut i: usize = 0;
    assert(id_views(out@) =~= Seq::<Seq<char>>::empty());
    assert(names@.subrange(0, 0) =~= Seq::<String>::empty());
    while i < names.len()
        invariant
            i <= names@.len(),
            ids_in_order(out@),
            id_views(out@).to_multiset() == listed_ids(names@.subrange(0, i as int)).to_multiset(),
        decreases names@.len() - i,
    {
        let name = names[i].as_str();
        let ghost prefix = names@.subrange(0, i as int);
        let ghost next = names@.subrange(0, i + 1);
        assert(next.drop_last() =~= prefix);
        assert(next.last() == names@[i as int]);
        let n = name.unicode_len();
        let mut taken = false;
        if n >= 5 {
            let ext = name.substring_char(n - 5, n);
            proof {
                reveal_strlit(".json");
            }
            if same_text(ext, ".json") {
                let stem = name.substring_char(0, n - 5);
                match TicketId::parse(stem) {
                    Ok(id) => {
                        insert_in_order(&mut out, id);
                        taken = true;
                    },
                    Err(_) => {},
                }
            }
        }
        proof {
            if taken {
                assert(listed_ids(next) == listed_ids(prefix).push(listed_id(names@[i as int]@)->0));
            } else {
                assert(listed_ids(next) == listed_ids(prefix));
            }
        }
        i = i + 1;
    }
    assert(names@.subrange(0, names@.len() as int) =~= names@);
    proof {
        lemma_in_order_sorted(out@);
    }
    out
}

/// `query` occurs in `text` when both are lower-cased.
pub open spec fn folded_match(query: Seq<char>, text: Seq<char>) -> bool {
    occurs_in(lower_of(query), lower_of(text))
}

/// A search for `query` selects the ticket: it occurs, ignoring case, in the
/// title, the description or the description of a criterion.
pub open spec fn ticket_matches(t: Ticket, query: Seq<char>) -> bool {
    ||| folded_match(query, t.title@)
    ||| (t.description matches Some(d) && folded_match(query, d@))
    ||| exists|i: int|
        0 <= i < t.acceptance_criteria@.len() && folded_match(
            query,
            (#[trigger] t.acceptance_criteria@[i]).description@,
        )
}

/// The tickets that a search for `query` selects, in the given order.
pub open spec fn matching(tickets: Seq<Ticket>, query: Seq<char>) -> Seq<Ticket>
    decreases tickets.len(),
{
    if tickets.len() == 0 {
        Seq::empty()
    } else {
        let rest = matching(tickets.drop_first(), query);
        if ticket_matches(tickets[0], query) {
            seq![tickets[0]] + rest
        } else {
            rest
        }
    }
}

/// Whether the lower-cased text of `t` contains `folded_query`.
fn ticket_matches_folded(t: &Ticket, folded_query: &str, query: Ghost<Seq<char>>) -> (r: bool)
    requires
        folded_query@ == lower_of(query@),
    ensures
        r == ticket_matches(*t, query@),
{
    let title = lowercase(t.title.as_str());
    if text_contains(title.as_str(), folded_query) {
        return true;
    }
    match &t.description {
        Some(d) => {
            let folded = lowercase(d.as_str());
            if text_contains(folded.as_str(), folded_query) {
                return true;
            }
        },
        None => {},
    }
    let n = t.acceptance_criteria.len();
    let mut i: usize = 0;
    while i < n
        invariant
            n == t.acceptance_criteria@.len(),
            i <= n,
            folded_query@ == lower_of(query@),
            !folded_match(query@, t.title@),
            !(t.description matches Some(d) && folded_match(query@, d@)),
            forall|k: int| 0 <= k < i ==> !folded_match(query@, (#[trigger] t.acceptance_criteria@[k]).description@),
        decreases n - i,
    {
        let folded = lowercase(t.acceptance_criteria[i].description.as_str());
        if text_contains(folded.as_str(), folded_query) {
            return true;
        }
        i = i + 1;
    }
    false
}

/// Whether a search for `query` selects the ticket.
pub fn ticket_matches_query(t: &Ticket, query: &str) -> (r: bool)
    ensures
        r == ticket_matches(*t, query@),
{
    let folded = lowercase(query);
    ticket_matches_folded(t, folded.as_str(), Ghost(query@))
}

/// The tickets that a search for `query` selects, in their given order.
pub fn search_tickets(tickets: Vec<Ticket>, query: &str) -> (r: Vec<Ticket>)
    ensures
        r@ == matching(tickets@, query@),
{
    let folded = lowercase(query);
    let mut rest = tickets;
    let mut out: Vec<Ticket> = Vec::new();
    assert(out@ + matching(rest@, query@) =~= matching(tickets@, query@));
    while rest.len() > 0
        invariant
            folded@ == lower_of(query@),
            out@ + matching(rest@, query@) == matching(tickets@, query@),
        decreases rest@.len(),
    {
        let ghost before = rest@;
        let t = rest.remove(0);
        assert(before.drop_first() =~= rest@);
        if ticket_matches_folded(&t, folded.as_str(), Ghost(query@)) {
            let ghost o = out@;
            out.push(t);
            assert(out@ + matching(rest@, query@) =~= o + (seq![t] + matching(rest@, query@)));
        }
    }
    assert(out@ + matching(rest@, query@) =~= out@);
    out
}

/// A store kept in an embedded database; no such backend is available.
pub struct SqliteStorage {
    _connection: (),
}

impl SqliteStorage {
    /// Always fails: the database backend does not exist yet.
    pub fn new(_database_path: &str) -> (r: Result<SqliteStorage, HlaviError>)
        ensures
            r matches Err(e) && (e matches HlaviError::StorageError(m) && m@ == "SQLite storage not yet implemented"@),
    {
        Err(HlaviError::StorageError(String::from_str("SQLite storage not yet implemented")))
    }
}

} // verus!
