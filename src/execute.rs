//! Running statements against a store, and the interpreter session.
use vstd::prelude::*;
use crate::codec::{Row, RowModel, CodecError, TABLE_MAX_ROWS, encode_error, encode_spec, decode_spec};
use crate::engine::{KeyStore, StoreError, find, key_of};
use crate::parser::{Command, CommandModel, MetaCommandResult, PrepareResult, Statement, StatementType, prepare_statement, parse_spec, exit_word};
use crate::table::{Table, row_views};
use crate::text::{decimal, u32_to_decimal, views};

verus! {

/// The store a session works on.
pub enum Store {
    /// Records in insertion order, up to a fixed capacity.
    Bounded(Table),
    /// Records in a key-value engine, addressed by identifier.
    Ordered(KeyStore),
}

/// The mathematical value of a store.
pub enum StoreModel {
    Bounded(Seq<RowModel>),
    Ordered(Seq<(Seq<char>, Seq<u8>)>),
}

impl View for Store {
    type V = StoreModel;

    open spec fn view(&self) -> StoreModel {
        match self {
            Store::Bounded(t) => StoreModel::Bounded(t@),
            Store::Ordered(k) => StoreModel::Ordered(k@),
        }
    }
}

impl Store {
    /// The store's internal invariant.
    pub open spec fn wf(&self) -> bool {
        match self {
            Store::Bounded(t) => t.wf(),
            Store::Ordered(k) => k.wf(),
        }
    }

    /// Whether this is the capacity-bounded store, which lists all records
    /// on a bare `select`.
    pub fn is_bounded(&self) -> (r: bool)
        ensures
            r == (self@ is Bounded),
    {
        match self {
            Store::Bounded(_) => true,
            Store::Ordered(_) => false,
        }
    }
}

/// The outcome of a statement.
#[derive(Debug)]
pub enum ExecuteResult {
    /// The statement succeeded; the records it selected, if any.
    Success(Vec<Row>),
    /// The capacity-bounded store is full.
    TableFull,
    /// The store refused the statement.
    Failed(StoreError),
}

/// The outcome of an insert on a store, as a function of the store before.
pub open spec fn insert_outcome(s: StoreModel, r: RowModel) -> (Result<(), StoreError>, StoreModel) {
    match s {
        StoreModel::Bounded(rows) => if rows.len() >= TABLE_MAX_ROWS {
            (Err(StoreError::Full), s)
        } else {
            (Ok(()), StoreModel::Bounded(rows.push(r)))
        },
        StoreModel::Ordered(e) => match encode_error(r) {
            Some(x) => (Err(StoreError::Encoding(x)), s),
            None => if find(e, key_of(r.id)) is Some {
                (Err(StoreError::Duplicate), s)
            } else {
                (Ok(()), StoreModel::Ordered(e.push((key_of(r.id), encode_spec(r)))))
            },
        },
    }
}

/// The capacity-bounded store after inserting `rows` in order into an empty
/// one.
pub open spec fn bounded_after(rows: Seq<RowModel>) -> StoreModel
    decreases rows.len(),
{
    if rows.len() == 0 {
        StoreModel::Bounded(Seq::empty())
    } else {
        insert_outcome(bounded_after(rows.drop_last()), rows.last()).1
    }
}

proof fn lemma_bounded_after(rows: Seq<RowModel>)
    requires
        rows.len() <= TABLE_MAX_ROWS,
    ensures
        bounded_after(rows) == StoreModel::Bounded(rows),
    decreases rows.len(),
{
    if rows.len() > 0 {
        lemma_bounded_after(rows.drop_last());
        assert(rows.drop_last().push(rows.last()) =~= rows);
    } else {
        assert(rows =~= Seq::<RowModel>::empty());
    }
}

/// Up to `TABLE_MAX_ROWS` records inserted one by one into an empty
/// capacity-bounded store all succeed and are kept in order; one more insert
/// fails with `Full` and leaves the store as it was.
pub proof fn lemma_fill_bounded(rows: Seq<RowModel>, extra: RowModel)
    requires
        rows.len() == TABLE_MAX_ROWS,
    ensures
        forall|k: int|
            0 <= k < rows.len() ==> (#[trigger] insert_outcome(bounded_after(rows.take(k)), rows[k])).0
                is Ok,
        bounded_after(rows) == StoreModel::Bounded(rows),
        insert_outcome(bounded_after(rows), extra) == (
            Err::<(), StoreError>(StoreError::Full),
            StoreModel::Bounded(rows),
        ),
{
    lemma_bounded_after(rows);
    assert forall|k: int| 0 <= k < rows.len() implies (#[trigger] insert_outcome(
        bounded_after(rows.take(k)),
        rows[k],
    )).0 is Ok by {
        lemma_bounded_after(rows.take(k));
    }
}

/// Inserts the statement's record into the store.
pub fn execute_insert(stmt: Statement, store: &mut Store) -> (r: ExecuteResult)
    requires
        old(store).wf(),
    ensures
        final(store).wf(),
        final(store)@ == insert_outcome(old(store)@, stmt.row@).1,
        match insert_outcome(old(store)@, stmt.row@).0 {
            Ok(()) => r matches ExecuteResult::Success(v) && v@.len() == 0,
            Err(StoreError::Full) => r is TableFull,
            Err(e) => r matches ExecuteResult::Failed(x) && x == e,
        },
{
    let res = match store {
        Store::Bounded(t) => t.insert(stmt.row),
        Store::Ordered(k) => k.insert(&stmt.row),
    };
    match res {
        Ok(()) => ExecuteResult::Success(Vec::new()),
        Err(StoreError::Full) => ExecuteResult::TableFull,
        Err(e) => ExecuteResult::Failed(e),
    }
}

/// Looks the statement's identifier up in the key store.
pub fn execute_select(stmt: Statement, store: &KeyStore) -> (r: ExecuteResult)
    requires
        store.wf(),
    ensures
        match find(store@, key_of(stmt.row.id)) {
            Some(v) => r matches ExecuteResult::Success(rows) && rows@.len() == 1 && decode_spec(v)
                == Ok::<RowModel, CodecError>(rows@[0]@),
            None => r matches ExecuteResult::Failed(e) && e == StoreError::NotFound,
        },
{
    match store.lookup(stmt.row.id) {
        Ok(row) => {
            let mut v: Vec<Row> = Vec::new();
            v.push(row);
            ExecuteResult::Success(v)
        },
        Err(e) => ExecuteResult::Failed(e),
    }
}

/// The store after a statement of kind `k` with record `m`.
pub open spec fn store_after(k: StatementType, s: StoreModel, m: RowModel) -> StoreModel {
    if k == StatementType::Insert {
        insert_outcome(s, m).1
    } else {
        s
    }
}

/// Whether `r` is the outcome of a statement of kind `k` with record `m` on
/// the store `s`: an insert as `insert_outcome` says; a select on the
/// capacity-bounded store lists every record in order; a select on the key
/// store gives the record stored under the identifier, or `NotFound`.
pub open spec fn execute_spec(k: StatementType, s: StoreModel, m: RowModel, r: ExecuteResult) -> bool {
    if k == StatementType::Insert {
        match insert_outcome(s, m).0 {
            Ok(()) => r matches ExecuteResult::Success(v) && v@.len() == 0,
            Err(StoreError::Full) => r is TableFull,
            Err(e) => r matches ExecuteResult::Failed(x) && x == e,
        }
    } else {
        match s {
            StoreModel::Bounded(rows) => r matches ExecuteResult::Success(v) && row_views(v@) == rows,
            StoreModel::Ordered(e) => match find(e, key_of(m.id)) {
                Some(v) => r matches ExecuteResult::Success(rows) && rows@.len() == 1 && decode_spec(
                    v,
                ) == Ok::<RowModel, CodecError>(rows@[0]@),
                None => r matches ExecuteResult::Failed(x) && x == StoreError::NotFound,
            },
        }
    }
}

/// Runs a statement against the store. On the capacity-bounded store every
/// select lists all records in insertion order; the key store has no full
/// listing.
pub fn execute_statement(stmt: Statement, store: &mut Store) -> (r: ExecuteResult)
    requires
        old(store).wf(),
        !(stmt.kind == StatementType::SelectAll && old(store)@ is Ordered),
    ensures
        final(store).wf(),
        final(store)@ == store_after(stmt.kind, old(store)@, stmt.row@),
        execute_spec(stmt.kind, old(store)@, stmt.row@, r),
{
    match stmt.kind {
        StatementType::Insert => execute_insert(stmt, store),
        _ => match store {
            Store::Bounded(t) => ExecuteResult::Success(t.select_all()),
            Store::Ordered(k) => execute_select(stmt, k),
        },
    }
}

/// The output lines of a record: identifier, username and email, in that
/// order.
pub fn render_row(row: &Row) -> (r: Vec<String>)
    ensures
        views(r@) == seq![decimal(row.id as nat), row.username@, row.email@],
{
    let mut out: Vec<String> = Vec::new();
    out.push(u32_to_decimal(row.id));
    out.push(row.username.clone());
    out.push(row.email.clone());
    assert(views(out@) =~= seq![decimal(row.id as nat), row.username@, row.email@]);
    out
}

/// Where a session stands between lines.
#[derive(Clone, Copy, Debug, PartialEq, Eq, Structural)]
pub enum SessionState {
    /// Waiting for the next line.
    Idle,
    /// Ended by `.exit`; no further line is processed.
    Exited,
}

/// What became of one input line.
#[derive(Debug)]
pub enum LineOutcome {
    /// The session ended.
    Exited,
    /// The line is not a command.
    Rejected(PrepareResult),
    /// The statement ran.
    Executed(ExecuteResult),
    /// The session had ended already; the line was not processed.
    Ignored,
}

/// An interpreter session over one store.
pub struct Session {
    pub state: SessionState,
    pub store: Store,
}

impl Session {
    /// A new idle session over the given store.
    pub fn new(store: Store) -> (r: Session)
        requires
            store.wf(),
        ensures
            r.state == SessionState::Idle,
            r.store@ == store@,
            r.store.wf(),
    {
        Session { state: SessionState::Idle, store }
    }

    /// Parses and runs one line. After `.exit` the session is `Exited`, and
    /// from then on lines change nothing. A line that does not parse leaves
    /// the store unchanged.
    pub fn handle_line(&mut self, line: &str) -> (r: LineOutcome)
        requires
            old(self).store.wf(),
        ensures
            final(self).store.wf(),
            old(self).state == SessionState::Exited ==> r is Ignored && final(self).state
                == SessionState::Exited && final(self).store@ == old(self).store@,
            old(self).state == SessionState::Idle && line@ == exit_word() ==> r is Exited
                && final(self).state == SessionState::Exited && final(self).store@ == old(
                self,
            ).store@,
            old(self).state == SessionState::Idle ==> match parse_spec(
                line@,
                old(self).store@ is Bounded,
            ) {
                Err(e) => r matches LineOutcome::Rejected(x) && x == e && final(self).store@ == old(
                    self,
                ).store@ && final(self).state == SessionState::Idle,
                Ok(CommandModel::Meta(_)) => r is Exited && final(self).state == SessionState::Exited
                    && final(self).store@ == old(self).store@,
                Ok(CommandModel::Statement(k, m)) => r matches LineOutcome::Executed(x)
                    && execute_spec(k, old(self).store@, m, x) && final(self).state
                    == SessionState::Idle && final(self).store@ == store_after(
                    k,
                    old(self).store@,
                    m,
                ),
            },
    {
        if self.state == SessionState::Exited {
            return LineOutcome::Ignored;
        }
        proof {
            reveal_strlit(".exit");
        }
        let scan = self.store.is_bounded();
        match prepare_statement(line, scan) {
            Err(e) => LineOutcome::Rejected(e),
            Ok(Command::Meta(MetaCommandResult::Exit)) => {
                self.state = SessionState::Exited;
                LineOutcome::Exited
            },
            Ok(Command::Statement(stmt)) => LineOutcome::Executed(
                execute_statement(stmt, &mut self.store),
            ),
        }
    }
}

} // verus!
