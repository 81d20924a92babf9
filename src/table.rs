//! The capacity-bounded store: records kept in insertion order, up to a
//! fixed maximum.
use vstd::prelude::*;
use crate::codec::{Row, RowModel, TABLE_MAX_ROWS};
use crate::engine::StoreError;

verus! {

/// The views of a sequence of records.
pub open spec fn row_views(v: Seq<Row>) -> Seq<RowModel> {
    v.map_values(|r: Row| r@)
}

/// Records in insertion order, at most `TABLE_MAX_ROWS` of them. Identifiers
/// need not be unique.
pub struct Table {
    num_rows: u32,
    rows: Vec<Row>,
}

impl View for Table {
    type V = Seq<RowModel>;

    closed spec fn view(&self) -> Seq<RowModel> {
        row_views(self.rows@)
    }
}

impl Table {
    /// The count agrees with the records held and stays within capacity.
    pub closed spec fn wf(&self) -> bool {
        &&& self.num_rows as int == self.rows@.len()
        &&& self.rows@.len() <= TABLE_MAX_ROWS
    }

    /// An empty table.
    pub fn new() -> (r: Table)
        ensures
            r.wf(),
            r@ == Seq::<RowModel>::empty(),
    {
        let r = Table { num_rows: 0, rows: Vec::new() };
        assert(r@ =~= Seq::<RowModel>::empty());
        r
    }

    /// Number of records held.
    pub fn num_rows(&self) -> (r: u32)
        requires
            self.wf(),
        ensures
            r as int == self@.len(),
            self@.len() <= TABLE_MAX_ROWS,
    {
        self.num_rows
    }

    /// Appends a record, or fails with `Full` when the table holds
    /// `TABLE_MAX_ROWS` records already, leaving it unchanged.
    pub fn insert(&mut self, row: Row) -> (r: Result<(), StoreError>)
        requires
            old(self).wf(),
        ensures
            final(self).wf(),
            old(self)@.len() >= TABLE_MAX_ROWS ==> r == Err::<(), StoreError>(StoreError::Full)
                && final(self)@ == old(self)@,
            old(self)@.len() < TABLE_MAX_ROWS ==> r is Ok && final(self)@ == old(self)@.push(
                row@,
            ),
    {
        if self.num_rows as usize >= TABLE_MAX_ROWS {
            return Err(StoreError::Full);
        }
        let ghost before = self.rows@;
        self.rows.push(row);
        self.num_rows = self.num_rows + 1;
        assert(row_views(self.rows@) =~= row_views(before).push(row@));
        Ok(())
    }

    /// Copies of every record, in insertion order. Reading leaves the table
    /// unchanged, so it can be repeated.
    pub fn select_all(&self) -> (r: Vec<Row>)
        ensures
            row_views(r@) == self@,
    {
        let mut out: Vec<Row> = Vec::new();
        let mut i: usize = 0;
        while i < self.rows.len()
            invariant
                i <= self.rows@.len(),
                row_views(out@) == row_views(self.rows@.subrange(0, i as int)),
            decreases self.rows@.len() - i,
        {
            let ghost prev = out@;
            let d = self.rows[i].duplicate();
            out.push(d);
            assert(self.rows@.subrange(0, i as int + 1) =~= self.rows@.subrange(0, i as int).push(
                self.rows@[i as int],
            ));
            assert(row_views(out@) =~= row_views(prev).push(d@));
            assert(row_views(self.rows@.subrange(0, i as int + 1)) =~= row_views(
                self.rows@.subrange(0, i as int),
            ).push(self.rows@[i as int]@));
            i = i + 1;
        }
        assert(self.rows@.subrange(0, i as int) =~= self.rows@);
        out
    }
}

} // verus!
