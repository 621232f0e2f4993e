//! The row reader: a forward-only cursor over a materialized row sequence.
//!
//! The reader owns its rows outright — it never re-reads the document, so
//! nothing that happens to the source after its creation is observed. Its
//! row-id counter starts at the range's first absolute row index, grows by
//! exactly one per successful advance, and never moves again once the
//! reader is exhausted.

use vstd::prelude::*;

use crate::grid::{data_model, row_model, SheetRange};
use crate::values::CellValue;

verus! {

/// Cursor state over a materialized row sequence: positioned at `pos`
/// while `pos` is in range, exhausted otherwise.
pub struct DataReader {
    pub rows: Vec<Vec<calamine::DataType>>,
    pub pos: usize,
    pub rowid: u32,
}

impl DataReader {
    /// The grid of cells the reader iterates, as the model sees it.
    pub open spec fn cells(self) -> Seq<Seq<CellValue>> {
        self.rows@.map_values(|row: Vec<calamine::DataType>| row_model(row@))
    }

    /// Enough row-id headroom for the rows that are left.
    pub open spec fn wf(self) -> bool {
        self.pos < self.rows@.len() ==> self.rowid + (self.rows@.len() - 1 - self.pos)
            <= u32::MAX
    }

    /// A reader over the range's rows, positioned at the first if any, with
    /// the row id at the range's first absolute row index.
    pub fn new(range: SheetRange) -> (ret: Self)
        requires
            range.wf(),
        ensures
            ret.wf(),
            ret.cells() == range.cells(),
            ret.pos == 0,
            ret.rowid == if range.cells().len() > 0 {
                range.anchor.0
            } else {
                0u32
            },
    {
        let rowid = match range.start() {
            Some(p) => p.0,
            None => 0,
        };
        DataReader { rows: range.rows, pos: 0, rowid }
    }

    /// True exactly while a current row exists.
    pub fn has_value(&self) -> (b: bool)
        ensures
            b == (self.pos < self.cells().len()),
    {
        self.pos < self.rows.len()
    }

    /// The value at `i` in the current row; `None` when exhausted or when
    /// `i` falls outside the row — an absent cell, not an error.
    pub fn get_value(&self, i: usize) -> (ret: Option<&calamine::DataType>)
        ensures
            match ret {
                Some(d) => self.pos < self.cells().len() && i < self.cells()[self.pos as int].len()
                    && data_model(*d) == self.cells()[self.pos as int][i as int],
                None => self.pos >= self.cells().len() || i >= self.cells()[self.pos as int].len(),
            },
    {
        if self.pos < self.rows.len() {
            let row = &self.rows[self.pos];
            if i < row.len() {
                proof {
                    assert(self.cells()[self.pos as int] == row_model(
                        self.rows@[self.pos as int]@,
                    ));
                }
                return Some(&row[i]);
            }
        }
        None
    }

    /// The current row-id counter; stable between advances.
    pub fn get_rowid(&self) -> (ret: u32)
        ensures
            ret == self.rowid,
    {
        self.rowid
    }

    /// Advances to the next row if one exists, bumping the row id by one;
    /// advancing an exhausted reader changes nothing.
    pub fn move_next(&mut self)
        requires
            old(self).wf(),
        ensures
            final(self).wf(),
            final(self).rows == old(self).rows,
            old(self).pos < old(self).cells().len() ==> final(self).pos == old(self).pos + 1
                && final(self).rowid == (if old(self).pos + 1 < old(self).cells().len() {
                (old(self).rowid + 1) as u32
            } else {
                old(self).rowid
            }),
            old(self).pos >= old(self).cells().len() ==> *final(self) == *old(self),
    {
        if self.pos < self.rows.len() {
            self.pos = self.pos + 1;
            if self.pos < self.rows.len() {
                self.rowid = self.rowid + 1;
            }
        }
    }
}

} // verus!
