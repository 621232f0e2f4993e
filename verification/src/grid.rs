//! The worksheet grid: the boundary to the document library's cell values,
//! and the owned rectangular range of cells that the rest of the crate
//! works on.
//!
//! A `calamine::DataType` is opaque to the verifier; the uninterpreted
//! `data_model` names the cell it stands for, and three small trusted
//! functions are the only code that touches such a value. Everything above
//! them — the grid, its windowing, its bounds — is verified.

use vstd::prelude::*;

use crate::values::{float_text_of, has_text, text_of, CellValue};

verus! {

/// Declares `calamine::DataType`, the document library's cell value, so
/// that it can stand in signatures and fields; the verifier sees nothing
/// inside such a value.
#[verifier::external_type_specification]
#[verifier::external_body]
pub struct ExDataType(calamine::DataType);

/// The cell a document value stands for: same kind, same payload, floats
/// and date-times by their bits.
pub uninterp spec fn data_model(d: calamine::DataType) -> CellValue;

/// Relies on `calamine::DataType::Empty`: the empty cell.
#[verifier::external_body]
pub(crate) fn empty_cell() -> (d: calamine::DataType)
    ensures
        data_model(d) == CellValue::Empty,
{
    calamine::DataType::Empty
}

/// Relies on the derived `Clone` of `calamine::DataType`: the copy stands
/// for the same cell.
#[verifier::external_body]
pub(crate) fn clone_cell(d: &calamine::DataType) -> (r: calamine::DataType)
    ensures
        data_model(r) == data_model(*d),
{
    d.clone()
}

/// Relies on `calamine::DataType`'s `Display`: a string cell renders as
/// itself, an integer in decimal, a boolean as `true`/`false`, an empty
/// cell as nothing, and a float or date-time by the standard float
/// rendering of its value. Which text an error cell renders is not modeled.
#[verifier::external_body]
pub(crate) fn data_text(d: &calamine::DataType) -> (s: String)
    ensures
        has_text(data_model(*d)) ==> s@ == text_of(data_model(*d)),
        data_model(*d) matches CellValue::Float(bits) ==> s@ == float_text_of(bits),
        data_model(*d) matches CellValue::DateTime(bits) ==> s@ == float_text_of(bits),
{
    d.to_string()
}

/// The model of a row of document cells.
pub open spec fn row_model(row: Seq<calamine::DataType>) -> Seq<CellValue> {
    row.map_values(|d: calamine::DataType| data_model(d))
}

/// The width of a grid; zero when it has no rows.
pub open spec fn grid_width(cells: Seq<Seq<CellValue>>) -> nat {
    if cells.len() == 0 {
        0
    } else {
        cells[0].len()
    }
}

/// The cell of a grid anchored at `sa` that covers the absolute 0-based
/// position `(row, col)`, or `Empty` where the grid does not reach.
pub open spec fn grid_at_or_empty(
    src: Seq<Seq<CellValue>>,
    sa: (u32, u32),
    row: int,
    col: int,
) -> CellValue {
    if src.len() > 0 && sa.0 <= row < sa.0 + src.len() && sa.1 <= col < sa.1 + grid_width(src) {
        src[row - sa.0][col - sa.1]
    } else {
        CellValue::Empty
    }
}

/// The grid of the window from `st` to `en` (both inclusive, 0-based
/// absolute), drawing on a source grid anchored at `sa`; positions the
/// source does not cover are empty.
pub open spec fn window_cells(
    src: Seq<Seq<CellValue>>,
    sa: (u32, u32),
    st: (u32, u32),
    en: (u32, u32),
) -> Seq<Seq<CellValue>> {
    Seq::new(
        (en.0 - st.0 + 1) as nat,
        |i: int|
            Seq::new(
                (en.1 - st.1 + 1) as nat,
                |j: int| grid_at_or_empty(src, sa, st.0 + i, st.1 + j),
            ),
    )
}

/// A rectangular window of cells, anchored at an absolute 0-based
/// `(row, column)` position, owning its cells outright.
#[derive(Debug)]
pub struct SheetRange {
    pub anchor: (u32, u32),
    pub rows: Vec<Vec<calamine::DataType>>,
}

impl SheetRange {
    /// The grid of cells this range holds, as the model sees it.
    pub open spec fn cells(self) -> Seq<Seq<CellValue>> {
        self.rows@.map_values(|row: Vec<calamine::DataType>| row_model(row@))
    }

    /// Well-formed: rectangular with nonempty rows, and the window fits in
    /// the 32-bit coordinate space.
    pub open spec fn wf(self) -> bool {
        &&& forall|k: int|
            0 <= k < self.rows@.len() ==> (#[trigger] self.rows@[k])@.len() == self.spec_width()
        &&& self.rows@.len() > 0 ==> self.spec_width() > 0
        &&& self.rows@.len() <= u32::MAX
        &&& self.spec_width() <= u32::MAX
        &&& self.rows@.len() > 0 ==> self.anchor.0 + self.rows@.len() - 1 <= u32::MAX
            && self.anchor.1 + self.spec_width() - 1 <= u32::MAX
    }

    pub open spec fn spec_width(self) -> nat {
        if self.rows@.len() == 0 {
            0
        } else {
            self.rows@[0]@.len()
        }
    }

    /// An empty range: no rows, anchored at the origin.
    pub fn empty() -> (ret: SheetRange)
        ensures
            ret.wf(),
            ret.cells().len() == 0,
            ret.anchor == (0u32, 0u32),
    {
        let ret = SheetRange { anchor: (0, 0), rows: Vec::new() };
        proof {
            assert(ret.cells() =~= Seq::<Seq<CellValue>>::empty());
        }
        ret
    }

    /// What `from_parts` accepts: the position present exactly when rows
    /// are, rectangular nonempty-wide rows, and a window that fits the
    /// 32-bit coordinate space.
    pub open spec fn parts_wf(start: Option<(u32, u32)>, rows: Seq<Vec<calamine::DataType>>) -> bool {
        let anchor = match start {
            Some(p) => p,
            None => (0u32, 0u32),
        };
        &&& (rows.len() > 0 <==> start is Some)
        &&& rows.len() <= u32::MAX
        &&& rows.len() > 0 ==> {
            &&& (#[trigger] rows[0])@.len() > 0
            &&& rows[0]@.len() <= u32::MAX
            &&& forall|k: int| 0 <= k < rows.len() ==> (#[trigger] rows[k])@.len() == rows[0]@.len()
            &&& anchor.0 + rows.len() - 1 <= u32::MAX
            &&& anchor.1 + rows[0]@.len() - 1 <= u32::MAX
        }
    }

    /// Builds a range from a top-left position and rows of cells, as the
    /// document library hands them out; `Some` exactly when `parts_wf`
    /// accepts them.
    pub fn from_parts(start: Option<(u32, u32)>, rows: Vec<Vec<calamine::DataType>>) -> (ret:
        Option<SheetRange>)
        ensures
            ret is Some <==> Self::parts_wf(start, rows@),
            match ret {
                Some(sr) => {
                    &&& sr.wf()
                    &&& sr.rows@ == rows@
                    &&& sr.anchor == (match start {
                        Some(p) => p,
                        None => (0u32, 0u32),
                    })
                },
                None => true,
            },
    {
        let anchor = match start {
            Some(p) => {
                if rows.len() == 0 {
                    return None;
                }
                p
            },
            None => {
                if rows.len() > 0 {
                    return None;
                }
                (0, 0)
            },
        };
        if rows.len() > 0 {
            let w = rows[0].len();
            if w == 0 {
                return None;
            }
            let mut k: usize = 1;
            while k < rows.len()
                invariant
                    1 <= k <= rows@.len(),
                    rows@[0]@.len() == w,
                    forall|t: int| 0 <= t < k ==> (#[trigger] rows@[t])@.len() == w,
                decreases rows@.len() - k,
            {
                if rows[k].len() != w {
                    proof {
                        assert(rows@[k as int]@.len() != rows@[0]@.len());
                    }
                    return None;
                }
                k = k + 1;
            }
            if rows.len() > u32::MAX as usize {
                return None;
            }
            if w > u32::MAX as usize {
                return None;
            }
            if (anchor.0 as u64) + (rows.len() as u64) - 1 > u32::MAX as u64 {
                return None;
            }
            if (anchor.1 as u64) + (w as u64) - 1 > u32::MAX as u64 {
                return None;
            }
        }
        Some(SheetRange { anchor, rows })
    }

    /// The number of rows.
    pub fn height(&self) -> (h: usize)
        ensures
            h == self.cells().len(),
    {
        self.rows.len()
    }

    /// The number of columns; zero when the range is empty.
    pub fn width(&self) -> (w: usize)
        ensures
            w == grid_width(self.cells()),
    {
        if self.rows.len() == 0 {
            0
        } else {
            proof {
                assert(self.cells()[0] == row_model(self.rows@[0]@));
            }
            self.rows[0].len()
        }
    }

    /// The absolute position of the top-left cell, present exactly when the
    /// range is not empty.
    pub fn start(&self) -> (ret: Option<(u32, u32)>)
        ensures
            ret == if self.cells().len() > 0 {
                Some(self.anchor)
            } else {
                None::<(u32, u32)>
            },
    {
        if self.rows.len() > 0 {
            Some(self.anchor)
        } else {
            None
        }
    }

    /// The absolute position of the bottom-right cell, present exactly when
    /// the range is not empty.
    pub fn end(&self) -> (ret: Option<(u32, u32)>)
        requires
            self.wf(),
        ensures
            ret == if self.cells().len() > 0 {
                Some(
                    (
                        (self.anchor.0 + self.cells().len() - 1) as u32,
                        (self.anchor.1 + grid_width(self.cells()) - 1) as u32,
                    ),
                )
            } else {
                None::<(u32, u32)>
            },
    {
        if self.rows.len() == 0 {
            return None;
        }
        let h = self.rows.len();
        let w = self.width();
        proof {
            assert(grid_width(self.cells()) == self.spec_width());
        }
        let e0 = (self.anchor.0 as u64) + (h as u64) - 1;
        let e1 = (self.anchor.1 as u64) + (w as u64) - 1;
        Some((e0 as u32, e1 as u32))
    }

    /// The cell at an absolute position, or `None` outside the window.
    pub fn get(&self, row: u32, col: u32) -> (ret: Option<&calamine::DataType>)
        requires
            self.wf(),
        ensures
            match ret {
                Some(d) => grid_at_or_empty(self.cells(), self.anchor, row as int, col as int)
                    == data_model(*d) && self.cells().len() > 0,
                None => self.cells().len() == 0 || row < self.anchor.0 || row >= self.anchor.0
                    + self.cells().len() || col < self.anchor.1 || col >= self.anchor.1
                    + grid_width(self.cells()),
            },
            ret is None <==> (self.cells().len() == 0 || row < self.anchor.0 || row
                >= self.anchor.0 + self.cells().len() || col < self.anchor.1 || col
                >= self.anchor.1 + grid_width(self.cells())),
    {
        if self.rows.len() == 0 {
            return None;
        }
        let w = self.width();
        if row < self.anchor.0 || col < self.anchor.1 {
            return None;
        }
        let ri = (row - self.anchor.0) as usize;
        let ci = (col - self.anchor.1) as usize;
        if ri >= self.rows.len() || ci >= w {
            return None;
        }
        proof {
            assert(self.cells()[ri as int] == row_model(self.rows@[ri as int]@));
        }
        Some(&self.rows[ri][ci])
    }

    /// The window from `st` to `en` (both inclusive, absolute): cells copied
    /// where this range covers them, empty elsewhere.
    pub fn window(&self, st: (u32, u32), en: (u32, u32)) -> (ret: SheetRange)
        requires
            self.wf(),
            st.0 <= en.0,
            st.1 <= en.1,
            en.0 - st.0 < u32::MAX,
            en.1 - st.1 < u32::MAX,
        ensures
            ret.wf(),
            ret.anchor == st,
            ret.cells() == window_cells(self.cells(), self.anchor, st, en),
    {
        let h: u64 = (en.0 - st.0) as u64 + 1;
        let w: u64 = (en.1 - st.1) as u64 + 1;
        let mut rows: Vec<Vec<calamine::DataType>> = Vec::new();
        let ghost target = window_cells(self.cells(), self.anchor, st, en);
        let mut i: u64 = 0;
        while i < h
            invariant
                0 <= i <= h,
                h == en.0 - st.0 + 1,
                w == en.1 - st.1 + 1,
                self.wf(),
                st.0 <= en.0 && st.1 <= en.1,
                target == window_cells(self.cells(), self.anchor, st, en),
                rows@.len() == i,
                forall|t: int| 0 <= t < i ==> row_model((#[trigger] rows@[t])@) == target[t],
                forall|t: int| 0 <= t < i ==> (#[trigger] rows@[t])@.len() == w,
            decreases h - i,
        {
            let mut row: Vec<calamine::DataType> = Vec::new();
            let mut j: u64 = 0;
            while j < w
                invariant
                    0 <= j <= w,
                    i < h,
                    h == en.0 - st.0 + 1,
                    w == en.1 - st.1 + 1,
                    self.wf(),
                    st.0 <= en.0 && st.1 <= en.1,
                    row@.len() == j,
                    forall|t: int|
                        0 <= t < j ==> data_model(#[trigger] row@[t]) == grid_at_or_empty(
                            self.cells(),
                            self.anchor,
                            st.0 + i,
                            st.1 + t,
                        ),
                decreases w - j,
            {
                let r32: u32 = st.0 + (i as u32);
                let c32: u32 = st.1 + (j as u32);
                let cell = match self.get(r32, c32) {
                    Some(d) => clone_cell(d),
                    None => empty_cell(),
                };
                row.push(cell);
                j = j + 1;
            }
            proof {
                assert(row_model(row@) =~= target[i as int]);
            }
            rows.push(row);
            i = i + 1;
        }
        let ret = SheetRange { anchor: st, rows };
        proof {
            assert(ret.cells() =~= target);
            assert(ret.spec_width() == w);
        }
        ret
    }
}

} // verus!
