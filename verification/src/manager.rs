//! The data-source manager: folds parsed options into a configuration,
//! opens a manager over a worksheet snapshot, resolves the effective range
//! against the sheet's bounds, derives the column schema, and hands out
//! readers.

use vstd::prelude::*;

use crate::cells::{letters_of, push_letters, CellRange};
use crate::grid::{grid_at_or_empty, grid_width, window_cells, SheetRange};
use crate::options::{OptionModel, UsingOption};
use crate::reader::DataReader;
use crate::text::{all_digits, dec_checked, dec_val, digit_char, is_digit_char};
use crate::values::{has_text, text_of, CellValue};

verus! {

/// Why a manager could not be opened or configured.
#[derive(Debug, Clone, PartialEq)]
pub enum DataManagerError {
    /// No file was configured.
    NoFilename,
    /// No worksheet was configured.
    NoWorksheet,
    /// A configured range literal did not parse.
    InvalidRange,
    /// A configured column-names row was not a decimal number.
    InvalidColumnNamesRow,
    /// The document library failed to open or decode the file; its message
    /// is carried verbatim.
    Workbook(String),
}

/// The mathematical shape of a builder's configuration.
pub struct BuilderModel {
    pub file: Option<Seq<char>>,
    pub worksheet: Option<Seq<char>>,
    pub range: Option<CellRange>,
    pub colnames_row: Option<u32>,
}

impl BuilderModel {
    /// The configuration before any option was folded in.
    pub open spec fn init() -> BuilderModel {
        BuilderModel { file: None, worksheet: None, range: None, colnames_row: None }
    }
}

/// What `u32` parsing accepts: an optional leading plus, then one or more
/// decimal digits whose value fits.
pub open spec fn u32_of_str(s: Seq<char>) -> Option<u32> {
    let t = if s.len() > 0 && s[0] == '+' {
        s.drop_first()
    } else {
        s
    };
    if t.len() > 0 && all_digits(t) && dec_val(t) <= u32::MAX {
        Some((dec_val(t) as u32))
    } else {
        None
    }
}

/// Parses a `u32` the way the standard decimal parser does.
pub fn parse_u32(s: &str) -> (ret: Option<u32>)
    ensures
        ret == u32_of_str(s@),
{
    let len = s.unicode_len();
    let start: usize = if len > 0 && s.get_char(0) == '+' {
        1
    } else {
        0
    };
    if start >= len {
        return None;
    }
    let ghost t = if s@.len() > 0 && s@[0] == '+' {
        s@.drop_first()
    } else {
        s@
    };
    let mut k = start;
    while k < len
        invariant
            start <= k <= len,
            len == s@.len(),
            start == if s@.len() > 0 && s@[0] == '+' {
                1int
            } else {
                0int
            },
            t == if s@.len() > 0 && s@[0] == '+' {
                s@.drop_first()
            } else {
                s@
            },
            forall|u: int| 0 <= u < k - start ==> is_digit_char(#[trigger] t[u]),
        decreases len - k,
    {
        if !digit_char(s.get_char(k)) {
            proof {
                assert(t[k - start] == s@[k as int]);
                assert(!all_digits(t));
            }
            return None;
        }
        proof {
            assert(t[k - start] == s@[k as int]);
        }
        k = k + 1;
    }
    let digits = s.substring_char(start, len);
    proof {
        assert(digits@ =~= t);
        assert(all_digits(t));
    }
    dec_checked(digits)
}

/// Folding one option into a configuration: later values overwrite earlier
/// ones; a malformed range or column-names value is a hard failure.
pub open spec fn fold_option(m: BuilderModel, o: OptionModel) -> Result<
    BuilderModel,
    DataManagerError,
> {
    match o {
        OptionModel::File(f) => Ok(BuilderModel { file: Some(f), ..m }),
        OptionModel::Worksheet(w) => Ok(BuilderModel { worksheet: Some(w), ..m }),
        OptionModel::Range(t) => match crate::cells::cell_range_of(t) {
            Some(r) => Ok(BuilderModel { range: Some(r), ..m }),
            None => Err(DataManagerError::InvalidRange),
        },
        OptionModel::ColNames(t) => match u32_of_str(t) {
            Some(v) => Ok(
                BuilderModel {
                    colnames_row: Some(
                        if v > 0 {
                            (v - 1) as u32
                        } else {
                            0u32
                        },
                    ),
                    ..m
                },
            ),
            None => Err(DataManagerError::InvalidColumnNamesRow),
        },
    }
}

/// Folding a sequence of options left to right, stopping at the first
/// failure.
pub open spec fn fold_options(m: BuilderModel, opts: Seq<OptionModel>) -> Result<
    BuilderModel,
    DataManagerError,
>
    decreases opts.len(),
{
    if opts.len() == 0 {
        Ok(m)
    } else {
        match fold_option(m, opts.first()) {
            Ok(m2) => fold_options(m2, opts.drop_first()),
            Err(e) => Err(e),
        }
    }
}

/// Folding one more option at the end goes through the fold of the prefix.
pub proof fn lemma_fold_push(m: BuilderModel, opts: Seq<OptionModel>, o: OptionModel)
    ensures
        fold_options(m, opts.push(o)) == (match fold_options(m, opts) {
            Ok(m2) => fold_option(m2, o),
            Err(e) => Err::<BuilderModel, DataManagerError>(e),
        }),
    decreases opts.len(),
{
    if opts.len() == 0 {
        reveal_with_fuel(fold_options, 2);
        assert(opts.push(o).drop_first() =~= Seq::<OptionModel>::empty());
        assert(opts.push(o).first() == o);
        match fold_option(m, o) {
            Ok(m2) => {
                assert(fold_options(m, opts.push(o)) == Ok::<BuilderModel, DataManagerError>(m2));
            },
            Err(e) => {
                assert(fold_options(m, opts.push(o)) == Err::<BuilderModel, DataManagerError>(e));
            },
        }
    } else {
        assert(opts.push(o).first() == opts.first());
        assert(opts.push(o).drop_first() =~= opts.drop_first().push(o));
        match fold_option(m, opts.first()) {
            Ok(m2) => {
                lemma_fold_push(m2, opts.drop_first(), o);
            },
            Err(_) => {
            },
        }
    }
}

/// Folding splits at any index: the prefix folds first, and an error there
/// is the whole fold's error.
pub proof fn lemma_fold_split(m: BuilderModel, opts: Seq<OptionModel>, i: int)
    requires
        0 <= i <= opts.len(),
    ensures
        fold_options(m, opts) == (match fold_options(m, opts.take(i)) {
            Ok(m2) => fold_options(m2, opts.skip(i)),
            Err(e) => Err::<BuilderModel, DataManagerError>(e),
        }),
    decreases i,
{
    if i == 0 {
        assert(opts.take(0) =~= Seq::<OptionModel>::empty());
        assert(opts.skip(0) =~= opts);
    } else {
        let rest = opts.drop_first();
        assert(opts.take(i).first() == opts.first());
        assert(opts.take(i).drop_first() =~= rest.take(i - 1));
        assert(opts.skip(i) =~= rest.skip(i - 1));
        match fold_option(m, opts.first()) {
            Ok(m2) => {
                lemma_fold_split(m2, rest, i - 1);
            },
            Err(_) => {
            },
        }
    }
}

/// Accumulates configuration options before a manager is opened.
#[derive(Debug)]
pub struct DataManagerBuilder {
    pub file: Option<String>,
    pub worksheet: Option<String>,
    pub range: Option<CellRange>,
    pub colnames_row: Option<u32>,
}

impl View for DataManagerBuilder {
    type V = BuilderModel;

    open spec fn view(&self) -> BuilderModel {
        BuilderModel {
            file: match self.file {
                Some(f) => Some(f@),
                None => None,
            },
            worksheet: match self.worksheet {
                Some(w) => Some(w@),
                None => None,
            },
            range: self.range,
            colnames_row: self.colnames_row,
        }
    }
}

impl Default for DataManagerBuilder {
    /// An empty configuration.
    fn default() -> (ret: Self)
        ensures
            ret@ == BuilderModel::init(),
    {
        DataManagerBuilder { file: None, worksheet: None, range: None, colnames_row: None }
    }
}

impl DataManagerBuilder {
    /// An empty configuration.
    pub fn new() -> (ret: Self)
        ensures
            ret@ == BuilderModel::init(),
    {
        DataManagerBuilder { file: None, worksheet: None, range: None, colnames_row: None }
    }

    /// Folds a list of parsed options into a configuration, last write
    /// winning per field; fails on the first malformed range or
    /// column-names value, exactly as `fold_options` says.
    pub fn from_options(options: Vec<UsingOption>) -> (ret: Result<Self, DataManagerError>)
        ensures
            ({
                let folded = fold_options(BuilderModel::init(), options.deep_view());
                match ret {
                    Ok(b) => folded matches Ok(m) && b@ == m,
                    Err(e) => folded matches Err(e2) && e == e2,
                }
            }),
    {
        let mut builder = DataManagerBuilder::new();
        let mut i: usize = 0;
        proof {
            assert(options.deep_view().take(0) =~= Seq::<OptionModel>::empty());
        }
        while i < options.len()
            invariant
                i <= options@.len(),
                options.deep_view().len() == options@.len(),
                fold_options(BuilderModel::init(), options.deep_view().take(i as int)) == Ok::<
                    BuilderModel,
                    DataManagerError,
                >(builder@),
            decreases options@.len() - i,
        {
            let ghost pre = options.deep_view().take(i as int);
            let ghost post = options.deep_view().take(i + 1);
            proof {
                assert(post.drop_last() =~= pre);
                assert(post =~= pre.push(options.deep_view()[i as int]));
                lemma_fold_push(BuilderModel::init(), pre, options.deep_view()[i as int]);
            }
            match &options[i] {
                UsingOption::File(f) => {
                    builder.file = Some(f.clone());
                },
                UsingOption::Worksheet(w) => {
                    builder.worksheet = Some(w.clone());
                },
                UsingOption::Range(t) => {
                    match CellRange::try_parse(t.as_str()) {
                        Some(r) => {
                            builder.range = Some(r);
                        },
                        None => {
                            proof {
                                lemma_fold_split(BuilderModel::init(), options.deep_view(), i + 1);
                            }
                            return Err(DataManagerError::InvalidRange);
                        },
                    }
                },
                UsingOption::ColNames(t) => {
                    match parse_u32(t.as_str()) {
                        Some(v) => {
                            builder.colnames_row = Some(
                                if v > 0 {
                                    v - 1
                                } else {
                                    0
                                },
                            );
                        },
                        None => {
                            proof {
                                lemma_fold_split(BuilderModel::init(), options.deep_view(), i + 1);
                            }
                            return Err(DataManagerError::InvalidColumnNamesRow);
                        },
                    }
                },
            }
            i = i + 1;
        }
        proof {
            assert(options.deep_view().take(options@.len() as int) =~= options.deep_view());
        }
        Ok(builder)
    }

    /// Sets the file path.
    pub fn file(self, file: String) -> (ret: Self)
        ensures
            ret@ == (BuilderModel { file: Some(file@), ..self@ }),
    {
        DataManagerBuilder { file: Some(file), ..self }
    }

    /// Sets the worksheet name.
    pub fn worksheet(self, name: String) -> (ret: Self)
        ensures
            ret@ == (BuilderModel { worksheet: Some(name@), ..self@ }),
    {
        DataManagerBuilder { worksheet: Some(name), ..self }
    }

    /// Sets the sub-range to iterate.
    pub fn range(self, range: CellRange) -> (ret: Self)
        ensures
            ret@ == (BuilderModel { range: Some(range), ..self@ }),
    {
        DataManagerBuilder { range: Some(range), ..self }
    }

    /// Sets the 0-based row that holds the column names.
    pub fn colnames_row(self, row: u32) -> (ret: Self)
        ensures
            ret@ == (BuilderModel { colnames_row: Some(row), ..self@ }),
    {
        DataManagerBuilder { colnames_row: Some(row), ..self }
    }

    /// The validated `(file, worksheet)` pair, checked in that order; the
    /// caller opens the document with it before calling `open`.
    pub fn config(&self) -> (ret: Result<(String, String), DataManagerError>)
        ensures
            self.file is None ==> ret == Err::<(String, String), _>(DataManagerError::NoFilename),
            self.file is Some && self.worksheet is None ==> ret == Err::<(String, String), _>(
                DataManagerError::NoWorksheet,
            ),
            self.file is Some && self.worksheet is Some ==> (ret matches Ok(p) && p.0@
                == self@.file->Some_0 && p.1@ == self@.worksheet->Some_0),
    {
        match (&self.file, &self.worksheet) {
            (None, _) => Err(DataManagerError::NoFilename),
            (Some(_), None) => Err(DataManagerError::NoWorksheet),
            (Some(f), Some(w)) => Ok((f.clone(), w.clone())),
        }
    }

    /// Opens a manager over a worksheet snapshot — `None` when the
    /// worksheet could not be read — after checking that a file and a
    /// worksheet were configured, in that order.
    pub fn open(self, sheet: Option<SheetRange>) -> (ret: Result<DataManager, DataManagerError>)
        requires
            sheet matches Some(s) ==> s.wf(),
        ensures
            self.file is None ==> (ret matches Err(e) && e == DataManagerError::NoFilename),
            self.file is Some && self.worksheet is None ==> (ret matches Err(e) && e
                == DataManagerError::NoWorksheet),
            self.file is Some && self.worksheet is Some ==> (ret matches Ok(m) && m.wf()
                && m.sheet == sheet && m.range == self.range && m.colnames_row == self.colnames_row
                && m.worksheet@ == self@.worksheet->Some_0),
    {
        if self.file.is_none() {
            return Err(DataManagerError::NoFilename);
        }
        match self.worksheet {
            None => Err(DataManagerError::NoWorksheet),
            Some(worksheet) => Ok(
                DataManager {
                    sheet,
                    worksheet,
                    range: self.range,
                    colnames_row: self.colnames_row,
                },
            ),
        }
    }
}

/// A data source over one worksheet snapshot: resolves the effective
/// range, derives the column schema, and hands out readers.
#[derive(Debug)]
pub struct DataManager {
    /// The full worksheet, or `None` when it could not be read.
    pub sheet: Option<SheetRange>,
    /// The configured worksheet name.
    pub worksheet: String,
    /// The configured sub-range, if any.
    pub range: Option<CellRange>,
    /// The 0-based row holding column names, if configured.
    pub colnames_row: Option<u32>,
}

impl DataManager {
    pub open spec fn wf(self) -> bool {
        self.sheet matches Some(s) ==> s.wf()
    }

    /// The 0-based window the configured sub-range cuts, its unbounded end
    /// row resolved to the sheet's height; `None` when the window is
    /// reversed. Meaningful when a sheet and a sub-range are present.
    pub open spec fn spec_sub_window(self) -> Option<((u32, u32), (u32, u32))> {
        let s = self.sheet->Some_0;
        let sub = self.range->Some_0;
        let endy: u32 = if sub.end.y == 0 {
            s.cells().len() as u32
        } else {
            sub.end.y
        };
        let st = (
            (if sub.start.y > 0 {
                (sub.start.y - 1) as u32
            } else {
                0u32
            }),
            (if sub.start.x > 0 {
                (sub.start.x - 1) as u32
            } else {
                0u32
            }),
        );
        let en = (
            (if endy > 0 {
                (endy - 1) as u32
            } else {
                0u32
            }),
            (if sub.end.x > 0 {
                (sub.end.x - 1) as u32
            } else {
                0u32
            }),
        );
        if st.0 <= en.0 && st.1 <= en.1 {
            Some((st, en))
        } else {
            None
        }
    }

    /// The cells of the effective range: the full sheet, or the configured
    /// window over it; empty when the worksheet could not be read or the
    /// window is reversed.
    pub open spec fn eff_cells(self) -> Seq<Seq<CellValue>> {
        match self.sheet {
            None => Seq::empty(),
            Some(s) => match self.range {
                None => s.cells(),
                Some(_) => match self.spec_sub_window() {
                    None => Seq::empty(),
                    Some((st, en)) => window_cells(s.cells(), s.anchor, st, en),
                },
            },
        }
    }

    /// The absolute top-left position of the effective range.
    pub open spec fn eff_anchor(self) -> (u32, u32) {
        match self.sheet {
            None => (0u32, 0u32),
            Some(s) => match self.range {
                None => s.anchor,
                Some(_) => match self.spec_sub_window() {
                    None => (0u32, 0u32),
                    Some((st, _)) => st,
                },
            },
        }
    }

    /// Computes the effective range: the window the host will iterate,
    /// re-derived from the snapshot on every call.
    pub fn get_effective_range(&self) -> (ret: SheetRange)
        requires
            self.wf(),
        ensures
            ret.wf(),
            ret.cells() == self.eff_cells(),
            self.eff_cells().len() > 0 ==> ret.anchor == self.eff_anchor(),
    {
        match &self.sheet {
            None => SheetRange::empty(),
            Some(s) => {
                match &self.range {
                    None => {
                        if s.height() == 0 {
                            let ret = SheetRange::empty();
                            proof {
                                assert(ret.cells() =~= s.cells());
                            }
                            ret
                        } else {
                            let en = match s.end() {
                                Some(p) => p,
                                None => {
                                    proof {
                                        assert(false);
                                    }
                                    (0, 0)
                                },
                            };
                            let ret = s.window(s.anchor, en);
                            proof {
                                lemma_full_window(*s);
                            }
                            ret
                        }
                    },
                    Some(sub) => {
                        let h = s.height();
                        let start0 = sub.get_start().to_zero_indexed();
                        let end_ci = sub.get_end();
                        let endy: u32 = if end_ci.get_y() == 0 {
                            h as u32
                        } else {
                            end_ci.get_y()
                        };
                        let er: u32 = if endy > 0 {
                            endy - 1
                        } else {
                            0
                        };
                        let ec: u32 = if end_ci.get_x() > 0 {
                            end_ci.get_x() - 1
                        } else {
                            0
                        };
                        if start0.0 <= er && start0.1 <= ec {
                            s.window((start0.0, start0.1), (er, ec))
                        } else {
                            let ret = SheetRange::empty();
                            proof {
                                assert(ret.cells() =~= Seq::<Seq<CellValue>>::empty());
                            }
                            ret
                        }
                    },
                }
            },
        }
    }

    /// The name of the absolute 0-based column `col`: the text of the
    /// header cell where a header row is configured and the sheet covers
    /// the position, else the generated alphabetic label of the column's
    /// 1-based index.
    pub open spec fn spec_column_name(self, col: int) -> Seq<char> {
        match (self.colnames_row, self.sheet) {
            (Some(hr), Some(s)) => {
                if s.cells().len() > 0 && s.anchor.0 <= hr < s.anchor.0 + s.cells().len()
                    && s.anchor.1 <= col < s.anchor.1 + grid_width(s.cells()) {
                    text_of(s.cells()[hr - s.anchor.0][col - s.anchor.1])
                } else {
                    letters_of((col + 1) as nat)
                }
            },
            _ => letters_of((col + 1) as nat),
        }
    }

    /// Whether the model pins the name of column `col` down; it does not
    /// only for a header cell holding a document error value.
    pub open spec fn column_name_pinned(self, col: int) -> bool {
        match (self.colnames_row, self.sheet) {
            (Some(hr), Some(s)) => {
                (s.cells().len() > 0 && s.anchor.0 <= hr < s.anchor.0 + s.cells().len()
                    && s.anchor.1 <= col < s.anchor.1 + grid_width(s.cells())) ==> has_text(
                    s.cells()[hr - s.anchor.0][col - s.anchor.1],
                )
            },
            _ => true,
        }
    }

    fn column_name_at(&self, col: u32) -> (ret: String)
        requires
            self.wf(),
        ensures
            self.column_name_pinned(col as int) ==> ret@ == self.spec_column_name(col as int),
    {
        if let Some(hr) = self.colnames_row {
            if let Some(s) = &self.sheet {
                match s.get(hr, col) {
                    Some(d) => {
                        return crate::grid::data_text(d);
                    },
                    None => {
                    },
                }
            }
        }
        let mut name = String::new();
        push_letters(&mut name, (col as u64) + 1);
        proof {
            assert(Seq::<char>::empty() + letters_of((col + 1) as nat) =~= letters_of(
                (col + 1) as nat,
            ));
        }
        name
    }

    /// The column schema: one name per column of the effective range, from
    /// the configured header row where it covers the column, else the
    /// generated alphabetic label.
    pub fn get_columns(&self) -> (ret: Vec<String>)
        requires
            self.wf(),
        ensures
            ret@.len() == grid_width(self.eff_cells()),
            forall|k: int|
                0 <= k < ret@.len() && self.column_name_pinned(self.eff_anchor().1 + k) ==> (
                #[trigger] ret@[k])@ == self.spec_column_name(self.eff_anchor().1 + k),
    {
        let eff = self.get_effective_range();
        let w = eff.width();
        let mut out: Vec<String> = Vec::new();
        if w == 0 {
            return out;
        }
        let ac = match eff.start() {
            Some(p) => p.1,
            None => {
                proof {
                    assert(grid_width(eff.cells()) == 0);
                    assert(false);
                }
                0
            },
        };
        let mut j: usize = 0;
        while j < w
            invariant
                0 <= j <= w,
                self.wf(),
                w == grid_width(self.eff_cells()),
                w <= u32::MAX,
                ac == self.eff_anchor().1,
                out@.len() == j,
                forall|k: int|
                    0 <= k < j && self.column_name_pinned(ac + k) ==> (#[trigger] out@[k])@
                        == self.spec_column_name(ac + k),
            decreases w - j,
        {
            let col: u32 = ac + (j as u32);
            let name = self.column_name_at(col);
            out.push(name);
            j = j + 1;
        }
        out
    }

    /// Snapshots the effective range into a reader positioned at its first
    /// row.
    pub fn read(&self) -> (ret: DataReader)
        requires
            self.wf(),
        ensures
            ret.wf(),
            ret.cells() == self.eff_cells(),
            ret.pos == 0,
            ret.rowid == if self.eff_cells().len() > 0 {
                self.eff_anchor().0
            } else {
                0u32
            },
    {
        DataReader::new(self.get_effective_range())
    }
}

/// The full window of a well-formed nonempty range is the range itself.
proof fn lemma_full_window(s: SheetRange)
    requires
        s.wf(),
        s.cells().len() > 0,
    ensures
        window_cells(
            s.cells(),
            s.anchor,
            s.anchor,
            (
                ((s.anchor.0 + s.cells().len() - 1) as u32),
                ((s.anchor.1 + grid_width(s.cells()) - 1) as u32),
            ),
        ) == s.cells(),
{
    let en = (
        ((s.anchor.0 + s.cells().len() - 1) as u32),
        ((s.anchor.1 + grid_width(s.cells()) - 1) as u32),
    );
    let target = window_cells(s.cells(), s.anchor, s.anchor, en);
    assert forall|i: int| 0 <= i < target.len() implies target[i] == s.cells()[i] by {
        assert forall|j: int| 0 <= j < target[i].len() implies target[i][j] == s.cells()[i][j] by {
            assert(grid_at_or_empty(s.cells(), s.anchor, s.anchor.0 + i, s.anchor.1 + j)
                == s.cells()[i][j]);
        }
        assert(target[i] =~= s.cells()[i]);
    }
    assert(target =~= s.cells());
}

} // verus!
