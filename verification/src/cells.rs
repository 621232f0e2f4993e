//! The address model: spreadsheet coordinates in A1 notation and
//! rectangular ranges built from them.
//!
//! A column is a bijective base-26 letter sequence (`A` = 1, `Z` = 26,
//! `AA` = 27, ...); a row is a decimal literal. A cell index stores both as
//! 1-based numbers, with row 0 standing for an unbounded (open) row end.

use vstd::prelude::*;

use crate::text::{
    all_digits, alpha_char, dec_checked, dec_digits, dec_val, digit_char, is_alpha_char,
    is_digit_char, is_upper_char, push_dec, to_upper_char, upper_char, upper_seq,
};

verus! {

/// The value of an upper-case column letter: `A` = 1 ... `Z` = 26.
pub open spec fn letter_val(c: char) -> nat {
    (c as nat - 64) as nat
}

/// The upper-case letter for a value between 1 and 26.
pub open spec fn letter_of(v: nat) -> char {
    (((64 + v) as u8) as char)
}

pub open spec fn all_upper(s: Seq<char>) -> bool {
    forall|i: int| 0 <= i < s.len() ==> is_upper_char(#[trigger] s[i])
}

/// The column number denoted by an upper-case letter sequence, in bijective
/// base 26, most significant letter first.
pub open spec fn col_index_of(s: Seq<char>) -> nat
    decreases s.len(),
{
    if s.len() == 0 {
        0
    } else {
        col_index_of(s.drop_last()) * 26 + letter_val(s.last())
    }
}

/// The canonical letter sequence for a column number; empty for 0.
pub open spec fn letters_of(i: nat) -> Seq<char>
    decreases i,
{
    if i == 0 {
        Seq::empty()
    } else {
        letters_of(((i - 1) / 26) as nat).push(letter_of(((i - 1) % 26 + 1) as nat))
    }
}

/// Encoding a column number and decoding the result gives the number back:
/// the letter sequences produced by `letters_of` mean what they say.
pub proof fn lemma_letters_decode(i: nat)
    ensures
        col_index_of(letters_of(i)) == i,
    decreases i,
{
    if i != 0 {
        let q = ((i - 1) / 26) as nat;
        let r = ((i - 1) % 26) as nat;
        lemma_letters_decode(q);
        vstd::arithmetic::div_mod::lemma_fundamental_div_mod((i - 1) as int, 26);
        assert(letters_of(i).drop_last() =~= letters_of(q));
        assert(letter_val(letter_of(r + 1)) == r + 1);
    }
}

/// Every character `letters_of` produces is an upper-case letter.
pub proof fn lemma_letters_upper(i: nat)
    ensures
        all_upper(letters_of(i)),
        i > 0 ==> letters_of(i).len() > 0,
    decreases i,
{
    if i != 0 {
        lemma_letters_upper(((i - 1) / 26) as nat);
    }
}

/// Round-trip stability of the column coding: decoding a letter string,
/// re-encoding it and decoding again yields the same column number.
pub proof fn lemma_letters_round_trip(s: Seq<char>)
    ensures
        col_index_of(letters_of(col_index_of(s))) == col_index_of(s),
{
    lemma_letters_decode(col_index_of(s));
}

/// A prefix of a letter string never denotes a later column than the whole.
pub proof fn lemma_col_prefix_le(s: Seq<char>, i: int)
    requires
        0 <= i <= s.len(),
        all_upper(s),
    ensures
        col_index_of(s.take(i)) <= col_index_of(s),
    decreases s.len() - i,
{
    if i < s.len() {
        assert(s.take(i + 1).drop_last() =~= s.take(i));
        assert(col_index_of(s.take(i + 1)) == col_index_of(s.take(i)) * 26 + letter_val(
            s.take(i + 1).last(),
        ));
        lemma_col_prefix_le(s, i + 1);
    } else {
        assert(s.take(i) =~= s);
    }
}

/// Decodes an upper-case letter string, reporting overflow as `None`.
pub fn col_checked(s: &str) -> (ret: Option<u32>)
    requires
        all_upper(s@),
    ensures
        col_index_of(s@) <= u32::MAX ==> ret == Some((col_index_of(s@) as u32)),
        col_index_of(s@) > u32::MAX ==> ret is None,
{
    let len = s.unicode_len();
    let mut acc: u64 = 0;
    let mut i: usize = 0;
    while i < len
        invariant
            i <= len,
            len == s@.len(),
            all_upper(s@),
            acc == col_index_of(s@.take(i as int)),
            acc <= u32::MAX,
        decreases len - i,
    {
        let c = s.get_char(i);
        let v = (c as u32) - 64;
        proof {
            assert(s@.take(i + 1).drop_last() =~= s@.take(i as int));
        }
        let next = acc * 26 + (v as u64);
        if next > (u32::MAX as u64) {
            proof {
                lemma_col_prefix_le(s@, i + 1);
            }
            return None;
        }
        acc = next;
        i = i + 1;
    }
    proof {
        assert(s@.take(len as int) =~= s@);
    }
    Some(acc as u32)
}

/// Decodes an upper-case column letter string: `A` = 1, `Z` = 26, `AA` = 27.
pub fn column_to_index(column: &str) -> (ret: u32)
    requires
        all_upper(column@),
        col_index_of(column@) <= u32::MAX,
    ensures
        ret == col_index_of(column@),
{
    if let Some(v) = col_checked(column) {
        v
    } else {
        proof {
            assert(false);
        }
        0
    }
}

pub(crate) fn push_letters(s: &mut String, i: u64)
    ensures
        final(s)@ == old(s)@ + letters_of(i as nat),
    decreases i,
{
    if i == 0 {
        proof {
            assert(old(s)@ + letters_of(0) =~= old(s)@);
        }
        return ;
    }
    let q = (i - 1) / 26;
    let r = ((i - 1) % 26) as u8;
    push_letters(s, q);
    s.push((65 + r) as char);
    proof {
        assert(old(s)@ + letters_of(i as nat) =~= (old(s)@ + letters_of(q as nat)).push(
            letter_of((r + 1) as nat),
        ));
    }
}

/// Encodes a 1-based column number as its letter string: 1 = `A`, 26 = `Z`,
/// 27 = `AA`. The result is a nonempty upper-case string that decodes back
/// to `index`.
pub fn index_to_column(index: u32) -> (ret: String)
    requires
        index >= 1,
    ensures
        ret@ == letters_of(index as nat),
        all_upper(ret@),
        ret@.len() > 0,
        col_index_of(ret@) == index,
{
    let mut s = String::new();
    push_letters(&mut s, index as u64);
    proof {
        assert(Seq::<char>::empty() + letters_of(index as nat) =~= letters_of(index as nat));
        lemma_letters_upper(index as nat);
        lemma_letters_decode(index as nat);
    }
    s
}

/// Parses a decimal row literal.
pub fn row_to_index(row: &str) -> (ret: u32)
    requires
        all_digits(row@),
        dec_val(row@) <= u32::MAX,
    ensures
        ret == dec_val(row@),
{
    if let Some(v) = dec_checked(row) {
        v
    } else {
        proof {
            assert(false);
        }
        0
    }
}

/// Renders a row number shifted up by one.
pub fn index_to_row(index: u32) -> (ret: String)
    requires
        index < u32::MAX,
    ensures
        ret@ == dec_digits((index + 1) as nat),
{
    let mut s = String::new();
    push_dec(&mut s, (index + 1) as u64);
    proof {
        assert(Seq::<char>::empty() + dec_digits((index + 1) as nat) =~= dec_digits(
            (index + 1) as nat,
        ));
    }
    s
}

/// A nonempty digit part has a digit somewhere in the text.
proof fn lemma_digit_witness(s: Seq<char>)
    requires
        digit_part(s).len() > 0,
    ensures
        exists|k: int| 0 <= k < s.len() && is_digit_char(#[trigger] s[k]),
    decreases s.len(),
{
    reveal(Seq::filter);
    if s.len() > 0 {
        if is_digit_char(s.last()) {
            assert(0 <= s.len() - 1 < s.len() && is_digit_char(s[s.len() - 1]));
        } else {
            lemma_digit_witness(s.drop_last());
            let k = choose|k: int|
                0 <= k < s.drop_last().len() && is_digit_char(#[trigger] s.drop_last()[k]);
            assert(s[k] == s.drop_last()[k]);
            assert(is_digit_char(s[k]));
        }
    }
}

/// Appending a character keeps `no_alpha_after_digit`, provided an appended
/// letter comes after no digit.
proof fn lemma_no_alpha_after_digit_push(pre: Seq<char>, post: Seq<char>, c: char)
    requires
        post == pre.push(c),
        no_alpha_after_digit(pre),
        is_alpha_char(c) ==> forall|k: int| 0 <= k < pre.len() ==> !is_digit_char(#[trigger] pre[k]),
    ensures
        no_alpha_after_digit(post),
{
    assert forall|i0: int, j0: int|
        0 <= i0 < j0 < post.len() && is_digit_char(#[trigger] post[i0]) implies !is_alpha_char(
        #[trigger] post[j0],
    ) by {
        if j0 < pre.len() {
            assert(post[i0] == pre[i0] && post[j0] == pre[j0]);
        } else {
            assert(post[j0] == c);
            assert(post[i0] == pre[i0]);
        }
    }
}

/// No alphabetic character may follow a digit in a cell address.
pub open spec fn no_alpha_after_digit(s: Seq<char>) -> bool {
    forall|i: int, j: int|
        0 <= i < j < s.len() && is_digit_char(#[trigger] s[i]) ==> !is_alpha_char(#[trigger] s[j])
}

/// The letter part of a cell address, upper-cased.
pub open spec fn alpha_part(s: Seq<char>) -> Seq<char> {
    upper_seq(s.filter(|c: char| is_alpha_char(c)))
}

/// The digit part of a cell address.
pub open spec fn digit_part(s: Seq<char>) -> Seq<char> {
    s.filter(|c: char| is_digit_char(c))
}

/// A cell position: `x` is the 1-based column, `y` the 1-based row, with
/// `y == 0` standing for an unbounded row (a bare column letter).
#[derive(Debug, Copy, Clone, PartialEq, Eq, Structural)]
pub struct CellIndex {
    pub x: u32,
    pub y: u32,
}

/// What parsing a cell address yields: the letter part decodes to the
/// column, the digit part to the row (0 if absent). Parsing fails when a
/// letter follows a digit, when there is no letter at all, or when either
/// number exceeds `u32::MAX`. Characters of other classes are skipped.
pub open spec fn cell_index_of(s: Seq<char>) -> Option<CellIndex> {
    if no_alpha_after_digit(s) && alpha_part(s).len() > 0 && col_index_of(alpha_part(s))
        <= u32::MAX && dec_val(digit_part(s)) <= u32::MAX {
        Some(
            (CellIndex {
                x: col_index_of(alpha_part(s)) as u32,
                y: if digit_part(s).len() == 0 {
                    0
                } else {
                    dec_val(digit_part(s)) as u32
                },
            }),
        )
    } else {
        None
    }
}

impl CellIndex {
    pub fn new(x: u32, y: u32) -> (ret: Self)
        ensures
            ret == (CellIndex { x, y }),
    {
        Self { x, y }
    }

    /// Parses an A1-notation cell address, per `cell_index_of`.
    pub fn try_parse(s: &str) -> (ret: Option<Self>)
        ensures
            ret == cell_index_of(s@),
    {
        let len = s.unicode_len();
        let mut alpha = String::new();
        let mut digits = String::new();
        let mut i: usize = 0;
        proof {
            reveal(Seq::filter);
            assert(alpha@ =~= alpha_part(s@.take(0)));
            assert(digits@ =~= digit_part(s@.take(0)));
        }
        while i < len
            invariant
                i <= len,
                len == s@.len(),
                alpha@ == alpha_part(s@.take(i as int)),
                digits@ == digit_part(s@.take(i as int)),
                no_alpha_after_digit(s@.take(i as int)),
            decreases len - i,
        {
            let ghost pre = s@.take(i as int);
            let ghost post = s@.take(i + 1);
            proof {
                reveal(Seq::filter);
                assert(post.drop_last() =~= pre);
            }
            let c = s.get_char(i);
            if alpha_char(c) {
                if digits.as_str().unicode_len() > 0 {
                    proof {
                        assert(digit_part(pre).len() > 0);
                        lemma_digit_witness(pre);
                        let k0 = choose|k0: int|
                            0 <= k0 < pre.len() && is_digit_char(#[trigger] pre[k0]);
                        assert(is_digit_char(s@[k0]) && is_alpha_char(s@[i as int]));
                        assert(!no_alpha_after_digit(s@));
                    }
                    return None;
                }
                alpha.push(to_upper_char(c));
                proof {
                    reveal(Seq::filter);
                    assert(post.drop_last() == pre);
                    assert(post.last() == c);
                    assert(post.filter(|c: char| is_alpha_char(c)) == pre.filter(
                        |c: char| is_alpha_char(c),
                    ).push(c));
                    assert(alpha@ =~= alpha_part(post));
                    assert(digits@ =~= digit_part(post));
                    assert forall|k: int| 0 <= k < pre.len() implies !is_digit_char(
                        #[trigger] pre[k],
                    ) by {
                        if is_digit_char(pre[k]) {
                            pre.lemma_filter_contains(|c: char| is_digit_char(c), k);
                        }
                    }
                    assert(post == pre.push(c));
                    lemma_no_alpha_after_digit_push(pre, post, c);
                }
            } else if digit_char(c) {
                digits.push(c);
                proof {
                    reveal(Seq::filter);
                    assert(post.drop_last() == pre);
                    assert(post.last() == c);
                    assert(digits@ =~= digit_part(post));
                    assert(alpha@ =~= alpha_part(post));
                    assert(post == pre.push(c));
                    lemma_no_alpha_after_digit_push(pre, post, c);
                }
            } else {
                proof {
                    reveal(Seq::filter);
                    assert(post.drop_last() == pre);
                    assert(post.last() == c);
                    assert(digits@ =~= digit_part(post));
                    assert(alpha@ =~= alpha_part(post));
                    assert(post == pre.push(c));
                    lemma_no_alpha_after_digit_push(pre, post, c);
                }
            }
            i = i + 1;
        }
        proof {
            assert(s@.take(len as int) =~= s@);
        }
        if alpha.as_str().unicode_len() == 0 {
            return None;
        }
        proof {
            let filtered = s@.filter(|c: char| is_alpha_char(c));
            assert forall|k: int| 0 <= k < alpha@.len() implies is_upper_char(
                #[trigger] alpha@[k],
            ) by {
                s@.lemma_filter_pred(|c: char| is_alpha_char(c), k);
                assert(alpha@[k] == upper_char(filtered[k]));
            }
        }
        let x = match col_checked(alpha.as_str()) {
            Some(x) => x,
            None => {
                return None;
            },
        };
        if digits.as_str().unicode_len() == 0 {
            Some(CellIndex { x, y: 0 })
        } else {
            proof {
                assert forall|k: int| 0 <= k < digits@.len() implies is_digit_char(
                    #[trigger] digits@[k],
                ) by {
                    s@.lemma_filter_pred(|c: char| is_digit_char(c), k);
                }
            }
            match dec_checked(digits.as_str()) {
                Some(y) => Some(CellIndex { x, y }),
                None => None,
            }
        }
    }

    pub fn get_x(&self) -> (ret: u32)
        ensures
            ret == self.x,
    {
        self.x
    }

    pub fn get_y(&self) -> (ret: u32)
        ensures
            ret == self.y,
    {
        self.y
    }

    /// The letter string of the column, multi-letter bijective base 26.
    pub fn get_x_as_string(&self) -> (ret: String)
        requires
            self.x >= 1,
        ensures
            ret@ == letters_of(self.x as nat),
    {
        index_to_column(self.x)
    }

    /// The decimal string of the row shifted up by one.
    pub fn get_y_as_string(&self) -> (ret: String)
        requires
            self.y < u32::MAX,
        ensures
            ret@ == dec_digits((self.y + 1) as nat),
    {
        index_to_row(self.y)
    }

    /// The 0-based `(row, column)` pair; 0 stays 0 rather than underflowing.
    pub fn to_zero_indexed(&self) -> (ret: (u32, u32))
        ensures
            ret.0 == if self.y > 0 {
                (self.y - 1) as u32
            } else {
                0u32
            },
            ret.1 == if self.x > 0 {
                (self.x - 1) as u32
            } else {
                0u32
            },
    {
        (
            if self.y > 0 {
                self.y - 1
            } else {
                0
            },
            if self.x > 0 {
                self.x - 1
            } else {
                0
            },
        )
    }
}

/// The first index holding a colon, or -1 when there is none.
pub open spec fn find_colon(s: Seq<char>, i: int) -> int
    decreases s.len() - i,
{
    if i < 0 || i >= s.len() {
        -1
    } else if s[i] == ':' {
        i
    } else {
        find_colon(s, i + 1)
    }
}

fn first_colon(s: &str) -> (ret: Option<usize>)
    ensures
        match ret {
            Some(i) => i == find_colon(s@, 0) && i < s@.len() && s@[i as int] == ':',
            None => find_colon(s@, 0) == -1,
        },
{
    let len = s.unicode_len();
    let mut i: usize = 0;
    while i < len
        invariant
            i <= len,
            len == s@.len(),
            find_colon(s@, 0) == find_colon(s@, i as int),
        decreases len - i,
    {
        if s.get_char(i) == ':' {
            return Some(i);
        }
        i = i + 1;
    }
    None
}

/// An ordered pair of cell positions, exactly as the text gave them: the
/// ends are not swapped and `start <= end` is not enforced.
#[derive(Debug, Copy, Clone, PartialEq, Eq, Structural)]
pub struct CellRange {
    pub start: CellIndex,
    pub end: CellIndex,
}

/// What parsing a range literal yields: a single colon must split the text
/// into two valid cell addresses.
pub open spec fn cell_range_of(s: Seq<char>) -> Option<CellRange> {
    let i = find_colon(s, 0);
    if i >= 0 && (forall|j: int| i < j < s.len() ==> s[j] != ':') {
        match (cell_index_of(s.take(i)), cell_index_of(s.skip(i + 1))) {
            (Some(start), Some(end)) => Some((CellRange { start, end })),
            _ => None,
        }
    } else {
        None
    }
}

impl CellRange {
    pub fn new(start: CellIndex, end: CellIndex) -> (ret: Self)
        ensures
            ret == (CellRange { start, end }),
    {
        Self { start, end }
    }

    /// Parses a `start:end` range literal, per `cell_range_of`.
    pub fn try_parse(s: &str) -> (ret: Option<Self>)
        ensures
            ret == cell_range_of(s@),
    {
        let len = s.unicode_len();
        let i = match first_colon(s) {
            Some(i) => i,
            None => {
                return None;
            },
        };
        let mut j: usize = i + 1;
        while j < len
            invariant
                i < j <= len,
                len == s@.len(),
                i as int == find_colon(s@, 0),
                s@[i as int] == ':',
                forall|k: int| i < k < j ==> s@[k] != ':',
            decreases len - j,
        {
            if s.get_char(j) == ':' {
                proof {
                    let i0 = find_colon(s@, 0);
                    assert(i0 < j < s@.len() && s@[j as int] == ':');
                    assert(!(forall|k: int| i0 < k < s@.len() ==> s@[k] != ':'));
                }
                return None;
            }
            j = j + 1;
        }
        let head = s.substring_char(0, i);
        let tail = s.substring_char(i + 1, len);
        proof {
            assert(head@ =~= s@.take(i as int));
            assert(tail@ =~= s@.skip(i + 1));
        }
        match (CellIndex::try_parse(head), CellIndex::try_parse(tail)) {
            (Some(start), Some(end)) => Some(CellRange { start, end }),
            _ => None,
        }
    }

    pub fn get_start(&self) -> (ret: CellIndex)
        ensures
            ret == self.start,
    {
        self.start
    }

    pub fn get_end(&self) -> (ret: CellIndex)
        ensures
            ret == self.end,
    {
        self.end
    }
}

} // verus!
