//! The option grammar: each creation-argument token is parsed on its own
//! into a typed configuration option.
//!
//! Grammar (keywords case-insensitive, whitespace-insensitive):
//! ```text
//! option       := ws* (file_opt | sheet_opt | range_opt | colnames_opt) ws*
//! file_opt     := ("FILENAME"|"FILE") ws+ quoted
//! sheet_opt    := ("WORKSHEET"|"SHEET") ws+ quoted
//! range_opt    := "RANGE" ws+ "'" letters+ digits* ":" letters+ digits* "'"
//! colnames_opt := ("COLUMNNAMES"|"HEADER") ws+ quoted
//! quoted       := "'" (escaped-quote | char-except-quote-or-backslash)* "'"
//! ```
//! A quoted value keeps its escapes as written; an empty quoted value is
//! valid. A token matching no rule yields no option; the caller drops it
//! silently.

use vstd::prelude::*;

use crate::text::{
    alpha_char, digit_char, is_alpha_char, is_digit_char, is_space_char, space_char, to_upper_char,
    upper_char,
};

verus! {

/// One parsed creation-argument option.
#[derive(Debug, Clone, PartialEq)]
pub enum UsingOption {
    File(String),
    Worksheet(String),
    Range(String),
    ColNames(String),
}

/// The mathematical shape of an option: its kind and its text payload.
pub enum OptionModel {
    File(Seq<char>),
    Worksheet(Seq<char>),
    Range(Seq<char>),
    ColNames(Seq<char>),
}

impl View for UsingOption {
    type V = OptionModel;

    open spec fn view(&self) -> OptionModel {
        match self {
            UsingOption::File(s) => OptionModel::File(s@),
            UsingOption::Worksheet(s) => OptionModel::Worksheet(s@),
            UsingOption::Range(s) => OptionModel::Range(s@),
            UsingOption::ColNames(s) => OptionModel::ColNames(s@),
        }
    }
}

impl DeepView for UsingOption {
    type V = OptionModel;

    open spec fn deep_view(&self) -> OptionModel {
        self.view()
    }
}

/// The first index at or after `i` holding a non-space character.
pub open spec fn ws_end(s: Seq<char>, i: int) -> int
    decreases s.len() - i,
{
    if 0 <= i < s.len() && is_space_char(s[i]) {
        ws_end(s, i + 1)
    } else {
        i
    }
}

/// The first index at or after `i` holding a non-letter.
pub open spec fn alpha_end(s: Seq<char>, i: int) -> int
    decreases s.len() - i,
{
    if 0 <= i < s.len() && is_alpha_char(s[i]) {
        alpha_end(s, i + 1)
    } else {
        i
    }
}

/// The first index at or after `i` holding a non-digit.
pub open spec fn digit_end(s: Seq<char>, i: int) -> int
    decreases s.len() - i,
{
    if 0 <= i < s.len() && is_digit_char(s[i]) {
        digit_end(s, i + 1)
    } else {
        i
    }
}

/// The keyword `kw` (upper-case) matches at `i`, ASCII-case-insensitively.
pub open spec fn match_nocase(s: Seq<char>, i: int, kw: Seq<char>) -> bool {
    &&& 0 <= i
    &&& i + kw.len() <= s.len()
    &&& forall|k: int| 0 <= k < kw.len() ==> upper_char(#[trigger] s[i + k]) == kw[k]
}

/// The index of the quote closing the content that starts at `i`, or -1 if
/// the content is not a well-formed quoted body. A backslash must be
/// followed by a quote, which it escapes.
pub open spec fn quoted_end(s: Seq<char>, i: int) -> int
    decreases s.len() - i,
{
    if i < 0 || i >= s.len() {
        -1
    } else if s[i] == '\'' {
        i
    } else if s[i] == '\\' {
        if i + 1 < s.len() && s[i + 1] == '\'' {
            quoted_end(s, i + 2)
        } else {
            -1
        }
    } else {
        quoted_end(s, i + 1)
    }
}

/// A quoted value at `i`: its content (escapes kept as written) and the
/// index after the closing quote.
pub open spec fn spec_quoted(s: Seq<char>, i: int) -> Option<(Seq<char>, int)> {
    if 0 <= i < s.len() && s[i] == '\'' {
        let e = quoted_end(s, i + 1);
        if e >= 0 {
            Some((s.subrange(i + 1, e), e + 1))
        } else {
            None
        }
    } else {
        None
    }
}

/// A keyword, at least one space, then a quoted value.
pub open spec fn spec_kw_quoted(s: Seq<char>, i: int, kw: Seq<char>) -> Option<(Seq<char>, int)> {
    if match_nocase(s, i, kw) && i + kw.len() < s.len() && is_space_char(s[i + kw.len()]) {
        spec_quoted(s, ws_end(s, i + kw.len()))
    } else {
        None
    }
}

/// A quoted range literal at `i`: letters, then digits, a colon, letters,
/// digits, and the closing quote. Yields the inner text and the index after
/// the closing quote.
pub open spec fn spec_range_val(s: Seq<char>, i: int) -> Option<(Seq<char>, int)> {
    if 0 <= i < s.len() && s[i] == '\'' {
        let a1 = alpha_end(s, i + 1);
        let d1 = digit_end(s, a1);
        if a1 > i + 1 && d1 < s.len() && s[d1] == ':' {
            let a2 = alpha_end(s, d1 + 1);
            let d2 = digit_end(s, a2);
            if a2 > d1 + 1 && d2 < s.len() && s[d2] == '\'' {
                Some((s.subrange(i + 1, d2), d2 + 1))
            } else {
                None
            }
        } else {
            None
        }
    } else {
        None
    }
}

pub open spec fn spec_file_opt(s: Seq<char>, i: int) -> Option<(Seq<char>, int)> {
    if spec_kw_quoted(s, i, "FILENAME"@) is Some {
        spec_kw_quoted(s, i, "FILENAME"@)
    } else {
        spec_kw_quoted(s, i, "FILE"@)
    }
}

pub open spec fn spec_sheet_opt(s: Seq<char>, i: int) -> Option<(Seq<char>, int)> {
    if spec_kw_quoted(s, i, "WORKSHEET"@) is Some {
        spec_kw_quoted(s, i, "WORKSHEET"@)
    } else {
        spec_kw_quoted(s, i, "SHEET"@)
    }
}

pub open spec fn spec_range_opt(s: Seq<char>, i: int) -> Option<(Seq<char>, int)> {
    if match_nocase(s, i, "RANGE"@) && i + 5 < s.len() && is_space_char(s[i + 5]) {
        spec_range_val(s, ws_end(s, i + 5))
    } else {
        None
    }
}

pub open spec fn spec_colnames_opt(s: Seq<char>, i: int) -> Option<(Seq<char>, int)> {
    if spec_kw_quoted(s, i, "COLUMNNAMES"@) is Some {
        spec_kw_quoted(s, i, "COLUMNNAMES"@)
    } else {
        spec_kw_quoted(s, i, "HEADER"@)
    }
}

/// The option recognized at `i`, tried in grammar order.
pub open spec fn option_at(s: Seq<char>, i: int) -> Option<(OptionModel, int)> {
    if spec_file_opt(s, i) is Some {
        let (c, j) = spec_file_opt(s, i)->Some_0;
        Some((OptionModel::File(c), j))
    } else if spec_sheet_opt(s, i) is Some {
        let (c, j) = spec_sheet_opt(s, i)->Some_0;
        Some((OptionModel::Worksheet(c), j))
    } else if spec_range_opt(s, i) is Some {
        let (c, j) = spec_range_opt(s, i)->Some_0;
        Some((OptionModel::Range(c), j))
    } else if spec_colnames_opt(s, i) is Some {
        let (c, j) = spec_colnames_opt(s, i)->Some_0;
        Some((OptionModel::ColNames(c), j))
    } else {
        None
    }
}

/// What parsing one argument token yields: the option and the index of the
/// unconsumed rest, after leading and trailing whitespace.
pub open spec fn spec_parse_option(s: Seq<char>) -> Option<(OptionModel, int)> {
    match option_at(s, ws_end(s, 0)) {
        Some((m, j)) => Some((m, ws_end(s, j))),
        None => None,
    }
}

fn skip_ws(s: &str, i: usize) -> (j: usize)
    requires
        i <= s@.len(),
    ensures
        j == ws_end(s@, i as int),
        i <= j <= s@.len(),
{
    let len = s.unicode_len();
    let mut j = i;
    while j < len
        invariant
            i <= j <= len,
            len == s@.len(),
            ws_end(s@, i as int) == ws_end(s@, j as int),
        decreases len - j,
    {
        if !space_char(s.get_char(j)) {
            return j;
        }
        j = j + 1;
    }
    j
}

fn alpha_run(s: &str, i: usize) -> (j: usize)
    requires
        i <= s@.len(),
    ensures
        j == alpha_end(s@, i as int),
        i <= j <= s@.len(),
{
    let len = s.unicode_len();
    let mut j = i;
    while j < len
        invariant
            i <= j <= len,
            len == s@.len(),
            alpha_end(s@, i as int) == alpha_end(s@, j as int),
        decreases len - j,
    {
        if !alpha_char(s.get_char(j)) {
            return j;
        }
        j = j + 1;
    }
    j
}

fn digit_run(s: &str, i: usize) -> (j: usize)
    requires
        i <= s@.len(),
    ensures
        j == digit_end(s@, i as int),
        i <= j <= s@.len(),
{
    let len = s.unicode_len();
    let mut j = i;
    while j < len
        invariant
            i <= j <= len,
            len == s@.len(),
            digit_end(s@, i as int) == digit_end(s@, j as int),
        decreases len - j,
    {
        if !digit_char(s.get_char(j)) {
            return j;
        }
        j = j + 1;
    }
    j
}

fn kw_match(s: &str, i: usize, kw: &str) -> (b: bool)
    requires
        i <= s@.len(),
    ensures
        b == match_nocase(s@, i as int, kw@),
{
    let len = s.unicode_len();
    let klen = kw.unicode_len();
    if len - i < klen {
        return false;
    }
    let mut k: usize = 0;
    while k < klen
        invariant
            0 <= k <= klen,
            len == s@.len(),
            klen == kw@.len(),
            i + klen <= len,
            forall|t: int| 0 <= t < k ==> upper_char(#[trigger] s@[i + t]) == kw@[t],
        decreases klen - k,
    {
        if to_upper_char(s.get_char(i + k)) != kw.get_char(k) {
            return false;
        }
        k = k + 1;
    }
    true
}

fn quoted_at(s: &str, i: usize) -> (ret: Option<(String, usize)>)
    requires
        i <= s@.len(),
    ensures
        match spec_quoted(s@, i as int) {
            Some((c, j)) => {
                &&& ret is Some
                &&& ret->Some_0.0@ == c
                &&& ret->Some_0.1 == j
                &&& j <= s@.len()
            },
            None => ret is None,
        },
{
    let len = s.unicode_len();
    if i >= len {
        return None;
    }
    if s.get_char(i) != '\'' {
        return None;
    }
    let mut j = i + 1;
    while j < len
        invariant
            i + 1 <= j <= len,
            len == s@.len(),
            s@[i as int] == '\'',
            quoted_end(s@, i + 1) == quoted_end(s@, j as int),
        decreases len - j,
    {
        let c = s.get_char(j);
        if c == '\'' {
            let content = s.substring_char(i + 1, j).to_owned();
            proof {
                assert(content@ =~= s@.subrange(i + 1, j as int));
                assert(quoted_end(s@, j as int) == j);
                assert(quoted_end(s@, i + 1) == j);
            }
            return Some((content, j + 1));
        }
        if c == '\\' {
            if j + 1 < len && s.get_char(j + 1) == '\'' {
                j = j + 2;
            } else {
                return None;
            }
        } else {
            j = j + 1;
        }
    }
    None
}

fn kw_quoted(s: &str, i: usize, kw: &str) -> (ret: Option<(String, usize)>)
    requires
        i <= s@.len(),
    ensures
        match spec_kw_quoted(s@, i as int, kw@) {
            Some((c, j)) => {
                &&& ret is Some
                &&& ret->Some_0.0@ == c
                &&& ret->Some_0.1 == j
                &&& j <= s@.len()
            },
            None => ret is None,
        },
{
    let slen = s.unicode_len();
    if !kw_match(s, i, kw) {
        return None;
    }
    let after = i + kw.unicode_len();
    if after >= slen {
        return None;
    }
    if !space_char(s.get_char(after)) {
        return None;
    }
    let k = skip_ws(s, after);
    quoted_at(s, k)
}

fn range_val_at(s: &str, i: usize) -> (ret: Option<(String, usize)>)
    requires
        i <= s@.len(),
    ensures
        match spec_range_val(s@, i as int) {
            Some((c, j)) => {
                &&& ret is Some
                &&& ret->Some_0.0@ == c
                &&& ret->Some_0.1 == j
                &&& j <= s@.len()
            },
            None => ret is None,
        },
{
    let len = s.unicode_len();
    if i >= len {
        return None;
    }
    if s.get_char(i) != '\'' {
        return None;
    }
    let a1 = alpha_run(s, i + 1);
    if a1 == i + 1 {
        return None;
    }
    let d1 = digit_run(s, a1);
    if d1 >= len {
        return None;
    }
    if s.get_char(d1) != ':' {
        return None;
    }
    let a2 = alpha_run(s, d1 + 1);
    if a2 == d1 + 1 {
        return None;
    }
    let d2 = digit_run(s, a2);
    if d2 >= len {
        return None;
    }
    if s.get_char(d2) != '\'' {
        return None;
    }
    let content = s.substring_char(i + 1, d2).to_owned();
    proof {
        assert(content@ =~= s@.subrange(i + 1, d2 as int));
    }
    Some((content, d2 + 1))
}

/// Turns the unconsumed tail from `j` on into the returned rest string.
fn rest_from(s: &str, j: usize) -> (rest: String)
    requires
        j <= s@.len(),
    ensures
        rest@ == s@.skip(j as int),
{
    let rest = s.substring_char(j, s.unicode_len()).to_owned();
    proof {
        assert(rest@ =~= s@.skip(j as int));
    }
    rest
}

/// Parses a `FILENAME`/`FILE` option at the start of the token; yields the
/// unconsumed rest and the option.
pub fn parse_filename_option(input: &str) -> (ret: Option<(String, UsingOption)>)
    ensures
        match spec_file_opt(input@, 0) {
            Some((c, j)) => {
                &&& ret is Some
                &&& ret->Some_0.0@ == input@.skip(j)
                &&& ret->Some_0.1@ == OptionModel::File(c)
            },
            None => ret is None,
        },
{
    let r = match kw_quoted(input, 0, "FILENAME") {
        Some(r) => Some(r),
        None => kw_quoted(input, 0, "FILE"),
    };
    match r {
        Some((c, j)) => Some((rest_from(input, j), UsingOption::File(c))),
        None => None,
    }
}

/// Parses a `WORKSHEET`/`SHEET` option at the start of the token.
pub fn parse_worksheet_option(input: &str) -> (ret: Option<(String, UsingOption)>)
    ensures
        match spec_sheet_opt(input@, 0) {
            Some((c, j)) => {
                &&& ret is Some
                &&& ret->Some_0.0@ == input@.skip(j)
                &&& ret->Some_0.1@ == OptionModel::Worksheet(c)
            },
            None => ret is None,
        },
{
    let r = match kw_quoted(input, 0, "WORKSHEET") {
        Some(r) => Some(r),
        None => kw_quoted(input, 0, "SHEET"),
    };
    match r {
        Some((c, j)) => Some((rest_from(input, j), UsingOption::Worksheet(c))),
        None => None,
    }
}

/// Parses a `RANGE` option at the start of the token.
pub fn parse_range_option(input: &str) -> (ret: Option<(String, UsingOption)>)
    ensures
        match spec_range_opt(input@, 0) {
            Some((c, j)) => {
                &&& ret is Some
                &&& ret->Some_0.0@ == input@.skip(j)
                &&& ret->Some_0.1@ == OptionModel::Range(c)
            },
            None => ret is None,
        },
{
    match range_opt_at(input, 0) {
        Some((c, j)) => Some((rest_from(input, j), UsingOption::Range(c))),
        None => None,
    }
}

fn range_opt_at(s: &str, i: usize) -> (ret: Option<(String, usize)>)
    requires
        i <= s@.len(),
    ensures
        match spec_range_opt(s@, i as int) {
            Some((c, j)) => {
                &&& ret is Some
                &&& ret->Some_0.0@ == c
                &&& ret->Some_0.1 == j
                &&& j <= s@.len()
            },
            None => ret is None,
        },
{
    let len = s.unicode_len();
    if !kw_match(s, i, "RANGE") {
        return None;
    }
    proof {
        reveal_strlit("RANGE");
    }
    let after = i + 5;
    if after >= len {
        return None;
    }
    if !space_char(s.get_char(after)) {
        return None;
    }
    let k = skip_ws(s, after);
    range_val_at(s, k)
}

/// Parses a `COLUMNNAMES`/`HEADER` option at the start of the token.
pub fn parse_colnames_option(input: &str) -> (ret: Option<(String, UsingOption)>)
    ensures
        match spec_colnames_opt(input@, 0) {
            Some((c, j)) => {
                &&& ret is Some
                &&& ret->Some_0.0@ == input@.skip(j)
                &&& ret->Some_0.1@ == OptionModel::ColNames(c)
            },
            None => ret is None,
        },
{
    let r = match kw_quoted(input, 0, "COLUMNNAMES") {
        Some(r) => Some(r),
        None => kw_quoted(input, 0, "HEADER"),
    };
    match r {
        Some((c, j)) => Some((rest_from(input, j), UsingOption::ColNames(c))),
        None => None,
    }
}

fn option_at_exec(s: &str, i: usize) -> (ret: Option<(UsingOption, usize)>)
    requires
        i <= s@.len(),
    ensures
        match option_at(s@, i as int) {
            Some((m, j)) => {
                &&& ret is Some
                &&& ret->Some_0.0@ == m
                &&& ret->Some_0.1 == j
                &&& j <= s@.len()
            },
            None => ret is None,
        },
{
    let file = match kw_quoted(s, i, "FILENAME") {
        Some(r) => Some(r),
        None => kw_quoted(s, i, "FILE"),
    };
    if let Some((c, j)) = file {
        return Some((UsingOption::File(c), j));
    }
    let sheet = match kw_quoted(s, i, "WORKSHEET") {
        Some(r) => Some(r),
        None => kw_quoted(s, i, "SHEET"),
    };
    if let Some((c, j)) = sheet {
        return Some((UsingOption::Worksheet(c), j));
    }
    if let Some((c, j)) = range_opt_at(s, i) {
        return Some((UsingOption::Range(c), j));
    }
    let colnames = match kw_quoted(s, i, "COLUMNNAMES") {
        Some(r) => Some(r),
        None => kw_quoted(s, i, "HEADER"),
    };
    if let Some((c, j)) = colnames {
        return Some((UsingOption::ColNames(c), j));
    }
    None
}

/// Parses one creation-argument token: optional surrounding whitespace
/// around exactly one option. Yields the option and the unconsumed rest; a
/// token matching no option rule yields `None`.
pub fn parse_option(input: &str) -> (ret: Option<(String, UsingOption)>)
    ensures
        match spec_parse_option(input@) {
            Some((m, j)) => {
                &&& ret is Some
                &&& ret->Some_0.0@ == input@.skip(j)
                &&& ret->Some_0.1@ == m
            },
            None => ret is None,
        },
{
    let i = skip_ws(input, 0);
    match option_at_exec(input, i) {
        Some((opt, j)) => {
            let k = skip_ws(input, j);
            Some((rest_from(input, k), opt))
        },
        None => None,
    }
}

/// The options that a list of argument tokens yields, in order; a token
/// matching no rule contributes nothing and fails nothing.
pub open spec fn options_of(args: Seq<Seq<char>>) -> Seq<OptionModel>
    decreases args.len(),
{
    if args.len() == 0 {
        Seq::empty()
    } else {
        options_of(args.drop_last()) + (match spec_parse_option(args.last()) {
            Some((m, _j)) => seq![m],
            None => Seq::empty(),
        })
    }
}

/// Parses every argument token, keeping the recognized options in order and
/// silently dropping the rest.
pub fn collect_options(args: &Vec<String>) -> (ret: Vec<UsingOption>)
    ensures
        ret.deep_view() == options_of(args.deep_view()),
{
    let mut out: Vec<UsingOption> = Vec::new();
    proof {
        assert(out.deep_view() =~= options_of(args.deep_view().take(0)));
    }
    let mut i: usize = 0;
    while i < args.len()
        invariant
            i <= args@.len(),
            out.deep_view() == options_of(args.deep_view().take(i as int)),
        decreases args@.len() - i,
    {
        let ghost pre = args.deep_view().take(i as int);
        let ghost post = args.deep_view().take(i + 1);
        proof {
            assert(post.drop_last() =~= pre);
            assert(post.last() == args@[i as int]@);
        }
        match parse_option(args[i].as_str()) {
            Some((_rest, opt)) => {
                out.push(opt);
                proof {
                    assert(out.deep_view() =~= options_of(post));
                }
            },
            None => {
                proof {
                    assert(out.deep_view() =~= options_of(post));
                }
            },
        }
        i = i + 1;
    }
    proof {
        assert(args.deep_view().take(args.deep_view().len() as int) =~= args.deep_view());
    }
    out
}

} // verus!
