use vstd::prelude::*;
use crate::error::Error;
use crate::kinds::{FileType, Version, file_type_chars, version_chars};

verus! {

/// Why a tabular text file could not be read or built.
#[derive(Debug, Clone, Copy, PartialEq, Eq, Structural)]
pub enum X2daError {
    X2daItemContainsQuotes,
    X2daRowNotEnoughValues,
    X2daRowTooManyValues,
    X2daWrongNumberColumns(usize, usize),
    X2daColumnsOnlyAlphaAndUnderscore,
    X2daWriteWithoutHeader,
    X2daWriteWithoutColumns,
    InvalidTableItem,
}

/// A cell of a row: text is written in double quotes and may not hold one; a
/// plain value (a number already formatted) is written as it is.
#[derive(Debug, Clone, PartialEq, Eq)]
pub enum X2daItem {
    Text(String),
    Plain(String),
}

/// A cell as values: whether it is quoted text, and its characters.
pub type ItemView = (bool, Seq<char>);

pub open spec fn item_view(i: X2daItem) -> ItemView {
    match i {
        X2daItem::Text(s) => (true, s@),
        X2daItem::Plain(s) => (false, s@),
    }
}

pub open spec fn cell_views(v: Seq<Option<X2daItem>>) -> Seq<Option<ItemView>> {
    v.map_values(|c: Option<X2daItem>| match c {
        Some(i) => Some(item_view(i)),
        None => None,
    })
}

/// The marker written for an empty cell.
pub open spec fn null_marker() -> Seq<char> {
    seq!['*', '*', '*', '*']
}

/// What a cell is written as.
pub open spec fn cell_text(c: Option<ItemView>) -> Seq<char> {
    match c {
        None => null_marker(),
        Some(i) => if i.0 {
            seq!['"'] + i.1 + seq!['"']
        } else {
            i.1
        },
    }
}

/// Whether a cell may be written: quoted text holds no double quote.
pub open spec fn item_valid(i: ItemView) -> bool {
    !(i.0 && i.1.contains('"'))
}

/// Whether `s` holds the character `c`.
fn contains_char(s: &str, c: char) -> (r: bool)
    ensures
        r == s@.contains(c),
{
    let n = s.unicode_len();
    let mut i: usize = 0;
    while i < n
        invariant
            n == s@.len(),
            i <= n,
            forall|j: int| 0 <= j < i ==> s@[j] != c,
        decreases n - i,
    {
        if s.get_char(i) == c {
            return true;
        }
        i = i + 1;
    }
    false
}

impl X2daItem {
    /// Quoted text may not hold a double quote.
    pub fn validate(&self) -> (r: Result<(), X2daError>)
        ensures
            item_valid(item_view(*self)) ==> r is Ok,
            !item_valid(item_view(*self)) ==> r == Err::<(), X2daError>(
                X2daError::X2daItemContainsQuotes,
            ),
    {
        match self {
            X2daItem::Text(s) => if contains_char(s.as_str(), '"') {
                Err(X2daError::X2daItemContainsQuotes)
            } else {
                Ok(())
            },
            X2daItem::Plain(_) => Ok(()),
        }
    }

    /// The cell's text as written.
    pub fn serialize_to_string(&self) -> (r: String)
        ensures
            r@ == cell_text(Some(item_view(*self))),
    {
        match self {
            X2daItem::Text(s) => {
                let mut out = String::from_str("\"");
                proof {
                    reveal_strlit("\"");
                }
                out.append(s.as_str());
                out.append("\"");
                assert(out@ =~= cell_text(Some(item_view(*self))));
                out
            },
            X2daItem::Plain(s) => s.clone(),
        }
    }
}

/// Whether every cell of a row may be written.
pub open spec fn row_valid(cells: Seq<Option<ItemView>>) -> bool {
    forall|i: int| 0 <= i < cells.len() && (#[trigger] cells[i]) is Some ==> item_valid(
        cells[i]->Some_0,
    )
}

/// A row of a table, as its rows' users define it: how many columns it has,
/// its cells, and how it is read back from the cells' texts.
pub trait X2daRow: Sized {
    /// The number of columns of the row type; a verified row type states it.
    closed spec fn spec_size() -> usize {
        arbitrary()
    }

    /// The cells of the row; a verified row type states them.
    closed spec fn spec_row(&self) -> Seq<Option<ItemView>> {
        arbitrary()
    }

    fn size() -> (r: usize)
        ensures
            r == Self::spec_size(),
    ;

    fn to_row(&self) -> (r: Vec<Option<X2daItem>>)
        ensures
            cell_views(r@) == self.spec_row(),
    ;

    fn from_strings(strings: Vec<Option<String>>) -> Result<Self, X2daError>;
}

/// Checks every cell of a row: the first quoted text that holds a double
/// quote refuses it.
pub fn validate_items(cells: &Vec<Option<X2daItem>>) -> (r: Result<(), X2daError>)
    ensures
        row_valid(cell_views(cells@)) ==> r is Ok,
        !row_valid(cell_views(cells@)) ==> r == Err::<(), X2daError>(
            X2daError::X2daItemContainsQuotes,
        ),
{
    let ghost cs = cell_views(cells@);
    let mut i: usize = 0;
    while i < cells.len()
        invariant
            cs == cell_views(cells@),
            i <= cells@.len(),
            forall|j: int| 0 <= j < i && (#[trigger] cs[j]) is Some ==> item_valid(cs[j]->Some_0),
        decreases cells@.len() - i,
    {
        match &cells[i] {
            Some(item) => {
                if item.validate().is_err() {
                    proof {
                        assert(cs[i as int] == Some(item_view(*item)));
                        assert(!row_valid(cs));
                    }
                    return Err(X2daError::X2daItemContainsQuotes);
                }
            },
            None => {},
        }
        i = i + 1;
    }
    Ok(())
}

/// Checks the cells of a row before it is added to a table.
pub fn validate_row<T: X2daRow>(row: &T) -> (r: Result<(), X2daError>)
    ensures
        row_valid(row.spec_row()) ==> r is Ok,
        !row_valid(row.spec_row()) ==> r == Err::<(), X2daError>(X2daError::X2daItemContainsQuotes),
{
    let cells = row.to_row();
    validate_items(&cells)
}

/// Whether a column name is made of letters and underscores.
pub open spec fn column_name_valid(s: Seq<char>) -> bool {
    forall|i: int| 0 <= i < s.len() ==> is_alphabetic(#[trigger] s[i]) || s[i] == '_'
}

/// Whether a character is alphabetic in Unicode's sense.
pub uninterp spec fn is_alphabetic(c: char) -> bool;

/// Relies on `char::is_alphabetic`: whether the character has Unicode's
/// Alphabetic property.
#[verifier::external_body]
fn char_is_alphabetic(c: char) -> (r: bool)
    ensures
        r == is_alphabetic(c),
{
    c.is_alphabetic()
}

/// What checking a table's column names gives, for a row type of `size` columns.
pub open spec fn spec_validate_columns(cols: Seq<Seq<char>>, size: usize) -> Result<(), X2daError> {
    if cols.len() != size {
        Err(X2daError::X2daWrongNumberColumns(size, cols.len() as usize))
    } else if forall|i: int| 0 <= i < cols.len() ==> column_name_valid(#[trigger] cols[i]) {
        Ok(())
    } else {
        Err(X2daError::X2daColumnsOnlyAlphaAndUnderscore)
    }
}

pub open spec fn string_views(v: Seq<String>) -> Seq<Seq<char>> {
    v.map_values(|s: String| s@)
}

fn column_name_ok(s: &str) -> (r: bool)
    ensures
        r == column_name_valid(s@),
{
    let n = s.unicode_len();
    let mut i: usize = 0;
    while i < n
        invariant
            n == s@.len(),
            i <= n,
            forall|j: int| 0 <= j < i ==> is_alphabetic(#[trigger] s@[j]) || s@[j] == '_',
        decreases n - i,
    {
        let c = s.get_char(i);
        if !(char_is_alphabetic(c) || c == '_') {
            return false;
        }
        i = i + 1;
    }
    true
}

/// Checks column names against a row type of `size` columns.
pub fn validate_columns(columns: &Vec<String>, size: usize) -> (r: Result<(), X2daError>)
    ensures
        r == spec_validate_columns(string_views(columns@), size),
{
    let ghost cs = string_views(columns@);
    if columns.len() != size {
        return Err(X2daError::X2daWrongNumberColumns(size, columns.len()));
    }
    assert(cs.len() == size);
    let mut i: usize = 0;
    while i < columns.len()
        invariant
            cs == string_views(columns@),
            cs.len() == size,
            i <= columns@.len(),
            forall|j: int| 0 <= j < i ==> column_name_valid(#[trigger] cs[j]),
        decreases columns@.len() - i,
    {
        if !column_name_ok(columns[i].as_str()) {
            proof {
                assert(cs[i as int] == columns@[i as int]@);
                assert(!column_name_valid(cs[i as int]));
                assert(cs.len() == size);
                assert(!(forall|j: int| 0 <= j < cs.len() ==> column_name_valid(#[trigger] cs[j])));
            }
            return Err(X2daError::X2daColumnsOnlyAlphaAndUnderscore);
        }
        i = i + 1;
    }
    Ok(())
}

#[derive(Debug)]
pub struct X2daColumns {}

impl X2daColumns {
    /// Checks column names against the row type's number of columns.
    pub fn validate<T: X2daRow>(columns: &Vec<String>) -> (r: Result<(), X2daError>)
        ensures
            r == spec_validate_columns(string_views(columns@), T::spec_size()),
    {
        validate_columns(columns, T::size())
    }
}

/// The first line of a table: kind and version.
#[derive(Debug, Clone, Copy, PartialEq, Eq, Structural)]
pub struct X2daHeader {
    pub version: Version,
    pub file_type: FileType,
}

impl Default for X2daHeader {
    fn default() -> (r: X2daHeader)
        ensures
            r == (X2daHeader { version: Version::V2, file_type: FileType::X2da }),
    {
        X2daHeader { version: Version::V2, file_type: FileType::X2da }
    }
}

/// How a table is laid out when written: the spaces between columns.
#[derive(Debug, Clone, Copy, PartialEq, Eq, Structural)]
pub struct X2daBuilderConfig {
    pub spacing_length: usize,
}

impl Default for X2daBuilderConfig {
    fn default() -> (r: X2daBuilderConfig)
        ensures
            r.spacing_length == 4,
    {
        X2daBuilderConfig { spacing_length: 4 }
    }
}

/// A cell of a row in the text: a double-quoted text (group 1), or a run of
/// characters other than blanks and quotes that starts the line or follows a
/// blank (group 2).
pub const X2DA_CELL_PATTERN: &'static str = "(?:\"(.*?)\")|(?:^|\\s)([^\"\\s]+)";

/// For each match of the regular expression `pattern` in `text`, left to right,
/// the texts of its capture groups 1 and 2, each where it took part; `None`
/// where the pattern does not compile.
pub uninterp spec fn regex_groups(pattern: Seq<char>, text: Seq<char>) -> Option<
    Seq<(Option<Seq<char>>, Option<Seq<char>>)>,
>;

pub open spec fn opt_view(o: Option<String>) -> Option<Seq<char>> {
    match o {
        Some(s) => Some(s@),
        None => None,
    }
}

pub open spec fn group_pair_views(v: Seq<(Option<String>, Option<String>)>) -> Seq<
    (Option<Seq<char>>, Option<Seq<char>>),
> {
    v.map_values(|p: (Option<String>, Option<String>)| (opt_view(p.0), opt_view(p.1)))
}

pub open spec fn option_string_views(v: Seq<Option<String>>) -> Seq<Option<Seq<char>>> {
    v.map_values(|o: Option<String>| opt_view(o))
}

/// Relies on `regex::Regex::new`, which compiles the pattern, and
/// `Regex::captures_iter` with `Captures::get`: for each non-overlapping match,
/// left to right, capture groups 1 and 2, each `None` where it did not take part.
#[verifier::external_body]
fn capture_groups(pattern: &str, text: &str) -> (r: Option<Vec<(Option<String>, Option<String>)>>)
    ensures
        r matches Some(v) ==> regex_groups(pattern@, text@) == Some(group_pair_views(v@)),
        r is None ==> regex_groups(pattern@, text@) is None,
{
    let re = regex::Regex::new(pattern).ok()?;
    Some(
        re.captures_iter(text).map(|c| {
            (c.get(1).map(|m| m.as_str().to_owned()), c.get(2).map(|m| m.as_str().to_owned()))
        }).collect(),
    )
}

/// The text a match stands for: group 1 where it took part, else group 2.
pub open spec fn match_text(p: (Option<Seq<char>>, Option<Seq<char>>)) -> Option<Seq<char>> {
    match p.0 {
        Some(t) => Some(t),
        None => p.1,
    }
}

/// The texts of the matches that have one, in order.
pub open spec fn present_texts(v: Seq<(Option<Seq<char>>, Option<Seq<char>>)>) -> Seq<Seq<char>>
    decreases v.len(),
{
    if v.len() == 0 {
        seq![]
    } else {
        let rest = present_texts(v.drop_last());
        match match_text(v.last()) {
            Some(t) => rest.push(t),
            None => rest,
        }
    }
}

/// The cells' texts of a line of a table.
pub open spec fn spec_line_tokens(line: Seq<char>) -> Seq<Seq<char>> {
    match regex_groups(X2DA_CELL_PATTERN@, line) {
        Some(v) => present_texts(v),
        None => seq![],
    }
}

/// Splits a line of a table into its cells' texts.
pub fn parse_string(line: &str) -> (r: Vec<String>)
    ensures
        string_views(r@) == spec_line_tokens(line@),
{
    match capture_groups(X2DA_CELL_PATTERN, line) {
        None => Vec::new(),
        Some(groups) => texts_of_groups(&groups),
    }
}

/// The text of each regex match that has one, in order: its group 1 where
/// that took part, else its group 2.
pub fn texts_of_groups(groups: &Vec<(Option<String>, Option<String>)>) -> (r: Vec<String>)
    ensures
        string_views(r@) == present_texts(group_pair_views(groups@)),
{
    let ghost gs = group_pair_views(groups@);
    let mut out: Vec<String> = Vec::new();
    let mut i: usize = 0;
    while i < groups.len()
        invariant
            gs == group_pair_views(groups@),
            i <= groups@.len(),
            string_views(out@) == present_texts(gs.take(i as int)),
        decreases groups@.len() - i,
    {
        proof {
            assert(gs.take(i as int + 1).drop_last() =~= gs.take(i as int));
        }
        let pair = &groups[i];
        let picked = match &pair.0 {
            Some(t) => Some(t.clone()),
            None => match &pair.1 {
                Some(t) => Some(t.clone()),
                None => None,
            },
        };
        match picked {
            Some(t) => {
                proof {
                    assert(string_views(out@.push(t)) =~= string_views(out@).push(t@));
                }
                out.push(t);
            },
            None => {},
        }
        i = i + 1;
    }
    proof {
        assert(gs.take(i as int) =~= gs);
    }
    out
}

/// The cells of a row of `size` columns from the texts of its line: the first
/// text, the row's index, is dropped, and the null marker reads as no value.
pub open spec fn spec_row_strings(tokens: Seq<Seq<char>>, size: usize) -> Result<
    Seq<Option<Seq<char>>>,
    X2daError,
> {
    if tokens.len() < size + 1 {
        Err(X2daError::X2daRowNotEnoughValues)
    } else if tokens.len() > size + 1 {
        Err(X2daError::X2daRowTooManyValues)
    } else {
        Ok(
            Seq::new(
                size as nat,
                |i: int|
                    if tokens[i + 1] == null_marker() {
                        None
                    } else {
                        Some(tokens[i + 1])
                    },
            ),
        )
    }
}

/// Whether a text is the null marker.
fn is_null_marker(s: &str) -> (r: bool)
    ensures
        r == (s@ == null_marker()),
{
    if s.unicode_len() != 4 {
        return false;
    }
    let r = s.get_char(0) == '*' && s.get_char(1) == '*' && s.get_char(2) == '*' && s.get_char(3)
        == '*';
    proof {
        if r {
            assert(s@ =~= null_marker());
        }
    }
    r
}

/// The cells of a row of `size` columns from the texts of its line.
pub fn row_strings(tokens: Vec<String>, size: usize) -> (r: Result<Vec<Option<String>>, X2daError>)
    ensures
        r matches Ok(v) ==> spec_row_strings(string_views(tokens@), size) == Ok::<
            Seq<Option<Seq<char>>>,
            X2daError,
        >(option_string_views(v@)),
        r matches Err(e) ==> spec_row_strings(string_views(tokens@), size) == Err::<
            Seq<Option<Seq<char>>>,
            X2daError,
        >(e),
{
    let ghost ts = string_views(tokens@);
    if tokens.len() == 0 || tokens.len() - 1 < size {
        return Err(X2daError::X2daRowNotEnoughValues);
    }
    if tokens.len() - 1 > size {
        return Err(X2daError::X2daRowTooManyValues);
    }
    let mut out: Vec<Option<String>> = Vec::new();
    let mut i: usize = 0;
    while i < size
        invariant
            ts == string_views(tokens@),
            tokens@.len() == size + 1,
            i <= size,
            option_string_views(out@) =~= Seq::new(
                i as nat,
                |j: int|
                    if ts[j + 1] == null_marker() {
                        None
                    } else {
                        Some(ts[j + 1])
                    },
            ),
        decreases size - i,
    {
        let t = &tokens[i + 1];
        let cell = if is_null_marker(t.as_str()) {
            None
        } else {
            Some(t.clone())
        };
        proof {
            assert(option_string_views(out@.push(cell)) =~= option_string_views(out@).push(
                match cell {
                    Some(s) => Some(s@),
                    None => None,
                },
            ));
        }
        out.push(cell);
        i = i + 1;
    }
    Ok(out)
}

/// Reads a row from a line of the table: its texts, checked against the row
/// type's number of columns, then handed to the row type.
pub fn row_from_line<T: X2daRow>(line: &str) -> (r: Result<T, X2daError>)
    ensures
        spec_row_strings(spec_line_tokens(line@), T::spec_size()) is Err ==> r is Err
            && spec_row_strings(spec_line_tokens(line@), T::spec_size()) == Err::<
            Seq<Option<Seq<char>>>,
            X2daError,
        >(r->Err_0),
{
    let size = T::size();
    let strings = match row_strings(parse_string(line), size) {
        Ok(s) => s,
        Err(e) => return Err(e),
    };
    T::from_strings(strings)
}

/// `n` spaces.
pub open spec fn spaces(n: nat) -> Seq<char> {
    Seq::new(n, |i: int| ' ')
}

/// `s` padded with spaces to `w` characters.
pub open spec fn pad(s: Seq<char>, w: nat) -> Seq<char> {
    if s.len() < w {
        s + spaces((w - s.len()) as nat)
    } else {
        s
    }
}

/// The longest text in column `i` of the rows.
pub open spec fn max_len(rows: Seq<Seq<Seq<char>>>, i: int) -> nat
    decreases rows.len(),
{
    if rows.len() == 0 {
        0
    } else {
        let m = max_len(rows.drop_last(), i);
        let l = rows.last()[i].len();
        if l > m {
            l
        } else {
            m
        }
    }
}

/// The width of column `i`: its longest text, the column name included.
pub open spec fn col_width(cols: Seq<Seq<char>>, rows: Seq<Seq<Seq<char>>>, i: int) -> nat {
    let m = max_len(rows, i);
    if cols[i].len() > m {
        cols[i].len()
    } else {
        m
    }
}

/// Texts laid out in the table's columns.
pub open spec fn cells_line(
    cells: Seq<Seq<char>>,
    cols: Seq<Seq<char>>,
    rows: Seq<Seq<Seq<char>>>,
    sp: nat,
) -> Seq<char> {
    Seq::new(cells.len(), |i: int| pad(cells[i], sp + col_width(cols, rows, i))).flatten()
}

pub open spec fn digit_char(d: nat) -> char {
    if d == 0 {
        '0'
    } else if d == 1 {
        '1'
    } else if d == 2 {
        '2'
    } else if d == 3 {
        '3'
    } else if d == 4 {
        '4'
    } else if d == 5 {
        '5'
    } else if d == 6 {
        '6'
    } else if d == 7 {
        '7'
    } else if d == 8 {
        '8'
    } else {
        '9'
    }
}

/// The decimal digits of `n`.
pub open spec fn decimal(n: nat) -> Seq<char>
    decreases n,
{
    if n < 10 {
        seq![digit_char(n)]
    } else {
        decimal(n / 10).push(digit_char(n % 10))
    }
}

/// A row of the table: its index, then its cells.
pub open spec fn row_line(j: int, cols: Seq<Seq<char>>, rows: Seq<Seq<Seq<char>>>, sp: nat) -> Seq<char> {
    pad(decimal(j as nat), sp + 1) + cells_line(rows[j], cols, rows, sp) + seq!['\n']
}

/// The text of a table: kind and version, a blank line, the column names,
/// then one line per row; every column padded to its width plus `sp` spaces.
pub open spec fn table_text(
    h: X2daHeader,
    cols: Seq<Seq<char>>,
    rows: Seq<Seq<Seq<char>>>,
    sp: nat,
) -> Seq<char> {
    file_type_chars(h.file_type) + version_chars(h.version) + seq!['\n', '\n'] + pad(seq![], sp + 1)
        + cells_line(cols, cols, rows, sp) + seq!['\n'] + Seq::new(
        rows.len(),
        |j: int| row_line(j, cols, rows, sp),
    ).flatten()
}

fn push_spaces(out: &mut String, n: usize)
    ensures
        final(out)@ == old(out)@ + spaces(n as nat),
{
    proof {
        reveal_strlit(" ");
    }
    let mut i: usize = 0;
    while i < n
        invariant
            i <= n,
            out@ == old(out)@ + spaces(i as nat),
        decreases n - i,
    {
        proof {
            reveal_strlit(" ");
        }
        out.append(" ");
        i = i + 1;
        assert(out@ =~= old(out)@ + spaces(i as nat));
    }
}

fn push_digit(out: &mut String, d: usize)
    requires
        d < 10,
    ensures
        final(out)@ == old(out)@.push(digit_char(d as nat)),
{
    proof {
        reveal_strlit("0");
        reveal_strlit("1");
        reveal_strlit("2");
        reveal_strlit("3");
        reveal_strlit("4");
        reveal_strlit("5");
        reveal_strlit("6");
        reveal_strlit("7");
        reveal_strlit("8");
        reveal_strlit("9");
    }
    let t = if d == 0 {
        "0"
    } else if d == 1 {
        "1"
    } else if d == 2 {
        "2"
    } else if d == 3 {
        "3"
    } else if d == 4 {
        "4"
    } else if d == 5 {
        "5"
    } else if d == 6 {
        "6"
    } else if d == 7 {
        "7"
    } else if d == 8 {
        "8"
    } else {
        "9"
    };
    out.append(t);
    assert(final(out)@ =~= old(out)@.push(digit_char(d as nat)));
}

fn push_decimal(out: &mut String, n: usize)
    ensures
        final(out)@ == old(out)@ + decimal(n as nat),
    decreases n,
{
    if n >= 10 {
        push_decimal(out, n / 10);
    }
    push_digit(out, n % 10);
    assert(final(out)@ =~= old(out)@ + decimal(n as nat));
}

/// Appends `s` padded with spaces to `w` characters, where `s` is no longer
/// than `w`.
fn push_padded(out: &mut String, s: &str, sp: usize, width: usize)
    requires
        s@.len() <= width,
    ensures
        final(out)@ == old(out)@ + pad(s@, (sp + width) as nat),
{
    let len = s.unicode_len();
    out.append(s);
    push_spaces(out, sp);
    push_spaces(out, width - len);
    assert(final(out)@ =~= old(out)@ + pad(s@, (sp + width) as nat));
}

pub open spec fn table_views(rows: Seq<Vec<String>>) -> Seq<Seq<Seq<char>>> {
    rows.map_values(|r: Vec<String>| string_views(r@))
}

/// The width of each column.
fn column_widths(columns: &Vec<String>, rows: &Vec<Vec<String>>) -> (r: Vec<usize>)
    requires
        forall|j: int| 0 <= j < rows@.len() ==> (#[trigger] rows@[j])@.len() == columns@.len(),
    ensures
        r@.len() == columns@.len(),
        forall|i: int| 0 <= i < r@.len() ==> r@[i] == col_width(
            string_views(columns@),
            table_views(rows@),
            i,
        ),
{
    let ghost cs = string_views(columns@);
    let ghost rs = table_views(rows@);
    let mut widths: Vec<usize> = Vec::new();
    let mut i: usize = 0;
    while i < columns.len()
        invariant
            cs == string_views(columns@),
            rs == table_views(rows@),
            forall|j: int| 0 <= j < rows@.len() ==> (#[trigger] rows@[j])@.len() == columns@.len(),
            i <= columns@.len(),
            widths@.len() == i,
            forall|k: int| 0 <= k < i ==> widths@[k] == col_width(cs, rs, k),
        decreases columns@.len() - i,
    {
        let mut w: usize = columns[i].as_str().unicode_len();
        let mut j: usize = 0;
        while j < rows.len()
            invariant
                cs == string_views(columns@),
                rs == table_views(rows@),
                forall|j: int| 0 <= j < rows@.len() ==> (#[trigger] rows@[j])@.len() == columns@.len(),
                i < columns@.len(),
                j <= rows@.len(),
                w == (if cs[i as int].len() > max_len(rs.take(j as int), i as int) {
                    cs[i as int].len()
                } else {
                    max_len(rs.take(j as int), i as int)
                }),
            decreases rows@.len() - j,
        {
            let l = rows[j][i].as_str().unicode_len();
            proof {
                assert(rs.take(j as int + 1).drop_last() =~= rs.take(j as int));
                assert(rs.take(j as int + 1).last() == string_views(rows@[j as int]@));
            }
            if l > w {
                w = l;
            }
            j = j + 1;
        }
        proof {
            assert(rs.take(j as int) =~= rs);
        }
        widths.push(w);
        i = i + 1;
    }
    widths
}

proof fn lemma_max_len_bound(rows: Seq<Seq<Seq<char>>>, i: int, j: int)
    requires
        0 <= j < rows.len(),
    ensures
        rows[j][i].len() <= max_len(rows, i),
    decreases rows.len(),
{
    if j < rows.len() - 1 {
        lemma_max_len_bound(rows.drop_last(), i, j);
    }
}

/// Appends texts laid out in the table's columns.
fn push_cells(
    out: &mut String,
    cells: &Vec<String>,
    widths: &Vec<usize>,
    sp: usize,
    Ghost(cols): Ghost<Seq<Seq<char>>>,
    Ghost(rows): Ghost<Seq<Seq<Seq<char>>>>,
)
    requires
        widths@.len() == cells@.len(),
        forall|i: int| 0 <= i < cells@.len() ==> #[trigger] widths@[i] == col_width(cols, rows, i),
        forall|i: int| 0 <= i < cells@.len() ==> (#[trigger] cells@[i])@.len() <= widths@[i],
    ensures
        final(out)@ == old(out)@ + cells_line(string_views(cells@), cols, rows, sp as nat),
{
    let ghost cs = string_views(cells@);
    let ghost f = |i: int| pad(cs[i], (sp + col_width(cols, rows, i)) as nat);
    let mut i: usize = 0;
    while i < cells.len()
        invariant
            cs == string_views(cells@),
            f == (|i: int| pad(cs[i], (sp + col_width(cols, rows, i)) as nat)),
            widths@.len() == cells@.len(),
            forall|i: int| 0 <= i < cells@.len() ==> #[trigger] widths@[i] == col_width(cols, rows, i),
            forall|i: int| 0 <= i < cells@.len() ==> (#[trigger] cells@[i])@.len() <= widths@[i],
            i <= cells@.len(),
            out@ == old(out)@ + Seq::new(i as nat, f).flatten(),
        decreases cells@.len() - i,
    {
        push_padded(out, cells[i].as_str(), sp, widths[i]);
        proof {
            assert(Seq::new((i + 1) as nat, f) =~= Seq::new(i as nat, f).push(f(i as int)));
            Seq::new(i as nat, f).lemma_flatten_push(f(i as int));
            assert(out@ =~= old(out)@ + Seq::new((i + 1) as nat, f).flatten());
        }
        i = i + 1;
    }
    assert(Seq::new(cs.len(), f) =~= Seq::new(i as nat, f));
}

/// The text of a table whose rows have one text per column.
pub fn format_table(
    header: &X2daHeader,
    columns: &Vec<String>,
    rows: &Vec<Vec<String>>,
    spacing: usize,
) -> (r: String)
    requires
        forall|j: int| 0 <= j < rows@.len() ==> (#[trigger] rows@[j])@.len() == columns@.len(),
    ensures
        r@ == table_text(*header, string_views(columns@), table_views(rows@), spacing as nat),
{
    let ghost cs = string_views(columns@);
    let ghost rs = table_views(rows@);
    let widths = column_widths(columns, rows);
    let mut out = String::new();
    out.append(header.file_type.as_str_ref());
    out.append(header.version.as_str_ref());
    proof {
        reveal_strlit("\n\n");
        reveal_strlit("\n");
        reveal_strlit("");
    }
    out.append("\n\n");
    push_padded(&mut out, "", spacing, 1);
    proof {
        assert forall|i: int| 0 <= i < columns@.len() implies (#[trigger] columns@[i])@.len() <= widths@[i] by {
            assert(cs[i] == columns@[i]@);
        }
    }
    push_cells(&mut out, columns, &widths, spacing, Ghost(cs), Ghost(rs));
    out.append("\n");
    let ghost after_columns = out@;
    let ghost f = |j: int| row_line(j, cs, rs, spacing as nat);
    let mut j: usize = 0;
    while j < rows.len()
        invariant
            cs == string_views(columns@),
            rs == table_views(rows@),
            f == (|j: int| row_line(j, cs, rs, spacing as nat)),
            forall|j: int| 0 <= j < rows@.len() ==> (#[trigger] rows@[j])@.len() == columns@.len(),
            widths@.len() == columns@.len(),
            forall|i: int| 0 <= i < widths@.len() ==> #[trigger] widths@[i] == col_width(cs, rs, i),
            j <= rows@.len(),
            out@ == after_columns + Seq::new(j as nat, f).flatten(),
        decreases rows@.len() - j,
    {
        let ghost before = out@;
        let mut idx = String::new();
        push_decimal(&mut idx, j);
        let dl = idx.as_str().unicode_len();
        out.append(idx.as_str());
        if dl <= spacing {
            push_spaces(&mut out, spacing - dl + 1);
        }
        proof {
            assert(idx@ =~= decimal(j as nat));
            assert(out@ =~= before + pad(decimal(j as nat), (spacing + 1) as nat));
            assert forall|i: int| 0 <= i < rows@[j as int]@.len() implies (#[trigger] rows@[j as int]@[i])@.len() <= widths@[i] by {
                lemma_max_len_bound(rs, i, j as int);
                assert(rs[j as int][i] == rows@[j as int]@[i]@);
            }
            assert(string_views(rows@[j as int]@) == rs[j as int]);
        }
        push_cells(&mut out, &rows[j], &widths, spacing, Ghost(cs), Ghost(rs));
        proof {
            reveal_strlit("\n");
        }
        out.append("\n");
        proof {
            assert(out@ =~= before + f(j as int));
            assert(Seq::new((j + 1) as nat, f) =~= Seq::new(j as nat, f).push(f(j as int)));
            Seq::new(j as nat, f).lemma_flatten_push(f(j as int));
            assert(out@ =~= after_columns + Seq::new((j + 1) as nat, f).flatten());
        }
        j = j + 1;
    }
    proof {
        assert(Seq::new(rs.len(), f) =~= Seq::new(j as nat, f));
        assert(out@ =~= table_text(*header, cs, rs, spacing as nat));
    }
    out
}

/// The lines of a text.
pub uninterp spec fn text_lines(s: Seq<char>) -> Seq<Seq<char>>;

/// Relies on `str::lines`: the text split at each line feed, a carriage
/// return before it dropped, with no final empty line.
#[verifier::external_body]
fn split_lines(s: &str) -> (r: Vec<String>)
    ensures
        string_views(r@) == text_lines(s@),
{
    s.lines().map(|l| l.to_owned()).collect()
}

/// The words of a text.
pub uninterp spec fn whitespace_words(s: Seq<char>) -> Seq<Seq<char>>;

/// Relies on `str::split_whitespace`: the runs of the text between Unicode
/// white space, none of them empty.
#[verifier::external_body]
fn split_words(s: &str) -> (r: Vec<String>)
    ensures
        string_views(r@) == whitespace_words(s@),
{
    s.split_whitespace().map(|w| w.to_owned()).collect()
}

/// The cells of each row, checked against the number of columns: a row with
/// fewer cells, or more, is refused.
pub fn row_texts(rows: &Vec<Vec<Option<X2daItem>>>, columns: usize) -> (r: Result<
    Vec<Vec<String>>,
    X2daError,
>)
    ensures
        r matches Ok(v) ==> v@.len() == rows@.len() && forall|j: int|
            0 <= j < v@.len() ==> (#[trigger] v@[j])@.len() == columns && string_views(v@[j]@)
                == cell_views(rows@[j]@).map_values(|c: Option<ItemView>| cell_text(c)),
        r is Err ==> r == Err::<Vec<Vec<String>>, X2daError>(X2daError::X2daRowNotEnoughValues)
            || r == Err::<Vec<Vec<String>>, X2daError>(X2daError::X2daRowTooManyValues),
        (forall|j: int| 0 <= j < rows@.len() ==> (#[trigger] rows@[j])@.len() == columns) ==> r is Ok,
{
    let mut out: Vec<Vec<String>> = Vec::new();
    let mut j: usize = 0;
    while j < rows.len()
        invariant
            j <= rows@.len(),
            out@.len() == j,
            forall|k: int| 0 <= k < j ==> (#[trigger] rows@[k])@.len() == columns,
            forall|k: int|
                0 <= k < j ==> (#[trigger] out@[k])@.len() == columns && string_views(out@[k]@)
                    == cell_views(rows@[k]@).map_values(|c: Option<ItemView>| cell_text(c)),
        decreases rows@.len() - j,
    {
        let row = &rows[j];
        if row.len() < columns {
            return Err(X2daError::X2daRowNotEnoughValues);
        }
        if row.len() > columns {
            return Err(X2daError::X2daRowTooManyValues);
        }
        let mut texts: Vec<String> = Vec::new();
        let mut i: usize = 0;
        while i < row.len()
            invariant
                i <= row@.len(),
                texts@.len() == i,
                forall|k: int|
                    0 <= k < i ==> (#[trigger] texts@[k])@ == cell_text(cell_views(row@)[k]),
            decreases row@.len() - i,
        {
            let t = match &row[i] {
                Some(item) => item.serialize_to_string(),
                None => {
                    proof {
                        reveal_strlit("****");
                    }
                    let n = String::from_str("****");
                    assert(n@ =~= null_marker());
                    n
                },
            };
            texts.push(t);
            i = i + 1;
        }
        proof {
            assert(string_views(texts@) =~= cell_views(row@).map_values(
                |c: Option<ItemView>| cell_text(c),
            ));
        }
        out.push(texts);
        j = j + 1;
    }
    Ok(out)
}

/// A table of rows of type `T`, with its column names and header.
#[derive(Debug)]
pub struct X2daFile<T: X2daRow> {
    pub rows: Vec<T>,
    pub columns: Option<Vec<String>>,
    pub header: Option<X2daHeader>,
}

impl<T: X2daRow> X2daFile<T> {
    pub fn new() -> (r: X2daFile<T>)
        ensures
            r.rows@.len() == 0,
            r.columns is None,
            r.header == Some(X2daHeader { version: Version::V2, file_type: FileType::X2da }),
    {
        X2daFile { rows: Vec::new(), columns: None, header: Some(X2daHeader::default()) }
    }

    /// Reads a table from its text.
    pub fn parse_from(text: &str) -> (r: Result<X2daFile<T>, Error>)
        ensures
            text_lines(text@).len() < 3 ==> r == Err::<X2daFile<T>, Error>(Error::UnexpectedEof),
            text_lines(text@).len() >= 3 && spec_validate_columns(
                whitespace_words(text_lines(text@)[2]),
                T::spec_size(),
            ) is Err ==> r is Err && r->Err_0 == Error::X2daError(
                spec_validate_columns(whitespace_words(text_lines(text@)[2]), T::spec_size())->Err_0,
            ),
            r is Ok ==> rows_readable::<T>(text_lines(text@)),
            r matches Ok(f) ==> f.header == Some(
                X2daHeader { version: Version::V2, file_type: FileType::X2da },
            ) && f.columns is Some && string_views(f.columns->Some_0@) == whitespace_words(
                text_lines(text@)[2],
            ),
            r matches Err(e) ==> e == Error::UnexpectedEof || e is X2daError,
    {
        parse(text)
    }

    /// Sets the column names, where they fit the row type.
    pub fn set_columns(&mut self, columns: Vec<String>) -> (r: Result<&mut Self, X2daError>)
        ensures
            spec_validate_columns(string_views(columns@), T::spec_size()) is Ok ==> r is Ok,
            spec_validate_columns(string_views(columns@), T::spec_size()) is Err ==> r is Err
                && spec_validate_columns(string_views(columns@), T::spec_size()) == Err::<
                (),
                X2daError,
            >(r->Err_0),
            r matches Ok(s) ==> s.columns == Some(columns) && s.rows == old(self).rows,
            r is Err ==> *final(self) == *old(self),
    {
        match X2daColumns::validate::<T>(&columns) {
            Ok(()) => {
                self.columns = Some(columns);
                Ok(self)
            },
            Err(e) => Err(e),
        }
    }

    /// Adds a row whose cells may be written.
    pub fn add_row(&mut self, item: T) -> (r: Result<&mut Self, X2daError>)
        ensures
            row_valid(item.spec_row()) ==> r is Ok,
            r matches Ok(s) ==> s.rows@ == old(self).rows@.push(item) && s.columns
                == old(self).columns,
            !row_valid(item.spec_row()) ==> r is Err && r->Err_0
                == X2daError::X2daItemContainsQuotes,
            r is Err ==> *final(self) == *old(self),
    {
        match validate_row(&item) {
            Ok(()) => {
                self.rows.push(item);
                Ok(self)
            },
            Err(e) => Err(e),
        }
    }

    /// The table's text, laid out with the given spacing.
    pub fn write_with_config(&mut self, config: X2daBuilderConfig) -> (r: Result<String, Error>)
        ensures
            *final(self) == *old(self),
            old(self).columns is None ==> r == Err::<String, Error>(
                Error::X2daError(X2daError::X2daWriteWithoutColumns),
            ),
            old(self).columns is Some && old(self).header is None ==> r == Err::<String, Error>(
                Error::X2daError(X2daError::X2daWriteWithoutHeader),
            ),
            old(self).columns is Some && old(self).header is Some ==> (r is Ok <==> rows_fit(
                old(self).rows@,
                old(self).columns->Some_0@.len(),
            )),
            r is Ok ==> r->Ok_0@ == table_text(
                old(self).header->Some_0,
                string_views(old(self).columns->Some_0@),
                written_rows(old(self).rows@),
                config.spacing_length as nat,
            ),
    {
        write(self, config)
    }

    /// The table's text, laid out with four spaces between columns.
    pub fn write(&mut self) -> (r: Result<String, Error>)
        ensures
            *final(self) == *old(self),
            old(self).columns is None ==> r == Err::<String, Error>(
                Error::X2daError(X2daError::X2daWriteWithoutColumns),
            ),
            old(self).columns is Some && old(self).header is None ==> r == Err::<String, Error>(
                Error::X2daError(X2daError::X2daWriteWithoutHeader),
            ),
            old(self).columns is Some && old(self).header is Some ==> (r is Ok <==> rows_fit(
                old(self).rows@,
                old(self).columns->Some_0@.len(),
            )),
            r is Ok ==> r->Ok_0@ == table_text(
                old(self).header->Some_0,
                string_views(old(self).columns->Some_0@),
                written_rows(old(self).rows@),
                4,
            ),
    {
        self.write_with_config(X2daBuilderConfig::default())
    }
}

/// Whether every non-empty line after the third has as many cells as the row
/// type has columns (a line's first text is its index).
pub open spec fn rows_readable<T: X2daRow>(lines: Seq<Seq<char>>) -> bool {
    forall|k: int|
        3 <= k < lines.len() && (#[trigger] lines[k]).len() > 0 ==> spec_row_strings(
            spec_line_tokens(lines[k]),
            T::spec_size(),
        ) is Ok
}

/// Reads a table from its text: the third line names the columns, each
/// non-empty line after it is a row. Fewer than three lines, column names
/// that do not fit the row type, and a row that cannot be read are refused.
pub fn parse<T: X2daRow>(text: &str) -> (r: Result<X2daFile<T>, Error>)
    ensures
        text_lines(text@).len() < 3 ==> r == Err::<X2daFile<T>, Error>(Error::UnexpectedEof),
        text_lines(text@).len() >= 3 && spec_validate_columns(
            whitespace_words(text_lines(text@)[2]),
            T::spec_size(),
        ) is Err ==> r is Err && r->Err_0 == Error::X2daError(
            spec_validate_columns(whitespace_words(text_lines(text@)[2]), T::spec_size())->Err_0,
        ),
        r is Ok ==> rows_readable::<T>(text_lines(text@)),
        r matches Ok(f) ==> f.header == Some(
            X2daHeader { version: Version::V2, file_type: FileType::X2da },
        ) && f.columns is Some && string_views(f.columns->Some_0@) == whitespace_words(
            text_lines(text@)[2],
        ),
        r matches Err(e) ==> e == Error::UnexpectedEof || e is X2daError,
{
    let lines = split_lines(text);
    if lines.len() < 3 {
        return Err(Error::UnexpectedEof);
    }
    let columns = split_words(lines[2].as_str());
    match X2daColumns::validate::<T>(&columns) {
        Ok(()) => {},
        Err(e) => return Err(Error::X2daError(e)),
    }
    proof {
        assert(string_views(lines@)[2] == lines@[2]@);
    }
    let mut rows: Vec<T> = Vec::new();
    let mut i: usize = 3;
    while i < lines.len()
        invariant
            3 <= i <= lines@.len(),
            string_views(lines@) == text_lines(text@),
            spec_validate_columns(whitespace_words(text_lines(text@)[2]), T::spec_size()) is Ok,
            forall|k: int|
                3 <= k < i && (#[trigger] lines@[k])@.len() > 0 ==> spec_row_strings(
                    spec_line_tokens(lines@[k]@),
                    T::spec_size(),
                ) is Ok,
        decreases lines@.len() - i,
    {
        let line = lines[i].as_str();
        if line.unicode_len() > 0 {
            match row_from_line::<T>(line) {
                Ok(row) => rows.push(row),
                Err(e) => return Err(Error::X2daError(e)),
            }
        }
        i = i + 1;
    }
    proof {
        assert(string_views(lines@)[2] == lines@[2]@);
        assert forall|k: int|
            3 <= k < text_lines(text@).len() && (#[trigger] text_lines(text@)[k]).len()
                > 0 implies spec_row_strings(
            spec_line_tokens(text_lines(text@)[k]),
            T::spec_size(),
        ) is Ok by {
            assert(string_views(lines@)[k] == lines@[k]@);
        }
    }
    Ok(X2daFile { rows, columns: Some(columns), header: Some(X2daHeader::default()) })
}

/// A table's text, laid out with the given spacing: without column names or
/// header it is refused, and so is a row with too few or too many cells.
pub fn write<T: X2daRow>(x2da_file: &X2daFile<T>, config: X2daBuilderConfig) -> (r: Result<
    String,
    Error,
>)
    ensures
        x2da_file.columns is None ==> r == Err::<String, Error>(
            Error::X2daError(X2daError::X2daWriteWithoutColumns),
        ),
        x2da_file.columns is Some && x2da_file.header is None ==> r == Err::<String, Error>(
            Error::X2daError(X2daError::X2daWriteWithoutHeader),
        ),
        x2da_file.columns is Some && x2da_file.header is Some ==> (r is Ok <==> rows_fit(
            x2da_file.rows@,
            x2da_file.columns->Some_0@.len(),
        )),
        r is Ok ==> r->Ok_0@ == table_text(
            x2da_file.header->Some_0,
            string_views(x2da_file.columns->Some_0@),
            written_rows(x2da_file.rows@),
            config.spacing_length as nat,
        ),
        r matches Err(e) ==> e == Error::X2daError(X2daError::X2daWriteWithoutColumns) || e
            == Error::X2daError(X2daError::X2daWriteWithoutHeader) || e == Error::X2daError(
            X2daError::X2daRowNotEnoughValues,
        ) || e == Error::X2daError(X2daError::X2daRowTooManyValues),
{
    let columns = match &x2da_file.columns {
        Some(c) => c,
        None => return Err(Error::X2daError(X2daError::X2daWriteWithoutColumns)),
    };
    let header = match &x2da_file.header {
        Some(h) => h,
        None => return Err(Error::X2daError(X2daError::X2daWriteWithoutHeader)),
    };
    let mut cells: Vec<Vec<Option<X2daItem>>> = Vec::new();
    let mut j: usize = 0;
    while j < x2da_file.rows.len()
        invariant
            j <= x2da_file.rows@.len(),
            cells@.len() == j,
            forall|k: int|
                0 <= k < j ==> cell_views((#[trigger] cells@[k])@) == x2da_file.rows@[k].spec_row(),
        decreases x2da_file.rows@.len() - j,
    {
        cells.push(x2da_file.rows[j].to_row());
        j = j + 1;
    }
    proof {
        assert forall|k: int| 0 <= k < cells@.len() implies (#[trigger] cells@[k])@.len()
            == x2da_file.rows@[k].spec_row().len() by {
            assert(cell_views(cells@[k]@).len() == cells@[k]@.len());
        }
    }
    let texts = match row_texts(&cells, columns.len()) {
        Ok(t) => t,
        Err(e) => {
            proof {
                assert(!rows_fit(x2da_file.rows@, columns@.len())) by {
                    if rows_fit(x2da_file.rows@, columns@.len()) {
                        assert forall|k: int| 0 <= k < cells@.len() implies (
                        #[trigger] cells@[k])@.len() == columns@.len() by {
                            assert(x2da_file.rows@[k].spec_row().len() == columns@.len());
                        }
                    }
                }
            }
            return Err(Error::X2daError(e));
        },
    };
    proof {
        assert forall|k: int| 0 <= k < x2da_file.rows@.len() implies (
        #[trigger] x2da_file.rows@[k]).spec_row().len() == columns@.len() by {
            assert(string_views(texts@[k]@).len() == texts@[k]@.len());
        }
        assert(table_views(texts@) =~= written_rows(x2da_file.rows@)) by {
            assert forall|k: int| 0 <= k < texts@.len() implies #[trigger] table_views(texts@)[k]
                == written_rows(x2da_file.rows@)[k] by {
                assert(string_views(texts@[k]@) == cell_views(cells@[k]@).map_values(
                    |c: Option<ItemView>| cell_text(c),
                ));
            }
        }
    }
    Ok(format_table(header, columns, &texts, config.spacing_length))
}

/// Whether every row has one cell per column.
pub open spec fn rows_fit<T: X2daRow>(rows: Seq<T>, columns: nat) -> bool {
    forall|j: int| 0 <= j < rows.len() ==> (#[trigger] rows[j]).spec_row().len() == columns
}

/// The texts of the rows' cells, as they are written.
pub open spec fn written_rows<T: X2daRow>(rows: Seq<T>) -> Seq<Seq<Seq<char>>> {
    Seq::new(
        rows.len(),
        |j: int| rows[j].spec_row().map_values(|c: Option<ItemView>| cell_text(c)),
    )
}

} // verus!
