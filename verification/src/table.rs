//! The text of a table: a header line that names the states, an optional
//! line of dashes under it, and one line for each symbol with a rule for
//! each state, the cells of a line parted by `|`.
use crate::decimal::{decimal, parse_unsigned};
use crate::rule::{parse_rule, Rule, RuleState};
use crate::ruleset::RulesetView;
use crate::text::{contains_pair, lines, split, trim, trim_end_char};
use vstd::prelude::*;

verus! {

/// Why a text is not a table.
#[allow(inconsistent_fields)]
pub enum TableError {
    /// The text has no header line.
    InvalidRuleset,
    /// The header cell `state` is not the number of a state.
    InvalidState { state: Seq<char> },
    /// The first cell of line `row` is not a single symbol.
    InvalidSymbol { row: nat },
    /// The header names `state` twice.
    DuplicateState { state: RuleState },
    /// Two lines begin with `symbol`.
    DuplicateSymbol { symbol: char },
    /// Line `row` has no cell for column `col`.
    InvalidFormat { row: nat, col: nat },
    /// The cell `format` in column `col` of line `row` is not a rule.
    InvalidRule { row: nat, col: nat, format: Seq<char> },
}

/// A table as its text has it: the states of the columns, the symbols of
/// the rows, and the rule in each cell.
pub struct Table {
    /// The states of the columns, from left to right.
    pub states: Seq<RuleState>,
    /// The symbols of the rows, from top to bottom.
    pub alphabet: Seq<char>,
    /// The rules, row by row.
    pub cells: Seq<Seq<Rule>>,
}

/// The rows of a table: their symbols and the rules in their cells.
pub struct Rows {
    /// The symbols of the rows, from top to bottom.
    pub alphabet: Seq<char>,
    /// The rules, row by row.
    pub cells: Seq<Seq<Rule>>,
}

impl Table {
    /// No state and no symbol occurs twice, and there is a rule in every
    /// cell.
    pub open spec fn wf(self) -> bool {
        &&& self.states.no_duplicates()
        &&& self.alphabet.no_duplicates()
        &&& self.cells.len() == self.alphabet.len()
        &&& forall|i: int|
            0 <= i < self.cells.len() ==> (#[trigger] self.cells[i]).len() == self.states.len()
    }

    /// The rule for each pair of a column's state and a row's symbol.
    pub open spec fn rules(self) -> Map<(RuleState, char), Rule> {
        Map::new(
            |k: (RuleState, char)| self.states.contains(k.0) && self.alphabet.contains(k.1),
            |k: (RuleState, char)|
                self.cells[self.alphabet.index_of(k.1)][self.states.index_of(k.0)],
        )
    }

    /// The table as a lookup table.
    pub open spec fn ruleset(self) -> RulesetView {
        RulesetView { rules: self.rules(), alphabet: self.alphabet, states: self.states }
    }
}

/// `cells` without its first `n` cells; nothing, if there are fewer.
pub open spec fn skip_cells(cells: Seq<Seq<char>>, n: nat) -> Seq<Seq<char>> {
    if n <= cells.len() {
        cells.skip(n as int)
    } else {
        Seq::empty()
    }
}

/// The cells of `line`: the pieces between its `|`, once the `|` that it
/// ends with are taken off.
pub open spec fn line_cells(line: Seq<char>) -> Seq<Seq<char>> {
    split(trim_end_char(line, '|'), '|')
}

/// The states that the header cells `cells` name, from left to right, or
/// the first error among them.
pub open spec fn header_states(cells: Seq<Seq<char>>) -> Result<Seq<RuleState>, TableError>
    decreases cells.len(),
{
    if cells.len() == 0 {
        Ok(Seq::empty())
    } else {
        match header_states(cells.drop_last()) {
            Err(e) => Err(e),
            Ok(states) => {
                let text = trim(cells.last());
                match parse_unsigned(text, u32::MAX as nat) {
                    None => Err(TableError::InvalidState { state: text }),
                    Some(n) => if states.contains(n as u32) {
                        Err(TableError::DuplicateState { state: n as u32 })
                    } else {
                        Ok(states.push(n as u32))
                    },
                }
            },
        }
    }
}

/// The states that the header `line` names: its first two cells are
/// passed over, each of the others is the number of a state.
pub open spec fn parse_header(line: Seq<char>) -> Result<Seq<RuleState>, TableError> {
    header_states(skip_cells(line_cells(line), 2))
}

/// The symbol in `cell`: what is left of it without the white space
/// around it, if that is a single character.
pub open spec fn parse_symbol(cell: Seq<char>) -> Option<char> {
    let text = trim(cell);
    if text.len() == 1 {
        Some(text[0])
    } else {
        None
    }
}

/// The rules in the first `n` of `cells`, which are the cells of line
/// `row` that follow its symbol, or the first error among them: a cell
/// that is missing, or one that is not a rule.
pub open spec fn row_rules(cells: Seq<Seq<char>>, row: nat, n: nat) -> Result<
    Seq<Rule>,
    TableError,
>
    decreases n,
{
    if n == 0 {
        Ok(Seq::empty())
    } else {
        match row_rules(cells, row, (n - 1) as nat) {
            Err(e) => Err(e),
            Ok(rules) => {
                let col = (n - 1) as nat;
                if col >= cells.len() {
                    Err(TableError::InvalidFormat { row, col })
                } else {
                    match parse_rule(trim(cells[col as int])) {
                        Err(_) => Err(
                            TableError::InvalidRule { row, col, format: cells[col as int] },
                        ),
                        Ok(rule) => Ok(rules.push(rule)),
                    }
                }
            },
        }
    }
}

/// Whether `line` is taken for the line of dashes under a header: it holds
/// a colon or a dash with a dash after it. A row of the table that holds
/// such a pair is taken for one too where it is the first line after the
/// header, and is then passed over.
pub open spec fn is_separator(line: Seq<char>) -> bool {
    contains_pair(line, ':', '-') || contains_pair(line, '-', '-')
}

/// The rows that the first `n` of `lines` hold, for a table of `columns`
/// states, or the first error among them. The lines are those that follow
/// the header, and a line's number counts from there. The first of them
/// is passed over if it is a line of dashes; every other line is a row.
pub open spec fn table_rows(lines: Seq<Seq<char>>, columns: nat, n: nat) -> Result<
    Rows,
    TableError,
>
    decreases n,
{
    if n == 0 {
        Ok(Rows { alphabet: Seq::empty(), cells: Seq::empty() })
    } else {
        match table_rows(lines, columns, (n - 1) as nat) {
            Err(e) => Err(e),
            Ok(rows) => {
                let row = (n - 1) as nat;
                let line = lines[row as int];
                if row == 0 && is_separator(line) {
                    Ok(rows)
                } else {
                    let cells = skip_cells(line_cells(line), 1);
                    if cells.len() == 0 {
                        Err(TableError::InvalidFormat { row, col: 0 })
                    } else {
                        match parse_symbol(cells[0]) {
                            None => Err(TableError::InvalidSymbol { row }),
                            Some(symbol) => if rows.alphabet.contains(symbol) {
                                Err(TableError::DuplicateSymbol { symbol })
                            } else {
                                match row_rules(cells.skip(1), row, columns) {
                                    Err(e) => Err(e),
                                    Ok(rules) => Ok(
                                        Rows {
                                            alphabet: rows.alphabet.push(symbol),
                                            cells: rows.cells.push(rules),
                                        },
                                    ),
                                }
                            },
                        }
                    }
                }
            },
        }
    }
}

/// Whether `line` holds nothing but white space.
pub open spec fn is_blank(line: Seq<char>) -> bool {
    trim(line).len() == 0
}

/// How many blank lines `lines` begins with.
pub open spec fn leading_blank(lines: Seq<Seq<char>>) -> nat
    decreases lines.len(),
{
    if lines.len() == 0 || !is_blank(lines[0]) {
        0
    } else {
        1 + leading_blank(lines.drop_first())
    }
}

/// The table that `text` denotes, or the first error in it. The first line
/// that is not blank is the header; the lines after it are the rows.
pub open spec fn parse_table(text: Seq<char>) -> Result<Table, TableError> {
    let all = lines(text);
    let header = leading_blank(all);
    if header >= all.len() {
        Err(TableError::InvalidRuleset)
    } else {
        match parse_header(all[header as int]) {
            Err(e) => Err(e),
            Ok(states) => {
                let body = all.skip(header + 1 as int);
                match table_rows(body, states.len(), body.len()) {
                    Err(e) => Err(e),
                    Ok(rows) => Ok(Table { states, alphabet: rows.alphabet, cells: rows.cells }),
                }
            },
        }
    }
}

/// An error among the first header cells is the error of the header.
pub proof fn lemma_header_error(cells: Seq<Seq<char>>, n: int)
    requires
        0 <= n <= cells.len(),
        header_states(cells.take(n)) is Err,
    ensures
        header_states(cells) == header_states(cells.take(n)),
    decreases cells.len(),
{
    if n == cells.len() {
        assert(cells.take(n) == cells);
    } else {
        assert(cells.drop_last().take(n) == cells.take(n));
        lemma_header_error(cells.drop_last(), n);
    }
}

/// The states of a header are all different.
pub proof fn lemma_header_states_differ(cells: Seq<Seq<char>>)
    requires
        header_states(cells) is Ok,
    ensures
        header_states(cells)->Ok_0.no_duplicates(),
        header_states(cells)->Ok_0.len() == cells.len(),
    decreases cells.len(),
{
    if cells.len() > 0 {
        lemma_header_states_differ(cells.drop_last());
    }
}

/// An error among the first cells of a row is the error of the row.
pub proof fn lemma_row_error(cells: Seq<Seq<char>>, row: nat, k: nat, n: nat)
    requires
        k <= n,
        row_rules(cells, row, k) is Err,
    ensures
        row_rules(cells, row, n) == row_rules(cells, row, k),
    decreases n,
{
    if k < n {
        lemma_row_error(cells, row, k, (n - 1) as nat);
    }
}

/// A row has as many rules as the table has columns.
pub proof fn lemma_row_len(cells: Seq<Seq<char>>, row: nat, n: nat)
    requires
        row_rules(cells, row, n) is Ok,
    ensures
        row_rules(cells, row, n)->Ok_0.len() == n,
        n <= cells.len(),
    decreases n,
{
    if n > 0 {
        lemma_row_len(cells, row, (n - 1) as nat);
    }
}

/// An error among the first lines is the error of the table.
pub proof fn lemma_rows_error(lines: Seq<Seq<char>>, columns: nat, k: nat, n: nat)
    requires
        k <= n,
        table_rows(lines, columns, k) is Err,
    ensures
        table_rows(lines, columns, n) == table_rows(lines, columns, k),
    decreases n,
{
    if k < n {
        lemma_rows_error(lines, columns, k, (n - 1) as nat);
    }
}

/// The rows of a table begin with different symbols, and each has a rule
/// for every column.
pub proof fn lemma_rows_wf(lines: Seq<Seq<char>>, columns: nat, n: nat)
    requires
        table_rows(lines, columns, n) is Ok,
    ensures
        ({
            let rows = table_rows(lines, columns, n)->Ok_0;
            &&& rows.alphabet.no_duplicates()
            &&& rows.cells.len() == rows.alphabet.len()
            &&& forall|i: int|
                0 <= i < rows.cells.len() ==> (#[trigger] rows.cells[i]).len() == columns
        }),
    decreases n,
{
    if n > 0 {
        lemma_rows_wf(lines, columns, (n - 1) as nat);
        let row = (n - 1) as nat;
        let line = lines[row as int];
        if !(row == 0 && is_separator(line)) {
            let cells = skip_cells(line_cells(line), 1);
            lemma_row_len(cells.skip(1), row, columns);
        }
    }
}

/// What is read as a table has no state and no symbol twice, and a rule in
/// every cell.
pub proof fn lemma_parse_table_wf(text: Seq<char>)
    requires
        parse_table(text) is Ok,
    ensures
        parse_table(text)->Ok_0.wf(),
        parse_table(text)->Ok_0.ruleset().wf(),
        parse_table(text)->Ok_0.ruleset().total(),
{
    let all = lines(text);
    let header = leading_blank(all);
    lemma_header_states_differ(skip_cells(line_cells(all[header as int]), 2));
    let states = parse_header(all[header as int])->Ok_0;
    let body = all.skip(header + 1 as int);
    lemma_rows_wf(body, states.len(), body.len());
    let t = parse_table(text)->Ok_0;
    assert forall|i: int, j: int|
        0 <= i < t.alphabet.len() && 0 <= j < t.states.len() implies #[trigger]
        t.rules().contains_key((t.states[j], t.alphabet[i])) by {
        assert(t.states.contains(t.states[j]));
        assert(t.alphabet.contains(t.alphabet[i]));
    }
}

/// A header cell that names a state that a cell before it has named makes
/// the header fail, with that state reported as a duplicate.
pub proof fn lemma_duplicate_state(cells: Seq<Seq<char>>, j: int, state: RuleState)
    requires
        0 <= j < cells.len(),
        header_states(cells.take(j)) is Ok,
        header_states(cells.take(j))->Ok_0.contains(state),
        parse_unsigned(trim(cells[j]), u32::MAX as nat) == Some(state as nat),
    ensures
        header_states(cells) == Err::<Seq<RuleState>, TableError>(
            TableError::DuplicateState { state },
        ),
{
    let upto = cells.take(j + 1);
    assert(upto.drop_last() == cells.take(j));
    assert(upto.last() == cells[j]);
    lemma_header_error(cells, j + 1);
}

/// The states of a header are the numbers in its cells, in order.
pub proof fn lemma_header_states_are_cells(cells: Seq<Seq<char>>)
    requires
        header_states(cells) is Ok,
    ensures
        header_states(cells)->Ok_0.len() == cells.len(),
        forall|j: int|
            0 <= j < cells.len() ==> parse_unsigned(trim(#[trigger] cells[j]), u32::MAX as nat)
                == Some(header_states(cells)->Ok_0[j] as nat),
    decreases cells.len(),
{
    if cells.len() > 0 {
        let fewer = cells.drop_last();
        lemma_header_states_are_cells(fewer);
        assert forall|j: int| 0 <= j < cells.len() implies parse_unsigned(
            trim(#[trigger] cells[j]),
            u32::MAX as nat,
        ) == Some(header_states(cells)->Ok_0[j] as nat) by {
            if j < fewer.len() {
                assert(fewer[j] == cells[j]);
            }
        }
    }
}

/// A header in which every cell is the number of a state fails only for a
/// state that is named twice.
pub proof fn lemma_header_of_numbers(cells: Seq<Seq<char>>)
    requires
        forall|j: int|
            0 <= j < cells.len() ==> parse_unsigned(trim(#[trigger] cells[j]), u32::MAX as nat)
                is Some,
    ensures
        header_states(cells) is Err ==> header_states(cells)->Err_0 is DuplicateState,
    decreases cells.len(),
{
    if cells.len() > 0 {
        let fewer = cells.drop_last();
        assert forall|j: int| 0 <= j < fewer.len() implies parse_unsigned(
            trim(#[trigger] fewer[j]),
            u32::MAX as nat,
        ) is Some by {
            assert(fewer[j] == cells[j]);
        }
        lemma_header_of_numbers(fewer);
        assert(cells.last() == cells[cells.len() - 1]);
    }
}

/// A header in which every cell is the number of a state, and two cells are
/// the number of the same state, fails with a duplicate state.
pub proof fn lemma_repeated_state(cells: Seq<Seq<char>>, i: int, j: int)
    requires
        forall|k: int|
            0 <= k < cells.len() ==> parse_unsigned(trim(#[trigger] cells[k]), u32::MAX as nat)
                is Some,
        0 <= i < j < cells.len(),
        parse_unsigned(trim(cells[i]), u32::MAX as nat) == parse_unsigned(
            trim(cells[j]),
            u32::MAX as nat,
        ),
    ensures
        header_states(cells) is Err,
        header_states(cells)->Err_0 is DuplicateState,
{
    lemma_header_of_numbers(cells);
    if header_states(cells) is Ok {
        lemma_header_states_are_cells(cells);
        lemma_header_states_differ(cells);
        let states = header_states(cells)->Ok_0;
        assert(states[i] as nat == states[j] as nat);
        assert(states[i] == states[j]);
    }
}

/// A line that begins with the symbol of a row before it makes the table
/// fail, with that symbol reported as a duplicate.
pub proof fn lemma_duplicate_symbol(
    lines: Seq<Seq<char>>,
    columns: nat,
    row: nat,
    n: nat,
    symbol: char,
)
    requires
        row < n,
        table_rows(lines, columns, row) is Ok,
        table_rows(lines, columns, row)->Ok_0.alphabet.contains(symbol),
        !(row == 0 && is_separator(lines[row as int])),
        skip_cells(line_cells(lines[row as int]), 1).len() > 0,
        parse_symbol(skip_cells(line_cells(lines[row as int]), 1)[0]) == Some(symbol),
    ensures
        table_rows(lines, columns, n) == Err::<Rows, TableError>(
            TableError::DuplicateSymbol { symbol },
        ),
{
    lemma_rows_error(lines, columns, row + 1, n);
}

/// Cells of a row beyond the last column change nothing.
pub proof fn lemma_extra_cells(cells: Seq<Seq<char>>, extra: Seq<Seq<char>>, row: nat, n: nat)
    requires
        n <= cells.len(),
    ensures
        row_rules(cells + extra, row, n) == row_rules(cells, row, n),
    decreases n,
{
    if n > 0 {
        lemma_extra_cells(cells, extra, row, (n - 1) as nat);
        assert((cells + extra)[n - 1] == cells[n - 1]);
    }
}

/// A row whose cells are rules, but fewer than there are columns, fails
/// with the first column that has no cell.
pub proof fn lemma_missing_cell(cells: Seq<Seq<char>>, row: nat, n: nat)
    requires
        cells.len() < n,
        row_rules(cells, row, cells.len()) is Ok,
    ensures
        row_rules(cells, row, n) == Err::<Seq<Rule>, TableError>(
            TableError::InvalidFormat { row, col: cells.len() },
        ),
{
    lemma_row_error(cells, row, cells.len() + 1, n);
}

impl TableError {
    /// What is reported to the user for this error.
    pub open spec fn message(self) -> Seq<char> {
        match self {
            TableError::InvalidRuleset => "Invalid ruleset"@,
            TableError::InvalidState { state } => "Invalid state: "@ + state,
            TableError::InvalidSymbol { row } => "Invalid symbol in row "@ + decimal(row),
            TableError::DuplicateState { state } => "Duplicate state: "@ + decimal(state as nat),
            TableError::DuplicateSymbol { symbol } => "Duplicate symbol: "@ + seq![symbol],
            TableError::InvalidFormat { row, col } => "Invalid format in cell ["@ + decimal(row)
                + ", "@ + decimal(col) + "]"@,
            TableError::InvalidRule { row, col, format } => "Invalid rule format in cell ["@
                + decimal(row) + ", "@ + decimal(col) + "]: "@ + format,
        }
    }
}

} // verus!
