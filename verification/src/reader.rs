//! Reading a table from its text.
use crate::decimal::read_u32;
use crate::rule::{Rule, RuleState};
use crate::ruleset::{rules_of, Ruleset, RulesetParseError};
use crate::table::{
    header_states, leading_blank, lemma_header_error, lemma_header_states_differ,
    lemma_parse_table_wf, lemma_row_error, lemma_rows_error, lemma_rows_wf, line_cells,
    parse_header, parse_table, row_rules, skip_cells, table_rows, Rows, Table, TableError,
};
use crate::text::{
    has_pair, lines, split_lines, split_on, to_chars, to_string, trimmed, trimmed_end_char, views,
};
use std::collections::HashMap;
use vstd::prelude::*;

verus! {

/// Whether `x` is among `v`.
fn holds_state(v: &Vec<RuleState>, x: RuleState) -> (b: bool)
    ensures
        b == v@.contains(x),
{
    let mut i: usize = 0;
    while i < v.len()
        invariant
            i <= v.len(),
            forall|k: int| 0 <= k < i ==> v@[k] != x,
        decreases v.len() - i,
    {
        if v[i] == x {
            return true;
        }
        i += 1;
    }
    false
}

/// Whether `x` is among `v`.
fn holds_symbol(v: &Vec<char>, x: char) -> (b: bool)
    ensures
        b == v@.contains(x),
{
    let mut i: usize = 0;
    while i < v.len()
        invariant
            i <= v.len(),
            forall|k: int| 0 <= k < i ==> v@[k] != x,
        decreases v.len() - i,
    {
        if v[i] == x {
            return true;
        }
        i += 1;
    }
    false
}

/// The cells of `line`.
fn cells_of(line: &Vec<char>) -> (cells: Vec<Vec<char>>)
    ensures
        views(cells@) == line_cells(line@),
{
    let body = trimmed_end_char(line, '|');
    split_on(&body, '|')
}

/// The states that the header `line` names.
fn read_header(line: &Vec<char>) -> (r: Result<Vec<RuleState>, RulesetParseError>)
    ensures
        match r {
            Ok(states) => parse_header(line@) == Ok::<Seq<RuleState>, TableError>(states@),
            Err(e) => parse_header(line@) == Err::<Seq<RuleState>, TableError>(e@),
        },
{
    let cells = cells_of(line);
    let ghost named = skip_cells(line_cells(line@), 2);
    let mut states: Vec<RuleState> = Vec::new();
    let mut i: usize = 2;
    while i < cells.len()
        invariant
            2 <= i,
            i <= cells.len() || i == 2,
            views(cells@) == line_cells(line@),
            named == skip_cells(line_cells(line@), 2),
            i <= cells.len() ==> header_states(named.take(i - 2)) == Ok::<
                Seq<RuleState>,
                TableError,
            >(states@),
            i > cells.len() ==> states@.len() == 0,
        decreases cells.len() - i,
    {
        let text = trimmed(&cells[i]);
        proof {
            assert(named[i - 2] == cells@[i as int]@);
            assert(named.take(i - 2 + 1).drop_last() == named.take(i - 2));
            assert(named.take(i - 2 + 1).last() == named[i - 2]);
        }
        match read_u32(&text) {
            None => {
                proof {
                    lemma_header_error(named, i - 2 + 1);
                }
                return Err(RulesetParseError::InvalidState { state: to_string(&text) });
            },
            Some(state) => {
                if holds_state(&states, state) {
                    proof {
                        lemma_header_error(named, i - 2 + 1);
                    }
                    return Err(RulesetParseError::DuplicateState { state });
                }
                states.push(state);
            },
        }
        i += 1;
    }
    proof {
        if cells.len() >= 2 {
            assert(named.take(i - 2) == named);
        } else {
            assert(named.len() == 0);
            assert(states@ == Seq::<RuleState>::empty());
        }
    }
    Ok(states)
}

/// The rules in the first `columns` of the cells of line `row` that follow
/// its first two.
fn read_rules(cells: &Vec<Vec<char>>, row: usize, columns: usize) -> (r: Result<
    Vec<Rule>,
    RulesetParseError,
>)
    requires
        cells.len() >= 2,
    ensures
        match r {
            Ok(rules) => row_rules(views(cells@).skip(2), row as nat, columns as nat) == Ok::<
                Seq<Rule>,
                TableError,
            >(rules@),
            Err(e) => row_rules(views(cells@).skip(2), row as nat, columns as nat) == Err::<
                Seq<Rule>,
                TableError,
            >(e@),
        },
{
    let ghost rest = views(cells@).skip(2);
    let mut rules: Vec<Rule> = Vec::new();
    let mut col: usize = 0;
    while col < columns
        invariant
            col <= columns,
            cells.len() >= 2,
            rest == views(cells@).skip(2),
            row_rules(rest, row as nat, col as nat) == Ok::<Seq<Rule>, TableError>(rules@),
        decreases columns - col,
    {
        if col >= cells.len() - 2 {
            proof {
                lemma_row_error(rest, row as nat, (col + 1) as nat, columns as nat);
            }
            return Err(RulesetParseError::InvalidFormat { row, col });
        }
        let cell = &cells[col + 2];
        assert(rest[col as int] == cell@);
        let text = trimmed(cell);
        match Rule::parse(&text) {
            Err(_) => {
                proof {
                    lemma_row_error(rest, row as nat, (col + 1) as nat, columns as nat);
                }
                return Err(RulesetParseError::InvalidRule { row, col, format: to_string(cell) });
            },
            Ok(rule) => {
                rules.push(rule);
            },
        }
        col += 1;
    }
    Ok(rules)
}

/// The views of the elements of `rows`, in order.
pub open spec fn rule_rows(rows: Seq<Vec<Rule>>) -> Seq<Seq<Rule>> {
    Seq::new(rows.len(), |i: int| rows[i]@)
}

/// The rows that the lines of `lines` from `start` on hold, for a table of
/// `columns` states: their symbols and their rules.
fn read_rows(lines: &Vec<Vec<char>>, start: usize, columns: usize) -> (r: Result<
    (Vec<char>, Vec<Vec<Rule>>),
    RulesetParseError,
>)
    requires
        start <= lines.len(),
    ensures
        match r {
            Ok(found) => table_rows(
                views(lines@).skip(start as int),
                columns as nat,
                (lines.len() - start) as nat,
            ) == Ok::<Rows, TableError>(Rows { alphabet: found.0@, cells: rule_rows(found.1@) }),
            Err(e) => table_rows(
                views(lines@).skip(start as int),
                columns as nat,
                (lines.len() - start) as nat,
            ) == Err::<Rows, TableError>(e@),
        },
{
    let ghost body = views(lines@).skip(start as int);
    let count: usize = lines.len() - start;
    let mut alphabet: Vec<char> = Vec::new();
    let mut rows: Vec<Vec<Rule>> = Vec::new();
    let mut row: usize = 0;
    assert(rule_rows(rows@) =~= Seq::<Seq<Rule>>::empty());
    while row < count
        invariant
            row <= count,
            count == lines.len() - start,
            body == views(lines@).skip(start as int),
            table_rows(body, columns as nat, row as nat) == Ok::<Rows, TableError>(
                Rows { alphabet: alphabet@, cells: rule_rows(rows@) },
            ),
        decreases count - row,
    {
        let line = &lines[start + row];
        assert(body[row as int] == line@);
        if !(row == 0 && (has_pair(line, ':', '-') || has_pair(line, '-', '-'))) {
            let cells = cells_of(line);
            let ghost found = skip_cells(line_cells(line@), 1);
            if cells.len() < 2 {
                proof {
                    lemma_rows_error(body, columns as nat, (row + 1) as nat, count as nat);
                }
                return Err(RulesetParseError::InvalidFormat { row, col: 0 });
            }
            assert(found[0] == cells@[1]@);
            let text = trimmed(&cells[1]);
            if text.len() != 1 {
                proof {
                    lemma_rows_error(body, columns as nat, (row + 1) as nat, count as nat);
                }
                return Err(RulesetParseError::InvalidSymbol { row });
            }
            let symbol = text[0];
            if holds_symbol(&alphabet, symbol) {
                proof {
                    lemma_rows_error(body, columns as nat, (row + 1) as nat, count as nat);
                }
                return Err(RulesetParseError::DuplicateSymbol { symbol });
            }
            assert(found.skip(1) == views(cells@).skip(2));
            match read_rules(&cells, row, columns) {
                Err(e) => {
                    proof {
                        lemma_rows_error(body, columns as nat, (row + 1) as nat, count as nat);
                    }
                    return Err(e);
                },
                Ok(rules) => {
                    let ghost before = rule_rows(rows@);
                    alphabet.push(symbol);
                    rows.push(rules);
                    assert(rule_rows(rows@) =~= before.push(rules@));
                },
            }
        }
        row += 1;
    }
    Ok((alphabet, rows))
}

/// What holds of the rules of one state, as the inner map `m` has them, once
/// the column `col` of `rows` has been filled in: a symbol has a rule there
/// where it begins a row, and the rule is the one in that row.
pub open spec fn is_column(
    m: Map<u32, Rule>,
    alphabet: Seq<char>,
    rows: Seq<Seq<Rule>>,
    col: int,
    n: int,
) -> bool {
    &&& forall|c: char| #[trigger] m.contains_key(c as u32) <==> alphabet.take(n).contains(c)
    &&& forall|i: int| 0 <= i < n ==> #[trigger] m[alphabet[i] as u32] == rows[i][col]
}

/// A symbol has a rule in a column where it begins a row.
pub proof fn lemma_column_key(
    m: Map<u32, Rule>,
    alphabet: Seq<char>,
    rows: Seq<Seq<Rule>>,
    col: int,
    n: int,
    c: char,
)
    requires
        is_column(m, alphabet, rows, col, n),
    ensures
        m.contains_key(c as u32) <==> alphabet.take(n).contains(c),
{
}

/// Two symbols with the same code point are the same symbol.
pub proof fn lemma_code_is_symbol(c: char, d: char)
    ensures
        c as u32 == d as u32 ==> c == d,
{
}

/// The rules of column `col`, by the code point of the row's symbol.
fn column(alphabet: &Vec<char>, rows: &Vec<Vec<Rule>>, col: usize) -> (m: HashMap<u32, Rule>)
    requires
        alphabet@.no_duplicates(),
        rows.len() == alphabet.len(),
        forall|i: int| 0 <= i < rows.len() ==> col < (#[trigger] rows@[i]).len(),
    ensures
        is_column(m@, alphabet@, rule_rows(rows@), col as int, alphabet.len() as int),
{
    let mut m: HashMap<u32, Rule> = HashMap::new();
    let mut i: usize = 0;
    while i < alphabet.len()
        invariant
            i <= alphabet.len(),
            alphabet@.no_duplicates(),
            rows.len() == alphabet.len(),
            forall|k: int| 0 <= k < rows.len() ==> col < (#[trigger] rows@[k]).len(),
            is_column(m@, alphabet@, rule_rows(rows@), col as int, i as int),
        decreases alphabet.len() - i,
    {
        let symbol = alphabet[i];
        let rule = rows[i][col];
        let ghost before = m@;
        m.insert(symbol as u32, rule);
        proof {
            let a = alphabet@;
            assert(m@ == before.insert(symbol as u32, rule));
            assert(a.take(i + 1) =~= a.take(i as int).push(symbol));
            assert forall|c: char| #[trigger]
                m@.contains_key(c as u32) <==> a.take(i + 1).contains(c) by {
                if c == symbol {
                    assert(a.take(i + 1)[i as int] == c);
                } else {
                    lemma_code_is_symbol(c, symbol);
                    let less = a.take(i as int);
                    let more = a.take(i + 1);
                    if less.contains(c) {
                        let k = choose|k: int| 0 <= k < less.len() && less[k] == c;
                        assert(more[k] == c);
                    }
                    if more.contains(c) {
                        let k = choose|k: int| 0 <= k < more.len() && more[k] == c;
                        assert(less[k] == c);
                    }
                }
            }
            assert forall|k: int| 0 <= k < i + 1 implies #[trigger] m@[a[k] as u32] == rule_rows(
                rows@,
            )[k][col as int] by {
                if k < i {
                    assert(a[k] != a[i as int]);
                    lemma_code_is_symbol(a[k], a[i as int]);
                    assert(before[a[k] as u32] == rule_rows(rows@)[k][col as int]);
                }
            }
        }
        i += 1;
    }
    m
}

impl Ruleset {
    /// The lookup table for a table of rules given row by row.
    fn build(states: Vec<RuleState>, alphabet: Vec<char>, rows: Vec<Vec<Rule>>) -> (r: Ruleset)
        requires
            (Table { states: states@, alphabet: alphabet@, cells: rule_rows(rows@) }).wf(),
        ensures
            r@ == (Table {
                states: states@,
                alphabet: alphabet@,
                cells: rule_rows(rows@),
            }).ruleset(),
    {
        let ghost table = Table { states: states@, alphabet: alphabet@, cells: rule_rows(rows@) };
        let mut rules: HashMap<RuleState, HashMap<u32, Rule>> = HashMap::new();
        let mut col: usize = 0;
        while col < states.len()
            invariant
                col <= states.len(),
                table == (Table { states: states@, alphabet: alphabet@, cells: rule_rows(rows@) }),
                table.wf(),
                forall|s: RuleState| #[trigger]
                    rules@.contains_key(s) <==> states@.take(col as int).contains(s),
                forall|j: int|
                    0 <= j < col ==> is_column(
                        (#[trigger] rules@[states@[j]])@,
                        table.alphabet,
                        table.cells,
                        j,
                        table.alphabet.len() as int,
                    ),
            decreases states.len() - col,
        {
            assert forall|i: int| 0 <= i < rows.len() implies col < (#[trigger] rows@[i]).len() by {
                assert(table.cells[i].len() == states.len());
            }
            let state = states[col];
            let rules_of_state = column(&alphabet, &rows, col);
            let ghost before = rules@;
            rules.insert(state, rules_of_state);
            proof {
                let s = states@;
                assert(rules@ == before.insert(state, rules_of_state));
                let less = s.take(col as int);
                let more = s.take(col + 1);
                assert forall|x: RuleState| #[trigger]
                    rules@.contains_key(x) <==> more.contains(x) by {
                    if x == state {
                        assert(more[col as int] == x);
                    } else {
                        if less.contains(x) {
                            let k = choose|k: int| 0 <= k < less.len() && less[k] == x;
                            assert(more[k] == x);
                        }
                        if more.contains(x) {
                            let k = choose|k: int| 0 <= k < more.len() && more[k] == x;
                            assert(less[k] == x);
                        }
                    }
                }
                assert forall|j: int| 0 <= j < col + 1 implies is_column(
                    (#[trigger] rules@[s[j]])@,
                    table.alphabet,
                    table.cells,
                    j,
                    table.alphabet.len() as int,
                ) by {
                    if j < col {
                        assert(s[j] != s[col as int]);
                        assert(rules@[s[j]] == before[s[j]]);
                    }
                }
            }
            col += 1;
        }
        let ghost held = rules@;
        let r = Ruleset::new(rules, alphabet, states);
        proof {
            let s = table.states;
            let a = table.alphabet;
            assert(s.take(col as int) == s);
            assert(a.take(a.len() as int) == a);
            assert forall|k: (RuleState, char)| #[trigger]
                rules_of(held).contains_key(k) <==> table.rules().contains_key(k) by {
                if s.contains(k.0) {
                    let j = choose|j: int| 0 <= j < s.len() && s[j] == k.0;
                    lemma_column_key(held[s[j]]@, a, table.cells, j, a.len() as int, k.1);
                }
            }
            assert forall|k: (RuleState, char)| #[trigger]
                table.rules().contains_key(k) implies rules_of(held)[k] == table.rules()[k] by {
                assert(s.contains(k.0) && a.contains(k.1));
                let i = a.index_of(k.1);
                let j = s.index_of(k.0);
                assert(a[i] == k.1 && s[j] == k.0);
                assert(is_column(held[s[j]]@, a, table.cells, j, a.len() as int));
                assert(held[s[j]]@[a[i] as u32] == table.cells[i][j]);
                assert(rules_of(held).contains_key(k));
            }
            assert(rules_of(held) =~= table.rules());
        }
        r
    }

    /// Reads a table from `text`: a header line that names the states, an
    /// optional line of dashes under it, and one line for each symbol, the
    /// cells of a line parted by `|`.
    pub fn from_str(text: &str) -> (r: Result<Ruleset, RulesetParseError>)
        ensures
            match r {
                Ok(ruleset) => parse_table(text@) is Ok && ruleset@ == parse_table(
                    text@,
                )->Ok_0.ruleset() && ruleset@.wf() && ruleset@.total(),
                Err(e) => parse_table(text@) == Err::<Table, TableError>(e@),
            },
    {
        let chars = to_chars(text);
        let all = split_lines(&chars);
        let ghost ls = lines(text@);
        let mut header: usize = 0;
        assert(ls.skip(0) == ls);
        while header < all.len() && trimmed(&all[header]).len() == 0
            invariant
                header <= all.len(),
                views(all@) == ls,
                leading_blank(ls) == header + leading_blank(ls.skip(header as int)),
            decreases all.len() - header,
        {
            assert(ls.skip(header as int)[0] == all@[header as int]@);
            assert(ls.skip(header as int).drop_first() == ls.skip(header + 1));
            header += 1;
        }
        if header >= all.len() {
            return Err(RulesetParseError::InvalidRuleset);
        }
        assert(ls.skip(header as int)[0] == all@[header as int]@);
        assert(leading_blank(ls) == header);
        let states = match read_header(&all[header]) {
            Err(e) => {
                return Err(e);
            },
            Ok(states) => states,
        };
        match read_rows(&all, header + 1, states.len()) {
            Err(e) => Err(e),
            Ok(found) => {
                proof {
                    lemma_header_states_differ(skip_cells(line_cells(ls[header as int]), 2));
                    let body = ls.skip(header + 1);
                    lemma_rows_wf(body, states@.len(), body.len());
                    lemma_parse_table_wf(text@);
                }
                Ok(Ruleset::build(states, found.0, found.1))
            },
        }
    }
}

} // verus!
