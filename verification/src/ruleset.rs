//! The machine's table: for a state and the symbol under the head, the rule
//! to apply.
use crate::decimal::{decimal, push_decimal};
use crate::rule::{Rule, RuleState};
use crate::table::TableError;
use crate::text::{push_str, to_string};
use std::collections::HashMap;
use vstd::prelude::*;

verus! {

/// Why a lookup in the table gave no rule.
#[derive(Copy, Clone, PartialEq, Eq, Debug, Structural)]
pub enum RulesetError {
    /// The table has no rule for `symbol` in `state`.
    RuleNotFound { state: RuleState, symbol: char },
}

/// What a table is, mathematically.
pub struct RulesetView {
    /// The rule for each pair of a state and a symbol that has one.
    pub rules: Map<(RuleState, char), Rule>,
    /// The symbols of the table's rows, from top to bottom.
    pub alphabet: Seq<char>,
    /// The states of the table's columns, from left to right.
    pub states: Seq<RuleState>,
}

impl RulesetView {
    /// No state stands for two columns and no symbol for two rows.
    pub open spec fn wf(self) -> bool {
        &&& self.states.no_duplicates()
        &&& self.alphabet.no_duplicates()
    }

    /// The rule for `symbol` in `state`, or the error that says that there
    /// is none.
    pub open spec fn find(self, state: RuleState, symbol: char) -> Result<Rule, RulesetError> {
        if self.rules.contains_key((state, symbol)) {
            Ok(self.rules[(state, symbol)])
        } else {
            Err(RulesetError::RuleNotFound { state, symbol })
        }
    }

    /// Every pair of a column's state and a row's symbol has a rule.
    pub open spec fn total(self) -> bool {
        forall|i: int, j: int|
            0 <= i < self.alphabet.len() && 0 <= j < self.states.len()
                ==> #[trigger] self.rules.contains_key((self.states[j], self.alphabet[i]))
    }
}

impl RulesetError {
    /// What is reported to the user for this error.
    pub open spec fn message(self) -> Seq<char> {
        match self {
            RulesetError::RuleNotFound { state, symbol } => "Rule for state \""@
                + decimal(state as nat) + "\" and symbol \""@ + seq![symbol]
                + "\" not found"@,
        }
    }

    /// The error in words.
    pub fn to_string(&self) -> (s: String)
        ensures
            s@ == self.message(),
    {
        let mut out: Vec<char> = Vec::new();
        match self {
            RulesetError::RuleNotFound { state, symbol } => {
                push_str(&mut out, "Rule for state \"");
                push_decimal(&mut out, *state as u64);
                push_str(&mut out, "\" and symbol \"");
                out.push(*symbol);
                push_str(&mut out, "\" not found");
            },
        }
        assert(out@ =~= self.message());
        to_string(&out)
    }
}

/// The machine's table.
#[derive(Debug, PartialEq, Eq)]
pub struct Ruleset {
    rules: HashMap<RuleState, HashMap<u32, Rule>>,
    alphabet: Vec<char>,
    states: Vec<RuleState>,
}

/// The rules that `rules` holds, a symbol standing for its code point in
/// the inner maps.
pub open spec fn rules_of(rules: Map<RuleState, HashMap<u32, Rule>>) -> Map<
    (RuleState, char),
    Rule,
> {
    Map::new(
        |k: (RuleState, char)| rules.contains_key(k.0) && rules[k.0]@.contains_key(k.1 as u32),
        |k: (RuleState, char)| rules[k.0]@[k.1 as u32],
    )
}

impl View for Ruleset {
    type V = RulesetView;

    closed spec fn view(&self) -> RulesetView {
        RulesetView {
            rules: rules_of(self.rules@),
            alphabet: self.alphabet@,
            states: self.states@,
        }
    }
}

impl Clone for Ruleset {
    /// A table of its own with the same rules, rows and columns.
    fn clone(&self) -> (r: Ruleset)
        ensures
            r@ == self@,
    {
        proof {
            use_type_invariant(self);
        }
        let rules = self.rules.clone();
        let alphabet = self.alphabet.clone();
        let states = self.states.clone();
        assert(alphabet@ =~= self.alphabet@);
        assert(states@ =~= self.states@);
        Ruleset { rules, alphabet, states }
    }
}

impl Ruleset {
    /// No state stands for two columns and no symbol for two rows.
    #[verifier::type_invariant]
    closed spec fn inv(&self) -> bool {
        self@.wf()
    }

    /// The rule for `symbol` in `state`.
    pub fn find(&self, state: &RuleState, symbol: &char) -> (r: Result<Rule, RulesetError>)
        ensures
            r == self@.find(*state, *symbol),
    {
        match self.rules.get(state) {
            Some(row) => match row.get(&(*symbol as u32)) {
                Some(rule) => Ok(*rule),
                None => Err(RulesetError::RuleNotFound { state: *state, symbol: *symbol }),
            },
            None => Err(RulesetError::RuleNotFound { state: *state, symbol: *symbol }),
        }
    }

    /// The table with the rules `rules`, a symbol being looked up by its code
    /// point, the rows `alphabet` and the columns `states`.
    pub fn new(
        rules: HashMap<RuleState, HashMap<u32, Rule>>,
        alphabet: Vec<char>,
        states: Vec<RuleState>,
    ) -> (r: Ruleset)
        requires
            alphabet@.no_duplicates(),
            states@.no_duplicates(),
        ensures
            r@ == (RulesetView { rules: rules_of(rules@), alphabet: alphabet@, states: states@ }),
    {
        Ruleset { rules, alphabet, states }
    }

    /// The states of the table's columns, from left to right.
    pub fn states(&self) -> (s: &Vec<RuleState>)
        ensures
            s@ == self@.states,
            s@.no_duplicates(),
    {
        proof {
            use_type_invariant(self);
        }
        &self.states
    }

    /// The symbols of the table's rows, from top to bottom.
    pub fn alphabet(&self) -> (a: &Vec<char>)
        ensures
            a@ == self@.alphabet,
            a@.no_duplicates(),
    {
        proof {
            use_type_invariant(self);
        }
        &self.alphabet
    }

    /// The rules, by state and then by the symbol's code point.
    pub fn rules(&self) -> (r: &HashMap<RuleState, HashMap<u32, Rule>>)
        ensures
            rules_of(r@) == self@.rules,
    {
        &self.rules
    }
}

/// Why a text is not a table.
#[allow(inconsistent_fields)]
#[derive(Clone, Debug, PartialEq, Eq)]
pub enum RulesetParseError {
    /// The text has no header line.
    InvalidRuleset,
    /// The header cell `state` is not the number of a state.
    InvalidState { state: String },
    /// The first cell of line `row` is not a single symbol.
    InvalidSymbol { row: usize },
    /// The header names `state` twice.
    DuplicateState { state: RuleState },
    /// Two lines begin with `symbol`.
    DuplicateSymbol { symbol: char },
    /// Line `row` has no cell for column `col`.
    InvalidFormat { row: usize, col: usize },
    /// The cell `format` in column `col` of line `row` is not a rule.
    InvalidRule { row: usize, col: usize, format: String },
}

impl View for RulesetParseError {
    type V = TableError;

    open spec fn view(&self) -> TableError {
        match self {
            RulesetParseError::InvalidRuleset => TableError::InvalidRuleset,
            RulesetParseError::InvalidState { state } => TableError::InvalidState { state: state@ },
            RulesetParseError::InvalidSymbol { row } => TableError::InvalidSymbol {
                row: *row as nat,
            },
            RulesetParseError::DuplicateState { state } => TableError::DuplicateState {
                state: *state,
            },
            RulesetParseError::DuplicateSymbol { symbol } => TableError::DuplicateSymbol {
                symbol: *symbol,
            },
            RulesetParseError::InvalidFormat { row, col } => TableError::InvalidFormat {
                row: *row as nat,
                col: *col as nat,
            },
            RulesetParseError::InvalidRule { row, col, format } => TableError::InvalidRule {
                row: *row as nat,
                col: *col as nat,
                format: format@,
            },
        }
    }
}

impl RulesetParseError {
    /// The error in words.
    pub fn to_string(&self) -> (s: String)
        ensures
            s@ == self@.message(),
    {
        let mut out: Vec<char> = Vec::new();
        match self {
            RulesetParseError::InvalidRuleset => {
                push_str(&mut out, "Invalid ruleset");
            },
            RulesetParseError::InvalidState { state } => {
                push_str(&mut out, "Invalid state: ");
                push_str(&mut out, state.as_str());
            },
            RulesetParseError::InvalidSymbol { row } => {
                push_str(&mut out, "Invalid symbol in row ");
                push_decimal(&mut out, *row as u64);
            },
            RulesetParseError::DuplicateState { state } => {
                push_str(&mut out, "Duplicate state: ");
                push_decimal(&mut out, *state as u64);
            },
            RulesetParseError::DuplicateSymbol { symbol } => {
                push_str(&mut out, "Duplicate symbol: ");
                out.push(*symbol);
            },
            RulesetParseError::InvalidFormat { row, col } => {
                push_str(&mut out, "Invalid format in cell [");
                push_decimal(&mut out, *row as u64);
                push_str(&mut out, ", ");
                push_decimal(&mut out, *col as u64);
                push_str(&mut out, "]");
            },
            RulesetParseError::InvalidRule { row, col, format } => {
                push_str(&mut out, "Invalid rule format in cell [");
                push_decimal(&mut out, *row as u64);
                push_str(&mut out, ", ");
                push_decimal(&mut out, *col as u64);
                push_str(&mut out, "]: ");
                push_str(&mut out, format.as_str());
            },
        }
        assert(out@ =~= self@.message());
        to_string(&out)
    }
}

} // verus!
