//! Writing a table as text.
use crate::decimal::{decimal, push_decimal};
use crate::rule::{render_rule, RuleState};
use crate::ruleset::{Ruleset, RulesetView};
use crate::text::to_string;
use vstd::prelude::*;

verus! {

/// What stands between two cells of a line.
pub open spec fn cell_break() -> Seq<char> {
    seq![' ', '|', ' ']
}

/// The first `n` of `parts`, with `sep` between one and the next.
pub open spec fn joined(parts: Seq<Seq<char>>, sep: Seq<char>, n: nat) -> Seq<char>
    decreases n,
{
    if n == 0 {
        Seq::<char>::empty()
    } else if n == 1 {
        parts[0]
    } else {
        joined(parts, sep, (n - 1) as nat) + sep + parts[n - 1]
    }
}

impl RulesetView {
    /// The text of the cell for `symbol` in `state`: the rule's text, or
    /// five blanks where there is no rule.
    pub open spec fn cell_text(self, state: RuleState, symbol: char) -> Seq<char> {
        match self.find(state, symbol) {
            Ok(rule) => render_rule(rule),
            Err(_) => seq![' ', ' ', ' ', ' ', ' '],
        }
    }

    /// The numbers of the states, each in decimal notation.
    pub open spec fn header_cells(self) -> Seq<Seq<char>> {
        Seq::new(self.states.len(), |j: int| decimal(self.states[j] as nat))
    }

    /// The texts of the cells of the row of `symbol`.
    pub open spec fn row_cells(self, symbol: char) -> Seq<Seq<char>> {
        Seq::new(self.states.len(), |j: int| self.cell_text(self.states[j], symbol))
    }

    /// The header line: a blank cell, then the states.
    pub open spec fn header_line(self) -> Seq<char> {
        seq!['|', ' ', ' ', ' ', '|', ' '] + joined(
            self.header_cells(),
            cell_break(),
            self.states.len(),
        ) + seq!['|']
    }

    /// The line of dashes under the header, for `n` states.
    pub open spec fn separator_line(n: nat) -> Seq<char>
        decreases n,
    {
        if n == 0 {
            seq!['|', ':', '-', ':', '|']
        } else {
            Self::separator_line((n - 1) as nat) + seq![':', '-', ':', '|']
        }
    }

    /// The line of the row of `symbol`: the symbol, then the rules.
    pub open spec fn row_line(self, symbol: char) -> Seq<char> {
        seq!['|', ' ', symbol, ' ', '|', ' '] + joined(
            self.row_cells(symbol),
            cell_break(),
            self.states.len(),
        ) + seq!['|']
    }

    /// The lines of the first `n` rows, each with its line feed.
    pub open spec fn row_lines(self, n: nat) -> Seq<char>
        decreases n,
    {
        if n == 0 {
            Seq::<char>::empty()
        } else {
            self.row_lines((n - 1) as nat) + self.row_line(self.alphabet[n - 1]) + seq!['\n']
        }
    }

    /// The text of the table: the header line, the line of dashes, and a
    /// line for each symbol of the alphabet.
    pub open spec fn render(self) -> Seq<char> {
        self.header_line() + seq!['\n'] + Self::separator_line(self.states.len()) + seq!['\n']
            + self.row_lines(self.alphabet.len())
    }
}

impl Ruleset {
    /// Appends what stands between two cells of a line.
    fn push_break(out: &mut Vec<char>)
        ensures
            final(out)@ == old(out)@ + cell_break(),
    {
        out.push(' ');
        out.push('|');
        out.push(' ');
        assert(out@ =~= old(out)@ + cell_break());
    }

    /// Appends the header line, without its line feed.
    fn push_header(&self, out: &mut Vec<char>)
        ensures
            final(out)@ == old(out)@ + self@.header_line(),
    {
        let states = self.states();
        let ghost start = seq!['|', ' ', ' ', ' ', '|', ' '];
        out.push('|');
        out.push(' ');
        out.push(' ');
        out.push(' ');
        out.push('|');
        out.push(' ');
        assert(out@ =~= old(out)@ + start);
        let mut j: usize = 0;
        while j < states.len()
            invariant
                j <= states.len(),
                states@ == self@.states,
                out@ == old(out)@ + start + joined(self@.header_cells(), cell_break(), j as nat),
            decreases states.len() - j,
        {
            let ghost before = joined(self@.header_cells(), cell_break(), j as nat);
            if j > 0 {
                Self::push_break(out);
            }
            push_decimal(out, states[j] as u64);
            assert(self@.header_cells()[j as int] == decimal(self@.states[j as int] as nat));
            assert(out@ =~= old(out)@ + start + joined(
                self@.header_cells(),
                cell_break(),
                (j + 1) as nat,
            ));
            j += 1;
        }
        out.push('|');
        assert(out@ =~= old(out)@ + self@.header_line());
    }

    /// Appends the line of dashes, without its line feed.
    fn push_separator(&self, out: &mut Vec<char>)
        ensures
            final(out)@ == old(out)@ + RulesetView::separator_line(self@.states.len()),
    {
        let states = self.states();
        out.push('|');
        out.push(':');
        out.push('-');
        out.push(':');
        out.push('|');
        assert(out@ =~= old(out)@ + RulesetView::separator_line(0));
        let mut j: usize = 0;
        while j < states.len()
            invariant
                j <= states.len(),
                states@ == self@.states,
                out@ == old(out)@ + RulesetView::separator_line(j as nat),
            decreases states.len() - j,
        {
            out.push(':');
            out.push('-');
            out.push(':');
            out.push('|');
            assert(out@ =~= old(out)@ + RulesetView::separator_line((j + 1) as nat));
            j += 1;
        }
    }

    /// Appends the line of the row of `symbol`, without its line feed.
    fn push_row(&self, out: &mut Vec<char>, symbol: char)
        ensures
            final(out)@ == old(out)@ + self@.row_line(symbol),
    {
        let states = self.states();
        let ghost start = seq!['|', ' ', symbol, ' ', '|', ' '];
        out.push('|');
        out.push(' ');
        out.push(symbol);
        out.push(' ');
        out.push('|');
        out.push(' ');
        assert(out@ =~= old(out)@ + start);
        let mut j: usize = 0;
        while j < states.len()
            invariant
                j <= states.len(),
                states@ == self@.states,
                out@ == old(out)@ + start + joined(self@.row_cells(symbol), cell_break(), j as nat),
            decreases states.len() - j,
        {
            if j > 0 {
                Self::push_break(out);
            }
            let ghost at_cell = out@;
            match self.find(&states[j], &symbol) {
                Ok(rule) => {
                    rule.render(out);
                },
                Err(_) => {
                    out.push(' ');
                    out.push(' ');
                    out.push(' ');
                    out.push(' ');
                    out.push(' ');
                },
            }
            assert(out@ =~= at_cell + self@.cell_text(self@.states[j as int], symbol));
            assert(self@.row_cells(symbol)[j as int] == self@.cell_text(
                self@.states[j as int],
                symbol,
            ));
            assert(out@ =~= old(out)@ + start + joined(
                self@.row_cells(symbol),
                cell_break(),
                (j + 1) as nat,
            ));
            j += 1;
        }
        out.push('|');
        assert(out@ =~= old(out)@ + self@.row_line(symbol));
    }

    /// The text of the table: the header line, a line of dashes, and a line
    /// for each symbol of the alphabet, in the form that `from_str` reads.
    pub fn to_string(&self) -> (s: String)
        ensures
            s@ == self@.render(),
    {
        let alphabet = self.alphabet();
        let mut out: Vec<char> = Vec::new();
        self.push_header(&mut out);
        out.push('\n');
        self.push_separator(&mut out);
        out.push('\n');
        let ghost top = out@;
        assert(top =~= self@.header_line() + seq!['\n'] + RulesetView::separator_line(
            self@.states.len(),
        ) + seq!['\n']);
        let mut i: usize = 0;
        while i < alphabet.len()
            invariant
                i <= alphabet.len(),
                alphabet@ == self@.alphabet,
                out@ == top + self@.row_lines(i as nat),
            decreases alphabet.len() - i,
        {
            self.push_row(&mut out, alphabet[i]);
            out.push('\n');
            assert(out@ =~= top + self@.row_lines((i + 1) as nat));
            i += 1;
        }
        to_string(&out)
    }
}

} // verus!
