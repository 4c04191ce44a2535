//! Reading back what was written: the text of a table denotes that table.
use crate::decimal::{decimal, is_digit, lemma_decimal_is_number, lemma_parse_decimal};
use crate::rule::{lemma_parse_render_rule, parse_rule, render_rule, Rule, RuleState};
use crate::ruleset::{RulesetError, RulesetView};
use crate::writer::{cell_break, joined};
use crate::table::{
    header_states, is_blank, is_separator, leading_blank, lemma_parse_table_wf, lemma_row_len,
    lemma_rows_wf, line_cells, parse_header, parse_symbol, parse_table, row_rules, skip_cells,
    table_rows, Rows, Table, TableError,
};
use crate::text::{
    contains_pair, is_whitespace, lemma_split_nonempty, lines, split, strip_cr, trim, trim_end,
    trim_end_char, trim_start,
};
use vstd::prelude::*;

verus! {

/// Whether `sep` does not occur in `s`.
pub open spec fn free_of(s: Seq<char>, sep: char) -> bool {
    forall|k: int| 0 <= k < s.len() ==> #[trigger] s[k] != sep
}

/// Whether `c` can stand in a cell of a table's text and be read back: it is
/// neither white space nor the bar between cells.
pub open spec fn is_plain(c: char) -> bool {
    !is_whitespace(c) && c != '|'
}

/// Text without the separator, added to a text, is added to its last piece.
pub proof fn lemma_split_more(a: Seq<char>, b: Seq<char>, sep: char)
    requires
        free_of(b, sep),
    ensures
        split(a, sep).len() >= 1,
        split(a + b, sep) == split(a, sep).drop_last().push(split(a, sep).last() + b),
    decreases b.len(),
{
    lemma_split_nonempty(a, sep);
    if b.len() == 0 {
        assert(a + b == a);
        assert(split(a, sep).last() + b == split(a, sep).last());
        assert(split(a, sep).drop_last().push(split(a, sep).last()) == split(a, sep));
    } else {
        let shorter = b.drop_last();
        assert forall|k: int| 0 <= k < shorter.len() implies #[trigger] shorter[k] != sep by {
            assert(b[k] != sep);
        }
        lemma_split_more(a, shorter, sep);
        assert((a + b).drop_last() == a + shorter);
        assert((a + b).last() == b.last());
        assert(b[b.len() - 1] != sep);
        let before = split(a + shorter, sep);
        assert(before.drop_last() == split(a, sep).drop_last());
        assert(before.last().push(b.last()) == split(a, sep).last() + b);
    }
}

/// A separator and text without the separator, added to a text, are one
/// piece more.
pub proof fn lemma_split_piece(a: Seq<char>, piece: Seq<char>, sep: char)
    requires
        free_of(piece, sep),
    ensures
        split(a + seq![sep] + piece, sep) == split(a, sep).push(piece),
{
    let ended = a + seq![sep];
    assert(ended.drop_last() == a);
    assert(ended.last() == sep);
    assert(split(ended, sep) == split(a, sep).push(Seq::<char>::empty()));
    lemma_split_more(ended, piece, sep);
    assert(Seq::<char>::empty() + piece == piece);
    assert(split(a, sep).push(Seq::<char>::empty()).drop_last() == split(a, sep));
}

/// No piece holds the separator.
pub proof fn lemma_pieces_free(s: Seq<char>, sep: char)
    ensures
        forall|i: int| 0 <= i < split(s, sep).len() ==> free_of(#[trigger] split(s, sep)[i], sep),
    decreases s.len(),
{
    if s.len() > 0 {
        lemma_pieces_free(s.drop_last(), sep);
        lemma_split_nonempty(s.drop_last(), sep);
        let before = split(s.drop_last(), sep);
        assert forall|i: int| 0 <= i < split(s, sep).len() implies free_of(
            #[trigger] split(s, sep)[i],
            sep,
        ) by {
            if i < before.len() - 1 {
                assert(split(s, sep)[i] == before[i]);
            } else if s.last() != sep {
                assert(free_of(before.last(), sep));
            }
        }
    }
}

/// Text that ends with something else than `c` has no run of `c` at its end.
pub proof fn lemma_trim_end_char_none(s: Seq<char>, c: char)
    requires
        s.len() > 0,
        s.last() != c,
    ensures
        trim_end_char(s, c) == s,
        trim_end_char(s.push(c), c) == s,
{
    assert(s.push(c).drop_last() == s);
}

/// What is left of a text without the white space at its end is the
/// beginning of the text, and does not end with white space.
pub proof fn lemma_trim_end(s: Seq<char>)
    ensures
        trim_end(s).len() <= s.len(),
        trim_end(s) == s.take(trim_end(s).len() as int),
        trim_end(s).len() > 0 ==> !is_whitespace(trim_end(s).last()),
    decreases s.len(),
{
    if s.len() > 0 && is_whitespace(s.last()) {
        lemma_trim_end(s.drop_last());
        let n = trim_end(s).len() as int;
        assert(s.drop_last().take(n) == s.take(n));
    } else {
        assert(s.take(s.len() as int) == s);
    }
}

/// What is left of a text without the white space at its beginning is the
/// end of the text, and does not begin with white space.
pub proof fn lemma_trim_start(s: Seq<char>)
    ensures
        trim_start(s).len() <= s.len(),
        trim_start(s) == s.skip(s.len() - trim_start(s).len()),
        trim_start(s).len() > 0 ==> !is_whitespace(trim_start(s)[0]),
    decreases s.len(),
{
    if s.len() > 0 && is_whitespace(s[0]) {
        lemma_trim_start(s.drop_first());
        let n = trim_start(s).len() as int;
        assert(s.drop_first().skip(s.len() - 1 - n) == s.skip(s.len() - n));
    } else {
        assert(s.skip(0) == s);
    }
}

/// What is left of a text without the white space around it is a part of
/// the text, and neither begins nor ends with white space.
pub proof fn lemma_trim(s: Seq<char>)
    ensures
        trim(s).len() > 0 ==> !is_whitespace(trim(s)[0]) && !is_whitespace(trim(s).last()),
        forall|c: char| free_of(s, c) ==> free_of(trim(s), c),
{
    let e = trim_end(s);
    lemma_trim_end(s);
    lemma_trim_start(e);
    let t = trim(s);
    let shift = e.len() - t.len();
    assert forall|c: char| free_of(s, c) implies free_of(t, c) by {
        assert forall|k: int| 0 <= k < t.len() implies #[trigger] t[k] != c by {
            assert(t[k] == e[k + shift]);
            assert(e[k + shift] == s[k + shift]);
        }
    }
    if t.len() > 0 {
        assert(t.last() == e[t.len() - 1 + shift]);
    }
}

/// Text that neither begins nor ends with white space is what is left of
/// it, and of it with a blank before and after it, once the white space
/// around is taken off.
pub proof fn lemma_trim_padded(s: Seq<char>)
    requires
        s.len() > 0,
        !is_whitespace(s[0]),
        !is_whitespace(s.last()),
    ensures
        trim(s) == s,
        trim(seq![' '] + s) == s,
        trim(seq![' '] + s + seq![' ']) == s,
{
    let left = seq![' '] + s;
    let both = left + seq![' '];
    assert(is_whitespace(' '));
    assert(left.last() == s.last());
    assert(trim_end(left) == left);
    assert(left.drop_first() == s);
    assert(trim_start(left) == trim_start(s));
    assert(both.drop_last() == left);
    assert(trim_end(both) == trim_end(left));
}

/// The text of a line up to the bar that ends it: a bar, the label, and
/// the first `n` of `cells`.
pub open spec fn line_text(label: Seq<char>, cells: Seq<Seq<char>>, n: nat) -> Seq<char> {
    seq!['|'] + label + seq!['|', ' '] + joined(cells, cell_break(), n)
}

/// The pieces of a line between its bars are an empty piece, the label, and
/// the cells, each with a blank before it and all but the last with a blank
/// after it.
pub proof fn lemma_line_pieces(label: Seq<char>, cells: Seq<Seq<char>>, n: nat)
    requires
        n >= 1,
        free_of(label, '|'),
        forall|j: int| 0 <= j < n ==> free_of(#[trigger] cells[j], '|'),
    ensures
        ({
            let p = split(line_text(label, cells, n), '|');
            &&& p.len() == n + 2
            &&& p[0] == Seq::<char>::empty()
            &&& p[1] == label
            &&& forall|j: int|
                0 <= j < n - 1 ==> #[trigger] p[j + 2] == seq![' '] + cells[j] + seq![' ']
            &&& p[n + 1 as int] == seq![' '] + cells[n - 1]
        }),
    decreases n,
{
    let nothing = Seq::<char>::empty();
    if n == 1 {
        let first = seq![' '] + cells[0];
        assert(free_of(cells[0], '|'));
        assert(free_of(first, '|'));
        lemma_split_piece(nothing, label, '|');
        assert(split(nothing, '|') == seq![nothing]);
        assert(nothing + seq!['|'] + label == seq!['|'] + label);
        lemma_split_piece(seq!['|'] + label, first, '|');
        assert(line_text(label, cells, 1) == seq!['|'] + label + seq!['|'] + first);
    } else {
        let m = (n - 1) as nat;
        lemma_line_pieces(label, cells, m);
        let before = line_text(label, cells, m);
        let p = split(before, '|');
        let last = seq![' '] + cells[n - 1];
        assert(free_of(cells[n - 1], '|'));
        assert(free_of(last, '|'));
        assert(free_of(seq![' '], '|'));
        lemma_split_more(before, seq![' '], '|');
        lemma_split_piece(before + seq![' '], last, '|');
        assert(line_text(label, cells, n) == before + seq![' '] + seq!['|'] + last) by {
            assert(joined(cells, cell_break(), n) == joined(cells, cell_break(), m) + cell_break()
                + cells[n - 1]);
        }
        let q = split(line_text(label, cells, n), '|');
        assert(q == p.drop_last().push(p.last() + seq![' ']).push(last));
        assert forall|j: int| 0 <= j < n - 1 implies #[trigger] q[j + 2] == seq![' '] + cells[j]
            + seq![' '] by {
            if j < m - 1 {
                assert(q[j + 2] == p[j + 2]);
            }
        }
    }
}

/// A line whose cells are not empty and hold no bar has, before the bar
/// that ends it, the pieces of `lemma_line_pieces` as its cells.
pub proof fn lemma_line_cells(label: Seq<char>, cells: Seq<Seq<char>>, n: nat)
    requires
        n >= 1,
        free_of(label, '|'),
        forall|j: int| 0 <= j < n ==> free_of(#[trigger] cells[j], '|'),
        cells[n - 1].len() > 0,
    ensures
        line_cells(line_text(label, cells, n) + seq!['|']) == split(
            line_text(label, cells, n),
            '|',
        ),
{
    let text = line_text(label, cells, n);
    assert(free_of(cells[n - 1], '|'));
    assert(text.last() == cells[n - 1].last()) by {
        if n == 1 {
        } else {
            assert(joined(cells, cell_break(), n) == joined(cells, cell_break(), (n - 1) as nat)
                + cell_break() + cells[n - 1]);
        }
    }
    assert(text + seq!['|'] == text.push('|'));
    lemma_trim_end_char_none(text, '|');
}

/// A line holds a character only if its label or one of its cells does, or
/// the character is a bar or a blank.
pub proof fn lemma_line_free(label: Seq<char>, cells: Seq<Seq<char>>, n: nat, c: char)
    requires
        c != '|',
        c != ' ',
        free_of(label, c),
        forall|j: int| 0 <= j < n ==> free_of(#[trigger] cells[j], c),
    ensures
        free_of(joined(cells, cell_break(), n), c),
        free_of(line_text(label, cells, n) + seq!['|'], c),
    decreases n,
{
    if n > 1 {
        lemma_line_free(label, cells, (n - 1) as nat, c);
        assert(free_of(cells[n - 1], c));
    } else if n == 1 {
        assert(free_of(cells[0], c));
    }
}

/// Decimal notation holds neither white space nor a bar.
pub proof fn lemma_decimal_plain(n: nat)
    ensures
        decimal(n).len() > 0,
        forall|k: int| 0 <= k < decimal(n).len() ==> is_plain(#[trigger] decimal(n)[k]),
        free_of(decimal(n), '|'),
        free_of(decimal(n), '\n'),
{
    lemma_decimal_is_number(n);
    assert forall|k: int| 0 <= k < decimal(n).len() implies is_plain(#[trigger] decimal(n)[k]) by {
        assert(is_digit(decimal(n)[k]));
    }
    assert forall|k: int| 0 <= k < decimal(n).len() implies #[trigger] decimal(n)[k] != '|' by {
        assert(is_plain(decimal(n)[k]));
    }
    assert forall|k: int| 0 <= k < decimal(n).len() implies #[trigger] decimal(n)[k] != '\n' by {
        assert(is_plain(decimal(n)[k]));
    }
}

/// The text of a rule that writes a plain symbol holds neither white space
/// nor a bar.
pub proof fn lemma_rule_plain(r: Rule)
    requires
        is_plain(r.write),
    ensures
        render_rule(r).len() > 0,
        !is_whitespace(render_rule(r)[0]),
        !is_whitespace(render_rule(r).last()),
        free_of(render_rule(r), '|'),
        free_of(render_rule(r), '\n'),
{
    let d = decimal(r.next_state as nat);
    lemma_decimal_plain(r.next_state as nat);
    let s = render_rule(r);
    assert(s.last() == d.last());
    assert(is_plain(d[d.len() - 1]));
    assert forall|k: int| 0 <= k < s.len() implies is_plain(#[trigger] s[k]) by {
        if k >= 2 {
            assert(s[k] == d[k - 2]);
            assert(is_plain(d[k - 2]));
        }
    }
    assert forall|k: int| 0 <= k < s.len() implies #[trigger] s[k] != '|' by {
        assert(is_plain(s[k]));
    }
    assert forall|k: int| 0 <= k < s.len() implies #[trigger] s[k] != '\n' by {
        assert(is_plain(s[k]));
    }
}

/// Header cells that hold the numbers of different states, with white
/// space around them, are read as those states.
pub proof fn lemma_header_reads(cells: Seq<Seq<char>>, states: Seq<RuleState>)
    requires
        cells.len() == states.len(),
        states.no_duplicates(),
        forall|j: int|
            0 <= j < cells.len() ==> trim(#[trigger] cells[j]) == decimal(states[j] as nat),
    ensures
        header_states(cells) == Ok::<Seq<RuleState>, TableError>(states),
    decreases cells.len(),
{
    if cells.len() == 0 {
        assert(states == Seq::<RuleState>::empty());
    } else {
        let fewer = cells.drop_last();
        assert forall|j: int| 0 <= j < fewer.len() implies trim(#[trigger] fewer[j]) == decimal(
            states.drop_last()[j] as nat,
        ) by {
            assert(fewer[j] == cells[j]);
        }
        lemma_header_reads(fewer, states.drop_last());
        let last = states.last();
        lemma_parse_decimal(last as nat, u32::MAX as nat);
        assert(trim(cells.last()) == decimal(last as nat)) by {
            assert(cells.last() == cells[cells.len() - 1]);
        }
        assert(!states.drop_last().contains(last));
        assert(states.drop_last().push(last) == states);
    }
}

/// Cells that hold the texts of rules, with white space around them, are
/// read as those rules.
pub proof fn lemma_row_reads(cells: Seq<Seq<char>>, row: nat, rules: Seq<Rule>, n: nat)
    requires
        n <= rules.len(),
        n <= cells.len(),
        forall|j: int| 0 <= j < n ==> trim(#[trigger] cells[j]) == render_rule(rules[j]),
    ensures
        row_rules(cells, row, n) == Ok::<Seq<Rule>, TableError>(rules.take(n as int)),
    decreases n,
{
    if n == 0 {
        assert(rules.take(0) == Seq::<Rule>::empty());
    } else {
        lemma_row_reads(cells, row, rules, (n - 1) as nat);
        lemma_parse_render_rule(rules[n - 1]);
        assert(trim(cells[n - 1]) == render_rule(rules[n - 1]));
        assert(rules.take(n - 1).push(rules[n - 1]) == rules.take(n as int));
    }
}

/// In a table without double states and symbols, the rule for a column's
/// state and a row's symbol is the rule in that cell.
pub proof fn lemma_table_find(t: Table, i: int, j: int)
    requires
        t.wf(),
        0 <= i < t.alphabet.len(),
        0 <= j < t.states.len(),
    ensures
        t.ruleset().find(t.states[j], t.alphabet[i]) == Ok::<Rule, RulesetError>(
            t.cells[i][j],
        ),
        t.ruleset().cell_text(t.states[j], t.alphabet[i]) == render_rule(t.cells[i][j]),
{
    let state = t.states[j];
    let symbol = t.alphabet[i];
    assert(t.states.contains(state));
    assert(t.alphabet.contains(symbol));
    let jj = t.states.index_of(state);
    let ii = t.alphabet.index_of(symbol);
    assert(t.states[jj] == state);
    assert(t.alphabet[ii] == symbol);
    assert(ii == i && jj == j);
    assert(t.rules().contains_key((state, symbol)));
}

/// A line without a line feed, and a line feed, added to a text that ends
/// with a line feed or is empty, are one line more.
pub proof fn lemma_split_line(a: Seq<char>, line: Seq<char>)
    requires
        split(a, '\n').last().len() == 0,
        free_of(line, '\n'),
    ensures
        split(a + line + seq!['\n'], '\n') == split(a, '\n').drop_last().push(line).push(
            Seq::<char>::empty(),
        ),
{
    lemma_split_more(a, line, '\n');
    let nothing = Seq::<char>::empty();
    assert(split(a, '\n').last() == nothing);
    assert(nothing + line == line);
    let whole = a + line + seq!['\n'];
    assert(whole.drop_last() == a + line);
    assert(whole.last() == '\n');
}

/// The header line, the line of dashes and the first `k` row lines of a
/// table's text, each with its line feed.
pub open spec fn text_upto(v: RulesetView, k: nat) -> Seq<char> {
    v.header_line() + seq!['\n'] + RulesetView::separator_line(v.states.len()) + seq!['\n']
        + v.row_lines(k)
}

/// The header line, the line of dashes and the first `k` row lines of a
/// table's text.
pub open spec fn lines_upto(v: RulesetView, k: nat) -> Seq<Seq<char>> {
    seq![v.header_line(), RulesetView::separator_line(v.states.len())] + Seq::new(
        k,
        |i: int| v.row_line(v.alphabet[i]),
    )
}

/// The line of dashes begins with a bar, a colon and a dash, ends with a
/// bar, and holds no line feed.
pub proof fn lemma_separator(n: nat)
    ensures
        RulesetView::separator_line(n).len() >= 5,
        RulesetView::separator_line(n)[1] == ':',
        RulesetView::separator_line(n)[2] == '-',
        RulesetView::separator_line(n).last() == '|',
        free_of(RulesetView::separator_line(n), '\n'),
        is_separator(RulesetView::separator_line(n)),
    decreases n,
{
    if n > 0 {
        lemma_separator((n - 1) as nat);
    }
    let s = RulesetView::separator_line(n);
    assert(s[1] == ':' && s[1int + 1] == '-');
    assert(contains_pair(s, ':', '-'));
}

/// The text of a table, cut at its line feeds, gives its lines and an empty
/// piece after the last line feed.
pub proof fn lemma_text_pieces(v: RulesetView, k: nat)
    requires
        k <= v.alphabet.len(),
        free_of(v.header_line(), '\n'),
        forall|i: int| 0 <= i < k ==> free_of(#[trigger] v.row_line(v.alphabet[i]), '\n'),
    ensures
        split(text_upto(v, k), '\n') == lines_upto(v, k).push(Seq::<char>::empty()),
    decreases k,
{
    let nothing = Seq::<char>::empty();
    let header = v.header_line();
    let dashes = RulesetView::separator_line(v.states.len());
    lemma_separator(v.states.len());
    if k == 0 {
        assert(split(nothing, '\n') == seq![nothing]);
        lemma_split_line(nothing, header);
        assert(nothing + header + seq!['\n'] == header + seq!['\n']);
        assert(seq![nothing].drop_last().push(header).push(nothing) == seq![header, nothing]);
        lemma_split_line(header + seq!['\n'], dashes);
        assert(seq![header, nothing].drop_last().push(dashes).push(nothing) == seq![
            header,
            dashes,
            nothing,
        ]);
        assert(text_upto(v, 0) == header + seq!['\n'] + dashes + seq!['\n']);
        assert(lines_upto(v, 0).push(nothing) == seq![header, dashes, nothing]);
    } else {
        let j = (k - 1) as nat;
        lemma_text_pieces(v, j);
        let line = v.row_line(v.alphabet[j as int]);
        lemma_split_line(text_upto(v, j), line);
        assert(text_upto(v, k) == text_upto(v, j) + line + seq!['\n']);
        assert(lines_upto(v, j).push(nothing).drop_last().push(line).push(nothing) == lines_upto(
            v,
            k,
        ).push(nothing));
    }
}

/// Whether the text of the table `t` can be read back: the table has a
/// state, no state and no symbol twice, a rule in every cell, and no symbol
/// of it, in a row's label or written by a rule, is white space or a bar.
pub open spec fn readable(t: Table) -> bool {
    &&& t.wf()
    &&& t.states.len() > 0
    &&& forall|i: int| 0 <= i < t.alphabet.len() ==> is_plain(#[trigger] t.alphabet[i])
    &&& forall|i: int, j: int|
        0 <= i < t.cells.len() && 0 <= j < t.cells[i].len() ==> is_plain(
            (#[trigger] t.cells[i][j]).write,
        )
}

/// Text that begins with something else than white space is not blank.
pub proof fn lemma_not_blank(s: Seq<char>)
    requires
        s.len() > 0,
        !is_whitespace(s[0]),
    ensures
        !is_blank(s),
{
    lemma_trim_end_keeps(s);
}

/// Text that begins with something else than white space still begins
/// with it once the white space at its end is taken off.
pub proof fn lemma_trim_end_keeps(s: Seq<char>)
    requires
        s.len() > 0,
        !is_whitespace(s[0]),
    ensures
        trim_end(s).len() > 0,
        trim_end(s)[0] == s[0],
    decreases s.len(),
{
    if is_whitespace(s.last()) {
        lemma_trim_end_keeps(s.drop_last());
    }
}

/// The header line of a readable table is read as the table's states.
pub proof fn lemma_header_line_reads(t: Table)
    requires
        readable(t),
    ensures
        parse_header(t.ruleset().header_line()) == Ok::<Seq<RuleState>, TableError>(t.states),
        free_of(t.ruleset().header_line(), '\n'),
        !is_blank(t.ruleset().header_line()),
        t.ruleset().header_line().last() == '|',
{
    let v = t.ruleset();
    let n = t.states.len();
    let label = seq![' ', ' ', ' '];
    let cells = v.header_cells();
    let text = line_text(label, cells, n);
    let line = v.header_line();
    assert(line == text + seq!['|']);
    assert(free_of(label, '|'));
    assert(free_of(label, '\n'));
    assert forall|j: int| 0 <= j < n implies free_of(#[trigger] cells[j], '|') && free_of(
        cells[j],
        '\n',
    ) && cells[j].len() > 0 by {
        lemma_decimal_plain(t.states[j] as nat);
    }
    lemma_line_free(label, cells, n, '\n');
    lemma_line_pieces(label, cells, n);
    lemma_line_cells(label, cells, n);
    let p = split(text, '|');
    let named = skip_cells(p, 2);
    assert(named == p.skip(2));
    assert forall|j: int| 0 <= j < named.len() implies trim(#[trigger] named[j]) == decimal(
        t.states[j] as nat,
    ) by {
        let d = decimal(t.states[j] as nat);
        lemma_decimal_plain(t.states[j] as nat);
        assert(is_plain(d[0]) && is_plain(d[d.len() - 1]));
        lemma_trim_padded(d);
        assert(named[j] == p[j + 2]);
        assert(cells[j] == d);
        if j < n - 1 {
        } else {
            assert(p[j + 2] == seq![' '] + cells[n - 1]);
        }
    }
    lemma_header_reads(named, t.states);
    assert(line[0] == '|');
    lemma_not_blank(line);
}

/// A row line of a readable table is read as the row's symbol and rules.
pub proof fn lemma_row_line_reads(t: Table, i: int, row: nat)
    requires
        readable(t),
        0 <= i < t.alphabet.len(),
    ensures
        ({
            let line = t.ruleset().row_line(t.alphabet[i]);
            let cells = skip_cells(line_cells(line), 1);
            &&& cells.len() > 0
            &&& parse_symbol(cells[0]) == Some(t.alphabet[i])
            &&& row_rules(cells.skip(1), row, t.states.len()) == Ok::<Seq<Rule>, TableError>(
                t.cells[i],
            )
            &&& free_of(line, '\n')
            &&& line.last() == '|'
        }),
{
    let v = t.ruleset();
    let n = t.states.len();
    let symbol = t.alphabet[i];
    let label = seq![' ', symbol, ' '];
    let cells = v.row_cells(symbol);
    let text = line_text(label, cells, n);
    let line = v.row_line(symbol);
    assert(line == text + seq!['|']);
    assert(is_plain(symbol));
    assert(free_of(label, '|'));
    assert(free_of(label, '\n'));
    assert forall|j: int| 0 <= j < n implies #[trigger] cells[j] == render_rule(t.cells[i][j]) by {
        lemma_table_find(t, i, j);
    }
    assert forall|j: int| 0 <= j < n implies free_of(#[trigger] cells[j], '|') && free_of(
        cells[j],
        '\n',
    ) && cells[j].len() > 0 by {
        assert(is_plain(t.cells[i][j].write));
        lemma_rule_plain(t.cells[i][j]);
    }
    lemma_line_free(label, cells, n, '\n');
    lemma_line_pieces(label, cells, n);
    lemma_line_cells(label, cells, n);
    let p = split(text, '|');
    let found = skip_cells(p, 1);
    assert(found == p.skip(1));
    assert(found[0] == label);
    lemma_trim_padded(seq![symbol]);
    assert(seq![' '] + seq![symbol] + seq![' '] == label);
    let rest = found.skip(1);
    assert forall|j: int| 0 <= j < n implies trim(#[trigger] rest[j]) == render_rule(
        t.cells[i][j],
    ) by {
        let r = render_rule(t.cells[i][j]);
        assert(is_plain(t.cells[i][j].write));
        lemma_rule_plain(t.cells[i][j]);
        lemma_trim_padded(r);
        assert(rest[j] == p[j + 2]);
        assert(cells[j] == r);
        if j < n - 1 {
        } else {
            assert(p[j + 2] == seq![' '] + cells[n - 1]);
        }
    }
    lemma_row_reads(rest, row, t.cells[i], n);
    assert(t.cells[i].take(n as int) == t.cells[i]);
}

/// The line of dashes and the first `k` row lines of a readable table are
/// read as the table's first `k` rows.
pub proof fn lemma_rows_read(t: Table, body: Seq<Seq<char>>, k: nat)
    requires
        readable(t),
        k <= t.alphabet.len(),
        body.len() > k,
        body[0] == RulesetView::separator_line(t.states.len()),
        forall|i: int| 0 <= i < k ==> #[trigger] body[i + 1] == t.ruleset().row_line(t.alphabet[i]),
    ensures
        table_rows(body, t.states.len(), k + 1) == Ok::<Rows, TableError>(
            Rows { alphabet: t.alphabet.take(k as int), cells: t.cells.take(k as int) },
        ),
    decreases k,
{
    let n = t.states.len();
    if k == 0 {
        lemma_separator(n);
        assert(table_rows(body, n, 0) == Ok::<Rows, TableError>(
            Rows { alphabet: Seq::empty(), cells: Seq::empty() },
        ));
        assert(t.alphabet.take(0) == Seq::<char>::empty());
        assert(t.cells.take(0) == Seq::<Seq<Rule>>::empty());
    } else {
        let i = (k - 1) as int;
        lemma_rows_read(t, body, (k - 1) as nat);
        lemma_row_line_reads(t, i, k);
        assert(body[i + 1] == t.ruleset().row_line(t.alphabet[i]));
        let symbol = t.alphabet[i];
        let before = t.alphabet.take(i);
        assert(!before.contains(symbol));
        assert(before.push(symbol) == t.alphabet.take(k as int));
        assert(t.cells.take(i).push(t.cells[i]) == t.cells.take(k as int));
    }
}

/// The text of a readable table is read as that table.
pub proof fn lemma_read_rendered(t: Table)
    requires
        readable(t),
    ensures
        parse_table(t.ruleset().render()) == Ok::<Table, TableError>(t),
{
    let v = t.ruleset();
    let m = t.alphabet.len();
    let n = t.states.len();
    let nothing = Seq::<char>::empty();
    lemma_header_line_reads(t);
    lemma_separator(n);
    assert forall|i: int| 0 <= i < m implies free_of(#[trigger] v.row_line(v.alphabet[i]), '\n')
        && v.row_line(v.alphabet[i]).last() == '|' by {
        lemma_row_line_reads(t, i, 0);
    }
    lemma_text_pieces(v, m);
    let text = v.render();
    assert(text == text_upto(v, m));
    let pieces = split(text, '\n');
    let all = lines_upto(v, m);
    assert(pieces == all.push(nothing));
    assert(lines(text) == all) by {
        assert forall|i: int| 0 <= i < all.len() implies strip_cr(#[trigger] pieces[i])
            == all[i] by {
            if i >= 2 {
                assert(all[i] == v.row_line(v.alphabet[i - 2]));
            }
        }
        assert(lines(text) =~= all);
    }
    assert(leading_blank(all) == 0);
    let body = all.skip(1);
    assert(body.len() == m + 1);
    assert forall|i: int| 0 <= i < m implies #[trigger] body[i + 1] == v.row_line(
        t.alphabet[i],
    ) by {
        assert(body[i + 1] == all[i + 2]);
    }
    lemma_rows_read(t, body, m);
    assert(t.alphabet.take(m as int) == t.alphabet);
    assert(t.cells.take(m as int) == t.cells);
}

/// The rules that are read from cells without a bar write plain symbols.
pub proof fn lemma_row_plain(cells: Seq<Seq<char>>, row: nat, n: nat)
    requires
        row_rules(cells, row, n) is Ok,
        forall|j: int| 0 <= j < cells.len() ==> free_of(#[trigger] cells[j], '|'),
    ensures
        row_rules(cells, row, n)->Ok_0.len() == n,
        forall|j: int|
            0 <= j < n ==> is_plain((#[trigger] row_rules(cells, row, n)->Ok_0[j]).write),
    decreases n,
{
    if n > 0 {
        lemma_row_plain(cells, row, (n - 1) as nat);
        lemma_row_len(cells, row, n);
        let cell = cells[n - 1];
        assert(free_of(cell, '|'));
        lemma_trim(cell);
        let text = trim(cell);
        assert(parse_rule(text) is Ok);
        assert(text[0] != '|');
        let rules = row_rules(cells, row, n)->Ok_0;
        let fewer = row_rules(cells, row, (n - 1) as nat)->Ok_0;
        assert forall|j: int| 0 <= j < n implies is_plain((#[trigger] rules[j]).write) by {
            if j < n - 1 {
                assert(rules[j] == fewer[j]);
            }
        }
    }
}

/// The rows that are read from lines have plain symbols as their labels
/// and in their rules.
pub proof fn lemma_rows_plain(lines: Seq<Seq<char>>, columns: nat, n: nat)
    requires
        table_rows(lines, columns, n) is Ok,
    ensures
        ({
            let rows = table_rows(lines, columns, n)->Ok_0;
            &&& forall|i: int|
                0 <= i < rows.alphabet.len() ==> is_plain(#[trigger] rows.alphabet[i])
            &&& forall|i: int, j: int|
                0 <= i < rows.cells.len() && 0 <= j < rows.cells[i].len() ==> is_plain(
                    (#[trigger] rows.cells[i][j]).write,
                )
        }),
    decreases n,
{
    if n > 0 {
        lemma_rows_plain(lines, columns, (n - 1) as nat);
        lemma_rows_wf(lines, columns, (n - 1) as nat);
        let row = (n - 1) as nat;
        let line = lines[row as int];
        if !(row == 0 && is_separator(line)) {
            let fewer = table_rows(lines, columns, (n - 1) as nat)->Ok_0;
            let rows = table_rows(lines, columns, n)->Ok_0;
            let pieces = line_cells(line);
            lemma_pieces_free(trim_end_char(line, '|'), '|');
            let cells = skip_cells(pieces, 1);
            assert forall|j: int| 0 <= j < cells.len() implies free_of(
                #[trigger] cells[j],
                '|',
            ) by {
                assert(cells[j] == pieces[j + 1]);
            }
            let rest = cells.skip(1);
            assert forall|j: int| 0 <= j < rest.len() implies free_of(#[trigger] rest[j], '|') by {
                assert(rest[j] == cells[j + 1]);
            }
            lemma_row_plain(rest, row, columns);
            let symbol = parse_symbol(cells[0])->Some_0;
            lemma_trim(cells[0]);
            assert(free_of(cells[0], '|'));
            assert(trim(cells[0])[0] == symbol);
            assert(is_plain(symbol));
            let rules = row_rules(rest, row, columns)->Ok_0;
            assert(rows.alphabet == fewer.alphabet.push(symbol));
            assert(rows.cells == fewer.cells.push(rules));
            assert forall|i: int| 0 <= i < rows.alphabet.len() implies is_plain(
                #[trigger] rows.alphabet[i],
            ) by {
                if i < fewer.alphabet.len() {
                    assert(rows.alphabet[i] == fewer.alphabet[i]);
                }
            }
            assert forall|i: int, j: int|
                0 <= i < rows.cells.len() && 0 <= j < rows.cells[i].len() implies is_plain(
                (#[trigger] rows.cells[i][j]).write,
            ) by {
                if i < fewer.cells.len() {
                    assert(rows.cells[i] == fewer.cells[i]);
                    assert(is_plain(fewer.cells[i][j].write));
                } else {
                    assert(rows.cells[i] == rules);
                    assert(is_plain(rules[j].write));
                }
            }
        }
    }
}

/// A table that was read from a text with at least one state in its header
/// is one whose own text can be read back.
pub proof fn lemma_parsed_is_readable(text: Seq<char>)
    requires
        parse_table(text) is Ok,
        parse_table(text)->Ok_0.states.len() > 0,
    ensures
        readable(parse_table(text)->Ok_0),
{
    lemma_parse_table_wf(text);
    let all = lines(text);
    let header = leading_blank(all);
    let states = parse_header(all[header as int])->Ok_0;
    let body = all.skip(header + 1 as int);
    lemma_rows_plain(body, states.len(), body.len());
}

/// Reading a table, writing it and reading what was written gives the
/// table that was read first: the same states, the same symbols, and for
/// every state and symbol the same rule or the same lack of one. This
/// holds of every text that is read as a table with at least one state.
pub proof fn lemma_round_trip(text: Seq<char>)
    requires
        parse_table(text) is Ok,
        parse_table(text)->Ok_0.states.len() > 0,
    ensures
        parse_table(parse_table(text)->Ok_0.ruleset().render()) == parse_table(text),
        forall|state: RuleState, symbol: char|
            parse_table(parse_table(text)->Ok_0.ruleset().render())->Ok_0.ruleset().find(
                state,
                symbol,
            ) == parse_table(text)->Ok_0.ruleset().find(state, symbol),
{
    lemma_parsed_is_readable(text);
    lemma_read_rendered(parse_table(text)->Ok_0);
}

} // verus!
