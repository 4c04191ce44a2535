//! The tape of the machine: unbounded in both directions, held as the finite
//! run of cells that the head has reached so far.
use crate::decimal::{parse_signed, read_isize};
use crate::rule::{Move, Rule};
use crate::text::{lines, split_lines, to_chars, to_string, trim, trimmed, views};
use vstd::prelude::*;

verus! {

/// The symbol that every cell holds until something is written to it.
pub const SPACE: char = '_';

/// `n` blank cells.
pub open spec fn blanks(n: nat) -> Seq<char> {
    Seq::new(n, |i: int| SPACE)
}

/// What a tape is, mathematically.
pub struct TapeView {
    /// The cells that are held, from left to right.
    pub cells: Seq<char>,
    /// The position of the head, counted from the first cell that is held.
    pub index: int,
    /// What is subtracted from `index` to give the position that `head` reports.
    pub offset: int,
}

impl TapeView {
    /// The head stands on a cell that is held, and the offset is one that
    /// arises from a start within `isize` by growth to the left.
    pub open spec fn wf(self) -> bool {
        &&& 0 <= self.index < self.cells.len()
        &&& isize::MIN - self.cells.len() <= self.offset <= isize::MAX
    }

    /// The position that the tape reports for its head.
    pub open spec fn head(self) -> int {
        self.index - self.offset
    }

    /// The symbol `rel` cells to the right of the head (to the left, where
    /// `rel` is negative). Cells that are not held are blank.
    pub open spec fn at(self, rel: int) -> char {
        if 0 <= self.index + rel < self.cells.len() {
            self.cells[self.index + rel]
        } else {
            SPACE
        }
    }

    /// The symbol under the head.
    pub open spec fn read(self) -> char {
        self.at(0)
    }

    /// The tape with `c` written under the head.
    pub open spec fn write(self, c: char) -> TapeView {
        TapeView { cells: self.cells.update(self.index, c), ..self }
    }

    /// The tape with the head moved by `mov`, possibly off the cells held.
    pub open spec fn move_head(self, mov: Move) -> TapeView {
        TapeView { index: self.index + mov.delta(), ..self }
    }

    /// The tape with just enough blank cells added for the head to stand on a
    /// cell that is held. Cells added on the left shift `index` to zero and
    /// add the former, negative `index` to `offset`.
    pub open spec fn extend(self) -> TapeView {
        if self.index < 0 {
            TapeView {
                cells: blanks((-self.index) as nat) + self.cells,
                index: 0,
                offset: self.offset + self.index,
            }
        } else if self.index >= self.cells.len() {
            TapeView {
                cells: self.cells + blanks((self.index - self.cells.len() + 1) as nat),
                ..self
            }
        } else {
            self
        }
    }

    /// The tape after `rule` has been applied: its symbol written under the
    /// head, the head moved, the cells extended.
    pub open spec fn apply_rule(self, rule: Rule) -> TapeView {
        self.write(rule.write).move_head(rule.mov).extend()
    }

    /// The tape after its head has been set to the reported position `head`.
    pub open spec fn set_head(self, head: int) -> TapeView {
        (TapeView { index: head + self.offset, ..self }).extend()
    }

    /// The tape that holds `data`, whose first symbol is at position
    /// `data_start_at`, with the head at position `head`.
    pub open spec fn new(data: Seq<char>, head: int, data_start_at: int) -> TapeView {
        let head0 = head - data_start_at;
        if head0 == 0 {
            TapeView {
                cells: if data.len() == 0 {
                    seq![SPACE]
                } else {
                    data
                },
                index: 0,
                offset: head,
            }
        } else if head0 < 0 {
            TapeView { cells: blanks((-head0) as nat) + data, index: 0, offset: head }
        } else {
            TapeView {
                cells: if head0 + 1 > data.len() {
                    data + blanks((head0 + 1 - data.len()) as nat)
                } else {
                    data
                },
                index: head0,
                offset: data_start_at,
            }
        }
    }

    /// The first cell of the part of the tape that is on show where
    /// `symbols` cells are shown on either side of the head.
    pub open spec fn window_start(self, symbols: nat) -> int {
        if self.index >= symbols {
            self.index - symbols
        } else {
            0
        }
    }

    /// The cell after the last of the part of the tape that is on show
    /// where `symbols` cells are shown on either side of the head: the
    /// head's own cell counts as the first on its right.
    pub open spec fn window_end(self, symbols: nat) -> int {
        if self.index + symbols <= self.cells.len() {
            self.index + symbols
        } else {
            self.cells.len() as int
        }
    }

    /// The text of one cell: the symbol, in brackets under the head and
    /// between blanks elsewhere.
    pub open spec fn render_cell(self, i: int) -> Seq<char> {
        if i == self.index {
            seq!['[', self.cells[i], ']']
        } else {
            seq![' ', self.cells[i], ' ']
        }
    }

    /// The text of the first `n` cells.
    pub open spec fn render_cells(self, n: nat) -> Seq<char>
        decreases n,
    {
        if n == 0 {
            Seq::<char>::empty()
        } else {
            self.render_cells((n - 1) as nat) + self.render_cell(n - 1)
        }
    }

    /// The text of the tape.
    pub open spec fn render(self) -> Seq<char> {
        self.render_cells(self.cells.len())
    }
}

/// The tape.
pub struct Tape {
    /// The cells that are held, from left to right.
    data: Vec<char>,
    /// The position of the head, counted from the first cell that is held.
    /// It is kept wider than a length so that a move off the cells held
    /// cannot overflow it.
    index: i128,
    /// What is subtracted from `index` to give the position that `head`
    /// reports. It is kept wider than a position so that growth to the left
    /// cannot overflow it.
    head_offset: i128,
}

impl View for Tape {
    type V = TapeView;

    closed spec fn view(&self) -> TapeView {
        TapeView {
            cells: self.data@,
            index: self.index as int,
            offset: self.head_offset as int,
        }
    }
}

impl Clone for Tape {
    /// A tape of its own with the same cells and the same head.
    fn clone(&self) -> (t: Tape)
        ensures
            t@ == self@,
    {
        let mut data: Vec<char> = Vec::new();
        let mut i: usize = 0;
        while i < self.data.len()
            invariant
                i <= self.data.len(),
                data@ == self.data@.take(i as int),
            decreases self.data.len() - i,
        {
            data.push(self.data[i]);
            i += 1;
        }
        assert(data@ == self.data@);
        Tape { data, index: self.index, head_offset: self.head_offset }
    }
}

/// Appends `n` blank cells to `cells`. The count is wider than a length, so
/// that the distance between any two positions can be asked for.
fn push_blanks(cells: &mut Vec<char>, n: i128)
    requires
        n >= 0,
    ensures
        final(cells)@ == old(cells)@ + blanks(n as nat),
{
    let mut k: i128 = 0;
    while k < n
        invariant
            0 <= k <= n,
            cells@ == old(cells)@ + blanks(k as nat),
        decreases n - k,
    {
        cells.push(SPACE);
        k += 1;
        assert(cells@ =~= old(cells)@ + blanks(k as nat));
    }
}

/// `n` blank cells followed by the cells of `data`.
fn blanks_before(data: &Vec<char>, n: i128) -> (cells: Vec<char>)
    requires
        n >= 0,
    ensures
        cells@ == blanks(n as nat) + data@,
{
    let mut cells: Vec<char> = Vec::new();
    push_blanks(&mut cells, n);
    let mut i: usize = 0;
    while i < data.len()
        invariant
            i <= data.len(),
            cells@ == blanks(n as nat) + data@.take(i as int),
        decreases data.len() - i,
    {
        cells.push(data[i]);
        i += 1;
        assert(cells@ =~= blanks(n as nat) + data@.take(i as int));
    }
    assert(data@.take(i as int) == data@);
    cells
}

impl Tape {
    /// What holds of every tape that `new` has made, whatever was done to it
    /// since.
    pub open spec fn wf(&self) -> bool {
        self@.wf()
    }

    /// The tape that holds `data`, whose first symbol is at position
    /// `data_start_at`, with the head at position `head`. Blank cells are
    /// added so that the head stands on a cell.
    pub fn new(data: Vec<char>, head: isize, data_start_at: isize) -> (t: Tape)
        ensures
            t.wf(),
            t@ == TapeView::new(data@, head as int, data_start_at as int),
    {
        let head0: i128 = head as i128 - data_start_at as i128;
        if head0 == 0 {
            let mut cells = data;
            if cells.len() == 0 {
                cells.push(SPACE);
                assert(cells@ =~= seq![SPACE]);
            }
            Tape { data: cells, index: 0, head_offset: head as i128 }
        } else if head0 < 0 {
            let cells = blanks_before(&data, -head0);
            Tape { data: cells, index: 0, head_offset: head as i128 }
        } else {
            let mut cells = data;
            if head0 + 1 > cells.len() as i128 {
                let missing: i128 = head0 + 1 - cells.len() as i128;
                push_blanks(&mut cells, missing);
            }
            Tape { data: cells, index: head0, head_offset: data_start_at as i128 }
        }
    }

    /// The symbol under the head.
    pub fn read(&self) -> (c: char)
        requires
            self.wf(),
        ensures
            c == self@.read(),
    {
        assert(self.data@.len() == self.data.len());
        self.data[self.index as usize]
    }

    /// Applies `rule`: writes its symbol under the head, moves the head and
    /// adds a blank cell where the head leaves the cells held.
    pub fn apply_rule(&mut self, rule: &Rule)
        requires
            old(self).wf(),
        ensures
            final(self).wf(),
            final(self)@ == old(self)@.apply_rule(*rule),
    {
        self.write(rule.write);
        let target = self.move_head(&rule.mov);
        assert(self.data@.len() == self.data.len());
        self.extend(target);
    }

    /// The position that the tape reports for its head.
    pub fn head(&self) -> (h: isize)
        requires
            self.wf(),
            isize::MIN <= self@.head() <= isize::MAX,
        ensures
            h == self@.head(),
    {
        assert(self.data@.len() == self.data.len());
        (self.index - self.head_offset) as isize
    }

    /// The position of the head, counted from the first cell that is held.
    pub fn index(&self) -> (i: usize)
        requires
            self.wf(),
        ensures
            i == self@.index,
    {
        assert(self.data@.len() == self.data.len());
        self.index as usize
    }

    /// The cells that are held, from left to right.
    pub fn data(&self) -> (d: &Vec<char>)
        ensures
            d@ == self@.cells,
    {
        &self.data
    }

    /// Sets the head to the reported position `head`, adding blank cells
    /// where that is off the cells held.
    pub fn set_head(&mut self, head: isize)
        requires
            old(self).wf(),
        ensures
            final(self).wf(),
            final(self)@ == old(self)@.set_head(head as int),
    {
        assert(self.data@.len() == self.data.len());
        let target: i128 = head as i128 + self.head_offset;
        self.extend(target);
    }

    /// Moves the head to `index`, counted from the first cell held, which may
    /// be off the cells held, and adds just the blank cells that it takes to
    /// hold the cell under the head.
    fn extend(&mut self, index: i128)
        requires
            isize::MIN - old(self)@.cells.len() <= old(self)@.offset <= isize::MAX,
            old(self)@.cells.len() >= 1,
            2 * isize::MIN - old(self)@.cells.len() <= index <= 4 * isize::MAX,
        ensures
            final(self).wf(),
            final(self)@ == (TapeView { index: index as int, ..old(self)@ }).extend(),
    {
        assert(self.data@.len() == self.data.len());
        if index < 0 {
            let cells = blanks_before(&self.data, -index);
            self.data = cells;
            self.head_offset = self.head_offset + index;
            self.index = 0;
        } else if index >= self.data.len() as i128 {
            let missing: i128 = index - self.data.len() as i128 + 1;
            push_blanks(&mut self.data, missing);
            self.index = index;
        } else {
            self.index = index;
        }
    }

    /// Writes `c` under the head.
    fn write(&mut self, c: char)
        requires
            old(self).wf(),
        ensures
            final(self).wf(),
            final(self)@ == old(self)@.write(c),
    {
        assert(self.data@.len() == self.data.len());
        self.data.set(self.index as usize, c);
    }

    /// Where the head stands after the movement `mov`, counted from the first
    /// cell held.
    fn move_head(&self, mov: &Move) -> (index: i128)
        requires
            self.wf(),
        ensures
            index == self@.move_head(*mov).index,
            -1 <= index <= self@.cells.len(),
    {
        assert(self.data@.len() == self.data.len());
        match mov {
            Move::Right => self.index + 1,
            Move::Left => self.index - 1,
            Move::Stop => self.index,
        }
    }

    /// The part of the tape that is on show where `symbols` cells are shown
    /// on either side of the head: its first cell and the cell after its
    /// last, both counted from the first cell that is held.
    pub fn window(&self, symbols: usize) -> (w: (usize, usize))
        requires
            self.wf(),
        ensures
            w.0 == self@.window_start(symbols as nat),
            w.1 == self@.window_end(symbols as nat),
            w.0 <= self@.index < self@.cells.len(),
            w.0 <= w.1 <= self@.cells.len(),
    {
        let index = self.index();
        let len = self.data.len();
        let start = if index >= symbols {
            index - symbols
        } else {
            0
        };
        let end = if symbols <= len - index {
            index + symbols
        } else {
            len
        };
        (start, end)
    }

    /// The tape that holds `text`, without the white space around it, with
    /// the head on its first symbol, at position zero.
    pub fn from_str(text: &str) -> (r: Result<Tape, ()>)
        ensures
            r is Ok,
            r->Ok_0.wf(),
            r->Ok_0@ == TapeView::new(trim(text@), 0, 0),
    {
        let chars = to_chars(text);
        Ok(Tape::new(trimmed(&chars), 0, 0))
    }

    /// The tape as text: each cell's symbol, in brackets under the head and
    /// between blanks elsewhere.
    pub fn to_string(&self) -> (s: String)
        requires
            self.wf(),
        ensures
            s@ == self@.render(),
    {
        let mut out: Vec<char> = Vec::new();
        let mut i: usize = 0;
        while i < self.data.len()
            invariant
                i <= self.data.len(),
                out@ == self@.render_cells(i as nat),
            decreases self.data.len() - i,
        {
            if i as i128 == self.index {
                out.push('[');
                out.push(self.data[i]);
                out.push(']');
            } else {
                out.push(' ');
                out.push(self.data[i]);
                out.push(' ');
            }
            assert(out@ =~= self@.render_cells(i as nat) + self@.render_cell(i as int));
            i += 1;
        }
        to_string(&out)
    }
}

/// Why a text does not describe a tape.
#[derive(Copy, Clone, PartialEq, Eq, Debug, Structural)]
pub enum TapeTextError {
    /// The text has no line for the symbols of the tape.
    TapeNotFound,
    /// The text has no second line for the position of the head.
    StartNotFound,
    /// The second line is not a whole number within `isize`.
    InvalidStart,
}

impl TapeTextError {
    /// What is reported to the user for this error.
    pub open spec fn message(self) -> Seq<char> {
        match self {
            TapeTextError::TapeNotFound => "Tape doesnt found"@,
            TapeTextError::StartNotFound => "Start position doesnt found"@,
            TapeTextError::InvalidStart => "Invalid start position"@,
        }
    }

    /// The error in words.
    pub fn to_string(&self) -> (s: String)
        ensures
            s@ == self.message(),
    {
        match self {
            TapeTextError::TapeNotFound => "Tape doesnt found".to_string(),
            TapeTextError::StartNotFound => "Start position doesnt found".to_string(),
            TapeTextError::InvalidStart => "Invalid start position".to_string(),
        }
    }
}

/// The tape that `text` describes: its first line holds the symbols of the
/// tape, the first of them at position zero; its second line holds the
/// position of the head, a whole number with an optional sign.
pub open spec fn parse_tape(text: Seq<char>) -> Result<TapeView, TapeTextError> {
    let all = lines(text);
    if all.len() == 0 {
        Err(TapeTextError::TapeNotFound)
    } else if all.len() == 1 {
        Err(TapeTextError::StartNotFound)
    } else {
        match parse_signed(all[1], isize::MIN as int, isize::MAX as int) {
            None => Err(TapeTextError::InvalidStart),
            Some(head) => Ok(TapeView::new(all[0], head, 0)),
        }
    }
}

/// Reads a tape from `text`: the symbols on the first line, the position of
/// the head on the second.
pub fn string_to_tape(text: &str) -> (r: Result<Tape, TapeTextError>)
    ensures
        match r {
            Ok(tape) => tape.wf() && parse_tape(text@) == Ok::<TapeView, TapeTextError>(tape@),
            Err(e) => parse_tape(text@) == Err::<TapeView, TapeTextError>(e),
        },
{
    let chars = to_chars(text);
    let mut all = split_lines(&chars);
    if all.len() == 0 {
        return Err(TapeTextError::TapeNotFound);
    }
    if all.len() == 1 {
        return Err(TapeTextError::StartNotFound);
    }
    assert(views(all@)[0] == all@[0]@);
    assert(views(all@)[1] == all@[1]@);
    match read_isize(&all[1]) {
        None => Err(TapeTextError::InvalidStart),
        Some(head) => {
            let data = all.swap_remove(0);
            Ok(Tape::new(data, head, 0))
        },
    }
}

/// A new tape shows `data` at the positions it was given for, seen from the
/// head, and blanks everywhere else.
pub proof fn lemma_new_at(data: Seq<char>, head: int, data_start_at: int, rel: int)
    requires
        isize::MIN <= head <= isize::MAX,
        isize::MIN <= data_start_at <= isize::MAX,
    ensures
        TapeView::new(data, head, data_start_at).wf(),
        TapeView::new(data, head, data_start_at).at(rel) == if 0 <= head - data_start_at + rel
            < data.len() {
            data[head - data_start_at + rel]
        } else {
            SPACE
        },
{
}

/// Writing changes the cell under the head and no other.
pub proof fn lemma_write_at(v: TapeView, c: char, rel: int)
    requires
        v.wf(),
    ensures
        v.write(c).wf(),
        v.write(c).at(rel) == if rel == 0 {
            c
        } else {
            v.at(rel)
        },
{
}

/// Applying a rule leaves the head on a cell that is held, and shifts what is
/// seen from the head by the rule's movement: growth of the cells held, on
/// either side, changes no symbol of the tape.
pub proof fn lemma_apply_rule_at(v: TapeView, rule: Rule, rel: int)
    requires
        v.wf(),
    ensures
        v.apply_rule(rule).wf(),
        v.apply_rule(rule).at(rel) == v.write(rule.write).at(rel + rule.mov.delta()),
{
}

/// Setting the head leaves it on a cell that is held and changes no symbol
/// of the tape: what is seen from the new head is what was seen from the old
/// one, shifted by the distance between the two.
pub proof fn lemma_set_head_at(v: TapeView, head: int, rel: int)
    requires
        v.wf(),
    ensures
        v.set_head(head).wf(),
        v.set_head(head).at(rel) == v.at(head + v.offset - v.index + rel),
{
}

/// A cell that the head reaches for the first time, beyond either end of
/// the cells held, reads as blank.
pub proof fn lemma_fresh_cell_is_blank(v: TapeView, rule: Rule)
    requires
        v.wf(),
        v.index + rule.mov.delta() < 0 || v.index + rule.mov.delta() >= v.cells.len(),
    ensures
        v.apply_rule(rule).read() == SPACE,
{
}

/// Cells are added only where the head leaves the cells held, and then
/// exactly as many as it takes to hold the cell under the head.
pub proof fn lemma_growth_is_minimal(v: TapeView, rule: Rule)
    requires
        v.wf(),
    ensures
        v.apply_rule(rule).cells.len() == if 0 <= v.index + rule.mov.delta() < v.cells.len() {
            v.cells.len()
        } else {
            v.cells.len() + 1
        },
{
}

/// A new tape whose symbols start at position zero, with the head at a
/// position that is not negative, reports that position for its head.
pub proof fn lemma_new_head(data: Seq<char>, head: int)
    requires
        head >= 0,
    ensures
        TapeView::new(data, head, 0).head() == head,
{
}

/// While the head stays on or right of the first cell held, the position
/// that the tape reports follows the rule's movement, whether or not cells
/// are added on the right.
pub proof fn lemma_apply_rule_head(v: TapeView, rule: Rule)
    requires
        v.wf(),
        v.index + rule.mov.delta() >= 0,
    ensures
        v.apply_rule(rule).head() == v.head() + rule.mov.delta(),
{
}

/// Setting the head to a position on or right of the first cell held makes
/// the tape report that position, whether or not cells are added on the
/// right.
pub proof fn lemma_set_head_head(v: TapeView, head: int)
    requires
        v.wf(),
        head + v.offset >= 0,
    ensures
        v.set_head(head).head() == head,
{
}

/// One change of a tape.
pub enum TapeOp {
    /// A rule is applied.
    Apply(Rule),
    /// The head is set to a position.
    SetHead(int),
}

impl TapeOp {
    /// The tape `v` after the change.
    pub open spec fn run(self, v: TapeView) -> TapeView {
        match self {
            TapeOp::Apply(rule) => v.apply_rule(rule),
            TapeOp::SetHead(head) => v.set_head(head),
        }
    }

    /// Where the head is after the change, if it was at `head` before: moved
    /// by the rule's movement, or at the position that it was set to.
    pub open spec fn target(self, head: int) -> int {
        match self {
            TapeOp::Apply(rule) => head + rule.mov.delta(),
            TapeOp::SetHead(to) => to,
        }
    }

    /// Whether the change leaves the head of `v` on or right of the first
    /// cell that `v` holds.
    pub open spec fn stays(self, v: TapeView) -> bool {
        match self {
            TapeOp::Apply(rule) => v.index + rule.mov.delta() >= 0,
            TapeOp::SetHead(head) => head + v.offset >= 0,
        }
    }
}

/// The tape `v` after the changes `ops`, one after the other.
pub open spec fn run_all(v: TapeView, ops: Seq<TapeOp>) -> TapeView
    decreases ops.len(),
{
    if ops.len() == 0 {
        v
    } else {
        ops.last().run(run_all(v, ops.drop_last()))
    }
}

/// Where the head is after the changes `ops`, if it was at `head` before.
pub open spec fn target_all(head: int, ops: Seq<TapeOp>) -> int
    decreases ops.len(),
{
    if ops.len() == 0 {
        head
    } else {
        ops.last().target(target_all(head, ops.drop_last()))
    }
}

/// Whether none of the changes `ops` takes the head of `v` left of the
/// first cell held at that time.
pub open spec fn stays_all(v: TapeView, ops: Seq<TapeOp>) -> bool
    decreases ops.len(),
{
    ops.len() > 0 ==> stays_all(v, ops.drop_last()) && ops.last().stays(
        run_all(v, ops.drop_last()),
    )
}

/// Through any run of rules applied and heads set that never takes the head
/// left of the first cell held, the position that the tape reports is the
/// one that the movements and settings imply, however many cells were added
/// on the right.
pub proof fn lemma_head_follows(v: TapeView, ops: Seq<TapeOp>)
    requires
        v.wf(),
        stays_all(v, ops),
    ensures
        run_all(v, ops).wf(),
        run_all(v, ops).head() == target_all(v.head(), ops),
    decreases ops.len(),
{
    if ops.len() > 0 {
        lemma_head_follows(v, ops.drop_last());
    }
}

/// Through any run of rules applied and heads set, the head stands on a
/// cell that is held.
pub proof fn lemma_run_wf(v: TapeView, ops: Seq<TapeOp>)
    requires
        v.wf(),
    ensures
        run_all(v, ops).wf(),
    decreases ops.len(),
{
    if ops.len() > 0 {
        lemma_run_wf(v, ops.drop_last());
    }
}

} // verus!
