//! A rule of the machine: what to write, where to move, which state comes next.
use crate::decimal::{
    decimal, lemma_decimal_is_number, lemma_parse_decimal, parse_unsigned, push_decimal,
    read_digits,
};
use crate::text::{to_chars, to_string};
use vstd::prelude::*;

verus! {

/// The number of a state of the machine.
pub type RuleState = u32;

/// Where the head goes once a rule has written its symbol.
#[derive(Copy, Clone, PartialEq, Eq, Debug, Structural)]
pub enum Move {
    /// One cell to the right.
    Right,
    /// One cell to the left.
    Left,
    /// Nowhere: the machine halts.
    Stop,
}

/// Why a text is not a rule.
#[derive(Copy, Clone, PartialEq, Eq, Debug, Structural)]
pub enum RuleParseError {
    /// There is no symbol, or what follows the symbol is no movement marker.
    InvalidRule,
    /// Nothing follows the symbol.
    InvalidMove,
    /// What follows the movement marker is not the number of a state.
    InvalidState,
}

/// One entry of the machine's table.
#[derive(Copy, Clone, PartialEq, Eq, Debug, Structural)]
pub struct Rule {
    /// The symbol that is written to the cell under the head.
    pub write: char,
    /// The movement of the head after writing.
    pub mov: Move,
    /// The state that the machine is in afterwards.
    pub next_state: RuleState,
}

impl Move {
    /// The character that stands for this movement in a rule's text.
    pub open spec fn marker(self) -> char {
        match self {
            Move::Right => '>',
            Move::Left => '<',
            Move::Stop => '!',
        }
    }

    /// The movement that the character `c` stands for, if it stands for one.
    pub open spec fn of_marker(c: char) -> Option<Move> {
        if c == '>' {
            Some(Move::Right)
        } else if c == '<' {
            Some(Move::Left)
        } else if c == '!' {
            Some(Move::Stop)
        } else {
            None
        }
    }

    /// By how many cells this movement shifts the head to the right.
    pub open spec fn delta(self) -> int {
        match self {
            Move::Right => 1,
            Move::Left => -1,
            Move::Stop => 0,
        }
    }

    /// Whether the machine halts after a rule with this movement.
    pub fn is_terminal(&self) -> (b: bool)
        ensures
            b == (*self == Move::Stop),
    {
        match self {
            Move::Stop => true,
            _ => false,
        }
    }

    /// The character that stands for this movement in a rule's text.
    pub fn symbol(&self) -> (c: char)
        ensures
            c == self.marker(),
    {
        match self {
            Move::Right => '>',
            Move::Left => '<',
            Move::Stop => '!',
        }
    }

    /// The movement's marker as a text of its own.
    pub fn to_string(&self) -> (s: String)
        ensures
            s@ == seq![self.marker()],
    {
        let mut out: Vec<char> = Vec::new();
        out.push(self.symbol());
        to_string(&out)
    }
}

impl RuleParseError {
    /// What is reported to the user for this error.
    pub open spec fn message(self) -> Seq<char> {
        match self {
            RuleParseError::InvalidRule => "Invalid rule"@,
            RuleParseError::InvalidMove => "Invalid move"@,
            RuleParseError::InvalidState => "Invalid state"@,
        }
    }

    /// The error in words.
    pub fn to_string(&self) -> (s: String)
        ensures
            s@ == self.message(),
    {
        match self {
            RuleParseError::InvalidRule => "Invalid rule".to_string(),
            RuleParseError::InvalidMove => "Invalid move".to_string(),
            RuleParseError::InvalidState => "Invalid state".to_string(),
        }
    }
}

/// The rule that the text `s` denotes: a symbol, a movement marker and the
/// number of the next state, with nothing between them; or the reason why `s`
/// denotes none.
pub open spec fn parse_rule(s: Seq<char>) -> Result<Rule, RuleParseError> {
    if s.len() == 0 {
        Err(RuleParseError::InvalidRule)
    } else if s.len() == 1 {
        Err(RuleParseError::InvalidMove)
    } else {
        match Move::of_marker(s[1]) {
            None => Err(RuleParseError::InvalidRule),
            Some(mov) => match parse_unsigned(s.skip(2), u32::MAX as nat) {
                None => Err(RuleParseError::InvalidState),
                Some(n) => Ok(Rule { write: s[0], mov, next_state: n as u32 }),
            },
        }
    }
}

/// The text of the rule `r`: its symbol, its movement marker and the number
/// of its next state in decimal notation.
pub open spec fn render_rule(r: Rule) -> Seq<char> {
    seq![r.write, r.mov.marker()] + decimal(r.next_state as nat)
}

impl Rule {
    /// The rule that writes `write`, moves by `mov` and goes on in `next_state`.
    pub fn new(write: char, mov: Move, next_state: RuleState) -> (r: Rule)
        ensures
            r == (Rule { write, mov, next_state }),
    {
        Rule { write, mov, next_state }
    }

    /// The symbol that the rule writes.
    pub fn write(&self) -> (c: char)
        ensures
            c == self.write,
    {
        self.write
    }

    /// The movement that the rule makes.
    pub fn mov(&self) -> (m: Move)
        ensures
            m == self.mov,
    {
        self.mov
    }

    /// The state that the rule leads to.
    pub fn next_state(&self) -> (s: RuleState)
        ensures
            s == self.next_state,
    {
        self.next_state
    }

    /// Reads a rule from the characters `v`.
    pub fn parse(v: &Vec<char>) -> (r: Result<Rule, RuleParseError>)
        ensures
            r == parse_rule(v@),
    {
        if v.len() == 0 {
            return Err(RuleParseError::InvalidRule);
        }
        if v.len() == 1 {
            return Err(RuleParseError::InvalidMove);
        }
        let marker = v[1];
        let mov = if marker == '>' {
            Move::Right
        } else if marker == '<' {
            Move::Left
        } else if marker == '!' {
            Move::Stop
        } else {
            return Err(RuleParseError::InvalidRule);
        };
        let start: usize = if v.len() > 2 && v[2] == '+' {
            3
        } else {
            2
        };
        proof {
            assert(v@.subrange(2, v.len() as int) == v@.skip(2));
            if v.len() > 2 {
                assert(v@.subrange(3, v.len() as int) == v@.skip(2).drop_first());
            }
        }
        match read_digits(v, start, 0xFFFF_FFFF) {
            Some(n) => Ok(Rule { write: v[0], mov, next_state: n as u32 }),
            None => Err(RuleParseError::InvalidState),
        }
    }

    /// Reads a rule from the text `s`.
    pub fn from_str(s: &str) -> (r: Result<Rule, RuleParseError>)
        ensures
            r == parse_rule(s@),
    {
        let v = to_chars(s);
        Rule::parse(&v)
    }

    /// Appends the rule's text to `out`.
    pub fn render(&self, out: &mut Vec<char>)
        ensures
            final(out)@ == old(out)@ + render_rule(*self),
    {
        out.push(self.write);
        out.push(self.mov.symbol());
        push_decimal(out, self.next_state as u64);
        assert(out@ =~= old(out)@ + render_rule(*self));
    }

    /// The rule's text.
    pub fn to_string(&self) -> (s: String)
        ensures
            s@ == render_rule(*self),
    {
        let mut out: Vec<char> = Vec::new();
        self.render(&mut out);
        to_string(&out)
    }
}

/// Reading a rule's text gives the rule back.
pub proof fn lemma_parse_render_rule(r: Rule)
    ensures
        parse_rule(render_rule(r)) == Ok::<Rule, RuleParseError>(r),
{
    let s = render_rule(r);
    lemma_decimal_is_number(r.next_state as nat);
    lemma_parse_decimal(r.next_state as nat, u32::MAX as nat);
    assert(s.skip(2) =~= decimal(r.next_state as nat));
    assert(s[0] == r.write);
    assert(s[1] == r.mov.marker());
    assert(Move::of_marker(r.mov.marker()) == Some(r.mov));
}

/// Writing a rule, reading it and writing what was read gives the same text
/// as writing it once.
pub proof fn lemma_render_parse_render_rule(r: Rule)
    ensures
        parse_rule(render_rule(r)) is Ok,
        render_rule(parse_rule(render_rule(r))->Ok_0) == render_rule(r),
{
    lemma_parse_render_rule(r);
}

/// Which text fails with which error: the empty text is no rule; a single
/// character lacks its movement; a second character that is no movement
/// marker makes the text no rule; and after a movement marker anything but
/// the number of a state is an invalid state.
pub proof fn lemma_rule_errors(s: Seq<char>)
    ensures
        s.len() == 0 ==> parse_rule(s) == Err::<Rule, RuleParseError>(RuleParseError::InvalidRule),
        s.len() == 1 ==> parse_rule(s) == Err::<Rule, RuleParseError>(RuleParseError::InvalidMove),
        s.len() >= 2 && s[1] != '>' && s[1] != '<' && s[1] != '!' ==> parse_rule(s) == Err::<
            Rule,
            RuleParseError,
        >(RuleParseError::InvalidRule),
        s.len() >= 2 && (s[1] == '>' || s[1] == '<' || s[1] == '!') && parse_unsigned(
            s.skip(2),
            u32::MAX as nat,
        ) is None ==> parse_rule(s) == Err::<Rule, RuleParseError>(RuleParseError::InvalidState),
        parse_rule(s) is Ok <==> s.len() >= 2 && Move::of_marker(s[1]) is Some && parse_unsigned(
            s.skip(2),
            u32::MAX as nat,
        ) is Some,
{
}

} // verus!
