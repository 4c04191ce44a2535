//! A Turing machine with one tape and one head: the tape, the rules, the
//! table of rules with its text form, and the machine that steps through
//! them.
pub mod decimal;
pub mod history;
pub mod reader;
pub mod round_trip;
pub mod rule;
pub mod ruleset;
pub mod session;
pub mod table;
pub mod tape;
pub mod text;
pub mod transition;
pub mod turing;
pub mod writer;

pub use rule::{Move, Rule, RuleParseError, RuleState};
pub use history::History;
pub use ruleset::{Ruleset, RulesetError, RulesetParseError};
pub use session::{AppState, Session};
pub use tape::{string_to_tape, Tape, TapeTextError, SPACE};
pub use transition::Transition;
pub use turing::{Turing, TuringError};
