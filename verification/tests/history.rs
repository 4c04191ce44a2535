use lr2::{AppState, History, Move, Rule, Ruleset, Session, Tape, Transition, Turing, TuringError, RulesetError};

fn step(n: u32) -> Transition {
    Transition::new(n, Tape::new("ab".chars().collect(), 0, 0), Rule::new('x', Move::Right, n + 1))
}

fn history_of(n: u32, offset: usize, follow: bool) -> History {
    History::new((0..n).map(step).collect(), offset, follow)
}

#[test]
fn history_add_appends_and_counts() {
    let mut history = history_of(0, 0, true);
    assert_eq!(history.len(), 0);
    assert_eq!(history.add(step(7)), 1);
    assert_eq!(history.add(step(8)), 2);
    assert_eq!(history.len(), 2);
    assert_eq!(*history.storage()[0].state(), 7);
    assert_eq!(*history.storage()[1].state(), 8);
    assert_eq!(history.offset(), 0);
    assert!(history.follow());
}

#[test]
fn scroll_up_leaves_following_two_steps_before_the_end() {
    let mut history = history_of(10, 0, true);
    history.scroll_up();
    assert!(!history.follow());
    assert_eq!(history.offset(), 8);
    history.scroll_up();
    assert_eq!(history.offset(), 7);
    let mut short = history_of(1, 5, true);
    short.scroll_up();
    assert_eq!(short.offset(), 0);
    short.scroll_up();
    assert_eq!(short.offset(), 0);
    assert!(!short.follow());
}

#[test]
fn scroll_down_follows_again_at_the_newest_step() {
    let mut history = history_of(3, 0, false);
    history.scroll_down();
    assert_eq!((history.offset(), history.follow()), (1, false));
    history.scroll_down();
    assert_eq!((history.offset(), history.follow()), (2, false));
    history.scroll_down();
    assert_eq!((history.offset(), history.follow()), (2, true));
    history.scroll_down();
    assert_eq!((history.offset(), history.follow()), (2, true));
    let mut beyond = history_of(3, 9, false);
    beyond.scroll_down();
    assert_eq!((beyond.offset(), beyond.follow()), (2, false));
}

#[test]
fn window_shows_the_newest_steps_while_following() {
    assert_eq!(history_of(10, 3, true).window(4), (6, 4));
    assert_eq!(history_of(3, 0, true).window(4), (0, 3));
    assert_eq!(history_of(0, 0, true).window(4), (0, 0));
    assert_eq!(history_of(10, 3, true).window(0), (10, 0));
}

#[test]
fn window_shows_from_the_offset_without_following() {
    assert_eq!(history_of(10, 3, false).window(4), (3, 4));
    assert_eq!(history_of(10, 8, false).window(4), (8, 2));
    assert_eq!(history_of(10, 10, false).window(4), (10, 0));
}

fn machine(text: &str, state: u32) -> Turing {
    let rules = Ruleset::from_str("| | 0 | 1 |\n|---|---|---|\n| a | a>0 | a!0 |\n| b | b>1 | b<1 |").unwrap();
    Turing::new(Tape::new(text.chars().collect(), 0, 0), state, rules)
}

#[test]
fn session_steps_until_the_machine_stops() {
    let mut session = Session::new(machine("aaba", 0));
    assert!(session.is_running());
    assert_eq!(session.history().len(), 0);
    assert!(session.history().follow());
    let mut states = Vec::new();
    while session.is_running() {
        let transition = session.next_step().unwrap();
        states.push(*transition.state());
    }
    assert_eq!(states, vec![0, 0, 0, 1]);
    assert_eq!(session.history().len(), 4);
    assert!(session.history().storage()[3].rule().mov().is_terminal());
    assert_eq!(session.turing().state(), 0);
    assert_eq!(session.turing().tape().index(), 3);
}

#[test]
fn session_ends_when_the_machine_is_stuck() {
    let mut session = Session::new(machine("a_", 0));
    assert!(session.next_step().is_ok());
    assert!(session.is_running());
    let error = session.next_step().err().unwrap();
    assert_eq!(error, TuringError::RuleNotFound { rule_error: RulesetError::RuleNotFound { state: 0, symbol: '_' } });
    assert!(!session.is_running());
    assert_eq!(session.history().len(), 1);
    assert_eq!(session.turing().state(), 0);
    assert_eq!(session.turing().tape().index(), 1);
}

#[test]
fn session_ends_with_the_step_after_the_thousandth() {
    let text: String = std::iter::repeat('a').take(1200).collect();
    let mut session = Session::new(machine(&text, 0));
    let mut steps = 0;
    while session.is_running() {
        session.next_step().unwrap();
        steps += 1;
    }
    assert_eq!(steps, 1001);
    assert_eq!(session.history().len(), 1001);
}

#[test]
fn session_quit_and_scroll() {
    let mut session = Session::new(machine("aaaa", 0));
    session.next_step().unwrap();
    session.next_step().unwrap();
    session.next_step().unwrap();
    session.scroll_up();
    assert_eq!((session.history().offset(), session.history().follow()), (1, false));
    session.scroll_down();
    session.scroll_down();
    assert_eq!((session.history().offset(), session.history().follow()), (2, true));
    assert!(session.is_running());
    session.quit();
    assert!(!session.is_running());
    assert_eq!(AppState::default(), AppState::Running);
}

#[test]
fn tape_window_is_cut_at_the_ends() {
    let tape = Tape::new("0123456789".chars().collect(), 5, 0);
    assert_eq!(tape.window(3), (2, 8));
    assert_eq!(tape.window(5), (0, 10));
    assert_eq!(tape.window(20), (0, 10));
    assert_eq!(tape.window(0), (5, 5));
    assert_eq!(tape.window(usize::MAX), (0, 10));
    let left = Tape::new("0123456789".chars().collect(), 1, 0);
    assert_eq!(left.window(3), (0, 4));
}
