use lr2::{Move, Rule, Ruleset, RulesetError, Tape, Transition, Turing, TuringError};

const RULES: &str = "\
|  | 0 | 1 | 2 | 3 | 4 | 5 | 6 | 7 | 8 | 9 | 10 |
| :--- | :--- | :--- | :--- | :--- | :--- | :--- | :--- | :--- | :--- | :--- | :--- |
| 1 | 5<0 | 6<0 | 7<0 | 8<0 | 9<0 | 0<6 | 1<6 | 2>8 | 1>8 | 1>8 | 1!0 |
| 2 | 0<1 | 1<1 | 2<1 | 3<1 | 4<1 | 1<6 | 2<6 | 3>8 | 2>8 | 2>8 | 2!0 |
| 3 | 5<1 | 6<1 | 7<1 | 8<1 | 9<1 | 2<6 | 3<6 | 4>8 | 3>8 | 3>8 | 3!0 |
| 4 | 0<2 | 1<2 | 2<2 | 3<2 | 4<2 | 3<6 | 4<6 | 5>8 | 4>8 | 4>8 | 4!0 |
| 5 | 5<2 | 6<2 | 7<2 | 8<2 | 9<2 | 4<6 | 5<6 | 6>8 | 5>8 | 5>8 | 5!0 |
| 6 | 0<3 | 1<3 | 2<3 | 3<3 | 4<3 | 5<6 | 6<6 | 7>8 | 6>8 | 6>8 | 6!0 |
| 7 | 5<3 | 6<3 | 7<3 | 8<3 | 9<3 | 6<6 | 7<6 | 8>8 | 7>8 | 7>8 | 7!0 |
| 8 | 0<4 | 1<4 | 2<4 | 3<4 | 4<4 | 7<6 | 8<6 | 9>8 | 8>8 | 8>8 | 8!0 |
| 9 | 5<4 | 6<4 | 7<4 | 8<4 | 9<4 | 8<6 | 9<6 | 0<7 | 9>8 | 9>8 | 9!0 |
| 0 | 0<0 | 1<0 | 2<0 | 3<0 | 4<0 | 9<5 | 0<6 | 1>8 | 0>8 | +>9 | 0!0 |
| + | +!0 | +!0 | +!0 | +!0 | +!0 | _<10 | +<7 | +<7 | +>9 | +>9 | _<10 |
| _ | _>8 | 1<0 | 2<0 | 3<0 | 4<0 | _!0 | _!0 | 1>8 | _<5 | _<5 | _!0 |\
";

#[test]
fn test_turing() {
    // calculating 5x+y. On the tape in writes as "x+y"
    let rules = Ruleset::from_str(RULES).expect("Invalid ruleset");
    let tape = Tape::new("123+19".chars().collect(), 2, 0);
    let mut turing = Turing::new(tape, 0, rules);
    let mut limit = 1000;
    while limit > 0 {
        let transition = turing.next_transition().expect("Error in transition");
        turing.apply_transition(&transition);
        if transition.rule().mov().is_terminal() {
            break;
        }
        limit -= 1;
    }
    let tape = turing.tape();
    assert_eq!(tape.data().iter().collect::<String>(), "_634____");
    assert_eq!(limit, 1000 - 170);
}

#[test]
fn the_table_for_the_run_reads_back_from_its_own_text() {
    let rules = Ruleset::from_str(RULES).unwrap();
    assert_eq!(rules.states().len(), 11);
    assert_eq!(rules.alphabet().len(), 12);
    let again = Ruleset::from_str(&rules.to_string()).unwrap();
    assert_eq!(rules, again);
}

fn small_machine(tape: &str, head: isize, state: u32) -> Turing {
    let rules = Ruleset::from_str("| | 0 | 1 |\n|---|---|---|\n| a | b>1 | a!0 |\n| b | b<0 | a>1 |").unwrap();
    Turing::new(Tape::new(tape.chars().collect(), head, 0), state, rules)
}

#[test]
fn next_transition_snapshots_the_machine() {
    let mut turing = small_machine("ab", 0, 0);
    let transition = turing.next_transition().unwrap();
    assert_eq!(*transition.state(), 0);
    assert_eq!(*transition.rule(), Rule::new('b', Move::Right, 1));
    assert_eq!(transition.tape().data().iter().collect::<String>(), "ab");
    assert_eq!(transition.tape().index(), 0);
    assert_eq!(turing.state(), 0);
    assert_eq!(turing.tape().data().iter().collect::<String>(), "ab");
    assert_eq!(turing.tape().index(), 0);
    turing.apply_transition(&transition);
    assert_eq!(turing.state(), 1);
    assert_eq!(turing.tape().data().iter().collect::<String>(), "bb");
    assert_eq!(turing.tape().index(), 1);
    assert_eq!(transition.tape().data().iter().collect::<String>(), "ab");
    assert_eq!(transition.tape().index(), 0);
    let copy = transition.clone();
    assert_eq!(*copy.state(), 0);
    assert_eq!(*copy.rule(), Rule::new('b', Move::Right, 1));
    assert_eq!(copy.tape().data().iter().collect::<String>(), "ab");
}

#[test]
fn a_machine_without_a_rule_is_stuck_and_stays_as_it_is() {
    let turing = small_machine("ab", 2, 1);
    let error = turing.next_transition().err().unwrap();
    assert_eq!(error, TuringError::RuleNotFound { rule_error: RulesetError::RuleNotFound { state: 1, symbol: '_' } });
    assert_eq!(error.to_string(), "Rule not found: Rule for state \"1\" and symbol \"_\" not found");
    assert_eq!(turing.state(), 1);
    assert_eq!(turing.tape().data().iter().collect::<String>(), "ab_");
    assert_eq!(turing.tape().index(), 2);
    let unknown_state = small_machine("ab", 0, 9);
    assert_eq!(
        unknown_state.next_transition().err().unwrap(),
        TuringError::RuleNotFound { rule_error: RulesetError::RuleNotFound { state: 9, symbol: 'a' } }
    );
    assert_eq!(unknown_state.state(), 9);
}

#[test]
fn a_stop_rule_is_a_step_like_any_other() {
    let mut turing = small_machine("a", 0, 1);
    let transition = turing.next_transition().unwrap();
    assert!(transition.rule().mov().is_terminal());
    turing.apply_transition(&transition);
    assert_eq!(turing.state(), 0);
    assert_eq!(turing.tape().index(), 0);
    assert_eq!(turing.ruleset().states().len(), 2);
}

#[test]
fn transition_report_is_exact() {
    let transition = Transition::new(3, Tape::new("1+2".chars().collect(), 1, 0), Rule::new('x', Move::Left, 10));
    assert_eq!(
        transition.report(7),
        "=============== Step: 7 ===============\nTape:\t 1 [+] 2 \nState:\t\t3\tReplace:\tx\nNext state:\t10\tMove:\t\t<\n"
    );
}
