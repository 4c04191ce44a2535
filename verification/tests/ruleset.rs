use lr2::{Move, Rule, Ruleset, RulesetError, RulesetParseError};
use std::collections::HashMap;

fn check_ruleset(ruleset: Ruleset) {
    assert_eq!(ruleset.rules().len(), 4);
    assert_eq!(*ruleset.alphabet(), vec!['a', 'b']);
    assert_eq!(ruleset.find(&0, &'a').unwrap(), Rule::new('a', Move::Right, 1));
    assert_eq!(ruleset.find(&0, &'a').unwrap(), Rule::new('a', Move::Right, 1));
    assert_eq!(ruleset.find(&0, &'b').unwrap(), Rule::new('_', Move::Left, 1));
    assert_eq!(ruleset.find(&1, &'a').unwrap(), Rule::new('a', Move::Left, 2));
    assert_eq!(ruleset.find(&1, &'b').unwrap(), Rule::new('a', Move::Right, 2));
    assert_eq!(ruleset.find(&2, &'a').unwrap(), Rule::new('b', Move::Right, 3));
    assert_eq!(ruleset.find(&2, &'b').unwrap(), Rule::new('a', Move::Left, 3));
    assert_eq!(ruleset.find(&3, &'a').unwrap(), Rule::new('a', Move::Left, 0));
    assert_eq!(ruleset.find(&3, &'b').unwrap(), Rule::new('a', Move::Stop, 0));
    assert_eq!(ruleset.find(&4, &'b').unwrap_err(), RulesetError::RuleNotFound { state: 4, symbol: 'b' });
    assert_eq!(ruleset.find(&1, &'c').unwrap_err(), RulesetError::RuleNotFound { state: 1, symbol: 'c' });
}

#[test]
fn test_ruleset_from_str_with_separator1() {
    let ruleset =
"|   | 0     | 1     | 2     | 3   |
 |:-:|:-:    | :---: |:-:    |:-:  |
 | a | a>1   | a<2   | b>3   | a<0 |
 | b | _<1   | a>2   | a<3   | a!0 |";
    check_ruleset(Ruleset::from_str(ruleset).unwrap())
}

#[test]
fn test_ruleset_from_str_with_separator2() {
    let ruleset =
"|   | 0     | 1     | 2     | 3   |
 |---|---    | --- |---    |---  |
 | a | a>1   | a<2   | b>3   | a<0 |
 | b | _<1   | a>2   | a<3   | a!0 |";
    check_ruleset(Ruleset::from_str(ruleset).unwrap())
}

#[test]
fn test_ruleset_from_str_with_extra_col() {
    let ruleset =
"|   | 0     | 1     | 2     | 3   |
 |---|---    | --- |---    |---  |
 | a | a>1   | a<2   | b>3   | a<0 | a<0 |
 | b | _<1   | a>2   | a<3   | a!0 |";
    check_ruleset(Ruleset::from_str(ruleset).unwrap())
}

#[test]
fn test_ruleset_from_str_without_col() {
    let ruleset =
"|   | 0     | 1     | 2     | 3   |
 |---|---    | --- |---    |---  |
 | a | a>1   | a<2   | b>3   |
 | b | _<1   | a>2   | a<3   | a!0 |";
    assert_eq!(Ruleset::from_str(ruleset).unwrap_err(), RulesetParseError::InvalidFormat { row: 1, col: 3 })
}

#[test]
fn test_ruleset_serde() {
    let ruleset =
"|   | 0     | 1     | 2     | 3   |
 |---|---    | --- |---    |---  |
 | a | a>1   | a<2   | b>3   | a<0 |
 | b | _<1   | a>2   | a<3   | a!0 |";
    let ruleset = Ruleset::from_str(ruleset).unwrap();
    let out = ruleset.to_string();
    check_ruleset(Ruleset::from_str(&out).unwrap())
}

#[test]
fn test_ruleset_from_str_without_separator() {
    let ruleset =
"|   | 0     | 1     | 2     | 3   |
 | a | a>1   | a<2   | b>3   | a<0 |
 | b | _<1   | a>2   | a<3   | a!0 |";
    check_ruleset(Ruleset::from_str(ruleset).unwrap())
}

#[test]
fn test_ruleset_with_error() {
    let ruleset =
        "|   | 0     | 1     | 2     | 1   |";
    assert_eq!(Ruleset::from_str(ruleset).unwrap_err(), RulesetParseError::DuplicateState { state: 1 });
    let ruleset =
        "|   | 0     | 1     | 2     | 3   |
             | a | aa1   | a<2   | b>3   | a<0 | a<0 |";
    assert_eq!(Ruleset::from_str(ruleset).unwrap_err(), RulesetParseError::InvalidRule { row: 0, col: 0, format: " aa1   ".to_string() });
}

#[test]
fn states_and_alphabet_keep_their_order() {
    let ruleset = Ruleset::from_str("| | 7 | 3 | 5 |\n| z | z>3 | z>5 | z!7 |\n| a | a>3 | a>5 | a!7 |\n").unwrap();
    assert_eq!(*ruleset.states(), vec![7, 3, 5]);
    assert_eq!(*ruleset.alphabet(), vec!['z', 'a']);
    assert_eq!(ruleset.find(&7, &'z').unwrap(), Rule::new('z', Move::Right, 3));
    assert_eq!(ruleset.find(&5, &'a').unwrap(), Rule::new('a', Move::Stop, 7));
}

#[test]
fn ruleset_without_header() {
    assert_eq!(Ruleset::from_str("").unwrap_err(), RulesetParseError::InvalidRuleset);
    assert_eq!(Ruleset::from_str("\n  \n\t\n").unwrap_err(), RulesetParseError::InvalidRuleset);
}

#[test]
fn blank_lines_before_the_header_are_passed_over() {
    let ruleset = Ruleset::from_str("\n   \n| | 0 |\n|---|---|\n| a | a!0 |").unwrap();
    assert_eq!(*ruleset.states(), vec![0]);
    assert_eq!(*ruleset.alphabet(), vec!['a']);
}

#[test]
fn header_with_a_cell_that_is_no_state() {
    assert_eq!(
        Ruleset::from_str("|   | 0 | x1 | 2 |").unwrap_err(),
        RulesetParseError::InvalidState { state: "x1".to_string() }
    );
    assert_eq!(
        Ruleset::from_str("|   | 0 | 1 |  ").unwrap_err(),
        RulesetParseError::InvalidState { state: "".to_string() }
    );
    assert_eq!(
        Ruleset::from_str("|   | 0 | -1 |").unwrap_err(),
        RulesetParseError::InvalidState { state: "-1".to_string() }
    );
}

#[test]
fn header_errors_come_before_row_errors() {
    assert_eq!(
        Ruleset::from_str("|   | 0 | 0 |\n| a | bad |").unwrap_err(),
        RulesetParseError::DuplicateState { state: 0 }
    );
}

#[test]
fn row_with_a_label_that_is_no_symbol() {
    assert_eq!(
        Ruleset::from_str("|   | 0 |\n| ab | a>0 |").unwrap_err(),
        RulesetParseError::InvalidSymbol { row: 0 }
    );
    assert_eq!(
        Ruleset::from_str("|   | 0 |\n|---|---|\n| a | a>0 |\n|   | a>0 |").unwrap_err(),
        RulesetParseError::InvalidSymbol { row: 2 }
    );
}

#[test]
fn rows_with_the_same_symbol() {
    assert_eq!(
        Ruleset::from_str("|   | 0 |\n| a | a>0 |\n| b | a>0 |\n| a | bad |").unwrap_err(),
        RulesetParseError::DuplicateSymbol { symbol: 'a' }
    );
}

#[test]
fn row_without_cells() {
    assert_eq!(
        Ruleset::from_str("|   | 0 |\n| a | a>0 |\n\n| b | a>0 |").unwrap_err(),
        RulesetParseError::InvalidFormat { row: 1, col: 0 }
    );
    assert_eq!(
        Ruleset::from_str("|   | 0 |\nabc").unwrap_err(),
        RulesetParseError::InvalidFormat { row: 0, col: 0 }
    );
    assert_eq!(
        Ruleset::from_str("|   | 0 |\n|").unwrap_err(),
        RulesetParseError::InvalidFormat { row: 0, col: 0 }
    );
}

#[test]
fn row_with_too_few_cells() {
    assert_eq!(
        Ruleset::from_str("|   | 0 | 1 |\n| a |").unwrap_err(),
        RulesetParseError::InvalidFormat { row: 0, col: 0 }
    );
    assert_eq!(
        Ruleset::from_str("|   | 0 | 1 |\n| a | a>0 |").unwrap_err(),
        RulesetParseError::InvalidFormat { row: 0, col: 1 }
    );
    assert_eq!(
        Ruleset::from_str("|   | 0 | 1 |\n| a | bad |").unwrap_err(),
        RulesetParseError::InvalidRule { row: 0, col: 0, format: " bad ".to_string() }
    );
}

#[test]
fn cell_that_is_no_rule() {
    assert_eq!(
        Ruleset::from_str("|   | 0 | 1 |\n|---|---|---|\n| a | a>0 | a>1 |\n| b | b>0 |  b?1|").unwrap_err(),
        RulesetParseError::InvalidRule { row: 2, col: 1, format: "  b?1".to_string() }
    );
    assert_eq!(
        Ruleset::from_str("|   | 0 |\n| a |     |").unwrap_err(),
        RulesetParseError::InvalidRule { row: 0, col: 0, format: "     ".to_string() }
    );
}

#[test]
fn separator_is_only_looked_for_on_the_first_line() {
    assert_eq!(
        Ruleset::from_str("|   | 0 |\n| a | a>0 |\n|---|---|").unwrap_err(),
        RulesetParseError::InvalidSymbol { row: 1 }
    );
    let skipped = Ruleset::from_str("|   | 0 |\n| - | --0 |\n| a | a>0 |").unwrap();
    assert_eq!(*skipped.alphabet(), vec!['a']);
    let kept = Ruleset::from_str("|   | 0 |\n| - | ->0 |\n| a | a>0 |").unwrap();
    assert_eq!(*kept.alphabet(), vec!['-', 'a']);
}

#[test]
fn header_without_states() {
    let ruleset = Ruleset::from_str("states\n| a |\n| b | b>1 |").unwrap();
    assert_eq!(ruleset.states().len(), 0);
    assert_eq!(*ruleset.alphabet(), vec!['a', 'b']);
    assert_eq!(ruleset.find(&1, &'b').unwrap_err(), RulesetError::RuleNotFound { state: 1, symbol: 'b' });
}

#[test]
fn ruleset_text_is_exact() {
    let ruleset = Ruleset::from_str("|   | 0     | 12    |\n| a | a>12  | a<0   |\n| b | _<12  | a!0 |").unwrap();
    assert_eq!(ruleset.to_string(), "|   | 0 | 12|\n|:-:|:-:|:-:|\n| a | a>12 | a<0|\n| b | _<12 | a!0|\n");
}

#[test]
fn ruleset_text_pads_missing_rules() {
    let mut column: HashMap<u32, Rule> = HashMap::new();
    column.insert('a' as u32, Rule::new('b', Move::Right, 1));
    let mut rules: HashMap<u32, HashMap<u32, Rule>> = HashMap::new();
    rules.insert(0, column);
    let ruleset = Ruleset::new(rules, vec!['a', 'b'], vec![0, 1]);
    assert_eq!(ruleset.find(&0, &'a').unwrap(), Rule::new('b', Move::Right, 1));
    assert_eq!(ruleset.find(&0, &'b').unwrap_err(), RulesetError::RuleNotFound { state: 0, symbol: 'b' });
    assert_eq!(ruleset.find(&1, &'a').unwrap_err(), RulesetError::RuleNotFound { state: 1, symbol: 'a' });
    assert_eq!(ruleset.to_string(), "|   | 0 | 1|\n|:-:|:-:|:-:|\n| a | b>1 |      |\n| b |       |      |\n");
    assert_eq!(
        Ruleset::from_str(&ruleset.to_string()).unwrap_err(),
        RulesetParseError::InvalidRule { row: 1, col: 1, format: "      ".to_string() }
    );
}

#[test]
fn ruleset_text_round_trip() {
    let text = "| | 3 | 1 | 20 |\r\n|:--|:--|:--|:--|\r\n| x | y>1 | x<20 | _!3 |\r\n| y | x>3 | y<1 | y!20 |\r\n| _ | _>20 | _<3 | x!1 |\r\n";
    let first = Ruleset::from_str(text).unwrap();
    let second = Ruleset::from_str(&first.to_string()).unwrap();
    assert_eq!(first.states(), second.states());
    assert_eq!(first.alphabet(), second.alphabet());
    for state in [3u32, 1, 20, 0] {
        for symbol in ['x', 'y', '_', 'z'] {
            assert_eq!(first.find(&state, &symbol), second.find(&state, &symbol));
        }
    }
    assert_eq!(first, second);
    assert_eq!(first.to_string(), second.to_string());
}

#[test]
fn ruleset_clone_is_equal() {
    let first = Ruleset::from_str("| | 0 |\n| a | a!0 |").unwrap();
    let second = first.clone();
    assert_eq!(first, second);
    assert_eq!(second.find(&0, &'a').unwrap(), Rule::new('a', Move::Stop, 0));
}

#[test]
fn ruleset_error_messages() {
    assert_eq!(RulesetParseError::InvalidRuleset.to_string(), "Invalid ruleset");
    assert_eq!(RulesetParseError::InvalidState { state: "x".to_string() }.to_string(), "Invalid state: x");
    assert_eq!(RulesetParseError::InvalidSymbol { row: 12 }.to_string(), "Invalid symbol in row 12");
    assert_eq!(RulesetParseError::DuplicateState { state: 7 }.to_string(), "Duplicate state: 7");
    assert_eq!(RulesetParseError::DuplicateSymbol { symbol: 'q' }.to_string(), "Duplicate symbol: q");
    assert_eq!(RulesetParseError::InvalidFormat { row: 3, col: 0 }.to_string(), "Invalid format in cell [3, 0]");
    assert_eq!(
        RulesetParseError::InvalidRule { row: 10, col: 2, format: " aa1 ".to_string() }.to_string(),
        "Invalid rule format in cell [10, 2]:  aa1 "
    );
    assert_eq!(
        RulesetError::RuleNotFound { state: 4, symbol: 'b' }.to_string(),
        "Rule for state \"4\" and symbol \"b\" not found"
    );
}

#[test]
fn table_without_states_is_not_read_back() {
    let ruleset = Ruleset::from_str("| |\n| a |").unwrap();
    assert_eq!(ruleset.states().len(), 0);
    assert_eq!(*ruleset.alphabet(), vec!['a']);
    let text = ruleset.to_string();
    assert_eq!(text, "|   | |\n|:-:|\n| a | |\n");
    assert_eq!(Ruleset::from_str(&text).unwrap_err(), RulesetParseError::InvalidState { state: "".to_string() });
}

#[test]
fn extra_cells_change_nothing() {
    let exact = Ruleset::from_str("| | 0 | 1 |\n| a | a>1 | a!0 |").unwrap();
    let more = Ruleset::from_str("| | 0 | 1 |\n| a | a>1 | a!0 | junk | a>7 |  ").unwrap();
    assert_eq!(exact, more);
}
