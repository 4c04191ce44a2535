use lr2::{string_to_tape, Move, Rule, Tape, TapeTextError, SPACE};

fn test_empty_tape(mut tape: Tape) {
    assert_eq!(tape.read(), SPACE);
    tape.apply_rule(&Rule::new('h', Move::Right, 0));
    assert_eq!(tape.read(), SPACE);
    tape.apply_rule(&Rule::new('i', Move::Right, 0));
    assert_eq!(tape.read(), SPACE);
    tape.apply_rule(&Rule::new(SPACE, Move::Left, 0));
    assert_eq!(tape.read(), 'i');
    tape.apply_rule(&Rule::new('i', Move::Left, 0));
    assert_eq!(tape.read(), 'h');
    tape.apply_rule(&Rule::new('h', Move::Left, 0));
    assert_eq!(tape.read(), SPACE);
    tape.apply_rule(&Rule::new(SPACE, Move::Stop, 0));
    assert_eq!(tape.read(), SPACE);
}

#[test]
fn test_tape_filled() {
    let mut tape = Tape::new("12345678".chars().collect(), 4, 0);
    assert_eq!(tape.read(), '5');
    tape.apply_rule(&Rule::new('9', Move::Right, 0));
    assert_eq!(tape.read(), '6');
    tape.apply_rule(&Rule::new('0', Move::Left, 0));
    assert_eq!(tape.read(), '9');
    tape.apply_rule(&Rule::new('-', Move::Stop, 0));
    assert_eq!(tape.read(), '-');
}

#[test]
fn test_tape_empty() {
    test_empty_tape(Tape::new("".chars().collect(), 4, -1));
    test_empty_tape(Tape::new("A".chars().collect(), 4, -1));
    test_empty_tape(Tape::new("".chars().collect(), -10, 1));
    test_empty_tape(Tape::new("A".chars().collect(), -10, 1));
    test_empty_tape(Tape::new("".chars().collect(), 0, 0));
    let mut tape = Tape::new("".chars().collect(), -10, -1);
    tape.set_head(15);
    test_empty_tape(tape);
}

fn text(tape: &Tape) -> String {
    tape.data().iter().collect()
}

#[test]
fn new_tape_with_head_at_the_start() {
    let tape = Tape::new("abc".chars().collect(), 7, 7);
    assert_eq!(text(&tape), "abc");
    assert_eq!(tape.index(), 0);
    assert_eq!(tape.read(), 'a');
    let empty = Tape::new(Vec::new(), 0, 0);
    assert_eq!(text(&empty), "_");
    assert_eq!(empty.index(), 0);
    assert_eq!(empty.head(), 0);
}

#[test]
fn new_tape_with_head_before_the_data() {
    let tape = Tape::new("abc".chars().collect(), 0, 3);
    assert_eq!(text(&tape), "___abc");
    assert_eq!(tape.index(), 0);
    assert_eq!(tape.head(), 0);
    assert_eq!(tape.read(), SPACE);
}

#[test]
fn new_tape_with_head_after_the_start() {
    let inside = Tape::new("abc".chars().collect(), 2, 0);
    assert_eq!(text(&inside), "abc");
    assert_eq!(inside.index(), 2);
    assert_eq!(inside.head(), 2);
    assert_eq!(inside.read(), 'c');
    let beyond = Tape::new("a".chars().collect(), 6, 3);
    assert_eq!(text(&beyond), "a___");
    assert_eq!(beyond.index(), 3);
    assert_eq!(beyond.read(), SPACE);
    let last = Tape::new("abc".chars().collect(), 3, 0);
    assert_eq!(text(&last), "abc_");
    assert_eq!(last.index(), 3);
}

#[test]
fn tape_grows_by_one_cell_where_the_head_leaves_it() {
    let mut tape = Tape::new("ab".chars().collect(), 1, 0);
    tape.apply_rule(&Rule::new('x', Move::Right, 0));
    assert_eq!(text(&tape), "ax_");
    assert_eq!(tape.index(), 2);
    assert_eq!(tape.head(), 2);
    tape.apply_rule(&Rule::new('y', Move::Stop, 0));
    assert_eq!(text(&tape), "axy");
    assert_eq!(tape.index(), 2);
    tape.apply_rule(&Rule::new('z', Move::Left, 0));
    tape.apply_rule(&Rule::new('x', Move::Left, 0));
    assert_eq!(text(&tape), "axz");
    assert_eq!(tape.index(), 0);
    assert_eq!(tape.head(), 0);
    tape.apply_rule(&Rule::new('b', Move::Left, 0));
    assert_eq!(text(&tape), "_bxz");
    assert_eq!(tape.index(), 0);
    assert_eq!(tape.read(), SPACE);
}

#[test]
fn head_follows_the_moves_to_the_right() {
    let mut tape = Tape::new("abc".chars().collect(), 1, 0);
    let mut expected = 1;
    for mov in [Move::Right, Move::Right, Move::Right, Move::Left, Move::Stop, Move::Right, Move::Left, Move::Left] {
        tape.apply_rule(&Rule::new('q', mov, 0));
        expected += match mov {
            Move::Right => 1,
            Move::Left => -1,
            Move::Stop => 0,
        };
        assert_eq!(tape.head(), expected);
    }
}

#[test]
fn set_head_moves_and_grows() {
    let mut tape = Tape::new("abc".chars().collect(), 0, 0);
    tape.set_head(2);
    assert_eq!(tape.read(), 'c');
    assert_eq!(tape.head(), 2);
    tape.set_head(5);
    assert_eq!(text(&tape), "abc___");
    assert_eq!(tape.index(), 5);
    assert_eq!(tape.head(), 5);
    assert_eq!(tape.read(), SPACE);
    tape.set_head(-2);
    assert_eq!(text(&tape), "__abc___");
    assert_eq!(tape.index(), 0);
    assert_eq!(tape.read(), SPACE);
    tape.apply_rule(&Rule::new('x', Move::Right, 0));
    tape.apply_rule(&Rule::new('y', Move::Right, 0));
    assert_eq!(tape.read(), 'a');
}

#[test]
fn tape_text_brackets_the_head() {
    let tape = Tape::new("12345".chars().collect(), 2, 0);
    assert_eq!(tape.to_string(), " 1  2 [3] 4  5 ");
    let single = Tape::new(Vec::new(), 0, 0);
    assert_eq!(single.to_string(), "[_]");
}

#[test]
fn tape_from_str_trims() {
    let tape = Tape::from_str("  abc \n").unwrap();
    assert_eq!(text(&tape), "abc");
    assert_eq!(tape.index(), 0);
    assert_eq!(tape.head(), 0);
    let blank = Tape::from_str("   ").unwrap();
    assert_eq!(text(&blank), "_");
}

#[test]
fn tape_clone_is_independent() {
    let mut tape = Tape::new("abc".chars().collect(), 1, 0);
    let copy = tape.clone();
    tape.apply_rule(&Rule::new('x', Move::Right, 0));
    assert_eq!(text(&copy), "abc");
    assert_eq!(copy.index(), 1);
    assert_eq!(text(&tape), "axc");
}

#[test]
fn string_to_tape_reads_two_lines() {
    let tape = string_to_tape("123+19\n2\n").unwrap();
    assert_eq!(text(&tape), "123+19");
    assert_eq!(tape.index(), 2);
    assert_eq!(tape.read(), '3');
    let windows = string_to_tape("ab\r\n1\r\nrest").unwrap();
    assert_eq!(text(&windows), "ab");
    assert_eq!(windows.index(), 1);
    let left = string_to_tape("ab\n-2").unwrap();
    assert_eq!(text(&left), "__ab");
    assert_eq!(left.index(), 0);
    let plus = string_to_tape("ab\n+3").unwrap();
    assert_eq!(text(&plus), "ab__");
    assert_eq!(plus.index(), 3);
    let empty_line = string_to_tape("\n0").unwrap();
    assert_eq!(text(&empty_line), "_");
}

#[test]
fn string_to_tape_errors() {
    assert_eq!(string_to_tape("").err(), Some(TapeTextError::TapeNotFound));
    assert_eq!(string_to_tape("abc").err(), Some(TapeTextError::StartNotFound));
    assert_eq!(string_to_tape("abc\n").err(), Some(TapeTextError::StartNotFound));
    assert_eq!(string_to_tape("abc\n 2").err(), Some(TapeTextError::InvalidStart));
    assert_eq!(string_to_tape("abc\n\n2").err(), Some(TapeTextError::InvalidStart));
    assert_eq!(string_to_tape("abc\nx").err(), Some(TapeTextError::InvalidStart));
    assert_eq!(string_to_tape("abc\n99999999999999999999999").err(), Some(TapeTextError::InvalidStart));
    assert_eq!(TapeTextError::TapeNotFound.to_string(), "Tape doesnt found");
    assert_eq!(TapeTextError::StartNotFound.to_string(), "Start position doesnt found");
    assert_eq!(TapeTextError::InvalidStart.to_string(), "Invalid start position");
}

#[test]
fn head_position_agrees_with_std() {
    for text in ["0", "-0", "+0", "12", "-12", "+12", "--1", "+-1", "-", "+", "1x", "9223372036854775807", "-9223372036854775808", "9223372036854775808", "-9223372036854775809"] {
        let input = format!("a\n{}", text);
        match text.parse::<isize>() {
            Ok(n) if n.unsigned_abs() < 1000 => {
                let tape = string_to_tape(&input).unwrap();
                assert_eq!(tape.index() as isize, if n < 0 { 0 } else { n });
            }
            Ok(_) => {}
            Err(_) => assert_eq!(string_to_tape(&input).err(), Some(TapeTextError::InvalidStart)),
        }
    }
}

#[test]
fn head_after_growth_on_the_left() {
    let mut tape = Tape::new(Vec::new(), 0, 0);
    assert_eq!(tape.head(), 0);
    tape.apply_rule(&Rule::new('x', Move::Left, 0));
    assert_eq!(text(&tape), "_x");
    assert_eq!(tape.index(), 0);
    assert_eq!(tape.head(), 1);
    tape.apply_rule(&Rule::new('y', Move::Right, 0));
    assert_eq!(tape.head(), 2);
    assert_eq!(tape.read(), 'x');
}

#[test]
fn new_tape_reports_the_head_it_was_given() {
    for head in [0isize, 1, 5, 40] {
        let tape = Tape::new("abc".chars().collect(), head, 0);
        assert_eq!(tape.head(), head);
        assert_eq!(tape.index() as isize, head);
    }
}
