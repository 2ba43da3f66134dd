use tape_interp::{calculate_jumptable, parse, InterpError, Token};

#[test]
fn table_of_empty_program_is_empty() {
    assert_eq!(calculate_jumptable(&Vec::new()), Ok(Vec::new()));
}

#[test]
fn table_without_brackets_is_all_zero() {
    assert_eq!(calculate_jumptable(&parse("+-><.")), Ok(vec![0, 0, 0, 0, 0]));
}

#[test]
fn table_of_one_loop() {
    assert_eq!(calculate_jumptable(&parse("[]")), Ok(vec![1, 0]));
    assert_eq!(calculate_jumptable(&parse("+[-]")), Ok(vec![0, 3, 0, 1]));
}

#[test]
fn table_of_nested_loops() {
    assert_eq!(calculate_jumptable(&parse("[[]]")), Ok(vec![3, 2, 1, 0]));
    assert_eq!(
        calculate_jumptable(&parse("[+[-]>[<]]")),
        Ok(vec![9, 0, 4, 0, 2, 0, 8, 0, 6, 0])
    );
}

#[test]
fn table_of_loops_side_by_side() {
    assert_eq!(calculate_jumptable(&parse("[][]")), Ok(vec![1, 0, 3, 2]));
}

#[test]
fn table_has_the_length_of_the_program() {
    let program = parse("++[>+<-]>.");
    let table = calculate_jumptable(&program).unwrap();
    assert_eq!(table.len(), program.len());
}

#[test]
fn table_is_symmetric_and_nested() {
    let program = parse("+[>[-]<[->+<]>.]<[[[]]]");
    let table = calculate_jumptable(&program).unwrap();
    for i in 0..program.len() {
        match program[i] {
            Token::While => {
                let j = table[i];
                assert!(i < j);
                assert_eq!(program[j], Token::EndWhile);
                assert_eq!(table[j], i);
                for k in i + 1..j {
                    if program[k] == Token::While || program[k] == Token::EndWhile {
                        assert!(i < table[k] && table[k] < j);
                    }
                }
            }
            Token::EndWhile => {
                assert_eq!(program[table[i]], Token::While);
                assert_eq!(table[table[i]], i);
            }
            _ => assert_eq!(table[i], 0),
        }
    }
}

#[test]
fn unclosed_loop_is_refused() {
    assert_eq!(
        calculate_jumptable(&parse("[")),
        Err(InterpError::UnmatchedBracket { index: 0 })
    );
    assert_eq!(
        calculate_jumptable(&parse("+.[-")),
        Err(InterpError::UnmatchedBracket { index: 2 })
    );
}

#[test]
fn first_unclosed_loop_is_named() {
    assert_eq!(
        calculate_jumptable(&parse("[][[")),
        Err(InterpError::UnmatchedBracket { index: 2 })
    );
    assert_eq!(
        calculate_jumptable(&parse("[[]")),
        Err(InterpError::UnmatchedBracket { index: 0 })
    );
    assert_eq!(
        calculate_jumptable(&parse("[]+[[]")),
        Err(InterpError::UnmatchedBracket { index: 3 })
    );
}

#[test]
fn closing_bracket_alone_is_accepted_with_entry_zero() {
    assert_eq!(calculate_jumptable(&parse("]")), Ok(vec![0]));
    assert_eq!(calculate_jumptable(&parse("+]")), Ok(vec![0, 0]));
    assert_eq!(calculate_jumptable(&parse("[]]")), Ok(vec![1, 0, 0]));
    assert_eq!(calculate_jumptable(&parse("][]")), Ok(vec![0, 2, 1]));
}
