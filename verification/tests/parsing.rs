use fxyt::{parse, Command, ParseError};

#[test]
fn loop_parsing() {
    let program = "NN5[N10+]";
    assert_eq!(
        (
            9,
            vec![
                Command::Integer,
                Command::Integer,
                Command::Digit(5),
                Command::Loop(vec![
                    Command::Integer,
                    Command::Digit(1),
                    Command::Digit(0),
                    Command::Arithmetic(fxyt::Arithmetic::Plus)
                ])
            ]
        ),
        parse(program, 0, 0).unwrap()
    )
}

#[test]
fn loop_parsing_doubly_nested() {
    let program = "NN5[N10[N4+]]";
    assert_eq!(
        (
            13,
            vec![
                Command::Integer,
                Command::Integer,
                Command::Digit(5),
                Command::Loop(vec![
                    Command::Integer,
                    Command::Digit(1),
                    Command::Digit(0),
                    Command::Loop(vec![
                        Command::Integer,
                        Command::Digit(4),
                        Command::Arithmetic(fxyt::Arithmetic::Plus)
                    ])
                ])
            ]
        ),
        parse(program, 0, 0).unwrap()
    )
}

#[test]
fn empty_program_parses_to_nothing() {
    assert_eq!((0, vec![]), parse("", 0, 0).unwrap());
}

#[test]
fn parsing_is_case_insensitive() {
    assert_eq!(parse("xy^n5cdpsrfw", 0, 0), parse("XY^N5CDPSRFW", 0, 0));
}

#[test]
fn every_command_character_parses() {
    let (eaten, cmds) = parse("XYTN5+-*/%M=<>!^&|CDPSRFW", 0, 0).unwrap();
    assert_eq!(eaten, 25);
    assert_eq!(cmds.len(), 25);
    assert_eq!(cmds[0], Command::Coordinates(fxyt::Coordinates::X));
    assert_eq!(cmds[3], Command::Integer);
    assert_eq!(cmds[4], Command::Digit(5));
    assert_eq!(cmds[5], Command::Arithmetic(fxyt::Arithmetic::Plus));
    assert_eq!(cmds[10], Command::Mode);
    assert_eq!(cmds[11], Command::Comparison(fxyt::Comparison::Equals));
    assert_eq!(cmds[14], Command::Invert);
    assert_eq!(cmds[15], Command::Bitwise(fxyt::Bitwise::Xor));
    assert_eq!(cmds[18], Command::Clip);
    assert_eq!(cmds[19], Command::StackOperation(fxyt::StackOperation::Duplicate));
    assert_eq!(cmds[23], Command::FrameInterval);
    assert_eq!(cmds[24], Command::Debug);
}

#[test]
fn invalid_character_is_reported_at_its_position() {
    assert_eq!(parse("XY?", 0, 0), Err(ParseError::InvalidCharacter(2)));
    assert_eq!(parse("q", 0, 0), Err(ParseError::InvalidCharacter(0)));
}

#[test]
fn non_ascii_character_is_invalid() {
    assert_eq!(parse("X\u{00e9}Y", 0, 0), Err(ParseError::InvalidCharacter(1)));
}

#[test]
fn stray_close_bracket_is_invalid_at_top_level() {
    assert_eq!(parse("]", 0, 0), Err(ParseError::InvalidCharacter(0)));
    assert_eq!(parse("X]", 0, 0), Err(ParseError::InvalidCharacter(1)));
}

#[test]
fn unmatched_open_bracket_is_reported_at_its_position() {
    assert_eq!(parse("[XY", 0, 0), Err(ParseError::BracketMismatch(0)));
    assert_eq!(parse("X[[Y", 0, 0), Err(ParseError::BracketMismatch(2)));
}

#[test]
fn group_followed_by_more_commands() {
    let (eaten, cmds) = parse("[]X", 0, 0).unwrap();
    assert_eq!(eaten, 3);
    assert_eq!(
        cmds,
        vec![
            Command::Loop(vec![]),
            Command::Coordinates(fxyt::Coordinates::X)
        ]
    );
}

#[test]
fn nesting_depth_eight_is_the_boundary_of_success() {
    let eight = "[[[[[[[[]]]]]]]]";
    let (eaten, cmds) = parse(eight, 0, 0).unwrap();
    assert_eq!(eaten, 16);
    assert_eq!(cmds.len(), 1);

    let nine = "[[[[[[[[[]]]]]]]]]";
    assert_eq!(parse(nine, 0, 0), Err(ParseError::LoopNesting));
}
