use vstd::prelude::*;
use vstd::string::StrSliceExecFns;

use crate::ast::{cmd_model, cmds_model, CmdModel, Command};
use crate::ast::{Arithmetic, Bitwise, Comparison, Coordinates, StackOperation};
use crate::errors::ParseError;

verus! {

/// The command a single non-bracket character stands for, or `None` when the
/// character is no command. Matching is case-insensitive, and any non-ASCII
/// character maps to `None`.
pub open spec fn char_command(c: char) -> Option<CmdModel> {
    if c == 'X' || c == 'x' {
        Some(CmdModel::Coordinates(Coordinates::X))
    } else if c == 'Y' || c == 'y' {
        Some(CmdModel::Coordinates(Coordinates::Y))
    } else if c == 'T' || c == 't' {
        Some(CmdModel::Coordinates(Coordinates::T))
    } else if c == 'N' || c == 'n' {
        Some(CmdModel::Integer)
    } else if 48 <= c as u32 && c as u32 <= 57 {
        Some(CmdModel::Digit((c as u32 - 48) as u8))
    } else if c == '+' {
        Some(CmdModel::Arithmetic(Arithmetic::Plus))
    } else if c == '-' {
        Some(CmdModel::Arithmetic(Arithmetic::Minus))
    } else if c == '*' {
        Some(CmdModel::Arithmetic(Arithmetic::Times))
    } else if c == '/' {
        Some(CmdModel::Arithmetic(Arithmetic::Divide))
    } else if c == '%' {
        Some(CmdModel::Arithmetic(Arithmetic::Modulus))
    } else if c == 'M' || c == 'm' {
        Some(CmdModel::Mode)
    } else if c == '=' {
        Some(CmdModel::Comparison(Comparison::Equals))
    } else if c == '<' {
        Some(CmdModel::Comparison(Comparison::LessThan))
    } else if c == '>' {
        Some(CmdModel::Comparison(Comparison::GreaterThan))
    } else if c == '!' {
        Some(CmdModel::Invert)
    } else if c == '^' {
        Some(CmdModel::Bitwise(Bitwise::Xor))
    } else if c == '&' {
        Some(CmdModel::Bitwise(Bitwise::And))
    } else if c == '|' {
        Some(CmdModel::Bitwise(Bitwise::Or))
    } else if c == 'C' || c == 'c' {
        Some(CmdModel::Clip)
    } else if c == 'D' || c == 'd' {
        Some(CmdModel::StackOperation(StackOperation::Duplicate))
    } else if c == 'P' || c == 'p' {
        Some(CmdModel::StackOperation(StackOperation::Pop))
    } else if c == 'S' || c == 's' {
        Some(CmdModel::StackOperation(StackOperation::Swap))
    } else if c == 'R' || c == 'r' {
        Some(CmdModel::StackOperation(StackOperation::Rotate))
    } else if c == 'F' || c == 'f' {
        Some(CmdModel::FrameInterval)
    } else if c == 'W' || c == 'w' {
        Some(CmdModel::Debug)
    } else {
        None
    }
}

/// The position an unmatched opening bracket is reported at when a parse
/// starting at `offset` runs off the end of the input: the bracket that
/// opened the group stands one character before the group body.
pub open spec fn start_of(offset: int) -> int {
    if offset > 0 {
        offset - 1
    } else {
        0
    }
}

/// The parser, as a mathematical function: parsing `s` from position `pos` at
/// group nesting level `nesting` yields either the number of characters
/// consumed together with the parsed commands, or the one error the scan stops
/// at. `start` is the position of the bracket that opened the current group;
/// an unclosed group is reported against it. A close bracket ends a nested
/// parse (consuming the bracket); at the top level it is an invalid character.
pub open spec fn spec_parse(s: Seq<char>, pos: int, nesting: int, start: int) -> Result<
    (int, Seq<CmdModel>),
    ParseError,
>
    decreases s.len() - pos,
{
    if pos >= s.len() {
        if nesting > 0 {
            Err(ParseError::BracketMismatch(start as usize))
        } else {
            Ok((0, Seq::empty()))
        }
    } else {
        let c = s[pos];
        if c == '[' {
            if nesting >= 8 {
                Err(ParseError::LoopNesting)
            } else {
                match spec_parse(s, pos + 1, nesting + 1, pos) {
                    Err(e) => Err(e),
                    Ok((ein, body)) => if 0 <= ein && pos + 1 + ein <= s.len() {
                        match spec_parse(s, pos + 1 + ein, nesting, start) {
                            Err(e) => Err(e),
                            Ok((erest, crest)) => Ok(
                                (1 + ein + erest, seq![CmdModel::Loop(body)] + crest),
                            ),
                        }
                    } else {
                        // never reached: see `lemma_spec_parse_bounds`
                        Err(ParseError::BracketMismatch(pos as usize))
                    },
                }
            }
        } else if c == ']' {
            if nesting > 0 {
                Ok((1, Seq::empty()))
            } else {
                Err(ParseError::InvalidCharacter(pos as usize))
            }
        } else {
            match char_command(c) {
                None => Err(ParseError::InvalidCharacter(pos as usize)),
                Some(m) => match spec_parse(s, pos + 1, nesting, start) {
                    Err(e) => Err(e),
                    Ok((erest, crest)) => Ok((1 + erest, seq![m] + crest)),
                },
            }
        }
    }
}

/// A successful parse consumes at least the characters its result accounts
/// for, and never more than the input holds.
pub proof fn lemma_spec_parse_bounds(s: Seq<char>, pos: int, nesting: int, start: int)
    requires
        0 <= pos <= s.len(),
    ensures
        spec_parse(s, pos, nesting, start) matches Ok((e, c)) ==> 0 <= e && pos + e <= s.len(),
    decreases s.len() - pos,
{
    if pos < s.len() {
        let c = s[pos];
        if c == '[' && nesting < 8 {
            lemma_spec_parse_bounds(s, pos + 1, nesting + 1, pos);
            match spec_parse(s, pos + 1, nesting + 1, pos) {
                Err(_) => {},
                Ok((ein, _)) => {
                    lemma_spec_parse_bounds(s, pos + 1 + ein, nesting, start);
                },
            }
        } else if c != '[' && c != ']' {
            if char_command(c) is Some {
                lemma_spec_parse_bounds(s, pos + 1, nesting, start);
            }
        }
    }
}

/// Scan `program` from character `offset` at group nesting level `nesting`,
/// returning the parsed command sequence and the number of characters
/// consumed, or the error the scan stopped at. A whole program is parsed with
/// `parse(program, 0, 0)`.
pub fn parse(program: &str, offset: usize, nesting: u8) -> (r: Result<
    (usize, Vec<Command>),
    ParseError,
>)
    ensures
        (match spec_parse(program@, offset as int, nesting as int, start_of(offset as int)) {
            Ok((e, c)) => r matches Ok(p) && p.0 == e && cmds_model(p.1@) == c,
            Err(pe) => r == Err::<(usize, Vec<Command>), ParseError>(pe),
        }),
    decreases program@.len() - offset,
{
    let ghost s = program@;
    let ghost n = nesting as int;
    let ghost st = start_of(offset as int);
    let s_len = program.unicode_len();
    let mut parsed: Vec<Command> = Vec::new();
    let mut index = offset;

    proof {
        match spec_parse(s, offset as int, n, st) {
            Ok((e2, c2)) => {
                assert(cmds_model(parsed@) + c2 =~= c2);
            },
            Err(_) => {},
        }
    }
    while index < s_len
        invariant
            s == program@,
            s_len == s.len(),
            offset <= index,
            index <= s_len || index == offset,
            n == nesting as int,
            st == start_of(offset as int),
            (match spec_parse(s, index as int, n, st) {
                Ok((e2, c2)) => spec_parse(s, offset as int, n, st) matches Ok((e, c)) && e == index
                    - offset + e2 && c == cmds_model(parsed@) + c2,
                Err(pe) => spec_parse(s, offset as int, n, st) == Err::<
                    (int, Seq<CmdModel>),
                    ParseError,
                >(pe),
            }),
        decreases s_len - index,
    {
        let ghost prev = parsed@;
        let ghost ipos = index as int;
        let c = program.get_char(index);
        let next_command: Command;
        if c == '[' {
            if nesting >= 8 {
                return Err(ParseError::LoopNesting);
            }
            proof {
                lemma_spec_parse_bounds(s, index + 1, n + 1, index as int);
            }
            match parse(program, index + 1, nesting + 1) {
                Err(e) => {
                    return Err(e);
                },
                Ok((eaten, body)) => {
                    next_command = Command::Loop(body);
                    index += eaten;
                },
            }
        } else if c == ']' {
            if nesting > 0 {
                proof {
                    assert(cmds_model(parsed@) + Seq::<CmdModel>::empty() =~= cmds_model(parsed@));
                }
                return Ok((index - offset + 1, parsed));
            } else {
                return Err(ParseError::InvalidCharacter(index));
            }
        } else {
            let simple: Option<Command> = match c {
                'X' | 'x' => Some(Command::Coordinates(Coordinates::X)),
                'Y' | 'y' => Some(Command::Coordinates(Coordinates::Y)),
                'T' | 't' => Some(Command::Coordinates(Coordinates::T)),
                'N' | 'n' => Some(Command::Integer),
                '+' => Some(Command::Arithmetic(Arithmetic::Plus)),
                '-' => Some(Command::Arithmetic(Arithmetic::Minus)),
                '*' => Some(Command::Arithmetic(Arithmetic::Times)),
                '/' => Some(Command::Arithmetic(Arithmetic::Divide)),
                '%' => Some(Command::Arithmetic(Arithmetic::Modulus)),
                'M' | 'm' => Some(Command::Mode),
                '=' => Some(Command::Comparison(Comparison::Equals)),
                '<' => Some(Command::Comparison(Comparison::LessThan)),
                '>' => Some(Command::Comparison(Comparison::GreaterThan)),
                '!' => Some(Command::Invert),
                '^' => Some(Command::Bitwise(Bitwise::Xor)),
                '&' => Some(Command::Bitwise(Bitwise::And)),
                '|' => Some(Command::Bitwise(Bitwise::Or)),
                'C' | 'c' => Some(Command::Clip),
                'D' | 'd' => Some(Command::StackOperation(StackOperation::Duplicate)),
                'P' | 'p' => Some(Command::StackOperation(StackOperation::Pop)),
                'S' | 's' => Some(Command::StackOperation(StackOperation::Swap)),
                'R' | 'r' => Some(Command::StackOperation(StackOperation::Rotate)),
                'F' | 'f' => Some(Command::FrameInterval),
                'W' | 'w' => Some(Command::Debug),
                d => {
                    let u = d as u32;
                    if 48 <= u && u <= 57 {
                        Some(Command::Digit((u - 48) as u8))
                    } else {
                        None
                    }
                },
            };
            match simple {
                None => {
                    return Err(ParseError::InvalidCharacter(index));
                },
                Some(cmd) => {
                    next_command = cmd;
                },
            }
        }
        index += 1;
        parsed.push(next_command);
        proof {
            lemma_cmds_model_push(prev, next_command);
            let m = cmd_model(next_command);
            match spec_parse(s, index as int, n, st) {
                Ok((e3, c3)) => {
                    assert(spec_parse(s, ipos, n, st) == Ok::<(int, Seq<CmdModel>), ParseError>(
                        (index - ipos + e3, seq![m] + c3),
                    ));
                    assert(cmds_model(prev).push(m) + c3 =~= cmds_model(prev) + (seq![m] + c3));
                },
                Err(e) => {
                    assert(spec_parse(s, ipos, n, st) == Err::<(int, Seq<CmdModel>), ParseError>(
                        e,
                    ));
                },
            }
        }
    }
    if nesting > 0 {
        let open_at = if offset > 0 {
            offset - 1
        } else {
            0
        };
        Err(ParseError::BracketMismatch(open_at))
    } else {
        proof {
            assert(cmds_model(parsed@) + Seq::<CmdModel>::empty() =~= cmds_model(parsed@));
        }
        Ok((index - offset, parsed))
    }
}

/// Taking models commutes with appending one command.
pub proof fn lemma_cmds_model_push(s: Seq<Command>, c: Command)
    ensures
        cmds_model(s.push(c)) == cmds_model(s).push(cmd_model(c)),
{
    lemma_cmds_model_index(s.push(c));
    lemma_cmds_model_index(s);
    assert(cmds_model(s.push(c)) =~= cmds_model(s).push(cmd_model(c)));
}

/// The model of a command sequence has the same length and models each
/// command in place.
pub proof fn lemma_cmds_model_index(s: Seq<Command>)
    ensures
        cmds_model(s).len() == s.len(),
        forall|i: int| 0 <= i < s.len() ==> #[trigger] cmds_model(s)[i] == cmd_model(s[i]),
    decreases s.len(),
{
    if s.len() > 0 {
        lemma_cmds_model_index(s.subrange(1, s.len() as int));
        assert forall|i: int| 0 <= i < s.len() implies #[trigger] cmds_model(s)[i] == cmd_model(
            s[i],
        ) by {
            if i > 0 {
                assert(s.subrange(1, s.len() as int)[i - 1] == s[i]);
            }
        }
    }
}

} // verus!
