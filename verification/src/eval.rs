use vstd::prelude::*;

use crate::ast::{cmd_model, cmds_model, CmdModel, Color, Command, Coords};
use crate::ast::{color_black, color_red, Arithmetic, Bitwise, Comparison, Coordinates,
    StackOperation};
use crate::errors::FxytError;
use crate::parse::lemma_cmds_model_index;

verus! {

/// The per-pixel machine state: the value stack (top is the last element),
/// the mode register, and the most recent frame-interval hint.
#[verifier::ext_equal]
pub struct EvalState {
    pub stack: Seq<i64>,
    pub mode: int,
    pub interval: Option<i64>,
}

/// What evaluating a command sequence does: carry on with a new state, stop
/// the whole pixel with a short-circuit colour (keeping the interval hints
/// recorded so far), or stop with an error.
pub enum EvalOutcome {
    Next(EvalState),
    Halt(Color, Option<i64>),
    Fail(FxytError),
}

/// The state every pixel evaluation starts from.
pub open spec fn init_state() -> EvalState {
    EvalState { stack: Seq::empty(), mode: 0, interval: None }
}

/// Truncated (round-toward-zero) integer division, as the stack machine's
/// division performs it on its 64-bit cells.
pub open spec fn trunc_div_int(x: int, d: int) -> int {
    if x == 0 {
        0
    } else if x > 0 && d > 0 {
        x / d
    } else if x < 0 && d < 0 {
        (x * -1) / (d * -1)
    } else if x < 0 {
        ((x * -1) / d) * -1
    } else {
        (x / (d * -1)) * -1
    }
}

/// Truncated remainder, the counterpart of `trunc_div_int`: it has the sign
/// of the dividend.
pub open spec fn trunc_rem_int(x: int, d: int) -> int {
    if x == 0 {
        0
    } else if x > 0 && d > 0 {
        x % d
    } else if x < 0 && d < 0 {
        ((x * -1) % (d * -1)) * -1
    } else if x < 0 {
        ((x * -1) % d) * -1
    } else {
        x % (d * -1)
    }
}

/// 64-bit division result: truncated division, wrapping around on the one
/// overflowing case (the minimum value divided by -1).
pub open spec fn div_wrap(l: i64, r: i64) -> i64 {
    if l == i64::MIN && r == -1 {
        i64::MIN
    } else {
        trunc_div_int(l as int, r as int) as i64
    }
}

/// 64-bit remainder: truncated remainder, which is 0 on the one overflowing
/// division case.
pub open spec fn rem_wrap(l: i64, r: i64) -> i64 {
    if l == i64::MIN && r == -1 {
        0
    } else {
        trunc_rem_int(l as int, r as int) as i64
    }
}

/// A value clamped to the 0..=255 colour-channel range.
pub open spec fn clamp_channel(v: i64) -> i64 {
    if v < 0 {
        0
    } else if v > 255 {
        255
    } else {
        v
    }
}

/// The effect of one non-group command on the machine state at coordinates
/// `co`. Groups are interpreted by `spec_eval`, never here. The
/// frame-interval command pops the top value and records it as the pending
/// display hint — the dedicated side channel the colour result never reads.
pub open spec fn spec_step(m: CmdModel, st: EvalState, co: Coords) -> EvalOutcome {
    let n = st.stack.len() as int;
    match m {
        CmdModel::Coordinates(a) => EvalOutcome::Next(
            EvalState {
                stack: st.stack.push(
                    match a {
                        Coordinates::X => co.x,
                        Coordinates::Y => co.y,
                        Coordinates::T => co.t,
                    },
                ),
                ..st
            },
        ),
        CmdModel::Integer => EvalOutcome::Next(EvalState { stack: st.stack.push(0), ..st }),
        CmdModel::Digit(d) => if n < 1 {
            EvalOutcome::Fail(FxytError::StackEmpty)
        } else {
            let top = st.stack[n - 1];
            let v = vstd::wrapping::i64_specs::wrapping_add(
                vstd::wrapping::i64_specs::wrapping_mul(top, 10),
                d as i64,
            );
            EvalOutcome::Next(EvalState { stack: st.stack.take(n - 1).push(v), ..st })
        },
        CmdModel::Arithmetic(op) => if n < 2 {
            EvalOutcome::Fail(FxytError::StackEmpty)
        } else {
            let right = st.stack[n - 1];
            let left = st.stack[n - 2];
            let rest = st.stack.take(n - 2);
            match op {
                Arithmetic::Plus => EvalOutcome::Next(
                    EvalState {
                        stack: rest.push(vstd::wrapping::i64_specs::wrapping_add(left, right)),
                        ..st
                    },
                ),
                Arithmetic::Minus => EvalOutcome::Next(
                    EvalState {
                        stack: rest.push(vstd::wrapping::i64_specs::wrapping_sub(left, right)),
                        ..st
                    },
                ),
                Arithmetic::Times => EvalOutcome::Next(
                    EvalState {
                        stack: rest.push(vstd::wrapping::i64_specs::wrapping_mul(left, right)),
                        ..st
                    },
                ),
                Arithmetic::Divide => if right != 0 {
                    EvalOutcome::Next(EvalState { stack: rest.push(div_wrap(left, right)), ..st })
                } else {
                    spec_divide_by_zero(st)
                },
                Arithmetic::Modulus => if right != 0 {
                    EvalOutcome::Next(EvalState { stack: rest.push(rem_wrap(left, right)), ..st })
                } else {
                    spec_divide_by_zero(st)
                },
            }
        },
        CmdModel::Mode => EvalOutcome::Next(EvalState { mode: st.mode + 1, ..st }),
        CmdModel::Comparison(cp) => if n < 2 {
            EvalOutcome::Fail(FxytError::StackEmpty)
        } else {
            let right = st.stack[n - 1];
            let left = st.stack[n - 2];
            let holds = match cp {
                Comparison::Equals => left == right,
                Comparison::LessThan => left < right,
                Comparison::GreaterThan => left > right,
            };
            EvalOutcome::Next(
                EvalState {
                    stack: st.stack.take(n - 2).push(
                        if holds {
                            1
                        } else {
                            0
                        },
                    ),
                    ..st
                },
            )
        },
        CmdModel::Invert => if n < 1 {
            EvalOutcome::Fail(FxytError::StackEmpty)
        } else {
            let top = st.stack[n - 1];
            EvalOutcome::Next(
                EvalState {
                    stack: st.stack.take(n - 1).push(
                        if top == 0 {
                            1
                        } else {
                            0
                        },
                    ),
                    ..st
                },
            )
        },
        CmdModel::Bitwise(b) => if n < 2 {
            EvalOutcome::Fail(FxytError::StackEmpty)
        } else {
            let right = st.stack[n - 1];
            let left = st.stack[n - 2];
            let v = match b {
                Bitwise::Xor => left ^ right,
                Bitwise::And => left & right,
                Bitwise::Or => left | right,
            };
            EvalOutcome::Next(EvalState { stack: st.stack.take(n - 2).push(v), ..st })
        },
        CmdModel::Clip => if n < 1 {
            EvalOutcome::Fail(FxytError::StackEmpty)
        } else {
            EvalOutcome::Next(
                EvalState {
                    stack: st.stack.take(n - 1).push(clamp_channel(st.stack[n - 1])),
                    ..st
                },
            )
        },
        CmdModel::StackOperation(so) => match so {
            StackOperation::Duplicate => if n < 1 {
                EvalOutcome::Fail(FxytError::StackEmpty)
            } else {
                EvalOutcome::Next(EvalState { stack: st.stack.push(st.stack[n - 1]), ..st })
            },
            StackOperation::Pop => if n < 1 {
                EvalOutcome::Fail(FxytError::StackEmpty)
            } else {
                EvalOutcome::Next(EvalState { stack: st.stack.take(n - 1), ..st })
            },
            StackOperation::Swap => if n < 2 {
                EvalOutcome::Fail(FxytError::StackEmpty)
            } else {
                EvalOutcome::Next(
                    EvalState {
                        stack: st.stack.take(n - 2).push(st.stack[n - 1]).push(st.stack[n - 2]),
                        ..st
                    },
                )
            },
            StackOperation::Rotate => if n < 3 {
                EvalOutcome::Fail(FxytError::StackEmpty)
            } else {
                EvalOutcome::Next(
                    EvalState {
                        stack: st.stack.take(n - 3).push(st.stack[n - 2]).push(
                            st.stack[n - 1],
                        ).push(st.stack[n - 3]),
                        ..st
                    },
                )
            },
        },
        CmdModel::Loop(_) => EvalOutcome::Next(st),
        CmdModel::FrameInterval => if n < 1 {
            EvalOutcome::Fail(FxytError::StackEmpty)
        } else {
            EvalOutcome::Next(
                EvalState {
                    stack: st.stack.take(n - 1),
                    interval: Some(st.stack[n - 1]),
                    ..st
                },
            )
        },
        CmdModel::Debug => EvalOutcome::Fail(FxytError::DebugHalt),
    }
}

/// The mode-dependent policy for a zero divisor: an error in mode 0, an
/// immediate black pixel in mode 1, an immediate red pixel in mode 2.
pub open spec fn spec_divide_by_zero(st: EvalState) -> EvalOutcome {
    if st.mode == 0 {
        EvalOutcome::Fail(FxytError::DivideByZero)
    } else if st.mode == 1 {
        EvalOutcome::Halt(color_black(), st.interval)
    } else if st.mode == 2 {
        EvalOutcome::Halt(color_red(), st.interval)
    } else {
        EvalOutcome::Fail(FxytError::ModeOutOfRange)
    }
}

/// Evaluating `cmds` from position `i` onward in state `st`. A group shares
/// the enclosing state; after every single command (a group counting as the
/// commands within it, each checked on its own, plus a final check) the stack
/// depth is limited to 8 and the mode register to 2. A `Halt` from within a
/// group short-circuits every enclosing level.
pub open spec fn spec_eval(cmds: Seq<CmdModel>, i: int, st: EvalState, co: Coords) -> EvalOutcome
    decreases cmds, cmds.len() - i,
    via spec_eval_decreases
{
    if i < 0 || i >= cmds.len() {
        EvalOutcome::Next(st)
    } else {
        let out = match cmds[i] {
            CmdModel::Loop(body) => spec_eval(body, 0, st, co),
            m => spec_step(m, st, co),
        };
        match out {
            EvalOutcome::Next(st2) => if st2.stack.len() > 8 {
                EvalOutcome::Fail(FxytError::StackOverflow)
            } else if st2.mode > 2 {
                EvalOutcome::Fail(FxytError::ModeOutOfRange)
            } else {
                spec_eval(cmds, i + 1, st2, co)
            },
            other => other,
        }
    }
}

#[via_fn]
proof fn spec_eval_decreases(cmds: Seq<CmdModel>, i: int, st: EvalState, co: Coords) {
    if 0 <= i < cmds.len() {
        match cmds[i] {
            CmdModel::Loop(body) => {
                assert(decreases_to!(cmds => cmds[i]));
                assert(decreases_to!(cmds[i] => body));
            },
            _ => {},
        }
    }
}

/// The colour of one pixel: run the whole program, then read blue, green and
/// red from the top of the stack downward, each missing value defaulting
/// to 0; a channel outside 0..=255 is an error. The second result component
/// is the frame-interval hint the evaluation left behind.
pub open spec fn spec_pixel(cmds: Seq<CmdModel>, co: Coords) -> Result<
    (Color, Option<i64>),
    FxytError,
> {
    match spec_eval(cmds, 0, init_state(), co) {
        EvalOutcome::Fail(e) => Err(e),
        EvalOutcome::Halt(c, iv) => Ok((c, iv)),
        EvalOutcome::Next(st) => {
            let n = st.stack.len() as int;
            let blue: i64 = if n >= 1 {
                st.stack[n - 1]
            } else {
                0
            };
            let green: i64 = if n >= 2 {
                st.stack[n - 2]
            } else {
                0
            };
            let red: i64 = if n >= 3 {
                st.stack[n - 3]
            } else {
                0
            };
            if red > 255 || green > 255 || blue > 255 || red < 0 || green < 0 || blue < 0 {
                Err(FxytError::RgbOutOfRange)
            } else {
                Ok((Color { r: red as u8, g: green as u8, b: blue as u8 }, st.interval))
            }
        },
    }
}

/// Execute `commands` in order against the shared stack, mode register and
/// interval hint, exactly as `spec_eval` describes: `Ok(None)` when the
/// sequence ran to completion (the state then matches the spec's `Next`),
/// `Ok(Some(colour))` when a divide-by-zero under mode 1 or 2 short-circuited
/// the pixel, and `Err` when evaluation failed.
pub fn render_to_stack(
    commands: &Vec<Command>,
    stack: &mut Vec<i64>,
    mode: &mut u8,
    interval: &mut Option<i64>,
    coords: Coords,
) -> (r: Result<Option<Color>, FxytError>)
    requires
        *old(mode) <= 2,
    ensures
        (match spec_eval(
            cmds_model(commands@),
            0,
            EvalState {
                stack: old(stack)@,
                mode: *old(mode) as int,
                interval: *old(interval),
            },
            coords,
        ) {
            EvalOutcome::Next(st) => r == Ok::<Option<Color>, FxytError>(None) && final(stack)@
                == st.stack && *final(mode) as int == st.mode && *final(interval) == st.interval,
            EvalOutcome::Halt(c, iv) => r == Ok::<Option<Color>, FxytError>(Some(c))
                && *final(interval) == iv,
            EvalOutcome::Fail(e) => r == Err::<Option<Color>, FxytError>(e),
        }),
    decreases commands@,
{
    let ghost full = cmds_model(commands@);
    let ghost st0 = EvalState { stack: stack@, mode: *mode as int, interval: *interval };
    proof {
        lemma_cmds_model_index(commands@);
    }
    let mut i: usize = 0;
    while i < commands.len()
        invariant
            *mode <= 2,
            i <= commands.len(),
            full == cmds_model(commands@),
            full.len() == commands@.len(),
            forall|j: int|
                0 <= j < commands@.len() ==> #[trigger] full[j] == cmd_model(commands@[j]),
            st0 == (EvalState {
                stack: old(stack)@,
                mode: *old(mode) as int,
                interval: *old(interval),
            }),
            spec_eval(full, 0, st0, coords) == spec_eval(
                full,
                i as int,
                EvalState { stack: stack@, mode: *mode as int, interval: *interval },
                coords,
            ),
        decreases commands@.len() - i,
    {
        let ghost pre = EvalState { stack: stack@, mode: *mode as int, interval: *interval };
        let ghost n = pre.stack.len() as int;
        let cmd = &commands[i];
        proof {
            assert(full[i as int] == cmd_model(*cmd));
        }
        match cmd {
            Command::Coordinates(c) => {
                let v = match c {
                    Coordinates::X => coords.x,
                    Coordinates::Y => coords.y,
                    Coordinates::T => coords.t,
                };
                stack.push(v);
            },
            Command::Integer => {
                stack.push(0);
            },
            Command::Digit(d) => {
                let top = match stack.pop() {
                    Some(t) => t,
                    None => {
                        return Err(FxytError::StackEmpty);
                    },
                };
                stack.push(top.wrapping_mul(10).wrapping_add(*d as i64));
                proof {
                    assert(stack@ =~= pre.stack.take(n - 1).push(
                        vstd::wrapping::i64_specs::wrapping_add(
                            vstd::wrapping::i64_specs::wrapping_mul(top, 10),
                            *d as i64,
                        ),
                    ));
                }
            },
            Command::Arithmetic(a) => {
                let right = match stack.pop() {
                    Some(t) => t,
                    None => {
                        return Err(FxytError::StackEmpty);
                    },
                };
                let left = match stack.pop() {
                    Some(t) => t,
                    None => {
                        return Err(FxytError::StackEmpty);
                    },
                };
                let value = match a {
                    Arithmetic::Plus => left.wrapping_add(right),
                    Arithmetic::Minus => left.wrapping_sub(right),
                    Arithmetic::Times => left.wrapping_mul(right),
                    Arithmetic::Divide => {
                        if right == 0 {
                            match *mode {
                                0 => {
                                    return Err(FxytError::DivideByZero);
                                },
                                1 => {
                                    return Ok(Some(Color::new(0, 0, 0)));
                                },
                                2 => {
                                    return Ok(Some(Color::new(255, 0, 0)));
                                },
                                _ => {
                                    return Err(FxytError::ModeOutOfRange);
                                },
                            }
                        }
                        div_exec(left, right)
                    },
                    Arithmetic::Modulus => {
                        if right == 0 {
                            match *mode {
                                0 => {
                                    return Err(FxytError::DivideByZero);
                                },
                                1 => {
                                    return Ok(Some(Color::new(0, 0, 0)));
                                },
                                2 => {
                                    return Ok(Some(Color::new(255, 0, 0)));
                                },
                                _ => {
                                    return Err(FxytError::ModeOutOfRange);
                                },
                            }
                        }
                        rem_exec(left, right)
                    },
                };
                stack.push(value);
                proof {
                    assert(pre.stack.take(n - 1).take(n - 2) =~= pre.stack.take(n - 2));
                    assert(stack@ =~= pre.stack.take(n - 2).push(value));
                }
            },
            Command::Mode => {
                *mode += 1;
            },
            Command::Comparison(c) => {
                let right = match stack.pop() {
                    Some(t) => t,
                    None => {
                        return Err(FxytError::StackEmpty);
                    },
                };
                let left = match stack.pop() {
                    Some(t) => t,
                    None => {
                        return Err(FxytError::StackEmpty);
                    },
                };
                let holds = match c {
                    Comparison::Equals => left == right,
                    Comparison::LessThan => left < right,
                    Comparison::GreaterThan => left > right,
                };
                let value: i64 = if holds {
                    1
                } else {
                    0
                };
                stack.push(value);
                proof {
                    assert(pre.stack.take(n - 1).take(n - 2) =~= pre.stack.take(n - 2));
                    assert(stack@ =~= pre.stack.take(n - 2).push(value));
                }
            },
            Command::Invert => {
                let arg = match stack.pop() {
                    Some(t) => t,
                    None => {
                        return Err(FxytError::StackEmpty);
                    },
                };
                let value: i64 = if arg == 0 {
                    1
                } else {
                    0
                };
                stack.push(value);
            },
            Command::Bitwise(b) => {
                let right = match stack.pop() {
                    Some(t) => t,
                    None => {
                        return Err(FxytError::StackEmpty);
                    },
                };
                let left = match stack.pop() {
                    Some(t) => t,
                    None => {
                        return Err(FxytError::StackEmpty);
                    },
                };
                let value = match b {
                    Bitwise::Xor => left ^ right,
                    Bitwise::And => left & right,
                    Bitwise::Or => left | right,
                };
                stack.push(value);
                proof {
                    assert(pre.stack.take(n - 1).take(n - 2) =~= pre.stack.take(n - 2));
                    assert(stack@ =~= pre.stack.take(n - 2).push(value));
                }
            },
            Command::Clip => {
                let arg = match stack.pop() {
                    Some(t) => t,
                    None => {
                        return Err(FxytError::StackEmpty);
                    },
                };
                let value: i64 = if arg < 0 {
                    0
                } else if arg > 255 {
                    255
                } else {
                    arg
                };
                stack.push(value);
            },
            Command::StackOperation(so) => {
                match so {
                    StackOperation::Duplicate => {
                        let arg = match stack.pop() {
                            Some(t) => t,
                            None => {
                                return Err(FxytError::StackEmpty);
                            },
                        };
                        stack.push(arg);
                        stack.push(arg);
                        proof {
                            assert(pre.stack.take(n - 1).push(arg) =~= pre.stack);
                            assert(stack@ =~= pre.stack.push(arg));
                        }
                    },
                    StackOperation::Pop => {
                        match stack.pop() {
                            Some(_) => (),
                            None => {
                                return Err(FxytError::StackEmpty);
                            },
                        }
                    },
                    StackOperation::Swap => {
                        let right = match stack.pop() {
                            Some(t) => t,
                            None => {
                                return Err(FxytError::StackEmpty);
                            },
                        };
                        let left = match stack.pop() {
                            Some(t) => t,
                            None => {
                                return Err(FxytError::StackEmpty);
                            },
                        };
                        stack.push(right);
                        stack.push(left);
                        proof {
                            assert(pre.stack.take(n - 1).take(n - 2) =~= pre.stack.take(n - 2));
                            assert(stack@ =~= pre.stack.take(n - 2).push(right).push(left));
                        }
                    },
                    StackOperation::Rotate => {
                        let top = match stack.pop() {
                            Some(t) => t,
                            None => {
                                return Err(FxytError::StackEmpty);
                            },
                        };
                        let second = match stack.pop() {
                            Some(t) => t,
                            None => {
                                return Err(FxytError::StackEmpty);
                            },
                        };
                        let third = match stack.pop() {
                            Some(t) => t,
                            None => {
                                return Err(FxytError::StackEmpty);
                            },
                        };
                        stack.push(second);
                        stack.push(top);
                        stack.push(third);
                        proof {
                            assert(pre.stack.take(n - 1).take(n - 2) =~= pre.stack.take(n - 2));
                            assert(pre.stack.take(n - 2).take(n - 3) =~= pre.stack.take(n - 3));
                            assert(stack@ =~= pre.stack.take(n - 3).push(second).push(top).push(
                                third,
                            ));
                        }
                    },
                }
            },
            Command::Loop(body) => {
                proof {
                    assert(decreases_to!(commands@ => commands@[i as int]));
                    assert(decreases_to!(commands@[i as int] => *body));
                    assert(decreases_to!(*body => body@));
                }
                match render_to_stack(body, stack, mode, interval, coords) {
                    Ok(None) => (),
                    Ok(Some(colour)) => {
                        return Ok(Some(colour));
                    },
                    Err(e) => {
                        return Err(e);
                    },
                }
            },
            Command::FrameInterval => {
                let arg = match stack.pop() {
                    Some(t) => t,
                    None => {
                        return Err(FxytError::StackEmpty);
                    },
                };
                *interval = Some(arg);
            },
            Command::Debug => {
                return Err(FxytError::DebugHalt);
            },
        }
        if stack.len() > 8 {
            return Err(FxytError::StackOverflow);
        }
        if *mode > 2 {
            return Err(FxytError::ModeOutOfRange);
        }
        i += 1;
    }
    Ok(None)
}

/// Evaluate the command tree for one coordinate triple against a fresh stack
/// and mode register, returning the pixel's colour and the frame-interval
/// hint the evaluation reported, or the error that stopped it.
pub fn render_to_pixel(commands: &Vec<Command>, coords: Coords) -> (r: Result<
    (Color, Option<i64>),
    FxytError,
>)
    ensures
        r == spec_pixel(cmds_model(commands@), coords),
{
    let mut stack: Vec<i64> = Vec::new();
    let mut mode: u8 = 0;
    let mut interval: Option<i64> = None;

    match render_to_stack(commands, &mut stack, &mut mode, &mut interval, coords) {
        Err(e) => Err(e),
        Ok(Some(colour)) => Ok((colour, interval)),
        Ok(None) => {
            let blue = match stack.pop() {
                Some(v) => v,
                None => 0,
            };
            let green = match stack.pop() {
                Some(v) => v,
                None => 0,
            };
            let red = match stack.pop() {
                Some(v) => v,
                None => 0,
            };
            if red > 255 || green > 255 || blue > 255 || red < 0 || green < 0 || blue < 0 {
                Err(FxytError::RgbOutOfRange)
            } else {
                Ok((Color { r: red as u8, g: green as u8, b: blue as u8 }, interval))
            }
        },
    }
}

/// Truncated 64-bit division with the single overflow case wrapped, computed
/// through `checked_div`.
fn div_exec(l: i64, r: i64) -> (q: i64)
    requires
        r != 0,
    ensures
        q == div_wrap(l, r),
{
    if l == i64::MIN && r == -1 {
        i64::MIN
    } else {
        proof {
            lemma_trunc_div_in_range(l, r);
        }
        l.checked_div(r).unwrap()
    }
}

/// Truncated 64-bit remainder with the single overflow case wrapped, computed
/// through `checked_rem`.
fn rem_exec(l: i64, r: i64) -> (q: i64)
    requires
        r != 0,
    ensures
        q == rem_wrap(l, r),
{
    if l == i64::MIN && r == -1 {
        0
    } else {
        proof {
            lemma_trunc_rem_in_range(l, r);
        }
        l.checked_rem(r).unwrap()
    }
}

/// The truncated remainder of 64-bit values is strictly smaller than the
/// divisor in magnitude, so it always fits in 64 bits.
proof fn lemma_trunc_rem_in_range(l: i64, r: i64)
    requires
        r != 0,
    ensures
        i64::MIN <= trunc_rem_int(l as int, r as int) <= i64::MAX,
{
    let x = l as int;
    let d = r as int;
    broadcast use vstd::arithmetic::div_mod::lemma_mod_bound;

    if x > 0 && d > 0 {
        assert(0 <= x % d < d);
    } else if x < 0 && d < 0 {
        assert(0 <= (x * -1) % (d * -1) < d * -1);
    } else if x < 0 {
        assert(0 <= (x * -1) % d < d);
    } else if x > 0 {
        assert(0 <= x % (d * -1) < d * -1);
    }
}

/// Truncated division of 64-bit values stays within one of the 64-bit bound,
/// reaching it only for the minimum value divided by -1.
proof fn lemma_trunc_div_in_range(l: i64, r: i64)
    requires
        r != 0,
        !(l == i64::MIN && r == -1),
    ensures
        i64::MIN <= trunc_div_int(l as int, r as int) <= i64::MAX,
{
    let x = l as int;
    let d = r as int;
    broadcast use vstd::arithmetic::div_mod::lemma_div_basics_4;
    broadcast use vstd::arithmetic::div_mod::lemma_div_basics_5;

    if x < 0 && d < 0 && x == i64::MIN as int {
        assert(d * -1 >= 2);
        vstd::arithmetic::div_mod::lemma_div_is_ordered_by_denominator(x * -1, 2, d * -1);
        assert((x * -1) / 2 == 0x4000_0000_0000_0000);
    }
}

} // verus!
