use vstd::prelude::*;

use crate::ast::{CmdModel, Coords, StackOperation};
use crate::errors::ParseError;
use crate::eval::{spec_eval, spec_pixel, spec_step, EvalOutcome, EvalState};
use crate::parse::{char_command, lemma_spec_parse_bounds, spec_parse};
use crate::render::{coords_at, spec_frame, spec_frame_count, spec_frames, spec_pixels,
    spec_render};

verus! {

/// How many characters a parsed command accounts for: one for each plain
/// command, and for a group its two brackets plus its children.
pub open spec fn cmd_weight(m: CmdModel) -> int
    decreases m,
{
    match m {
        CmdModel::Loop(body) => 2 + seq_weight(body),
        _ => 1,
    }
}

/// How many characters a parsed command sequence accounts for.
pub open spec fn seq_weight(s: Seq<CmdModel>) -> int
    decreases s,
{
    if s.len() == 0 {
        0
    } else {
        cmd_weight(s[0]) + seq_weight(s.subrange(1, s.len() as int))
    }
}

/// The weight of a command prepended to a sequence.
proof fn lemma_weight_cons(m: CmdModel, rest: Seq<CmdModel>)
    ensures
        seq_weight(seq![m] + rest) == cmd_weight(m) + seq_weight(rest),
{
    let s = seq![m] + rest;
    assert(s[0] == m);
    assert(s.subrange(1, s.len() as int) =~= rest);
}

/// What a successful parse consumes: the weight of the commands it returns,
/// plus the closing bracket when it parses a group body; a successful
/// top-level parse consumes the input to its end.
proof fn lemma_parse_weight(s: Seq<char>, pos: int, nesting: int, start: int)
    requires
        0 <= pos <= s.len(),
        0 <= nesting,
    ensures
        (spec_parse(s, pos, nesting, start) matches Ok((e, c)) ==> e == seq_weight(c) + (
        if nesting > 0 {
            1int
        } else {
            0int
        }) && (nesting == 0 ==> pos + e == s.len())),
    decreases s.len() - pos,
{
    if pos < s.len() {
        let c = s[pos];
        if c == '[' && nesting < 8 {
            lemma_spec_parse_bounds(s, pos + 1, nesting + 1, pos);
            lemma_parse_weight(s, pos + 1, nesting + 1, pos);
            match spec_parse(s, pos + 1, nesting + 1, pos) {
                Err(_) => {},
                Ok((ein, body)) => {
                    lemma_parse_weight(s, pos + 1 + ein, nesting, start);
                    match spec_parse(s, pos + 1 + ein, nesting, start) {
                        Err(_) => {},
                        Ok((erest, crest)) => {
                            lemma_weight_cons(CmdModel::Loop(body), crest);
                        },
                    }
                },
            }
        } else if c != '[' && c != ']' {
            match char_command(c) {
                None => {},
                Some(m) => {
                    lemma_parse_weight(s, pos + 1, nesting, start);
                    match spec_parse(s, pos + 1, nesting, start) {
                        Err(_) => {},
                        Ok((erest, crest)) => {
                            lemma_weight_cons(m, crest);
                        },
                    }
                },
            }
        }
    }
}

/// Parsing is deterministic and total: `spec_parse` is a function of the
/// input text alone, so equal inputs always yield the same single result,
/// either one command sequence or one error. On success a whole-program parse
/// consumes exactly the input, whose length the command tree accounts for:
/// one character per plain command and two brackets per group.
pub proof fn lemma_parse_total_size(s: Seq<char>)
    ensures
        (spec_parse(s, 0, 0, 0) matches Ok((e, c)) ==> e == s.len() && s.len() == seq_weight(c)),
{
    lemma_parse_weight(s, 0, 0, 0);
}

/// A parse error relocated `k` characters to the right.
pub open spec fn shift_err(e: ParseError, k: int) -> ParseError {
    match e {
        ParseError::InvalidCharacter(p) => ParseError::InvalidCharacter((p + k) as usize),
        ParseError::BracketMismatch(p) => ParseError::BracketMismatch((p + k) as usize),
        ParseError::LoopNesting => ParseError::LoopNesting,
    }
}

/// Parsing reads only the text from the scan position on: parsing a suffix
/// as a text of its own gives the same count and commands, with error
/// positions relocated by the cut.
proof fn lemma_parse_shift(s: Seq<char>, k: int, pos: int, nesting: int, start: int)
    requires
        0 <= k <= s.len(),
        0 <= pos,
        0 <= start,
        s.len() <= usize::MAX,
        start + k <= usize::MAX,
    ensures
        (match spec_parse(s.subrange(k, s.len() as int), pos, nesting, start) {
            Ok((e, c)) => spec_parse(s, k + pos, nesting, k + start) == Ok::<
                (int, Seq<CmdModel>),
                ParseError,
            >((e, c)),
            Err(e) => spec_parse(s, k + pos, nesting, k + start) == Err::<
                (int, Seq<CmdModel>),
                ParseError,
            >(shift_err(e, k)),
        }),
    decreases s.len() - k - pos,
{
    let u = s.subrange(k, s.len() as int);
    if pos < u.len() {
        let c = u[pos];
        assert(s[k + pos] == c);
        if c == '[' {
            if nesting < 8 {
                lemma_parse_shift(s, k, pos + 1, nesting + 1, pos);
                match spec_parse(u, pos + 1, nesting + 1, pos) {
                    Err(_) => {},
                    Ok((ein, body)) => {
                        if 0 <= ein && pos + 1 + ein <= u.len() {
                            lemma_parse_shift(s, k, pos + 1 + ein, nesting, start);
                        }
                    },
                }
            }
        } else if c != ']' {
            match char_command(c) {
                None => {},
                Some(_) => {
                    lemma_parse_shift(s, k, pos + 1, nesting, start);
                },
            }
        }
    }
}

/// A nested parse never reads past the close bracket that ends it: appending
/// text to the input leaves an already successful group-body parse as it is.
proof fn lemma_parse_extend(u: Seq<char>, tail: Seq<char>, pos: int, nesting: int, start: int)
    requires
        0 <= pos <= u.len(),
        1 <= nesting,
    ensures
        (spec_parse(u, pos, nesting, start) matches Ok((e, c)) ==> spec_parse(
            u + tail,
            pos,
            nesting,
            start,
        ) == Ok::<(int, Seq<CmdModel>), ParseError>((e, c))),
    decreases u.len() - pos,
{
    let w = u + tail;
    if pos < u.len() {
        let c = u[pos];
        assert(w[pos] == c);
        if c == '[' && nesting < 8 {
            lemma_parse_extend(u, tail, pos + 1, nesting + 1, pos);
            lemma_spec_parse_bounds(u, pos + 1, nesting + 1, pos);
            match spec_parse(u, pos + 1, nesting + 1, pos) {
                Err(_) => {},
                Ok((ein, body)) => {
                    if 0 <= ein && pos + 1 + ein <= u.len() {
                        lemma_parse_extend(u, tail, pos + 1 + ein, nesting, start);
                    }
                },
            }
        } else if c != '[' && c != ']' {
            if char_command(c) is Some {
                lemma_parse_extend(u, tail, pos + 1, nesting, start);
            }
        }
    }
}

/// Where a parse succeeds, the recorded group-opening position was never
/// consulted: it only positions the error for an unclosed group.
proof fn lemma_parse_start_any(s: Seq<char>, pos: int, nesting: int, st1: int, st2: int)
    ensures
        (spec_parse(s, pos, nesting, st1) matches Ok((e, c)) ==> spec_parse(s, pos, nesting, st2)
            == Ok::<(int, Seq<CmdModel>), ParseError>((e, c))),
    decreases s.len() - pos,
{
    if pos < s.len() {
        let c = s[pos];
        if c == '[' && nesting < 8 {
            match spec_parse(s, pos + 1, nesting + 1, pos) {
                Err(_) => {},
                Ok((ein, body)) => {
                    if 0 <= ein && pos + 1 + ein <= s.len() {
                        lemma_parse_start_any(s, pos + 1 + ein, nesting, st1, st2);
                    }
                },
            }
        } else if c != '[' && c != ']' {
            if char_command(c) is Some {
                lemma_parse_start_any(s, pos + 1, nesting, st1, st2);
            }
        }
    }
}

/// At the top nesting level the group-opening position plays no part at all:
/// the scan ends at the end of input, never at an unclosed group of its own.
proof fn lemma_parse_start_top(s: Seq<char>, pos: int, st1: int, st2: int)
    ensures
        spec_parse(s, pos, 0, st1) == spec_parse(s, pos, 0, st2),
    decreases s.len() - pos,
{
    if pos < s.len() {
        let c = s[pos];
        if c == '[' {
            match spec_parse(s, pos + 1, 1, pos) {
                Err(_) => {},
                Ok((ein, body)) => {
                    if 0 <= ein && pos + 1 + ein <= s.len() {
                        lemma_parse_start_top(s, pos + 1 + ein, st1, st2);
                    }
                },
            }
        } else if c != ']' {
            if char_command(c) is Some {
                lemma_parse_start_top(s, pos + 1, st1, st2);
            }
        }
    }
}

/// Round trip for bracket groups: where the inner text followed by a close
/// bracket parses as a complete group body one level deeper, a program made
/// of that bracketed group and any tail parses to one group command holding
/// exactly those children, followed by the parse of the tail alone, whose
/// error positions relocate past the group.
pub proof fn lemma_group_roundtrip(inner: Seq<char>, tail: Seq<char>)
    requires
        inner.len() + tail.len() + 2 <= usize::MAX,
        (spec_parse(inner.push(']'), 0, 1, 0) matches Ok((e, body)) && e == inner.len() + 1),
    ensures
        (match spec_parse(tail, 0, 0, 0) {
            Ok((er, cr)) => spec_parse(seq!['['] + inner.push(']') + tail, 0, 0, 0) == Ok::<
                (int, Seq<CmdModel>),
                ParseError,
            >(
                (
                    inner.len() + 2 + er,
                    seq![CmdModel::Loop(spec_parse(inner.push(']'), 0, 1, 0)->Ok_0.1)] + cr,
                ),
            ),
            Err(e) => spec_parse(seq!['['] + inner.push(']') + tail, 0, 0, 0) == Err::<
                (int, Seq<CmdModel>),
                ParseError,
            >(shift_err(e, inner.len() + 2 as int)),
        }),
{
    let g = inner.push(']');
    let full = seq!['['] + g + tail;
    let body = spec_parse(g, 0, 1, 0)->Ok_0.1;
    let k = inner.len() + 2 as int;
    assert(full.len() == inner.len() + 2 + tail.len());
    assert(full[0] == '[');

    lemma_parse_extend(g, tail, 0, 1, 0);
    assert(spec_parse(g + tail, 0, 1, 0) == Ok::<(int, Seq<CmdModel>), ParseError>(
        (inner.len() + 1 as int, body),
    ));
    assert(full.subrange(1, full.len() as int) =~= g + tail);
    lemma_parse_shift(full, 1, 0, 1, 0);
    lemma_parse_start_any(full, 1, 1, 1, 0);
    assert(spec_parse(full, 1, 1, 0) == Ok::<(int, Seq<CmdModel>), ParseError>(
        (inner.len() + 1 as int, body),
    ));

    assert(full.subrange(k, full.len() as int) =~= tail);
    lemma_parse_shift(full, k, 0, 0, 0);
    lemma_parse_start_top(full, k, k, 0);
}

/// Round trip for a group nested at depth `d`: where the inner text followed
/// by a close bracket parses as a complete group body at depth `d + 1`, the
/// bracketed group followed by the enclosing group's own close bracket parses
/// at depth `d` — whatever position the enclosing group was opened at — into
/// one group command holding exactly those children.
pub proof fn lemma_group_roundtrip_nested(inner: Seq<char>, d: int, st: int)
    requires
        1 <= d <= 7,
        inner.len() + 3 <= usize::MAX,
        (spec_parse(inner.push(']'), 0, d + 1, 0) matches Ok((e, body)) && e == inner.len() + 1),
    ensures
        spec_parse((seq!['['] + inner.push(']')).push(']'), 0, d, st) == Ok::<
            (int, Seq<CmdModel>),
            ParseError,
        >(
            (
                inner.len() + 3 as int,
                seq![CmdModel::Loop(spec_parse(inner.push(']'), 0, d + 1, 0)->Ok_0.1)],
            ),
        ),
{
    let g = inner.push(']');
    let full = (seq!['['] + g).push(']');
    let body = spec_parse(g, 0, d + 1, 0)->Ok_0.1;
    let k = inner.len() + 2 as int;
    assert(full =~= seq!['['] + (g + seq![']']));
    assert(full[0] == '[');
    assert(full[k] == ']');

    lemma_parse_extend(g, seq![']'], 0, d + 1, 0);
    assert(full.subrange(1, full.len() as int) =~= g + seq![']']);
    lemma_parse_shift(full, 1, 0, d + 1, 0);
    lemma_parse_start_any(full, 1, d + 1, 1, 0);
    assert(spec_parse(full, 1, d + 1, 0) == Ok::<(int, Seq<CmdModel>), ParseError>(
        (inner.len() + 1 as int, body),
    ));
    assert(spec_parse(full, k, d, st) == Ok::<(int, Seq<CmdModel>), ParseError>(
        (1, Seq::<CmdModel>::empty()),
    ));
    assert(seq![CmdModel::Loop(body)] + Seq::<CmdModel>::empty() =~= seq![CmdModel::Loop(body)]);
}

/// Above the nesting limit a group always fails: whatever the text holds, an
/// open bracket met at nesting depth 8 is a nesting error.
pub proof fn lemma_nesting_limit(s: Seq<char>, pos: int, nesting: int, start: int)
    requires
        0 <= pos < s.len(),
        s[pos] == '[',
        nesting >= 8,
    ensures
        spec_parse(s, pos, nesting, start) == Err::<(int, Seq<CmdModel>), ParseError>(
            ParseError::LoopNesting,
        ),
{
}

/// Each colour in a frame's pixel run comes from its own coordinate
/// evaluation, in row-major order from index `p` on.
proof fn lemma_spec_pixels_index(cmds: Seq<CmdModel>, t: int, p: int)
    requires
        0 <= p <= 65536,
    ensures
        (spec_pixels(cmds, t, p) matches Ok(img) ==> img.len() == 65536 - p && forall|j: int|
            #![trigger img[j]]
            #![trigger spec_pixel(cmds, coords_at(p + j, t))]
            0 <= j < img.len() ==> spec_pixel(cmds, coords_at(p + j, t)) is Ok && img[j]
                == spec_pixel(cmds, coords_at(p + j, t))->Ok_0.0),
    decreases 65536 - p,
{
    if p < 65536 {
        match spec_pixel(cmds, coords_at(p, t)) {
            Err(_) => {},
            Ok((c, _)) => {
                lemma_spec_pixels_index(cmds, t, p + 1);
                match spec_pixels(cmds, t, p + 1) {
                    Err(_) => {},
                    Ok(rest) => {
                        let img = spec_pixels(cmds, t, p)->Ok_0;
                        assert(img == seq![c] + rest);
                        assert forall|j: int|
                            #![trigger img[j]]
                            #![trigger spec_pixel(cmds, coords_at(p + j, t))]
                            0 <= j < img.len() implies spec_pixel(cmds, coords_at(p + j, t)) is Ok
                            && img[j] == spec_pixel(cmds, coords_at(p + j, t))->Ok_0.0 by {
                            if j > 0 {
                                assert(rest[j - 1] == spec_pixel(
                                    cmds,
                                    coords_at(p + 1 + (j - 1), t),
                                )->Ok_0.0);
                                assert(spec_pixel(cmds, coords_at(p + 1 + (j - 1), t)) is Ok);
                                assert(p + 1 + (j - 1) == p + j);
                                assert(img[j] == rest[j - 1]);
                            } else {
                                assert(img[j] == c);
                                assert(p + j == p);
                            }
                        }
                    },
                }
            },
        }
    }
}

/// Each frame in a successful run of frames is the frame of its own time
/// step, from step `t` on.
proof fn lemma_spec_frames_index(cmds: Seq<CmdModel>, nframes: int, t: int)
    requires
        0 <= t <= nframes,
    ensures
        (spec_frames(cmds, nframes, t) matches Ok(fs) ==> fs.len() == nframes - t && forall|
            j: int,
        |
            #![trigger fs[j]]
            #![trigger spec_frame(cmds, t + j)]
            0 <= j < fs.len() ==> spec_frame(cmds, t + j) is Ok && fs[j] == spec_frame(
                cmds,
                t + j,
            )->Ok_0),
    decreases nframes - t,
{
    if t < nframes {
        match spec_frame(cmds, t) {
            Err(_) => {},
            Ok(fm) => {
                lemma_spec_frames_index(cmds, nframes, t + 1);
                match spec_frames(cmds, nframes, t + 1) {
                    Err(_) => {},
                    Ok(rest) => {
                        let fs = spec_frames(cmds, nframes, t)->Ok_0;
                        assert(fs == seq![fm] + rest);
                        assert forall|j: int|
                            #![trigger fs[j]]
                            #![trigger spec_frame(cmds, t + j)]
                            0 <= j < fs.len() implies spec_frame(cmds, t + j) is Ok && fs[j]
                            == spec_frame(cmds, t + j)->Ok_0 by {
                            if j > 0 {
                                assert(rest[j - 1] == spec_frame(cmds, t + 1 + (j - 1))->Ok_0);
                                assert(spec_frame(cmds, t + 1 + (j - 1)) is Ok);
                                assert(t + 1 + (j - 1) == t + j);
                                assert(fs[j] == rest[j - 1]);
                            } else {
                                assert(fs[j] == fm);
                                assert(t + j == t);
                            }
                        }
                    },
                }
            },
        }
    }
}

/// What a successful render holds, pixel by pixel: there is one frame per
/// time step, each frame carries 65536 pixels, and the pixel at row-major
/// index p of frame t is the colour its own coordinate evaluation yields —
/// every one of those evaluations having succeeded.
pub proof fn lemma_render_pointwise(s: Seq<char>)
    ensures
        (spec_render(s) matches Ok(fms) ==> spec_parse(s, 0, 0, 0) matches Ok(pr) && {
            let cmds = pr.1;
            &&& fms.len() == spec_frame_count(s)
            &&& forall|t: int|
                0 <= t < fms.len() ==> (#[trigger] fms[t]).image.len() == 65536
            &&& forall|t: int, p: int|
                #![trigger fms[t].image[p]]
                #![trigger spec_pixel(cmds, coords_at(p, t))]
                0 <= t < fms.len() && 0 <= p < 65536 ==> spec_pixel(cmds, coords_at(p, t)) is Ok
                    && fms[t].image[p] == spec_pixel(cmds, coords_at(p, t))->Ok_0.0
        }),
{
    match spec_render(s) {
        Err(_) => {},
        Ok(fms) => {
            let cmds = spec_parse(s, 0, 0, 0)->Ok_0.1;
            let nframes = spec_frame_count(s);
            lemma_spec_frames_index(cmds, nframes, 0);
            assert forall|t: int, p: int|
                #![trigger fms[t].image[p]]
                #![trigger spec_pixel(cmds, coords_at(p, t))]
                0 <= t < fms.len() && 0 <= p < 65536 implies spec_pixel(cmds, coords_at(p, t))
                is Ok && fms[t].image[p] == spec_pixel(cmds, coords_at(p, t))->Ok_0.0 by {
                lemma_spec_pixels_index(cmds, t, 0);
                assert(fms[t] == spec_frame(cmds, t)->Ok_0);
                let img0 = spec_pixels(cmds, t, 0)->Ok_0;
                assert(fms[t].image == img0);
                assert(img0[p] == spec_pixel(cmds, coords_at(0 + p, t))->Ok_0.0);
                assert(spec_pixel(cmds, coords_at(0 + p, t)) is Ok);
                assert(0 + p == p);
            }
            assert forall|t: int| 0 <= t < fms.len() implies (#[trigger] fms[t]).image.len()
                == 65536 by {
                lemma_spec_pixels_index(cmds, t, 0);
                assert(fms[t] == spec_frame(cmds, t)->Ok_0);
            }
        },
    }
}

/// The machine invariants: an evaluation that runs to completion leaves at
/// most 8 stack values and a mode register of at most 2, because the depth
/// and mode checks run after every single command, through all group nesting.
pub proof fn lemma_eval_bounds(cmds: Seq<CmdModel>, i: int, st: EvalState, co: Coords)
    requires
        st.stack.len() <= 8,
        0 <= st.mode <= 2,
    ensures
        (spec_eval(cmds, i, st, co) matches EvalOutcome::Next(st2) ==> st2.stack.len() <= 8 && 0
            <= st2.mode <= 2),
    decreases cmds, cmds.len() - i,
{
    if 0 <= i && i < cmds.len() {
        let out = match cmds[i] {
            CmdModel::Loop(body) => spec_eval(body, 0, st, co),
            m => spec_step(m, st, co),
        };
        match cmds[i] {
            CmdModel::Loop(body) => {
                assert(decreases_to!(cmds => cmds[i]));
                assert(decreases_to!(cmds[i] => body));
                lemma_eval_bounds(body, 0, st, co);
            },
            _ => {},
        }
        match out {
            EvalOutcome::Next(st2) => {
                if st2.stack.len() <= 8 && st2.mode <= 2 {
                    assert(0 <= st2.mode);
                    lemma_eval_bounds(cmds, i + 1, st2, co);
                }
            },
            _ => {},
        }
    }
}

/// A short-circuit colour is final: once a command sequence halts with a
/// colour, appending further commands cannot change the outcome.
pub proof fn lemma_short_circuit(
    cmds: Seq<CmdModel>,
    more: Seq<CmdModel>,
    i: int,
    st: EvalState,
    co: Coords,
)
    ensures
        (spec_eval(cmds, i, st, co) matches EvalOutcome::Halt(c, iv) ==> spec_eval(
            cmds + more,
            i,
            st,
            co,
        ) == EvalOutcome::Halt(c, iv)),
    decreases cmds, cmds.len() - i,
{
    let w = cmds + more;
    if 0 <= i && i < cmds.len() {
        assert(w[i] == cmds[i]);
        let out = match cmds[i] {
            CmdModel::Loop(body) => spec_eval(body, 0, st, co),
            m => spec_step(m, st, co),
        };
        match out {
            EvalOutcome::Next(st2) => {
                if st2.stack.len() <= 8 && st2.mode <= 2 {
                    lemma_short_circuit(cmds, more, i + 1, st2, co);
                }
            },
            _ => {},
        }
    }
}

/// A short-circuit colour raised inside a group ends the whole evaluation:
/// the group command yields it unchanged at the enclosing level, skipping
/// everything that follows.
pub proof fn lemma_group_short_circuit(
    cmds: Seq<CmdModel>,
    i: int,
    body: Seq<CmdModel>,
    st: EvalState,
    co: Coords,
)
    requires
        0 <= i < cmds.len(),
        cmds[i] == CmdModel::Loop(body),
    ensures
        (spec_eval(body, 0, st, co) matches EvalOutcome::Halt(c, iv) ==> spec_eval(cmds, i, st, co)
            == EvalOutcome::Halt(c, iv)),
{
}

/// Rotate-three: with c on top of b on top of a, one rotate command leaves
/// b, c, a — the new top is the value that sat third from the top — and
/// everything beneath stays untouched.
pub proof fn lemma_rotate(below: Seq<i64>, a: i64, b: i64, c: i64, mode: int, iv: Option<i64>, co: Coords)
    requires
        below.len() + 3 <= 8,
        0 <= mode <= 2,
    ensures
        spec_eval(
            seq![CmdModel::StackOperation(StackOperation::Rotate)],
            0,
            (EvalState { stack: below.push(a).push(b).push(c), mode: mode, interval: iv }),
            co,
        ) == EvalOutcome::Next(
            (EvalState { stack: below.push(b).push(c).push(a), mode: mode, interval: iv }),
        ),
{
    let cmds = seq![CmdModel::StackOperation(StackOperation::Rotate)];
    let st = EvalState { stack: below.push(a).push(b).push(c), mode: mode, interval: iv };
    let st2 = EvalState { stack: below.push(b).push(c).push(a), mode: mode, interval: iv };
    let n = st.stack.len() as int;
    assert(st.stack.take(n - 3) =~= below);
    assert(st.stack[n - 3] == a && st.stack[n - 2] == b && st.stack[n - 1] == c);
    assert(st.stack.take(n - 3).push(st.stack[n - 2]).push(st.stack[n - 1]).push(
        st.stack[n - 3],
    ) =~= st2.stack);
    assert(spec_step(cmds[0], st, co) matches EvalOutcome::Next(m) && m =~= st2);
    assert(spec_eval(cmds, 1, st2, co) == EvalOutcome::Next(st2));
}

} // verus!
