use vstd::prelude::*;
use vstd::string::StrSliceExecFns;

use crate::ast::{cmds_model, CmdModel, Color, Coords};
use crate::errors::FxytError;
use crate::eval::{render_to_pixel, spec_pixel};
use crate::parse::{parse, spec_parse};

verus! {

/// One rendered 256x256 image. `image` holds the 65536 pixels row-major,
/// with the vertical axis flipped on output: the scanline for coordinate y
/// sits at row 255 - y, so row 0 shows the largest y evaluated. `interval`
/// is the display-duration hint reported by the evaluation at (0, 0), or
/// `None` when that evaluation executed no frame-interval command.
#[derive(PartialEq, Eq, Debug)]
pub struct Frame {
    pub image: Vec<Color>,
    pub interval: Option<i64>,
}

/// The model of one frame.
#[verifier::ext_equal]
pub struct FrameModel {
    pub image: Seq<Color>,
    pub interval: Option<i64>,
}

/// The model of a built frame.
pub open spec fn frame_model(f: Frame) -> FrameModel {
    FrameModel { image: f.image@, interval: f.interval }
}

/// The models of a sequence of built frames.
pub open spec fn frames_models(s: Seq<Frame>) -> Seq<FrameModel> {
    Seq::new(s.len(), |i: int| frame_model(s[i]))
}

/// The coordinates evaluated for row-major pixel index `p` of the frame for
/// time step `t`: the column is the x coordinate, and the row is flipped.
pub open spec fn coords_at(p: int, t: int) -> Coords {
    Coords { x: (p % 256) as i64, y: (255 - p / 256) as i64, t: t as i64 }
}

/// The pixels of the frame for time step `t` from row-major index `p` on:
/// either every remaining evaluation succeeds and this is the sequence of
/// their colours, or the first failure in scan order is the error.
pub open spec fn spec_pixels(cmds: Seq<CmdModel>, t: int, p: int) -> Result<Seq<Color>, FxytError>
    decreases 65536 - p,
{
    if p < 0 || p >= 65536 {
        Ok(Seq::empty())
    } else {
        match spec_pixel(cmds, coords_at(p, t)) {
            Err(e) => Err(e),
            Ok((c, _)) => match spec_pixels(cmds, t, p + 1) {
                Err(e) => Err(e),
                Ok(rest) => Ok(seq![c] + rest),
            },
        }
    }
}

/// The frame for time step `t`: all 65536 pixels in scan order, carrying the
/// interval hint of the evaluation at (0, 0).
pub open spec fn spec_frame(cmds: Seq<CmdModel>, t: int) -> Result<FrameModel, FxytError> {
    match spec_pixels(cmds, t, 0) {
        Err(e) => Err(e),
        Ok(img) => Ok(
            FrameModel {
                image: img,
                interval: match spec_pixel(cmds, Coords { x: 0, y: 0, t: t as i64 }) {
                    Ok((_, iv)) => iv,
                    Err(_) => None,
                },
            },
        ),
    }
}

/// The frames for time steps `t..nframes`, stopping at the first frame whose
/// evaluation fails.
pub open spec fn spec_frames(cmds: Seq<CmdModel>, nframes: int, t: int) -> Result<
    Seq<FrameModel>,
    FxytError,
>
    decreases nframes - t,
{
    if t < 0 || t >= nframes {
        Ok(Seq::empty())
    } else {
        match spec_frame(cmds, t) {
            Err(e) => Err(e),
            Ok(fm) => match spec_frames(cmds, nframes, t + 1) {
                Err(e) => Err(e),
                Ok(rest) => Ok(seq![fm] + rest),
            },
        }
    }
}

/// Whether the program text mentions the time axis; only then does a render
/// cover all 256 time steps.
pub open spec fn spec_has_t(s: Seq<char>) -> bool {
    exists|i: int| 0 <= i < s.len() && (s[i] == 'T' || s[i] == 't')
}

/// How many frames a program renders: 256 when it reads the time axis,
/// otherwise 1.
pub open spec fn spec_frame_count(s: Seq<char>) -> int {
    if spec_has_t(s) {
        256
    } else {
        1
    }
}

/// What rendering a program yields: the parse error if the text is rejected,
/// the frames of `spec_frames` otherwise.
pub open spec fn spec_render(s: Seq<char>) -> Result<Seq<FrameModel>, FxytError> {
    match spec_parse(s, 0, 0, 0) {
        Err(pe) => Err(FxytError::Parse(pe)),
        Ok((_, cmds)) => spec_frames(cmds, spec_frame_count(s), 0),
    }
}

/// Whether the program text contains a time-axis command (`T` or `t`).
fn contains_time_axis(program: &str) -> (b: bool)
    ensures
        b == spec_has_t(program@),
{
    let len = program.unicode_len();
    let mut k: usize = 0;
    let mut found = false;
    while k < len
        invariant
            len == program@.len(),
            k <= len,
            found == exists|i: int| 0 <= i < k && (program@[i] == 'T' || program@[i] == 't'),
        decreases len - k,
    {
        let c = program.get_char(k);
        if c == 'T' || c == 't' {
            proof {
                assert(0 <= k < k + 1 && (program@[k as int] == 'T' || program@[k as int] == 't'));
            }
            found = true;
        }
        k += 1;
    }
    found
}

/// Parse the program and evaluate it for every pixel of every frame, strictly:
/// the first failing evaluation in scan order (frame by frame, top row first,
/// left to right within a row) aborts the whole render with its error.
pub fn render(program: &str) -> (r: Result<Vec<Frame>, FxytError>)
    ensures
        (match spec_render(program@) {
            Ok(fms) => r matches Ok(frames) && frames_models(frames@) == fms,
            Err(e) => r == Err::<Vec<Frame>, FxytError>(e),
        }),
{
    let ghost s = program@;
    let parsed = match parse(program, 0, 0) {
        Ok(p) => p.1,
        Err(e) => {
            return Err(FxytError::Parse(e));
        },
    };
    let ghost cmds = cmds_model(parsed@);
    let nframes: usize = if contains_time_axis(program) {
        256
    } else {
        1
    };

    let mut frames: Vec<Frame> = Vec::new();
    let mut t: usize = 0;
    while t < nframes
        invariant
            s == program@,
            spec_parse(s, 0, 0, 0) matches Ok(pr) && pr.1 == cmds,
            cmds == cmds_model(parsed@),
            nframes as int == spec_frame_count(s),
            t <= nframes,
            frames@.len() == t,
            (match spec_frames(cmds, nframes as int, t as int) {
                Ok(rest) => spec_frames(cmds, nframes as int, 0) matches Ok(all) && all
                    == frames_models(frames@) + rest,
                Err(e) => spec_frames(cmds, nframes as int, 0) == Err::<Seq<FrameModel>, FxytError>(
                    e,
                ),
            }),
        decreases nframes - t,
    {
        let mut image: Vec<Color> = Vec::new();
        let mut hint: Option<i64> = None;
        let mut p: usize = 0;
        while p < 65536
            invariant
                s == program@,
                spec_parse(s, 0, 0, 0) matches Ok(pr) && pr.1 == cmds,
                cmds == cmds_model(parsed@),
                nframes as int == spec_frame_count(s),
                t < nframes,
                t < 256,
                frames@.len() == t,
                (match spec_frames(cmds, nframes as int, t as int) {
                    Ok(rest) => spec_frames(cmds, nframes as int, 0) matches Ok(all) && all
                        == frames_models(frames@) + rest,
                    Err(e) => spec_frames(cmds, nframes as int, 0) == Err::<
                        Seq<FrameModel>,
                        FxytError,
                    >(e),
                }),
                p <= 65536,
                image@.len() == p,
                (match spec_pixels(cmds, t as int, p as int) {
                    Ok(rest2) => spec_pixels(cmds, t as int, 0) matches Ok(img) && img == image@
                        + rest2,
                    Err(e) => spec_pixels(cmds, t as int, 0) == Err::<Seq<Color>, FxytError>(e),
                }),
                (p > 65280 ==> (spec_pixel(cmds, Coords { x: 0, y: 0, t: t as i64 }) matches Ok(ci)
                    && hint == ci.1)),
            decreases 65536 - p,
        {
            let ghost prev_image = image@;
            let row = p / 256;
            let col = p % 256;
            let coords = Coords::new(col, 255 - row, t);
            proof {
                assert(coords_at(p as int, t as int) == coords);
            }
            match render_to_pixel(&parsed, coords) {
                Err(e) => {
                    return Err(e);
                },
                Ok((c, iv)) => {
                    if row == 255 && col == 0 {
                        hint = iv;
                    }
                    image.push(c);
                    proof {
                        match spec_pixels(cmds, t as int, p + 1) {
                            Ok(rest2) => {
                                assert(prev_image + (seq![c] + rest2) =~= prev_image.push(c)
                                    + rest2);
                            },
                            Err(_) => {},
                        }
                    }
                },
            }
            p += 1;
        }
        proof {
            match spec_pixels(cmds, t as int, 0) {
                Ok(img) => {
                    assert(image@ + Seq::<Color>::empty() =~= image@);
                },
                Err(_) => {},
            }
            assert(coords_at(65280, t as int) == (Coords { x: 0, y: 0, t: t as i64 }));
        }
        let ghost prev_frames = frames@;
        frames.push(Frame { image, interval: hint });
        proof {
            assert(frames_models(frames@) =~= frames_models(prev_frames).push(
                frame_model(frames@[prev_frames.len() as int]),
            ));
            match spec_frames(cmds, nframes as int, t + 1) {
                Ok(rest) => {
                    assert(frames_models(prev_frames) + (seq![
                        spec_frame(cmds, t as int)->Ok_0,
                    ] + rest) =~= frames_models(frames@) + rest);
                },
                Err(_) => {},
            }
        }
        t += 1;
    }
    proof {
        match spec_frames(cmds, nframes as int, nframes as int) {
            Ok(rest) => {
                assert(frames_models(frames@) + Seq::<FrameModel>::empty() =~= frames_models(
                    frames@,
                ));
            },
            Err(_) => {},
        }
    }
    Ok(frames)
}

} // verus!
