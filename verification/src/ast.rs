use vstd::prelude::*;

verus! {

/// Which coordinate a coordinate-push command reads.
#[derive(Clone, Copy, PartialEq, Eq, Debug)]
pub enum Coordinates {
    X,
    Y,
    T,
}

/// The five arithmetic operators of the language.
#[derive(Clone, Copy, PartialEq, Eq, Debug)]
pub enum Arithmetic {
    Plus,
    Minus,
    Times,
    Divide,
    Modulus,
}

/// The three comparison operators; each pushes 1 for true, 0 for false.
#[derive(Clone, Copy, PartialEq, Eq, Debug)]
pub enum Comparison {
    Equals,
    LessThan,
    GreaterThan,
}

/// The three bitwise operators.
#[derive(Clone, Copy, PartialEq, Eq, Debug)]
pub enum Bitwise {
    Xor,
    And,
    Or,
}

/// Pure stack manipulation commands.
#[derive(Clone, Copy, PartialEq, Eq, Debug)]
pub enum StackOperation {
    Duplicate,
    Pop,
    Swap,
    Rotate,
}

/// One parsed unit of program behaviour. A bracketed group becomes a
/// `Loop` node owning its children, so a parsed program is a tree.
#[derive(PartialEq, Eq, Debug)]
pub enum Command {
    Coordinates(Coordinates),
    Integer,
    Digit(u8),
    Arithmetic(Arithmetic),
    Mode,
    Comparison(Comparison),
    Invert,
    Bitwise(Bitwise),
    Clip,
    StackOperation(StackOperation),
    Loop(Vec<Command>),
    FrameInterval,
    Debug,
}

/// Mathematical model of a command: identical to `Command` except that a
/// group holds a `Seq` of child models. All contracts speak about this type.
#[verifier::ext_equal]
pub enum CmdModel {
    Coordinates(Coordinates),
    Integer,
    Digit(u8),
    Arithmetic(Arithmetic),
    Mode,
    Comparison(Comparison),
    Invert,
    Bitwise(Bitwise),
    Clip,
    StackOperation(StackOperation),
    Loop(Seq<CmdModel>),
    FrameInterval,
    Debug,
}

/// The model of a single parsed command.
pub open spec fn cmd_model(c: Command) -> CmdModel
    decreases c,
{
    match c {
        Command::Coordinates(a) => CmdModel::Coordinates(a),
        Command::Integer => CmdModel::Integer,
        Command::Digit(d) => CmdModel::Digit(d),
        Command::Arithmetic(a) => CmdModel::Arithmetic(a),
        Command::Mode => CmdModel::Mode,
        Command::Comparison(a) => CmdModel::Comparison(a),
        Command::Invert => CmdModel::Invert,
        Command::Bitwise(a) => CmdModel::Bitwise(a),
        Command::Clip => CmdModel::Clip,
        Command::StackOperation(a) => CmdModel::StackOperation(a),
        Command::Loop(v) => CmdModel::Loop(cmds_model(v@)),
        Command::FrameInterval => CmdModel::FrameInterval,
        Command::Debug => CmdModel::Debug,
    }
}

/// The model of a parsed command sequence, element by element.
pub open spec fn cmds_model(s: Seq<Command>) -> Seq<CmdModel>
    decreases s,
{
    if s.len() == 0 {
        Seq::empty()
    } else {
        seq![cmd_model(s[0])] + cmds_model(s.subrange(1, s.len() as int))
    }
}

/// One (x, y, t) evaluation point. Values are always in 0..=255, wide
/// enough here that the coordinate pushes can never overflow the stack cells.
#[derive(Clone, Copy, PartialEq, Eq, Debug)]
pub struct Coords {
    pub x: i64,
    pub y: i64,
    pub t: i64,
}

impl Coords {
    /// Package a coordinate triple for evaluation.
    pub fn new(x: usize, y: usize, t: usize) -> (c: Coords)
        requires
            x < 256,
            y < 256,
            t < 256,
        ensures
            c == (Coords { x: x as i64, y: y as i64, t: t as i64 }),
    {
        Coords { x: x as i64, y: y as i64, t: t as i64 }
    }
}

/// One 3-channel 8-bit colour value.
#[derive(Clone, Copy, PartialEq, Eq, Debug)]
pub struct Color {
    pub r: u8,
    pub g: u8,
    pub b: u8,
}

impl Color {
    pub fn new(r: u8, g: u8, b: u8) -> (c: Color)
        ensures
            c == (Color { r, g, b }),
    {
        Color { r, g, b }
    }
}

/// Black, the colour a mode-1 divide-by-zero short-circuits to.
pub open spec fn color_black() -> Color {
    Color { r: 0, g: 0, b: 0 }
}

/// Pure red, the colour a mode-2 divide-by-zero short-circuits to.
pub open spec fn color_red() -> Color {
    Color { r: 255, g: 0, b: 0 }
}

} // verus!
