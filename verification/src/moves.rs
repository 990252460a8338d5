//! The move table: notation tokens and the rotation each one denotes.
//!
//! A token is a base letter plus an optional suffix. The base letter fixes
//! the rotation axis and which layers turn; the suffix fixes the angle:
//! none for 90 degrees, `2` for 180, `'` for 270.

use vstd::prelude::*;

use crate::geom::{dot, in_cube, unit_axis, Pos};

verus! {

/// Which layers a move turns, measured by the position's signed coordinate
/// along the move's axis: the outer face (coordinate > 0), the wide pair of
/// layers (>= 0), the middle slice (== 0), or the whole cube.
#[derive(Clone, Copy, Debug, PartialEq, Eq, Structural)]
pub enum Layers {
    Outer,
    Wide,
    Slice,
    Whole,
}

/// One notation token resolved: rotate the members of `layers` by `angle`
/// degrees about `axis`.
#[derive(Clone, Copy, Debug, PartialEq, Eq, Structural)]
pub struct Move {
    pub axis: Pos,
    pub angle: u32,
    pub layers: Layers,
}

/// The single error of the engine: a token whose base letter or suffix is
/// not in the move table.
#[derive(Clone, Copy, Debug, PartialEq, Eq, Structural)]
pub struct InvalidNotation;

/// A move the table can produce: a cardinal axis and a right angle.
pub open spec fn wf_move(m: Move) -> bool {
    &&& unit_axis(m.axis)
    &&& (m.angle == 90 || m.angle == 180 || m.angle == 270)
}

/// Whether a sticker at `p` is turned by `m`.
pub open spec fn affected(m: Move, p: Pos) -> bool {
    match m.layers {
        Layers::Outer => dot(m.axis, p) > 0,
        Layers::Wide => dot(m.axis, p) >= 0,
        Layers::Slice => dot(m.axis, p) == 0,
        Layers::Whole => true,
    }
}

/// How many quarter turns `m` makes.
pub open spec fn turns(m: Move) -> int {
    m.angle as int / 90
}

/// The move a base letter denotes at its default angle of 90 degrees, or
/// None for a letter outside the table.
pub open spec fn base_move(c: char) -> Option<Move> {
    if c == 'U' {
        Some(Move { axis: Pos { x: 0, y: 1, z: 0 }, angle: 90, layers: Layers::Outer })
    } else if c == 'u' {
        Some(Move { axis: Pos { x: 0, y: 1, z: 0 }, angle: 90, layers: Layers::Wide })
    } else if c == 'D' {
        Some(Move { axis: Pos { x: 0i32, y: -1i32, z: 0i32 }, angle: 90, layers: Layers::Outer })
    } else if c == 'd' {
        Some(Move { axis: Pos { x: 0i32, y: -1i32, z: 0i32 }, angle: 90, layers: Layers::Wide })
    } else if c == 'E' {
        Some(Move { axis: Pos { x: 0, y: 1, z: 0 }, angle: 90, layers: Layers::Slice })
    } else if c == 'y' {
        Some(Move { axis: Pos { x: 0, y: 1, z: 0 }, angle: 90, layers: Layers::Whole })
    } else if c == 'L' {
        Some(Move { axis: Pos { x: -1i32, y: 0i32, z: 0i32 }, angle: 90, layers: Layers::Outer })
    } else if c == 'l' {
        Some(Move { axis: Pos { x: -1i32, y: 0i32, z: 0i32 }, angle: 90, layers: Layers::Wide })
    } else if c == 'R' {
        Some(Move { axis: Pos { x: 1, y: 0, z: 0 }, angle: 90, layers: Layers::Outer })
    } else if c == 'r' {
        Some(Move { axis: Pos { x: 1, y: 0, z: 0 }, angle: 90, layers: Layers::Wide })
    } else if c == 'M' {
        Some(Move { axis: Pos { x: -1i32, y: 0i32, z: 0i32 }, angle: 90, layers: Layers::Slice })
    } else if c == 'x' {
        Some(Move { axis: Pos { x: 1, y: 0, z: 0 }, angle: 90, layers: Layers::Whole })
    } else if c == 'F' {
        Some(Move { axis: Pos { x: 0, y: 0, z: 1 }, angle: 90, layers: Layers::Outer })
    } else if c == 'B' {
        Some(Move { axis: Pos { x: 0i32, y: 0i32, z: -1i32 }, angle: 90, layers: Layers::Outer })
    } else if c == 'S' {
        Some(Move { axis: Pos { x: 0, y: 0, z: 1 }, angle: 90, layers: Layers::Slice })
    } else if c == 'z' {
        Some(Move { axis: Pos { x: 0, y: 0, z: 1 }, angle: 90, layers: Layers::Whole })
    } else {
        None
    }
}

/// The move a whole token denotes: a base letter alone, or a base letter
/// followed by the suffix `2` or `'`; anything else is invalid notation.
pub open spec fn move_of_token(t: Seq<char>) -> Option<Move> {
    if t.len() == 1 {
        base_move(t[0])
    } else if t.len() == 2 {
        match base_move(t[0]) {
            Some(m) => if t[1] == '2' {
                Some(Move { axis: m.axis, angle: 180, layers: m.layers })
            } else if t[1] == '\'' {
                Some(Move { axis: m.axis, angle: 270, layers: m.layers })
            } else {
                None
            },
            None => None,
        }
    } else {
        None
    }
}

/// The token that undoes `t`: a plain token gains a `'`, a `'` token loses
/// it, and a `2` token is its own inverse.
pub open spec fn inverse_token(t: Seq<char>) -> Seq<char> {
    if t.len() == 1 {
        t.push('\'')
    } else if t.len() == 2 && t[1] == '\'' {
        t.take(1)
    } else {
        t
    }
}

/// Every move the table produces is well formed.
pub proof fn lemma_table_wf(t: Seq<char>)
    ensures
        move_of_token(t) matches Some(m) ==> wf_move(m),
{
}

/// The base letter's move, by table lookup.
fn parse_base(c: char) -> (r: Option<Move>)
    ensures
        r == base_move(c),
{
    if c == 'U' {
        Some(Move { axis: Pos { x: 0, y: 1, z: 0 }, angle: 90, layers: Layers::Outer })
    } else if c == 'u' {
        Some(Move { axis: Pos { x: 0, y: 1, z: 0 }, angle: 90, layers: Layers::Wide })
    } else if c == 'D' {
        Some(Move { axis: Pos { x: 0i32, y: -1i32, z: 0i32 }, angle: 90, layers: Layers::Outer })
    } else if c == 'd' {
        Some(Move { axis: Pos { x: 0i32, y: -1i32, z: 0i32 }, angle: 90, layers: Layers::Wide })
    } else if c == 'E' {
        Some(Move { axis: Pos { x: 0, y: 1, z: 0 }, angle: 90, layers: Layers::Slice })
    } else if c == 'y' {
        Some(Move { axis: Pos { x: 0, y: 1, z: 0 }, angle: 90, layers: Layers::Whole })
    } else if c == 'L' {
        Some(Move { axis: Pos { x: -1i32, y: 0i32, z: 0i32 }, angle: 90, layers: Layers::Outer })
    } else if c == 'l' {
        Some(Move { axis: Pos { x: -1i32, y: 0i32, z: 0i32 }, angle: 90, layers: Layers::Wide })
    } else if c == 'R' {
        Some(Move { axis: Pos { x: 1, y: 0, z: 0 }, angle: 90, layers: Layers::Outer })
    } else if c == 'r' {
        Some(Move { axis: Pos { x: 1, y: 0, z: 0 }, angle: 90, layers: Layers::Wide })
    } else if c == 'M' {
        Some(Move { axis: Pos { x: -1i32, y: 0i32, z: 0i32 }, angle: 90, layers: Layers::Slice })
    } else if c == 'x' {
        Some(Move { axis: Pos { x: 1, y: 0, z: 0 }, angle: 90, layers: Layers::Whole })
    } else if c == 'F' {
        Some(Move { axis: Pos { x: 0, y: 0, z: 1 }, angle: 90, layers: Layers::Outer })
    } else if c == 'B' {
        Some(Move { axis: Pos { x: 0i32, y: 0i32, z: -1i32 }, angle: 90, layers: Layers::Outer })
    } else if c == 'S' {
        Some(Move { axis: Pos { x: 0, y: 0, z: 1 }, angle: 90, layers: Layers::Slice })
    } else if c == 'z' {
        Some(Move { axis: Pos { x: 0, y: 0, z: 1 }, angle: 90, layers: Layers::Whole })
    } else {
        None
    }
}

/// Resolves one notation token against the move table.
pub fn parse_move(token: &str) -> (r: Result<Move, InvalidNotation>)
    ensures
        match r {
            Ok(m) => move_of_token(token@) == Some(m) && wf_move(m),
            Err(_) => move_of_token(token@) is None,
        },
{
    let n = token.unicode_len();
    if n == 1 {
        match parse_base(token.get_char(0)) {
            Some(m) => Ok(m),
            None => Err(InvalidNotation),
        }
    } else if n == 2 {
        match parse_base(token.get_char(0)) {
            Some(m) => {
                let suffix = token.get_char(1);
                if suffix == '2' {
                    Ok(Move { axis: m.axis, angle: 180, layers: m.layers })
                } else if suffix == '\'' {
                    Ok(Move { axis: m.axis, angle: 270, layers: m.layers })
                } else {
                    Err(InvalidNotation)
                }
            },
            None => Err(InvalidNotation),
        }
    } else {
        Err(InvalidNotation)
    }
}

/// Whether a sticker at `p` is turned by `m`.
pub fn is_affected(m: &Move, p: Pos) -> (r: bool)
    requires
        wf_move(*m),
        in_cube(p),
    ensures
        r == affected(*m, p),
{
    let d: i32 = if m.axis.x == 1 {
        p.x
    } else if m.axis.x == -1 {
        -p.x
    } else if m.axis.y == 1 {
        p.y
    } else if m.axis.y == -1 {
        -p.y
    } else if m.axis.z == 1 {
        p.z
    } else {
        -p.z
    };
    match m.layers {
        Layers::Outer => d > 0,
        Layers::Wide => d >= 0,
        Layers::Slice => d == 0,
        Layers::Whole => true,
    }
}

} // verus!
