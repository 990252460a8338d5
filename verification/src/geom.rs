//! Integer lattice geometry for the cube.
//!
//! Sticker positions live on the lattice {-3,-2,0,2,3}^3: the coordinate with
//! absolute value 3 names the face a sticker sits on, the remaining two
//! coordinates (drawn from {-2,0,2}) place it within that face. Every move is
//! a rotation by a multiple of 90 degrees about a cardinal axis, which keeps
//! the lattice fixed as a set, so all geometry is exact integer arithmetic.

use vstd::prelude::*;

verus! {

/// A point (or cardinal direction) in the cube's integer coordinate system:
/// x grows to the right, y up, z toward the viewer.
#[derive(Clone, Copy, Debug, PartialEq, Eq, Structural)]
pub struct Pos {
    pub x: i32,
    pub y: i32,
    pub z: i32,
}

/// Every coordinate lies within the cube: needed so that rotations can be
/// computed without overflow.
pub open spec fn in_cube(p: Pos) -> bool {
    &&& -3 <= p.x <= 3
    &&& -3 <= p.y <= 3
    &&& -3 <= p.z <= 3
}

/// A middle-layer coordinate.
pub open spec fn mid_coord(v: int) -> bool {
    v == -2 || v == 0 || v == 2
}

/// A position on the surface of the cube: exactly one coordinate has absolute
/// value 3 (the face), the other two are middle coordinates.
pub open spec fn valid_pos(p: Pos) -> bool {
    ||| (p.x == 3 || p.x == -3) && mid_coord(p.y as int) && mid_coord(p.z as int)
    ||| mid_coord(p.x as int) && (p.y == 3 || p.y == -3) && mid_coord(p.z as int)
    ||| mid_coord(p.x as int) && mid_coord(p.y as int) && (p.z == 3 || p.z == -3)
}

/// A signed cardinal unit vector, the only rotation axes the engine uses.
pub open spec fn unit_axis(a: Pos) -> bool {
    ||| (a.x == 1 || a.x == -1) && a.y == 0 && a.z == 0
    ||| a.x == 0 && (a.y == 1 || a.y == -1) && a.z == 0
    ||| a.x == 0 && a.y == 0 && (a.z == 1 || a.z == -1)
}

/// The dot product of a unit axis with a position: the signed coordinate of
/// the position along that axis (for an `a` that is no unit axis, along -Z).
pub open spec fn dot(a: Pos, p: Pos) -> int {
    if a.x == 1 {
        p.x as int
    } else if a.x == -1 {
        -(p.x as int)
    } else if a.y == 1 {
        p.y as int
    } else if a.y == -1 {
        -(p.y as int)
    } else if a.z == 1 {
        p.z as int
    } else {
        -(p.z as int)
    }
}

/// One quarter turn of `p` about the unit axis `a`, in the direction a move
/// of nominal angle 90 turns its layer: the rotation by -90 degrees about
/// `a` under the right-hand rule, p' = (p x a) + a * (a . p), written out
/// per axis as the signed coordinate permutation it is. For an `a` that is
/// no unit axis the turn is taken about -Z.
pub open spec fn rot1(a: Pos, p: Pos) -> Pos {
    if a.x == 1 {
        Pos { x: p.x, y: p.z, z: (-(p.y as int)) as i32 }
    } else if a.x == -1 {
        Pos { x: p.x, y: (-(p.z as int)) as i32, z: p.y }
    } else if a.y == 1 {
        Pos { x: (-(p.z as int)) as i32, y: p.y, z: p.x }
    } else if a.y == -1 {
        Pos { x: p.z, y: p.y, z: (-(p.x as int)) as i32 }
    } else if a.z == 1 {
        Pos { x: p.y, y: (-(p.x as int)) as i32, z: p.z }
    } else {
        Pos { x: (-(p.y as int)) as i32, y: p.x, z: p.z }
    }
}

/// `n` quarter turns about `a`.
pub open spec fn rotn(a: Pos, p: Pos, n: int) -> Pos
    decreases n,
{
    if n <= 0 {
        p
    } else {
        rot1(a, rotn(a, p, n - 1))
    }
}

/// The face a position belongs to, read off in the fixed priority order
/// x, y, z; 'X' is the sentinel for a position on no face.
pub open spec fn face_char(p: Pos) -> char {
    if p.x == 3 {
        'R'
    } else if p.x == -3 {
        'L'
    } else if p.y == 3 {
        'U'
    } else if p.y == -3 {
        'D'
    } else if p.z == 3 {
        'F'
    } else if p.z == -3 {
        'B'
    } else {
        'X'
    }
}

/// The face a position belongs to.
pub fn get_face(p: Pos) -> (r: char)
    ensures
        r == face_char(p),
{
    if p.x == 3 {
        'R'
    } else if p.x == -3 {
        'L'
    } else if p.y == 3 {
        'U'
    } else if p.y == -3 {
        'D'
    } else if p.z == 3 {
        'F'
    } else if p.z == -3 {
        'B'
    } else {
        'X'
    }
}

/// One quarter turn of `p` about the unit axis `a`.
pub fn rotate_quarter(a: Pos, p: Pos) -> (r: Pos)
    requires
        unit_axis(a),
        in_cube(p),
    ensures
        r == rot1(a, p),
{
    if a.x == 1 {
        Pos { x: p.x, y: p.z, z: -p.y }
    } else if a.x == -1 {
        Pos { x: p.x, y: -p.z, z: p.y }
    } else if a.y == 1 {
        Pos { x: -p.z, y: p.y, z: p.x }
    } else if a.y == -1 {
        Pos { x: p.z, y: p.y, z: -p.x }
    } else if a.z == 1 {
        Pos { x: p.y, y: -p.x, z: p.z }
    } else {
        Pos { x: -p.y, y: p.x, z: p.z }
    }
}

/// A quarter turn permutes coordinates up to sign, so it keeps the cube's
/// bounding box, the surface lattice, and the coordinate along the axis.
pub proof fn lemma_rot1_shape(a: Pos, p: Pos)
    requires
        unit_axis(a),
    ensures
        in_cube(p) ==> in_cube(rot1(a, p)),
        valid_pos(p) ==> valid_pos(rot1(a, p)),
        dot(a, rot1(a, p)) == dot(a, p),
{
    if a.x == 1 {
    } else if a.x == -1 {
    } else if a.y == 1 {
    } else if a.y == -1 {
    } else if a.z == 1 {
    } else {
    }
}

/// Four quarter turns about one axis are the identity.
pub proof fn lemma_rot4(a: Pos, p: Pos)
    requires
        unit_axis(a),
        in_cube(p),
    ensures
        rotn(a, p, 4) == p,
{
    assert(rotn(a, p, 4) == rot1(a, rot1(a, rot1(a, rot1(a, p))))) by {
        reveal_with_fuel(rotn, 5);
    }
    if a.x == 1 {
        assert(rot1(a, rot1(a, rot1(a, rot1(a, p)))) == p);
    } else if a.x == -1 {
        assert(rot1(a, rot1(a, rot1(a, rot1(a, p)))) == p);
    } else if a.y == 1 {
        assert(rot1(a, rot1(a, rot1(a, rot1(a, p)))) == p);
    } else if a.y == -1 {
        assert(rot1(a, rot1(a, rot1(a, rot1(a, p)))) == p);
    } else if a.z == 1 {
        assert(rot1(a, rot1(a, rot1(a, rot1(a, p)))) == p);
    } else {
        assert(rot1(a, rot1(a, rot1(a, rot1(a, p)))) == p);
    }
}

/// Quarter-turn counts add under composition.
pub proof fn lemma_rotn_add(a: Pos, p: Pos, i: int, j: int)
    requires
        i >= 0,
        j >= 0,
    ensures
        rotn(a, rotn(a, p, i), j) == rotn(a, p, i + j),
    decreases j,
{
    if j > 0 {
        lemma_rotn_add(a, p, i, j - 1);
    }
}

/// A whole number of full turns about one axis is the identity.
pub proof fn lemma_rotn_cycle(a: Pos, p: Pos, n: int)
    requires
        unit_axis(a),
        in_cube(p),
        n >= 0,
        n % 4 == 0,
    ensures
        rotn(a, p, n) == p,
    decreases n,
{
    if n > 0 {
        lemma_rot4(a, p);
        lemma_rotn_add(a, p, 4, n - 4);
        lemma_rotn_cycle(a, rotn(a, p, 4), n - 4);
    }
}

/// Iterated quarter turns keep the surface lattice and the axis coordinate.
pub proof fn lemma_rotn_shape(a: Pos, p: Pos, n: int)
    requires
        unit_axis(a),
        n >= 0,
    ensures
        in_cube(p) ==> in_cube(rotn(a, p, n)),
        valid_pos(p) ==> valid_pos(rotn(a, p, n)),
        dot(a, rotn(a, p, n)) == dot(a, p),
    decreases n,
{
    if n > 0 {
        lemma_rotn_shape(a, p, n - 1);
        lemma_rot1_shape(a, rotn(a, p, n - 1));
    }
}

/// Iterated quarter turns are injective: distinct positions stay distinct.
pub proof fn lemma_rotn_injective(a: Pos, p: Pos, q: Pos, n: int)
    requires
        unit_axis(a),
        in_cube(p),
        in_cube(q),
        0 <= n <= 4,
        rotn(a, p, n) == rotn(a, q, n),
    ensures
        p == q,
{
    lemma_rotn_add(a, p, n, 4 - n);
    lemma_rotn_add(a, q, n, 4 - n);
    lemma_rot4(a, p);
    lemma_rot4(a, q);
}

} // verus!
