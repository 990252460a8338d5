//! Canonical serialization: the cube as a 54-character face string.
//!
//! The output is six 9-character blocks, one per face in the fixed order
//! U, R, F, D, L, B. For each face the whole cube is reoriented so that the
//! face of interest looks up, the stickers on the top face are read off in
//! row-major order (by z, then x), and each contributes the label of its
//! home face: its permanent color.

use vstd::prelude::*;
use vstd::string::StringExecFns;

use crate::cube::{wf_stickers, Cube, Sticker};
use crate::geom::{
    face_char, get_face, in_cube, lemma_rot1_shape, rot1, rotate_quarter, rotn, Pos,
};

verus! {

/// The reorientation that brings face block `f` (in the order U, R, F, D,
/// L, B) to the top: the whole-cube turn sequences "", "y x", "x", "x2",
/// "y' x", "y2 x" respectively.
pub open spec fn view_rot(f: int, p: Pos) -> Pos {
    let ax = Pos { x: 1, y: 0, z: 0 };
    let ay = Pos { x: 0, y: 1, z: 0 };
    if f == 0 {
        p
    } else if f == 1 {
        rot1(ax, rot1(ay, p))
    } else if f == 2 {
        rot1(ax, p)
    } else if f == 3 {
        rot1(ax, rot1(ax, p))
    } else if f == 4 {
        rot1(ax, rotn(ay, p, 3))
    } else {
        rot1(ax, rotn(ay, p, 2))
    }
}

/// A sticker as seen after the reorientation for face block `f`.
pub open spec fn view_sticker(f: int, s: Sticker) -> Sticker {
    Sticker { pos: view_rot(f, s.pos), dst: s.dst }
}

/// The reoriented stickers that lie on the top face, in storage order.
pub open spec fn top_stickers(ss: Seq<Sticker>, f: int) -> Seq<Sticker>
    decreases ss.len(),
{
    if ss.len() == 0 {
        Seq::empty()
    } else {
        let rest = top_stickers(ss.drop_last(), f);
        let t = view_sticker(f, ss.last());
        if face_char(t.pos) == 'U' {
            rest.push(t)
        } else {
            rest
        }
    }
}

/// Row-major reading order for one face: top-to-bottom rows by z, then
/// left-to-right by x.
pub open spec fn zx_le(s: Sticker, t: Sticker) -> bool {
    s.pos.z < t.pos.z || (s.pos.z == t.pos.z && s.pos.x <= t.pos.x)
}

/// Inserts `x` behind every already-placed sticker not after it: the
/// insertion step of a stable sort.
pub open spec fn insert_zx(ss: Seq<Sticker>, x: Sticker) -> Seq<Sticker>
    decreases ss.len(),
{
    if ss.len() == 0 {
        seq![x]
    } else if zx_le(ss.first(), x) {
        seq![ss.first()] + insert_zx(ss.drop_first(), x)
    } else {
        seq![x] + ss
    }
}

/// Stable insertion sort by `zx_le`.
pub open spec fn sort_zx(ss: Seq<Sticker>) -> Seq<Sticker>
    decreases ss.len(),
{
    if ss.len() == 0 {
        ss
    } else {
        insert_zx(sort_zx(ss.drop_last()), ss.last())
    }
}

/// Each sticker's home-face label, in order.
pub open spec fn labels(ss: Seq<Sticker>) -> Seq<char>
    decreases ss.len(),
{
    if ss.len() == 0 {
        Seq::empty()
    } else {
        labels(ss.drop_last()).push(face_char(ss.last().dst))
    }
}

/// One face's 9-character block.
pub open spec fn face_block(ss: Seq<Sticker>, f: int) -> Seq<char> {
    labels(sort_zx(top_stickers(ss, f)))
}

/// The concatenation of the first `f` face blocks.
pub open spec fn blocks_upto(ss: Seq<Sticker>, f: int) -> Seq<char>
    decreases f,
{
    if f <= 0 {
        Seq::empty()
    } else {
        blocks_upto(ss, f - 1) + face_block(ss, f - 1)
    }
}

/// The full 54-character serialization: all six blocks, faces in the order
/// U, R, F, D, L, B.
pub open spec fn serialize_spec(ss: Seq<Sticker>) -> Seq<char> {
    blocks_upto(ss, 6)
}

/// The reorientation for face block `f`, computed.
fn view_transform(f: usize, p: Pos) -> (r: Pos)
    requires
        f < 6,
        in_cube(p),
    ensures
        r == view_rot(f as int, p),
{
    let ax = Pos { x: 1, y: 0, z: 0 };
    let ay = Pos { x: 0, y: 1, z: 0 };
    proof {
        lemma_rot1_shape(ay, p);
        lemma_rot1_shape(ay, rot1(ay, p));
        lemma_rot1_shape(ax, p);
        reveal_with_fuel(rotn, 4);
    }
    if f == 0 {
        p
    } else if f == 1 {
        rotate_quarter(ax, rotate_quarter(ay, p))
    } else if f == 2 {
        rotate_quarter(ax, p)
    } else if f == 3 {
        rotate_quarter(ax, rotate_quarter(ax, p))
    } else if f == 4 {
        rotate_quarter(ax, rotate_quarter(ay, rotate_quarter(ay, rotate_quarter(ay, p))))
    } else {
        rotate_quarter(ax, rotate_quarter(ay, rotate_quarter(ay, p)))
    }
}

/// Whether sticker `j` of `v` reads no later than `x`.
fn le_at(v: &Vec<Sticker>, j: usize, x: &Sticker) -> (r: bool)
    requires
        j < v@.len(),
    ensures
        r == zx_le(v@[j as int], *x),
{
    let s = v[j];
    s.pos.z < x.pos.z || (s.pos.z == x.pos.z && s.pos.x <= x.pos.x)
}

/// Inserting at the first position whose sticker reads later than `x` is
/// exactly the insertion step of the stable sort.
proof fn lemma_insert_zx_at(ss: Seq<Sticker>, x: Sticker, j: int)
    requires
        0 <= j <= ss.len(),
        forall|k: int| 0 <= k < j ==> zx_le(#[trigger] ss[k], x),
        j < ss.len() ==> !zx_le(ss[j], x),
    ensures
        insert_zx(ss, x) == ss.insert(j, x),
    decreases j,
{
    if j == 0 {
        if ss.len() == 0 {
            assert(insert_zx(ss, x) =~= ss.insert(0, x));
        } else {
            assert(insert_zx(ss, x) =~= ss.insert(0, x));
        }
    } else {
        lemma_insert_zx_at(ss.drop_first(), x, j - 1);
        assert(seq![ss.first()] + ss.drop_first().insert(j - 1, x) =~= ss.insert(j, x));
    }
}

/// Sorts stickers into row-major reading order.
fn sort_stickers(v: Vec<Sticker>) -> (r: Vec<Sticker>)
    ensures
        r@ == sort_zx(v@),
{
    let mut out: Vec<Sticker> = Vec::new();
    let mut i: usize = 0;
    while i < v.len()
        invariant
            i <= v@.len(),
            out@ == sort_zx(v@.take(i as int)),
        decreases v@.len() - i,
    {
        let x = v[i];
        let mut j: usize = 0;
        while j < out.len() && le_at(&out, j, &x)
            invariant
                j <= out@.len(),
                forall|k: int| 0 <= k < j ==> zx_le(#[trigger] out@[k], x),
            decreases out@.len() - j,
        {
            j += 1;
        }
        let ghost pre = out@;
        out.insert(j, x);
        proof {
            lemma_insert_zx_at(pre, x, j as int);
            assert(v@.take(i as int + 1).drop_last() =~= v@.take(i as int));
            assert(v@.take(i as int + 1).last() == v@[i as int]);
        }
        i += 1;
    }
    proof {
        assert(v@.take(v@.len() as int) =~= v@);
    }
    out
}

/// Appends one face label to the output string.
fn push_face_char(out: &mut String, c: char)
    requires
        c == 'U' || c == 'R' || c == 'F' || c == 'D' || c == 'L' || c == 'B' || c == 'X',
    ensures
        final(out)@ == old(out)@.push(c),
{
    if c == 'U' {
        proof {
            reveal_strlit("U");
            assert(old(out)@ + "U"@ =~= old(out)@.push('U'));
        }
        out.append("U");
    } else if c == 'R' {
        proof {
            reveal_strlit("R");
            assert(old(out)@ + "R"@ =~= old(out)@.push('R'));
        }
        out.append("R");
    } else if c == 'F' {
        proof {
            reveal_strlit("F");
            assert(old(out)@ + "F"@ =~= old(out)@.push('F'));
        }
        out.append("F");
    } else if c == 'D' {
        proof {
            reveal_strlit("D");
            assert(old(out)@ + "D"@ =~= old(out)@.push('D'));
        }
        out.append("D");
    } else if c == 'L' {
        proof {
            reveal_strlit("L");
            assert(old(out)@ + "L"@ =~= old(out)@.push('L'));
        }
        out.append("L");
    } else if c == 'B' {
        proof {
            reveal_strlit("B");
            assert(old(out)@ + "B"@ =~= old(out)@.push('B'));
        }
        out.append("B");
    } else {
        proof {
            reveal_strlit("X");
            assert(old(out)@ + "X"@ =~= old(out)@.push('X'));
        }
        out.append("X");
    }
}

impl Cube {
    /// The canonical 54-character face string: six 9-character blocks for
    /// the faces U, R, F, D, L, B, each in row-major reading order, each
    /// character a sticker's home-face label.
    pub fn serialize(&self) -> (r: String)
        requires
            self.wf(),
        ensures
            r@ == serialize_spec(self@),
    {
        let mut out = String::new();
        let mut f: usize = 0;
        while f < 6
            invariant
                f <= 6,
                wf_stickers(self.stickers@),
                out@ == blocks_upto(self.stickers@, f as int),
            decreases 6 - f,
        {
            let mut top: Vec<Sticker> = Vec::new();
            let mut i: usize = 0;
            while i < self.stickers.len()
                invariant
                    f < 6,
                    wf_stickers(self.stickers@),
                    i <= self.stickers@.len(),
                    top@ == top_stickers(self.stickers@.take(i as int), f as int),
                decreases self.stickers@.len() - i,
            {
                let s = self.stickers[i];
                let t = Sticker { pos: view_transform(f, s.pos), dst: s.dst };
                if get_face(t.pos) == 'U' {
                    top.push(t);
                }
                proof {
                    let pre = self.stickers@.take(i as int);
                    let now = self.stickers@.take(i as int + 1);
                    assert(now.drop_last() =~= pre);
                    assert(now.last() == self.stickers@[i as int]);
                }
                i += 1;
            }
            proof {
                assert(self.stickers@.take(self.stickers@.len() as int) =~= self.stickers@);
            }
            let sorted = sort_stickers(top);
            let mut k: usize = 0;
            while k < sorted.len()
                invariant
                    f < 6,
                    wf_stickers(self.stickers@),
                    k <= sorted@.len(),
                    sorted@ == sort_zx(top_stickers(self.stickers@, f as int)),
                    out@ == blocks_upto(self.stickers@, f as int) + labels(
                        sorted@.take(k as int),
                    ),
                decreases sorted@.len() - k,
            {
                let c = sorted[k].get_original_face();
                push_face_char(&mut out, c);
                proof {
                    let pre = sorted@.take(k as int);
                    let now = sorted@.take(k as int + 1);
                    assert(now.drop_last() =~= pre);
                    assert(now.last() == sorted@[k as int]);
                }
                k += 1;
            }
            proof {
                assert(sorted@.take(sorted@.len() as int) =~= sorted@);
            }
            f += 1;
        }
        out
    }
}

} // verus!
