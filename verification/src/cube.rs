//! The cube state: 54 stickers, move application, and its invariants.

use vstd::prelude::*;
use vstd::string::StrSliceExecFns;

use crate::geom::{
    face_char, in_cube, lemma_rotn_injective, lemma_rotn_shape, mid_coord, rotate_quarter, rotn,
    valid_pos, Pos,
};
use crate::moves::{
    affected, is_affected, move_of_token, parse_move, turns, wf_move, InvalidNotation, Move,
};

verus! {

/// One facelet: `pos` is where it sits now, `dst` where it sat in the solved
/// cube. `dst` never changes and determines the sticker's color identity.
#[derive(Clone, Copy, Debug, PartialEq, Eq, Structural)]
pub struct Sticker {
    pub pos: Pos,
    pub dst: Pos,
}

/// Both positions of a sticker lie on the surface lattice.
pub open spec fn wf_sticker(s: Sticker) -> bool {
    &&& valid_pos(s.pos)
    &&& valid_pos(s.dst)
}

/// The effect of one move on one sticker: if the sticker's layer turns, its
/// current position rotates by the move's quarter turns; otherwise nothing.
pub open spec fn sticker_after(m: Move, s: Sticker) -> Sticker {
    if affected(m, s.pos) {
        Sticker { pos: rotn(m.axis, s.pos, turns(m)), dst: s.dst }
    } else {
        s
    }
}

/// The effect of one move on every sticker. Each sticker's update depends
/// only on its own position, so the order of the stickers does not matter.
pub open spec fn cube_after(ss: Seq<Sticker>, m: Move) -> Seq<Sticker> {
    ss.map_values(|s: Sticker| sticker_after(m, s))
}

/// The middle coordinate encoded by a loop counter in 0..3.
pub open spec fn coord_val(i: int) -> int {
    if i == 0 {
        -2
    } else if i == 1 {
        0
    } else {
        2
    }
}

/// The sticker position at index `i` of the solved construction: positions
/// are laid out by face sign (+3 first), then the two middle coordinates,
/// and in each group one sticker per axis carrying the face value.
pub open spec fn solved_pos(i: int) -> Pos {
    let a = i / 27;
    let b = (i % 27) / 9;
    let c = (i % 9) / 3;
    let s = i % 3;
    let f: int = if a == 0 {
        3
    } else {
        -3
    };
    if s == 0 {
        Pos { x: f as i32, y: coord_val(b) as i32, z: coord_val(c) as i32 }
    } else if s == 1 {
        Pos { x: coord_val(b) as i32, y: f as i32, z: coord_val(c) as i32 }
    } else {
        Pos { x: coord_val(b) as i32, y: coord_val(c) as i32, z: f as i32 }
    }
}

/// The 54 stickers of the solved cube: every surface position, each its own
/// color home.
pub open spec fn solved_stickers() -> Seq<Sticker> {
    Seq::new(54, |i: int| Sticker { pos: solved_pos(i), dst: solved_pos(i) })
}

/// Well-formed sticker collection: 54 stickers on the surface lattice, no
/// two in the same place. Every reachable cube state satisfies this.
pub open spec fn wf_stickers(ss: Seq<Sticker>) -> bool {
    &&& ss.len() == 54
    &&& forall|i: int| 0 <= i < 54 ==> wf_sticker(#[trigger] ss[i])
    &&& forall|i: int, j: int| 0 <= i < j < 54 ==> (#[trigger] ss[i]).pos != (#[trigger] ss[j]).pos
}

/// Every position of the solved layout lies on the surface lattice.
pub proof fn lemma_solved_pos_valid(i: int)
    requires
        0 <= i < 54,
    ensures
        valid_pos(solved_pos(i)),
{
    assert(0 <= i / 27 <= 1);
    assert(0 <= (i % 27) / 9 <= 2);
    assert(0 <= (i % 9) / 3 <= 2);
    assert(mid_coord(coord_val((i % 27) / 9)));
    assert(mid_coord(coord_val((i % 9) / 3)));
}

/// The index a surface position occupies in the solved layout: the inverse
/// of `solved_pos`.
pub open spec fn solved_index(p: Pos) -> int {
    if p.x == 3 || p.x == -3 {
        27 * (if p.x == 3 {
            0int
        } else {
            1int
        }) + 9 * coord_idx(p.y as int) + 3 * coord_idx(p.z as int)
    } else if p.y == 3 || p.y == -3 {
        27 * (if p.y == 3 {
            0int
        } else {
            1int
        }) + 9 * coord_idx(p.x as int) + 3 * coord_idx(p.z as int) + 1
    } else {
        27 * (if p.z == 3 {
            0int
        } else {
            1int
        }) + 9 * coord_idx(p.x as int) + 3 * coord_idx(p.y as int) + 2
    }
}

/// The loop counter encoding a middle coordinate.
pub open spec fn coord_idx(v: int) -> int {
    if v == -2 {
        0
    } else if v == 0 {
        1
    } else {
        2
    }
}

/// `solved_index` inverts `solved_pos`: the layout visits each surface
/// position exactly once.
pub proof fn lemma_solved_pos_index(i: int)
    requires
        0 <= i < 54,
    ensures
        solved_index(solved_pos(i)) == i,
{
    let a = i / 27;
    let b = (i % 27) / 9;
    let c = (i % 9) / 3;
    let s = i % 3;
    assert(i == 27 * a + 9 * b + 3 * c + s);
}

/// Every surface position appears in the solved layout, at its index.
pub proof fn lemma_solved_index_pos(p: Pos)
    requires
        valid_pos(p),
    ensures
        0 <= solved_index(p) < 54,
        solved_pos(solved_index(p)) == p,
{
    let i = solved_index(p);
    assert(i / 27 == (if i >= 27 {
        1int
    } else {
        0int
    }));
}

impl Sticker {
    /// A sticker whose home is its current position.
    pub fn new(pos: Pos) -> (r: Sticker)
        ensures
            r == (Sticker { pos, dst: pos }),
    {
        Sticker { pos, dst: pos }
    }

    /// Applies one move to this sticker: rotates `pos` if the sticker's
    /// layer turns, and never touches `dst`.
    pub fn apply(&mut self, m: &Move) -> (r: ())
        requires
            wf_move(*m),
            in_cube(old(self).pos),
        ensures
            *final(self) == sticker_after(*m, *old(self)),
    {
        if is_affected(m, self.pos) {
            proof {
                reveal_with_fuel(rotn, 4);
            }
            let p1 = rotate_quarter(m.axis, self.pos);
            if m.angle == 90 {
                self.pos = p1;
            } else {
                let p2 = rotate_quarter(m.axis, p1);
                if m.angle == 180 {
                    self.pos = p2;
                } else {
                    self.pos = rotate_quarter(m.axis, p2);
                }
            }
        }
    }

    /// The face label of the sticker's home position: its permanent color.
    pub fn get_original_face(&self) -> (r: char)
        ensures
            r == face_char(self.dst),
    {
        crate::geom::get_face(self.dst)
    }
}

/// Moving distinct stickers keeps them distinct: a move permutes positions.
pub proof fn lemma_sticker_injective(m: Move, s1: Sticker, s2: Sticker)
    requires
        wf_move(m),
        valid_pos(s1.pos),
        valid_pos(s2.pos),
        sticker_after(m, s1).pos == sticker_after(m, s2).pos,
    ensures
        s1.pos == s2.pos,
{
    lemma_rotn_shape(m.axis, s1.pos, turns(m));
    lemma_rotn_shape(m.axis, s2.pos, turns(m));
    if affected(m, s1.pos) && affected(m, s2.pos) {
        lemma_rotn_injective(m.axis, s1.pos, s2.pos, turns(m));
    }
}

/// A move takes a well-formed sticker collection to a well-formed one.
pub proof fn lemma_cube_after_wf(ss: Seq<Sticker>, m: Move)
    requires
        wf_stickers(ss),
        wf_move(m),
    ensures
        wf_stickers(cube_after(ss, m)),
{
    let out = cube_after(ss, m);
    assert forall|i: int| 0 <= i < 54 implies wf_sticker(#[trigger] out[i]) by {
        lemma_rotn_shape(m.axis, ss[i].pos, turns(m));
    }
    assert forall|i: int, j: int| 0 <= i < j < 54 implies (#[trigger] out[i]).pos != (
    #[trigger] out[j]).pos by {
        if out[i].pos == out[j].pos {
            lemma_sticker_injective(m, ss[i], ss[j]);
        }
    }
}

/// The cube: an unordered collection of 54 stickers. Storage order carries
/// no meaning; serialization reconstructs the face order on demand.
#[derive(Debug)]
pub struct Cube {
    pub stickers: Vec<Sticker>,
}

impl View for Cube {
    type V = Seq<Sticker>;

    open spec fn view(&self) -> Seq<Sticker> {
        self.stickers@
    }
}

impl Cube {
    /// Every reachable cube is well formed; `serialize` and the move
    /// appliers rely on it.
    pub open spec fn wf(&self) -> bool {
        wf_stickers(self@)
    }

    /// The canonical initial configuration: one sticker per surface
    /// position, every sticker at home.
    pub fn solved() -> (r: Cube)
        ensures
            r@ == solved_stickers(),
            r.wf(),
    {
        let mut stickers: Vec<Sticker> = Vec::new();
        let mut i: usize = 0;
        while i < 54
            invariant
                i <= 54,
                stickers@.len() == i,
                forall|k: int| 0 <= k < i ==> stickers@[k] == solved_stickers()[k],
            decreases 54 - i,
        {
            let p = solved_pos_at(i);
            stickers.push(Sticker::new(p));
            i += 1;
        }
        proof {
            assert(stickers@ =~= solved_stickers());
            assert forall|k: int| 0 <= k < 54 implies wf_sticker(#[trigger] solved_stickers()[k]) by {
                lemma_solved_pos_valid(k);
            }
            assert forall|k: int, j: int| 0 <= k < j < 54 implies (#[trigger] solved_stickers()[k]).pos
                != (#[trigger] solved_stickers()[j]).pos by {
                if solved_pos(k) == solved_pos(j) {
                    lemma_solved_pos_index(k);
                    lemma_solved_pos_index(j);
                }
            }
        }
        Cube { stickers }
    }

    /// Applies one notation token to every sticker; an unknown token leaves
    /// the cube untouched and reports invalid notation.
    pub fn apply_move(&mut self, token: &str) -> (r: Result<(), InvalidNotation>)
        requires
            old(self).wf(),
        ensures
            final(self).wf(),
            match move_of_token(token@) {
                Some(m) => r is Ok && final(self)@ == cube_after(old(self)@, m),
                None => r is Err && final(self)@ == old(self)@,
            },
    {
        let m = match parse_move(token) {
            Ok(m) => m,
            Err(e) => {
                return Err(e);
            },
        };
        let ghost ss0 = self.stickers@;
        let mut i: usize = 0;
        while i < self.stickers.len()
            invariant
                wf_move(m),
                i <= self.stickers@.len(),
                self.stickers@.len() == ss0.len() == 54,
                forall|k: int| 0 <= k < i ==> self.stickers@[k] == sticker_after(
                    m,
                    #[trigger] ss0[k],
                ),
                forall|k: int| i <= k < 54 ==> #[trigger] self.stickers@[k] == ss0[k],
                forall|k: int| 0 <= k < 54 ==> wf_sticker(#[trigger] ss0[k]),
            decreases self.stickers@.len() - i,
        {
            let mut s = self.stickers[i];
            s.apply(&m);
            self.stickers[i] = s;
            i += 1;
        }
        proof {
            assert(self.stickers@ =~= cube_after(ss0, m));
            lemma_cube_after_wf(ss0, m);
        }
        Ok(())
    }
}

/// Whitespace for the purpose of splitting a move sequence.
pub open spec fn is_space(c: char) -> bool {
    c == ' ' || c == '\t' || c == '\n' || c == '\r' || c == '\u{c}'
}

/// The first index at or after `i` holding whitespace, or the end: the end
/// of the token starting at `i`.
pub open spec fn token_end(s: Seq<char>, i: int) -> int
    decreases s.len() - i,
{
    if i < 0 || i >= s.len() {
        s.len() as int
    } else if is_space(s[i]) {
        i
    } else {
        token_end(s, i + 1)
    }
}

/// A token runs from its start to at most the end of the sequence.
pub proof fn lemma_token_end_bounds(s: Seq<char>, i: int)
    requires
        0 <= i <= s.len(),
    ensures
        i <= token_end(s, i) <= s.len(),
    decreases s.len() - i,
{
    if i < s.len() && !is_space(s[i]) {
        lemma_token_end_bounds(s, i + 1);
    }
}

/// The whitespace-separated tokens of `s` from index `i` on.
pub open spec fn tokens_from(s: Seq<char>, i: int) -> Seq<Seq<char>>
    decreases s.len() - i,
    via tokens_from_dec
{
    if i < 0 || i >= s.len() {
        Seq::empty()
    } else if is_space(s[i]) {
        tokens_from(s, i + 1)
    } else {
        seq![s.subrange(i, token_end(s, i))] + tokens_from(s, token_end(s, i))
    }
}

#[via_fn]
proof fn tokens_from_dec(s: Seq<char>, i: int) {
    if 0 <= i && i < s.len() && !is_space(s[i]) {
        lemma_token_end_bounds(s, i + 1);
    }
}

/// The whitespace-separated tokens of a move sequence.
pub open spec fn tokens_of(s: Seq<char>) -> Seq<Seq<char>> {
    tokens_from(s, 0)
}

/// Applies tokens strictly left to right, stopping at the first invalid
/// one: the cube keeps the effect of the valid prefix.
pub open spec fn run_toks(ss: Seq<Sticker>, toks: Seq<Seq<char>>) -> Seq<Sticker>
    decreases toks.len(),
{
    if toks.len() == 0 {
        ss
    } else {
        match move_of_token(toks[0]) {
            Some(m) => run_toks(cube_after(ss, m), toks.drop_first()),
            None => ss,
        }
    }
}

/// Every token resolves in the move table.
pub open spec fn all_valid(toks: Seq<Seq<char>>) -> bool {
    forall|k: int| 0 <= k < toks.len() ==> move_of_token(#[trigger] toks[k]) is Some
}

/// `token_end` needs the characters it skipped to be known non-space; this
/// restates it from the end of a scanned stretch.
proof fn lemma_token_end_step(s: Seq<char>, i: int, j: int)
    requires
        0 <= i <= j <= s.len(),
        forall|k: int| i <= k < j ==> !is_space(#[trigger] s[k]),
    ensures
        token_end(s, i) == token_end(s, j),
    decreases j - i,
{
    if i < j {
        lemma_token_end_step(s, i + 1, j);
    }
}

/// Well-formedness of a whole sticker collection survives any prefix of a
/// token run.
proof fn lemma_run_toks_wf(ss: Seq<Sticker>, toks: Seq<Seq<char>>)
    requires
        wf_stickers(ss),
    ensures
        wf_stickers(run_toks(ss, toks)),
    decreases toks.len(),
{
    if toks.len() > 0 {
        match move_of_token(toks[0]) {
            Some(m) => {
                crate::moves::lemma_table_wf(toks[0]);
                lemma_cube_after_wf(ss, m);
                lemma_run_toks_wf(cube_after(ss, m), toks.drop_first());
            },
            None => {},
        }
    }
}

impl Cube {
    /// Splits a whitespace-separated sequence into tokens and applies them
    /// strictly left to right. The first invalid token aborts the run with
    /// invalid notation; the effect of the valid prefix remains.
    pub fn apply_moves(&mut self, moves: &str) -> (r: Result<(), InvalidNotation>)
        requires
            old(self).wf(),
        ensures
            final(self).wf(),
            final(self)@ == run_toks(old(self)@, tokens_of(moves@)),
            r is Ok <==> all_valid(tokens_of(moves@)),
    {
        let n = moves.unicode_len();
        let mut i: usize = 0;
        let ghost ss0 = self.stickers@;
        while i < n
            invariant
                old(self).wf(),
                ss0 == old(self)@,
                wf_stickers(self.stickers@),
                i <= n == moves@.len(),
                run_toks(ss0, tokens_of(moves@)) == run_toks(
                    self.stickers@,
                    tokens_from(moves@, i as int),
                ),
                all_valid(tokens_of(moves@)) <==> all_valid(tokens_from(moves@, i as int)),
            decreases n - i,
        {
            if is_space_at(moves, i) {
                i += 1;
            } else {
                let ghost start = i as int;
                let mut j: usize = i + 1;
                while j < n && !is_space_at(moves, j)
                    invariant
                        0 <= start < j <= n == moves@.len(),
                        forall|k: int| start <= k < j ==> !is_space(#[trigger] moves@[k]),
                    decreases n - j,
                {
                    j += 1;
                }
                proof {
                    lemma_token_end_step(moves@, start, j as int);
                    assert(token_end(moves@, j as int) == j);
                }
                let token = moves.substring_char(i, j);
                let ghost toks_here = tokens_from(moves@, start);
                assert(toks_here == seq![token@] + tokens_from(moves@, j as int));
                match self.apply_move(token) {
                    Ok(_) => {
                        proof {
                            assert(toks_here.drop_first() =~= tokens_from(moves@, j as int));
                        }
                    },
                    Err(e) => {
                        proof {
                            assert(run_toks(self.stickers@, toks_here) == self.stickers@);
                            assert(!all_valid(toks_here)) by {
                                assert(move_of_token(toks_here[0]) is None);
                            }
                        }
                        return Err(e);
                    },
                }
                i = j;
            }
        }
        assert(tokens_from(moves@, i as int) =~= Seq::<Seq<char>>::empty());
        assert forall|k: int| 0 <= k < tokens_from(moves@, i as int).len() implies move_of_token(
            #[trigger] tokens_from(moves@, i as int)[k],
        ) is Some by {}
        Ok(())
    }
}

/// Whether the character at `i` is whitespace.
fn is_space_at(s: &str, i: usize) -> (r: bool)
    requires
        i < s@.len(),
    ensures
        r == is_space(s@[i as int]),
{
    let c = s.get_char(i);
    c == ' ' || c == '\t' || c == '\n' || c == '\r' || c == '\u{c}'
}

/// The solved-layout position at index `i`, computed as `solved_pos` states
/// it.
fn solved_pos_at(i: usize) -> (r: Pos)
    requires
        i < 54,
    ensures
        r == solved_pos(i as int),
{
    let a = i / 27;
    let b = (i % 27) / 9;
    let c = (i % 9) / 3;
    let s = i % 3;
    let f: i32 = if a == 0 {
        3
    } else {
        -3
    };
    let cb: i32 = coord_val_at(b);
    let cc: i32 = coord_val_at(c);
    if s == 0 {
        Pos { x: f, y: cb, z: cc }
    } else if s == 1 {
        Pos { x: cb, y: f, z: cc }
    } else {
        Pos { x: cb, y: cc, z: f }
    }
}

/// The middle coordinate encoded by a loop counter.
fn coord_val_at(i: usize) -> (r: i32)
    requires
        i < 3,
    ensures
        r as int == coord_val(i as int),
{
    if i == 0 {
        -2
    } else if i == 1 {
        0
    } else {
        2
    }
}

} // verus!
