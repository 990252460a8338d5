//! Algebraic laws of the engine, stated over whole sticker collections.

use vstd::prelude::*;

use crate::cube::{
    all_valid, cube_after, lemma_solved_index_pos, lemma_solved_pos_index, run_toks, solved_pos,
    solved_stickers, sticker_after, tokens_of, wf_stickers, Sticker,
};
use crate::geom::{
    lemma_rotn_add, lemma_rotn_cycle, lemma_rotn_shape, rotn, valid_pos, Pos,
};
use crate::moves::{affected, inverse_token, move_of_token, turns, wf_move, Move};
use crate::serial::{
    blocks_upto, face_block, insert_zx, labels, serialize_spec, sort_zx, top_stickers, view_rot,
    view_sticker,
};

verus! {

/// Two moves about one axis over the same layers whose quarter turns add up
/// to a full turn undo each other on a single sticker.
proof fn lemma_sticker_cancel(m1: Move, m2: Move, s: Sticker)
    requires
        wf_move(m1),
        wf_move(m2),
        m1.axis == m2.axis,
        m1.layers == m2.layers,
        (turns(m1) + turns(m2)) % 4 == 0,
        valid_pos(s.pos),
    ensures
        sticker_after(m2, sticker_after(m1, s)) == s,
{
    let a = m1.axis;
    let t1 = turns(m1);
    let t2 = turns(m2);
    lemma_rotn_shape(a, s.pos, t1);
    if affected(m1, s.pos) {
        lemma_rotn_add(a, s.pos, t1, t2);
        lemma_rotn_cycle(a, s.pos, t1 + t2);
    }
}

/// The same, lifted to every sticker of a well-formed cube.
proof fn lemma_cube_cancel(ss: Seq<Sticker>, m1: Move, m2: Move)
    requires
        wf_stickers(ss),
        wf_move(m1),
        wf_move(m2),
        m1.axis == m2.axis,
        m1.layers == m2.layers,
        (turns(m1) + turns(m2)) % 4 == 0,
    ensures
        cube_after(cube_after(ss, m1), m2) == ss,
{
    assert forall|i: int| 0 <= i < ss.len() implies cube_after(cube_after(ss, m1), m2)[i]
        == ss[i] by {
        lemma_sticker_cancel(m1, m2, ss[i]);
    }
    assert(cube_after(cube_after(ss, m1), m2) =~= ss);
}

/// LAW: applying a valid token and then its inverse token (a plain token
/// gains `'`, a `'` token loses it, a `2` token repeats) restores every
/// sticker, and with them the serialization.
pub proof fn lemma_token_then_inverse(ss: Seq<Sticker>, t: Seq<char>)
    requires
        wf_stickers(ss),
        move_of_token(t) is Some,
    ensures
        move_of_token(inverse_token(t)) is Some,
        run_toks(ss, seq![t, inverse_token(t)]) == ss,
        serialize_spec(run_toks(ss, seq![t, inverse_token(t)])) == serialize_spec(ss),
{
    let ti = inverse_token(t);
    let m1 = move_of_token(t)->Some_0;
    let m2 = move_of_token(ti)->Some_0;
    if t.len() == 1 {
        assert(ti[0] == t[0] && ti[1] == '\'');
    } else {
        assert(ti[0] == t[0]);
    }
    crate::moves::lemma_table_wf(t);
    crate::moves::lemma_table_wf(ti);
    lemma_cube_cancel(ss, m1, m2);
    assert(seq![t, ti].drop_first() =~= seq![ti]);
    assert(seq![ti].drop_first() =~= Seq::<Seq<char>>::empty());
    reveal_with_fuel(run_toks, 4);
    assert(run_toks(ss, seq![t, ti]) == ss);
}

/// The effect of one move applied `n` times over.
spec fn apply_n(ss: Seq<Sticker>, m: Move, n: int) -> Seq<Sticker>
    decreases n,
{
    if n <= 0 {
        ss
    } else {
        cube_after(apply_n(ss, m, n - 1), m)
    }
}

/// Applying first and iterating after is iterating one more time.
proof fn lemma_apply_n_shift(ss: Seq<Sticker>, m: Move, n: int)
    requires
        n >= 0,
    ensures
        apply_n(cube_after(ss, m), m, n) == apply_n(ss, m, n + 1),
    decreases n,
{
    if n > 0 {
        lemma_apply_n_shift(ss, m, n - 1);
    } else {
        assert(apply_n(ss, m, 0) == ss);
        assert(apply_n(ss, m, 1) == cube_after(apply_n(ss, m, 0), m));
    }
}

/// After `n` applications each affected sticker has turned `n` times the
/// move's quarter turns; every other sticker never moved.
proof fn lemma_apply_n_form(ss: Seq<Sticker>, m: Move, n: int, i: int)
    requires
        wf_stickers(ss),
        wf_move(m),
        n >= 0,
        0 <= i < 54,
    ensures
        apply_n(ss, m, n).len() == 54,
        apply_n(ss, m, n)[i] == (if affected(m, ss[i].pos) {
            (Sticker { pos: rotn(m.axis, ss[i].pos, n * turns(m)), dst: ss[i].dst })
        } else {
            ss[i]
        }),
    decreases n,
{
    if n > 0 {
        lemma_apply_n_form(ss, m, n - 1, i);
        lemma_rotn_shape(m.axis, ss[i].pos, (n - 1) * turns(m));
        lemma_rotn_add(m.axis, ss[i].pos, (n - 1) * turns(m), turns(m));
        assert((n - 1) * turns(m) + turns(m) == n * turns(m)) by (nonlinear_arith);
    }
}

/// How many times a token must be applied to come back around: twice for a
/// half-turn token, four times otherwise.
pub open spec fn cycle_len(t: Seq<char>) -> int {
    if move_of_token(t) matches Some(m) && m.angle == 180 {
        2
    } else {
        4
    }
}

/// The token `t`, `cycle_len(t)` times over.
pub open spec fn repeat_token(t: Seq<char>) -> Seq<Seq<char>> {
    Seq::new(cycle_len(t) as nat, |i: int| t)
}

/// Running a repeated valid token is iterating its move.
proof fn lemma_run_repeat(ss: Seq<Sticker>, t: Seq<char>, m: Move, k: int)
    requires
        move_of_token(t) == Some(m),
        k >= 0,
    ensures
        run_toks(ss, Seq::new(k as nat, |i: int| t)) == apply_n(ss, m, k),
    decreases k,
{
    let toks = Seq::new(k as nat, |i: int| t);
    if k > 0 {
        assert(toks[0] == t);
        assert(toks.drop_first() =~= Seq::new((k - 1) as nat, |i: int| t));
        lemma_run_repeat(cube_after(ss, m), t, m, k - 1);
        lemma_apply_n_shift(ss, m, k - 1);
    }
}

/// LAW: a valid token repeated through a full turn restores every sticker,
/// and with them the serialization: four applications for a quarter-turn
/// token, two for a half-turn token.
pub proof fn lemma_token_cycle(ss: Seq<Sticker>, t: Seq<char>)
    requires
        wf_stickers(ss),
        move_of_token(t) is Some,
    ensures
        run_toks(ss, repeat_token(t)) == ss,
        serialize_spec(run_toks(ss, repeat_token(t))) == serialize_spec(ss),
{
    let m = move_of_token(t)->Some_0;
    let k = cycle_len(t);
    crate::moves::lemma_table_wf(t);
    lemma_run_repeat(ss, t, m, k);
    assert(k * turns(m) >= 0 && (k * turns(m)) % 4 == 0) by (nonlinear_arith)
        requires
            (m.angle == 180 && k == 2 && turns(m) == 2) || (m.angle != 180 && k == 4 && (turns(m)
                == 1 || turns(m) == 3)),
    ;
    lemma_apply_n_form(ss, m, k, 0);
    assert forall|i: int| 0 <= i < 54 implies apply_n(ss, m, k)[i] == ss[i] by {
        lemma_apply_n_form(ss, m, k, i);
        lemma_rotn_cycle(m.axis, ss[i].pos, k * turns(m));
    }
    assert(apply_n(ss, m, k) =~= ss);
}

/// LAW: a move sequence without tokens moves nothing: running it returns
/// the stickers, and with them the serialization, unchanged.
pub proof fn lemma_empty_sequence_noop(ss: Seq<Sticker>, s: Seq<char>)
    requires
        s.len() == 0,
    ensures
        tokens_of(s) == Seq::<Seq<char>>::empty(),
        all_valid(tokens_of(s)),
        run_toks(ss, tokens_of(s)) == ss,
{
}

/// LAW: in every well-formed (hence every reachable) cube the multiset of
/// current sticker positions is exactly the multiset of positions of the
/// solved cube: moves neither create nor lose positions.
pub proof fn lemma_positions_conserved(ss: Seq<Sticker>)
    requires
        wf_stickers(ss),
    ensures
        ss.map_values(|s: Sticker| s.pos).to_multiset() == solved_stickers().map_values(
            |s: Sticker| s.pos,
        ).to_multiset(),
{
    broadcast use vstd::seq_lib::group_seq_properties;

    let ps = ss.map_values(|s: Sticker| s.pos);
    let qs = solved_stickers().map_values(|s: Sticker| s.pos);
    assert(ps.len() == 54 && qs.len() == 54);
    assert(forall|i: int| 0 <= i < 54 ==> qs[i] == solved_pos(i));
    assert(ps.no_duplicates());
    assert forall|i: int, j: int| 0 <= i < 54 && 0 <= j < 54 && i != j implies qs[i] != qs[j] by {
        if qs[i] == qs[j] {
            lemma_solved_pos_index(i);
            lemma_solved_pos_index(j);
        }
    }
    assert(qs.no_duplicates());
    assert forall|x: Pos| ps.to_set().contains(x) implies qs.to_set().contains(x) by {
        let i = choose|i: int| 0 <= i < ps.len() && ps[i] == x;
        assert(valid_pos(x));
        lemma_solved_index_pos(x);
        assert(qs[crate::cube::solved_index(x)] == x);
    }
    ps.unique_seq_to_set();
    qs.unique_seq_to_set();
    vstd::set_lib::lemma_subset_equality(ps.to_set(), qs.to_set());
    ps.lemma_multiset_has_no_duplicates();
    qs.lemma_multiset_has_no_duplicates();
    assert forall|x: Pos| true implies ps.to_multiset().count(x) == qs.to_multiset().count(x) by {
        if ps.to_set().contains(x) {
        } else {
            assert(!ps.contains(x) && !qs.contains(x));
        }
    }
    assert(ps.to_multiset() =~= qs.to_multiset());
}

/// A face letter of the serialization alphabet.
pub open spec fn is_face_letter(c: char) -> bool {
    c == 'U' || c == 'R' || c == 'F' || c == 'D' || c == 'L' || c == 'B'
}

/// How many positions of `ps` the reorientation for face block `f` brings
/// onto the top face.
spec fn count_top(ps: Seq<Pos>, f: int) -> int
    decreases ps.len(),
{
    if ps.len() == 0 {
        0
    } else {
        count_top(ps.drop_last(), f) + (if crate::geom::face_char(view_rot(f, ps.last())) == 'U' {
            1int
        } else {
            0int
        })
    }
}

/// A face's sticker count depends on the current positions alone.
proof fn lemma_top_stickers_len(ss: Seq<Sticker>, f: int)
    ensures
        top_stickers(ss, f).len() == count_top(ss.map_values(|s: Sticker| s.pos), f),
    decreases ss.len(),
{
    let ps = ss.map_values(|s: Sticker| s.pos);
    if ss.len() > 0 {
        lemma_top_stickers_len(ss.drop_last(), f);
        assert(ps.drop_last() =~= ss.drop_last().map_values(|s: Sticker| s.pos));
        assert(ps.last() == ss.last().pos);
    }
}

/// Taking one position out takes its contribution out of the count.
proof fn lemma_count_top_remove(ps: Seq<Pos>, f: int, k: int)
    requires
        0 <= k < ps.len(),
    ensures
        count_top(ps, f) == count_top(ps.remove(k), f) + (if crate::geom::face_char(
            view_rot(f, ps[k]),
        ) == 'U' {
            1int
        } else {
            0int
        }),
    decreases ps.len(),
{
    if k == ps.len() - 1 {
        assert(ps.remove(k) =~= ps.drop_last());
    } else {
        lemma_count_top_remove(ps.drop_last(), f, k);
        assert(ps.remove(k).drop_last() =~= ps.drop_last().remove(k));
        assert(ps.remove(k).last() == ps.last());
    }
}

/// The count is invariant under permutation of the positions.
proof fn lemma_count_top_permutation(ps1: Seq<Pos>, ps2: Seq<Pos>, f: int)
    requires
        ps1.to_multiset() == ps2.to_multiset(),
    ensures
        count_top(ps1, f) == count_top(ps2, f),
    decreases ps1.len(),
{
    broadcast use vstd::seq_lib::group_to_multiset_ensures;

    if ps1.len() == 0 {
        assert(ps1.to_multiset().len() == 0);
        assert(ps2.to_multiset().len() == ps2.len());
    } else {
        let last = ps1.len() - 1;
        let x = ps1[last];
        assert(ps1.contains(x));
        assert(ps2.to_multiset().count(x) > 0);
        assert(ps2.contains(x));
        let k = choose|k: int| 0 <= k < ps2.len() && ps2[k] == x;
        assert(ps1.remove(last).to_multiset() =~= ps1.to_multiset().remove(x));
        assert(ps2.remove(k).to_multiset() =~= ps2.to_multiset().remove(x));
        lemma_count_top_permutation(ps1.remove(last), ps2.remove(k), f);
        lemma_count_top_remove(ps1, f, last);
        lemma_count_top_remove(ps2, f, k);
    }
}

/// The same count over the solved layout, walked by index.
spec fn solved_top_count(f: int, i: int) -> int
    decreases i,
{
    if i <= 0 {
        0
    } else {
        solved_top_count(f, i - 1) + (if crate::geom::face_char(view_rot(f, solved_pos(i - 1)))
            == 'U' {
            1int
        } else {
            0int
        })
    }
}

/// The two walks of the solved layout count alike.
proof fn lemma_count_top_prefix(f: int, i: int)
    requires
        0 <= i <= 54,
    ensures
        count_top(solved_stickers().map_values(|s: Sticker| s.pos).take(i), f)
            == solved_top_count(f, i),
    decreases i,
{
    let qs = solved_stickers().map_values(|s: Sticker| s.pos);
    if i > 0 {
        lemma_count_top_prefix(f, i - 1);
        assert(qs.take(i).drop_last() =~= qs.take(i - 1));
        assert(qs.take(i).last() == solved_pos(i - 1));
    }
}

/// In the solved layout every reorientation brings exactly nine positions
/// to the top.
#[verifier::rlimit(100)]
proof fn lemma_solved_count_top(f: int)
    requires
        0 <= f < 6,
    ensures
        count_top(solved_stickers().map_values(|s: Sticker| s.pos), f) == 9,
{
    let qs = solved_stickers().map_values(|s: Sticker| s.pos);
    lemma_count_top_prefix(f, 54);
    assert(qs.take(54) =~= qs);
    reveal_with_fuel(solved_top_count, 55);
    reveal_with_fuel(crate::geom::rotn, 4);
    if f == 0 {
        assert(solved_top_count(0, 54) == 9);
    } else if f == 1 {
        assert(solved_top_count(1, 54) == 9);
    } else if f == 2 {
        assert(solved_top_count(2, 54) == 9);
    } else if f == 3 {
        assert(solved_top_count(3, 54) == 9);
    } else if f == 4 {
        assert(solved_top_count(4, 54) == 9);
    } else {
        assert(solved_top_count(5, 54) == 9);
    }
}

/// Labels are as many as the stickers they are read from.
proof fn lemma_labels_len(ss: Seq<Sticker>)
    ensures
        labels(ss).len() == ss.len(),
        forall|i: int| 0 <= i < ss.len() ==> labels(ss)[i] == crate::geom::face_char(
            #[trigger] ss[i].dst,
        ),
    decreases ss.len(),
{
    if ss.len() > 0 {
        lemma_labels_len(ss.drop_last());
        assert forall|i: int| 0 <= i < ss.len() implies labels(ss)[i] == crate::geom::face_char(
            #[trigger] ss[i].dst,
        ) by {
            if i < ss.len() - 1 {
                assert(labels(ss)[i] == labels(ss.drop_last())[i]);
                assert(ss.drop_last()[i] == ss[i]);
            }
        }
    }
}

/// Inserting keeps every sticker and adds the new one.
proof fn lemma_insert_zx_shape(ss: Seq<Sticker>, x: Sticker)
    ensures
        insert_zx(ss, x).len() == ss.len() + 1,
        forall|i: int|
            0 <= i < insert_zx(ss, x).len() ==> (#[trigger] insert_zx(ss, x)[i] == x || ss.contains(
                insert_zx(ss, x)[i],
            )),
    decreases ss.len(),
{
    if ss.len() > 0 && crate::serial::zx_le(ss.first(), x) {
        lemma_insert_zx_shape(ss.drop_first(), x);
        assert forall|i: int| 0 <= i < insert_zx(ss, x).len() implies (#[trigger] insert_zx(
            ss,
            x,
        )[i] == x || ss.contains(insert_zx(ss, x)[i])) by {
            if i > 0 {
                let tail = insert_zx(ss.drop_first(), x);
                assert(insert_zx(ss, x)[i] == tail[i - 1]);
                if tail[i - 1] != x {
                    let j = choose|j: int|
                        0 <= j < ss.drop_first().len() && ss.drop_first()[j] == tail[i - 1];
                    assert(ss[j + 1] == tail[i - 1]);
                }
            }
        }
    }
}

/// Sorting keeps the stickers: as many as before, none from elsewhere.
proof fn lemma_sort_zx_shape(ss: Seq<Sticker>)
    ensures
        sort_zx(ss).len() == ss.len(),
        forall|i: int| 0 <= i < sort_zx(ss).len() ==> ss.contains(#[trigger] sort_zx(ss)[i]),
    decreases ss.len(),
{
    if ss.len() > 0 {
        lemma_sort_zx_shape(ss.drop_last());
        lemma_insert_zx_shape(sort_zx(ss.drop_last()), ss.last());
        assert forall|i: int| 0 <= i < sort_zx(ss).len() implies ss.contains(
            #[trigger] sort_zx(ss)[i],
        ) by {
            let v = sort_zx(ss)[i];
            if v == ss.last() {
                assert(ss[ss.len() - 1] == v);
            } else {
                let j = choose|j: int|
                    0 <= j < sort_zx(ss.drop_last()).len() && sort_zx(ss.drop_last())[j] == v;
                let k = choose|k: int|
                    0 <= k < ss.drop_last().len() && ss.drop_last()[k] == v;
                assert(ss[k] == v);
            }
        }
    }
}

/// Every sticker selected for a face keeps a home on the surface.
proof fn lemma_top_stickers_dst(ss: Seq<Sticker>, f: int)
    requires
        forall|i: int| 0 <= i < ss.len() ==> valid_pos(#[trigger] ss[i].dst),
    ensures
        forall|i: int|
            0 <= i < top_stickers(ss, f).len() ==> valid_pos(#[trigger] top_stickers(ss, f)[i].dst),
    decreases ss.len(),
{
    if ss.len() > 0 {
        lemma_top_stickers_dst(ss.drop_last(), f);
        let out = top_stickers(ss, f);
        let rest = top_stickers(ss.drop_last(), f);
        assert forall|i: int| 0 <= i < out.len() implies valid_pos(#[trigger] out[i].dst) by {
            if i < rest.len() {
                assert(out[i] == rest[i]);
            } else {
                assert(out[i] == view_sticker(f, ss.last()));
            }
        }
    }
}

/// One face block of a well-formed cube: nine characters, all of them face
/// letters.
proof fn lemma_face_block_shape(ss: Seq<Sticker>, f: int)
    requires
        wf_stickers(ss),
        0 <= f < 6,
    ensures
        face_block(ss, f).len() == 9,
        forall|i: int| 0 <= i < face_block(ss, f).len() ==> is_face_letter(
            #[trigger] face_block(ss, f)[i],
        ),
{
    let ps = ss.map_values(|s: Sticker| s.pos);
    let qs = solved_stickers().map_values(|s: Sticker| s.pos);
    lemma_top_stickers_len(ss, f);
    lemma_positions_conserved(ss);
    lemma_count_top_permutation(ps, qs, f);
    lemma_solved_count_top(f);
    let top = top_stickers(ss, f);
    assert(top.len() == 9);
    lemma_top_stickers_dst(ss, f);
    lemma_sort_zx_shape(top);
    lemma_labels_len(sort_zx(top));
    assert forall|i: int| 0 <= i < face_block(ss, f).len() implies is_face_letter(
        #[trigger] face_block(ss, f)[i],
    ) by {
        assert(top.contains(sort_zx(top)[i]));
        assert(valid_pos(sort_zx(top)[i].dst));
    }
}

/// LAW: the serialization of a well-formed (hence of every reachable) cube
/// is 54 characters long and uses only the face letters U, R, F, D, L, B.
pub proof fn lemma_serialization_shape(ss: Seq<Sticker>)
    requires
        wf_stickers(ss),
    ensures
        serialize_spec(ss).len() == 54,
        forall|i: int| 0 <= i < serialize_spec(ss).len() ==> is_face_letter(
            #[trigger] serialize_spec(ss)[i],
        ),
{
    assert forall|f: int| 0 <= f < 6 implies face_block(ss, f).len() == 9 && (forall|i: int|
        0 <= i < face_block(ss, f).len() ==> is_face_letter(#[trigger] face_block(ss, f)[i])) by {
        lemma_face_block_shape(ss, f);
    }
    assert forall|f: int| 0 <= f <= 6 implies #[trigger] blocks_upto(ss, f).len() == 9 * f && (
    forall|i: int|
        0 <= i < blocks_upto(ss, f).len() ==> is_face_letter(#[trigger] blocks_upto(ss, f)[i])) by {
        lemma_blocks_upto_shape(ss, f);
    }
}

/// The first `f` blocks: nine characters each, all face letters.
proof fn lemma_blocks_upto_shape(ss: Seq<Sticker>, f: int)
    requires
        wf_stickers(ss),
        0 <= f <= 6,
    ensures
        blocks_upto(ss, f).len() == 9 * f,
        forall|i: int| 0 <= i < blocks_upto(ss, f).len() ==> is_face_letter(
            #[trigger] blocks_upto(ss, f)[i],
        ),
    decreases f,
{
    if f > 0 {
        lemma_blocks_upto_shape(ss, f - 1);
        lemma_face_block_shape(ss, f - 1);
    }
}

} // verus!
