//! What every move found by the search satisfies: it starts on the searched
//! piece, ends on an empty square, and jumps only over distinct opposing pieces.
use vstd::prelude::*;
use crate::piece::{Direction, PieceColor, PieceData};
use crate::rules::{
    any_capture, chained, collect, free_squares, jump, land, lemma_free_squares_push,
    legal_moves, mover_at, piece_moves, piece_results, probe, promotes, reach, side_results, step,
    MoveModel, Mover,
};

verus! {

/// Every square of `taken` holds an opposing piece, and none is listed twice.
pub open spec fn sound_taken(b: Seq<PieceData>, m: Mover, taken: Seq<usize>) -> bool {
    &&& taken.no_duplicates()
    &&& forall|k: int|
        0 <= k < taken.len() ==> #[trigger] taken[k] < 32 && b[taken[k] as int].is_active
            && b[taken[k] as int].color != m.color
}

/// A move of the piece of `m`, found while the chain `taken` was in progress.
pub open spec fn sound_move(b: Seq<PieceData>, m: Mover, taken: Seq<usize>, mv: MoveModel) -> bool {
    &&& mv.index == m.start
    &&& mv.end < 32
    &&& !b[mv.end as int].is_active
    &&& mv.promoted == promotes(mv.end, m.up)
    &&& match mv.captured {
        None => true,
        Some(c) => c.len() >= taken.len() && c.take(taken.len() as int) == taken && sound_taken(
            b,
            m,
            c,
        ),
    }
}

/// A search result whose moves are sound, and are captures exactly when it says so.
pub open spec fn sound_result(
    b: Seq<PieceData>,
    m: Mover,
    taken: Seq<usize>,
    r: Option<(Seq<MoveModel>, bool)>,
) -> bool {
    match r {
        None => true,
        Some((ms, f)) => ms.len() > 0 && forall|k: int|
            0 <= k < ms.len() ==> sound_move(b, m, taken, #[trigger] ms[k]) && (ms[k].captured is Some)
                == f,
    }
}

pub open spec fn all_captures(b: Seq<PieceData>, m: Mover, taken: Seq<usize>, s: Seq<MoveModel>) -> bool {
    forall|k: int|
        0 <= k < s.len() ==> sound_move(b, m, taken, #[trigger] s[k]) && s[k].captured is Some
}

proof fn lemma_all_captures_add(
    b: Seq<PieceData>,
    m: Mover,
    taken: Seq<usize>,
    s: Seq<MoveModel>,
    t: Seq<MoveModel>,
)
    requires
        all_captures(b, m, taken, s),
        all_captures(b, m, taken, t),
    ensures
        all_captures(b, m, taken, s + t),
{
    assert forall|k: int| 0 <= k < (s + t).len() implies sound_move(b, m, taken, #[trigger] (s
        + t)[k]) && (s + t)[k].captured is Some by {
        if k < s.len() {
            assert((s + t)[k] == s[k]);
        } else {
            assert((s + t)[k] == t[k - s.len()]);
        }
    }
}

proof fn lemma_chained_sound(
    b: Seq<PieceData>,
    m: Mover,
    taken: Seq<usize>,
    r: Option<(Seq<MoveModel>, bool)>,
)
    requires
        sound_result(b, m, taken, r),
    ensures
        all_captures(b, m, taken, chained(r)),
{
}

pub proof fn lemma_probe_sound(
    b: Seq<PieceData>,
    m: Mover,
    king: bool,
    sq: usize,
    d: Direction,
    taken: Seq<usize>,
)
    requires
        b.len() == 32,
        sound_taken(b, m, taken),
    ensures
        sound_result(b, m, taken, probe(b, m, king, sq, d, taken)),
    decreases free_squares(taken, 32), reach(sq, d), 1nat,
{
    match step(m.up, king, sq, d) {
        None => {},
        Some(n) => {
            if b[n as int].is_active {
                if b[n as int].color != m.color {
                    lemma_jump_sound(b, m, king, n, d, taken);
                }
            } else if king {
                lemma_probe_sound(b, m, king, n, d, taken);
                let simple = MoveModel {
                    index: m.start,
                    end: n,
                    captured: None,
                    promoted: promotes(n, m.up),
                };
                match probe(b, m, king, n, d, taken) {
                    Some((ms, f)) => {
                        if !f {
                            assert forall|k: int| 0 <= k < ms.push(simple).len() implies sound_move(
                                b,
                                m,
                                taken,
                                #[trigger] ms.push(simple)[k],
                            ) && (ms.push(simple)[k].captured is Some) == false by {
                                if k < ms.len() {
                                    assert(ms.push(simple)[k] == ms[k]);
                                }
                            }
                        }
                    },
                    None => {},
                }
            }
        },
    }
}

pub proof fn lemma_jump_sound(
    b: Seq<PieceData>,
    m: Mover,
    king: bool,
    x: usize,
    d: Direction,
    taken: Seq<usize>,
)
    requires
        b.len() == 32,
        sound_taken(b, m, taken),
        x < 32 ==> b[x as int].is_active && b[x as int].color != m.color,
    ensures
        sound_result(b, m, taken, jump(b, m, king, x, d, taken)),
    decreases free_squares(taken, 32), reach(x, d), 0nat,
{
    if x >= 32 || taken.contains(x) {
    } else {
        match step(m.up, king, x, d) {
            None => {},
            Some(l) => {
                if !b[l as int].is_active {
                    let t2 = taken.push(x);
                    lemma_free_squares_push(taken, x, 32);
                    assert forall|i: int, j: int|
                        0 <= i < t2.len() && 0 <= j < t2.len() && i != j implies t2[i]
                        != t2[j] by {
                        if i < taken.len() && j < taken.len() {
                            assert(t2[i] == taken[i] && t2[j] == taken[j]);
                        } else if i < taken.len() {
                            assert(t2[i] == taken[i]);
                        } else if j < taken.len() {
                            assert(t2[j] == taken[j]);
                        }
                    }
                    assert forall|k: int| 0 <= k < t2.len() implies #[trigger] t2[k] < 32
                        && b[t2[k] as int].is_active && b[t2[k] as int].color != m.color by {
                        if k < taken.len() {
                            assert(t2[k] == taken[k]);
                        }
                    }
                    let king2 = king || promotes(l, m.up);
                    lemma_land_sound(b, m, king2, l, t2);
                    let ms = land(b, m, king2, l, t2);
                    assert forall|k: int| 0 <= k < ms.len() implies sound_move(
                        b,
                        m,
                        taken,
                        #[trigger] ms[k],
                    ) && (ms[k].captured is Some) == true by {
                        let c = ms[k].captured->Some_0;
                        assert(c.take(t2.len() as int) == t2);
                        assert(c.take(taken.len() as int) =~= c.take(t2.len() as int).take(
                            taken.len() as int,
                        ));
                        assert(t2.take(taken.len() as int) =~= taken);
                    }
                }
            },
        }
    }
}

pub proof fn lemma_land_sound(b: Seq<PieceData>, m: Mover, king: bool, l: usize, taken: Seq<usize>)
    requires
        b.len() == 32,
        sound_taken(b, m, taken),
        l < 32,
        !b[l as int].is_active,
    ensures
        land(b, m, king, l, taken).len() > 0,
        all_captures(b, m, taken, land(b, m, king, l, taken)),
    decreases free_squares(taken, 32), 33nat, 0nat,
{
    lemma_probe_sound(b, m, king, l, Direction::UpLeft, taken);
    lemma_probe_sound(b, m, king, l, Direction::UpRight, taken);
    lemma_probe_sound(b, m, king, l, Direction::DownLeft, taken);
    lemma_probe_sound(b, m, king, l, Direction::DownRight, taken);
    let c1 = chained(probe(b, m, king, l, Direction::UpLeft, taken));
    let c2 = chained(probe(b, m, king, l, Direction::UpRight, taken));
    let c3 = chained(probe(b, m, king, l, Direction::DownLeft, taken));
    let c4 = chained(probe(b, m, king, l, Direction::DownRight, taken));
    lemma_chained_sound(b, m, taken, probe(b, m, king, l, Direction::UpLeft, taken));
    lemma_chained_sound(b, m, taken, probe(b, m, king, l, Direction::UpRight, taken));
    lemma_chained_sound(b, m, taken, probe(b, m, king, l, Direction::DownLeft, taken));
    lemma_chained_sound(b, m, taken, probe(b, m, king, l, Direction::DownRight, taken));
    lemma_all_captures_add(b, m, taken, c1, c2);
    lemma_all_captures_add(b, m, taken, c1 + c2, c3);
    lemma_all_captures_add(b, m, taken, c1 + c2 + c3, c4);
    assert(taken.take(taken.len() as int) =~= taken);
}

/// A move of the piece on `mv.index`, sound for position `b` with local player `player`.
pub open spec fn fits(b: Seq<PieceData>, player: PieceColor, mv: MoveModel) -> bool {
    &&& mv.index < 32
    &&& b[mv.index as int].is_active
    &&& sound_move(b, mover_at(b, player, mv.index), seq![], mv)
}

/// Every move of `r` satisfies `p` and is a capture exactly when `r` says so.
pub open spec fn result_ok(r: Option<(Seq<MoveModel>, bool)>, p: spec_fn(MoveModel) -> bool) -> bool {
    match r {
        None => true,
        Some((ms, f)) => forall|k: int|
            0 <= k < ms.len() ==> p(#[trigger] ms[k]) && (ms[k].captured is Some) == f,
    }
}

proof fn lemma_collect_sound(
    rs: Seq<Option<(Seq<MoveModel>, bool)>>,
    want: bool,
    p: spec_fn(MoveModel) -> bool,
)
    requires
        forall|i: int| 0 <= i < rs.len() ==> result_ok(#[trigger] rs[i], p),
    ensures
        forall|k: int|
            0 <= k < collect(rs, want).len() ==> p(#[trigger] collect(rs, want)[k]) && (collect(
                rs,
                want,
            )[k].captured is Some) == want,
    decreases rs.len(),
{
    if rs.len() > 0 {
        let front = rs.drop_last();
        assert forall|i: int| 0 <= i < front.len() implies result_ok(#[trigger] front[i], p) by {
            assert(front[i] == rs[i]);
        }
        lemma_collect_sound(front, want, p);
        assert(result_ok(rs[rs.len() - 1], p));
        let a = collect(front, want);
        let g = crate::rules::gathered(rs.last(), want);
        assert forall|k: int| 0 <= k < (a + g).len() implies p(#[trigger] (a + g)[k]) && ((a
            + g)[k].captured is Some) == want by {
            if k < a.len() {
                assert((a + g)[k] == a[k]);
            } else {
                assert((a + g)[k] == g[k - a.len()]);
            }
        }
    }
}

/// Every move of a piece fits the position, and is a capture exactly when the
/// piece's flag says so.
pub proof fn lemma_piece_moves_sound(b: Seq<PieceData>, player: PieceColor, sq: usize)
    requires
        b.len() == 32,
        sq < 32,
    ensures
        result_ok(piece_moves(b, player, sq), |mv: MoveModel| fits(b, player, mv) && mv.index == sq),
{
    if b[sq as int].is_active {
        let m = mover_at(b, player, sq);
        let king = b[sq as int].is_king;
        let rs = piece_results(b, player, sq);
        let p = |mv: MoveModel| fits(b, player, mv) && mv.index == sq;
        let e: Seq<usize> = seq![];
        assert forall|i: int| 0 <= i < rs.len() implies result_ok(#[trigger] rs[i], p) by {
            let d = Direction::all()[i];
            assert(rs[i] == probe(b, m, king, sq, d, e));
            lemma_probe_sound(b, m, king, sq, d, e);
        }
        lemma_collect_sound(rs, any_capture(rs), p);
    }
}

/// Every legal move of the local player fits the position, and either all of
/// them are captures or none is.
pub proof fn lemma_legal_moves_sound(b: Seq<PieceData>, player: PieceColor)
    requires
        b.len() == 32,
    ensures
        match legal_moves(b, player) {
            Some(ms) => forall|k: int|
                0 <= k < ms.len() ==> fits(b, player, #[trigger] ms[k]) && (ms[k].captured is Some)
                    == any_capture(side_results(b, player)),
            None => true,
        },
{
    let rs = side_results(b, player);
    let p = |mv: MoveModel| fits(b, player, mv);
    assert forall|i: int| 0 <= i < rs.len() implies result_ok(#[trigger] rs[i], p) by {
        lemma_piece_moves_sound(b, player, i as usize);
        match rs[i] {
            Some((ms, f)) => {
                assert forall|k: int| 0 <= k < ms.len() implies p(#[trigger] ms[k]) && (
                ms[k].captured is Some) == f by {
                    assert(fits(b, player, ms[k]) && ms[k].index == i as usize);
                }
            },
            None => {},
        }
    }
    lemma_collect_sound(rs, any_capture(rs), p);
}

} // verus!
