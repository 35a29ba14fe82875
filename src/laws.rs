//! Properties of the rules engine that relate several of its functions.
use vstd::prelude::*;
use crate::piece::{Direction, PieceColor, PieceData};
use crate::rules::{
    any_capture, applied, count_matching, jumps_over, legal_moves, mover_at, occupied,
    piece_moves, probe, side_results, MoveModel, Mover,
};
use crate::soundness::{
    fits, lemma_legal_moves_sound, lemma_piece_moves_sound, lemma_probe_sound, sound_move,
    sound_taken,
};

verus! {

/// Number of squares a move jumps over.
pub open spec fn capture_count(mv: MoveModel) -> nat {
    match mv.captured {
        Some(c) => c.len(),
        None => 0,
    }
}

/// `b` with every square of `c` emptied, one after the other.
pub open spec fn cleared(b: Seq<PieceData>, c: Seq<usize>) -> Seq<PieceData>
    decreases c.len(),
{
    if c.len() == 0 {
        b
    } else {
        cleared(b, c.drop_last()).update(c.last() as int, PieceData::empty())
    }
}

proof fn lemma_count_update(
    b: Seq<PieceData>,
    n: nat,
    f: spec_fn(PieceData) -> bool,
    i: int,
    v: PieceData,
)
    requires
        n <= b.len(),
        0 <= i < b.len(),
    ensures
        count_matching(b.update(i, v), n, f) + (if i < n && f(b[i]) {
            1int
        } else {
            0int
        }) == count_matching(b, n, f) + (if i < n && f(v) {
            1int
        } else {
            0int
        }),
    decreases n,
{
    if n > 0 {
        lemma_count_update(b, (n - 1) as nat, f, i, v);
    }
}

proof fn lemma_cleared(b: Seq<PieceData>, c: Seq<usize>)
    requires
        b.len() == 32,
        c.no_duplicates(),
        forall|k: int| 0 <= k < c.len() ==> #[trigger] c[k] < 32 && b[c[k] as int].is_active,
    ensures
        cleared(b, c).len() == 32,
        forall|i: int|
            0 <= i < 32 ==> #[trigger] cleared(b, c)[i] == if c.contains(i as usize) {
                PieceData::empty()
            } else {
                b[i]
            },
        count_matching(cleared(b, c), 32, occupied()) + c.len() == count_matching(b, 32, occupied()),
    decreases c.len(),
{
    if c.len() > 0 {
        let front = c.drop_last();
        let x = c.last();
        assert forall|i: int, j: int|
            0 <= i < front.len() && 0 <= j < front.len() && i != j implies front[i] != front[j] by {
            assert(front[i] == c[i] && front[j] == c[j]);
        }
        assert forall|k: int| 0 <= k < front.len() implies #[trigger] front[k] < 32
            && b[front[k] as int].is_active by {
            assert(front[k] == c[k]);
        }
        lemma_cleared(b, front);
        assert(c[c.len() - 1] == x);
        if front.contains(x) {
            let k = choose|k: int| 0 <= k < front.len() && front[k] == x;
            assert(c[k] == x);
        }
        assert(cleared(b, front)[x as int] == b[x as int]);
        lemma_count_update(cleared(b, front), 32, occupied(), x as int, PieceData::empty());
        assert forall|i: int| 0 <= i < 32 implies #[trigger] cleared(b, c)[i] == if c.contains(
            i as usize,
        ) {
            PieceData::empty()
        } else {
            b[i]
        } by {
            if front.contains(i as usize) {
                let k = choose|k: int| 0 <= k < front.len() && front[k] == i as usize;
                assert(c[k] == i as usize);
            }
            if c.contains(i as usize) && i != x {
                let k = choose|k: int| 0 <= k < c.len() && c[k] == i as usize;
                assert(front[k] == i as usize);
            }
        }
    }
}

proof fn lemma_fits_apply_count(b: Seq<PieceData>, player: PieceColor, mv: MoveModel)
    requires
        b.len() == 32,
        fits(b, player, mv),
    ensures
        count_matching(applied(b, mv), 32, occupied()) + capture_count(mv) == count_matching(
            b,
            32,
            occupied(),
        ),
{
    let m = mover_at(b, player, mv.index);
    let p = b[mv.index as int];
    let moved = PieceData { color: p.color, is_active: p.is_active, is_king: p.is_king || mv.promoted };
    let b1 = b.update(mv.end as int, moved).update(mv.index as int, PieceData::empty());
    lemma_count_update(b, 32, occupied(), mv.end as int, moved);
    lemma_count_update(
        b.update(mv.end as int, moved),
        32,
        occupied(),
        mv.index as int,
        PieceData::empty(),
    );
    let c = match mv.captured {
        Some(c) => c,
        None => seq![],
    };
    assert(sound_taken(b, m, c));
    assert forall|k: int| 0 <= k < c.len() implies #[trigger] c[k] < 32
        && b1[c[k] as int].is_active by {
        assert(c[k] != mv.index);
        assert(c[k] != mv.end);
    }
    lemma_cleared(b1, c);
    assert forall|i: int| 0 <= i < 32 implies #[trigger] applied(b, mv)[i] == cleared(b1, c)[i] by {
        if c.contains(i as usize) {
            assert(jumps_over(mv, i));
        }
        if jumps_over(mv, i) {
            assert(c.contains(i as usize));
        }
    }
    assert(applied(b, mv) =~= cleared(b1, c));
}

/// Forced capture: the local player's legal moves are either all captures or
/// all simple moves.
pub proof fn law_forced_capture_uniform(b: Seq<PieceData>, player: PieceColor)
    requires
        b.len() == 32,
    ensures
        match legal_moves(b, player) {
            Some(ms) => (forall|k: int| 0 <= k < ms.len() ==> #[trigger] ms[k].captured is Some)
                || (forall|k: int| 0 <= k < ms.len() ==> #[trigger] ms[k].captured is None),
            None => true,
        },
{
    lemma_legal_moves_sound(b, player);
}

/// No piece is taken twice in one turn: a capture chain lists distinct squares,
/// and continuing the search from its landing square with the same chain in
/// progress only adds squares that are not in it yet.
pub proof fn law_no_double_capture(
    b: Seq<PieceData>,
    player: PieceColor,
    sq: usize,
    k: int,
    king: bool,
    d: Direction,
)
    requires
        b.len() == 32,
        sq < 32,
        piece_moves(b, player, sq) is Some,
        0 <= k < piece_moves(b, player, sq)->Some_0.0.len(),
        piece_moves(b, player, sq)->Some_0.0[k].captured is Some,
    ensures
        ({
            let mv = piece_moves(b, player, sq)->Some_0.0[k];
            let c = mv.captured->Some_0;
            &&& c.no_duplicates()
            &&& match probe(b, mover_at(b, player, sq), king, mv.end, d, c) {
                Some((more, _)) => forall|j: int|
                    0 <= j < more.len() && #[trigger] more[j].captured is Some ==> {
                        let c2 = more[j].captured->Some_0;
                        &&& c2.take(c.len() as int) == c
                        &&& forall|i: int| c.len() <= i < c2.len() ==> !c.contains(#[trigger] c2[i])
                    },
                None => true,
            }
        }),
{
    lemma_piece_moves_sound(b, player, sq);
    let ms = piece_moves(b, player, sq)->Some_0.0;
    let mv = ms[k];
    let c = mv.captured->Some_0;
    let m = mover_at(b, player, sq);
    assert(fits(b, player, mv));
    assert(sound_taken(b, m, c));
    lemma_probe_sound(b, m, king, mv.end, d, c);
    match probe(b, m, king, mv.end, d, c) {
        Some((more, _)) => {
            assert forall|j: int| 0 <= j < more.len() && #[trigger] more[j].captured is Some implies {
                let c2 = more[j].captured->Some_0;
                &&& c2.take(c.len() as int) == c
                &&& forall|i: int| c.len() <= i < c2.len() ==> !c.contains(#[trigger] c2[i])
            } by {
                let c2 = more[j].captured->Some_0;
                assert(sound_move(b, m, c, more[j]));
                assert forall|i: int| c.len() <= i < c2.len() implies !c.contains(
                    #[trigger] c2[i],
                ) by {
                    if c.contains(c2[i]) {
                        let h = choose|h: int| 0 <= h < c.len() && c[h] == c2[i];
                        assert(c2.take(c.len() as int)[h] == c2[h]);
                    }
                }
            }
        },
        None => {},
    }
}

/// Applying a generated move removes exactly the pieces it captures: the
/// number of pieces drops by the length of the capture list, and a simple
/// move keeps it.
pub proof fn law_apply_count(b: Seq<PieceData>, player: PieceColor, sq: usize, k: int)
    requires
        b.len() == 32,
        sq < 32,
        piece_moves(b, player, sq) is Some,
        0 <= k < piece_moves(b, player, sq)->Some_0.0.len(),
    ensures
        ({
            let mv = piece_moves(b, player, sq)->Some_0.0[k];
            count_matching(applied(b, mv), 32, occupied()) + capture_count(mv) == count_matching(
                b,
                32,
                occupied(),
            )
        }),
{
    lemma_piece_moves_sound(b, player, sq);
    let mv = piece_moves(b, player, sq)->Some_0.0[k];
    assert(fits(b, player, mv));
    lemma_fits_apply_count(b, player, mv);
}

/// A king stays a king: after a generated move, every king that was not
/// captured stands, still crowned, on its square (the moving one on the
/// move's destination).
pub proof fn law_king_stays_king(b: Seq<PieceData>, player: PieceColor, sq: usize, k: int)
    requires
        b.len() == 32,
        sq < 32,
        piece_moves(b, player, sq) is Some,
        0 <= k < piece_moves(b, player, sq)->Some_0.0.len(),
    ensures
        ({
            let mv = piece_moves(b, player, sq)->Some_0.0[k];
            forall|i: int|
                0 <= i < 32 && #[trigger] b[i].is_active && b[i].is_king && !jumps_over(mv, i)
                    ==> {
                    let j = if i == mv.index {
                        mv.end as int
                    } else {
                        i
                    };
                    applied(b, mv)[j].is_active && applied(b, mv)[j].is_king
                }
        }),
{
    lemma_piece_moves_sound(b, player, sq);
    let mv = piece_moves(b, player, sq)->Some_0.0[k];
    let m = mover_at(b, player, sq);
    assert(fits(b, player, mv));
    assert forall|i: int|
        0 <= i < 32 && #[trigger] b[i].is_active && b[i].is_king && !jumps_over(mv, i) implies {
        let j = if i == mv.index {
            mv.end as int
        } else {
            i
        };
        applied(b, mv)[j].is_active && applied(b, mv)[j].is_king
    } by {
        if i == mv.index {
            if jumps_over(mv, mv.end as int) {
                let c = mv.captured->Some_0;
                let h = choose|h: int| 0 <= h < c.len() && c[h] == mv.end;
                assert(sound_taken(b, m, c));
                assert(b[c[h] as int].is_active);
            }
        }
    }
}

/// Where the piece on `sq` stands after `mv`.
pub open spec fn follow(sq: int, mv: MoveModel) -> int {
    if sq == mv.index {
        mv.end as int
    } else {
        sq
    }
}

/// Whether `mv` is one of the moves that the search finds for some piece of `b`.
pub open spec fn generated(b: Seq<PieceData>, player: PieceColor, mv: MoveModel) -> bool {
    exists|sq: usize, k: int|
        sq < 32 && #[trigger] piece_moves(b, player, sq) is Some && 0 <= k < piece_moves(
            b,
            player,
            sq,
        )->Some_0.0.len() && #[trigger] piece_moves(b, player, sq)->Some_0.0[k] == mv
}

/// The position reached from `b` by applying `steps` in order.
pub open spec fn replay(b: Seq<PieceData>, steps: Seq<MoveModel>) -> Seq<PieceData>
    decreases steps.len(),
{
    if steps.len() == 0 {
        b
    } else {
        applied(replay(b, steps.drop_last()), steps.last())
    }
}

/// Whether each of `steps` is a generated move of the position reached before it.
pub open spec fn playable(b: Seq<PieceData>, player: PieceColor, steps: Seq<MoveModel>) -> bool
    decreases steps.len(),
{
    steps.len() == 0 || (playable(b, player, steps.drop_last()) && generated(
        replay(b, steps.drop_last()),
        player,
        steps.last(),
    ))
}

/// The square of the piece that stood on `sq` after `steps`, or nothing once it is captured.
pub open spec fn track(sq: int, steps: Seq<MoveModel>) -> Option<int>
    decreases steps.len(),
{
    if steps.len() == 0 {
        Some(sq)
    } else {
        match track(sq, steps.drop_last()) {
            None => None,
            Some(s) => if jumps_over(steps.last(), s) {
                None
            } else {
                Some(follow(s, steps.last()))
            },
        }
    }
}

/// Promotion is never undone: a king that is not captured during a sequence of
/// generated moves is still a king, on the square it has been moved to.
pub proof fn law_king_stays_king_through(
    b: Seq<PieceData>,
    player: PieceColor,
    steps: Seq<MoveModel>,
    sq: int,
)
    requires
        b.len() == 32,
        0 <= sq < 32,
        b[sq].is_active,
        b[sq].is_king,
        playable(b, player, steps),
        track(sq, steps) is Some,
    ensures
        replay(b, steps).len() == 32,
        0 <= track(sq, steps)->Some_0 < 32,
        replay(b, steps)[track(sq, steps)->Some_0].is_active,
        replay(b, steps)[track(sq, steps)->Some_0].is_king,
    decreases steps.len(),
{
    if steps.len() > 0 {
        let front = steps.drop_last();
        let mv = steps.last();
        law_king_stays_king_through(b, player, front, sq);
        let cur = replay(b, front);
        let s = track(sq, front)->Some_0;
        let (q, k) = choose|q: usize, k: int|
            q < 32 && #[trigger] piece_moves(cur, player, q) is Some && 0 <= k < piece_moves(
                cur,
                player,
                q,
            )->Some_0.0.len() && #[trigger] piece_moves(cur, player, q)->Some_0.0[k] == mv;
        law_king_stays_king(cur, player, q, k);
        lemma_piece_moves_sound(cur, player, q);
        assert(fits(cur, player, mv));
    }
}

/// A piece on the left edge of a left-shifted row (squares 0, 8, 16 and 24)
/// finds nothing in either leftward direction, king or not, whatever chain is
/// in progress.
pub proof fn law_left_edge_blocked(
    b: Seq<PieceData>,
    m: Mover,
    king: bool,
    sq: usize,
    taken: Seq<usize>,
)
    requires
        sq < 32,
        sq % 8 == 0,
    ensures
        probe(b, m, king, sq, Direction::UpLeft, taken) is None,
        probe(b, m, king, sq, Direction::DownLeft, taken) is None,
{
}

} // verus!
