//! The rules engine: move search for one piece, the forced-capture rule, and
//! the side-wide move list.
use vstd::prelude::*;
use crate::piece::{Direction, PieceColor, PieceData};

verus! {

/// A move as a mathematical value: `captured` is `Some` exactly for captures,
/// and then lists the jumped squares in the order in which they are taken.
pub struct MoveModel {
    pub index: usize,
    pub end: usize,
    pub captured: Option<Seq<usize>>,
    pub promoted: bool,
}

/// A move of one piece from `index` to `end`; `captured` holds the squares
/// jumped over, in order, and is `None` for a simple move.
#[derive(Clone, Debug, PartialEq, Eq)]
pub struct Move {
    pub index: usize,
    pub end: usize,
    pub captured: Option<Vec<usize>>,
    pub promoted: bool,
}

impl View for Move {
    type V = MoveModel;

    open spec fn view(&self) -> MoveModel {
        MoveModel {
            index: self.index,
            end: self.end,
            captured: match self.captured {
                Some(v) => Some(v@),
                None => None,
            },
            promoted: self.promoted,
        }
    }
}

pub open spec fn moves_view(v: Seq<Move>) -> Seq<MoveModel> {
    v.map_values(|m: Move| m@)
}

/// A search result: the moves found and whether they are captures.
pub open spec fn found_view(r: Option<(Vec<Move>, bool)>) -> Option<(Seq<MoveModel>, bool)> {
    match r {
        Some((v, f)) => Some((moves_view(v@), f)),
        None => None,
    }
}

/// The piece whose moves are searched: its square, its colour, and whether it
/// moves towards square 0.
#[derive(Clone, Copy)]
pub struct Mover {
    pub start: usize,
    pub color: PieceColor,
    pub up: bool,
}

/// The neighbour of `sq` in direction `d`, for a piece that moves towards
/// square 0 when `up` holds; men may not step backwards.
pub open spec fn step(up: bool, king: bool, sq: usize, d: Direction) -> Option<usize> {
    if sq >= 32 || d.blocked_at(sq as int) || (!king && d.up() != up) {
        None
    } else {
        let n = sq + d.offset(sq as int);
        if 0 <= n < 32 {
            Some(n as usize)
        } else {
            None
        }
    }
}

/// Whether landing on `sq` crowns a piece that moves towards square 0 when `up` holds.
pub open spec fn promotes(sq: usize, up: bool) -> bool {
    if up {
        sq < 4
    } else {
        sq >= 28
    }
}

/// Number of squares below `n` that are not in `taken`.
pub open spec fn free_squares(taken: Seq<usize>, n: nat) -> nat
    decreases n,
{
    if n == 0 {
        0
    } else {
        free_squares(taken, (n - 1) as nat) + if taken.contains((n - 1) as usize) {
            0nat
        } else {
            1nat
        }
    }
}

/// How many squares a walk from `sq` in direction `d` can still take.
pub open spec fn reach(sq: usize, d: Direction) -> nat {
    if sq >= 32 {
        0
    } else if d.up() {
        sq as nat
    } else {
        (32 - sq) as nat
    }
}

pub proof fn lemma_free_squares_push(taken: Seq<usize>, x: usize, n: nat)
    requires
        !taken.contains(x),
    ensures
        free_squares(taken.push(x), n) <= free_squares(taken, n),
        x < n ==> free_squares(taken.push(x), n) < free_squares(taken, n),
    decreases n,
{
    if n > 0 {
        lemma_free_squares_push(taken, x, (n - 1) as nat);
        let y = (n - 1) as usize;
        if taken.contains(y) {
            let k = choose|k: int| 0 <= k < taken.len() && taken[k] == y;
            assert(taken.push(x)[k] == y);
        }
        if taken.push(x).contains(y) && y != x {
            let k = choose|k: int| 0 <= k < taken.push(x).len() && taken.push(x)[k] == y;
            assert(taken[k] == y);
        }
        if x == y {
            assert(taken.push(x)[taken.len() as int] == x);
        }
    }
}

/// The moves found by walking from `sq` in direction `d`: a simple step onto
/// an empty square (a king goes on sliding past it), or a capture when the
/// neighbour is an opposing piece not already taken in this chain.
pub open spec fn probe(
    b: Seq<PieceData>,
    m: Mover,
    king: bool,
    sq: usize,
    d: Direction,
    taken: Seq<usize>,
) -> Option<(Seq<MoveModel>, bool)>
    decreases free_squares(taken, 32), reach(sq, d), 1nat,
{
    match step(m.up, king, sq, d) {
        None => None,
        Some(n) => {
            if n >= b.len() {
                None
            } else if b[n as int].is_active {
                if b[n as int].color == m.color {
                    None
                } else {
                    jump(b, m, king, n, d, taken)
                }
            } else {
                let simple = MoveModel {
                    index: m.start,
                    end: n,
                    captured: None,
                    promoted: promotes(n, m.up),
                };
                if !king {
                    Some((seq![simple], false))
                } else {
                    match probe(b, m, king, n, d, taken) {
                        None => Some((seq![simple], false)),
                        Some((ms, f)) => if f {
                            Some((ms, true))
                        } else {
                            Some((ms.push(simple), false))
                        },
                    }
                }
            }
        },
    }
}

/// Jumping over the opposing piece on `x` in direction `d`.
pub open spec fn jump(
    b: Seq<PieceData>,
    m: Mover,
    king: bool,
    x: usize,
    d: Direction,
    taken: Seq<usize>,
) -> Option<(Seq<MoveModel>, bool)>
    decreases free_squares(taken, 32), reach(x, d), 0nat,
{
    if x >= 32 || taken.contains(x) {
        None
    } else {
        match step(m.up, king, x, d) {
            None => None,
            Some(l) => {
                if l >= b.len() || b[l as int].is_active {
                    None
                } else {
                    proof {
                        lemma_free_squares_push(taken, x, 32);
                    }
                    Some((land(b, m, king || promotes(l, m.up), l, taken.push(x)), true))
                }
            },
        }
    }
}

/// The captures found in one direction of a continuation search.
pub open spec fn chained(r: Option<(Seq<MoveModel>, bool)>) -> Seq<MoveModel> {
    match r {
        Some((ms, f)) => if f {
            ms
        } else {
            seq![]
        },
        None => seq![],
    }
}

/// Having landed on `l` after taking `taken`: every longer chain found from
/// `l` in the four directions, or else the chain ending on `l`.
pub open spec fn land(b: Seq<PieceData>, m: Mover, king: bool, l: usize, taken: Seq<usize>) -> Seq<
    MoveModel,
>
    decreases free_squares(taken, 32), 33nat, 0nat,
{
    let c = chained(probe(b, m, king, l, Direction::UpLeft, taken)) + chained(
        probe(b, m, king, l, Direction::UpRight, taken),
    ) + chained(probe(b, m, king, l, Direction::DownLeft, taken)) + chained(
        probe(b, m, king, l, Direction::DownRight, taken),
    );
    if c.len() > 0 {
        c
    } else {
        seq![MoveModel { index: m.start, end: l, captured: Some(taken), promoted: promotes(l, m.up) }]
    }
}

pub proof fn lemma_moves_view_add(a: Seq<Move>, c: Seq<Move>)
    ensures
        moves_view(a + c) == moves_view(a) + moves_view(c),
{
    assert(moves_view(a + c) =~= moves_view(a) + moves_view(c));
}

pub proof fn lemma_moves_view_push(a: Seq<Move>, x: Move)
    ensures
        moves_view(a.push(x)) == moves_view(a).push(x@),
{
    assert(moves_view(a.push(x)) =~= moves_view(a).push(x@));
}

fn next_square(up: bool, king: bool, sq: usize, d: Direction) -> (r: Option<usize>)
    ensures
        r == step(up, king, sq, d),
{
    if sq >= 32 {
        return None;
    }
    let shifted = sq % 8 < 4;
    if (shifted && d.is_left() && sq % 4 == 0) || (!shifted && d.is_right() && sq % 4 == 3) {
        return None;
    }
    if !king && d.is_up() != up {
        return None;
    }
    let n: i32 = sq as i32 + d.get_value(sq);
    if 0 <= n && n < 32 {
        Some(n as usize)
    } else {
        None
    }
}

fn is_promotion(sq: usize, up: bool) -> (r: bool)
    ensures
        r == promotes(sq, up),
{
    if up {
        sq < 4
    } else {
        sq >= 28
    }
}

fn contains_square(v: &Vec<usize>, x: usize) -> (r: bool)
    ensures
        r == v@.contains(x),
{
    let mut i: usize = 0;
    while i < v.len()
        invariant
            i <= v.len(),
            forall|k: int| 0 <= k < i ==> v@[k] != x,
        decreases v.len() - i,
    {
        if v[i] == x {
            assert(v@[i as int] == x);
            return true;
        }
        i += 1;
    }
    false
}

/// A copy of `v` with `x` added at the end.
fn with_square(v: &Vec<usize>, x: Option<usize>) -> (r: Vec<usize>)
    ensures
        r@ == match x {
            Some(y) => v@.push(y),
            None => v@,
        },
{
    let mut r: Vec<usize> = Vec::new();
    let mut i: usize = 0;
    while i < v.len()
        invariant
            i <= v.len(),
            r@ == v@.take(i as int),
        decreases v.len() - i,
    {
        r.push(v[i]);
        i += 1;
        assert(r@ =~= v@.take(i as int));
    }
    assert(v@.take(v.len() as int) =~= v@);
    if let Some(y) = x {
        r.push(y);
    }
    r
}

fn one_move(mv: Move) -> (r: Vec<Move>)
    ensures
        moves_view(r@) == seq![mv@],
{
    let r = vec![mv];
    assert(moves_view(r@) =~= seq![mv@]);
    r
}

fn probe_exec(
    b: &Vec<PieceData>,
    m: Mover,
    king: bool,
    sq: usize,
    d: Direction,
    taken: &Vec<usize>,
) -> (r: Option<(Vec<Move>, bool)>)
    ensures
        found_view(r) == probe(b@, m, king, sq, d, taken@),
    decreases free_squares(taken@, 32), reach(sq, d), 1nat,
{
    match next_square(m.up, king, sq, d) {
        None => None,
        Some(n) => {
            if n >= b.len() {
                None
            } else if b[n].is_active {
                if b[n].color == m.color {
                    None
                } else {
                    jump_exec(b, m, king, n, d, taken)
                }
            } else {
                let simple = Move {
                    index: m.start,
                    end: n,
                    captured: None,
                    promoted: is_promotion(n, m.up),
                };
                if !king {
                    Some((one_move(simple), false))
                } else {
                    match probe_exec(b, m, king, n, d, taken) {
                        None => Some((one_move(simple), false)),
                        Some((ms, f)) => {
                            if f {
                                Some((ms, true))
                            } else {
                                let mut ms = ms;
                                proof {
                                    lemma_moves_view_push(ms@, simple);
                                }
                                ms.push(simple);
                                Some((ms, false))
                            }
                        },
                    }
                }
            }
        },
    }
}

fn jump_exec(
    b: &Vec<PieceData>,
    m: Mover,
    king: bool,
    x: usize,
    d: Direction,
    taken: &Vec<usize>,
) -> (r: Option<(Vec<Move>, bool)>)
    ensures
        found_view(r) == jump(b@, m, king, x, d, taken@),
    decreases free_squares(taken@, 32), reach(x, d), 0nat,
{
    if x >= 32 || contains_square(taken, x) {
        return None;
    }
    match next_square(m.up, king, x, d) {
        None => None,
        Some(l) => {
            if l >= b.len() || b[l].is_active {
                None
            } else {
                let further = with_square(taken, Some(x));
                proof {
                    lemma_free_squares_push(taken@, x, 32);
                }
                let ms = land_exec(b, m, king || is_promotion(l, m.up), l, &further);
                Some((ms, true))
            }
        },
    }
}

fn chained_exec(r: Option<(Vec<Move>, bool)>) -> (c: Vec<Move>)
    ensures
        moves_view(c@) == chained(found_view(r)),
{
    match r {
        Some((ms, f)) => if f {
            ms
        } else {
            Vec::new()
        },
        None => Vec::new(),
    }
}

fn land_exec(b: &Vec<PieceData>, m: Mover, king: bool, l: usize, taken: &Vec<usize>) -> (r: Vec<
    Move,
>)
    ensures
        moves_view(r@) == land(b@, m, king, l, taken@),
    decreases free_squares(taken@, 32), 33nat, 0nat,
{
    let mut c = chained_exec(probe_exec(b, m, king, l, Direction::UpLeft, taken));
    let mut c2 = chained_exec(probe_exec(b, m, king, l, Direction::UpRight, taken));
    let mut c3 = chained_exec(probe_exec(b, m, king, l, Direction::DownLeft, taken));
    let mut c4 = chained_exec(probe_exec(b, m, king, l, Direction::DownRight, taken));
    proof {
        lemma_moves_view_add(c@, c2@);
        lemma_moves_view_add(c@ + c2@, c3@);
        lemma_moves_view_add(c@ + c2@ + c3@, c4@);
    }
    c.append(&mut c2);
    c.append(&mut c3);
    c.append(&mut c4);
    if c.len() > 0 {
        c
    } else {
        one_move(
            Move {
                index: m.start,
                end: l,
                captured: Some(with_square(taken, None)),
                promoted: is_promotion(l, m.up),
            },
        )
    }
}

/// Whether a search result holds captures.
pub open spec fn is_capture_result(r: Option<(Seq<MoveModel>, bool)>) -> bool {
    match r {
        Some((_, f)) => f,
        None => false,
    }
}

/// The moves of a search result if their kind is `want`, else nothing.
pub open spec fn gathered(r: Option<(Seq<MoveModel>, bool)>, want: bool) -> Seq<MoveModel> {
    match r {
        Some((ms, f)) => if f == want {
            ms
        } else {
            seq![]
        },
        None => seq![],
    }
}

/// Whether any of the results holds captures.
pub open spec fn any_capture(rs: Seq<Option<(Seq<MoveModel>, bool)>>) -> bool
    decreases rs.len(),
{
    if rs.len() == 0 {
        false
    } else {
        any_capture(rs.drop_last()) || is_capture_result(rs.last())
    }
}

/// The moves of kind `want` of all the results, in order.
pub open spec fn collect(rs: Seq<Option<(Seq<MoveModel>, bool)>>, want: bool) -> Seq<MoveModel>
    decreases rs.len(),
{
    if rs.len() == 0 {
        seq![]
    } else {
        collect(rs.drop_last(), want) + gathered(rs.last(), want)
    }
}

/// Under the forced-capture rule: the captures if there are any, else the simple moves.
pub open spec fn forced(rs: Seq<Option<(Seq<MoveModel>, bool)>>) -> Seq<MoveModel> {
    collect(rs, any_capture(rs))
}

/// The piece on `sq`, searched for; `player` is the colour that moves towards square 0.
pub open spec fn mover_at(b: Seq<PieceData>, player: PieceColor, sq: usize) -> Mover {
    Mover { start: sq, color: b[sq as int].color, up: b[sq as int].color == player }
}

/// The search result of each direction, from the piece on `sq`.
pub open spec fn piece_results(b: Seq<PieceData>, player: PieceColor, sq: usize) -> Seq<
    Option<(Seq<MoveModel>, bool)>,
> {
    Direction::all().map_values(
        |d: Direction| probe(b, mover_at(b, player, sq), b[sq as int].is_king, sq, d, seq![]),
    )
}

/// The legal moves of the piece on `sq` and whether they are captures; nothing
/// for an empty square.
pub open spec fn piece_moves(b: Seq<PieceData>, player: PieceColor, sq: usize) -> Option<
    (Seq<MoveModel>, bool),
> {
    if sq >= b.len() || !b[sq as int].is_active {
        None
    } else {
        let rs = piece_results(b, player, sq);
        Some((forced(rs), any_capture(rs)))
    }
}

/// Whether `player` has a piece on the board.
pub open spec fn has_piece(b: Seq<PieceData>, player: PieceColor) -> bool {
    exists|i: int| 0 <= i < b.len() && b[i].is_active && #[trigger] b[i].color == player
}

/// The result of each square's piece, for the pieces of `player`.
pub open spec fn side_results(b: Seq<PieceData>, player: PieceColor) -> Seq<
    Option<(Seq<MoveModel>, bool)>,
> {
    Seq::new(
        b.len(),
        |i: int|
            if b[i].is_active && b[i].color == player {
                piece_moves(b, player, i as usize)
            } else {
                None
            },
    )
}

/// The legal moves of `player`: nothing when `player` has no piece, and the
/// forced-capture rule applied across all of its pieces otherwise.
pub open spec fn legal_moves(b: Seq<PieceData>, player: PieceColor) -> Option<Seq<MoveModel>> {
    if !has_piece(b, player) {
        None
    } else {
        Some(forced(side_results(b, player)))
    }
}

/// Adds one search result to the captures, the simple moves and the capture flag gathered so far.
fn absorb(
    caps: &mut Vec<Move>,
    simples: &mut Vec<Move>,
    flag: &mut bool,
    r: Option<(Vec<Move>, bool)>,
)
    ensures
        moves_view(final(caps)@) == moves_view(old(caps)@) + gathered(found_view(r), true),
        moves_view(final(simples)@) == moves_view(old(simples)@) + gathered(found_view(r), false),
        *final(flag) == (*old(flag) || is_capture_result(found_view(r))),
{
    match r {
        Some((ms, f)) => {
            let mut ms = ms;
            if f {
                proof {
                    lemma_moves_view_add(caps@, ms@);
                    assert(moves_view(simples@) + seq![] =~= moves_view(simples@));
                }
                caps.append(&mut ms);
                *flag = true;
            } else {
                proof {
                    lemma_moves_view_add(simples@, ms@);
                    assert(moves_view(caps@) + seq![] =~= moves_view(caps@));
                }
                simples.append(&mut ms);
            }
        },
        None => {
            assert(moves_view(caps@) + seq![] =~= moves_view(caps@));
            assert(moves_view(simples@) + seq![] =~= moves_view(simples@));
        },
    }
}

/// The legal moves of the piece on `sq`, and whether they are captures.
pub(crate) fn moves_for_piece(b: &Vec<PieceData>, player: PieceColor, sq: usize) -> (r: Option<
    (Vec<Move>, bool),
>)
    requires
        b@.len() == 32,
        sq < 32,
    ensures
        found_view(r) == piece_moves(b@, player, sq),
{
    let piece = b[sq];
    if !piece.is_active {
        return None;
    }
    let m = Mover { start: sq, color: piece.color, up: piece.color == player };
    let ghost rs = piece_results(b@, player, sq);
    let none: Vec<usize> = Vec::new();
    let dirs = Direction::values();
    let mut caps: Vec<Move> = Vec::new();
    let mut simples: Vec<Move> = Vec::new();
    let mut flag = false;
    let mut i: usize = 0;
    while i < 4
        invariant
            i <= 4,
            b@.len() == 32,
            sq < 32,
            m == mover_at(b@, player, sq),
            piece == b@[sq as int],
            rs == piece_results(b@, player, sq),
            dirs@ == Direction::all(),
            none@ == Seq::<usize>::empty(),
            moves_view(caps@) == collect(rs.take(i as int), true),
            moves_view(simples@) == collect(rs.take(i as int), false),
            flag == any_capture(rs.take(i as int)),
        decreases 4 - i,
    {
        let r = probe_exec(b, m, piece.is_king, sq, dirs[i], &none);
        proof {
            assert(rs[i as int] == found_view(r));
            assert(rs.take(i + 1).drop_last() =~= rs.take(i as int));
        }
        absorb(&mut caps, &mut simples, &mut flag, r);
        i += 1;
    }
    assert(rs.take(4) =~= rs);
    if flag {
        Some((caps, true))
    } else {
        Some((simples, false))
    }
}

/// The legal moves of `player` under the forced-capture rule.
pub(crate) fn moves_for_side(b: &Vec<PieceData>, player: PieceColor) -> (r: Option<Vec<Move>>)
    requires
        b@.len() == 32,
    ensures
        match r {
            Some(v) => legal_moves(b@, player) == Some(moves_view(v@)),
            None => legal_moves(b@, player) is None,
        },
{
    let ghost rs = side_results(b@, player);
    let mut caps: Vec<Move> = Vec::new();
    let mut simples: Vec<Move> = Vec::new();
    let mut flag = false;
    let mut seen = false;
    let mut i: usize = 0;
    while i < 32
        invariant
            i <= 32,
            b@.len() == 32,
            rs == side_results(b@, player),
            moves_view(caps@) == collect(rs.take(i as int), true),
            moves_view(simples@) == collect(rs.take(i as int), false),
            flag == any_capture(rs.take(i as int)),
            seen == exists|k: int| 0 <= k < i && b@[k].is_active && #[trigger] b@[k].color == player,
        decreases 32 - i,
    {
        let r = if b[i].is_active && b[i].color == player {
            moves_for_piece(b, player, i)
        } else {
            None
        };
        proof {
            assert(rs[i as int] == found_view(r));
            assert(rs.take(i + 1).drop_last() =~= rs.take(i as int));
        }
        if b[i].is_active && b[i].color == player {
            seen = true;
        }
        absorb(&mut caps, &mut simples, &mut flag, r);
        i += 1;
    }
    assert(rs.take(32) =~= rs);
    if !seen {
        None
    } else if flag {
        Some(caps)
    } else {
        Some(simples)
    }
}

/// Whether the move jumps over square `i`.
pub open spec fn jumps_over(m: MoveModel, i: int) -> bool {
    match m.captured {
        Some(c) => c.contains(i as usize),
        None => false,
    }
}

/// The position after move `m`: the piece leaves `m.index` for `m.end`,
/// crowned if `m.promoted`, and every jumped square is emptied.
pub open spec fn applied(b: Seq<PieceData>, m: MoveModel) -> Seq<PieceData> {
    let p = b[m.index as int];
    let moved = PieceData { color: p.color, is_active: p.is_active, is_king: p.is_king || m.promoted };
    Seq::new(
        b.len(),
        |i: int|
            if i == m.index || jumps_over(m, i) {
                PieceData::empty()
            } else if i == m.end {
                moved
            } else {
                b[i]
            },
    )
}

/// Number of squares below `n` whose content satisfies `f`.
pub open spec fn count_matching(b: Seq<PieceData>, n: nat, f: spec_fn(PieceData) -> bool) -> nat
    decreases n,
{
    if n == 0 {
        0
    } else {
        count_matching(b, (n - 1) as nat, f) + if f(b[n - 1]) {
            1nat
        } else {
            0nat
        }
    }
}

pub open spec fn occupied() -> spec_fn(PieceData) -> bool {
    |p: PieceData| p.is_active
}

pub open spec fn vacant() -> spec_fn(PieceData) -> bool {
    |p: PieceData| !p.is_active
}

pub open spec fn of_color(c: PieceColor) -> spec_fn(PieceData) -> bool {
    |p: PieceData| p.is_active && p.color == c
}

pub open spec fn not_of_color(c: PieceColor) -> spec_fn(PieceData) -> bool {
    |p: PieceData| p.is_active && p.color != c
}

} // verus!
