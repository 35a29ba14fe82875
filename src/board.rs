//! The position: 32 squares, the colour of the local player, and the squares
//! marked for display.
use vstd::prelude::*;
use crate::piece::{PieceColor, PieceData};
use crate::laws::law_forced_capture_uniform;
use crate::soundness::{lemma_legal_moves_sound, lemma_piece_moves_sound};
use crate::rules::{
    applied, count_matching, found_view, legal_moves, moves_for_piece, moves_for_side,
    moves_view, not_of_color, occupied, of_color, piece_moves, vacant, Move, MoveModel,
};

verus! {

/// The board as a mathematical value.
pub struct BoardModel {
    pub pieces: Seq<PieceData>,
    pub player: PieceColor,
    pub marked: Seq<bool>,
    pub selected: i32,
}

/// The state of a checkers board. The local player's pieces move towards
/// square 0 and the opponent's towards square 31.
#[derive(Clone, Debug)]
pub struct Board {
    pieces: Vec<PieceData>,
    player_color: PieceColor,
    marked: Vec<bool>,
    pub selected_square: i32,
}

impl View for Board {
    type V = BoardModel;

    closed spec fn view(&self) -> BoardModel {
        BoardModel {
            pieces: self.pieces@,
            player: self.player_color,
            marked: self.marked@,
            selected: self.selected_square,
        }
    }
}

/// The starting layout: the local player on squares 23 to 31, and three
/// opposing men on squares 6, 14 and 17.
pub open spec fn initial_layout(player: PieceColor) -> Seq<PieceData> {
    Seq::new(
        32,
        |i: int|
            if i == 6 || i == 14 || i == 17 {
                PieceData { color: player.opposite(), is_active: true, is_king: false }
            } else if i < 23 {
                PieceData::empty()
            } else {
                PieceData { color: player, is_active: true, is_king: false }
            },
    )
}

/// The squares on which some move of `moves` ends.
pub open spec fn destinations(moves: Option<Seq<MoveModel>>) -> Seq<bool> {
    Seq::new(
        32,
        |i: int|
            match moves {
                Some(ms) => exists|k: int| 0 <= k < ms.len() && ms[k].end == i,
                None => false,
            },
    )
}

impl Board {
    pub open spec fn wf(&self) -> bool {
        &&& self@.pieces.len() == 32
        &&& self@.marked.len() == 32
    }

    /// An empty board, nothing marked, with the red side as local player.
    pub fn new() -> (r: Board)
        ensures
            r.wf(),
            r@.pieces == Seq::new(32, |i: int| PieceData::empty()),
            r@.player == PieceColor::Red,
            r@.marked == Seq::new(32, |i: int| false),
    {
        let mut pieces: Vec<PieceData> = Vec::new();
        let mut marked: Vec<bool> = Vec::new();
        let mut i: usize = 0;
        while i < 32
            invariant
                i <= 32,
                pieces@ == Seq::new(i as nat, |j: int| PieceData::empty()),
                marked@ == Seq::new(i as nat, |j: int| false),
            decreases 32 - i,
        {
            pieces.push(PieceData::const_default());
            marked.push(false);
            i += 1;
            assert(pieces@ =~= Seq::new(i as nat, |j: int| PieceData::empty()));
            assert(marked@ =~= Seq::new(i as nat, |j: int| false));
        }
        Board { pieces, player_color: PieceColor::Red, marked, selected_square: 0 }
    }

    fn default_setup(player_color: PieceColor) -> (r: Vec<PieceData>)
        ensures
            r@ == initial_layout(player_color),
    {
        let enemy_color = player_color.get_opposite();
        let mut tiles: Vec<PieceData> = Vec::new();
        let mut i: usize = 0;
        while i < 32
            invariant
                i <= 32,
                enemy_color == player_color.opposite(),
                tiles@ == initial_layout(player_color).take(i as int),
            decreases 32 - i,
        {
            if i == 6 || i == 14 || i == 17 {
                tiles.push(PieceData { color: enemy_color, is_active: true, is_king: false });
            } else if i < 23 {
                tiles.push(PieceData::const_default());
            } else {
                tiles.push(PieceData { color: player_color, is_active: true, is_king: false });
            }
            i += 1;
            assert(tiles@ =~= initial_layout(player_color).take(i as int));
        }
        assert(initial_layout(player_color).take(32) =~= initial_layout(player_color));
        tiles
    }

    /// Sets up the starting layout for local player `color` and marks the
    /// destinations of that player's legal moves.
    pub fn start_new_game(&mut self, color: PieceColor)
        requires
            old(self).wf(),
        ensures
            final(self).wf(),
            final(self)@.pieces == initial_layout(color),
            final(self)@.player == color,
            final(self)@.marked == destinations(legal_moves(initial_layout(color), color)),
            final(self)@.selected == old(self)@.selected,
    {
        self.player_color = color;
        self.pieces = Board::default_setup(color);
        self.reset_squares();
        if let Some(moves) = self.get_legal_moves() {
            let mut ends: Vec<usize> = Vec::new();
            let mut k: usize = 0;
            while k < moves.len()
                invariant
                    k <= moves.len(),
                    self.wf(),
                    ends@.len() == k,
                    forall|j: int| 0 <= j < k ==> #[trigger] ends@[j] == moves@[j].end,
                    forall|j: int| 0 <= j < k ==> #[trigger] ends@[j] < 32,
                    legal_moves(self@.pieces, self@.player) == Some(moves_view(moves@)),
                decreases moves.len() - k,
            {
                let ghost ms = moves_view(moves@);
                assert(ms[k as int] == moves@[k as int]@);
                proof {
                    lemma_legal_moves_sound(self@.pieces, self@.player);
                }
                ends.push(moves[k].end);
                k += 1;
            }
            self.mark_squares(ends.as_slice());
            let ghost ms = moves_view(moves@);
            assert forall|i: int| 0 <= i < 32 implies self@.marked[i] == destinations(
                Some(ms),
            )[i] by {
                if self@.marked[i] {
                    let j = choose|j: int| 0 <= j < ends@.len() && ends@[j] == i;
                    assert(ms[j].end == i);
                }
                if destinations(Some(ms))[i] {
                    let j = choose|j: int| 0 <= j < ms.len() && ms[j].end == i;
                    assert(ends@[j] == i);
                }
            }
            assert(self@.marked =~= destinations(Some(ms)));
        } else {
            assert(self@.marked =~= destinations(None));
        }
    }

    /// Carries out `mov`: the piece moves from `mov.index` to `mov.end`, is
    /// crowned if `mov.promoted`, and every captured square is emptied.
    pub fn move_piece(&mut self, mov: Move)
        requires
            old(self).wf(),
            mov.index < 32,
            mov.end < 32,
            match mov.captured {
                Some(c) => forall|k: int| 0 <= k < c@.len() ==> c@[k] < 32,
                None => true,
            },
        ensures
            final(self).wf(),
            final(self)@.pieces == applied(old(self)@.pieces, mov@),
            final(self)@.player == old(self)@.player,
            final(self)@.marked == old(self)@.marked,
            final(self)@.selected == old(self)@.selected,
    {
        let ghost b = self@.pieces;
        let mut start_data = self.pieces[mov.index];
        start_data.is_king = start_data.is_king || mov.promoted;
        self.pieces.set(mov.end, start_data);
        self.pieces.set(mov.index, PieceData::const_default());
        let ghost m = mov@;
        if let Some(captured) = &mov.captured {
            let mut k: usize = 0;
            while k < captured.len()
                invariant
                    k <= captured.len(),
                    forall|j: int| 0 <= j < captured@.len() ==> captured@[j] < 32,
                    self.pieces@.len() == 32,
                    self.marked@ == old(self).marked@,
                    self.player_color == old(self).player_color,
                    self.selected_square == old(self).selected_square,
                    b.len() == 32,
                    mov.index < 32,
                    mov.end < 32,
                    forall|i: int|
                        0 <= i < 32 ==> #[trigger] self.pieces@[i] == if i == mov.index
                            || captured@.take(k as int).contains(i as usize) {
                            PieceData::empty()
                        } else if i == mov.end {
                            start_data
                        } else {
                            b[i]
                        },
                decreases captured.len() - k,
            {
                let sq = captured[k];
                self.pieces.set(sq, PieceData::const_default());
                proof {
                    let s1 = captured@.take(k + 1);
                    let s0 = captured@.take(k as int);
                    assert forall|u: usize| u < 32 implies #[trigger] s1.contains(u) == (
                    s0.contains(u) || u == sq) by {
                        if s1.contains(u) {
                            let j = choose|j: int|
                                0 <= j < k + 1 && s1[j] == u;
                            if j < k {
                                assert(s0[j] == u);
                            }
                        }
                        if s0.contains(u) {
                            let j = choose|j: int|
                                0 <= j < k && s0[j] == u;
                            assert(s1[j] == u);
                        }
                        if u == sq {
                            assert(s1[k as int] == sq);
                        }
                    }
                }
                k += 1;
            }
            assert(captured@.take(captured@.len() as int) =~= captured@);
            assert(self@.pieces =~= applied(b, m));
        } else {
            assert(self@.pieces =~= applied(b, m));
        }
    }

    /// Marks every square of `indices`.
    pub fn mark_squares(&mut self, indices: &[usize])
        requires
            old(self).wf(),
            forall|k: int| 0 <= k < indices@.len() ==> indices@[k] < 32,
        ensures
            final(self).wf(),
            final(self)@.pieces == old(self)@.pieces,
            final(self)@.player == old(self)@.player,
            final(self)@.selected == old(self)@.selected,
            forall|i: int|
                0 <= i < 32 ==> #[trigger] final(self)@.marked[i] == (old(self)@.marked[i]
                    || indices@.contains(i as usize)),
    {
        let ghost before = self@.marked;
        let mut k: usize = 0;
        while k < indices.len()
            invariant
                k <= indices@.len(),
                forall|j: int| 0 <= j < indices@.len() ==> indices@[j] < 32,
                self.marked@.len() == 32,
                self.pieces@ == old(self).pieces@,
                self.player_color == old(self).player_color,
                self.selected_square == old(self).selected_square,
                before == old(self)@.marked,
                forall|i: int|
                    0 <= i < 32 ==> #[trigger] self.marked@[i] == (before[i] || indices@.take(
                        k as int,
                    ).contains(i as usize)),
            decreases indices@.len() - k,
        {
            let sq = indices[k];
            self.marked.set(sq, true);
            proof {
                    let s1 = indices@.take(k + 1);
                    let s0 = indices@.take(k as int);
                assert forall|u: usize| u < 32 implies #[trigger] s1.contains(u)
                    == (s0.contains(u) || u == sq) by {
                    if s1.contains(u) {
                        let j = choose|j: int|
                            0 <= j < k + 1 && s1[j] == u;
                        if j < k {
                            assert(s0[j] == u);
                        }
                    }
                    if s0.contains(u) {
                        let j = choose|j: int| 0 <= j < k && s0[j] == u;
                        assert(s1[j] == u);
                    }
                    if u == sq {
                        assert(s1[k as int] == sq);
                    }
                }
            }
            k += 1;
        }
        assert(indices@.take(indices@.len() as int) =~= indices@);
    }

    /// Unmarks every square.
    pub fn reset_squares(&mut self)
        requires
            old(self).wf(),
        ensures
            final(self).wf(),
            final(self)@.pieces == old(self)@.pieces,
            final(self)@.player == old(self)@.player,
            final(self)@.marked == Seq::new(32, |i: int| false),
            final(self)@.selected == old(self)@.selected,
    {
        let mut k: usize = 0;
        while k < 32
            invariant
                k <= 32,
                self.marked@.len() == 32,
                self.pieces@ == old(self).pieces@,
                self.player_color == old(self).player_color,
                self.selected_square == old(self).selected_square,
                forall|i: int| 0 <= i < k ==> !self.marked@[i],
            decreases 32 - k,
        {
            self.marked.set(k, false);
            k += 1;
        }
        assert(self@.marked =~= Seq::new(32, |i: int| false));
    }

    /// Whether square `index` is empty.
    pub fn piece_is_empty(&self, index: usize) -> (r: bool)
        requires
            self.wf(),
            index < 32,
        ensures
            r == !self@.pieces[index as int].is_active,
    {
        !self.pieces[index].is_active
    }

    /// Whether square `index` holds a piece of the local player.
    pub fn piece_is_player(&self, index: usize) -> (r: bool)
        requires
            self.wf(),
            index < 32,
        ensures
            r == (of_color(self@.player))(self@.pieces[index as int]),
    {
        let piece = self.pieces[index];
        piece.color == self.player_color && piece.is_active
    }

    /// Whether square `index` holds a piece of the opponent.
    pub fn piece_is_enemy(&self, index: usize) -> (r: bool)
        requires
            self.wf(),
            index < 32,
        ensures
            r == (not_of_color(self@.player))(self@.pieces[index as int]),
    {
        let piece = self.pieces[index];
        piece.color != self.player_color && piece.is_active
    }

    /// Number of pieces of the local player.
    pub fn get_player_piece_count(&self) -> (r: u8)
        requires
            self.wf(),
        ensures
            r == count_matching(self@.pieces, 32, of_color(self@.player)),
    {
        let mut count: u8 = 0;
        let mut i: usize = 0;
        while i < 32
            invariant
                i <= 32,
                self.wf(),
                count <= i,
                count == count_matching(self@.pieces, i as nat, of_color(self@.player)),
            decreases 32 - i,
        {
            if self.piece_is_player(i) {
                count += 1;
            }
            i += 1;
        }
        count
    }

    /// Number of pieces of the opponent.
    pub fn get_enemy_piece_count(&self) -> (r: u8)
        requires
            self.wf(),
        ensures
            r == count_matching(self@.pieces, 32, not_of_color(self@.player)),
    {
        let mut count: u8 = 0;
        let mut i: usize = 0;
        while i < 32
            invariant
                i <= 32,
                self.wf(),
                count <= i,
                count == count_matching(self@.pieces, i as nat, not_of_color(self@.player)),
            decreases 32 - i,
        {
            if self.piece_is_enemy(i) {
                count += 1;
            }
            i += 1;
        }
        count
    }

    /// Number of empty squares.
    pub fn get_empty_piece_count(&self) -> (r: u8)
        requires
            self.wf(),
        ensures
            r == count_matching(self@.pieces, 32, vacant()),
    {
        let mut count: u8 = 0;
        let mut i: usize = 0;
        while i < 32
            invariant
                i <= 32,
                self.wf(),
                count <= i,
                count == count_matching(self@.pieces, i as nat, vacant()),
            decreases 32 - i,
        {
            if self.piece_is_empty(i) {
                count += 1;
            }
            i += 1;
        }
        count
    }

    /// The legal moves of the piece on `index`, of either side, and whether
    /// they are captures; `None` for an empty square.
    pub fn get_legal_moves_piece(&self, index: usize) -> (r: Option<(Vec<Move>, bool)>)
        requires
            self.wf(),
            index < 32,
        ensures
            found_view(r) == piece_moves(self@.pieces, self@.player, index),
            match r {
                Some((v, f)) => forall|k: int|
                    0 <= k < v@.len() ==> (#[trigger] v@[k].captured is Some) == f,
                None => true,
            },
    {
        let r = moves_for_piece(&self.pieces, self.player_color, index);
        proof {
            lemma_piece_moves_sound(self@.pieces, self@.player, index);
            if r is Some {
                let v = r->Some_0.0;
                let f = r->Some_0.1;
                let ms = moves_view(v@);
                assert forall|k: int| 0 <= k < v@.len() implies (#[trigger] v@[k].captured is Some)
                    == f by {
                    assert(ms[k] == v@[k]@);
                }
            }
        }
        r
    }

    /// The legal moves of the local player under the forced-capture rule;
    /// `None` when that player has no piece left.
    pub fn get_legal_moves(&self) -> (r: Option<Vec<Move>>)
        requires
            self.wf(),
        ensures
            match r {
                Some(v) => legal_moves(self@.pieces, self@.player) == Some(moves_view(v@)),
                None => legal_moves(self@.pieces, self@.player) is None,
            },
            match r {
                Some(v) => (forall|k: int| 0 <= k < v@.len() ==> #[trigger] v@[k].captured is Some)
                    || (forall|k: int| 0 <= k < v@.len() ==> #[trigger] v@[k].captured is None),
                None => true,
            },
    {
        let r = moves_for_side(&self.pieces, self.player_color);
        proof {
            law_forced_capture_uniform(self@.pieces, self@.player);
            if r is Some {
                let v = r->Some_0;
                let ms = moves_view(v@);
                if forall|k: int| 0 <= k < ms.len() ==> #[trigger] ms[k].captured is Some {
                    assert forall|k: int| 0 <= k < v@.len() implies #[trigger] v@[k].captured is Some by {
                        assert(ms[k] == v@[k]@);
                        assert(ms[k].captured is Some);
                    }
                } else {
                    assert forall|k: int| 0 <= k < v@.len() implies #[trigger] v@[k].captured is None by {
                        assert(ms[k] == v@[k]@);
                        assert(ms[k].captured is None);
                    }
                }
            }
        }
        r
    }

    /// The content of square `index`.
    pub fn piece(&self, index: usize) -> (r: PieceData)
        requires
            self.wf(),
            index < 32,
        ensures
            r == self@.pieces[index as int],
    {
        self.pieces[index]
    }

    /// Puts `piece` on square `index`.
    pub fn set_piece(&mut self, index: usize, piece: PieceData)
        requires
            old(self).wf(),
            index < 32,
        ensures
            final(self).wf(),
            final(self)@.pieces == old(self)@.pieces.update(index as int, piece),
            final(self)@.player == old(self)@.player,
            final(self)@.marked == old(self)@.marked,
            final(self)@.selected == old(self)@.selected,
    {
        self.pieces.set(index, piece);
    }

    /// Whether square `index` is marked.
    pub fn is_marked(&self, index: usize) -> (r: bool)
        requires
            self.wf(),
            index < 32,
        ensures
            r == self@.marked[index as int],
    {
        self.marked[index]
    }

    /// The colour of the local player.
    pub fn player_color(&self) -> (r: PieceColor)
        ensures
            r == self@.player,
    {
        self.player_color
    }
}

} // verus!
