//! A game in progress: the board, the side to move, win claims and owed moves.
use vstd::prelude::*;

use crate::bitboard::{lemma_bit_ops, lemma_bit_set, mask_at, test_bit, BitBoard};
use crate::board::{b2i, Board};
use crate::error::GameError;
use crate::piece::{
    is_aggressive_kind, is_passive_kind, kind_of, opponent, side_name, side_of, Piece, Side,
};
use crate::notation::board_code;
use crate::position::{normal_of, on_board, push_char, Position};

verus! {

/// One value for each side.
#[derive(Clone, Copy, Debug)]
pub struct BySide<T> {
    pub orange: T,
    pub white: T,
}

impl<T: Copy> BySide<T> {
    /// The value of side `s`.
    pub open spec fn of(self, s: Side) -> T {
        match s {
            Side::Orange => self.orange,
            Side::White => self.white,
        }
    }

    /// The same value for both sides.
    pub fn both(v: T) -> (r: BySide<T>)
        ensures
            r.orange == v,
            r.white == v,
    {
        BySide { orange: v, white: v }
    }

    /// The value of side `s`.
    pub fn get(&self, s: Side) -> (r: T)
        ensures
            r == self.of(s),
    {
        match s {
            Side::Orange => self.orange,
            Side::White => self.white,
        }
    }

    /// Replaces the value of side `s`.
    pub fn put(&mut self, s: Side, v: T)
        ensures
            final(self).of(s) == v,
            final(self).of(opponent(s)) == old(self).of(opponent(s)),
    {
        match s {
            Side::Orange => self.orange = v,
            Side::White => self.white = v,
        }
    }
}

/// Passive defeat for each side: the side has no passive piece left.
#[derive(Clone, Copy, Debug, PartialEq, Eq, Structural)]
pub struct GameSide {
    pub white: bool,
    pub orange: bool,
}

/// Edge alignment of the side to move, on each of its two corners.
#[derive(Clone, Copy, Debug, PartialEq, Eq, Structural)]
pub struct EdgeSide {
    pub goat_side: bool,
    pub sloth_side: bool,
}

/// A report on the win conditions.
#[derive(Clone, Copy, Debug, PartialEq, Eq, Structural)]
pub struct GameState {
    pub passive_defeat: GameSide,
    pub edge_alignment: EdgeSide,
    pub stalemate: bool,
    pub win: bool,
}

/// Square `k` (0 to 3) of a side's corner template.
///
/// Each side's template lies in its own half of the board, on its edge columns:
/// the goat corner is column 1 and the sloth corner column 8, on rows 1 to 4 for
/// White and rows 5 to 8 for Orange.
pub open spec fn corner_square(s: Side, goat_side: bool, k: int) -> int {
    let base: int = match s {
        Side::White => 0,
        Side::Orange => 32,
    };
    let col: int = if goat_side {
        0
    } else {
        7
    };
    base + 8 * k + col
}

/// Square `i` lies on one of side `s`'s corners.
pub open spec fn in_template(s: Side, i: int) -> bool {
    let base: int = match s {
        Side::White => 0,
        Side::Orange => 32,
    };
    base <= i < base + 32 && ((i - base) % 8 == 0 || (i - base) % 8 == 7)
}

/// Square `i` holds a passive piece.
pub open spec fn passive_at(b: Board, i: int) -> bool {
    is_passive_kind(kind_of(b.square(i)))
}

/// Square `i` holds an aggressive piece.
pub open spec fn aggressive_at(b: Board, i: int) -> bool {
    is_aggressive_kind(kind_of(b.square(i)))
}

/// Square `i` holds a piece of side `s`.
pub open spec fn owned_by(b: Board, s: Side, i: int) -> bool {
    side_of(b.square(i)) == Some(s)
}

/// How many of four pieces belong to side `s`.
pub open spec fn count_side(q0: Piece, q1: Piece, q2: Piece, q3: Piece, s: Side) -> int {
    b2i(side_of(q0) == Some(s)) + b2i(side_of(q1) == Some(s)) + b2i(side_of(q2) == Some(s)) + b2i(
        side_of(q3) == Some(s),
    )
}

/// Four corner pieces align for side `s`: all are passive, and the opponent
/// holds no more of them than `s` does.
pub open spec fn corner_aligned_pieces(q0: Piece, q1: Piece, q2: Piece, q3: Piece, s: Side) -> bool {
    &&& count_side(q0, q1, q2, q3, opponent(s)) <= count_side(q0, q1, q2, q3, s)
    &&& is_passive_kind(kind_of(q0)) && is_passive_kind(kind_of(q1))
    &&& is_passive_kind(kind_of(q2)) && is_passive_kind(kind_of(q3))
}

/// Edge alignment of side `s` on one corner of its template: every square of
/// the corner holds a passive piece of either side, and the opponent holds no
/// more of those squares than `s` does.
pub open spec fn aligned(b: Board, s: Side, goat_side: bool) -> bool {
    corner_aligned_pieces(
        b.square(corner_square(s, goat_side, 0)),
        b.square(corner_square(s, goat_side, 1)),
        b.square(corner_square(s, goat_side, 2)),
        b.square(corner_square(s, goat_side, 3)),
        s,
    )
}

/// Side `s` has no passive piece on the board.
pub open spec fn passiveless(b: Board, s: Side) -> bool {
    forall|i: int| 0 <= i < 64 ==> !(#[trigger] owned_by(b, s, i) && passive_at(b, i))
}

/// Side `s` holds a winning configuration: alignment on either corner, or an
/// opponent with no passive piece.
pub open spec fn win_detected(b: Board, s: Side) -> bool {
    aligned(b, s, true) || aligned(b, s, false) || passiveless(b, opponent(s))
}

/// How many of the squares below `n` hold an aggressive piece.
pub open spec fn aggressive_count(b: Board, n: int) -> int
    decreases n,
{
    if n <= 0 {
        0
    } else {
        aggressive_count(b, n - 1) + b2i(aggressive_at(b, n - 1))
    }
}

/// A game on a blank board, White to move, with an empty move log.
pub fn blank_instance() -> (r: Instance)
    ensures
        r.wf(),
        forall|i: int| #[trigger] r.board.square(i) == Piece::Empty,
        r.side == Side::White,
        r.states@ == Seq::<char>::empty(),
        !r.call.orange && !r.call.white,
        !r.miss_call.orange && !r.miss_call.white,
        r.last_move.orange == Piece::Empty && r.last_move.white == Piece::Empty,
{
    Instance {
        board: Board::blank(),
        side: Side::White,
        states: String::new(),
        call: BySide::both(false),
        miss_call: BySide::both(false),
        last_move: BySide::both(Piece::Empty),
    }
}

/// A game: the board, the side to move, and for each side whether it has
/// claimed a win, whether it owes a move, and the piece it last moved.
#[derive(Clone, Debug)]
pub struct Instance {
    pub board: Board,
    pub side: Side,
    pub states: String,
    pub call: BySide<bool>,
    pub miss_call: BySide<bool>,
    pub last_move: BySide<Piece>,
}

impl Instance {
    /// The board is consistent.
    pub open spec fn wf(&self) -> bool {
        self.board.wf()
    }

    /// Whether any piece is on the board.
    pub fn game_set(&self) -> (r: bool)
        ensures
            r == exists|i: int| 0 <= i < 64 && #[trigger] self.board.occupied(i),
    {
        let occ = self.board.board_state();
        let mut i: u64 = 0;
        while i < 64
            invariant
                i <= 64,
                forall|j: int| #[trigger] occ.at(j) == self.board.occupied(j),
                forall|j: int| 0 <= j < i ==> !#[trigger] self.board.occupied(j),
            decreases 64 - i,
        {
            assert(occ.at(i as int) == self.board.occupied(i as int));
            if test_bit(occ.num, i) {
                return true;
            }
            i = i + 1;
        }
        false
    }

    /// Whether square `i` lies on side `s`'s corner template.
    fn in_template(s: Side, i: u64) -> (r: bool)
        ensures
            r == in_template(s, i as int),
    {
        let base: u64 = match s {
            Side::White => 0,
            Side::Orange => 32,
        };
        if i < base || i >= base + 32 {
            return false;
        }
        let c = (i - base) % 8;
        c == 0 || c == 7
    }

    /// The pieces of side `side` that stand on its corner template.
    pub fn active_edges(&self, side: Side) -> (r: BitBoard)
        ensures
            forall|i: int| #[trigger]
                r.at(i) == (0 <= i < 64 && self.board.side_at(side, i) && in_template(side, i)),
    {
        let own = self.board.side_bitboard(side);
        let mut m = BitBoard::new();
        let mut i: u64 = 0;
        while i < 64
            invariant
                i <= 64,
                forall|j: int| #[trigger] own.at(j) == self.board.side_at(side, j),
                forall|j: int| #[trigger]
                    m.at(j) == (0 <= j < i && self.board.side_at(side, j) && in_template(side, j)),
            decreases 64 - i,
        {
            let ghost owns = own.at(i as int);
            if test_bit(own.num, i) && Instance::in_template(side, i) {
                let ghost prev = m;
                m.num = m.num | mask_at(i);
                proof {
                    assert forall|j: int| #[trigger]
                        m.at(j) == (0 <= j < i + 1 && self.board.side_at(side, j) && in_template(
                            side,
                            j,
                        )) by {
                        assert(prev.at(j) == (0 <= j < i && self.board.side_at(side, j)
                            && in_template(side, j)));
                        if 0 <= j < 64 {
                            lemma_bit_set(prev.num, i, j as u64);
                        }
                    }
                }
            } else {
                assert forall|j: int| #[trigger]
                    m.at(j) == (0 <= j < i + 1 && self.board.side_at(side, j) && in_template(
                        side,
                        j,
                    )) by {
                    assert(m.at(j) == (0 <= j < i && self.board.side_at(side, j) && in_template(
                        side,
                        j,
                    )));
                }
            }
            i = i + 1;
        }
        m
    }
    /// The squares that hold a passive piece.
    pub fn passive_tiles(&self) -> (r: BitBoard)
        requires
            self.wf(),
        ensures
            forall|i: int| #[trigger] r.at(i) == (0 <= i < 64 && passive_at(self.board, i)),
    {
        let st = self.board.board_state();
        let b = st.num;
        let g = &self.board;
        let r = BitBoard::from_bitarray(
            b & g.goats.num | b & g.horses.num | b & g.sloths.num | b & g.birds.num,
        );
        proof {
            assert forall|i: int| #[trigger] r.at(i) == (0 <= i < 64 && passive_at(self.board, i)) by {
                if 0 <= i < 64 {
                    let j = i as u64;
                    assert(self.board.cell_ok(i));
                    assert(st.at(i) == self.board.occupied(i));
                    lemma_bit_ops(b, g.goats.num, j);
                    lemma_bit_ops(b, g.horses.num, j);
                    lemma_bit_ops(b, g.sloths.num, j);
                    lemma_bit_ops(b, g.birds.num, j);
                    lemma_bit_ops(b & g.goats.num, b & g.horses.num, j);
                    lemma_bit_ops(b & g.goats.num | b & g.horses.num, b & g.sloths.num, j);
                    lemma_bit_ops(
                        b & g.goats.num | b & g.horses.num | b & g.sloths.num,
                        b & g.birds.num,
                        j,
                    );
                }
            }
        }
        r
    }

    /// The squares that hold an aggressive piece.
    pub fn aggressive_tiles(&self) -> (r: BitBoard)
        requires
            self.wf(),
        ensures
            forall|i: int| #[trigger] r.at(i) == (0 <= i < 64 && aggressive_at(self.board, i)),
    {
        let st = self.board.board_state();
        let b = st.num;
        let g = &self.board;
        let r = BitBoard::from_bitarray(
            b & g.tigers.num | b & g.otters.num | b & g.snakes.num | b & g.mantis_shrimps.num,
        );
        proof {
            assert forall|i: int| #[trigger]
                r.at(i) == (0 <= i < 64 && aggressive_at(self.board, i)) by {
                if 0 <= i < 64 {
                    let j = i as u64;
                    assert(self.board.cell_ok(i));
                    assert(st.at(i) == self.board.occupied(i));
                    lemma_bit_ops(b, g.tigers.num, j);
                    lemma_bit_ops(b, g.otters.num, j);
                    lemma_bit_ops(b, g.snakes.num, j);
                    lemma_bit_ops(b, g.mantis_shrimps.num, j);
                    lemma_bit_ops(b & g.tigers.num, b & g.otters.num, j);
                    lemma_bit_ops(b & g.tigers.num | b & g.otters.num, b & g.snakes.num, j);
                    lemma_bit_ops(
                        b & g.tigers.num | b & g.otters.num | b & g.snakes.num,
                        b & g.mantis_shrimps.num,
                        j,
                    );
                }
            }
        }
        r
    }

    /// Whether side `s` has no passive piece left.
    fn passiveless_side(&self, s: Side) -> (r: bool)
        requires
            self.wf(),
        ensures
            r == passiveless(self.board, s),
    {
        let passive = self.passive_tiles();
        let own = self.board.side_bitboard(s);
        let mut i: u64 = 0;
        while i < 64
            invariant
                i <= 64,
                self.wf(),
                forall|j: int| #[trigger] passive.at(j) == (0 <= j < 64 && passive_at(self.board, j)),
                forall|j: int| #[trigger] own.at(j) == self.board.side_at(s, j),
                forall|j: int| 0 <= j < i ==> !(#[trigger] owned_by(self.board, s, j) && passive_at(
                    self.board,
                    j,
                )),
            decreases 64 - i,
        {
            proof {
                self.board.lemma_holds_square(Piece::Empty, i as int);
                assert(self.board.cell_ok(i as int));
            }
            assert(passive.at(i as int) == passive_at(self.board, i as int));
            assert(own.at(i as int) == owned_by(self.board, s, i as int));
            if test_bit(passive.num, i) && test_bit(own.num, i) {
                return false;
            }
            i = i + 1;
        }
        true
    }

    /// For each side, whether it has no passive piece left.
    pub fn has_passiveless(&self) -> (r: GameSide)
        requires
            self.wf(),
        ensures
            r.white == passiveless(self.board, Side::White),
            r.orange == passiveless(self.board, Side::Orange),
    {
        GameSide {
            white: self.passiveless_side(Side::White),
            orange: self.passiveless_side(Side::Orange),
        }
    }

    /// The piece on square `k` of one of side `s`'s corners.
    fn corner_piece(&self, s: Side, goat_side: bool, k: u64) -> (r: Piece)
        requires
            self.wf(),
            k < 4,
        ensures
            r == self.board.square(corner_square(s, goat_side, k as int)),
    {
        let base: u64 = match s {
            Side::White => 0,
            Side::Orange => 32,
        };
        let col: u64 = if goat_side {
            0
        } else {
            7
        };
        let i = base + 8 * k + col;
        proof {
            self.board.lemma_holds_square(Piece::Empty, i as int);
        }
        match self.board.piece_from_norm(i) {
            Ok(p) => p,
            Err(_) => Piece::Empty,
        }
    }

    /// Edge alignment of side `s` on one of its corners.
    fn corner_aligned(&self, s: Side, goat_side: bool) -> (r: bool)
        requires
            self.wf(),
        ensures
            r == aligned(self.board, s, goat_side),
    {
        let q0 = self.corner_piece(s, goat_side, 0);
        let q1 = self.corner_piece(s, goat_side, 1);
        let q2 = self.corner_piece(s, goat_side, 2);
        let q3 = self.corner_piece(s, goat_side, 3);
        let own = owned(q0, s) + owned(q1, s) + owned(q2, s) + owned(q3, s);
        let o = s.not();
        let theirs = owned(q0, o) + owned(q1, o) + owned(q2, o) + owned(q3, o);
        let all_passive = is_passive(q0) && is_passive(q1) && is_passive(q2) && is_passive(q3);
        theirs <= own && all_passive
    }

    /// Edge alignment of the side to move, on its goat corner and its sloth corner.
    pub fn has_alignment(&self) -> (r: (bool, bool))
        requires
            self.wf(),
        ensures
            r.0 == aligned(self.board, self.side, true),
            r.1 == aligned(self.board, self.side, false),
    {
        (self.corner_aligned(self.side, true), self.corner_aligned(self.side, false))
    }

    /// Whether the side to move has won. A winning configuration counts only
    /// once the side has claimed a win; before that, finding one makes the side
    /// owe a move and reports no win.
    pub fn has_win(&mut self) -> (r: bool)
        requires
            old(self).wf(),
        ensures
            r == (win_detected(old(self).board, old(self).side) && old(self).call.of(
                old(self).side,
            )),
            final(self).miss_call.of(old(self).side) == (old(self).miss_call.of(old(self).side) || (
            win_detected(old(self).board, old(self).side) && !old(self).call.of(old(self).side))),
            final(self).miss_call.of(opponent(old(self).side)) == old(self).miss_call.of(
                opponent(old(self).side),
            ),
            final(self).board == old(self).board,
            final(self).side == old(self).side,
            final(self).call == old(self).call,
            final(self).last_move == old(self).last_move,
            final(self).states == old(self).states,
    {
        let align = self.has_alignment();
        let s = self.side;
        let winnable = align.0 || align.1 || self.passiveless_side(s.not());
        if !self.call.get(s) && winnable {
            self.miss_call.put(s, true);
            return false;
        }
        winnable
    }

    /// Whether the side to move owes a move.
    pub fn has_miss_call(&self) -> (r: bool)
        ensures
            r == self.miss_call.of(self.side),
    {
        self.miss_call.get(self.side)
    }

    /// The side to move claims a win; the claim uses up its turn.
    pub fn call_win(&mut self)
        ensures
            final(self).call.of(old(self).side),
            final(self).call.of(opponent(old(self).side)) == old(self).call.of(
                opponent(old(self).side),
            ),
            final(self).side == opponent(old(self).side),
            final(self).board == old(self).board,
            final(self).miss_call == old(self).miss_call,
            final(self).last_move == old(self).last_move,
            final(self).states == old(self).states,
    {
        let s = self.side;
        self.call.put(s, true);
        self.side = s.not();
    }

    /// Whether exactly four aggressive pieces are left on the board.
    pub fn has_stalemate(&self) -> (r: bool)
        requires
            self.wf(),
        ensures
            r == (aggressive_count(self.board, 64) == 4),
    {
        let tiles = self.aggressive_tiles();
        let mut n: u64 = 0;
        let mut i: u64 = 0;
        while i < 64
            invariant
                i <= 64,
                n == aggressive_count(self.board, i as int),
                n <= i,
                forall|j: int| #[trigger]
                    tiles.at(j) == (0 <= j < 64 && aggressive_at(self.board, j)),
            decreases 64 - i,
        {
            assert(tiles.at(i as int) == aggressive_at(self.board, i as int));
            if test_bit(tiles.num, i) {
                n = n + 1;
            }
            i = i + 1;
        }
        n == 4
    }

    /// Replaces the board and writes the header line of the move log:
    /// the board's notation, a space, the side to move, and a line break.
    pub fn load(&mut self, b: Board)
        requires
            b.wf(),
        ensures
            final(self).wf(),
            final(self).board == b,
            final(self).states@ == old(self).states@ + board_code(b) + seq![' '] + side_name(
                old(self).side,
            ) + seq!['\n'],
            final(self).side == old(self).side,
            final(self).call == old(self).call,
            final(self).miss_call == old(self).miss_call,
            final(self).last_move == old(self).last_move,
    {
        self.board = b;
        let code = b.encode();
        self.states.append(code.as_str());
        push_char(&mut self.states, ' ');
        self.states.append(self.side.name());
        push_char(&mut self.states, '\n');
    }

    /// Writes one move to the move log: the piece code, a space, the
    /// destination square, and a comma.
    pub fn record_move(&mut self, code: &str, square: &str)
        ensures
            final(self).states@ == old(self).states@ + code@ + seq![' '] + square@ + seq![','],
            final(self).board == old(self).board,
            final(self).side == old(self).side,
            final(self).call == old(self).call,
            final(self).miss_call == old(self).miss_call,
            final(self).last_move == old(self).last_move,
    {
        self.states.append(code);
        push_char(&mut self.states, ' ');
        self.states.append(square);
        push_char(&mut self.states, ',');
    }

    /// A report on the win conditions; the win is judged as `has_win` does.
    pub fn state(&mut self) -> (r: GameState)
        requires
            old(self).wf(),
        ensures
            r.passive_defeat.white == passiveless(old(self).board, Side::White),
            r.passive_defeat.orange == passiveless(old(self).board, Side::Orange),
            r.edge_alignment.goat_side == aligned(old(self).board, old(self).side, true),
            r.edge_alignment.sloth_side == aligned(old(self).board, old(self).side, false),
            r.stalemate == (aggressive_count(old(self).board, 64) == 4),
            r.win == (win_detected(old(self).board, old(self).side) && old(self).call.of(
                old(self).side,
            )),
            final(self).miss_call.of(old(self).side) == (old(self).miss_call.of(old(self).side) || (
            win_detected(old(self).board, old(self).side) && !old(self).call.of(old(self).side))),
            final(self).miss_call.of(opponent(old(self).side)) == old(self).miss_call.of(
                opponent(old(self).side),
            ),
            final(self).board == old(self).board,
            final(self).side == old(self).side,
            final(self).call == old(self).call,
            final(self).last_move == old(self).last_move,
            final(self).states == old(self).states,
    {
        let passive_defeat = self.has_passiveless();
        let align = self.has_alignment();
        let stalemate = self.has_stalemate();
        let win = self.has_win();
        GameState {
            passive_defeat,
            edge_alignment: EdgeSide { goat_side: align.0, sloth_side: align.1 },
            stalemate,
            win,
        }
    }

    /// Moves `p` to `pos` for the side to move.
    ///
    /// A piece of the other side is refused. A side that owes a move can only
    /// pay it: its last moved piece is put on `pos` without consulting its legal
    /// destinations, or, when it has moved no piece, the turn simply passes. Any
    /// other move must be legal; after it the mover's win conditions are judged
    /// as `has_win` does, the piece is remembered as the mover's last, and the
    /// turn passes. The result is whether the mover has won. A refused move
    /// changes nothing.
    pub fn make_move(&mut self, p: Piece, pos: Position) -> (r: Result<bool, GameError>)
        requires
            old(self).wf(),
        ensures
            final(self).wf(),
            r is Err ==> *final(self) == *old(self),
            r is Ok ==> final(self).side == opponent(old(self).side),
            r is Ok ==> final(self).call == old(self).call,
            r is Ok ==> final(self).states == old(self).states,
            r is Ok ==> final(self).miss_call.of(opponent(old(self).side)) == old(self).miss_call.of(
                opponent(old(self).side),
            ),
            p == Piece::Empty ==> r == Err::<bool, GameError>(GameError::PieceNotFound),
            p != Piece::Empty && side_of(p) != Some(old(self).side) ==> r == Err::<bool, GameError>(
                GameError::WrongTurn,
            ),
            side_of(p) == Some(old(self).side) && old(self).miss_call.of(old(self).side) ==> ({
                let q = old(self).last_move.of(old(self).side);
                let placeable = old(self).board.first_index(q) < 64 && on_board(pos) && side_of(
                    old(self).board.square(normal_of(pos)),
                ) != side_of(q);
                &&& q == Piece::Empty ==> r == Ok::<bool, GameError>(false) && final(self).board
                    == old(self).board
                &&& q != Piece::Empty && placeable ==> r == Ok::<bool, GameError>(false) && forall|
                    j: int,
                | #[trigger]
                    final(self).board.square(j) == old(self).board.moved_square(
                        q,
                        old(self).board.first_index(q),
                        normal_of(pos),
                        j,
                    )
                &&& q != Piece::Empty && !placeable ==> r == Err::<bool, GameError>(
                    GameError::HonestyObligationPending,
                )
                &&& r is Ok ==> !final(self).miss_call.of(old(self).side) && final(self).last_move
                    == old(self).last_move
            }),
            side_of(p) == Some(old(self).side) && !old(self).miss_call.of(old(self).side) ==> ({
                let s = old(self).side;
                let b = old(self).board;
                let f = b.first_index(p);
                let t = normal_of(pos);
                &&& f >= 64 ==> r == Err::<bool, GameError>(GameError::PieceNotFound)
                &&& f < 64 && !on_board(pos) ==> r == Err::<bool, GameError>(
                    GameError::InvalidPosition,
                )
                &&& f < 64 && on_board(pos) && !b.legal_from_first(p, t) ==> r == Err::<
                    bool,
                    GameError,
                >(GameError::IllegalMove)
                &&& f < 64 && on_board(pos) && b.legal_from_first(p, t) ==> r is Ok
                &&& r is Ok ==> {
                    &&& forall|j: int| #[trigger]
                        final(self).board.square(j) == b.moved_square(p, f, t, j)
                    &&& r == Ok::<bool, GameError>(
                        win_detected(final(self).board, s) && old(self).call.of(s),
                    )
                    &&& final(self).miss_call.of(s) == (win_detected(final(self).board, s)
                        && !old(self).call.of(s))
                    &&& final(self).last_move.of(s) == p
                    &&& final(self).last_move.of(opponent(s)) == old(self).last_move.of(
                        opponent(s),
                    )
                }
            }),
    {
        let s = self.side;
        let ps = match p.side() {
            Option::None => {
                return Err(GameError::PieceNotFound);
            },
            Option::Some(x) => x,
        };
        if ps != s {
            return Err(GameError::WrongTurn);
        }
        if self.miss_call.get(s) {
            let last = self.last_move.get(s);
            if let Piece::Empty = last {
                self.miss_call.put(s, false);
                self.side = s.not();
                return Ok(false);
            }
            match self.board.new_position_unchecked(last, pos) {
                Ok(()) => {
                    self.miss_call.put(s, false);
                    self.side = s.not();
                    return Ok(false);
                },
                Err(_) => {
                    return Err(GameError::HonestyObligationPending);
                },
            }
        }
        match self.board.new_position(p, pos) {
            Ok(()) => {},
            Err(e) => {
                return Err(e);
            },
        }
        let won = self.has_win();
        self.last_move.put(s, p);
        self.side = s.not();
        Ok(won)
    }
}

/// `1` when `p` belongs to side `s`, else `0`.
fn owned(p: Piece, s: Side) -> (r: u64)
    ensures
        r as int == b2i(side_of(p) == Some(s)),
{
    match p.side() {
        Option::Some(t) => if t == s {
            1
        } else {
            0
        },
        Option::None => 0,
    }
}

/// Whether `p` is a goat, horse, sloth or bird.
fn is_passive(p: Piece) -> (r: bool)
    ensures
        r == is_passive_kind(kind_of(p)),
{
    match p {
        Piece::Goat(_) | Piece::Horse(_) | Piece::Sloth(_) | Piece::Bird(_) => true,
        _ => false,
    }
}

} // verus!
