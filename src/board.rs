//! The board: one mask per piece kind and one per side.
use vstd::prelude::*;

use crate::bitboard::{index_mask, lemma_bit_ops, lemma_bit_set, mask_at, test_bit, BitBoard};
use crate::error::GameError;
use crate::piece::{is_aggressive_kind, kind_of, make_piece, piece_char, side_of, Piece, PieceType, Side};
use crate::position::{normal_of, on_board, pos_of, push_char, square_code, Normalizable, Position};

verus! {

/// `1` for true, `0` for false.
pub open spec fn b2i(b: bool) -> int {
    if b {
        1
    } else {
        0
    }
}

/// The kind that starts in column `c + 1`.
pub open spec fn start_kind(c: int) -> PieceType {
    if c == 0 {
        PieceType::Goat
    } else if c == 1 {
        PieceType::Horse
    } else if c == 2 {
        PieceType::Tiger
    } else if c == 3 {
        PieceType::Otter
    } else if c == 4 {
        PieceType::Snake
    } else if c == 5 {
        PieceType::MantisShrimp
    } else if c == 6 {
        PieceType::Sloth
    } else {
        PieceType::Bird
    }
}

/// The starting layout: White on row 1, Orange on row 8, each in the order
/// goat, horse, tiger, otter, snake, mantis shrimp, sloth, bird.
pub open spec fn start_square(i: int) -> Piece {
    if 0 <= i < 8 {
        make_piece(start_kind(i), Side::White)
    } else if 56 <= i < 64 {
        make_piece(start_kind(i - 56), Side::Orange)
    } else {
        Piece::Empty
    }
}

/// The row step that points in a side's capturing direction: Orange captures
/// toward lower rows, White toward higher rows.
pub open spec fn backward_dy(s: Side) -> int {
    match s {
        Side::Orange => -1,
        Side::White => 1,
    }
}

/// Square `t` is one of the eight neighbours of square `f`.
pub open spec fn is_neighbour(f: int, t: int) -> bool {
    let dx = t % 8 - f % 8;
    let dy = t / 8 - f / 8;
    0 <= t < 64 && -1 <= dx <= 1 && -1 <= dy <= 1 && !(dx == 0 && dy == 0)
}

/// Square `t` is a diagonal neighbour of square `f`.
pub open spec fn is_diagonal(f: int, t: int) -> bool {
    is_neighbour(f, t) && t % 8 != f % 8 && t / 8 != f / 8
}

/// Square `t` is a diagonal neighbour of square `f` in side `s`'s capturing direction.
pub open spec fn is_capture_diagonal(s: Side, f: int, t: int) -> bool {
    is_diagonal(f, t) && t / 8 - f / 8 == backward_dy(s)
}

/// Whether `p`, standing on square `f` of the squares `m`, may move to square `t`.
///
/// Goats and horses step to an empty neighbour, sloths to an empty orthogonal
/// neighbour. Birds step to an empty neighbour or capture on a diagonal in
/// their side's capturing direction. Tigers, otters, snakes and mantis shrimps
/// step to an empty diagonal neighbour or capture on a diagonal in their side's
/// capturing direction.
pub open spec fn legal_in(m: Seq<Piece>, p: Piece, f: int, t: int) -> bool {
    let q = m[t];
    let empty = q == Piece::Empty;
    let enemy = side_of(q) is Some && side_of(p) is Some && side_of(q) != side_of(p);
    let capture = side_of(p) matches Option::Some(s) && is_capture_diagonal(s, f, t) && enemy;
    match kind_of(p) {
        PieceType::Empty => false,
        PieceType::Goat | PieceType::Horse => is_neighbour(f, t) && empty,
        PieceType::Sloth => is_neighbour(f, t) && !is_diagonal(f, t) && empty,
        PieceType::Bird => is_neighbour(f, t) && (empty || capture),
        _ => is_diagonal(f, t) && (empty || capture),
    }
}

/// The first index at or after `i` where the squares `m` hold `p`, or 64.
pub open spec fn find_in(m: Seq<Piece>, p: Piece, i: int) -> int
    decreases 64 - i,
{
    if i >= 64 {
        64
    } else if p != Piece::Empty && m[i] == p {
        i
    } else {
        find_in(m, p, i + 1)
    }
}

/// The squares `m` after a validated move of `p` to `pos`: the first square
/// holding `p` empties and `pos` receives `p`, when the move is legal; otherwise
/// nothing changes.
pub open spec fn move_in(m: Seq<Piece>, p: Piece, pos: Position) -> Seq<Piece> {
    let f = find_in(m, p, 0);
    let t = normal_of(pos);
    if f < 64 && on_board(pos) && legal_in(m, p, f, t) {
        m.update(f, Piece::Empty).update(t, p)
    } else {
        m
    }
}

/// The pieces of a board, square by square.
pub open spec fn squares_of(b: Board) -> Seq<Piece> {
    Seq::new(64, |i: int| b.square(i))
}

/// The board: a mask per piece kind, and a mask per side.
#[derive(Clone, Copy, Debug)]
pub struct Board {
    pub goats: BitBoard,
    pub horses: BitBoard,
    pub sloths: BitBoard,
    pub birds: BitBoard,
    pub tigers: BitBoard,
    pub otters: BitBoard,
    pub snakes: BitBoard,
    pub mantis_shrimps: BitBoard,
    pub white: BitBoard,
    pub orange: BitBoard,
}

impl Board {
    /// Whether square `i` holds a piece of kind `k`.
    pub open spec fn kind_at(self, k: PieceType, i: int) -> bool {
        match k {
            PieceType::Empty => false,
            PieceType::Goat => self.goats.at(i),
            PieceType::Horse => self.horses.at(i),
            PieceType::Sloth => self.sloths.at(i),
            PieceType::Bird => self.birds.at(i),
            PieceType::Tiger => self.tigers.at(i),
            PieceType::Otter => self.otters.at(i),
            PieceType::Snake => self.snakes.at(i),
            PieceType::MantisShrimp => self.mantis_shrimps.at(i),
        }
    }

    /// Whether square `i` holds a piece of side `s`.
    pub open spec fn side_at(self, s: Side, i: int) -> bool {
        match s {
            Side::Orange => self.orange.at(i),
            Side::White => self.white.at(i),
        }
    }

    /// Whether square `i` holds a piece of either side.
    pub open spec fn occupied(self, i: int) -> bool {
        self.white.at(i) || self.orange.at(i)
    }

    /// How many kind masks have square `i` set.
    pub open spec fn kinds_at(self, i: int) -> int {
        b2i(self.goats.at(i)) + b2i(self.horses.at(i)) + b2i(self.sloths.at(i)) + b2i(
            self.birds.at(i),
        ) + b2i(self.tigers.at(i)) + b2i(self.otters.at(i)) + b2i(self.snakes.at(i)) + b2i(
            self.mantis_shrimps.at(i),
        )
    }

    /// Square `i` is consistent: at most one side, and exactly one kind where
    /// a side is set and none elsewhere.
    pub open spec fn cell_ok(self, i: int) -> bool {
        !(self.white.at(i) && self.orange.at(i)) && self.kinds_at(i) == if self.occupied(i) {
            1int
        } else {
            0int
        }
    }

    /// Every square is consistent.
    pub open spec fn wf(self) -> bool {
        forall|i: int| 0 <= i < 64 ==> #[trigger] self.cell_ok(i)
    }

    /// The piece on square `i`, reading the kind masks in a fixed order.
    pub open spec fn square(self, i: int) -> Piece {
        if !self.occupied(i) {
            Piece::Empty
        } else {
            let s = if self.white.at(i) {
                Side::White
            } else {
                Side::Orange
            };
            if self.goats.at(i) {
                Piece::Goat(s)
            } else if self.horses.at(i) {
                Piece::Horse(s)
            } else if self.tigers.at(i) {
                Piece::Tiger(s)
            } else if self.otters.at(i) {
                Piece::Otter(s)
            } else if self.snakes.at(i) {
                Piece::Snake(s)
            } else if self.mantis_shrimps.at(i) {
                Piece::MantisShrimp(s)
            } else if self.sloths.at(i) {
                Piece::Sloth(s)
            } else if self.birds.at(i) {
                Piece::Bird(s)
            } else {
                Piece::Empty
            }
        }
    }

    /// What looking up square `i` gives: an internal fault where a side is set
    /// and no kind is.
    pub open spec fn lookup(self, i: int) -> Result<Piece, GameError> {
        if self.occupied(i) && self.kinds_at(i) == 0 {
            Err(GameError::Internal)
        } else {
            Ok(self.square(i))
        }
    }

    /// Whether square `i` has both the kind and the side of `p` set.
    pub open spec fn holds(self, p: Piece, i: int) -> bool {
        match side_of(p) {
            Option::None => false,
            Option::Some(s) => self.kind_at(kind_of(p), i) && self.side_at(s, i),
        }
    }

    /// The first index at or after `i` that holds `p`, or 64.
    pub open spec fn find_from(self, p: Piece, i: int) -> int
        decreases 64 - i,
    {
        if i >= 64 {
            64
        } else if self.holds(p, i) {
            i
        } else {
            self.find_from(p, i + 1)
        }
    }

    /// The first index that holds `p`, or 64 when none does.
    pub open spec fn first_index(self, p: Piece) -> int {
        self.find_from(p, 0)
    }

    /// In a consistent board, a square holds `p` exactly when both of its masks are set.
    pub proof fn lemma_holds_square(self, p: Piece, i: int)
        requires
            self.wf(),
            0 <= i < 64,
        ensures
            self.holds(p, i) == (p != Piece::Empty && self.square(i) == p),
            self.lookup(i) == Ok::<Piece, GameError>(self.square(i)),
            (self.square(i) == Piece::Empty) == !self.occupied(i),
            side_of(self.square(i)) matches Option::Some(s) ==> self.side_at(s, i),
            self.square(i) != Piece::Empty ==> self.kind_at(kind_of(self.square(i)), i),
    {
        assert(self.cell_ok(i));
    }

    /// The first index found from `i` lies in `i..=64` and holds `p` unless it is 64.
    pub proof fn lemma_find_from(self, p: Piece, i: int)
        requires
            0 <= i <= 64,
        ensures
            i <= self.find_from(p, i) <= 64,
            self.find_from(p, i) < 64 ==> self.holds(p, self.find_from(p, i)),
            forall|j: int| i <= j < self.find_from(p, i) ==> !#[trigger] self.holds(p, j),
        decreases 64 - i,
    {
        if i < 64 && !self.holds(p, i) {
            self.lemma_find_from(p, i + 1);
        }
    }

    /// In a consistent board, searching the masks and searching the squares agree.
    pub proof fn lemma_find_in(self, p: Piece, i: int)
        requires
            self.wf(),
            0 <= i <= 64,
        ensures
            self.find_from(p, i) == find_in(squares_of(self), p, i),
        decreases 64 - i,
    {
        if i < 64 {
            self.lemma_holds_square(p, i);
            self.lemma_find_in(p, i + 1);
        }
    }

    /// Sets up the starting layout.
    pub fn new() -> (r: Board)
        ensures
            r.wf(),
            forall|i: int| 0 <= i < 64 ==> #[trigger] r.square(i) == start_square(i),
    {
        let r = Board {
            goats: BitBoard::new().set((1, 1)).set((1, 8)),
            horses: BitBoard::new().set((2, 1)).set((2, 8)),
            tigers: BitBoard::new().set((3, 1)).set((3, 8)),
            otters: BitBoard::new().set((4, 1)).set((4, 8)),
            snakes: BitBoard::new().set((5, 1)).set((5, 8)),
            mantis_shrimps: BitBoard::new().set((6, 1)).set((6, 8)),
            sloths: BitBoard::new().set((7, 1)).set((7, 8)),
            birds: BitBoard::new().set((8, 1)).set((8, 8)),
            white: BitBoard::new().fill_range(0..8),
            orange: BitBoard::new().fill_range(56..64),
        };
        proof {
            assert forall|i: int| 0 <= i < 64 implies #[trigger] r.cell_ok(i) && r.square(i)
                == start_square(i) by {}
        }
        r
    }

    /// A board with no pieces.
    pub fn blank() -> (r: Board)
        ensures
            r.wf(),
            forall|i: int| #[trigger] r.square(i) == Piece::Empty,
            forall|i: int| !#[trigger] r.occupied(i),
    {
        let r = Board {
            goats: BitBoard::new(),
            horses: BitBoard::new(),
            tigers: BitBoard::new(),
            otters: BitBoard::new(),
            snakes: BitBoard::new(),
            mantis_shrimps: BitBoard::new(),
            sloths: BitBoard::new(),
            birds: BitBoard::new(),
            white: BitBoard::new(),
            orange: BitBoard::new(),
        };
        proof {
            assert forall|i: int| 0 <= i < 64 implies #[trigger] r.cell_ok(i) by {}
        }
        r
    }

    /// The squares that hold a piece of either side.
    pub fn board_state(self) -> (r: BitBoard)
        ensures
            forall|i: int| #[trigger] r.at(i) == self.occupied(i),
    {
        let r = BitBoard::from_bitarray(self.white.num | self.orange.num);
        proof {
            assert forall|i: int| #[trigger] r.at(i) == self.occupied(i) by {
                if 0 <= i < 64 {
                    lemma_bit_ops(self.white.num, self.orange.num, i as u64);
                }
            }
        }
        r
    }

    /// The piece on square `i`. A square with a side set and no kind set is an
    /// internal fault.
    pub fn piece_from_norm(self, i: u64) -> (r: Result<Piece, GameError>)
        requires
            i < 64,
        ensures
            r == self.lookup(i as int),
    {
        if !test_bit(self.white.num, i) && !test_bit(self.orange.num, i) {
            return Ok(Piece::Empty);
        }
        let side = if test_bit(self.white.num, i) {
            Side::White
        } else {
            Side::Orange
        };
        if test_bit(self.goats.num, i) {
            Ok(Piece::Goat(side))
        } else if test_bit(self.horses.num, i) {
            Ok(Piece::Horse(side))
        } else if test_bit(self.tigers.num, i) {
            Ok(Piece::Tiger(side))
        } else if test_bit(self.otters.num, i) {
            Ok(Piece::Otter(side))
        } else if test_bit(self.snakes.num, i) {
            Ok(Piece::Snake(side))
        } else if test_bit(self.mantis_shrimps.num, i) {
            Ok(Piece::MantisShrimp(side))
        } else if test_bit(self.sloths.num, i) {
            Ok(Piece::Sloth(side))
        } else if test_bit(self.birds.num, i) {
            Ok(Piece::Bird(side))
        } else {
            Err(GameError::Internal)
        }
    }

    /// The mask of a side.
    pub fn side_bitboard(&self, s: Side) -> (r: BitBoard)
        ensures
            forall|i: int| #[trigger] r.at(i) == self.side_at(s, i),
    {
        match s {
            Side::Orange => self.orange,
            Side::White => self.white,
        }
    }

    /// The mask of a piece's kind; `Empty` has none.
    pub fn piece_bitboard(&self, p: Piece) -> (r: Result<BitBoard, GameError>)
        ensures
            p == Piece::Empty ==> r == Err::<BitBoard, GameError>(GameError::PieceNotFound),
            r matches Ok(m) ==> forall|i: int| #[trigger] m.at(i) == self.kind_at(kind_of(p), i),
            p != Piece::Empty ==> r is Ok,
    {
        match p {
            Piece::Empty => Err(GameError::PieceNotFound),
            Piece::Goat(_) => Ok(self.goats),
            Piece::Horse(_) => Ok(self.horses),
            Piece::Sloth(_) => Ok(self.sloths),
            Piece::Bird(_) => Ok(self.birds),
            Piece::Tiger(_) => Ok(self.tigers),
            Piece::Otter(_) => Ok(self.otters),
            Piece::Snake(_) => Ok(self.snakes),
            Piece::MantisShrimp(_) => Ok(self.mantis_shrimps),
        }
    }

    /// Index of the first square that holds `p`.
    fn first_norm(&self, p: Piece) -> (r: u64)
        ensures
            r == self.first_index(p),
    {
        proof {
            self.lemma_find_from(p, 0);
        }
        let side = match p.side() {
            Option::None => {
                return 64;
            },
            Option::Some(s) => s,
        };
        let kinds = match self.piece_bitboard(p) {
            Ok(m) => m,
            Err(_) => {
                return 64;
            },
        };
        let sides = self.side_bitboard(side);
        let mut i: u64 = 0;
        while i < 64
            invariant
                0 <= i <= 64,
                self.find_from(p, 0) == self.find_from(p, i as int),
                side_of(p) == Some(side),
                forall|j: int| #[trigger] kinds.at(j) == self.kind_at(kind_of(p), j),
                forall|j: int| #[trigger] sides.at(j) == self.side_at(side, j),
            decreases 64 - i,
        {
            if test_bit(kinds.num, i) && test_bit(sides.num, i) {
                assert(kinds.at(i as int) && sides.at(i as int));
                return i;
            }
            assert(!(kinds.at(i as int) && sides.at(i as int)));
            i = i + 1;
        }
        64
    }

    /// The square of the first piece equal to `p`, by index.
    pub fn pos_from_piece(&self, p: Piece) -> (r: Result<Position, GameError>)
        ensures
            self.first_index(p) < 64 ==> r == Ok::<Position, GameError>(
                pos_of(self.first_index(p)),
            ),
            self.first_index(p) >= 64 ==> r == Err::<Position, GameError>(
                GameError::PieceNotFound,
            ),
    {
        let i = self.first_norm(p);
        if i >= 64 {
            return Err(GameError::PieceNotFound);
        }
        Ok(Board::normal_to_pos(i))
    }

    /// The square whose index is `i`.
    pub fn normal_to_pos(i: u64) -> (r: Position)
        requires
            i < 64,
        ensures
            r == pos_of(i as int),
            on_board(r),
            normal_of(r) == i,
    {
        let x = i % 8;
        let y = i / 8;
        (x + 1, y + 1)
    }

    /// Square `t` holds a piece of the side that does not own `p`.
    pub open spec fn enemy_at(self, p: Piece, t: int) -> bool {
        side_of(self.square(t)) is Some && side_of(p) is Some && side_of(self.square(t))
            != side_of(p)
    }

    /// Whether `p`, standing on square `f`, may move to square `t`.
    pub open spec fn legal(self, p: Piece, f: int, t: int) -> bool {
        legal_in(squares_of(self), p, f, t)
    }

    /// The legal destinations of `p` from the first square that holds it.
    pub open spec fn legal_from_first(self, p: Piece, t: int) -> bool {
        self.legal(p, self.first_index(p), t)
    }

    /// The piece on square `j` after moving the piece on `f` to `t`.
    pub open spec fn moved_square(self, p: Piece, f: int, t: int, j: int) -> Piece {
        if j == t {
            p
        } else if j == f {
            Piece::Empty
        } else {
            self.square(j)
        }
    }

    /// Whether `p` on square `f` may move to square `t`.
    fn target_legal(&self, p: Piece, f: u64, t: u64) -> (r: bool)
        requires
            self.wf(),
            f < 64,
            t < 64,
        ensures
            r == self.legal(p, f as int, t as int),
    {
        let side = match p.side() {
            Option::None => {
                return false;
            },
            Option::Some(s) => s,
        };
        proof {
            self.lemma_holds_square(p, t as int);
        }
        let q = match self.piece_from_norm(t) {
            Ok(q) => q,
            Err(_) => {
                return false;
            },
        };
        let dx: i64 = (t % 8) as i64 - (f % 8) as i64;
        let dy: i64 = (t / 8) as i64 - (f / 8) as i64;
        let near = -1 <= dx && dx <= 1 && -1 <= dy && dy <= 1 && !(dx == 0 && dy == 0);
        let diagonal = near && dx != 0 && dy != 0;
        let empty = match q {
            Piece::Empty => true,
            _ => false,
        };
        let enemy = match q.side() {
            Option::Some(s2) => s2 != side,
            Option::None => false,
        };
        let back = match side {
            Side::Orange => dy == -1,
            Side::White => dy == 1,
        };
        let capture = diagonal && back && enemy;
        match p.kind() {
            PieceType::Empty => false,
            PieceType::Goat | PieceType::Horse => near && empty,
            PieceType::Sloth => near && !diagonal && empty,
            PieceType::Bird => near && (empty || capture),
            _ => diagonal && (empty || capture),
        }
    }

    /// The legal destinations of `p` from the first square that holds it. `Empty`
    /// has no destinations; a piece that is not on the board is an error.
    pub fn move_mask_raw(&self, p: Piece) -> (r: Result<BitBoard, GameError>)
        requires
            self.wf(),
        ensures
            p == Piece::Empty ==> (r matches Ok(m) && forall|t: int| !#[trigger] m.at(t)),
            p != Piece::Empty && self.first_index(p) >= 64 ==> r == Err::<BitBoard, GameError>(
                GameError::PieceNotFound,
            ),
            p != Piece::Empty && self.first_index(p) < 64 ==> (r matches Ok(m) && forall|t: int|
                #[trigger] m.at(t) == (0 <= t < 64 && self.legal_from_first(p, t))),
    {
        if let Piece::Empty = p {
            return Ok(BitBoard::new());
        }
        let f = self.first_norm(p);
        if f >= 64 {
            return Err(GameError::PieceNotFound);
        }
        let mut m = BitBoard::new();
        let mut t: u64 = 0;
        while t < 64
            invariant
                t <= 64,
                f < 64,
                f == self.first_index(p),
                self.wf(),
                forall|j: int| #[trigger] m.at(j) == (0 <= j < t && self.legal(p, f as int, j)),
            decreases 64 - t,
        {
            if self.target_legal(p, f, t) {
                let ghost prev = m;
                m.num = m.num | mask_at(t);
                proof {
                    assert forall|j: int| #[trigger]
                        m.at(j) == (0 <= j < t + 1 && self.legal(p, f as int, j)) by {
                        assert(prev.at(j) == (0 <= j < t && self.legal(p, f as int, j)));
                        if 0 <= j < 64 {
                            lemma_bit_set(prev.num, t, j as u64);
                        }
                    }
                }
            } else {
                assert forall|j: int| #[trigger]
                    m.at(j) == (0 <= j < t + 1 && self.legal(p, f as int, j)) by {
                    assert(m.at(j) == (0 <= j < t && self.legal(p, f as int, j)));
                }
            }
            t = t + 1;
        }
        Ok(m)
    }
}

/// Clearing index `i` of a mask.
proof fn lemma_bit_now_clear(a: BitBoard, b: BitBoard, i: u64)
    requires
        i < 64,
        b.num == a.num & !index_mask(i),
    ensures
        forall|j: int| #[trigger] b.at(j) == (j != i && a.at(j)),
{
    assert forall|j: int| #[trigger] b.at(j) == (j != i && a.at(j)) by {
        if 0 <= j < 64 {
            lemma_bit_set(a.num, i, j as u64);
        }
    }
}

/// Setting index `i` of a mask.
proof fn lemma_bit_now_set(a: BitBoard, b: BitBoard, i: u64)
    requires
        i < 64,
        b.num == a.num | index_mask(i),
    ensures
        forall|j: int| #[trigger] b.at(j) == (j == i || a.at(j)),
{
    assert forall|j: int| #[trigger] b.at(j) == (j == i || a.at(j)) by {
        if 0 <= j < 64 {
            lemma_bit_set(a.num, i, j as u64);
        }
    }
}

impl Board {
    /// Empties square `i`.
    fn clear_square(&mut self, i: u64)
        requires
            old(self).wf(),
            i < 64,
        ensures
            final(self).wf(),
            forall|j: int| #[trigger]
                final(self).square(j) == if j == i {
                    Piece::Empty
                } else {
                    old(self).square(j)
                },
    {
        let ghost o = *self;
        let m = !mask_at(i);
        self.goats.num = self.goats.num & m;
        self.horses.num = self.horses.num & m;
        self.sloths.num = self.sloths.num & m;
        self.birds.num = self.birds.num & m;
        self.tigers.num = self.tigers.num & m;
        self.otters.num = self.otters.num & m;
        self.snakes.num = self.snakes.num & m;
        self.mantis_shrimps.num = self.mantis_shrimps.num & m;
        self.white.num = self.white.num & m;
        self.orange.num = self.orange.num & m;
        proof {
            lemma_bit_now_clear(o.goats, self.goats, i);
            lemma_bit_now_clear(o.horses, self.horses, i);
            lemma_bit_now_clear(o.sloths, self.sloths, i);
            lemma_bit_now_clear(o.birds, self.birds, i);
            lemma_bit_now_clear(o.tigers, self.tigers, i);
            lemma_bit_now_clear(o.otters, self.otters, i);
            lemma_bit_now_clear(o.snakes, self.snakes, i);
            lemma_bit_now_clear(o.mantis_shrimps, self.mantis_shrimps, i);
            lemma_bit_now_clear(o.white, self.white, i);
            lemma_bit_now_clear(o.orange, self.orange, i);
            assert forall|j: int| 0 <= j < 64 implies #[trigger] self.cell_ok(j) by {
                assert(o.cell_ok(j));
            }
        }
    }

    /// Puts `p` on the empty square `i`.
    pub(crate) fn put(&mut self, p: Piece, i: u64)
        requires
            old(self).wf(),
            i < 64,
            p != Piece::Empty,
            old(self).square(i as int) == Piece::Empty,
        ensures
            final(self).wf(),
            forall|j: int| #[trigger]
                final(self).square(j) == if j == i {
                    p
                } else {
                    old(self).square(j)
                },
    {
        let ghost o = *self;
        proof {
            o.lemma_holds_square(p, i as int);
            assert(o.cell_ok(i as int));
        }
        let m = mask_at(i);
        match p {
            Piece::Empty => {},
            Piece::Goat(_) => self.goats.num = self.goats.num | m,
            Piece::Horse(_) => self.horses.num = self.horses.num | m,
            Piece::Sloth(_) => self.sloths.num = self.sloths.num | m,
            Piece::Bird(_) => self.birds.num = self.birds.num | m,
            Piece::Tiger(_) => self.tigers.num = self.tigers.num | m,
            Piece::Otter(_) => self.otters.num = self.otters.num | m,
            Piece::Snake(_) => self.snakes.num = self.snakes.num | m,
            Piece::MantisShrimp(_) => self.mantis_shrimps.num = self.mantis_shrimps.num | m,
        }
        match p.side() {
            Option::Some(Side::White) => self.white.num = self.white.num | m,
            _ => self.orange.num = self.orange.num | m,
        }
        proof {
            let n = *self;
            assert forall|j: int| #[trigger]
                n.goats.at(j) == (o.goats.at(j) || (j == i && kind_of(p) == PieceType::Goat))
                by {
                if kind_of(p) == PieceType::Goat {
                    lemma_bit_now_set(o.goats, n.goats, i);
                }
            }
            assert forall|j: int| #[trigger]
                n.horses.at(j) == (o.horses.at(j) || (j == i && kind_of(p) == PieceType::Horse))
                by {
                if kind_of(p) == PieceType::Horse {
                    lemma_bit_now_set(o.horses, n.horses, i);
                }
            }
            assert forall|j: int| #[trigger]
                n.sloths.at(j) == (o.sloths.at(j) || (j == i && kind_of(p) == PieceType::Sloth))
                by {
                if kind_of(p) == PieceType::Sloth {
                    lemma_bit_now_set(o.sloths, n.sloths, i);
                }
            }
            assert forall|j: int| #[trigger]
                n.birds.at(j) == (o.birds.at(j) || (j == i && kind_of(p) == PieceType::Bird))
                by {
                if kind_of(p) == PieceType::Bird {
                    lemma_bit_now_set(o.birds, n.birds, i);
                }
            }
            assert forall|j: int| #[trigger]
                n.tigers.at(j) == (o.tigers.at(j) || (j == i && kind_of(p) == PieceType::Tiger))
                by {
                if kind_of(p) == PieceType::Tiger {
                    lemma_bit_now_set(o.tigers, n.tigers, i);
                }
            }
            assert forall|j: int| #[trigger]
                n.otters.at(j) == (o.otters.at(j) || (j == i && kind_of(p) == PieceType::Otter))
                by {
                if kind_of(p) == PieceType::Otter {
                    lemma_bit_now_set(o.otters, n.otters, i);
                }
            }
            assert forall|j: int| #[trigger]
                n.snakes.at(j) == (o.snakes.at(j) || (j == i && kind_of(p) == PieceType::Snake))
                by {
                if kind_of(p) == PieceType::Snake {
                    lemma_bit_now_set(o.snakes, n.snakes, i);
                }
            }
            assert forall|j: int| #[trigger]
                n.mantis_shrimps.at(j) == (o.mantis_shrimps.at(j) || (j == i && kind_of(p)
                    == PieceType::MantisShrimp)) by {
                if kind_of(p) == PieceType::MantisShrimp {
                    lemma_bit_now_set(o.mantis_shrimps, n.mantis_shrimps, i);
                }
            }
            assert forall|j: int| #[trigger]
                n.white.at(j) == (o.white.at(j) || (j == i && side_of(p) == Some(Side::White)))
                by {
                if side_of(p) == Some(Side::White) {
                    lemma_bit_now_set(o.white, n.white, i);
                }
            }
            assert forall|j: int| #[trigger]
                n.orange.at(j) == (o.orange.at(j) || (j == i && side_of(p) == Some(Side::Orange)))
                by {
                if side_of(p) == Some(Side::Orange) {
                    lemma_bit_now_set(o.orange, n.orange, i);
                }
            }
            assert forall|j: int| 0 <= j < 64 implies #[trigger] n.cell_ok(j) by {
                assert(o.cell_ok(j));
            }
            assert forall|j: int| #[trigger]
                n.square(j) == if j == i {
                    p
                } else {
                    o.square(j)
                } by {
                if j == i {
                    assert(o.cell_ok(j));
                }
            }
        }
    }

    /// Moves the piece on square `f` to square `t`, removing whatever stood on `t`.
    fn relocate(&mut self, p: Piece, f: u64, t: u64)
        requires
            old(self).wf(),
            f < 64,
            t < 64,
            p != Piece::Empty,
        ensures
            final(self).wf(),
            forall|j: int| #[trigger]
                final(self).square(j) == old(self).moved_square(p, f as int, t as int, j),
    {
        self.clear_square(t);
        self.clear_square(f);
        self.put(p, t);
    }

    /// Checks the move of `p` to `to` against its legal destinations and makes
    /// it. A refused move leaves the board as it was.
    pub fn new_position(&mut self, p: Piece, to: Position) -> (r: Result<(), GameError>)
        requires
            old(self).wf(),
        ensures
            final(self).wf(),
            old(self).first_index(p) >= 64 ==> r == Err::<(), GameError>(GameError::PieceNotFound),
            old(self).first_index(p) < 64 && !on_board(to) ==> r == Err::<(), GameError>(
                GameError::InvalidPosition,
            ),
            old(self).first_index(p) < 64 && on_board(to) && !old(self).legal_from_first(
                p,
                normal_of(to),
            ) ==> r == Err::<(), GameError>(GameError::IllegalMove),
            old(self).first_index(p) < 64 && on_board(to) && old(self).legal_from_first(
                p,
                normal_of(to),
            ) ==> r is Ok,
            r is Err ==> *final(self) == *old(self),
            r is Ok ==> forall|j: int| #[trigger]
                final(self).square(j) == old(self).moved_square(
                    p,
                    old(self).first_index(p),
                    normal_of(to),
                    j,
                ),
            squares_of(*final(self)) == move_in(squares_of(*old(self)), p, to),
    {
        proof {
            self.lemma_find_from(p, 0);
            self.lemma_find_in(p, 0);
        }
        let f = self.first_norm(p);
        if f >= 64 {
            return Err(GameError::PieceNotFound);
        }
        if to.0 < 1 || to.0 > 8 || to.1 < 1 || to.1 > 8 {
            return Err(GameError::InvalidPosition);
        }
        let t = (to.1 - 1) * 8 + (to.0 - 1);
        assert(self.holds(p, f as int));
        assert(p != Piece::Empty);
        assert(t as int == normal_of(to));
        let mask = match self.move_mask_raw(p) {
            Ok(m) => m,
            Err(e) => {
                return Err(e);
            },
        };
        assert(mask.at(t as int) == self.legal_from_first(p, t as int));
        if !test_bit(mask.num, t) {
            return Err(GameError::IllegalMove);
        }
        let ghost before = *self;
        self.relocate(p, f, t);
        proof {
            assert(squares_of(*self) =~= squares_of(before).update(f as int, Piece::Empty).update(
                t as int,
                p,
            ));
        }
        Ok(())
    }

    /// Moves `p` to `to` without consulting its legal destinations, removing
    /// whatever stood there. Refused when `p` is not on the board, when `to` is
    /// off the board, or when `to` holds a piece of `p`'s own side.
    pub fn new_position_unchecked(&mut self, p: Piece, to: Position) -> (r: Result<(), GameError>)
        requires
            old(self).wf(),
        ensures
            final(self).wf(),
            old(self).first_index(p) >= 64 ==> r == Err::<(), GameError>(GameError::PieceNotFound),
            old(self).first_index(p) < 64 && !on_board(to) ==> r == Err::<(), GameError>(
                GameError::InvalidPosition,
            ),
            old(self).first_index(p) < 64 && on_board(to) && side_of(
                old(self).square(normal_of(to)),
            ) == side_of(p) ==> r == Err::<(), GameError>(GameError::IllegalMove),
            old(self).first_index(p) < 64 && on_board(to) && side_of(
                old(self).square(normal_of(to)),
            ) != side_of(p) ==> r is Ok,
            r is Err ==> *final(self) == *old(self),
            r is Ok ==> forall|j: int| #[trigger]
                final(self).square(j) == old(self).moved_square(
                    p,
                    old(self).first_index(p),
                    normal_of(to),
                    j,
                ),
    {
        proof {
            self.lemma_find_from(p, 0);
        }
        let f = self.first_norm(p);
        if f >= 64 {
            return Err(GameError::PieceNotFound);
        }
        if to.0 < 1 || to.0 > 8 || to.1 < 1 || to.1 > 8 {
            return Err(GameError::InvalidPosition);
        }
        let t = (to.1 - 1) * 8 + (to.0 - 1);
        proof {
            self.lemma_holds_square(p, f as int);
            self.lemma_holds_square(p, t as int);
        }
        let q = match self.piece_from_norm(t) {
            Ok(q) => q,
            Err(e) => {
                return Err(e);
            },
        };
        let same = match (q.side(), p.side()) {
            (Option::Some(a), Option::Some(b)) => a == b,
            _ => false,
        };
        if same {
            return Err(GameError::IllegalMove);
        }
        self.relocate(p, f, t);
        Ok(())
    }
}

/// A legal move of `p` from the first square holding it to square `t` is
/// accepted by `new_position`, and it removes at most one piece: the one on `t`,
/// which is never of the mover's side. Every square but the origin and `t`
/// keeps its piece.
pub proof fn lemma_legal_move_effect(b: Board, p: Piece, t: int)
    requires
        b.wf(),
        b.first_index(p) < 64,
        b.legal_from_first(p, t),
    ensures
        0 <= t < 64,
        on_board(pos_of(t)),
        normal_of(pos_of(t)) == t,
        t != b.first_index(p),
        b.square(b.first_index(p)) == p,
        b.square(t) == Piece::Empty || b.enemy_at(p, t),
        side_of(b.square(t)) != side_of(p),
        b.moved_square(p, b.first_index(p), t, t) == p,
        b.moved_square(p, b.first_index(p), t, b.first_index(p)) == Piece::Empty,
        forall|j: int|
            j != t && j != b.first_index(p) ==> #[trigger] b.moved_square(p, b.first_index(p), t, j)
                == b.square(j),
{
    let f = b.first_index(p);
    b.lemma_find_from(p, 0);
    b.lemma_holds_square(p, f);
    crate::position::lemma_normal_pos_of(t);
}

/// An aggressive piece or a bird takes a piece only on a diagonal in its side's
/// capturing direction, never on a diagonal in the other direction.
pub proof fn lemma_captures_backward_only(b: Board, p: Piece, f: int, t: int)
    requires
        is_aggressive_kind(kind_of(p)) || kind_of(p) == PieceType::Bird,
        b.square(t) != Piece::Empty,
    ensures
        b.legal(p, f, t) ==> (side_of(p) matches Option::Some(s) && is_capture_diagonal(s, f, t)),
        side_of(p) matches Option::Some(s) && is_diagonal(f, t) && t / 8 - f / 8 == -backward_dy(
            s,
        ) ==> !b.legal(p, f, t),
{
}

/// The legal destinations of `p` from square `f` among the squares below `n`,
/// in increasing order.
pub open spec fn targets_below(b: Board, p: Piece, f: int, n: int) -> Seq<int>
    decreases n,
{
    if n <= 0 {
        Seq::empty()
    } else if b.legal(p, f, n - 1) {
        targets_below(b, p, f, n - 1).push(n - 1)
    } else {
        targets_below(b, p, f, n - 1)
    }
}

/// The text of a move: `<piece><from>-<piece><to>` in square notation.
pub open spec fn move_text(p: Piece, f: int, t: int) -> Seq<char> {
    seq![piece_char(p)] + square_code(pos_of(f)) + seq!['-', piece_char(p)] + square_code(
        pos_of(t),
    )
}

impl Board {
    /// The legal moves of `p` as text, one entry per destination in index order.
    pub fn generate_moves(&self, p: Piece) -> (r: Result<Vec<String>, GameError>)
        requires
            self.wf(),
        ensures
            self.first_index(p) >= 64 ==> r == Err::<Vec<String>, GameError>(
                GameError::PieceNotFound,
            ),
            self.first_index(p) < 64 ==> (r matches Ok(v) && {
                let ts = targets_below(*self, p, self.first_index(p), 64);
                &&& v@.len() == ts.len()
                &&& forall|k: int|
                    0 <= k < v@.len() ==> (#[trigger] v@[k])@ == move_text(
                        p,
                        self.first_index(p),
                        ts[k],
                    )
            }),
    {
        proof {
            self.lemma_find_from(p, 0);
        }
        let from = match self.pos_from_piece(p) {
            Ok(pos) => pos,
            Err(e) => {
                return Err(e);
            },
        };
        let f = self.first_norm(p);
        assert(self.holds(p, f as int));
        let mask = match self.move_mask_raw(p) {
            Ok(m) => m,
            Err(e) => {
                return Err(e);
            },
        };
        let mut out: Vec<String> = Vec::new();
        let mut t: u64 = 0;
        while t < 64
            invariant
                t <= 64,
                f < 64,
                f == self.first_index(p),
                from == pos_of(f as int),
                on_board(from),
                p != Piece::Empty,
                forall|j: int| #[trigger] mask.at(j) == (0 <= j < 64 && self.legal_from_first(p, j)),
                out@.len() == targets_below(*self, p, f as int, t as int).len(),
                forall|k: int|
                    0 <= k < out@.len() ==> (#[trigger] out@[k])@ == move_text(
                        p,
                        f as int,
                        targets_below(*self, p, f as int, t as int)[k],
                    ),
            decreases 64 - t,
        {
            assert(mask.at(t as int) == self.legal(p, f as int, t as int));
            if test_bit(mask.num, t) {
                let to = Board::normal_to_pos(t);
                let mut text = p.encode();
                let a = match from.encode() {
                    Ok(a) => a,
                    Err(e) => {
                        return Err(e);
                    },
                };
                text.append(a.as_str());
                push_char(&mut text, '-');
                let again = p.encode();
                text.append(again.as_str());
                let b = match to.encode() {
                    Ok(b) => b,
                    Err(e) => {
                        return Err(e);
                    },
                };
                text.append(b.as_str());
                assert(text@ =~= move_text(p, f as int, t as int));
                let ghost prev = out@;
                out.push(text);
                proof {
                    let ts = targets_below(*self, p, f as int, t + 1);
                    assert(ts == targets_below(*self, p, f as int, t as int).push(t as int));
                    assert forall|k: int| 0 <= k < out@.len() implies (#[trigger] out@[k])@
                        == move_text(p, f as int, ts[k]) by {
                        if k < prev.len() {
                            assert(out@[k] == prev[k]);
                        }
                    }
                }
            }
            t = t + 1;
        }
        Ok(out)
    }
}

} // verus!
