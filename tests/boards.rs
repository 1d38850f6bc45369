use gtc::{Board, GameError, Piece, Side};

const START: &str = "ghtolmsi/8/8/8/8/8/8/GHTOLMSI";

fn board(code: &str) -> Board {
    Board::decode(code.to_string()).unwrap()
}

fn count(b: &Board, s: Side) -> usize {
    (0..64u64)
        .filter(|i| b.piece_from_norm(*i).unwrap().side() == Some(s))
        .count()
}

#[test]
fn starting_layout_notation() {
    assert_eq!(Board::new().encode(), START);
    assert_eq!(Board::blank().encode(), "8/8/8/8/8/8/8/8");
}

#[test]
fn starting_layout_pieces() {
    let b = Board::new();
    assert_eq!(b.piece_from_norm(0), Ok(Piece::Goat(Side::White)));
    assert_eq!(b.piece_from_norm(4), Ok(Piece::Snake(Side::White)));
    assert_eq!(b.piece_from_norm(7), Ok(Piece::Bird(Side::White)));
    assert_eq!(b.piece_from_norm(56), Ok(Piece::Goat(Side::Orange)));
    assert_eq!(b.piece_from_norm(61), Ok(Piece::MantisShrimp(Side::Orange)));
    assert_eq!(b.piece_from_norm(20), Ok(Piece::Empty));
    assert_eq!(b.board_state().num, 0xff00_0000_0000_00ff);
    assert_eq!(b.side_bitboard(Side::White).num, 0xff00_0000_0000_0000);
}

#[test]
fn side_without_kind_is_an_internal_fault() {
    let mut b = Board::blank();
    b.white.set((1, 1));
    assert_eq!(b.piece_from_norm(0), Err(GameError::Internal));
}

#[test]
fn decode_round_trip_start() {
    let b = board(START);
    assert_eq!(b.encode(), START);
    for i in 0..64u64 {
        assert_eq!(b.piece_from_norm(i), Board::new().piece_from_norm(i));
    }
}

#[test]
fn decode_round_trip_scattered() {
    let code = "g3T3/8/2i2m2/8/4L3/1s6/8/7H";
    assert_eq!(board(code).encode(), code);
}

#[test]
fn decode_short_rows_and_boards() {
    assert_eq!(board("g").encode(), "g7/8/8/8/8/8/8/8");
    assert_eq!(board("").encode(), "8/8/8/8/8/8/8/8");
    assert_eq!(board("//t").encode(), "8/8/t7/8/8/8/8/8");
    assert_eq!(board("44/8").encode(), "8/8/8/8/8/8/8/8");
}

#[test]
fn decode_errors() {
    assert_eq!(Board::decode("9".to_string()).err(), Some(GameError::InvalidPosition));
    assert_eq!(Board::decode("ggggggggg".to_string()).err(), Some(GameError::InvalidPosition));
    assert_eq!(Board::decode("8/8/8/8/8/8/8/8/8".to_string()).err(), Some(GameError::InvalidPosition));
    assert_eq!(Board::decode("7gg".to_string()).err(), Some(GameError::InvalidPosition));
    assert_eq!(Board::decode("x7".to_string()).err(), Some(GameError::InvalidPieceCode));
    assert_eq!(Board::decode("#7".to_string()).err(), Some(GameError::InvalidPieceCode));
}

#[test]
fn pos_from_piece_finds_first_square() {
    let b = Board::new();
    assert_eq!(b.pos_from_piece(Piece::Snake(Side::Orange)), Ok((5, 8)));
    assert_eq!(b.pos_from_piece(Piece::Bird(Side::White)), Ok((8, 1)));
    assert_eq!(b.pos_from_piece(Piece::Empty), Err(GameError::PieceNotFound));
    let twice = board("g6g/8/8/8/8/8/8/8");
    assert_eq!(twice.pos_from_piece(Piece::Goat(Side::White)), Ok((1, 1)));
    assert_eq!(twice.pos_from_piece(Piece::Goat(Side::Orange)), Err(GameError::PieceNotFound));
}

#[test]
fn goat_moves_to_empty_neighbours() {
    let b = Board::new();
    assert_eq!(
        b.generate_moves(Piece::Goat(Side::White)),
        Ok(vec!["ga1-gb1".to_string(), "ga1-gb2".to_string()])
    );
    let m = b.move_mask_raw(Piece::Goat(Side::White)).unwrap();
    assert!(m.position((1, 2)));
    assert!(m.position((2, 2)));
    assert!(!m.position((2, 1)));
}

#[test]
fn sloth_moves_orthogonally_only() {
    let b = Board::new();
    assert_eq!(
        b.generate_moves(Piece::Sloth(Side::White)),
        Ok(vec!["sa7-sb7".to_string()])
    );
    let edge = board("8/8/8/7s/8/8/8/8");
    let m = edge.move_mask_raw(Piece::Sloth(Side::White)).unwrap();
    assert!(m.position((7, 4)));
    assert!(m.position((8, 3)));
    assert!(m.position((8, 5)));
    assert!(!m.position((1, 5)));
    assert!(!m.position((7, 5)));
    assert_eq!(m.num.count_ones(), 3);
}

#[test]
fn horse_in_corner_is_clipped() {
    let b = board("8/8/8/8/8/8/8/7H");
    let m = b.move_mask_raw(Piece::Horse(Side::Orange)).unwrap();
    assert_eq!(m.num.count_ones(), 3);
    assert!(m.position((7, 8)));
    assert!(m.position((7, 7)));
    assert!(m.position((8, 7)));
}

#[test]
fn tiger_moves_on_empty_diagonals() {
    let b = Board::new();
    assert_eq!(
        b.generate_moves(Piece::Tiger(Side::White)),
        Ok(vec!["ta3-tb2".to_string(), "ta3-tb4".to_string()])
    );
}

#[test]
fn empty_piece_has_no_moves() {
    let b = Board::new();
    assert_eq!(b.move_mask_raw(Piece::Empty).unwrap().num, 0);
}

#[test]
fn missing_piece_has_no_mask() {
    let b = Board::blank();
    assert_eq!(b.move_mask_raw(Piece::Tiger(Side::White)).err(), Some(GameError::PieceNotFound));
    assert_eq!(b.generate_moves(Piece::Tiger(Side::White)), Err(GameError::PieceNotFound));
}

#[test]
fn white_bird_captures_toward_higher_rows() {
    // White bird on (4,4); Orange goats on (3,3), (3,5), (4,5), (5,5).
    let b = board("8/8/2G5/3i4/2GGG3/8/8/8");
    let m = b.move_mask_raw(Piece::Bird(Side::White)).unwrap();
    assert!(m.position((3, 5)));
    assert!(m.position((5, 5)));
    assert!(!m.position((4, 5)));
    assert!(!m.position((3, 3)));
    assert!(m.position((4, 3)));
    assert!(m.position((5, 3)));
    assert!(m.position((3, 4)));
    assert!(m.position((5, 4)));
    assert_eq!(m.num.count_ones(), 6);
}

#[test]
fn orange_tiger_captures_toward_lower_rows() {
    // Orange tiger on (4,4); White goats on (3,3), (5,3), (3,5).
    let b = board("8/8/2g1g3/3T4/2g5/8/8/8");
    let m = b.move_mask_raw(Piece::Tiger(Side::Orange)).unwrap();
    assert!(m.position((3, 3)));
    assert!(m.position((5, 3)));
    assert!(!m.position((3, 5)));
    assert!(m.position((5, 5)));
    assert_eq!(m.num.count_ones(), 3);
}

#[test]
fn white_aggressive_never_captures_forward() {
    // White otter on (4,4); Orange pieces on every diagonal neighbour.
    let b = board("8/8/2G1G3/3o4/2G1G3/8/8/8");
    let m = b.move_mask_raw(Piece::Otter(Side::White)).unwrap();
    assert!(m.position((3, 5)));
    assert!(m.position((5, 5)));
    assert!(!m.position((3, 3)));
    assert!(!m.position((5, 3)));
}

#[test]
fn aggressive_never_takes_own_side() {
    let b = board("8/8/8/3l4/2g1g3/8/8/8");
    let m = b.move_mask_raw(Piece::Snake(Side::White)).unwrap();
    assert!(!m.position((3, 5)));
    assert!(!m.position((5, 5)));
    assert!(m.position((3, 3)));
    assert!(m.position((5, 3)));
}

#[test]
fn new_position_applies_legal_moves() {
    let mut b = Board::new();
    assert_eq!(b.new_position(Piece::Goat(Side::White), (1, 2)), Ok(()));
    assert_eq!(b.encode(), "1htolmsi/g7/8/8/8/8/8/GHTOLMSI");
}

#[test]
fn new_position_refusals_change_nothing() {
    let mut b = Board::new();
    assert_eq!(b.new_position(Piece::Goat(Side::White), (2, 1)), Err(GameError::IllegalMove));
    assert_eq!(b.new_position(Piece::Goat(Side::White), (1, 3)), Err(GameError::IllegalMove));
    assert_eq!(b.new_position(Piece::Goat(Side::White), (1, 9)), Err(GameError::InvalidPosition));
    assert_eq!(b.new_position(Piece::Goat(Side::White), (0, 1)), Err(GameError::InvalidPosition));
    assert_eq!(b.new_position(Piece::Empty, (1, 2)), Err(GameError::PieceNotFound));
    let mut blank = Board::blank();
    assert_eq!(blank.new_position(Piece::Goat(Side::White), (1, 2)), Err(GameError::PieceNotFound));
    assert_eq!(b.encode(), START);
}

#[test]
fn capture_removes_the_opposing_piece() {
    let mut b = board("8/8/2g5/3T4/8/8/8/8");
    assert_eq!(b.new_position(Piece::Tiger(Side::Orange), (3, 3)), Ok(()));
    assert_eq!(b.encode(), "8/8/2T5/8/8/8/8/8");
}

#[test]
fn every_mask_move_succeeds_and_takes_at_most_one_opponent() {
    let boards = [START, "8/8/2G1G3/3o4/2G1G3/8/8/8", "8/8/2G5/3i4/2GGG3/8/8/8", "g3T3/8/2i2m2/3t4/4L3/1s6/8/7H"];
    for code in boards {
        let b = board(code);
        for i in 0..64u64 {
            let p = b.piece_from_norm(i).unwrap();
            let s = match p.side() {
                Some(s) => s,
                None => continue,
            };
            if b.pos_from_piece(p) != Ok(Board::normal_to_pos(i)) {
                continue;
            }
            let m = b.move_mask_raw(p).unwrap();
            for t in 0..64u64 {
                let to = Board::normal_to_pos(t);
                if !m.position(to) {
                    continue;
                }
                let mut after = b;
                assert_eq!(after.new_position(p, to), Ok(()));
                assert_eq!(count(&after, s), count(&b, s));
                let lost = count(&b, s.not()) - count(&after, s.not());
                assert!(lost <= 1);
                assert_eq!(after.piece_from_norm(t), Ok(p));
            }
        }
    }
}

#[test]
fn orange_snake_walk_and_white_tiger_capture() {
    let mut b = Board::new();
    let snake = Piece::Snake(Side::Orange);
    for to in [(6, 7), (5, 6), (4, 5), (3, 4), (2, 3), (1, 2)] {
        assert_eq!(b.new_position(snake, to), Ok(()));
    }
    // A straight step is not a diagonal, so the snake cannot go on to (1,1).
    assert_eq!(b.new_position(snake, (1, 1)), Err(GameError::IllegalMove));
    assert_eq!(b.pos_from_piece(snake), Ok((1, 2)));

    // A white tiger on (3,1) takes an orange snake on (2,2).
    let mut c = board("2t5/1L6/8/8/8/8/8/8");
    let m = c.move_mask_raw(Piece::Tiger(Side::White)).unwrap();
    assert!(m.position((2, 2)));
    assert_eq!(c.new_position(Piece::Tiger(Side::White), (2, 2)), Ok(()));
    let code = c.encode();
    assert!(!code.contains('L'));
    assert_eq!(code, "8/1t6/8/8/8/8/8/8");
}

#[test]
fn unchecked_placement() {
    let mut b = Board::new();
    assert_eq!(b.new_position_unchecked(Piece::Goat(Side::White), (5, 5)), Ok(()));
    assert_eq!(b.pos_from_piece(Piece::Goat(Side::White)), Ok((5, 5)));
    assert_eq!(b.new_position_unchecked(Piece::Goat(Side::White), (5, 8)), Ok(()));
    assert_eq!(b.encode(), "1htolmsi/8/8/8/8/8/8/GHTOgMSI");
    assert_eq!(b.new_position_unchecked(Piece::Goat(Side::White), (2, 1)), Err(GameError::IllegalMove));
    assert_eq!(b.new_position_unchecked(Piece::Goat(Side::White), (9, 1)), Err(GameError::InvalidPosition));
    assert_eq!(b.new_position_unchecked(Piece::Snake(Side::Orange), (1, 1)), Err(GameError::PieceNotFound));
}
