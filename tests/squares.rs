use gtc::{decode_position, Board, GameError, Normalizable, Position};

#[test]
fn normal_of_corners() {
    assert_eq!((1u64, 1u64).normal(), 0);
    assert_eq!((8u64, 1u64).normal(), 7);
    assert_eq!((1u64, 2u64).normal(), 8);
    assert_eq!((8u64, 8u64).normal(), 63);
    assert_eq!((3u64, 5u64).normal(), 34);
}

#[test]
fn normal_round_trip_every_square() {
    for x in 1..=8u64 {
        for y in 1..=8u64 {
            let pos: Position = (x, y);
            assert_eq!(Board::normal_to_pos(pos.normal() as u64), pos);
        }
    }
    for i in 0..64u64 {
        assert_eq!(Board::normal_to_pos(i).normal() as u64, i);
    }
}

#[test]
fn normal_to_pos_values() {
    assert_eq!(Board::normal_to_pos(0), (1, 1));
    assert_eq!(Board::normal_to_pos(9), (2, 2));
    assert_eq!(Board::normal_to_pos(63), (8, 8));
}

#[test]
fn is_valid_checks_lower_bounds() {
    assert!((1u64, 1u64).is_valid());
    assert!((9u64, 9u64).is_valid());
    assert!(!(0u64, 1u64).is_valid());
    assert!(!(1u64, 0u64).is_valid());
}

#[test]
fn encode_square_notation() {
    assert_eq!((1u64, 1u64).encode(), Ok("a1".to_string()));
    assert_eq!((5u64, 3u64).encode(), Ok("c5".to_string()));
    assert_eq!((8u64, 8u64).encode(), Ok("h8".to_string()));
    assert_eq!((12u64, 2u64).encode(), Ok("b12".to_string()));
}

#[test]
fn encode_rejects_rows_off_the_board() {
    assert_eq!((1u64, 0u64).encode(), Err(GameError::InvalidPosition));
    assert_eq!((1u64, 9u64).encode(), Err(GameError::InvalidPosition));
}

#[test]
fn decode_square_notation() {
    assert_eq!(decode_position("a1".to_string()), Ok((1, 1)));
    assert_eq!(decode_position("c5".to_string()), Ok((5, 3)));
    assert_eq!(decode_position("h8".to_string()), Ok((8, 8)));
}

#[test]
fn decode_rejects_malformed_squares() {
    assert_eq!(decode_position("a".to_string()), Err(GameError::InvalidPosition));
    assert_eq!(decode_position("".to_string()), Err(GameError::InvalidPosition));
    assert_eq!(decode_position("ax".to_string()), Err(GameError::InvalidPosition));
    assert_eq!(decode_position("z3".to_string()), Err(GameError::InvalidPosition));
    assert_eq!(decode_position("a9".to_string()), Err(GameError::InvalidPosition));
    assert_eq!(decode_position("a0".to_string()), Err(GameError::InvalidPosition));
    assert_eq!(decode_position("a12".to_string()), Err(GameError::InvalidPosition));
}

#[test]
fn square_notation_round_trip() {
    for x in 1..=8u64 {
        for y in 1..=8u64 {
            let text = (x, y).encode().unwrap();
            assert_eq!(decode_position(text), Ok((x, y)));
        }
    }
}
