use gtc::{decode_code, GameError, Piece, PieceStatus, PieceType, Side};

#[test]
fn encode_every_piece() {
    assert_eq!(Piece::Empty.encode(), "#");
    assert_eq!(Piece::Goat(Side::White).encode(), "g");
    assert_eq!(Piece::Horse(Side::White).encode(), "h");
    assert_eq!(Piece::Sloth(Side::White).encode(), "s");
    assert_eq!(Piece::Bird(Side::White).encode(), "i");
    assert_eq!(Piece::Tiger(Side::White).encode(), "t");
    assert_eq!(Piece::Otter(Side::White).encode(), "o");
    assert_eq!(Piece::Snake(Side::White).encode(), "l");
    assert_eq!(Piece::MantisShrimp(Side::White).encode(), "m");
    assert_eq!(Piece::Goat(Side::Orange).encode(), "G");
    assert_eq!(Piece::Bird(Side::Orange).encode(), "I");
    assert_eq!(Piece::Snake(Side::Orange).encode(), "L");
    assert_eq!(Piece::MantisShrimp(Side::Orange).encode(), "M");
}

#[test]
fn side_encode_upper_cases_for_orange() {
    let p = Piece::Empty;
    assert_eq!(p.side_encode('g', Side::Orange), "G");
    assert_eq!(p.side_encode('g', Side::White), "g");
    assert_eq!(p.side_encode('ß', Side::Orange), "SS");
}

#[test]
fn decode_every_code() {
    assert_eq!(Piece::decode("g".to_string()), Ok((Piece::Goat(Side::White), Side::White)));
    assert_eq!(Piece::decode("H".to_string()), Ok((Piece::Horse(Side::Orange), Side::Orange)));
    assert_eq!(Piece::decode("s".to_string()), Ok((Piece::Sloth(Side::White), Side::White)));
    assert_eq!(Piece::decode("I".to_string()), Ok((Piece::Bird(Side::Orange), Side::Orange)));
    assert_eq!(Piece::decode("t".to_string()), Ok((Piece::Tiger(Side::White), Side::White)));
    assert_eq!(Piece::decode("O".to_string()), Ok((Piece::Otter(Side::Orange), Side::Orange)));
    assert_eq!(Piece::decode("l".to_string()), Ok((Piece::Snake(Side::White), Side::White)));
    assert_eq!(
        Piece::decode("M".to_string()),
        Ok((Piece::MantisShrimp(Side::Orange), Side::Orange))
    );
}

#[test]
fn decode_rejects_unknown_codes() {
    assert_eq!(Piece::decode("x".to_string()), Err(GameError::InvalidPieceCode));
    assert_eq!(Piece::decode("#".to_string()), Err(GameError::InvalidPieceCode));
    assert_eq!(Piece::decode("".to_string()), Err(GameError::InvalidPieceCode));
    assert_eq!(Piece::decode("gh".to_string()), Err(GameError::InvalidPieceCode));
    assert_eq!(decode_code('7'), Err(GameError::InvalidPieceCode));
}

#[test]
fn piece_code_round_trip() {
    let sides = [Side::Orange, Side::White];
    for s in sides {
        let pieces = [
            Piece::Goat(s),
            Piece::Horse(s),
            Piece::Sloth(s),
            Piece::Bird(s),
            Piece::Tiger(s),
            Piece::Otter(s),
            Piece::Snake(s),
            Piece::MantisShrimp(s),
        ];
        for p in pieces {
            assert_eq!(Piece::decode(p.encode()), Ok((p, s)));
        }
    }
}

#[test]
fn side_not_and_names() {
    assert_eq!(Side::Orange.not(), Side::White);
    assert_eq!(Side::White.not(), Side::Orange);
    assert_eq!(Side::Orange.name(), "Orange");
    assert_eq!(Side::White.name(), "White");
    assert_eq!(Side::from_name("Orange"), Ok(Side::Orange));
    assert_eq!(Side::from_name("White"), Ok(Side::White));
    assert_eq!(Side::from_name("white"), Err(GameError::InvalidPieceCode));
}

#[test]
fn kinds_and_statuses() {
    assert_eq!(Piece::Otter(Side::White).kind(), PieceType::Otter);
    assert_eq!(Piece::Empty.kind(), PieceType::Empty);
    assert_eq!(Piece::Goat(Side::Orange).side(), Some(Side::Orange));
    assert_eq!(Piece::Empty.side(), None);
    assert_eq!(PieceType::Goat.status(), Some(PieceStatus::Passive));
    assert_eq!(PieceType::Sloth.status(), Some(PieceStatus::Passive));
    assert_eq!(PieceType::Bird.status(), Some(PieceStatus::Both));
    assert_eq!(PieceType::MantisShrimp.status(), Some(PieceStatus::Aggressive));
    assert_eq!(PieceType::Empty.status(), None);
}
