use gtc::{blank_instance, Board, GameError, GameSide, Instance, Piece, Side};

fn game(code: &str, side: Side) -> Instance {
    let mut g = blank_instance();
    g.side = side;
    g.load(Board::decode(code.to_string()).unwrap());
    g
}

#[test]
fn blank_instance_is_empty() {
    let g = blank_instance();
    assert_eq!(g.side, Side::White);
    assert_eq!(g.board.encode(), "8/8/8/8/8/8/8/8");
    assert!(!g.game_set());
    assert_eq!(g.states, "");
}

#[test]
fn load_writes_the_log_header() {
    let mut g = blank_instance();
    g.load(Board::new());
    assert!(g.game_set());
    assert_eq!(g.states, "ghtolmsi/8/8/8/8/8/8/GHTOLMSI White\n");
    g.record_move("g", "b1");
    g.record_move("G", "g1");
    assert_eq!(g.states, "ghtolmsi/8/8/8/8/8/8/GHTOLMSI White\ng b1,G g1,");
}

#[test]
fn accepted_move_passes_the_turn() {
    let mut g = game("ghtolmsi/8/8/8/8/8/8/GHTOLMSI", Side::White);
    assert_eq!(g.make_move(Piece::Goat(Side::White), (1, 2)), Ok(false));
    assert_eq!(g.side, Side::Orange);
    assert_eq!(g.last_move.white, Piece::Goat(Side::White));
    assert_eq!(g.make_move(Piece::Goat(Side::Orange), (1, 7)), Ok(false));
    assert_eq!(g.side, Side::White);
    assert_eq!(g.board.encode(), "1htolmsi/g7/8/8/8/8/G7/1HTOLMSI");
}

#[test]
fn rejected_moves_keep_the_turn() {
    let mut g = game("ghtolmsi/8/8/8/8/8/8/GHTOLMSI", Side::White);
    assert_eq!(g.make_move(Piece::Goat(Side::Orange), (1, 7)), Err(GameError::WrongTurn));
    assert_eq!(g.make_move(Piece::Goat(Side::White), (2, 1)), Err(GameError::IllegalMove));
    assert_eq!(g.make_move(Piece::Goat(Side::White), (1, 9)), Err(GameError::InvalidPosition));
    assert_eq!(g.make_move(Piece::Empty, (1, 2)), Err(GameError::PieceNotFound));
    assert_eq!(g.side, Side::White);
    assert_eq!(g.board.encode(), "ghtolmsi/8/8/8/8/8/8/GHTOLMSI");
    let mut h = game("8/8/8/8/8/8/8/8", Side::White);
    assert_eq!(h.make_move(Piece::Goat(Side::White), (1, 2)), Err(GameError::PieceNotFound));
}

#[test]
fn call_win_uses_the_turn() {
    let mut g = blank_instance();
    g.call_win();
    assert!(g.call.white);
    assert!(!g.call.orange);
    assert_eq!(g.side, Side::Orange);
}

#[test]
fn stalemate_with_four_aggressive_pieces() {
    let mut g = game("t1o1l1m1/8/8/8/8/8/8/8", Side::White);
    assert!(g.has_stalemate());
    let report = g.state();
    assert!(report.stalemate);
    let mut mixed = game("t1O5/8/8/8/8/8/8/5L1M", Side::White);
    assert!(mixed.has_stalemate());
    assert!(mixed.state().stalemate);
}

#[test]
fn no_stalemate_otherwise() {
    assert!(!game("ghtolmsi/8/8/8/8/8/8/GHTOLMSI", Side::White).has_stalemate());
    assert!(!game("t1o1l3/8/8/8/8/8/8/8", Side::White).has_stalemate());
    assert!(!game("t1o1l1m1/8/8/8/8/8/8/7T", Side::White).has_stalemate());
}

#[test]
fn passive_defeat_per_side() {
    let g = game("g7/8/8/8/8/8/8/7T", Side::White);
    assert_eq!(g.has_passiveless(), GameSide { white: false, orange: true });
    let start = game("ghtolmsi/8/8/8/8/8/8/GHTOLMSI", Side::White);
    assert_eq!(start.has_passiveless(), GameSide { white: false, orange: false });
    assert_eq!(start.passive_tiles().num.count_ones(), 8);
    assert_eq!(start.aggressive_tiles().num.count_ones(), 8);
}

#[test]
fn edge_alignment_on_goat_corner() {
    // Column 1, rows 1 to 4, all passive and all White.
    let g = game("g7/h7/s7/i7/8/8/8/7G", Side::White);
    assert_eq!(g.has_alignment(), (true, false));
    assert_eq!(g.active_edges(Side::White).num.count_ones(), 4);
    // Two of each side: a tie counts for the side to move.
    let tie = game("g7/H7/s7/I7/8/8/8/8", Side::White);
    assert_eq!(tie.has_alignment(), (true, false));
    // Three of four held by the opponent.
    let lost = game("G7/H7/s7/I7/8/8/8/8", Side::White);
    assert_eq!(lost.has_alignment(), (false, false));
    // A tiger in the corner breaks it.
    let broken = game("g7/h7/t7/i7/8/8/8/8", Side::White);
    assert_eq!(broken.has_alignment(), (false, false));
}

#[test]
fn edge_alignment_on_orange_sloth_corner() {
    let g = game("8/8/8/8/7S/7G/7H/7I", Side::Orange);
    assert_eq!(g.has_alignment(), (false, true));
    assert_eq!(g.active_edges(Side::Orange).num.count_ones(), 4);
}

#[test]
fn undeclared_win_makes_the_side_owe_a_move() {
    // Orange has no passive piece: White wins by passive defeat once it moves.
    let mut g = game("g1t5/8/8/8/8/8/8/2T5", Side::White);
    assert_eq!(g.make_move(Piece::Goat(Side::White), (1, 2)), Ok(false));
    assert!(g.miss_call.white);
    assert_eq!(g.side, Side::Orange);
    assert_eq!(g.make_move(Piece::Tiger(Side::Orange), (2, 7)), Ok(false));
    assert_eq!(g.side, Side::White);
    assert!(g.has_miss_call());

    // The owed move replays the goat; a square held by White is refused.
    assert_eq!(
        g.make_move(Piece::Tiger(Side::White), (3, 1)),
        Err(GameError::HonestyObligationPending)
    );
    assert_eq!(g.side, Side::White);
    assert!(g.miss_call.white);

    // Any destination the goat can be put on pays the debt.
    assert_eq!(g.make_move(Piece::Tiger(Side::White), (4, 2)), Ok(false));
    assert!(!g.miss_call.white);
    assert_eq!(g.side, Side::Orange);
    assert_eq!(g.board.pos_from_piece(Piece::Goat(Side::White)), Ok((4, 2)));
    assert_eq!(g.board.pos_from_piece(Piece::Tiger(Side::White)), Ok((3, 1)));
}

#[test]
fn owed_move_without_a_last_piece_passes() {
    let mut g = game("g7/8/8/8/8/8/8/7T", Side::White);
    assert!(!g.has_win());
    assert!(g.miss_call.white);
    assert_eq!(g.make_move(Piece::Goat(Side::White), (1, 2)), Ok(false));
    assert!(!g.miss_call.white);
    assert_eq!(g.side, Side::Orange);
    assert_eq!(g.board.encode(), "g7/8/8/8/8/8/8/7T");
}

#[test]
fn declared_win_is_granted() {
    let mut g = game("g1t5/8/8/8/8/8/8/2T5", Side::White);
    g.call_win();
    assert_eq!(g.make_move(Piece::Tiger(Side::Orange), (2, 7)), Ok(false));
    assert_eq!(g.make_move(Piece::Goat(Side::White), (1, 2)), Ok(true));
    assert!(!g.miss_call.white);
}

#[test]
fn state_report() {
    let mut g = game("g7/h7/s7/i7/8/8/8/7T", Side::White);
    let r = g.state();
    assert_eq!(r.passive_defeat, GameSide { white: false, orange: true });
    assert!(r.edge_alignment.goat_side);
    assert!(!r.edge_alignment.sloth_side);
    assert!(!r.stalemate);
    assert!(!r.win);
    assert!(g.miss_call.white);
}

#[test]
fn per_side_values() {
    let mut v = gtc::BySide::both(false);
    v.put(Side::Orange, true);
    assert!(v.get(Side::Orange));
    assert!(!v.get(Side::White));
}
