use gtc::movelog::{parse_state_entry, parse_state_header};
use gtc::{blank_instance, Board, GameError, Piece, Side};

#[test]
fn header_gives_board_and_side() {
    let (b, s) = parse_state_header("ghtolmsi/8/8/8/8/8/8/GHTOLMSI Orange").unwrap();
    assert_eq!(b.encode(), "ghtolmsi/8/8/8/8/8/8/GHTOLMSI");
    assert_eq!(s, Side::Orange);
}

#[test]
fn header_errors() {
    assert_eq!(parse_state_header("8/8/8/8/8/8/8/8").err(), Some(GameError::InvalidPosition));
    assert_eq!(parse_state_header("9/8 White").err(), Some(GameError::InvalidPosition));
    assert_eq!(parse_state_header("8/8 Green").err(), Some(GameError::InvalidPieceCode));
}

#[test]
fn entries() {
    assert_eq!(parse_state_entry("g b1"), Ok(Some((Piece::Goat(Side::White), (1, 2)))));
    assert_eq!(parse_state_entry("L c3"), Ok(Some((Piece::Snake(Side::Orange), (3, 3)))));
    assert_eq!(parse_state_entry(""), Ok(None));
    assert_eq!(parse_state_entry("  "), Ok(None));
    assert_eq!(parse_state_entry("gb1"), Err(GameError::InvalidPieceCode));
    assert_eq!(parse_state_entry("x b1"), Err(GameError::InvalidPieceCode));
    assert_eq!(parse_state_entry("g z1"), Err(GameError::InvalidPosition));
}

#[test]
fn replay_applies_each_entry() {
    let mut g = blank_instance();
    let log = "ghtolmsi/8/8/8/8/8/8/GHTOLMSI White\ng b1,G g1,";
    assert_eq!(g.read_state(log), Ok(()));
    assert_eq!(g.board.encode(), "1htolmsi/g7/8/8/8/8/G7/1HTOLMSI");
    assert_eq!(g.side, Side::White);
    assert_eq!(g.states, log);
}

#[test]
fn replay_passes_over_refused_moves() {
    let mut g = blank_instance();
    assert_eq!(g.read_state("ghtolmsi/8/8/8/8/8/8/GHTOLMSI Orange\ng h1,g b1"), Ok(()));
    assert_eq!(g.board.encode(), "1htolmsi/g7/8/8/8/8/8/GHTOLMSI");
    assert_eq!(g.side, Side::Orange);
}

#[test]
fn replay_header_only() {
    let mut g = blank_instance();
    assert_eq!(g.read_state("g7/8/8/8/8/8/8/8 White"), Ok(()));
    assert_eq!(g.board.encode(), "g7/8/8/8/8/8/8/8");
}

#[test]
fn replay_errors_leave_the_game() {
    let mut g = blank_instance();
    g.load(Board::new());
    let before = g.states.clone();
    assert_eq!(g.read_state("bad White\n"), Err(GameError::InvalidPieceCode));
    assert_eq!(g.read_state("8/8/8/8/8/8/8/8 White\ng b1,q b2"), Err(GameError::InvalidPieceCode));
    assert_eq!(g.board.encode(), "ghtolmsi/8/8/8/8/8/8/GHTOLMSI");
    assert_eq!(g.states, before);
}
