use minishogi::board::Square;
use minishogi::evaluation::evaluate;
use minishogi::hand::HandPieceKind;
use minishogi::moves::Move;
use minishogi::piece::{Color, PieceKind};
use minishogi::position::{Position, INITIAL_SFEN};

#[test]
fn initial_position_is_equal() {
    let position = Position::initial().expect("initial");
    assert_eq!(evaluate(&position), 0);
}

#[test]
fn to_usi_normal_move() {
    let from = Square::from_coord("5e").unwrap();
    let to = Square::from_coord("5d").unwrap();
    let mv = Move::normal(from, to, PieceKind::Pawn, false);
    assert_eq!(mv.to_usi(), "5e5d");
}

#[test]
fn to_usi_drop_move() {
    let to = Square::from_coord("3c").unwrap();
    let mv = Move::drop(to, PieceKind::Gold);
    assert_eq!(mv.to_usi(), "G*3c");
}

#[test]
fn initial_sfen_roundtrip() {
    let position = Position::initial().expect("initial position");
    assert_eq!(position.to_sfen(), INITIAL_SFEN);
}

#[test]
fn parse_custom_sfen() {
    let sfen = "5/5/5/5/5 w Pp 42";
    let position = Position::from_sfen(sfen).expect("parse");
    assert_eq!(position.side_to_move(), Color::White);
    assert_eq!(position.hand(Color::Black).count(HandPieceKind::Pawn), 1);
    assert_eq!(position.hand(Color::White).count(HandPieceKind::Pawn), 1);
    assert_eq!(position.ply(), 42);
    assert_eq!(position.to_sfen(), sfen);
}

#[test]
fn initial_position_has_moves() {
    let position = Position::initial().expect("initial");
    let moves = position.generate_legal_moves().expect("legal moves");
    assert_eq!(moves.len(), 14);
}
