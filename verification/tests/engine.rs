use minishogi::attacks::{
    bishop_attacks, dragon_attacks, gold_attacks, horse_attacks, king_attacks,
    pawn_attack_bitboard, pawn_attacks, rook_attacks, silver_attacks,
};
use minishogi::bitboard::Bitboard;
use minishogi::board::{all_squares, Square};
use minishogi::evaluation::{evaluate, piece_material_value};
use minishogi::hand::{Hand, HandPieceKind};
use minishogi::moves::Move;
use minishogi::piece::{Color, Piece, PieceKind};
use minishogi::position::{Position, PositionError};
use minishogi::search::{
    repetition_terminal_value, seed_from_clock, terminal_score, SearchInfo, SearchLimits,
    Searcher,
};
use minishogi::table::{Bound, TableEntry, TranspositionTable};
use minishogi::usi::UsiEngine;
use minishogi::zobrist;

fn sq(coord: &str) -> Square {
    Square::from_coord(coord).expect("coordinate")
}

fn usi_list(position: &Position) -> Vec<String> {
    let mut v: Vec<String> = position
        .generate_legal_moves()
        .expect("legal moves")
        .iter()
        .map(|m| m.to_usi())
        .collect();
    v.sort();
    v
}

#[test]
fn square_coordinates_round_trip() {
    for square in all_squares() {
        let text = square.to_coord();
        assert_eq!(Square::from_coord(&text), Some(square));
    }
    assert_eq!(Square::from_index(0).to_coord(), "1a");
    assert_eq!(Square::from_index(24).to_coord(), "5e");
    assert_eq!(Square::from_file_rank(2, 2).to_coord(), "3c");
    assert_eq!(sq("5e").file(), 4);
    assert_eq!(sq("5e").rank(), 4);
    assert_eq!(sq("5e").index(), 24);
}

#[test]
fn square_rejects_bad_coordinates() {
    assert_eq!(Square::from_coord(""), None);
    assert_eq!(Square::from_coord("6a"), None);
    assert_eq!(Square::from_coord("0a"), None);
    assert_eq!(Square::from_coord("1f"), None);
    assert_eq!(Square::from_coord("1A"), None);
    assert_eq!(Square::from_coord("1aa"), None);
    assert_eq!(Square::from_coord("a1"), None);
}

#[test]
fn square_offset_stays_on_board() {
    let corner = Square::from_file_rank(0, 0);
    assert_eq!(corner.offset(-1, 0), None);
    assert_eq!(corner.offset(0, -1), None);
    assert_eq!(corner.offset(1, 1), Some(Square::from_file_rank(1, 1)));
    let far = Square::from_file_rank(4, 4);
    assert_eq!(far.offset(1, 0), None);
    assert_eq!(far.offset(0, 1), None);
    assert_eq!(far.offset(-4, -4), Some(corner));
}

#[test]
fn bitboard_set_operations() {
    let mut a = Bitboard::empty();
    assert!(a.is_empty());
    a.insert(sq("1a"));
    a.insert(sq("3c"));
    assert!(a.contains(sq("1a")));
    assert!(a.contains(sq("3c")));
    assert!(!a.contains(sq("5e")));
    assert_eq!(a.to_bits(), 1 | (1 << 12));
    let b = Bitboard::from_square(sq("3c"));
    assert_eq!(a.intersection(b), b);
    assert_eq!(a.union(b), a);
    assert_eq!(a.symmetric_difference(b), Bitboard::from_square(sq("1a")));
    assert_eq!(Bitboard::empty().complement(), Bitboard::full());
    assert_eq!(Bitboard::full().to_bits(), (1u32 << 25) - 1);
    assert_eq!(Bitboard::from_bits(u32::MAX), Bitboard::full());
    a.remove(sq("1a"));
    assert_eq!(a, b);
    let c = Bitboard::from_bits(0b0110);
    let d = Bitboard::from_bits(0b0011);
    assert_eq!((c | d).to_bits(), 0b0111);
    assert_eq!((c & d).to_bits(), 0b0010);
    assert_eq!((c ^ d).to_bits(), 0b0101);
    assert_eq!((!c).to_bits(), ((1u32 << 25) - 1) & !0b0110);
    let mut e = c;
    e |= d;
    assert_eq!(e.to_bits(), 0b0111);
    e &= c;
    assert_eq!(e.to_bits(), 0b0110);
    e ^= d;
    assert_eq!(e.to_bits(), 0b0101);
}

#[test]
fn bitboard_pop_takes_lowest_square_first() {
    let mut a = Bitboard::from_bits((1 << 7) | (1 << 3) | (1 << 20));
    assert_eq!(a.pop(), Some(Square::from_index(3)));
    assert_eq!(a.pop(), Some(Square::from_index(7)));
    assert_eq!(a.pop(), Some(Square::from_index(20)));
    assert_eq!(a.pop(), None);
    let mut it = Bitboard::from_bits(0b101).iter();
    assert_eq!(it.next(), Some(Square::from_index(0)));
    assert_eq!(it.next(), Some(Square::from_index(2)));
    assert_eq!(it.next(), None);
}

#[test]
fn piece_kind_relations() {
    for kind in PieceKind::all() {
        assert_eq!(kind.can_promote(), kind.promote().is_some());
        assert_eq!(kind.is_promoted(), kind.demote().is_some());
        if let Some(p) = kind.promote() {
            assert_eq!(p.demote(), Some(kind));
            assert_eq!(p.base(), kind);
        }
        assert_eq!(PieceKind::all()[kind.index()], kind);
    }
    assert_eq!(PieceKind::Pawn.promote(), Some(PieceKind::Tokin));
    assert_eq!(PieceKind::King.promote(), None);
    assert_eq!(PieceKind::Gold.promote(), None);
    assert_eq!(PieceKind::Tokin.base(), PieceKind::Pawn);
    assert_eq!(Color::Black.opponent(), Color::White);
    assert_eq!(Color::White.opponent().opponent(), Color::White);
    assert_eq!(Color::Black.index(), 0);
    assert_eq!(Color::White.index(), 1);
}

#[test]
fn piece_letters() {
    assert_eq!(Piece::new(Color::Black, PieceKind::King).to_sfen(), "K");
    assert_eq!(Piece::new(Color::White, PieceKind::Tokin).to_sfen(), "+p");
    assert_eq!(Piece::new(Color::Black, PieceKind::PromotedRook).to_sfen(), "+R");
    assert_eq!(PieceKind::from_sfen_letter('S', true), Some(PieceKind::PromotedSilver));
    assert_eq!(PieceKind::from_sfen_letter('g', true), None);
    assert_eq!(PieceKind::from_sfen_letter('x', false), None);
    assert_eq!(PieceKind::Rook.drop_char(), Some('R'));
    assert_eq!(PieceKind::King.drop_char(), None);
    assert_eq!(PieceKind::from_drop_char('b'), Some(PieceKind::Bishop));
    assert_eq!(PieceKind::from_drop_char('K'), None);
    assert_eq!(PieceKind::PromotedBishop.sfen_letter(), 'b');
}

#[test]
fn hand_counts_saturate() {
    let mut hand = Hand::default();
    assert!(hand.is_empty());
    assert_eq!(hand.add(HandPieceKind::Pawn, 2), 2);
    assert_eq!(hand.add(HandPieceKind::Pawn, 200), 6);
    assert_eq!(hand.count(HandPieceKind::Pawn), 6);
    assert_eq!(hand.remove(HandPieceKind::Pawn, 1), 5);
    assert_eq!(hand.remove(HandPieceKind::Pawn, 9), 0);
    hand.set(HandPieceKind::Gold, 3);
    hand.set(HandPieceKind::Rook, 1);
    assert_eq!(hand.to_sfen(false), "3GR");
    assert_eq!(hand.to_sfen(true), "3gr");
    assert!(!hand.is_empty());
    assert_eq!(HandPieceKind::from_piece_kind(PieceKind::Silver), Some(HandPieceKind::Silver));
    assert_eq!(HandPieceKind::from_piece_kind(PieceKind::King), None);
    assert_eq!(HandPieceKind::Bishop.to_char(), 'B');
    assert_eq!(HandPieceKind::all()[HandPieceKind::Rook.index()], HandPieceKind::Rook);
}

#[test]
fn step_attacks_follow_the_colour() {
    let c = sq("3c");
    assert_eq!(pawn_attacks(Color::Black, c), Bitboard::from_square(sq("3b")));
    assert_eq!(pawn_attacks(Color::White, c), Bitboard::from_square(sq("3d")));
    assert_eq!(pawn_attacks(Color::Black, sq("3a")), Bitboard::empty());
    let mut king = Bitboard::empty();
    for t in ["2b", "3b", "4b", "2c", "4c", "2d", "3d", "4d"] {
        king.insert(sq(t));
    }
    assert_eq!(king_attacks(c), king);
    let mut gold = king;
    gold.remove(sq("2d"));
    gold.remove(sq("4d"));
    assert_eq!(gold_attacks(Color::Black, c), gold);
    let mut silver = king;
    silver.remove(sq("2c"));
    silver.remove(sq("4c"));
    silver.remove(sq("3d"));
    assert_eq!(silver_attacks(Color::Black, c), silver);
    let mut white_silver = king;
    white_silver.remove(sq("2c"));
    white_silver.remove(sq("4c"));
    white_silver.remove(sq("3b"));
    assert_eq!(silver_attacks(Color::White, c), white_silver);
    let corner = king_attacks(sq("1a"));
    let mut expected = Bitboard::empty();
    for t in ["2a", "1b", "2b"] {
        expected.insert(sq(t));
    }
    assert_eq!(corner, expected);
}

#[test]
fn sliders_stop_at_the_first_blocker() {
    let mut occ = Bitboard::empty();
    occ.insert(sq("3b"));
    occ.insert(sq("5c"));
    let rook = rook_attacks(sq("3c"), occ);
    let mut expected = Bitboard::empty();
    for t in ["3b", "3d", "3e", "2c", "1c", "4c", "5c"] {
        expected.insert(sq(t));
    }
    assert_eq!(rook, expected);
    let mut occ2 = Bitboard::empty();
    occ2.insert(sq("2b"));
    let bishop = bishop_attacks(sq("3c"), occ2);
    let mut expected2 = Bitboard::empty();
    for t in ["2b", "4b", "5a", "2d", "1e", "4d", "5e"] {
        expected2.insert(sq(t));
    }
    assert_eq!(bishop, expected2);
}

#[test]
fn promoted_sliders_add_the_king_steps() {
    let occ = Bitboard::from_square(sq("3b"));
    let dragon = dragon_attacks(sq("3c"), occ);
    assert_eq!(dragon, rook_attacks(sq("3c"), occ) | king_attacks(sq("3c")));
    assert!(dragon.contains(sq("2b")));
    assert!(!dragon.contains(sq("3a")));
    let horse = horse_attacks(sq("3c"), occ);
    assert_eq!(horse, bishop_attacks(sq("3c"), occ) | king_attacks(sq("3c")));
    assert!(horse.contains(sq("3d")));
    assert!(horse.contains(sq("5a")));
}

#[test]
fn pawn_attacks_of_a_set() {
    let mut pawns = Bitboard::empty();
    pawns.insert(sq("3c"));
    pawns.insert(sq("1a"));
    pawns.insert(sq("5e"));
    let black = pawn_attack_bitboard(Color::Black, pawns);
    let mut expected = Bitboard::empty();
    expected.insert(sq("3b"));
    expected.insert(sq("5d"));
    assert_eq!(black, expected);
    let white = pawn_attack_bitboard(Color::White, pawns);
    let mut expected_white = Bitboard::empty();
    expected_white.insert(sq("3d"));
    expected_white.insert(sq("1b"));
    assert_eq!(white, expected_white);
}

#[test]
fn zobrist_keys_are_fixed() {
    let first = zobrist::piece_square(Color::Black, PieceKind::King, Square::from_index(0));
    let mut x: u64 = 0x9E3779B97F4A7C15;
    x = x.wrapping_add(0x9E3779B97F4A7C15);
    let mut z = x;
    z = (z ^ (z >> 30)).wrapping_mul(0xBF58476D1CE4E5B9);
    z = (z ^ (z >> 27)).wrapping_mul(0x94D049BB133111EB);
    z ^= z >> 31;
    assert_eq!(first, z);
    assert_eq!(
        zobrist::hand(Color::White, HandPieceKind::Pawn, 5),
        zobrist::hand(Color::White, HandPieceKind::Pawn, 99)
    );
    assert_ne!(
        zobrist::hand(Color::White, HandPieceKind::Pawn, 0),
        zobrist::hand(Color::White, HandPieceKind::Pawn, 1)
    );
    assert_ne!(zobrist::side_to_move(), 0);
    assert_eq!(zobrist::side_to_move(), zobrist::side_to_move());
}

#[test]
fn key_follows_the_moves() {
    let mut position = Position::initial().expect("initial");
    let start_key = position.zobrist_key();
    let moves = position.generate_legal_moves().expect("moves");
    for mv in moves {
        let next = position.play_move(&mv).expect("play");
        let again = Position::from_sfen(&next.to_sfen()).expect("reparse");
        assert_eq!(next.zobrist_key(), again.zobrist_key());
        assert_eq!(next.zobrist_key(), next.recomputed_key());
        assert_ne!(next.zobrist_key(), start_key);
        assert_eq!(next.side_to_move(), Color::White);
        assert_eq!(next.ply(), 2);
    }
    let mv = Move::normal(sq("5d"), sq("5c"), PieceKind::Pawn, false);
    position.play_move_mut(&mv).expect("pawn move");
    assert_eq!(position.to_sfen(), "rbsgk/4p/P4/5/KGSBR w - 2");
    assert_eq!(position.current_repetition_count(), 1);
    assert_eq!(position.repetition_count(start_key), 1);
    assert_eq!(position.repetition_count(12345), 0);
}

#[test]
fn default_values() {
    assert_eq!(Position::default().to_sfen(), "5/5/5/5/5 b - 1");
    let limits = SearchLimits::default();
    assert_eq!((limits.depth, limits.randomness), (3, 0));
    let mut searcher = Searcher::default();
    let p = Position::from_sfen("4k/5/5/5/K4 b - 1").expect("parse");
    let result = searcher.search(&p, limits).expect("search");
    assert!(result.best_move.is_some());
    assert!(TranspositionTable::default().probe(0).is_none());
    assert_eq!(Hand::default().count(HandPieceKind::Rook), 0);
}

#[test]
fn empty_and_cleared_positions() {
    let mut position = Position::empty();
    assert_eq!(position.to_sfen(), "5/5/5/5/5 b - 1");
    assert_eq!(position.current_repetition_count(), 0);
    let key = position.zobrist_key();
    position
        .set_piece(sq("3c"), Piece::new(Color::White, PieceKind::Gold))
        .expect("place");
    assert_eq!(position.piece_at(sq("3c")), Some(Piece::new(Color::White, PieceKind::Gold)));
    assert!(position.pieces(Color::White, PieceKind::Gold).contains(sq("3c")));
    assert!(position.occupancy(Color::White).contains(sq("3c")));
    assert!(position.occupancy_all().contains(sq("3c")));
    assert!(!position.occupancy(Color::Black).contains(sq("3c")));
    let occupied = position
        .set_piece(sq("3c"), Piece::new(Color::Black, PieceKind::Pawn))
        .expect_err("occupied");
    assert_eq!(occupied.to_text(), "square 3c is already occupied");
    assert_ne!(position.zobrist_key(), key);
    assert_eq!(
        position.remove_piece(sq("3c")),
        Some(Piece::new(Color::White, PieceKind::Gold))
    );
    assert_eq!(position.remove_piece(sq("3c")), None);
    assert_eq!(position.zobrist_key(), key);
    position.set_side_to_move(Color::White);
    assert_ne!(position.zobrist_key(), key);
    position.set_ply(0);
    assert_eq!(position.ply(), 1);
    position.set_ply(7);
    assert_eq!(position.to_sfen(), "5/5/5/5/5 w - 7");
    position.clear();
    assert_eq!(position.to_sfen(), "5/5/5/5/5 b - 1");
    assert_eq!(position.zobrist_key(), key);
    assert_eq!(position.current_repetition_count(), 1);
}

#[test]
fn hand_changes_need_a_new_key() {
    let mut position = Position::from_sfen("4k/5/5/5/K4 b - 1").expect("parse");
    let key = position.zobrist_key();
    position.hand_mut(Color::Black).add(HandPieceKind::Gold, 1);
    assert_eq!(position.zobrist_key(), key);
    assert_ne!(position.recomputed_key(), key);
    position.recompute_hash();
    let same = Position::from_sfen("4k/5/5/5/K4 b G 1").expect("parse");
    assert_eq!(position.zobrist_key(), same.zobrist_key());
    assert_eq!(position.to_sfen(), "4k/5/5/5/K4 b G 1");
    assert_eq!(position.current_repetition_count(), 1);
}

#[test]
fn sfen_accepts_what_the_format_allows() {
    let p = Position::from_sfen("  rbsgk/4p/5/P4/KGSBR   B  -  0 ").expect("parse");
    assert_eq!(p.to_sfen(), "rbsgk/4p/5/P4/KGSBR b - 1");
    let q = Position::from_sfen("2+s1k/5/5/5/K3+P w 2G3pS +17").expect("parse");
    assert_eq!(q.piece_at(sq("3a")), Some(Piece::new(Color::White, PieceKind::PromotedSilver)));
    assert_eq!(q.piece_at(sq("1e")), Some(Piece::new(Color::Black, PieceKind::Tokin)));
    assert_eq!(q.hand(Color::Black).count(HandPieceKind::Gold), 2);
    assert_eq!(q.hand(Color::Black).count(HandPieceKind::Silver), 1);
    assert_eq!(q.hand(Color::White).count(HandPieceKind::Pawn), 3);
    assert_eq!(q.to_sfen(), "2+s1k/5/5/5/K3+P w 2GS3p 17");
    assert_eq!(q.king_square(Color::Black), Some(sq("5e")));
    assert_eq!(q.king_square(Color::White), Some(sq("1a")));
    let r = Position::from_sfen("5/5/5/5/5 b 9P 1").expect("parse");
    assert_eq!(r.hand(Color::Black).count(HandPieceKind::Pawn), 6);
}

fn error_text(sfen: &str) -> (bool, String) {
    match Position::from_sfen(sfen) {
        Ok(_) => panic!("{} should not parse", sfen),
        Err(PositionError::Format(msg)) => (true, msg.to_string()),
        Err(PositionError::Message(msg)) => (false, msg),
    }
}

#[test]
fn sfen_reports_each_fault() {
    assert_eq!(error_text(""), (true, "missing board".to_string()));
    assert_eq!(error_text("5/5/5/5/5"), (true, "missing turn".to_string()));
    assert_eq!(error_text("5/5/5/5/5 b"), (true, "missing hands".to_string()));
    assert_eq!(error_text("5/5/5/5/5 b -"), (true, "missing ply".to_string()));
    assert_eq!(error_text("5/5/5/5/5 b - 1 x"), (true, "Too many fields in SFEN".to_string()));
    assert_eq!(error_text("5/5/5/5 b - 1"), (false, "board has 4 ranks, expected 5".to_string()));
    assert_eq!(error_text("6/5/5/5/5 b - 1"), (false, "invalid empty count 6 in rank 0".to_string()));
    assert_eq!(error_text("5/0k4/5/5/5 b - 1"), (false, "invalid empty count 0 in rank 1".to_string()));
    assert_eq!(error_text("5/5/33/5/5 b - 1"), (false, "invalid empty count 3 in rank 2".to_string()));
    assert_eq!(error_text("4+/5/5/5/5 b - 1"), (true, "dangling promotion marker".to_string()));
    assert_eq!(error_text("5k/5/5/5/5 b - 1"), (false, "too many squares in rank".to_string()));
    assert_eq!(error_text("4x/5/5/5/5 b - 1"), (false, "invalid piece letter 'x'".to_string()));
    assert_eq!(error_text("4+k/5/5/5/5 b - 1"), (false, "invalid piece letter 'k'".to_string()));
    assert_eq!(error_text("4/5/5/5/5 b - 1"), (false, "rank 0 does not cover all files".to_string()));
    assert_eq!(error_text("5/5/5/5/k3 b - 1"), (false, "rank 4 does not cover all files".to_string()));
    assert_eq!(error_text("5/5/5/5/5 x - 1"), (false, "turn must be b or w".to_string()));
    assert_eq!(error_text("5/5/5/5/5 b 256P 1"), (false, "invalid hand count".to_string()));
    assert_eq!(error_text("5/5/5/5/5 b K 1"), (false, "invalid hand piece".to_string()));
    assert_eq!(error_text("5/5/5/5/5 b P2 1"), (false, "dangling hand count".to_string()));
    assert_eq!(error_text("5/5/5/5/5 b - x"), (false, "invalid ply".to_string()));
    assert_eq!(error_text("5/5/5/5/5 b - 4294967296"), (false, "invalid ply".to_string()));
    assert_eq!(error_text("5/5/5/5/5 b - -1"), (false, "invalid ply".to_string()));
}

fn move_error(position: &Position, mv: Move) -> String {
    match position.play_move(&mv) {
        Ok(_) => panic!("move should fail"),
        Err(e) => e.to_text(),
    }
}

#[test]
fn play_move_reports_each_fault() {
    let p = Position::from_sfen("rbsgk/4p/5/P4/KGSBR b G 1").expect("parse");
    assert_eq!(move_error(&p, Move::drop(sq("3c"), PieceKind::King)), "cannot drop this piece");
    assert_eq!(move_error(&p, Move::drop(sq("3c"), PieceKind::Pawn)), "no piece in hand for drop");
    assert_eq!(move_error(&p, Move::drop(sq("5d"), PieceKind::Gold)), "drop target not empty");
    assert_eq!(
        move_error(&p, Move::normal(sq("3c"), sq("3b"), PieceKind::Pawn, false)),
        "no piece on from square"
    );
    assert_eq!(
        move_error(&p, Move::normal(sq("1b"), sq("1c"), PieceKind::Pawn, false)),
        "moving opponent piece"
    );
    assert_eq!(
        move_error(&p, Move::normal(sq("5e"), sq("4d"), PieceKind::King, true)),
        "piece cannot promote"
    );
    assert_eq!(
        move_error(&p, Move::normal(sq("5e"), sq("5d"), PieceKind::King, false)),
        "cannot capture own piece"
    );
    let mut q = p.clone();
    assert!(q.play_move_mut(&Move::drop(sq("3c"), PieceKind::King)).is_err());
    assert_eq!(q.to_sfen(), p.to_sfen());
    assert_eq!(q.zobrist_key(), p.zobrist_key());
}

#[test]
fn capture_goes_to_hand_unpromoted() {
    let p = Position::from_sfen("4k/5/2+p2/2R2/K4 b - 1").expect("parse");
    let mv = Move::normal(sq("3d"), sq("3c"), PieceKind::Rook, false);
    let next = p.play_move(&mv).expect("capture");
    assert_eq!(next.hand(Color::Black).count(HandPieceKind::Pawn), 1);
    assert_eq!(next.piece_at(sq("3c")), Some(Piece::new(Color::Black, PieceKind::Rook)));
    assert_eq!(next.piece_at(sq("3d")), None);
    assert_eq!(next.to_sfen(), "4k/5/2R2/5/K4 w P 2");
    let drop = Move::drop(sq("3c"), PieceKind::Pawn);
    let q = Position::from_sfen("4k/5/5/5/K4 w p 5").expect("parse");
    let after = q.play_move(&drop).expect("drop");
    assert_eq!(after.to_sfen(), "4k/5/2p2/5/K4 b - 6");
}

#[test]
fn pawn_must_promote_on_the_last_rank() {
    let p = Position::from_sfen("4k/P4/5/5/K4 b - 1").expect("parse");
    let moves = usi_list(&p);
    assert!(moves.contains(&"5b5a+".to_string()));
    assert!(!moves.contains(&"5b5a".to_string()));
    let q = Position::from_sfen("4k/S4/5/5/K4 b - 1").expect("parse");
    let silver = usi_list(&q);
    assert!(silver.contains(&"5b5a+".to_string()));
    assert!(silver.contains(&"5b5a".to_string()));
    assert!(silver.contains(&"5b4a+".to_string()));
}

#[test]
fn no_pawn_drop_on_own_pawn_file_or_last_rank() {
    let p = Position::from_sfen("4k/5/5/P4/K4 b P 1").expect("parse");
    let moves = usi_list(&p);
    for m in &moves {
        if m.starts_with("P*") {
            assert!(!m.starts_with("P*5"), "{} drops on the pawn's file", m);
            assert!(!m.ends_with('a'), "{} drops on the last rank", m);
        }
    }
    assert!(moves.contains(&"P*3c".to_string()));
    let initial = Position::initial().expect("initial");
    assert!(usi_list(&initial).iter().all(|m| !m.contains('*')));
}

#[test]
fn no_mate_by_pawn_drop() {
    let p = Position::from_sfen("4k/2G2/3G1/5/K4 b P 1").expect("parse");
    let moves = usi_list(&p);
    assert!(!moves.contains(&"P*1b".to_string()));
    assert!(moves.contains(&"P*2b".to_string()));
    assert!(moves.contains(&"P*1c".to_string()));
    let q = Position::from_sfen("4k/5/4G/5/K4 b P 1").expect("parse");
    assert!(usi_list(&q).contains(&"P*1b".to_string()));
}

#[test]
fn legal_moves_never_leave_the_king_in_check() {
    let p = Position::from_sfen("4k/5/5/4r/K3G b - 1").expect("parse");
    assert!(!p.is_in_check(Color::Black));
    let pinned = Position::from_sfen("r3k/5/5/G4/K4 b - 1").expect("parse");
    for mv in pinned.generate_legal_moves().expect("moves") {
        let next = pinned.play_move(&mv).expect("play");
        assert!(!next.is_in_check(Color::Black), "{} leaves the king in check", mv.to_usi());
    }
    let pseudo = pinned.generate_pseudo_legal_moves();
    let legal = pinned.generate_legal_moves().expect("moves");
    assert!(legal.len() < pseudo.len());
    for mv in &legal {
        assert!(pseudo.contains(mv));
    }
    let checked = Position::from_sfen("r3k/5/5/5/K4 b - 1").expect("parse");
    assert!(checked.is_in_check(Color::Black));
    assert!(!checked.is_in_check(Color::White));
    let kingless = Position::from_sfen("r4/5/5/5/5 b - 1").expect("parse");
    assert!(!kingless.is_in_check(Color::Black));
}

#[test]
fn move_texts_are_distinct() {
    let p = Position::from_sfen("2+s1k/5/2R2/5/K3+P b 2GS 1").expect("parse");
    let moves = usi_list(&p);
    let mut unique = moves.clone();
    unique.dedup();
    assert_eq!(moves.len(), unique.len());
}

#[test]
fn moves_come_in_the_order_of_generation() {
    let p = Position::initial().expect("initial");
    let texts: Vec<String> = p
        .generate_legal_moves()
        .expect("moves")
        .iter()
        .map(|m| m.to_usi())
        .collect();
    assert_eq!(
        texts,
        vec![
            "5e4d", "4e3d", "4e4d", "3e2d", "3e3d", "3e4d", "2e5b", "2e4c", "2e1d", "2e3d",
            "1e1b", "1e1c", "1e1d", "5d5c"
        ]
    );
    let q = Position::from_sfen("4k/S4/5/5/K4 b GP 1").expect("parse");
    let pseudo: Vec<String> = q.generate_pseudo_legal_moves().iter().map(|m| m.to_usi()).collect();
    assert_eq!(pseudo[0], "5e4d");
    assert_eq!(pseudo[1], "5e5d");
    assert_eq!(pseudo[2], "5e4e");
    assert_eq!(&pseudo[3..7], &["5b4a", "5b4a+", "5b5a", "5b5a+"]);
    assert_eq!(pseudo[7], "5b4c");
    assert_eq!(pseudo[8], "G*2a");
    assert_eq!(pseudo[9], "G*3a");
    assert!(!pseudo.contains(&"P*2a".to_string()));
    assert_eq!(pseudo.last().unwrap(), "P*4e");
}

fn count_lines(position: &Position, depth: u32) -> u64 {
    let moves = position.generate_legal_moves().expect("moves");
    if depth == 1 {
        return moves.len() as u64;
    }
    let mut total = 0;
    for mv in moves {
        let next = position.play_move(&mv).expect("play");
        total += count_lines(&next, depth - 1);
    }
    total
}

#[test]
fn lines_from_the_start() {
    let p = Position::initial().expect("initial");
    assert_eq!(count_lines(&p, 1), 14);
    assert_eq!(count_lines(&p, 2), 181);
    assert_eq!(count_lines(&p, 3), 2_512);
    assert_eq!(count_lines(&p, 4), 35_401);
}

#[test]
fn material_values() {
    assert_eq!(piece_material_value(PieceKind::King), 15_000);
    assert_eq!(piece_material_value(PieceKind::Gold), 700);
    assert_eq!(piece_material_value(PieceKind::Silver), 600);
    assert_eq!(piece_material_value(PieceKind::PromotedSilver), 650);
    assert_eq!(piece_material_value(PieceKind::Bishop), 900);
    assert_eq!(piece_material_value(PieceKind::PromotedBishop), 1_100);
    assert_eq!(piece_material_value(PieceKind::Rook), 1_000);
    assert_eq!(piece_material_value(PieceKind::PromotedRook), 1_200);
    assert_eq!(piece_material_value(PieceKind::Pawn), 100);
    assert_eq!(piece_material_value(PieceKind::Tokin), 400);
}

#[test]
fn evaluation_counts_material_and_position() {
    let p = Position::from_sfen("5/5/2P2/5/5 b - 1").expect("parse");
    assert_eq!(evaluate(&p), 100 + 2 * 25 + 40 * 2);
    let w = Position::from_sfen("5/5/2P2/5/5 w - 1").expect("parse");
    assert_eq!(evaluate(&w), -(100 + 2 * 25 + 40 * 2));
    let k = Position::from_sfen("5/5/5/5/K4 b - 1").expect("parse");
    assert_eq!(evaluate(&k), 15_000 + (4 - 2) * 20);
    let h = Position::from_sfen("5/5/5/5/5 b 2Rg 1").expect("parse");
    assert_eq!(evaluate(&h), 2 * 1_000 - 700);
    let d = Position::from_sfen("+r4/5/5/5/5 b - 1").expect("parse");
    assert_eq!(evaluate(&d), -(1_200 + 60));
}

#[test]
fn table_prefers_depth() {
    let mut table = TranspositionTable::new();
    assert!(table.probe(7).is_none());
    let shallow = TableEntry { depth: 1, score: 10, bound: Bound::Exact, best_move: None };
    let deep = TableEntry { depth: 3, score: 30, bound: Bound::Lower, best_move: None };
    table.store(7, deep);
    table.store(7, shallow);
    assert_eq!(table.probe(7).map(|e| e.score), Some(30));
    let same = TableEntry { depth: 3, score: 40, bound: Bound::Upper, best_move: None };
    table.store(7, same);
    assert_eq!(table.probe(7).map(|e| (e.score, e.bound)), Some((40, Bound::Upper)));
    table.store(8, shallow);
    assert_eq!(table.probe(8).map(|e| e.depth), Some(1));
    table.clear();
    assert!(table.probe(7).is_none());
}

#[test]
fn repetition_values() {
    assert_eq!(repetition_terminal_value(Color::Black, 0, 3), None);
    assert_eq!(repetition_terminal_value(Color::Black, 1, 3), None);
    assert_eq!(repetition_terminal_value(Color::Black, 2, 3), Some(-500));
    assert_eq!(repetition_terminal_value(Color::White, 2, 3), Some(500));
    assert_eq!(repetition_terminal_value(Color::Black, 3, 3), Some(-7_500));
    assert_eq!(repetition_terminal_value(Color::White, 3, 3), Some(7_500));
    assert_eq!(repetition_terminal_value(Color::Black, 4, 3), Some(-29_997));
    assert_eq!(repetition_terminal_value(Color::White, 5, 10), Some(29_990));
    assert_eq!(repetition_terminal_value(Color::White, 4, 1_000_000), Some(1));
}

#[test]
fn repeated_position_is_penalised() {
    let mut p = Position::from_sfen("4k/5/5/5/K4 b - 1").expect("parse");
    let out = Move::normal(sq("5e"), sq("5d"), PieceKind::King, false);
    let back = Move::normal(sq("5d"), sq("5e"), PieceKind::King, false);
    let wout = Move::normal(sq("1a"), sq("1b"), PieceKind::King, false);
    let wback = Move::normal(sq("1b"), sq("1a"), PieceKind::King, false);
    for mv in [out, wout, back, wback] {
        p.play_move_mut(&mv).expect("play");
    }
    assert_eq!(p.current_repetition_count(), 2);
    for mv in [out, wout, back, wback] {
        p.play_move_mut(&mv).expect("play");
    }
    assert_eq!(p.current_repetition_count(), 3);
    let score = repetition_terminal_value(Color::White, p.current_repetition_count(), 1);
    assert_eq!(score, Some(7_500));
}

#[test]
fn mated_position_has_no_best_move() {
    let p = Position::from_sfen("4k/4G/4G/5/K4 w - 1").expect("parse");
    assert!(p.is_in_check(Color::White));
    assert_eq!(p.generate_legal_moves().expect("moves").len(), 0);
    let mut searcher = Searcher::with_seed(1);
    let result = searcher.search(&p, SearchLimits { depth: 3, randomness: 0 }).expect("search");
    assert_eq!(result.best_move, None);
    assert_eq!(result.score, -30_000);
    assert_eq!(result.depth, 0);
    assert_eq!(terminal_score(&p, 0).ok(), Some(-30_000));
    assert_eq!(terminal_score(&p, 5).ok(), Some(-29_995));
}

#[test]
fn search_finds_mate_in_one() {
    let p = Position::from_sfen("4k/5/4G/5/K4 b G 1").expect("parse");
    let mut searcher = Searcher::with_seed(1);
    let result = searcher.search(&p, SearchLimits { depth: 2, randomness: 0 }).expect("search");
    let best = result.best_move.expect("a move");
    assert_eq!(best.to_usi(), "G*1b");
    assert_eq!(result.score, 29_999);
    assert!(result.nodes > 0);
    let lines = searcher.info_lines();
    assert!(!lines.is_empty());
    assert!(lines.last().unwrap().contains("score mate 1"));
    assert!(lines.last().unwrap().ends_with("pv G*1b"));
}

#[test]
fn search_is_repeatable() {
    let p = Position::initial().expect("initial");
    let limits = SearchLimits { depth: 3, randomness: 0 };
    let mut a = Searcher::with_seed(1);
    let mut b = Searcher::with_seed(99);
    let ra = a.search(&p, limits).expect("search");
    let rb = b.search(&p, limits).expect("search");
    assert_eq!(ra.best_move, rb.best_move);
    assert_eq!(ra.score, rb.score);
    assert_eq!(ra.nodes, rb.nodes);
    assert_eq!(ra.depth, 3);
    let again = a.search(&p, limits).expect("search");
    assert_eq!(again.best_move, ra.best_move);
    assert_eq!(again.score, ra.score);
    assert_eq!(again.nodes, ra.nodes);
    let best = ra.best_move.expect("a move");
    assert!(p.generate_legal_moves().expect("moves").contains(&best));
}

#[test]
fn seeds_from_the_clock() {
    assert_eq!(seed_from_clock(Some(5)), 5);
    assert_eq!(seed_from_clock(Some(0)), 0);
    assert_eq!(seed_from_clock(Some((1u128 << 64) + 7)), 7);
    assert_eq!(seed_from_clock(Some(u128::MAX)), u64::MAX);
    assert_eq!(seed_from_clock(None), 0x9E37_79B9_7F4A_7C15);
}

#[test]
fn search_with_randomness_stays_legal() {
    let p = Position::initial().expect("initial");
    let mut searcher = Searcher::new();
    let result = searcher
        .search(&p, SearchLimits { depth: 1, randomness: 100_000 })
        .expect("search");
    let best = result.best_move.expect("a move");
    assert!(p.generate_legal_moves().expect("moves").contains(&best));
    let zero = searcher.search(&p, SearchLimits { depth: 0, randomness: -5 }).expect("search");
    assert_eq!(zero.depth, 1);
}

#[test]
fn info_lines_report_scores() {
    let cp = SearchInfo { depth: 2, score: -35, nodes: 120, best_move: None };
    assert_eq!(cp.to_line(), "info depth 2 score cp -35 nodes 120");
    let mv = Move::normal(sq("5e"), sq("5d"), PieceKind::Pawn, false);
    let mate = SearchInfo { depth: 4, score: 29_997, nodes: 9, best_move: Some(mv) };
    assert_eq!(mate.to_line(), "info depth 4 score mate 2 nodes 9 pv 5e5d");
    let mated = SearchInfo { depth: 1, score: -29_998, nodes: 1, best_move: None };
    assert_eq!(mated.to_line(), "info depth 1 score mate -1 nodes 1");
}

#[test]
fn engine_follows_commands() {
    let mut engine = UsiEngine::new().expect("engine");
    engine.parse_position(&["startpos", "moves", "5d5c", "1b1c"]).expect("position");
    assert_eq!(engine.position().to_sfen(), "rbsgk/5/P3p/5/KGSBR b - 3");
    let err = engine.parse_position(&["startpos", "moves", "5d5b"]).expect_err("illegal");
    assert_eq!(err.to_text(), "illegal move: 5d5b");
    assert!(engine.parse_position(&[]).is_err());
    assert!(engine.parse_position(&["nowhere"]).is_err());
    assert!(engine.parse_position(&["sfen", "5/5/5/5/5", "b"]).is_err());
    engine
        .parse_position(&["sfen", "4k/5/4G/5/K4", "b", "G", "1"])
        .expect("sfen");
    let (moves, in_check) = engine.legal_moves().expect("moves");
    assert!(moves.contains(&"G*1b".to_string()));
    assert!(!in_check);
    let limits = engine.parse_go_limits(&["DEPTH", "2", "random", "-3"]);
    assert_eq!(limits.depth, 2);
    assert_eq!(limits.randomness, 0);
    let defaults = engine.parse_go_limits(&["depth", "x", "random"]);
    assert_eq!(defaults.depth, 3);
    assert_eq!(defaults.randomness, 0);
    let zero = engine.parse_go_limits(&["depth", "0", "random", "25"]);
    assert_eq!(zero.depth, 1);
    assert_eq!(zero.randomness, 25);
    let best = engine.go(&["depth", "2"]).expect("go");
    assert_eq!(best, "G*1b");
    assert_eq!(engine.position().to_sfen(), "4k/4G/4G/5/K4 w - 2");
    assert_eq!(engine.go(&[]).expect("go"), "resign");
    engine.reset().expect("reset");
    assert_eq!(engine.position().to_sfen(), "rbsgk/4p/5/P4/KGSBR b - 1");
    assert_eq!(engine.find_legal_move("5d5c").expect("move").to_usi(), "5d5c");
}
