use vstd::prelude::*;
use crate::attacks::piece_attacks;
use crate::bitboard::Bitboard;
use crate::board::Square;
use crate::hand::{hand_kind_at, HandPieceKind};
use crate::movelist::{
    board_moves, drop_move, drop_moves, drops_on, kept, legal_list, lemma_drop_moves_skip,
    lemma_lists_hold_the_moves, lemma_moves_from_skip, lemma_piece_moves_skip, moves_from,
    piece_moves, pseudo_legal_list, reachable, target_moves,
};
use crate::moves::{Move, MoveList};
use crate::piece::{Color, kind_at, Piece, PieceKind};
use crate::position::{Position, PositionError};
use crate::rules::{
    drop_ok, has_safe_move, has_to_promote, in_promotion_zone, legal, lemma_pseudo_legal_applies,
    may_promote, move_fault, passes_legality, pawn_on_file, pseudo_legal,
};

verus! {

impl Position {
    /// Whether a square lies in a side's promotion zone.
    pub fn promotion_zone(color: Color, square: Square) -> (r: bool)
        ensures
            r == in_promotion_zone(color, square@),
    {
        match color {
            Color::Black => square.rank() == 0,
            Color::White => square.rank() == 4,
        }
    }

    /// Whether a piece of the given kind may promote on a move between the squares.
    pub fn can_promote(color: Color, kind: PieceKind, from: Square, to: Square) -> (r: bool)
        ensures
            r == may_promote(color, kind, from@, to@),
    {
        if !kind.can_promote() {
            return false;
        }
        Self::promotion_zone(color, from) || Self::promotion_zone(color, to)
    }

    /// Whether a piece of the given kind has to promote when it reaches the square.
    pub fn must_promote(color: Color, kind: PieceKind, to: Square) -> (r: bool)
        ensures
            r == has_to_promote(color, kind, to@),
    {
        matches!(kind, PieceKind::Pawn) && Self::promotion_zone(color, to)
    }

    /// Appends the moves of the given pieces, all of one colour and kind:
    /// for each square attacked that holds no piece of the same side, the
    /// move without promotion unless promotion is forced, and the move with
    /// promotion where it is allowed.
    pub fn generate_piece_moves(
        &self,
        color: Color,
        kind: PieceKind,
        pieces: Bitboard,
        moves: &mut MoveList,
    )
        requires
            self.wf(),
        ensures
            final(moves)@ == old(moves)@ + piece_moves(self@, color, kind, pieces@, 25),
    {
        let mut pieces = pieces;
        let ghost pieces0 = pieces@;
        let ghost s = self@;
        let ghost mut pm: int = 0;
        if pieces.is_empty() {
            proof {
                lemma_piece_moves_skip(s, color, kind, pieces0, 0, 25);
                assert(moves@ + Seq::<Move>::empty() =~= moves@);
            }
            return ;
        }
        let our_occ = self.occupancy(color);
        let all_occ = self.occupancy_all();
        proof {
            assert(moves@ + Seq::<Move>::empty() =~= moves@);
            pieces.lemma_view();
        }
        loop
            invariant
                self.wf(),
                s == self@,
                our_occ@ == s.occupied_by(color),
                all_occ@ == s.occupied(),
                0 <= pm <= 25,
                pieces@.subset_of(pieces0),
                forall|t: int| pieces0.contains(t) ==> 0 <= t < 25,
                forall|t: int| pieces0.contains(t) ==> (pieces@.contains(t) <==> t >= pm),
                moves@ == old(moves)@ + piece_moves(s, color, kind, pieces0, pm),
            ensures
                moves@ == old(moves)@ + piece_moves(s, color, kind, pieces0, 25),
            decreases pieces@.len(),
        {
            let from = match pieces.pop() {
                Some(from) => from,
                None => {
                    proof {
                        lemma_piece_moves_skip(s, color, kind, pieces0, pm, 25);
                    }
                    break ;
                },
            };
            let attacks = piece_attacks(color, kind, from, all_occ);
            let mut targets = attacks.intersection(our_occ.complement());
            let ghost targets0 = targets@;
            let ghost base = moves@;
            let ghost mut tm: int = 0;
            proof {
                lemma_piece_moves_skip(s, color, kind, pieces0, pm, from@);
                assert(moves@ + Seq::<Move>::empty() =~= moves@);
                from.lemma_at_view();
                targets.lemma_view();
            }
            loop
                invariant
                    targets@.subset_of(targets0),
                    0 <= tm <= 25,
                    Square::at(from@) == from,
                    forall|t: int| targets0.contains(t) <==> reachable(s, color, kind, from@, t),
                    forall|t: int| targets0.contains(t) ==> (targets@.contains(t) <==> t >= tm),
                    moves@ == base + moves_from(s, color, kind, from@, tm),
                ensures
                    moves@ == base + moves_from(s, color, kind, from@, 25),
                decreases targets@.len(),
            {
                let ghost targets_before = targets@;
                let ghost before = moves@;
                let to = match targets.pop() {
                    Some(to) => to,
                    None => {
                        proof {
                            assert forall|t: int| tm <= t < 25 implies !reachable(
                                s,
                                color,
                                kind,
                                from@,
                                t,
                            ) by {
                                if reachable(s, color, kind, from@, t) {
                                    assert(targets0.contains(t));
                                    assert(targets_before.contains(t));
                                }
                            }
                            lemma_moves_from_skip(s, color, kind, from@, tm, 25);
                        }
                        break ;
                    },
                };
                proof {
                    assert forall|t: int| tm <= t < to@ implies !reachable(
                        s,
                        color,
                        kind,
                        from@,
                        t,
                    ) by {
                        if reachable(s, color, kind, from@, t) {
                            assert(targets0.contains(t));
                            assert(targets_before.contains(t));
                        }
                    }
                    assert(targets0.contains(to@));
                    lemma_moves_from_skip(s, color, kind, from@, tm, to@);
                    to.lemma_at_view();
                }
                let promote_forced = Self::must_promote(color, kind, to);
                let can_promote = Self::can_promote(color, kind, from, to);
                if promote_forced {
                    moves.push(Move::normal(from, to, kind, true));
                } else {
                    moves.push(Move::normal(from, to, kind, false));
                    if can_promote {
                        moves.push(Move::normal(from, to, kind, true));
                    }
                }
                proof {
                    assert(moves@ =~= before + target_moves(color, kind, from@, to@));
                    assert(moves@ =~= base + moves_from(s, color, kind, from@, to@ + 1));
                    tm = to@ + 1;
                }
            }
            proof {
                assert(moves@ =~= old(moves)@ + piece_moves(s, color, kind, pieces0, from@ + 1));
                pm = from@ + 1;
            }
        }
    }

    /// Whether an unpromoted pawn of the given colour stands on the file.
    pub fn has_pawn_on_file(&self, color: Color, file: u8) -> (r: bool)
        requires
            self.wf(),
        ensures
            r == pawn_on_file(self@, color, file as int),
    {
        let mut pawns = self.pieces(color, PieceKind::Pawn);
        let ghost pawns0 = pawns@;
        let ghost s = self@;
        loop
            invariant
                s == self@,
                pawns0 == s.squares_of(color, PieceKind::Pawn),
                pawns@.subset_of(pawns0),
                forall|i: int| pawns0.contains(i) && !pawns@.contains(i) ==> i % 5 != file,
            decreases pawns@.len(),
        {
            match pawns.pop() {
                Some(square) => {
                    if square.file() == file {
                        proof {
                            assert(s.board[square@] == Some(
                                Piece { color, kind: PieceKind::Pawn },
                            ));
                        }
                        return true;
                    }
                },
                None => {
                    proof {
                        assert forall|i: int|
                            !(0 <= i < 25 && i % 5 == file && #[trigger] s.board[i] == Some(
                                Piece { color, kind: PieceKind::Pawn },
                            )) by {
                            if 0 <= i < 25 && s.board[i] == Some(
                                Piece { color, kind: PieceKind::Pawn },
                            ) {
                                assert(pawns0.contains(i));
                            }
                        }
                    }
                    return false;
                },
            }
        }
    }

    /// Appends the drops of the side to move: every kind held onto every
    /// empty square, but no pawn into the promotion zone or onto a file that
    /// holds a pawn of the same side.
    pub fn generate_drop_moves(&self, color: Color, moves: &mut MoveList)
        requires
            self.wf(),
            color == self@.side,
        ensures
            final(moves)@ == old(moves)@ + drop_moves(self@, 25),
    {
        let mut empty = self.occupancy_all().complement();
        let ghost empty0 = empty@;
        let ghost s = self@;
        let ghost mut dm: int = 0;
        let kinds = HandPieceKind::all();
        proof {
            assert(moves@ + Seq::<Move>::empty() =~= moves@);
            self.lemma_wf();
        }
        loop
            invariant
                self.wf(),
                s == self@,
                color == s.side,
                s.well_formed(),
                forall|i: int| empty0.contains(i) <==> 0 <= i < 25 && s.board[i] is None,
                empty@.subset_of(empty0),
                0 <= dm <= 25,
                forall|t: int| empty0.contains(t) ==> (empty@.contains(t) <==> t >= dm),
                moves@ == old(moves)@ + drop_moves(s, dm),
                forall|j: int| 0 <= j < 5 ==> #[trigger] kinds[j] == hand_kind_at(j),
            ensures
                moves@ == old(moves)@ + drop_moves(s, 25),
            decreases empty@.len(),
        {
            let ghost empty_before = empty@;
            let ghost base = moves@;
            let to = match empty.pop() {
                Some(to) => to,
                None => {
                    proof {
                        assert forall|t: int| dm <= t < 25 implies s.board[t] is Some by {
                            if s.board[t] is None {
                                assert(empty0.contains(t));
                                assert(empty_before.contains(t));
                            }
                        }
                        lemma_drop_moves_skip(s, dm, 25);
                    }
                    break ;
                },
            };
            proof {
                assert forall|t: int| dm <= t < to@ implies s.board[t] is Some by {
                    if s.board[t] is None {
                        assert(empty0.contains(t));
                        assert(empty_before.contains(t));
                    }
                }
                assert(empty0.contains(to@));
                lemma_drop_moves_skip(s, dm, to@);
                to.lemma_at_view();
                assert(moves@ + Seq::<Move>::empty() =~= moves@);
            }
            let mut i: usize = 0;
            while i < 5
                invariant
                    self.wf(),
                    s == self@,
                    color == s.side,
                    s.well_formed(),
                    i <= 5,
                    0 <= to@ < 25,
                    s.board[to@] is None,
                    Square::at(to@) == to,
                    forall|j: int| 0 <= j < 5 ==> #[trigger] kinds[j] == hand_kind_at(j),
                    moves@ == base + drops_on(s, to@, i as int),
                decreases 5 - i,
            {
                let hand_kind = kinds[i];
                let count = self.hand(color).count(hand_kind);
                let piece_kind = hand_kind.piece_kind();
                let mut allowed = count != 0;
                if allowed && piece_kind == PieceKind::Pawn {
                    if Self::promotion_zone(color, to) {
                        allowed = false;
                    } else if self.has_pawn_on_file(color, to.file()) {
                        allowed = false;
                    }
                }
                if allowed {
                    moves.push(Move::drop(to, piece_kind));
                }
                proof {
                    hand_kind.lemma_kind_round_trip();
                    let m = Move { from: None, to, piece: piece_kind, promote: false };
                    assert(allowed <==> drop_ok(s, m));
                    assert(m == drop_move(to@, hand_kind_at(i as int).piece_kind()));
                    assert(moves@ =~= base + drops_on(s, to@, i as int + 1));
                }
                i += 1;
            }
            proof {
                assert(moves@ =~= old(moves)@ + drop_moves(s, to@ + 1));
                dm = to@ + 1;
            }
        }
    }

    /// The pseudo-legal moves of the side to move: the moves of its pieces on
    /// the board, kind by kind, and then its drops.
    pub fn generate_pseudo_legal_moves(&self) -> (moves: MoveList)
        requires
            self.wf(),
        ensures
            moves@ == pseudo_legal_list(self@),
            forall|mv: Move| #[trigger] moves@.contains(mv) <==> pseudo_legal(self@, mv),
    {
        let mut moves: MoveList = Vec::new();
        let color = self.side_to_move();
        let kinds = PieceKind::all();
        let ghost s = self@;
        let mut ki: usize = 0;
        while ki < 10
            invariant
                self.wf(),
                s == self@,
                color == s.side,
                ki <= 10,
                forall|i: int| 0 <= i < 10 ==> #[trigger] kinds[i] == kind_at(i),
                moves@ == board_moves(s, ki as int),
            decreases 10 - ki,
        {
            let kind = kinds[ki];
            let pieces = self.pieces(color, kind);
            if !pieces.is_empty() {
                self.generate_piece_moves(color, kind, pieces, &mut moves);
            } else {
                proof {
                    lemma_piece_moves_skip(s, color, kind, pieces@, 0, 25);
                    assert(moves@ + Seq::<Move>::empty() =~= moves@);
                }
            }
            ki += 1;
        }
        self.generate_drop_moves(color, &mut moves);
        proof {
            assert forall|mv: Move| #[trigger] moves@.contains(mv) <==> pseudo_legal(s, mv) by {
                lemma_lists_hold_the_moves(s, mv);
            }
        }
        moves
    }

    /// Tests a move that can be applied: whether it keeps the mover's king
    /// safe and, where the drop rule is enforced, is no mate by a pawn drop.
    /// A move that cannot be applied is an error.
    pub fn is_move_legal_internal(&self, mv: &Move, enforce_drop_rule: bool) -> (r: Result<
        bool,
        PositionError,
    >)
        requires
            self.wf(),
        ensures
            r is Err <==> move_fault(self@, *mv) is Some,
            r is Err ==> r->Err_0 is Message && r->Err_0.text() == move_fault(self@, *mv)->0.text(),
            r is Ok ==> r->Ok_0 == passes_legality(self@, *mv, enforce_drop_rule),
        decreases
                if enforce_drop_rule {
                    2nat
                } else {
                    0nat
                },
    {
        let mover = self.side_to_move();
        let next = match self.play_move(mv) {
            Ok(next) => next,
            Err(e) => {
                return Err(e);
            },
        };
        if next.is_in_check(mover) {
            return Ok(false);
        }
        if enforce_drop_rule && mv.is_drop() && mv.piece == PieceKind::Pawn && next.is_in_check(
            mover.opponent(),
        ) {
            match next.has_any_legal_move_internal(false) {
                Ok(any) => {
                    if !any {
                        return Ok(false);
                    }
                },
                Err(e) => {
                    return Err(e);
                },
            }
        }
        Ok(true)
    }

    /// Whether the side to move has a pseudo-legal move that passes the
    /// legality test.
    pub fn has_any_legal_move_internal(&self, enforce_drop_rule: bool) -> (r: Result<
        bool,
        PositionError,
    >)
        requires
            self.wf(),
        ensures
            r is Ok,
            r->Ok_0 == exists|mv: Move| #[trigger]
                pseudo_legal(self@, mv) && passes_legality(self@, mv, enforce_drop_rule),
            !enforce_drop_rule ==> r->Ok_0 == has_safe_move(self@),
        decreases
                if enforce_drop_rule {
                    3nat
                } else {
                    1nat
                },
    {
        let moves = self.generate_pseudo_legal_moves();
        let ghost s = self@;
        proof {
            self.lemma_wf();
        }
        let mut i: usize = 0;
        while i < moves.len()
            invariant
                self.wf(),
                s == self@,
                s.well_formed(),
                i <= moves.len(),
                forall|mv: Move| #[trigger] moves@.contains(mv) <==> pseudo_legal(s, mv),
                forall|j: int| 0 <= j < i ==> !passes_legality(s, #[trigger] moves@[j], enforce_drop_rule),
            decreases moves.len() - i,
        {
            let mv = moves[i];
            proof {
                assert(moves@.contains(mv));
                lemma_pseudo_legal_applies(s, mv);
            }
            match self.is_move_legal_internal(&mv, enforce_drop_rule) {
                Ok(ok) => {
                    if ok {
                        return Ok(true);
                    }
                },
                Err(e) => {
                    return Err(e);
                },
            }
            i += 1;
        }
        proof {
            assert forall|mv: Move| !(#[trigger] pseudo_legal(s, mv) && passes_legality(
                s,
                mv,
                enforce_drop_rule,
            )) by {
                if pseudo_legal(s, mv) {
                    assert(moves@.contains(mv));
                    let j = choose|j: int| 0 <= j < moves@.len() && moves@[j] == mv;
                    assert(!passes_legality(s, moves@[j], enforce_drop_rule));
                }
            }
        }
        Ok(false)
    }

    /// The legal moves of the side to move: the pseudo-legal moves that keep
    /// its king safe and are no mate by a pawn drop, in the order in which
    /// they were generated.
    pub fn generate_legal_moves(&self) -> (r: Result<MoveList, PositionError>)
        requires
            self.wf(),
        ensures
            r is Ok,
            r->Ok_0@ == legal_list(self@),
            forall|mv: Move| #[trigger] r->Ok_0@.contains(mv) <==> legal(self@, mv),
    {
        let mut result: MoveList = Vec::new();
        let moves = self.generate_pseudo_legal_moves();
        let ghost s = self@;
        proof {
            self.lemma_wf();
        }
        let mut i: usize = 0;
        while i < moves.len()
            invariant
                self.wf(),
                s == self@,
                s.well_formed(),
                i <= moves.len(),
                moves@ == pseudo_legal_list(s),
                result@ == kept(moves@, s, i as int),
                forall|mv: Move| #[trigger] moves@.contains(mv) <==> pseudo_legal(s, mv),
            decreases moves.len() - i,
        {
            let mv = moves[i];
            proof {
                assert(moves@.contains(mv));
                lemma_pseudo_legal_applies(s, mv);
            }
            match self.is_move_legal_internal(&mv, true) {
                Ok(ok) => {
                    if ok {
                        result.push(mv);
                    }
                },
                Err(e) => {
                    return Err(e);
                },
            }
            proof {
                assert(result@ =~= kept(moves@, s, i as int + 1));
            }
            i += 1;
        }
        proof {
            assert forall|mv: Move| #[trigger] result@.contains(mv) <==> legal(s, mv) by {
                lemma_lists_hold_the_moves(s, mv);
            }
        }
        Ok(result)
    }
}

} // verus!
