use vstd::prelude::*;
use crate::attacks::piece_reach;
use crate::hand::hand_kind_of;
use crate::moves::Move;
use crate::piece::{Color, Piece, PieceKind};
use crate::state::State;

verus! {

/// A side's promotion zone is the rank farthest from its own side.
pub open spec fn in_promotion_zone(color: Color, square: int) -> bool {
    match color {
        Color::Black => square / 5 == 0,
        Color::White => square / 5 == 4,
    }
}

/// A piece may promote when its kind can and the move starts or ends in the zone.
pub open spec fn may_promote(color: Color, kind: PieceKind, from: int, to: int) -> bool {
    kind.can_promote() && (in_promotion_zone(color, from) || in_promotion_zone(color, to))
}

/// A pawn that reaches the zone has to promote.
pub open spec fn has_to_promote(color: Color, kind: PieceKind, to: int) -> bool {
    kind == PieceKind::Pawn && in_promotion_zone(color, to)
}

/// Whether an unpromoted pawn of the given colour stands on the file.
pub open spec fn pawn_on_file(s: State, color: Color, file: int) -> bool {
    exists|i: int|
        0 <= i < 25 && i % 5 == file && #[trigger] s.board[i] == Some(
            Piece { color, kind: PieceKind::Pawn },
        )
}

/// Whether the piece on `src` is of colour `by` and attacks `target`.
pub open spec fn attacks_from(s: State, src: int, target: int, by: Color) -> bool {
    &&& 0 <= src < 25
    &&& s.board[src] is Some
    &&& s.board[src]->0.color == by
    &&& piece_reach(by, s.board[src]->0.kind, src, target, s.occupied())
}

/// Whether some piece of colour `by` attacks `target`.
pub open spec fn attacked(s: State, target: int, by: Color) -> bool {
    exists|src: int| #[trigger] attacks_from(s, src, target, by)
}

/// Whether `i` is the lowest square that holds a king of the given colour.
pub open spec fn is_king_square(s: State, color: Color, i: int) -> bool {
    &&& s.squares_of(color, PieceKind::King).contains(i)
    &&& forall|j: int| s.squares_of(color, PieceKind::King).contains(j) ==> i <= j
}

/// The square of a side's king: the lowest one, should there be several.
pub open spec fn king_square(s: State, color: Color) -> Option<int> {
    if exists|i: int| is_king_square(s, color, i) {
        Some(choose|i: int| is_king_square(s, color, i))
    } else {
        None
    }
}

/// A side is in check when it has a king and the other side attacks it.
pub open spec fn in_check(s: State, color: Color) -> bool {
    match king_square(s, color) {
        Some(k) => attacked(s, k, color.opponent()),
        None => false,
    }
}

/// Why a move cannot be applied.
pub enum MoveFault {
    /// The kind to drop is a king or a promoted piece.
    NotDroppable,
    /// The mover holds no piece of the kind to drop.
    EmptyHand,
    /// The square to drop on is occupied.
    TargetOccupied,
    /// The square to move from is empty.
    NoPiece,
    /// The piece to move is the opponent's.
    NotOwnPiece,
    /// The move asks to promote a piece whose kind cannot.
    CannotPromote,
    /// The square to move to holds a piece of the mover.
    OwnCapture,
}

impl MoveFault {
    /// The message that reports the fault.
    pub open spec fn text(self) -> Seq<char> {
        match self {
            MoveFault::NotDroppable => "cannot drop this piece"@,
            MoveFault::EmptyHand => "no piece in hand for drop"@,
            MoveFault::TargetOccupied => "drop target not empty"@,
            MoveFault::NoPiece => "no piece on from square"@,
            MoveFault::NotOwnPiece => "moving opponent piece"@,
            MoveFault::CannotPromote => "piece cannot promote"@,
            MoveFault::OwnCapture => "cannot capture own piece"@,
        }
    }
}

/// The first reason, if any, why the move cannot be applied to the state.
pub open spec fn move_fault(s: State, mv: Move) -> Option<MoveFault> {
    match mv.from {
        None => match hand_kind_of(mv.piece) {
            None => Some(MoveFault::NotDroppable),
            Some(hk) => if s.hand(s.side)[hk.spec_index()] == 0 {
                Some(MoveFault::EmptyHand)
            } else if s.board[mv.to@] is Some {
                Some(MoveFault::TargetOccupied)
            } else {
                None
            },
        },
        Some(from) => match s.board[from@] {
            None => Some(MoveFault::NoPiece),
            Some(moving) => if moving.color != s.side {
                Some(MoveFault::NotOwnPiece)
            } else if mv.promote && moving.kind.promote() is None {
                Some(MoveFault::CannotPromote)
            } else if s.board[mv.to@] is Some && s.board[mv.to@]->0.color == s.side {
                Some(MoveFault::OwnCapture)
            } else {
                None
            },
        },
    }
}

/// A count in hand after one more piece, which stops at six.
pub open spec fn count_after_capture(count: nat) -> nat {
    if count >= 6 {
        6
    } else {
        count + 1
    }
}

/// The mover's hand after the move: one piece less of the kind dropped, or
/// one more of the base kind of what was captured (a king is not kept).
pub open spec fn hand_after_move(s: State, mv: Move) -> Seq<nat> {
    let hand = s.hand(s.side);
    match mv.from {
        None => {
            let j = hand_kind_of(mv.piece)->0.spec_index();
            hand.update(j, (hand[j] - 1) as nat)
        },
        Some(from) => match s.board[mv.to@] {
            Some(captured) => match hand_kind_of(captured.kind.base()) {
                Some(hk) => hand.update(
                    hk.spec_index(),
                    count_after_capture(hand[hk.spec_index()]),
                ),
                None => hand,
            },
            None => hand,
        },
    }
}

/// The piece that stands on the move's target afterwards.
pub open spec fn piece_after_move(s: State, mv: Move) -> Piece {
    match mv.from {
        None => Piece { color: s.side, kind: mv.piece },
        Some(from) => {
            let moving = s.board[from@]->0;
            Piece {
                color: s.side,
                kind: if mv.promote {
                    moving.kind.promote()->0
                } else {
                    moving.kind
                },
            }
        },
    }
}

/// The board after the move.
pub open spec fn board_after_move(s: State, mv: Move) -> Seq<Option<Piece>> {
    match mv.from {
        None => s.board.update(mv.to@, Some(piece_after_move(s, mv))),
        Some(from) => s.board.update(from@, None).update(mv.to@, Some(piece_after_move(s, mv))),
    }
}

/// The largest ply that a position counts.
pub const PLY_LIMIT: u32 = 0xFFFF_FFFF;

/// The ply after a move: one higher, until the counter is full.
pub open spec fn next_ply(ply: nat) -> nat {
    if ply < PLY_LIMIT {
        ply + 1
    } else {
        ply
    }
}

/// The state after a move without fault: the piece has moved or was
/// dropped, what it captured is in the mover's hand, the other side is to
/// move and the ply is one higher.
pub open spec fn after_move(s: State, mv: Move) -> State {
    State {
        board: board_after_move(s, mv),
        side: s.side.opponent(),
        ply: next_ply(s.ply),
        ..s
    }.with_hand(s.side, hand_after_move(s, mv))
}

/// Whether a move may, or has to, promote: a pawn that reaches the zone
/// has to, and a move may only where `may_promote` allows it.
pub open spec fn promotion_ok(color: Color, kind: PieceKind, from: int, to: int, promote: bool) -> bool {
    if has_to_promote(color, kind, to) {
        promote
    } else {
        promote ==> may_promote(color, kind, from, to)
    }
}

/// Whether a piece of the given colour and kind on `from` can go to `to`
/// with the promotion asked for: it attacks the square, no piece of its own
/// side stands there, and the promotion obeys the rules.
pub open spec fn can_go(s: State, color: Color, kind: PieceKind, from: int, to: int, promote: bool) -> bool {
    &&& 0 <= to < 25
    &&& piece_reach(color, kind, from, to, s.occupied())
    &&& !s.occupied_by(color).contains(to)
    &&& promotion_ok(color, kind, from, to, promote)
}

/// Whether a move of a piece on the board obeys the rules of movement and
/// promotion, whatever it does to the mover's king.
pub open spec fn board_move_ok(s: State, mv: Move) -> bool {
    &&& mv.from is Some
    &&& 0 <= mv.from->0@ < 25
    &&& s.board[mv.from->0@] == Some(Piece { color: s.side, kind: mv.piece })
    &&& can_go(s, s.side, mv.piece, mv.from->0@, mv.to@, mv.promote)
}

/// Whether a drop obeys the rules: a held piece onto an empty square, and
/// no pawn into the promotion zone or onto a file that holds a pawn of the mover.
pub open spec fn drop_ok(s: State, mv: Move) -> bool {
    let to = mv.to@;
    &&& mv.from is None
    &&& !mv.promote
    &&& 0 <= to < 25
    &&& s.board[to] is None
    &&& hand_kind_of(mv.piece) is Some
    &&& s.hand(s.side)[hand_kind_of(mv.piece)->0.spec_index()] > 0
    &&& mv.piece == PieceKind::Pawn ==> !in_promotion_zone(s.side, to) && !pawn_on_file(
        s,
        s.side,
        to % 5,
    )
}

/// A pseudo-legal move obeys every rule but those about check.
pub open spec fn pseudo_legal(s: State, mv: Move) -> bool {
    board_move_ok(s, mv) || drop_ok(s, mv)
}

/// The move can be applied and does not leave the mover in check.
pub open spec fn keeps_king_safe(s: State, mv: Move) -> bool {
    move_fault(s, mv) is None && !in_check(after_move(s, mv), s.side)
}

/// The side to move has a pseudo-legal move that keeps its king safe.
pub open spec fn has_safe_move(s: State) -> bool {
    exists|mv: Move| #[trigger] pseudo_legal(s, mv) && keeps_king_safe(s, mv)
}

/// A pawn drop that gives check and leaves the opponent without a reply.
pub open spec fn is_drop_pawn_mate(s: State, mv: Move) -> bool {
    &&& mv.from is None
    &&& mv.piece == PieceKind::Pawn
    &&& in_check(after_move(s, mv), s.side.opponent())
    &&& !has_safe_move(after_move(s, mv))
}

/// What the legality test of a move that can be applied says: the mover's
/// king is safe afterwards and, where the drop rule is enforced, the move is
/// no mate by a pawn drop.
pub open spec fn passes_legality(s: State, mv: Move, enforce_drop_rule: bool) -> bool {
    keeps_king_safe(s, mv) && !(enforce_drop_rule && is_drop_pawn_mate(s, mv))
}

/// A legal move is a pseudo-legal one that keeps the mover's king safe and
/// is no mate by a pawn drop.
pub open spec fn legal(s: State, mv: Move) -> bool {
    pseudo_legal(s, mv) && passes_legality(s, mv, true)
}

/// A pseudo-legal move can always be applied.
pub proof fn lemma_pseudo_legal_applies(s: State, mv: Move)
    requires
        s.well_formed(),
        pseudo_legal(s, mv),
    ensures
        move_fault(s, mv) is None,
        mv.from is Some ==> s.board[mv.from->0@] == Some(Piece { color: s.side, kind: mv.piece }),
{
    if board_move_ok(s, mv) {
        let from = mv.from->0@;
        let to = mv.to@;
        if mv.promote {
            assert(promotion_ok(s.side, mv.piece, from, to, true));
            assert(mv.piece.can_promote());
        }
        if s.board[to] is Some && s.board[to]->0.color == s.side {
            assert(s.occupied_by(s.side).contains(to));
        }
    }
}

} // verus!
