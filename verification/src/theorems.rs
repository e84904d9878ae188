use vstd::prelude::*;
use crate::hand::{hand_kind_of, HandPieceKind};
use crate::model::{Node, search_of, search_progress};
use crate::movelist::{legal_list, lemma_lists_hold_the_moves, pseudo_legal_list};
use crate::moves::{lemma_usi_text_injective, Move, usi_text};
use crate::ordering::{is_first_best, lemma_first_best_leads, stable_sorted};
use crate::piece::{Color, Piece, PieceKind};
use crate::rules::{
    after_move, board_move_ok, hand_after_move, in_check, in_promotion_zone, is_drop_pawn_mate,
    legal, lemma_pseudo_legal_applies, move_fault, pawn_on_file, piece_after_move, PLY_LIMIT,
    promotion_ok, pseudo_legal,
};
use crate::search::SearchLimits;
use crate::state::State;

verus! {

/// The position at the start of a game is balanced: its static score is zero.
pub proof fn lemma_initial_position_is_balanced()
    ensures
        crate::evaluation::evaluation(crate::round_trip::initial_state()) == 0,
{
    reveal_with_fuel(crate::evaluation::board_score, 26);
    reveal_with_fuel(crate::evaluation::hand_score, 6);
}

/// Without randomness a search is determined by the position, its history
/// and the limits: the state of the generator, which is seeded from the
/// clock, has no part in the result.
pub proof fn lemma_search_without_randomness_is_determined(
    node: Node,
    limits: SearchLimits,
    rng_a: u64,
    rng_b: u64,
)
    requires
        limits.randomness <= 0,
    ensures
        search_of(node, limits, rng_a) == search_of(node, limits, rng_b),
{
}

/// The search of a position in which the side to move is in check and has
/// no legal move finds no best move, and scores the position as a mate at
/// the root.
pub proof fn lemma_mated_position_has_no_best_move(node: Node, limits: SearchLimits, rng: u64)
    requires
        legal_list(node.state).len() == 0,
        in_check(node.state, node.state.side),
    ensures
        search_of(node, limits, rng).best_move is None,
        search_of(node, limits, rng).score == -30_000,
        search_of(node, limits, rng).depth == 0,
{
    assert(stable_sorted(search_progress(node, limits).trace) =~= Seq::empty()) by {
        reveal_with_fuel(stable_sorted, 1);
    }
}

/// Without randomness the move played is the first, in the order in which
/// the moves of the root were searched, of those that scored best: a move
/// that ties with an earlier one does not replace it.
pub proof fn lemma_first_of_the_best_moves_is_played(node: Node, limits: SearchLimits, rng: u64) -> (i:
    int)
    requires
        limits.randomness <= 0,
        search_progress(node, limits).trace.len() > 0,
    ensures
        is_first_best(search_progress(node, limits).trace, i),
        search_of(node, limits, rng).best_move == Some(search_progress(node, limits).trace[i].mv),
{
    let trace = search_progress(node, limits).trace;
    let i = lemma_first_best_leads(trace);
    crate::ordering::lemma_stable_sorted(trace);
    i
}

/// The legal moves that are generated are among the pseudo-legal moves
/// that are generated.
pub proof fn lemma_legal_list_within_pseudo_legal_list(s: State, mv: Move)
    requires
        legal_list(s).contains(mv),
    ensures
        pseudo_legal_list(s).contains(mv),
{
    lemma_lists_hold_the_moves(s, mv);
}

/// Every legal move is a pseudo-legal move.
pub proof fn lemma_legal_moves_are_pseudo_legal(s: State, mv: Move)
    requires
        legal(s, mv),
    ensures
        pseudo_legal(s, mv),
{
}

/// No legal move leaves the mover in check.
pub proof fn lemma_legal_move_keeps_king_safe(s: State, mv: Move)
    requires
        legal(s, mv),
    ensures
        !in_check(after_move(s, mv), s.side),
{
}

/// No legal move is a mate by a pawn drop.
pub proof fn lemma_legal_move_is_no_drop_pawn_mate(s: State, mv: Move)
    requires
        legal(s, mv),
    ensures
        !is_drop_pawn_mate(s, mv),
{
}

/// Whether no unpromoted pawn stands in its side's promotion zone.
pub open spec fn no_pawn_in_zone(s: State) -> bool {
    forall|i: int|
        0 <= i < 25 && (#[trigger] s.board[i]) is Some && s.board[i]->0.kind == PieceKind::Pawn
            ==> !in_promotion_zone(s.board[i]->0.color, i)
}

/// A pseudo-legal move, and so a legal one, puts no unpromoted pawn of the
/// mover into the promotion zone; where no pawn stood in its zone before,
/// none does afterwards.
pub proof fn lemma_no_pawn_reaches_zone(s: State, mv: Move)
    requires
        s.well_formed(),
        pseudo_legal(s, mv),
    ensures
        in_promotion_zone(s.side, mv.to@) ==> after_move(s, mv).board[mv.to@] != Some(
            Piece { color: s.side, kind: PieceKind::Pawn },
        ),
        no_pawn_in_zone(s) ==> no_pawn_in_zone(after_move(s, mv)),
{
    lemma_pseudo_legal_applies(s, mv);
    let next = after_move(s, mv);
    let to = mv.to@;
    if board_move_ok(s, mv) {
        assert(promotion_ok(s.side, mv.piece, mv.from->0@, to, mv.promote));
    }
    assert(next.board[to] == Some(piece_after_move(s, mv)));
    if no_pawn_in_zone(s) {
        assert forall|i: int|
            0 <= i < 25 && (#[trigger] next.board[i]) is Some && next.board[i]->0.kind
                == PieceKind::Pawn implies !in_promotion_zone(next.board[i]->0.color, i) by {
            if i != to {
                assert(s.board[i] == next.board[i]);
            }
        }
    }
}

/// Whether no file holds two unpromoted pawns of one side.
pub open spec fn one_pawn_per_file(s: State) -> bool {
    forall|i: int, j: int|
        0 <= i < 25 && 0 <= j < 25 && i % 5 == j % 5 && (#[trigger] s.board[i]) is Some
            && s.board[i]->0.kind == PieceKind::Pawn && #[trigger] s.board[j] == s.board[i] ==> i
            == j
}

/// Where no file holds two unpromoted pawns of one side, none does after a
/// pseudo-legal move, and so after a legal one.
pub proof fn lemma_one_pawn_per_file_is_kept(s: State, mv: Move)
    requires
        s.well_formed(),
        pseudo_legal(s, mv),
        one_pawn_per_file(s),
    ensures
        one_pawn_per_file(after_move(s, mv)),
{
    lemma_pseudo_legal_applies(s, mv);
    let next = after_move(s, mv);
    let to = mv.to@;
    let placed = piece_after_move(s, mv);
    assert(next.board[to] == Some(placed));
    assert forall|i: int, j: int|
        0 <= i < 25 && 0 <= j < 25 && i % 5 == j % 5 && (#[trigger] next.board[i]) is Some
            && next.board[i]->0.kind == PieceKind::Pawn && #[trigger] next.board[j]
            == next.board[i] implies i == j by {
        if i != j {
            if i != to && j != to {
                assert(s.board[i] == next.board[i]);
                assert(s.board[j] == next.board[j]);
            } else {
                let other = if i == to {
                    j
                } else {
                    i
                };
                assert(next.board[other] == s.board[other]);
                assert(s.board[other] == Some(Piece { color: s.side, kind: PieceKind::Pawn }));
                if mv.from is None {
                    assert(pawn_on_file(s, s.side, to % 5));
                } else {
                    let from = mv.from->0@;
                    assert(placed.kind == PieceKind::Pawn);
                    assert(mv.piece == PieceKind::Pawn);
                    assert(crate::attacks::pawn_reach(s.side, from, to));
                    assert(from % 5 == to % 5);
                    assert(s.board[from] == s.board[other]);
                    assert(other != from);
                }
            }
        }
    }
}

/// No legal drop puts a pawn on a file that holds an unpromoted pawn of the
/// mover.
pub proof fn lemma_no_second_pawn_on_file(s: State, mv: Move)
    requires
        legal(s, mv),
        mv.from is None,
        mv.piece == PieceKind::Pawn,
    ensures
        !pawn_on_file(s, s.side, mv.to@ % 5),
{
}

/// A move that is applied gives the move to the other side and raises the
/// ply by one (unless the counter is full).
pub proof fn lemma_move_passes_turn(s: State, mv: Move)
    requires
        move_fault(s, mv) is None,
    ensures
        after_move(s, mv).side == s.side.opponent(),
        after_move(s, mv).side != s.side,
        s.ply < PLY_LIMIT ==> after_move(s, mv).ply == s.ply + 1,
{
}

/// Every legal move can be applied, and then the other side is to move at
/// the next ply.
pub proof fn lemma_legal_move_applies(s: State, mv: Move)
    requires
        s.well_formed(),
        legal(s, mv),
    ensures
        move_fault(s, mv) is None,
        after_move(s, mv).well_formed(),
        after_move(s, mv).side == s.side.opponent(),
        s.ply < PLY_LIMIT ==> after_move(s, mv).ply == s.ply + 1,
{
    lemma_pseudo_legal_applies(s, mv);
    lemma_after_move_well_formed(s, mv);
}

/// A move between squares of the board that is applied to a well-formed
/// state gives a well-formed state.
pub proof fn lemma_after_move_well_formed(s: State, mv: Move)
    requires
        s.well_formed(),
        move_fault(s, mv) is None,
        0 <= mv.to@ < 25,
        mv.from is Some ==> 0 <= mv.from->0@ < 25,
    ensures
        after_move(s, mv).well_formed(),
{
    let next = after_move(s, mv);
    let hand = hand_after_move(s, mv);
    assert(hand.len() == 5);
    assert forall|i: int| 0 <= i < 5 implies #[trigger] hand[i] <= 6 by {
        assert(s.hand(s.side)[i] <= 6);
    }
    match s.side {
        Color::Black => {
            assert(next.black_hand == hand);
            assert(next.white_hand == s.white_hand);
        },
        Color::White => {
            assert(next.white_hand == hand);
            assert(next.black_hand == s.black_hand);
        },
    }
}

/// Two legal moves of one position that are written the same are the same
/// move.
pub proof fn lemma_legal_moves_have_their_own_text(s: State, a: Move, b: Move)
    requires
        s.well_formed(),
        legal(s, a),
        legal(s, b),
        usi_text(a) == usi_text(b),
    ensures
        a == b,
{
    lemma_pseudo_legal_named(s, a);
    lemma_pseudo_legal_named(s, b);
    lemma_pseudo_legal_applies(s, a);
    lemma_pseudo_legal_applies(s, b);
    lemma_usi_text_injective(a, b);
}

/// A pseudo-legal move is well formed.
pub proof fn lemma_pseudo_legal_named(s: State, mv: Move)
    requires
        pseudo_legal(s, mv),
    ensures
        mv.well_formed(),
{
    mv.to.lemma_on_board();
    if mv.from is Some {
        mv.from->0.lemma_on_board();
    }
}

/// How many pieces of a base kind stand on the first `n` squares, promoted
/// or not and of either side.
pub open spec fn count_on_board(board: Seq<Option<Piece>>, base: PieceKind, n: int) -> int
    decreases n,
{
    if n <= 0 {
        0
    } else {
        count_on_board(board, base, n - 1) + holds(board[n - 1], base)
    }
}

/// One if the square holds a piece of the base kind, else zero.
pub open spec fn holds(cell: Option<Piece>, base: PieceKind) -> int {
    match cell {
        Some(piece) => if piece.kind.base() == base {
            1
        } else {
            0
        },
        None => 0,
    }
}

/// How many pieces of a droppable kind there are: on the board, promoted or
/// not, and in the two hands.
pub open spec fn total_of_kind(s: State, kind: HandPieceKind) -> int {
    count_on_board(s.board, kind.piece_kind(), 25) + s.black_hand[kind.spec_index()]
        + s.white_hand[kind.spec_index()]
}

/// Changing one square changes the count by what stood and what stands there.
pub proof fn lemma_count_after_update(
    board: Seq<Option<Piece>>,
    base: PieceKind,
    i: int,
    cell: Option<Piece>,
    n: int,
)
    requires
        0 <= i < board.len(),
        0 <= n <= board.len(),
    ensures
        count_on_board(board.update(i, cell), base, n) == if i < n {
            count_on_board(board, base, n) - holds(board[i], base) + holds(cell, base)
        } else {
            count_on_board(board, base, n)
        },
    decreases n,
{
    if n > 0 {
        lemma_count_after_update(board, base, i, cell, n - 1);
    }
}

/// Whether the move takes a piece that the mover's hand has no room for, or
/// a king, which no hand keeps.
pub open spec fn capture_is_lost(s: State, mv: Move) -> bool {
    mv.from is Some && match s.board[mv.to@] {
        Some(captured) => match hand_kind_of(captured.kind.base()) {
            Some(hk) => s.hand(s.side)[hk.spec_index()] >= 6,
            None => true,
        },
        None => false,
    }
}

/// Pieces are conserved: a move that is applied leaves the number of pieces
/// of every droppable kind, on the board and in the two hands together, as it
/// was. A capture moves a piece from the board into the mover's hand, and a
/// drop moves one from the hand onto the board. This holds unless the piece
/// taken is lost: a king, or a piece for which the hand has no room.
pub proof fn lemma_pieces_are_conserved(s: State, mv: Move, kind: HandPieceKind)
    requires
        s.well_formed(),
        move_fault(s, mv) is None,
        0 <= mv.to@ < 25,
        mv.from is Some ==> 0 <= mv.from->0@ < 25,
        !capture_is_lost(s, mv),
    ensures
        total_of_kind(after_move(s, mv), kind) == total_of_kind(s, kind),
{
    let base = kind.piece_kind();
    let j = kind.spec_index();
    let next = after_move(s, mv);
    let to = mv.to@;
    let placed = Some(piece_after_move(s, mv));
    kind.lemma_kind_round_trip();
    match mv.from {
        None => {
            lemma_count_after_update(s.board, base, to, placed, 25);
            let hk = hand_kind_of(mv.piece)->0;
            hk.lemma_kind_round_trip();
            mv.piece.lemma_promotion_relations();
        },
        Some(from_sq) => {
            let from = from_sq@;
            let moving = s.board[from]->0;
            moving.kind.lemma_promotion_relations();
            let mid = s.board.update(from, None);
            lemma_count_after_update(s.board, base, from, None, 25);
            lemma_count_after_update(mid, base, to, placed, 25);
            assert(from != to);
            assert(mid[to] == s.board[to]);
            match s.board[to] {
                Some(captured) => {
                    let hk = hand_kind_of(captured.kind.base())->0;
                    hk.lemma_kind_round_trip();
                    captured.kind.lemma_promotion_relations();
                },
                None => {},
            }
        },
    }
    match s.side {
        Color::Black => {
            assert(next.black_hand == hand_after_move(s, mv));
            assert(next.white_hand == s.white_hand);
        },
        Color::White => {
            assert(next.white_hand == hand_after_move(s, mv));
            assert(next.black_hand == s.black_hand);
        },
    }
}

} // verus!
