use vstd::prelude::*;
use crate::attacks::piece_reach;
use crate::board::Square;
use crate::hand::hand_kind_at;
use crate::moves::Move;
use crate::piece::{Color, kind_at, PieceKind};
use crate::rules::{
    board_move_ok, can_go, drop_ok, has_to_promote, legal, may_promote, passes_legality,
    promotion_ok, pseudo_legal,
};
use crate::state::State;

verus! {

/// The move of a piece between two squares.
pub open spec fn board_move(from: int, to: int, piece: PieceKind, promote: bool) -> Move {
    Move { from: Some(Square::at(from)), to: Square::at(to), piece, promote }
}

/// The drop of a piece on a square.
pub open spec fn drop_move(to: int, piece: PieceKind) -> Move {
    Move { from: None, to: Square::at(to), piece, promote: false }
}

/// The moves of a piece from one square to another: the promotion alone
/// where it is forced, else the plain move and after it, where allowed, the
/// promotion.
pub open spec fn target_moves(color: Color, kind: PieceKind, from: int, to: int) -> Seq<Move> {
    if has_to_promote(color, kind, to) {
        seq![board_move(from, to, kind, true)]
    } else if may_promote(color, kind, from, to) {
        seq![board_move(from, to, kind, false), board_move(from, to, kind, true)]
    } else {
        seq![board_move(from, to, kind, false)]
    }
}

/// Whether a piece can go to a square: it attacks the square, and no piece
/// of its own side stands there.
pub open spec fn reachable(s: State, color: Color, kind: PieceKind, from: int, to: int) -> bool {
    0 <= to < 25 && piece_reach(color, kind, from, to, s.occupied()) && !s.occupied_by(
        color,
    ).contains(to)
}

/// The moves of a piece to the squares below `n`, lowest square first.
pub open spec fn moves_from(s: State, color: Color, kind: PieceKind, from: int, n: int) -> Seq<Move>
    decreases n,
{
    if n <= 0 {
        Seq::empty()
    } else {
        moves_from(s, color, kind, from, n - 1) + if reachable(s, color, kind, from, n - 1) {
            target_moves(color, kind, from, n - 1)
        } else {
            Seq::empty()
        }
    }
}

/// The moves of the pieces of one kind on the squares below `n`, lowest
/// square first.
pub open spec fn piece_moves(
    s: State,
    color: Color,
    kind: PieceKind,
    pieces: Set<int>,
    n: int,
) -> Seq<Move>
    decreases n,
{
    if n <= 0 {
        Seq::empty()
    } else {
        piece_moves(s, color, kind, pieces, n - 1) + if pieces.contains(n - 1) {
            moves_from(s, color, kind, n - 1, 25)
        } else {
            Seq::empty()
        }
    }
}

/// The moves of the pieces of the side to move of the first `n` kinds.
pub open spec fn board_moves(s: State, n: int) -> Seq<Move>
    decreases n,
{
    if n <= 0 {
        Seq::empty()
    } else {
        board_moves(s, n - 1) + piece_moves(
            s,
            s.side,
            kind_at(n - 1),
            s.squares_of(s.side, kind_at(n - 1)),
            25,
        )
    }
}

/// The drops of the first `n` hand kinds on a square.
pub open spec fn drops_on(s: State, to: int, n: int) -> Seq<Move>
    decreases n,
{
    if n <= 0 {
        Seq::empty()
    } else {
        drops_on(s, to, n - 1) + if drop_ok(s, drop_move(to, hand_kind_at(n - 1).piece_kind())) {
            seq![drop_move(to, hand_kind_at(n - 1).piece_kind())]
        } else {
            Seq::empty()
        }
    }
}

/// The drops on the empty squares below `n`, lowest square first.
pub open spec fn drop_moves(s: State, n: int) -> Seq<Move>
    decreases n,
{
    if n <= 0 {
        Seq::empty()
    } else {
        drop_moves(s, n - 1) + if s.board[n - 1] is None {
            drops_on(s, n - 1, 5)
        } else {
            Seq::empty()
        }
    }
}

/// The pseudo-legal moves in the order in which they are generated: the
/// moves of the pieces on the board, kind by kind, and then the drops.
pub open spec fn pseudo_legal_list(s: State) -> Seq<Move> {
    board_moves(s, 10) + drop_moves(s, 25)
}

/// Those among the first `n` moves of a list that pass the legality test.
pub open spec fn kept(list: Seq<Move>, s: State, n: int) -> Seq<Move>
    decreases n,
{
    if n <= 0 {
        Seq::empty()
    } else {
        kept(list, s, n - 1) + if passes_legality(s, list[n - 1], true) {
            seq![list[n - 1]]
        } else {
            Seq::empty()
        }
    }
}

/// The legal moves in the order in which they are generated.
pub open spec fn legal_list(s: State) -> Seq<Move> {
    kept(pseudo_legal_list(s), s, pseudo_legal_list(s).len() as int)
}

/// Squares that the piece cannot go to add no moves.
pub proof fn lemma_moves_from_skip(
    s: State,
    color: Color,
    kind: PieceKind,
    from: int,
    lo: int,
    hi: int,
)
    requires
        0 <= lo <= hi,
        forall|t: int| lo <= t < hi ==> !reachable(s, color, kind, from, t),
    ensures
        moves_from(s, color, kind, from, hi) == moves_from(s, color, kind, from, lo),
    decreases hi - lo,
{
    if lo < hi {
        lemma_moves_from_skip(s, color, kind, from, lo, hi - 1);
        assert(!reachable(s, color, kind, from, hi - 1));
        assert(moves_from(s, color, kind, from, hi - 1) + Seq::<Move>::empty() =~= moves_from(
            s,
            color,
            kind,
            from,
            hi - 1,
        ));
    }
}

/// Squares without a piece of the kind add no moves.
pub proof fn lemma_piece_moves_skip(
    s: State,
    color: Color,
    kind: PieceKind,
    pieces: Set<int>,
    lo: int,
    hi: int,
)
    requires
        0 <= lo <= hi,
        forall|t: int| lo <= t < hi ==> !pieces.contains(t),
    ensures
        piece_moves(s, color, kind, pieces, hi) == piece_moves(s, color, kind, pieces, lo),
    decreases hi - lo,
{
    if lo < hi {
        lemma_piece_moves_skip(s, color, kind, pieces, lo, hi - 1);
        assert(!pieces.contains(hi - 1));
        assert(piece_moves(s, color, kind, pieces, hi - 1) + Seq::<Move>::empty() =~= piece_moves(
            s,
            color,
            kind,
            pieces,
            hi - 1,
        ));
    }
}

/// Occupied squares add no drops.
pub proof fn lemma_drop_moves_skip(s: State, lo: int, hi: int)
    requires
        0 <= lo <= hi,
        forall|t: int| lo <= t < hi ==> s.board[t] is Some,
    ensures
        drop_moves(s, hi) == drop_moves(s, lo),
    decreases hi - lo,
{
    if lo < hi {
        lemma_drop_moves_skip(s, lo, hi - 1);
        assert(s.board[hi - 1] is Some);
        assert(drop_moves(s, hi - 1) + Seq::<Move>::empty() =~= drop_moves(s, hi - 1));
    }
}

/// What the moves of a piece from one square to another are.
pub proof fn lemma_target_moves(color: Color, kind: PieceKind, from: int, to: int, mv: Move)
    requires
        0 <= from < 25,
        0 <= to < 25,
    ensures
        target_moves(color, kind, from, to).contains(mv) <==> mv.from is Some && mv.from->0@ == from
            && mv.to@ == to && mv.piece == kind && promotion_ok(color, kind, from, to, mv.promote),
{
    let list = target_moves(color, kind, from, to);
    Square::lemma_at(from);
    Square::lemma_at(to);
    if list.contains(mv) {
        let j = choose|j: int| 0 <= j < list.len() && list[j] == mv;
        assert(list[j] == mv);
    }
    if mv.from is Some && mv.from->0@ == from && mv.to@ == to && mv.piece == kind && promotion_ok(
        color,
        kind,
        from,
        to,
        mv.promote,
    ) {
        mv.to.lemma_at_view();
        mv.from->0.lemma_at_view();
        assert(mv == board_move(from, to, kind, mv.promote));
        if has_to_promote(color, kind, to) {
            assert(list[0] == mv);
        } else if may_promote(color, kind, from, to) {
            if mv.promote {
                assert(list[1] == mv);
            } else {
                assert(list[0] == mv);
            }
        } else {
            assert(list[0] == mv);
        }
    }
}

/// What the moves of a piece to the squares below `n` are.
pub proof fn lemma_moves_from(s: State, color: Color, kind: PieceKind, from: int, n: int, mv: Move)
    requires
        0 <= from < 25,
        0 <= n <= 25,
    ensures
        moves_from(s, color, kind, from, n).contains(mv) <==> mv.from is Some && mv.from->0@ == from
            && mv.piece == kind && mv.to@ < n && reachable(s, color, kind, from, mv.to@)
            && promotion_ok(color, kind, from, mv.to@, mv.promote),
    decreases n,
{
    if n > 0 {
        lemma_moves_from(s, color, kind, from, n - 1, mv);
        let head = moves_from(s, color, kind, from, n - 1);
        let tail = if reachable(s, color, kind, from, n - 1) {
            target_moves(color, kind, from, n - 1)
        } else {
            Seq::<Move>::empty()
        };
        vstd::seq_lib::lemma_seq_concat_contains_all_elements(head, tail, mv);
        lemma_target_moves(color, kind, from, n - 1, mv);
    }
}

/// What the moves of the pieces of one kind on the squares below `n` are.
pub proof fn lemma_piece_moves(
    s: State,
    color: Color,
    kind: PieceKind,
    pieces: Set<int>,
    n: int,
    mv: Move,
)
    requires
        0 <= n <= 25,
    ensures
        piece_moves(s, color, kind, pieces, n).contains(mv) <==> mv.from is Some && 0
            <= mv.from->0@ < n && pieces.contains(mv.from->0@) && mv.piece == kind && can_go(
            s,
            color,
            kind,
            mv.from->0@,
            mv.to@,
            mv.promote,
        ),
    decreases n,
{
    if n > 0 {
        lemma_piece_moves(s, color, kind, pieces, n - 1, mv);
        let head = piece_moves(s, color, kind, pieces, n - 1);
        let tail = if pieces.contains(n - 1) {
            moves_from(s, color, kind, n - 1, 25)
        } else {
            Seq::<Move>::empty()
        };
        vstd::seq_lib::lemma_seq_concat_contains_all_elements(head, tail, mv);
        lemma_moves_from(s, color, kind, n - 1, 25, mv);
    }
}

/// What the moves of the pieces of the first `n` kinds are.
pub proof fn lemma_board_moves(s: State, n: int, mv: Move)
    requires
        0 <= n <= 10,
    ensures
        board_moves(s, n).contains(mv) <==> board_move_ok(s, mv) && mv.piece.spec_index() < n,
    decreases n,
{
    if n > 0 {
        lemma_board_moves(s, n - 1, mv);
        let kind = kind_at(n - 1);
        let head = board_moves(s, n - 1);
        let tail = piece_moves(s, s.side, kind, s.squares_of(s.side, kind), 25);
        vstd::seq_lib::lemma_seq_concat_contains_all_elements(head, tail, mv);
        lemma_piece_moves(s, s.side, kind, s.squares_of(s.side, kind), 25, mv);
        if mv.piece.spec_index() == n - 1 {
            assert(mv.piece == kind);
        }
    }
}

/// What the drops of the first `n` hand kinds on a square are.
pub proof fn lemma_drops_on(s: State, to: int, n: int, mv: Move)
    requires
        0 <= to < 25,
        0 <= n <= 5,
    ensures
        drops_on(s, to, n).contains(mv) <==> drop_ok(s, mv) && mv.to@ == to
            && crate::hand::hand_kind_of(mv.piece)->0.spec_index() < n,
    decreases n,
{
    if n > 0 {
        lemma_drops_on(s, to, n - 1, mv);
        let kind = hand_kind_at(n - 1);
        let m = drop_move(to, kind.piece_kind());
        let head = drops_on(s, to, n - 1);
        let tail = if drop_ok(s, m) {
            seq![m]
        } else {
            Seq::<Move>::empty()
        };
        vstd::seq_lib::lemma_seq_concat_contains_all_elements(head, tail, mv);
        Square::lemma_at(to);
        kind.lemma_kind_round_trip();
        if tail.contains(mv) {
            assert(tail[0] == mv);
        }
        if drop_ok(s, mv) && mv.to@ == to && crate::hand::hand_kind_of(mv.piece)->0.spec_index()
            == n - 1 {
            crate::hand::hand_kind_of(mv.piece)->0.lemma_kind_round_trip();
            mv.to.lemma_at_view();
            assert(mv == m);
            assert(tail[0] == mv);
        }
    }
}

/// What the drops on the empty squares below `n` are.
pub proof fn lemma_drop_moves(s: State, n: int, mv: Move)
    requires
        0 <= n <= 25,
    ensures
        drop_moves(s, n).contains(mv) <==> drop_ok(s, mv) && mv.to@ < n,
    decreases n,
{
    if n > 0 {
        lemma_drop_moves(s, n - 1, mv);
        let head = drop_moves(s, n - 1);
        let tail = if s.board[n - 1] is None {
            drops_on(s, n - 1, 5)
        } else {
            Seq::<Move>::empty()
        };
        vstd::seq_lib::lemma_seq_concat_contains_all_elements(head, tail, mv);
        lemma_drops_on(s, n - 1, 5, mv);
        if drop_ok(s, mv) {
            crate::hand::hand_kind_of(mv.piece)->0.lemma_kind_round_trip();
        }
    }
}

/// The list of pseudo-legal moves holds the pseudo-legal moves, and the
/// list of legal moves the legal moves.
pub proof fn lemma_lists_hold_the_moves(s: State, mv: Move)
    ensures
        pseudo_legal_list(s).contains(mv) <==> pseudo_legal(s, mv),
        legal_list(s).contains(mv) <==> legal(s, mv),
{
    let list = pseudo_legal_list(s);
    lemma_board_moves(s, 10, mv);
    lemma_drop_moves(s, 25, mv);
    vstd::seq_lib::lemma_seq_concat_contains_all_elements(board_moves(s, 10), drop_moves(s, 25), mv);
    lemma_kept(list, s, list.len() as int, mv);
    if list.contains(mv) {
        let j = choose|j: int| 0 <= j < list.len() && list[j] == mv;
        assert(list[j] == mv);
    }
}

/// What is kept of the first `n` moves of a list.
pub proof fn lemma_kept(list: Seq<Move>, s: State, n: int, mv: Move)
    requires
        0 <= n <= list.len(),
    ensures
        kept(list, s, n).contains(mv) <==> passes_legality(s, mv, true) && exists|j: int|
            0 <= j < n && list[j] == mv,
    decreases n,
{
    if n > 0 {
        lemma_kept(list, s, n - 1, mv);
        let head = kept(list, s, n - 1);
        let tail = if passes_legality(s, list[n - 1], true) {
            seq![list[n - 1]]
        } else {
            Seq::<Move>::empty()
        };
        vstd::seq_lib::lemma_seq_concat_contains_all_elements(head, tail, mv);
        if tail.contains(mv) {
            assert(tail[0] == mv);
            assert(list[n - 1] == mv);
        }
        if passes_legality(s, mv, true) && exists|j: int| 0 <= j < n && list[j] == mv {
            let j = choose|j: int| 0 <= j < n && list[j] == mv;
            if j == n - 1 {
                assert(tail[0] == mv);
            } else {
                assert(0 <= j < n - 1 && list[j] == mv);
            }
        }
    }
}

} // verus!
