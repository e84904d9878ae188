use vstd::prelude::*;
use crate::hand::{hand_kind_at, HandPieceKind};
use crate::piece::{Color, Piece, PieceKind};
use crate::zobrist::{hand_key, piece_square_key, side_key};

verus! {

/// What a position is, apart from its bookkeeping: the board, the two
/// hands, the side to move and the ply.
pub struct State {
    /// The 25 squares, by index.
    pub board: Seq<Option<Piece>>,
    /// Black's hand: a count for each of the five hand kinds.
    pub black_hand: Seq<nat>,
    /// White's hand.
    pub white_hand: Seq<nat>,
    pub side: Color,
    pub ply: nat,
}

impl State {
    pub open spec fn hand(self, color: Color) -> Seq<nat> {
        match color {
            Color::Black => self.black_hand,
            Color::White => self.white_hand,
        }
    }

    /// The state with one side's hand replaced.
    pub open spec fn with_hand(self, color: Color, hand: Seq<nat>) -> State {
        match color {
            Color::Black => State { black_hand: hand, ..self },
            Color::White => State { white_hand: hand, ..self },
        }
    }

    /// A state has 25 squares and two hands of five counts, none above six,
    /// and its ply is at least one.
    pub open spec fn well_formed(self) -> bool {
        &&& self.board.len() == 25
        &&& self.black_hand.len() == 5
        &&& self.white_hand.len() == 5
        &&& forall|i: int| 0 <= i < 5 ==> #[trigger] self.black_hand[i] <= 6
        &&& forall|i: int| 0 <= i < 5 ==> #[trigger] self.white_hand[i] <= 6
        &&& self.ply >= 1
    }

    /// The occupied squares.
    pub open spec fn occupied(self) -> Set<int> {
        Set::new(|i: int| 0 <= i < 25 && self.board[i] is Some)
    }

    /// The squares occupied by one side.
    pub open spec fn occupied_by(self, color: Color) -> Set<int> {
        Set::new(|i: int| 0 <= i < 25 && self.board[i] is Some && self.board[i]->0.color == color)
    }

    /// The squares that hold a piece of the given colour and kind.
    pub open spec fn squares_of(self, color: Color, kind: PieceKind) -> Set<int> {
        Set::new(|i: int| 0 <= i < 25 && self.board[i] == Some(Piece { color, kind }))
    }
}

/// The key of what stands on square `i`: nothing for an empty square.
pub open spec fn square_key(cell: Option<Piece>, i: int) -> u64 {
    match cell {
        Some(p) => piece_square_key(p.color, p.kind, i),
        None => 0,
    }
}

/// The keys of the pieces on the first `n` squares, combined by XOR.
pub open spec fn board_key(board: Seq<Option<Piece>>, n: int) -> u64
    decreases n,
{
    if n <= 0 {
        0
    } else {
        board_key(board, n - 1) ^ square_key(board[n - 1], n - 1)
    }
}

/// `acc` combined by XOR with the keys of the counts of the first `n` kinds
/// of a hand.
pub open spec fn hand_fold(acc: u64, hand: Seq<nat>, color: Color, n: int) -> u64
    decreases n,
{
    if n <= 0 {
        acc
    } else {
        hand_fold(acc, hand, color, n - 1) ^ hand_key(
            color,
            hand_kind_at(n - 1),
            hand[n - 1] as int,
        )
    }
}

/// The key of the side to move: White's key, or nothing for Black.
pub open spec fn turn_key(side: Color) -> u64 {
    match side {
        Color::Black => 0,
        Color::White => side_key(),
    }
}

/// The key of a state, computed from scratch: the XOR of the keys of all
/// pieces on the board, of all ten hand counts, and of the side to move.
pub open spec fn state_key(s: State) -> u64 {
    hand_fold(hand_fold(board_key(s.board, 25), s.black_hand, Color::Black, 5), s.white_hand, Color::White, 5)
        ^ turn_key(s.side)
}

pub proof fn lemma_xor(a: u64, b: u64, c: u64)
    by (bit_vector)
    ensures
        a ^ 0 == a,
        0 ^ a == a,
        a ^ a == 0,
        a ^ b == b ^ a,
        (a ^ b) ^ b == a,
        (a ^ b) ^ c == (a ^ c) ^ b,
        (a ^ b) ^ c == a ^ (b ^ c),
{
}

/// Changing one square changes the board's key by the keys of what stood
/// there and of what stands there now.
pub proof fn lemma_board_key_update(board: Seq<Option<Piece>>, i: int, cell: Option<Piece>, n: int)
    requires
        0 <= i < board.len(),
        0 <= n <= board.len(),
    ensures
        board_key(board.update(i, cell), n) == if i < n {
            board_key(board, n) ^ square_key(board[i], i) ^ square_key(cell, i)
        } else {
            board_key(board, n)
        },
    decreases n,
{
    if n > 0 {
        lemma_board_key_update(board, i, cell, n - 1);
        let prev = board_key(board, n - 1);
        let old_i = square_key(board[i], i);
        let new_i = square_key(cell, i);
        if i == n - 1 {
            lemma_xor(prev, old_i, new_i);
            lemma_xor(prev ^ old_i, old_i, new_i);
        } else if i < n - 1 {
            let last = square_key(board[n - 1], n - 1);
            lemma_xor(prev ^ old_i, new_i, last);
            lemma_xor(prev, old_i, last);
        }
    }
}

/// A term combined into the start of a hand fold can be combined in at its end.
pub proof fn lemma_hand_fold_shift(acc: u64, d: u64, hand: Seq<nat>, color: Color, n: int)
    ensures
        hand_fold(acc ^ d, hand, color, n) == hand_fold(acc, hand, color, n) ^ d,
    decreases n,
{
    if n > 0 {
        lemma_hand_fold_shift(acc, d, hand, color, n - 1);
        let prev = hand_fold(acc, hand, color, n - 1);
        let last = hand_key(color, hand_kind_at(n - 1), hand[n - 1] as int);
        lemma_xor(prev, d, last);
    }
}

/// Changing one count changes a hand fold by the keys of the old and the new count.
pub proof fn lemma_hand_fold_update(
    acc: u64,
    hand: Seq<nat>,
    color: Color,
    j: int,
    count: nat,
    n: int,
)
    requires
        0 <= j < hand.len(),
        0 <= n <= hand.len(),
    ensures
        hand_fold(acc, hand.update(j, count), color, n) == if j < n {
            hand_fold(acc, hand, color, n) ^ hand_key(color, hand_kind_at(j), hand[j] as int)
                ^ hand_key(color, hand_kind_at(j), count as int)
        } else {
            hand_fold(acc, hand, color, n)
        },
    decreases n,
{
    if n > 0 {
        lemma_hand_fold_update(acc, hand, color, j, count, n - 1);
        let prev = hand_fold(acc, hand, color, n - 1);
        let old_j = hand_key(color, hand_kind_at(j), hand[j] as int);
        let new_j = hand_key(color, hand_kind_at(j), count as int);
        if j == n - 1 {
            lemma_xor(prev, old_j, new_j);
            lemma_xor(prev ^ old_j, old_j, new_j);
        } else if j < n - 1 {
            let last = hand_key(color, hand_kind_at(n - 1), hand[n - 1] as int);
            lemma_xor(prev ^ old_j, new_j, last);
            lemma_xor(prev, old_j, last);
        }
    }
}

/// Putting `cell` on square `i` changes the state's key by the key of what
/// stood there and the key of `cell`.
pub proof fn lemma_key_after_square(s: State, i: int, cell: Option<Piece>)
    requires
        s.well_formed(),
        0 <= i < 25,
    ensures
        state_key(State { board: s.board.update(i, cell), ..s }) == state_key(s) ^ square_key(
            s.board[i],
            i,
        ) ^ square_key(cell, i),
{
    let d1 = square_key(s.board[i], i);
    let d2 = square_key(cell, i);
    let b0 = board_key(s.board, 25);
    lemma_board_key_update(s.board, i, cell, 25);
    lemma_hand_fold_shift(b0 ^ d1, d2, s.black_hand, Color::Black, 5);
    lemma_hand_fold_shift(b0, d1, s.black_hand, Color::Black, 5);
    let h1 = hand_fold(b0, s.black_hand, Color::Black, 5);
    lemma_hand_fold_shift(h1 ^ d1, d2, s.white_hand, Color::White, 5);
    lemma_hand_fold_shift(h1, d1, s.white_hand, Color::White, 5);
    let h2 = hand_fold(h1, s.white_hand, Color::White, 5);
    let t = turn_key(s.side);
    lemma_xor(h2, d1, t);
    lemma_xor(h2 ^ t, d1, d2);
    lemma_xor(h2 ^ d1, d2, t);
}

/// Changing the count of one kind in one hand changes the state's key by
/// the keys of the old and of the new count.
pub proof fn lemma_key_after_hand(s: State, color: Color, kind: HandPieceKind, count: nat)
    requires
        s.well_formed(),
    ensures
        state_key(s.with_hand(color, s.hand(color).update(kind.spec_index(), count))) == state_key(
            s,
        ) ^ hand_key(color, kind, s.hand(color)[kind.spec_index()] as int) ^ hand_key(
            color,
            kind,
            count as int,
        ),
{
    let j = kind.spec_index();
    let d1 = hand_key(color, kind, s.hand(color)[j] as int);
    let d2 = hand_key(color, kind, count as int);
    let b0 = board_key(s.board, 25);
    let t = turn_key(s.side);
    match color {
        Color::Black => {
            lemma_hand_fold_update(b0, s.black_hand, Color::Black, j, count, 5);
            let h1 = hand_fold(b0, s.black_hand, Color::Black, 5);
            lemma_hand_fold_shift(h1 ^ d1, d2, s.white_hand, Color::White, 5);
            lemma_hand_fold_shift(h1, d1, s.white_hand, Color::White, 5);
            let h2 = hand_fold(h1, s.white_hand, Color::White, 5);
            lemma_xor(h2, d1, t);
            lemma_xor(h2 ^ t, d1, d2);
            lemma_xor(h2 ^ d1, d2, t);
        },
        Color::White => {
            let h1 = hand_fold(b0, s.black_hand, Color::Black, 5);
            lemma_hand_fold_update(h1, s.white_hand, Color::White, j, count, 5);
            let h2 = hand_fold(h1, s.white_hand, Color::White, 5);
            lemma_xor(h2, d1, t);
            lemma_xor(h2 ^ t, d1, d2);
            lemma_xor(h2 ^ d1, d2, t);
        },
    }
}

/// Passing the move to the other side changes the state's key by the side key.
pub proof fn lemma_key_after_turn(s: State)
    ensures
        state_key(State { side: s.side.opponent(), ..s }) == state_key(s) ^ side_key(),
{
    let h2 = hand_fold(
        hand_fold(board_key(s.board, 25), s.black_hand, Color::Black, 5),
        s.white_hand,
        Color::White,
        5,
    );
    lemma_xor(h2, side_key(), side_key());
}

} // verus!
