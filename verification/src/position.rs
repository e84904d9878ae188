use vstd::prelude::*;
pub use crate::sfen::INITIAL_SFEN;
use crate::bitboard::Bitboard;
use crate::board::Square;
use crate::hand::{Hand, hand_kind_at, HandPieceKind};
use crate::moves::Move;
use crate::piece::{Color, color_at, kind_at, Piece, PieceKind};
use crate::rules::{after_move, board_after_move, hand_after_move, move_fault};
use crate::state::{
    board_key, hand_fold, lemma_key_after_hand, lemma_key_after_square, lemma_key_after_turn,
    lemma_xor, square_key, State, state_key,
};
use crate::zobrist::{hand_key, ZobristTables};

verus! {

/// What went wrong with a position text or a move.
#[derive(Debug)]
pub enum PositionError {
    /// The text does not have the shape of a position.
    Format(&'static str),
    /// The text or the move asks for something impossible.
    Message(String),
}

impl PositionError {
    /// The error's message.
    pub open spec fn text(self) -> Seq<char> {
        match self {
            PositionError::Format(msg) => msg@,
            PositionError::Message(msg) => msg@,
        }
    }

    pub fn message(msg: &str) -> (e: PositionError)
        ensures
            e is Message,
            e.text() == msg@,
    {
        PositionError::Message(String::from_str(msg))
    }

    /// The error's message, as a text of its own.
    pub fn to_text(&self) -> (s: String)
        ensures
            s@ == self.text(),
    {
        match self {
            PositionError::Format(msg) => String::from_str(msg),
            PositionError::Message(msg) => msg.clone(),
        }
    }
}

/// How often `key` occurs in `history`.
pub open spec fn occurrences(history: Seq<u64>, key: u64) -> nat
    decreases history.len(),
{
    if history.len() == 0 {
        0
    } else {
        occurrences(history.drop_last(), key) + if history.last() == key {
            1nat
        } else {
            0nat
        }
    }
}

/// The state of an empty board: no pieces, empty hands, Black to move at ply 1.
pub open spec fn empty_state() -> State {
    State {
        board: Seq::new(25, |i: int| None::<Piece>),
        black_hand: Seq::new(5, |i: int| 0nat),
        white_hand: Seq::new(5, |i: int| 0nat),
        side: Color::Black,
        ply: 1,
    }
}

/// A game position: the board, the hands, the side to move and the ply,
/// with a set of squares for every colour and kind, the position's key, and
/// the keys of the positions since the last reset.
pub struct Position {
    board: [Option<Piece>; 25],
    bitboards: [[Bitboard; 10]; 2],
    occupancy: [Bitboard; 2],
    hands: [Hand; 2],
    side_to_move: Color,
    ply: u32,
    hash: u64,
    history: Vec<u64>,
    keys: ZobristTables,
}

impl View for Position {
    type V = State;

    closed spec fn view(&self) -> State {
        State {
            board: self.board@,
            black_hand: self.hands[0]@,
            white_hand: self.hands[1]@,
            side: self.side_to_move,
            ply: self.ply as nat,
        }
    }
}

impl Clone for Position {
    fn clone(&self) -> (r: Position)
        ensures
            r@ == self@,
            r.key() == self.key(),
            r.history_view() == self.history_view(),
            self.wf() ==> r.wf(),
    {
        let history = self.history.clone();
        assert(history@ =~= self.history@);
        Position {
            board: self.board,
            bitboards: self.bitboards,
            occupancy: self.occupancy,
            hands: self.hands,
            side_to_move: self.side_to_move,
            ply: self.ply,
            hash: self.hash,
            history,
            keys: self.keys,
        }
    }
}

impl Default for Position {
    fn default() -> (p: Position)
        ensures
            p.wf(),
            p@ == empty_state(),
            p.history_view() == Seq::<u64>::empty(),
    {
        Position::empty()
    }
}

impl Position {
    /// The sets of squares agree with the board: a square is in the set of a
    /// colour and kind exactly when it holds that piece, and in a colour's
    /// occupancy exactly when it holds a piece of that colour.
    pub closed spec fn sets_agree(&self) -> bool {
        &&& forall|c: int, k: int, i: int|
            0 <= c < 2 && 0 <= k < 10 && 0 <= i < 25 ==> (#[trigger] self.bitboards[c][k]@.contains(
                i,
            ) <==> self.board[i] == Some(Piece { color: color_at(c), kind: kind_at(k) }))
        &&& forall|c: int, i: int|
            0 <= c < 2 && 0 <= i < 25 ==> (#[trigger] self.occupancy[c]@.contains(i) <==> (
            self.board[i] is Some && self.board[i]->0.color == color_at(c)))
    }

    /// The parts of the position are valid on their own.
    pub closed spec fn parts_valid(&self) -> bool {
        &&& forall|c: int, k: int| 0 <= c < 2 && 0 <= k < 10 ==> (#[trigger] self.bitboards[c][k]).masked()
        &&& forall|c: int| 0 <= c < 2 ==> (#[trigger] self.occupancy[c]).masked()
        &&& forall|c: int| 0 <= c < 2 ==> (#[trigger] self.hands[c]).bounded()
        &&& self.keys.generated()
        &&& self.ply >= 1
    }

    /// The position is consistent: its sets of squares agree with its board,
    /// and its key is the key of its state computed from scratch.
    pub closed spec fn wf(&self) -> bool {
        &&& self.parts_valid()
        &&& self.sets_agree()
        &&& self.hash == state_key(self@)
    }

    /// The position's key.
    pub closed spec fn key(&self) -> u64 {
        self.hash
    }

    /// The keys recorded since the last reset, oldest first.
    pub closed spec fn history_view(&self) -> Seq<u64> {
        self.history@
    }

    /// The hand of a side.
    pub closed spec fn hand_of(&self, color: Color) -> Hand {
        self.hands[color.spec_index()]
    }

    /// The position as a search sees it: its state and its history.
    pub open spec fn node(&self) -> crate::model::Node {
        crate::model::Node { state: self@, history: self.history_view() }
    }

    /// The state of a consistent position is well formed, and its key is the
    /// key of its state.
    pub proof fn lemma_wf(&self)
        requires
            self.wf(),
        ensures
            self@.well_formed(),
            self.key() == state_key(self@),
            self@.ply <= u32::MAX,
    {
        self.hands[0].lemma_view();
        self.hands[1].lemma_view();
    }

    /// The empty position: no pieces, empty hands, Black to move at ply 1,
    /// and no history.
    pub fn empty() -> (p: Position)
        ensures
            p.wf(),
            p@ == empty_state(),
            p.history_view() == Seq::<u64>::empty(),
    {
        let mut p = Position {
            board: [None;25],
            bitboards: [[Bitboard::empty();10];2],
            occupancy: [Bitboard::empty();2],
            hands: [Hand::default(), Hand::default()],
            side_to_move: Color::Black,
            ply: 1,
            hash: 0,
            history: Vec::new(),
            keys: ZobristTables::generate(),
        };
        proof {
            assert(p@.board =~= empty_state().board);
            assert(p@.black_hand =~= empty_state().black_hand);
            assert(p@.white_hand =~= empty_state().white_hand);
        }
        p.hash = p.scratch_key();
        p
    }

    /// The key of the position's state, computed from scratch.
    fn scratch_key(&self) -> (key: u64)
        requires
            self.parts_valid(),
        ensures
            key == state_key(self@),
    {
        let mut key: u64 = 0;
        let mut idx: u8 = 0;
        while idx < 25
            invariant
                idx <= 25,
                key == board_key(self.board@, idx as int),
            decreases 25 - idx,
        {
            match self.board[idx as usize] {
                Some(piece) => {
                    let square = Square::from_index(idx);
                    key = key ^ self.keys.piece_square(piece.color, piece.kind, square);
                },
                None => {
                    proof {
                        lemma_xor(key, 0, 0);
                    }
                },
            }
            idx += 1;
        }
        let kinds = HandPieceKind::all();
        let mut c: usize = 0;
        while c < 2
            invariant
                c <= 2,
                forall|j: int| 0 <= j < 5 ==> #[trigger] kinds[j] == hand_kind_at(j),
                c == 0 ==> key == board_key(self.board@, 25),
                c == 1 ==> key == hand_fold(
                    board_key(self.board@, 25),
                    self.hands[0]@,
                    Color::Black,
                    5,
                ),
                c == 2 ==> key == hand_fold(
                    hand_fold(board_key(self.board@, 25), self.hands[0]@, Color::Black, 5),
                    self.hands[1]@,
                    Color::White,
                    5,
                ),
            decreases 2 - c,
        {
            let color = if c == 0 {
                Color::Black
            } else {
                Color::White
            };
            let ghost start = key;
            let mut k: usize = 0;
            while k < 5
                invariant
                    k <= 5,
                    c < 2,
                    color == color_at(c as int),
                    forall|j: int| 0 <= j < 5 ==> #[trigger] kinds[j] == hand_kind_at(j),
                    key == hand_fold(start, self.hands[c as int]@, color, k as int),
                decreases 5 - k,
            {
                let count = self.hands[c].count(kinds[k]);
                key = key ^ self.keys.hand(color, kinds[k], count as usize);
                k += 1;
            }
            c += 1;
        }
        match self.side_to_move {
            Color::White => {
                key = key ^ self.keys.side_to_move();
            },
            Color::Black => {
                proof {
                    lemma_xor(key, 0, 0);
                }
            },
        }
        key
    }

    pub fn side_to_move(&self) -> (c: Color)
        ensures
            c == self@.side,
    {
        self.side_to_move
    }

    /// Gives the move to `color`; the key follows.
    pub fn set_side_to_move(&mut self, color: Color)
        requires
            old(self).wf(),
        ensures
            final(self).wf(),
            final(self)@ == (State { side: color, ..old(self)@ }),
            final(self).history_view() == old(self).history_view(),
    {
        if color != self.side_to_move {
            proof {
                self.lemma_wf();
                lemma_key_after_turn(self@);
            }
            self.hash = self.hash ^ self.keys.side_to_move();
            self.side_to_move = color;
        }
    }

    pub fn ply(&self) -> (n: u32)
        ensures
            n == self@.ply,
    {
        self.ply
    }

    /// Sets the ply; zero counts as one.
    pub fn set_ply(&mut self, ply: u32)
        requires
            old(self).wf(),
        ensures
            final(self).wf(),
            final(self)@ == (State {
                ply: if ply == 0 {
                    1nat
                } else {
                    ply as nat
                },
                ..old(self)@
            }),
            final(self).history_view() == old(self).history_view(),
            final(self).key() == old(self).key(),
    {
        self.ply = if ply == 0 {
            1
        } else {
            ply
        };
    }

    pub fn piece_at(&self, square: Square) -> (r: Option<Piece>)
        ensures
            r == self@.board[square@],
            0 <= square@ < 25,
    {
        self.board[square.index() as usize]
    }

    /// Puts a piece on an empty square; an occupied square is an error and
    /// leaves the position as it was.
    pub fn set_piece(&mut self, square: Square, piece: Piece) -> (r: Result<(), PositionError>)
        requires
            old(self).wf(),
        ensures
            final(self).wf(),
            final(self).history_view() == old(self).history_view(),
            r is Err <==> old(self)@.board[square@] is Some,
            r is Err ==> *final(self) == *old(self) && r->Err_0 is Message && r->Err_0.text()
                == "square "@ + crate::board::coord_text(square@) + " is already occupied"@,
            r is Ok ==> final(self)@ == (State {
                board: old(self)@.board.update(square@, Some(piece)),
                ..old(self)@
            }),
    {
        let i = square.index() as usize;
        if self.board[i].is_some() {
            let mut message = String::from_str("square ");
            message.append(square.to_coord().as_str());
            message.append(" is already occupied");
            return Err(PositionError::Message(message));
        }
        let c = piece.color.index();
        let k = piece.kind.index();
        proof {
            self.lemma_wf();
            lemma_key_after_square(self@, i as int, Some(piece));
            lemma_xor(self.hash, 0, 0);
        }
        self.board[i] = Some(piece);
        let mut bb = self.bitboards[c][k];
        bb.insert(square);
        self.bitboards[c][k] = bb;
        let mut occ = self.occupancy[c];
        occ.insert(square);
        self.occupancy[c] = occ;
        self.hash = self.hash ^ self.keys.piece_square(piece.color, piece.kind, square);
        proof {
            assert(self@.board =~= old(self)@.board.update(square@, Some(piece)));
            assert(self@ == (State {
                board: old(self)@.board.update(square@, Some(piece)),
                ..old(self)@
            }));
            assert(self.sets_agree()) by {
                assert forall|c2: int, k2: int, j: int|
                    0 <= c2 < 2 && 0 <= k2 < 10 && 0 <= j < 25 implies (
                #[trigger] self.bitboards[c2][k2]@.contains(j) <==> self.board[j] == Some(
                    Piece { color: color_at(c2), kind: kind_at(k2) },
                )) by {
                    assert(old(self).bitboards[c2][k2]@.contains(j) <==> old(self).board[j]
                        == Some(Piece { color: color_at(c2), kind: kind_at(k2) }));
                }
                assert forall|c2: int, j: int| 0 <= c2 < 2 && 0 <= j < 25 implies (
                #[trigger] self.occupancy[c2]@.contains(j) <==> (self.board[j] is Some
                    && self.board[j]->0.color == color_at(c2))) by {
                    assert(old(self).occupancy[c2]@.contains(j) <==> (old(self).board[j] is Some
                        && old(self).board[j]->0.color == color_at(c2)));
                }
            }
        }
        Ok(())
    }

    /// Takes the piece off a square and returns it, if there is one.
    pub fn remove_piece(&mut self, square: Square) -> (r: Option<Piece>)
        requires
            old(self).wf(),
        ensures
            final(self).wf(),
            final(self).history_view() == old(self).history_view(),
            r == old(self)@.board[square@],
            final(self)@ == (State {
                board: old(self)@.board.update(square@, None),
                ..old(self)@
            }),
    {
        let i = square.index() as usize;
        match self.board[i] {
            Some(piece) => {
                let c = piece.color.index();
                let k = piece.kind.index();
                proof {
                    self.lemma_wf();
                    lemma_key_after_square(self@, i as int, None);
                    lemma_xor(
                        self.hash ^ square_key(Some(piece), i as int),
                        0,
                        0,
                    );
                }
                self.hash = self.hash ^ self.keys.piece_square(piece.color, piece.kind, square);
                self.board[i] = None;
                let mut bb = self.bitboards[c][k];
                bb.remove(square);
                self.bitboards[c][k] = bb;
                let mut occ = self.occupancy[c];
                occ.remove(square);
                self.occupancy[c] = occ;
                proof {
                    assert(self@.board =~= old(self)@.board.update(square@, None));
                    assert(self@ == (State {
                        board: old(self)@.board.update(square@, None),
                        ..old(self)@
                    }));
                    assert(self.sets_agree()) by {
                        assert forall|c2: int, k2: int, j: int|
                            0 <= c2 < 2 && 0 <= k2 < 10 && 0 <= j < 25 implies (
                        #[trigger] self.bitboards[c2][k2]@.contains(j) <==> self.board[j] == Some(
                            Piece { color: color_at(c2), kind: kind_at(k2) },
                        )) by {
                            assert(old(self).bitboards[c2][k2]@.contains(j) <==> old(self).board[j]
                                == Some(Piece { color: color_at(c2), kind: kind_at(k2) }));
                        }
                        assert forall|c2: int, j: int| 0 <= c2 < 2 && 0 <= j < 25 implies (
                        #[trigger] self.occupancy[c2]@.contains(j) <==> (self.board[j] is Some
                            && self.board[j]->0.color == color_at(c2))) by {
                            assert(old(self).occupancy[c2]@.contains(j) <==> (old(self).board[j]
                                is Some && old(self).board[j]->0.color == color_at(c2)));
                        }
                    }
                }
                Some(piece)
            },
            None => {
                proof {
                    assert(self@.board =~= old(self)@.board.update(square@, None));
                }
                None
            },
        }
    }

    /// The squares that hold a piece of the given colour and kind.
    pub fn pieces(&self, color: Color, kind: PieceKind) -> (b: Bitboard)
        requires
            self.wf(),
        ensures
            b@ == self@.squares_of(color, kind),
    {
        let b = self.bitboards[color.index()][kind.index()];
        proof {
            b.lemma_view();
            assert forall|i: int| b@.contains(i) <==> self@.squares_of(color, kind).contains(i) by {
                if 0 <= i < 25 {
                    assert(self.bitboards[color.spec_index()][kind.spec_index()]@.contains(i)
                        <==> self.board[i] == Some(
                        Piece {
                            color: color_at(color.spec_index()),
                            kind: kind_at(kind.spec_index()),
                        },
                    ));
                }
            }
            assert(b@ =~= self@.squares_of(color, kind));
        }
        b
    }

    /// The squares that hold a piece of the given colour.
    pub fn occupancy(&self, color: Color) -> (b: Bitboard)
        requires
            self.wf(),
        ensures
            b@ == self@.occupied_by(color),
    {
        let b = self.occupancy[color.index()];
        proof {
            b.lemma_view();
            assert forall|i: int| b@.contains(i) <==> self@.occupied_by(color).contains(i) by {
                if 0 <= i < 25 {
                    assert(self.occupancy[color.spec_index()]@.contains(i) <==> (
                    self.board[i] is Some && self.board[i]->0.color == color_at(
                        color.spec_index(),
                    )));
                }
            }
            assert(b@ =~= self@.occupied_by(color));
        }
        b
    }

    /// The occupied squares.
    pub fn occupancy_all(&self) -> (b: Bitboard)
        requires
            self.wf(),
        ensures
            b@ == self@.occupied(),
    {
        let b = self.occupancy(Color::Black).union(self.occupancy(Color::White));
        assert(b@ =~= self@.occupied());
        b
    }

    /// The square of a side's king: the lowest one, should there be several.
    pub fn king_square(&self, color: Color) -> (r: Option<Square>)
        requires
            self.wf(),
        ensures
            r is Some <==> crate::rules::king_square(self@, color) is Some,
            r is Some ==> r->0@ == crate::rules::king_square(self@, color)->0,
    {
        let mut kings = self.pieces(color, PieceKind::King);
        let r = kings.pop();
        proof {
            match r {
                Some(sq) => {
                    assert(crate::rules::is_king_square(self@, color, sq@));
                    let k = crate::rules::king_square(self@, color)->0;
                    assert(crate::rules::is_king_square(self@, color, k));
                },
                None => {
                    assert forall|i: int| !crate::rules::is_king_square(self@, color, i) by {
                        assert(!self@.squares_of(color, PieceKind::King).contains(i));
                    }
                },
            }
        }
        r
    }

    pub fn hand(&self, color: Color) -> (h: &Hand)
        requires
            self.wf(),
        ensures
            h@ == self@.hand(color),
            h.bounded(),
    {
        &self.hands[color.index()]
    }

    /// The hand of a side, to be changed. The key does not follow such a
    /// change: the position is consistent again once its key has been
    /// recomputed.
    pub fn hand_mut(&mut self, color: Color) -> (h: &mut Hand)
        requires
            old(self).wf(),
        ensures
            *h == old(self).hand_of(color),
            h@ == old(self)@.hand(color),
            h.bounded(),
            final(h).bounded() ==> final(self).parts_valid() && final(self).sets_agree(),
            final(self)@ == old(self)@.with_hand(color, final(h)@),
            final(self).key() == old(self).key(),
            final(self).history_view() == old(self).history_view(),
    {
        &mut self.hands[color.index()]
    }

    /// Empties the board and the hands, gives the move to Black at ply 1, and
    /// starts the history anew with the key of the empty position.
    pub fn clear(&mut self)
        ensures
            final(self).wf(),
            final(self)@ == empty_state(),
            final(self).history_view() == seq![final(self).key()],
    {
        let fresh = Position::empty();
        let key = fresh.hash;
        *self = fresh;
        self.history.push(key);
    }

    /// The key of the position computed from scratch, which is the key
    /// that a consistent position holds.
    pub fn recomputed_key(&self) -> (key: u64)
        requires
            self.parts_valid(),
        ensures
            key == state_key(self@),
            self.wf() ==> key == self.key(),
    {
        self.scratch_key()
    }

    pub fn zobrist_key(&self) -> (key: u64)
        ensures
            key == self.key(),
            self.wf() ==> key == state_key(self@),
    {
        self.hash
    }

    /// How often the key recorded last occurs in the history.
    pub fn current_repetition_count(&self) -> (n: usize)
        ensures
            n == if self.history_view().len() == 0 {
                0
            } else {
                occurrences(self.history_view(), self.history_view().last())
            },
    {
        if self.history.len() == 0 {
            0
        } else {
            let last = self.history[self.history.len() - 1];
            self.repetition_count(last)
        }
    }

    /// How often `key` occurs in the history.
    pub fn repetition_count(&self, key: u64) -> (n: usize)
        ensures
            n == occurrences(self.history_view(), key),
    {
        let mut n: usize = 0;
        let mut i: usize = 0;
        while i < self.history.len()
            invariant
                i <= self.history.len(),
                n <= i,
                n == occurrences(self.history@.subrange(0, i as int), key),
            decreases self.history.len() - i,
        {
            proof {
                assert(self.history@.subrange(0, i as int + 1).drop_last()
                    =~= self.history@.subrange(0, i as int));
            }
            if self.history[i] == key {
                n += 1;
            }
            i += 1;
        }
        proof {
            assert(self.history@.subrange(0, self.history@.len() as int) =~= self.history@);
        }
        n
    }

    fn switch_side(&mut self)
        requires
            old(self).wf(),
        ensures
            final(self).wf(),
            final(self)@ == (State { side: old(self)@.side.opponent(), ..old(self)@ }),
            final(self).history_view() == old(self).history_view(),
    {
        proof {
            self.lemma_wf();
            lemma_key_after_turn(self@);
        }
        self.hash = self.hash ^ self.keys.side_to_move();
        self.side_to_move = self.side_to_move.opponent();
    }

    /// Replaces in the key the key of the old count of a kind in hand by the
    /// key of the new count.
    fn update_hand_hash(&mut self, color: Color, kind: HandPieceKind, old_count: u8, new_count: u8)
        requires
            old(self).keys.generated(),
        ensures
            final(self).hash == old(self).hash ^ hand_key(color, kind, old_count as int) ^ hand_key(
                color,
                kind,
                new_count as int,
            ),
            final(self).board == old(self).board,
            final(self).bitboards == old(self).bitboards,
            final(self).occupancy == old(self).occupancy,
            final(self).hands == old(self).hands,
            final(self).side_to_move == old(self).side_to_move,
            final(self).ply == old(self).ply,
            final(self).history == old(self).history,
            final(self).keys == old(self).keys,
    {
        self.hash = self.hash ^ self.keys.hand(color, kind, old_count as usize);
        self.hash = self.hash ^ self.keys.hand(color, kind, new_count as usize);
    }

    /// Adds one piece of a kind to a side's hand, or takes one away; the key
    /// follows.
    fn adjust_hand(&mut self, color: Color, kind: HandPieceKind, gain: bool)
        requires
            old(self).wf(),
        ensures
            final(self).wf(),
            final(self).history_view() == old(self).history_view(),
            final(self)@ == old(self)@.with_hand(
                color,
                old(self)@.hand(color).update(
                    kind.spec_index(),
                    if gain {
                        crate::rules::count_after_capture(
                            old(self)@.hand(color)[kind.spec_index()],
                        )
                    } else if old(self)@.hand(color)[kind.spec_index()] == 0 {
                        0nat
                    } else {
                        (old(self)@.hand(color)[kind.spec_index()] - 1) as nat
                    },
                ),
            ),
    {
        let c = color.index();
        let mut hand = self.hands[c];
        let old_count = hand.count(kind);
        let new_count = if gain {
            hand.add(kind, 1)
        } else {
            hand.remove(kind, 1)
        };
        proof {
            self.lemma_wf();
            lemma_key_after_hand(self@, color, kind, new_count as nat);
        }
        self.hands[c] = hand;
        self.update_hand_hash(color, kind, old_count, new_count);
        proof {
            assert(self.sets_agree());
        }
    }

    /// Adds `amount` pieces of a kind to a side's hand, stopping at the
    /// maximum of six; the key follows.
    pub(crate) fn put_in_hand(&mut self, color: Color, kind: HandPieceKind, amount: u8)
        requires
            old(self).wf(),
        ensures
            final(self).wf(),
            final(self).history_view() == old(self).history_view(),
            final(self)@ == old(self)@.with_hand(
                color,
                old(self)@.hand(color).update(
                    kind.spec_index(),
                    if old(self)@.hand(color)[kind.spec_index()] + amount > 6 {
                        6nat
                    } else {
                        (old(self)@.hand(color)[kind.spec_index()] + amount) as nat
                    },
                ),
            ),
    {
        let c = color.index();
        let mut hand = self.hands[c];
        let old_count = hand.count(kind);
        let new_count = hand.add(kind, amount);
        proof {
            self.lemma_wf();
            lemma_key_after_hand(self@, color, kind, new_count as nat);
        }
        self.hands[c] = hand;
        self.update_hand_hash(color, kind, old_count, new_count);
        proof {
            assert(self.sets_agree());
        }
    }

    /// Computes the key from scratch and starts the history anew with it.
    pub fn recompute_hash(&mut self)
        requires
            old(self).parts_valid(),
            old(self).sets_agree(),
        ensures
            final(self).wf(),
            final(self)@ == old(self)@,
            final(self).history_view() == seq![final(self).key()],
    {
        self.hash = self.scratch_key();
        self.history = Vec::new();
        self.history.push(self.hash);
    }

    /// A consistent position has valid parts that agree.
    pub proof fn lemma_wf_parts(&self)
        requires
            self.wf(),
        ensures
            self.parts_valid(),
            self.sets_agree(),
    {
    }

    fn apply_move_internal(&mut self, mv: &Move) -> (r: Result<(), PositionError>)
        requires
            old(self).wf(),
        ensures
            final(self).wf(),
            r is Err <==> move_fault(old(self)@, *mv) is Some,
            r is Err ==> *final(self) == *old(self) && r->Err_0 is Message && r->Err_0.text()
                == move_fault(old(self)@, *mv)->0.text(),
            r is Ok ==> final(self)@ == after_move(old(self)@, *mv) && final(self).history_view()
                == old(self).history_view().push(final(self).key()),
    {
        let color = self.side_to_move;
        proof {
            self.lemma_wf();
        }
        match mv.from {
            None => {
                let hand_kind = match HandPieceKind::from_piece_kind(mv.piece) {
                    Some(hk) => hk,
                    None => {
                        return Err(PositionError::message("cannot drop this piece"));
                    },
                };
                if self.hands[color.index()].count(hand_kind) == 0 {
                    return Err(PositionError::message("no piece in hand for drop"));
                }
                if self.piece_at(mv.to).is_some() {
                    return Err(PositionError::message("drop target not empty"));
                }
                self.adjust_hand(color, hand_kind, false);
                let placed = self.set_piece(mv.to, Piece::new(color, mv.piece));
                assert(placed is Ok);
            },
            Some(from) => {
                let moving_piece = match self.piece_at(from) {
                    Some(p) => p,
                    None => {
                        return Err(PositionError::message("no piece on from square"));
                    },
                };
                if moving_piece.color != color {
                    return Err(PositionError::message("moving opponent piece"));
                }
                let mut resulting_kind = moving_piece.kind;
                if mv.promote {
                    resulting_kind = match resulting_kind.promote() {
                        Some(k) => k,
                        None => {
                            return Err(PositionError::message("piece cannot promote"));
                        },
                    };
                }
                match self.piece_at(mv.to) {
                    Some(target_piece) => {
                        if target_piece.color == color {
                            return Err(PositionError::message("cannot capture own piece"));
                        }
                        self.remove_piece(mv.to);
                        match HandPieceKind::from_piece_kind(target_piece.kind.base()) {
                            Some(hand_kind) => {
                                self.adjust_hand(color, hand_kind, true);
                            },
                            None => {},
                        }
                    },
                    None => {},
                }
                self.remove_piece(from);
                let placed = self.set_piece(mv.to, Piece::new(color, resulting_kind));
                assert(placed is Ok);
            },
        }
        self.switch_side();
        if self.ply < u32::MAX {
            self.ply = self.ply + 1;
        }
        self.history.push(self.hash);
        proof {
            assert(self@.board =~= board_after_move(old(self)@, *mv));
            assert(self@.hand(color) =~= hand_after_move(old(self)@, *mv));
            assert(self@.hand(color.opponent()) =~= old(self)@.hand(color.opponent()));
            assert(self@ == after_move(old(self)@, *mv));
        }
        Ok(())
    }

    /// The position after a move. A move that cannot be applied is an error:
    /// a drop of a kind that cannot be dropped, from an empty hand or onto an
    /// occupied square; a move from an empty square, of an opponent's piece,
    /// with a promotion that the kind does not have, or onto an own piece.
    pub fn play_move(&self, mv: &Move) -> (r: Result<Position, PositionError>)
        requires
            self.wf(),
        ensures
            r is Err <==> move_fault(self@, *mv) is Some,
            r is Err ==> r->Err_0 is Message && r->Err_0.text() == move_fault(self@, *mv)->0.text(),
            r is Ok ==> r->Ok_0.wf() && r->Ok_0@ == after_move(self@, *mv)
                && r->Ok_0.history_view() == self.history_view().push(r->Ok_0.key()),
    {
        let mut next = self.clone();
        match next.apply_move_internal(mv) {
            Ok(()) => Ok(next),
            Err(e) => Err(e),
        }
    }

    /// Applies a move in place; on an error the position is left as it was.
    pub fn play_move_mut(&mut self, mv: &Move) -> (r: Result<(), PositionError>)
        requires
            old(self).wf(),
        ensures
            final(self).wf(),
            r is Err <==> move_fault(old(self)@, *mv) is Some,
            r is Err ==> *final(self) == *old(self) && r->Err_0 is Message && r->Err_0.text()
                == move_fault(old(self)@, *mv)->0.text(),
            r is Ok ==> final(self)@ == after_move(old(self)@, *mv) && final(self).history_view()
                == old(self).history_view().push(final(self).key()),
    {
        self.apply_move_internal(mv)
    }

    /// Whether a piece of the given colour and kind on `square` attacks
    /// `target` when the squares of `occ` are occupied.
    fn piece_effect_contains(
        square: Square,
        color: Color,
        kind: PieceKind,
        target: Square,
        occ: Bitboard,
    ) -> (r: bool)
        ensures
            r == crate::attacks::piece_reach(color, kind, square@, target@, occ@),
    {
        crate::attacks::piece_attacks(color, kind, square, occ).contains(target)
    }

    /// Whether a piece of colour `by` attacks `square`.
    fn is_square_attacked(&self, square: Square, by: Color) -> (r: bool)
        requires
            self.wf(),
        ensures
            r == crate::rules::attacked(self@, square@, by),
    {
        let occ = self.occupancy_all();
        let kinds = PieceKind::all();
        let ghost s = self@;
        let mut ki: usize = 0;
        while ki < 10
            invariant
                self.wf(),
                s == self@,
                ki <= 10,
                occ@ == s.occupied(),
                forall|i: int| 0 <= i < 10 ==> #[trigger] kinds[i] == kind_at(i),
                forall|src: int| #[trigger]
                    crate::rules::attacks_from(s, src, square@, by)
                        ==> s.board[src]->0.kind.spec_index() >= ki,
            decreases 10 - ki,
        {
            let kind = kinds[ki];
            let mut pieces = self.pieces(by, kind);
            loop
                invariant
                    self.wf(),
                    s == self@,
                    ki < 10,
                    kind == kind_at(ki as int),
                    occ@ == s.occupied(),
                    pieces@.subset_of(s.squares_of(by, kind)),
                    forall|src: int| #[trigger]
                        crate::rules::attacks_from(s, src, square@, by)
                            ==> s.board[src]->0.kind.spec_index() >= ki,
                    forall|src: int| #[trigger]
                        crate::rules::attacks_from(s, src, square@, by) && s.board[src]->0.kind
                            == kind ==> pieces@.contains(src),
                ensures
                    forall|src: int| #[trigger]
                        crate::rules::attacks_from(s, src, square@, by)
                            ==> s.board[src]->0.kind.spec_index() >= ki + 1,
                decreases pieces@.len(),
            {
                match pieces.pop() {
                    Some(src) => {
                        if Self::piece_effect_contains(src, by, kind, square, occ) {
                            proof {
                                assert(crate::rules::attacks_from(s, src@, square@, by));
                            }
                            return true;
                        }
                    },
                    None => {
                        proof {
                            assert forall|src: int| #[trigger]
                                crate::rules::attacks_from(s, src, square@, by)
                                implies s.board[src]->0.kind.spec_index() >= ki + 1 by {
                                if s.board[src]->0.kind.spec_index() == ki {
                                    assert(pieces@.contains(src));
                                }
                            }
                        }
                        break ;
                    },
                }
            }
            ki += 1;
        }
        proof {
            assert forall|src: int| !#[trigger] crate::rules::attacks_from(s, src, square@, by) by {
                if crate::rules::attacks_from(s, src, square@, by) {
                    assert(s.board[src]->0.kind.spec_index() >= 10);
                }
            }
        }
        false
    }

    /// Whether the king of the given colour is attacked; a side without a
    /// king is never in check.
    pub fn is_in_check(&self, color: Color) -> (r: bool)
        requires
            self.wf(),
        ensures
            r == crate::rules::in_check(self@, color),
    {
        match self.king_square(color) {
            Some(king_sq) => self.is_square_attacked(king_sq, color.opponent()),
            None => false,
        }
    }
}

} // verus!
