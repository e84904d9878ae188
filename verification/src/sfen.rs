use vstd::prelude::*;
use crate::board::Square;
use crate::hand::{digit_char, digit_of, hand_text, HandPieceKind};
use crate::piece::{Color, kind_of_letter, Piece, piece_text, PieceKind};
use crate::position::{empty_state, Position, PositionError};
use crate::state::State;
use crate::text::{
    char_digit_value, char_is_digit, char_is_upper, chars_of, decimal_text, digit_value, fields_of,
    is_digit, is_upper, parse_decimal, pieces_of, push_decimal, push_decimal_u64, push_text,
    read_decimal, split_fields, split_pieces, text_of, texts,
};

verus! {

/// Why a text is no position.
#[derive(Clone, Copy, Debug, PartialEq, Eq, Structural)]
pub enum SfenFault {
    MissingBoard,
    MissingTurn,
    MissingHands,
    MissingPly,
    TooManyFields,
    /// The board does not have five ranks, but as many as given.
    WrongRankCount(usize),
    /// A count of empty squares, in the rank given, is zero or runs over
    /// the end of the rank.
    InvalidEmptyCount(u8, usize),
    /// A rank ends with a promotion mark.
    DanglingPromotion,
    /// A rank holds more than five squares.
    TooManySquares,
    /// The letter names no piece, or a promoted piece that does not exist.
    InvalidPieceLetter(char),
    /// The rank given holds fewer than five squares.
    RankTooShort(usize),
    /// The side to move is neither `b` nor `w`.
    BadTurn,
    /// A count in the hands is above 255.
    InvalidHandCount,
    /// A letter in the hands names no droppable piece.
    InvalidHandPiece,
    /// The hands end with a count.
    DanglingHandCount,
    /// The ply is no number that fits in 32 bits.
    InvalidPly,
}

impl SfenFault {
    /// Whether the fault is one of the text's shape.
    pub open spec fn is_format(self) -> bool {
        self == SfenFault::MissingBoard || self == SfenFault::MissingTurn || self
            == SfenFault::MissingHands || self == SfenFault::MissingPly || self
            == SfenFault::TooManyFields || self == SfenFault::DanglingPromotion
    }

    /// The message that reports the fault.
    pub open spec fn text(self) -> Seq<char> {
        match self {
            SfenFault::MissingBoard => "missing board"@,
            SfenFault::MissingTurn => "missing turn"@,
            SfenFault::MissingHands => "missing hands"@,
            SfenFault::MissingPly => "missing ply"@,
            SfenFault::TooManyFields => "Too many fields in SFEN"@,
            SfenFault::WrongRankCount(count) => "board has "@ + decimal_text(count as nat)
                + " ranks, expected 5"@,
            SfenFault::InvalidEmptyCount(skip, rank) => "invalid empty count "@ + decimal_text(
                skip as nat,
            ) + " in rank "@ + decimal_text(rank as nat),
            SfenFault::DanglingPromotion => "dangling promotion marker"@,
            SfenFault::TooManySquares => "too many squares in rank"@,
            SfenFault::InvalidPieceLetter(letter) => "invalid piece letter '"@ + seq![letter]
                + "'"@,
            SfenFault::RankTooShort(rank) => "rank "@ + decimal_text(rank as nat)
                + " does not cover all files"@,
            SfenFault::BadTurn => "turn must be b or w"@,
            SfenFault::InvalidHandCount => "invalid hand count"@,
            SfenFault::InvalidHandPiece => "invalid hand piece"@,
            SfenFault::DanglingHandCount => "dangling hand count"@,
            SfenFault::InvalidPly => "invalid ply"@,
        }
    }

    /// The error that reports the fault.
    pub fn error(self) -> (e: PositionError)
        ensures
            e.text() == self.text(),
            e is Format <==> self.is_format(),
    {
        match self {
            SfenFault::MissingBoard => PositionError::Format("missing board"),
            SfenFault::MissingTurn => PositionError::Format("missing turn"),
            SfenFault::MissingHands => PositionError::Format("missing hands"),
            SfenFault::MissingPly => PositionError::Format("missing ply"),
            SfenFault::TooManyFields => PositionError::Format("Too many fields in SFEN"),
            SfenFault::WrongRankCount(count) => {
                let mut out: Vec<char> = Vec::new();
                push_text(&mut out, "board has ");
                push_decimal_u64(&mut out, count as u64);
                push_text(&mut out, " ranks, expected 5");
                PositionError::Message(text_of(&out))
            },
            SfenFault::InvalidEmptyCount(skip, rank) => {
                let mut out: Vec<char> = Vec::new();
                push_text(&mut out, "invalid empty count ");
                push_decimal_u64(&mut out, skip as u64);
                push_text(&mut out, " in rank ");
                push_decimal_u64(&mut out, rank as u64);
                PositionError::Message(text_of(&out))
            },
            SfenFault::DanglingPromotion => PositionError::Format("dangling promotion marker"),
            SfenFault::TooManySquares => PositionError::message("too many squares in rank"),
            SfenFault::InvalidPieceLetter(letter) => {
                let mut out: Vec<char> = Vec::new();
                push_text(&mut out, "invalid piece letter '");
                out.push(letter);
                push_text(&mut out, "'");
                PositionError::Message(text_of(&out))
            },
            SfenFault::RankTooShort(rank) => {
                let mut out: Vec<char> = Vec::new();
                push_text(&mut out, "rank ");
                push_decimal_u64(&mut out, rank as u64);
                push_text(&mut out, " does not cover all files");
                PositionError::Message(text_of(&out))
            },
            SfenFault::BadTurn => PositionError::message("turn must be b or w"),
            SfenFault::InvalidHandCount => PositionError::message("invalid hand count"),
            SfenFault::InvalidHandPiece => PositionError::message("invalid hand piece"),
            SfenFault::DanglingHandCount => PositionError::message("dangling hand count"),
            SfenFault::InvalidPly => PositionError::message("invalid ply"),
        }
    }
}

/// Where the reading of a rank stands: the board so far, the file of the
/// next square (from 4 down; -1 when the rank is full), and whether a
/// promotion mark waits for its letter.
pub struct RankScan {
    pub board: Seq<Option<Piece>>,
    pub file: int,
    pub pending: bool,
}

/// The colour that the case of a letter stands for: upper case is Black.
pub open spec fn color_of_letter(c: char) -> Color {
    if is_upper(c) {
        Color::Black
    } else {
        Color::White
    }
}

/// Reads a piece letter and puts the piece on the next square of the rank.
pub open spec fn place_piece(st: RankScan, c: char, promoted: bool, rank: int) -> Result<
    RankScan,
    SfenFault,
> {
    if st.file < 0 {
        Err(SfenFault::TooManySquares)
    } else {
        match kind_of_letter(c, promoted) {
            None => Err(SfenFault::InvalidPieceLetter(c)),
            Some(kind) => Ok(
                RankScan {
                    board: st.board.update(
                        rank * 5 + st.file,
                        Some(Piece { color: color_of_letter(c), kind }),
                    ),
                    file: st.file - 1,
                    pending: false,
                },
            ),
        }
    }
}

/// Reads one character of a rank: a digit skips that many squares, `+`
/// marks the next letter as promoted, and a letter places a piece.
pub open spec fn rank_step(st: RankScan, c: char, rank: int) -> Result<RankScan, SfenFault> {
    if st.pending {
        place_piece(st, c, true, rank)
    } else if is_digit(c) {
        let skip = digit_value(c);
        if skip <= 0 || skip > st.file + 1 {
            Err(SfenFault::InvalidEmptyCount(skip as u8, rank as usize))
        } else {
            Ok(RankScan { file: st.file - skip, ..st })
        }
    } else if c == '+' {
        Ok(RankScan { pending: true, ..st })
    } else {
        place_piece(st, c, false, rank)
    }
}

/// Reads the characters of a rank from the left, starting at file 4.
pub open spec fn scan_rank(text: Seq<char>, rank: int, board: Seq<Option<Piece>>) -> Result<
    RankScan,
    SfenFault,
>
    decreases text.len(),
{
    if text.len() == 0 {
        Ok(RankScan { board, file: 4, pending: false })
    } else {
        match scan_rank(text.drop_last(), rank, board) {
            Err(e) => Err(e),
            Ok(st) => rank_step(st, text.last(), rank),
        }
    }
}

/// The board after a rank has been read onto it; the rank has to fill its
/// five squares exactly.
pub open spec fn read_rank(text: Seq<char>, rank: int, board: Seq<Option<Piece>>) -> Result<
    Seq<Option<Piece>>,
    SfenFault,
> {
    match scan_rank(text, rank, board) {
        Err(e) => Err(e),
        Ok(st) => if st.pending {
            Err(SfenFault::DanglingPromotion)
        } else if st.file != -1 {
            Err(SfenFault::RankTooShort(rank as usize))
        } else {
            Ok(st.board)
        },
    }
}

/// The board after the first `n` ranks have been read onto an empty board.
pub open spec fn read_ranks(ranks: Seq<Seq<char>>, n: int) -> Result<Seq<Option<Piece>>, SfenFault>
    decreases n,
{
    if n <= 0 {
        Ok(empty_state().board)
    } else {
        match read_ranks(ranks, n - 1) {
            Err(e) => Err(e),
            Ok(board) => read_rank(ranks[n - 1], n - 1, board),
        }
    }
}

/// The board that a board text describes: five ranks between slashes.
pub open spec fn read_board(text: Seq<char>) -> Result<Seq<Option<Piece>>, SfenFault> {
    let ranks = pieces_of(text, '/');
    if ranks.len() != 5 {
        Err(SfenFault::WrongRankCount(ranks.len() as usize))
    } else {
        read_ranks(ranks, 5)
    }
}

/// The side that a turn text names.
pub open spec fn read_turn(text: Seq<char>) -> Result<Color, SfenFault> {
    if text == seq!['b'] || text == seq!['B'] {
        Ok(Color::Black)
    } else if text == seq!['w'] || text == seq!['W'] {
        Ok(Color::White)
    } else {
        Err(SfenFault::BadTurn)
    }
}

/// The hand kind that a letter names, in either case.
pub open spec fn hand_kind_of_letter(c: char) -> Option<HandPieceKind> {
    if c == 'G' || c == 'g' {
        Some(HandPieceKind::Gold)
    } else if c == 'S' || c == 's' {
        Some(HandPieceKind::Silver)
    } else if c == 'B' || c == 'b' {
        Some(HandPieceKind::Bishop)
    } else if c == 'R' || c == 'r' {
        Some(HandPieceKind::Rook)
    } else if c == 'P' || c == 'p' {
        Some(HandPieceKind::Pawn)
    } else {
        None
    }
}

/// Where the reading of the hands stands: the two hands so far, and the
/// count that waits for its letter, if digits were read.
pub struct HandScan {
    pub black: Seq<nat>,
    pub white: Seq<nat>,
    pub count: Option<nat>,
}

/// A count in hand after `amount` more pieces, which stops at six.
pub open spec fn count_after_adding(count: nat, amount: nat) -> nat {
    if count + amount > 6 {
        6
    } else {
        count + amount
    }
}

/// Reads one character of the hands: a digit extends the count, and a
/// letter adds that many pieces (one, without a count) to the hand of the
/// side that its case stands for.
pub open spec fn hand_step(st: HandScan, c: char) -> Result<HandScan, SfenFault> {
    if is_digit(c) {
        Ok(
            HandScan {
                count: Some(
                    (match st.count {
                        Some(v) => v * 10,
                        None => 0,
                    } + digit_value(c)) as nat,
                ),
                ..st
            },
        )
    } else {
        let amount: nat = match st.count {
            Some(v) => v,
            None => 1,
        };
        if amount > 255 {
            Err(SfenFault::InvalidHandCount)
        } else {
            match hand_kind_of_letter(c) {
                None => Err(SfenFault::InvalidHandPiece),
                Some(kind) => {
                    let j = kind.spec_index();
                    if is_upper(c) {
                        Ok(
                            HandScan {
                                black: st.black.update(j, count_after_adding(st.black[j], amount)),
                                white: st.white,
                                count: None,
                            },
                        )
                    } else {
                        Ok(
                            HandScan {
                                black: st.black,
                                white: st.white.update(j, count_after_adding(st.white[j], amount)),
                                count: None,
                            },
                        )
                    }
                },
            }
        }
    }
}

/// Reads the characters of the hands from the left.
pub open spec fn scan_hands(text: Seq<char>, black: Seq<nat>, white: Seq<nat>) -> Result<
    HandScan,
    SfenFault,
>
    decreases text.len(),
{
    if text.len() == 0 {
        Ok(HandScan { black, white, count: None })
    } else {
        match scan_hands(text.drop_last(), black, white) {
            Err(e) => Err(e),
            Ok(st) => hand_step(st, text.last()),
        }
    }
}

/// The two hands after a hands text has been read into them: `-` adds
/// nothing.
pub open spec fn read_hands(text: Seq<char>, black: Seq<nat>, white: Seq<nat>) -> Result<
    (Seq<nat>, Seq<nat>),
    SfenFault,
> {
    if text == seq!['-'] {
        Ok((black, white))
    } else {
        match scan_hands(text, black, white) {
            Err(e) => Err(e),
            Ok(st) => if st.count is Some {
                Err(SfenFault::DanglingHandCount)
            } else {
                Ok((st.black, st.white))
            },
        }
    }
}

/// The state that a position text describes: four fields separated by
/// white space, which are the board, the side to move, the hands and the
/// ply (zero counts as one); or the first fault found.
pub open spec fn parse_sfen(text: Seq<char>) -> Result<State, SfenFault> {
    let fields = fields_of(text);
    if fields.len() < 1 {
        Err(SfenFault::MissingBoard)
    } else if fields.len() < 2 {
        Err(SfenFault::MissingTurn)
    } else if fields.len() < 3 {
        Err(SfenFault::MissingHands)
    } else if fields.len() < 4 {
        Err(SfenFault::MissingPly)
    } else if fields.len() > 4 {
        Err(SfenFault::TooManyFields)
    } else {
        match read_board(fields[0]) {
            Err(e) => Err(e),
            Ok(board) => match read_turn(fields[1]) {
                Err(e) => Err(e),
                Ok(side) => match read_hands(
                    fields[2],
                    empty_state().black_hand,
                    empty_state().white_hand,
                ) {
                    Err(e) => Err(e),
                    Ok(hands) => match parse_decimal(fields[3]) {
                        None => Err(SfenFault::InvalidPly),
                        Some(ply) => Ok(
                            State {
                                board,
                                black_hand: hands.0,
                                white_hand: hands.1,
                                side,
                                ply: if ply == 0 {
                                    1
                                } else {
                                    ply
                                },
                            },
                        ),
                    },
                },
            },
        }
    }
}

/// What the writing of a rank has produced: the text so far, and the
/// number of empty squares not yet written.
pub struct RankPrint {
    pub text: Seq<char>,
    pub empties: int,
}

/// The digit for a run of empty squares, if there is one.
pub open spec fn flush(empties: int) -> Seq<char> {
    if empties > 0 {
        seq![digit_char(empties)]
    } else {
        Seq::<char>::empty()
    }
}

/// Writes the first `n` squares of a rank, from file 4 down.
pub open spec fn print_rank(board: Seq<Option<Piece>>, rank: int, n: int) -> RankPrint
    decreases n,
{
    if n <= 0 {
        RankPrint { text: Seq::empty(), empties: 0 }
    } else {
        let before = print_rank(board, rank, n - 1);
        match board[rank * 5 + (5 - n)] {
            Some(piece) => RankPrint {
                text: before.text + flush(before.empties) + piece_text(piece),
                empties: 0,
            },
            None => RankPrint { text: before.text, empties: before.empties + 1 },
        }
    }
}

/// The text of a rank: its pieces from file 5 to file 1, with a digit for
/// each run of empty squares.
pub open spec fn rank_text(board: Seq<Option<Piece>>, rank: int) -> Seq<char> {
    let p = print_rank(board, rank, 5);
    p.text + flush(p.empties)
}

/// The text of the first `n` ranks, with slashes between them.
pub open spec fn board_text(board: Seq<Option<Piece>>, n: int) -> Seq<char>
    decreases n,
{
    if n <= 1 {
        rank_text(board, 0)
    } else {
        board_text(board, n - 1) + seq!['/'] + rank_text(board, n - 1)
    }
}

/// The text of the two hands: Black's in upper case, then White's in lower
/// case, or `-` where both are empty.
pub open spec fn hands_text(s: State) -> Seq<char> {
    let upper = hand_text(s.black_hand, false);
    let lower = hand_text(s.white_hand, true);
    if upper.len() == 0 && lower.len() == 0 {
        seq!['-']
    } else {
        upper + lower
    }
}

/// The letter of the side to move.
pub open spec fn side_char(side: Color) -> char {
    match side {
        Color::Black => 'b',
        Color::White => 'w',
    }
}

/// The text of a state: board, side to move, hands and ply, with one space
/// between them.
pub open spec fn sfen_text(s: State) -> Seq<char> {
    board_text(s.board, 5) + seq![' ', side_char(s.side), ' '] + hands_text(s) + seq![' ']
        + decimal_text(s.ply)
}

/// The text of the position at the start of a game.
pub const INITIAL_SFEN: &'static str = "rbsgk/4p/5/P4/KGSBR b - 1";

impl Position {
    /// Writes the position as text: the five ranks, the side to move, the
    /// hands and the ply.
    pub fn to_sfen(&self) -> (s: String)
        requires
            self.wf(),
        ensures
            s@ == sfen_text(self@),
    {
        let mut out: Vec<char> = Vec::new();
        let ghost board = self@.board;
        let mut rank: u8 = 0;
        while rank < 5
            invariant
                self.wf(),
                board == self@.board,
                rank <= 5,
                rank == 0 ==> out@ == Seq::<char>::empty(),
                rank > 0 ==> out@ == board_text(board, rank as int),
            decreases 5 - rank,
        {
            if rank > 0 {
                out.push('/');
            }
            let ghost start = out@;
            let mut empties: u8 = 0;
            let mut n: u8 = 0;
            while n < 5
                invariant
                    self.wf(),
                    board == self@.board,
                    rank < 5,
                    n <= 5,
                    0 <= empties <= n,
                    empties == print_rank(board, rank as int, n as int).empties,
                    out@ == start + print_rank(board, rank as int, n as int).text,
                decreases 5 - n,
            {
                let square = Square::from_file_rank(4 - n, rank);
                match self.piece_at(square) {
                    Some(piece) => {
                        let ghost before = out@;
                        if empties > 0 {
                            out.push(digit_of(empties));
                            empties = 0;
                        }
                        if piece.kind.is_promoted() {
                            out.push('+');
                        }
                        out.push(piece.letter());
                        proof {
                            let prev = print_rank(board, rank as int, n as int);
                            assert(out@ =~= before + flush(prev.empties) + piece_text(piece));
                            assert(out@ =~= start + print_rank(
                                board,
                                rank as int,
                                n as int + 1,
                            ).text);
                        }
                    },
                    None => {
                        empties += 1;
                    },
                }
                n += 1;
            }
            if empties > 0 {
                out.push(digit_of(empties));
            }
            proof {
                assert(out@ =~= start + rank_text(board, rank as int));
                if rank > 0 {
                    assert(out@ =~= board_text(board, rank as int + 1));
                } else {
                    assert(out@ =~= board_text(board, 1));
                }
            }
            rank += 1;
        }
        out.push(' ');
        out.push(
            match self.side_to_move() {
                Color::Black => 'b',
                Color::White => 'w',
            },
        );
        out.push(' ');
        let ghost before_hands = out@;
        let black = self.hand(Color::Black);
        let white = self.hand(Color::White);
        if black.is_empty() && white.is_empty() {
            proof {
                black.lemma_view();
                white.lemma_view();
                lemma_empty_hand_text(black@, false);
                lemma_empty_hand_text(white@, true);
            }
            out.push('-');
        } else {
            proof {
                black.lemma_view();
                white.lemma_view();
                if !(forall|i: int| 0 <= i < 5 ==> #[trigger] black@[i] == 0) {
                    lemma_held_hand_text(black@, false);
                } else {
                    lemma_held_hand_text(white@, true);
                }
            }
            black.write_sfen(false, &mut out);
            white.write_sfen(true, &mut out);
        }
        assert(out@ =~= before_hands + hands_text(self@));
        out.push(' ');
        push_decimal(&mut out, self.ply());
        assert(out@ =~= sfen_text(self@));
        text_of(&out)
    }

    /// The position at the start of a game.
    pub fn initial() -> (r: Result<Position, PositionError>)
        ensures
            r is Ok,
            r->Ok_0.wf(),
            r->Ok_0@ == crate::round_trip::initial_state(),
            r->Ok_0.history_view() == seq![r->Ok_0.key()],
    {
        proof {
            crate::round_trip::lemma_initial_text();
        }
        Self::from_sfen(INITIAL_SFEN)
    }

    /// Reads a position from its text. The history of the position read
    /// holds its own key.
    pub fn from_sfen(s: &str) -> (r: Result<Position, PositionError>)
        ensures
            sfen_outcome(s@, r),
    {
        let chars = chars_of(s);
        let fields = split_fields(&chars);
        let ghost f = fields_of(s@);
        proof {
            assert(texts(fields@) == f);
            assert(forall|i: int| 0 <= i < f.len() ==> fields@[i]@ == #[trigger] f[i]);
        }
        if fields.len() < 1 {
            return Err(SfenFault::MissingBoard.error());
        }
        if fields.len() < 2 {
            return Err(SfenFault::MissingTurn.error());
        }
        if fields.len() < 3 {
            return Err(SfenFault::MissingHands.error());
        }
        if fields.len() < 4 {
            return Err(SfenFault::MissingPly.error());
        }
        if fields.len() > 4 {
            return Err(SfenFault::TooManyFields.error());
        }
        let mut position = Self::empty();
        let ranks = split_pieces(&fields[0], '/');
        let ghost rank_texts = pieces_of(f[0], '/');
        proof {
            assert(f[0] == fields@[0]@);
            assert(texts(ranks@) == rank_texts);
            assert(forall|i: int|
                0 <= i < rank_texts.len() ==> ranks@[i]@ == #[trigger] rank_texts[i]);
        }
        if ranks.len() != 5 {
            return Err(SfenFault::WrongRankCount(ranks.len()).error());
        }
        let mut rank_idx: usize = 0;
        while rank_idx < 5
            invariant
                rank_idx <= 5,
                ranks@.len() == 5,
                rank_texts.len() == 5,
                f == fields_of(s@),
                f.len() == 4,
                rank_texts == pieces_of(f[0], '/'),
                forall|i: int| 0 <= i < 5 ==> ranks@[i]@ == #[trigger] rank_texts[i],
                position.wf(),
                position.history_view() == Seq::<u64>::empty(),
                position@ == (State { board: position@.board, ..empty_state() }),
                read_ranks(rank_texts, rank_idx as int) == Ok::<_, SfenFault>(position@.board),
                forall|i: int| rank_idx * 5 <= i < 25 ==> position@.board[i] is None,
            decreases 5 - rank_idx,
        {
            proof {
                position.lemma_wf();
            }
            match Self::place_rank(&mut position, &ranks[rank_idx], rank_idx) {
                Ok(()) => {},
                Err(fault) => {
                    proof {
                        lemma_read_ranks_fails(rank_texts, rank_idx as int + 1, 5);
                    }
                    return Err(fault.error());
                },
            }
            rank_idx += 1;
        }
        let side = if is_text(&fields[1], 'b') || is_text(&fields[1], 'B') {
            Color::Black
        } else if is_text(&fields[1], 'w') || is_text(&fields[1], 'W') {
            Color::White
        } else {
            return Err(SfenFault::BadTurn.error());
        };
        proof {
            assert(f[1] == fields@[1]@);
            assert(read_turn(f[1]) == Ok::<_, SfenFault>(side));
        }
        position.set_side_to_move(side);
        match position.parse_hands(&fields[2]) {
            Ok(()) => {},
            Err(fault) => {
                return Err(fault.error());
            },
        }
        let ply = match read_decimal(&fields[3]) {
            Some(ply) => ply,
            None => {
                return Err(SfenFault::InvalidPly.error());
            },
        };
        position.set_ply(ply);
        proof {
            position.lemma_wf_parts();
        }
        position.recompute_hash();
        proof {
            assert(parse_sfen(s@) == Ok::<_, SfenFault>(position@));
        }
        Ok(position)
    }

    /// Reads one rank onto the board, from file 4 down.
    fn place_rank(position: &mut Position, text: &Vec<char>, rank_idx: usize) -> (r: Result<
        (),
        SfenFault,
    >)
        requires
            rank_idx < 5,
            old(position).wf(),
            forall|i: int| rank_idx * 5 <= i < 25 ==> old(position)@.board[i] is None,
        ensures
            final(position).wf(),
            final(position).history_view() == old(position).history_view(),
            match read_rank(text@, rank_idx as int, old(position)@.board) {
                Ok(board) => r is Ok && final(position)@ == (State { board, ..old(position)@ }),
                Err(fault) => r == Err::<(), _>(fault),
            },
            forall|i: int| (rank_idx + 1) * 5 <= i < 25 ==> final(position)@.board[i] is None,
    {
        let ghost board0 = position@.board;
        let mut file: i32 = 4;
        let mut pending = false;
        let mut i: usize = 0;
        proof {
            assert(text@.take(0) =~= Seq::<char>::empty());
            position.lemma_wf();
        }
        while i < text.len()
            invariant
                rank_idx < 5,
                i <= text.len(),
                -1 <= file <= 4,
                position.wf(),
                position@.board.len() == 25,
                position.history_view() == old(position).history_view(),
                position@ == (State { board: position@.board, ..old(position)@ }),
                board0 == old(position)@.board,
                scan_rank(text@.take(i as int), rank_idx as int, board0) == Ok::<_, SfenFault>(
                    RankScan { board: position@.board, file: file as int, pending },
                ),
                forall|j: int| rank_idx * 5 <= j <= rank_idx * 5 + file ==> position@.board[j] is None,
                forall|j: int| (rank_idx + 1) * 5 <= j < 25 ==> position@.board[j] is None,
            decreases text.len() - i,
        {
            let ch = text[i];
            proof {
                assert(text@.take(i as int + 1).drop_last() =~= text@.take(i as int));
                position.lemma_wf();
            }
            let ghost st = RankScan { board: position@.board, file: file as int, pending };
            if pending {
                match Self::place_board_piece(position, ch, true, rank_idx, file) {
                    Ok(()) => {},
                    Err(fault) => {
                        proof {
                            lemma_scan_rank_fails(text@, i as int + 1, rank_idx as int, board0);
                        }
                        return Err(fault);
                    },
                }
                file -= 1;
                pending = false;
            } else if char_is_digit(ch) {
                let skip = char_digit_value(ch) as i32;
                if skip <= 0 || skip > file + 1 {
                    proof {
                        lemma_scan_rank_fails(text@, i as int + 1, rank_idx as int, board0);
                    }
                    return Err(SfenFault::InvalidEmptyCount(skip as u8, rank_idx));
                }
                file -= skip;
            } else if ch == '+' {
                pending = true;
            } else {
                match Self::place_board_piece(position, ch, false, rank_idx, file) {
                    Ok(()) => {},
                    Err(fault) => {
                        proof {
                            lemma_scan_rank_fails(text@, i as int + 1, rank_idx as int, board0);
                        }
                        return Err(fault);
                    },
                }
                file -= 1;
            }
            i += 1;
        }
        proof {
            assert(text@.take(text@.len() as int) =~= text@);
        }
        if pending {
            return Err(SfenFault::DanglingPromotion);
        }
        if file != -1 {
            return Err(SfenFault::RankTooShort(rank_idx));
        }
        Ok(())
    }

    /// Reads a piece letter and puts the piece on the square of the given
    /// rank and file.
    fn place_board_piece(
        position: &mut Position,
        ch: char,
        promoted: bool,
        rank_idx: usize,
        file: i32,
    ) -> (r: Result<(), SfenFault>)
        requires
            rank_idx < 5,
            file <= 4,
            old(position).wf(),
            file >= 0 ==> old(position)@.board[rank_idx * 5 + file] is None,
        ensures
            final(position).wf(),
            final(position).history_view() == old(position).history_view(),
            match place_piece(
                RankScan { board: old(position)@.board, file: file as int, pending: promoted },
                ch,
                promoted,
                rank_idx as int,
            ) {
                Ok(st) => r is Ok && final(position)@ == (State {
                    board: st.board,
                    ..old(position)@
                }),
                Err(fault) => r == Err::<(), _>(fault) && *final(position) == *old(position),
            },
    {
        if file < 0 {
            return Err(SfenFault::TooManySquares);
        }
        let color = if char_is_upper(ch) {
            Color::Black
        } else {
            Color::White
        };
        let kind = match PieceKind::from_sfen_letter(ch, promoted) {
            Some(kind) => kind,
            None => {
                return Err(SfenFault::InvalidPieceLetter(ch));
            },
        };
        let square = Square::from_file_rank(file as u8, rank_idx as u8);
        let placed = position.set_piece(square, Piece::new(color, kind));
        assert(placed is Ok);
        Ok(())
    }

    /// Reads the hands from their text and adds them to the position's hands.
    fn parse_hands(&mut self, hand_part: &Vec<char>) -> (r: Result<(), SfenFault>)
        requires
            old(self).wf(),
        ensures
            final(self).wf(),
            final(self).history_view() == old(self).history_view(),
            match read_hands(hand_part@, old(self)@.black_hand, old(self)@.white_hand) {
                Ok(hands) => r is Ok && final(self)@ == (State {
                    black_hand: hands.0,
                    white_hand: hands.1,
                    ..old(self)@
                }),
                Err(fault) => r == Err::<(), _>(fault),
            },
    {
        if is_text(hand_part, '-') {
            return Ok(());
        }
        let ghost black0 = self@.black_hand;
        let ghost white0 = self@.white_hand;
        let mut count: u32 = 0;
        let mut counting = false;
        let mut i: usize = 0;
        proof {
            assert(hand_part@.take(0) =~= Seq::<char>::empty());
            self.lemma_wf();
        }
        while i < hand_part.len()
            invariant
                i <= hand_part.len(),
                self.wf(),
                hand_part@ != seq!['-'],
                self.history_view() == old(self).history_view(),
                self@ == (State {
                    black_hand: self@.black_hand,
                    white_hand: self@.white_hand,
                    ..old(self)@
                }),
                black0 == old(self)@.black_hand,
                white0 == old(self)@.white_hand,
                count <= 256,
                !counting ==> count == 0,
                scan_hands(hand_part@.take(i as int), black0, white0) is Ok,
                scan_hands(hand_part@.take(i as int), black0, white0)->Ok_0.black
                    == self@.black_hand,
                scan_hands(hand_part@.take(i as int), black0, white0)->Ok_0.white
                    == self@.white_hand,
                scan_hands(hand_part@.take(i as int), black0, white0)->Ok_0.count is Some
                    <==> counting,
                counting ==> (count <= 255 ==> scan_hands(
                    hand_part@.take(i as int),
                    black0,
                    white0,
                )->Ok_0.count->0 == count) && (count == 256 ==> scan_hands(
                    hand_part@.take(i as int),
                    black0,
                    white0,
                )->Ok_0.count->0 > 255),
            decreases hand_part.len() - i,
        {
            let ch = hand_part[i];
            proof {
                assert(hand_part@.take(i as int + 1).drop_last() =~= hand_part@.take(i as int));
                self.lemma_wf();
            }
            if char_is_digit(ch) {
                let next = count * 10 + char_digit_value(ch) as u32;
                count = if next > 255 {
                    256
                } else {
                    next
                };
                counting = true;
            } else {
                let amount: u32 = if counting {
                    count
                } else {
                    1
                };
                if amount > 255 {
                    proof {
                        lemma_scan_hands_fails(hand_part@, i as int + 1, black0, white0);
                    }
                    return Err(SfenFault::InvalidHandCount);
                }
                let kind = if ch == 'G' || ch == 'g' {
                    HandPieceKind::Gold
                } else if ch == 'S' || ch == 's' {
                    HandPieceKind::Silver
                } else if ch == 'B' || ch == 'b' {
                    HandPieceKind::Bishop
                } else if ch == 'R' || ch == 'r' {
                    HandPieceKind::Rook
                } else if ch == 'P' || ch == 'p' {
                    HandPieceKind::Pawn
                } else {
                    proof {
                        lemma_scan_hands_fails(hand_part@, i as int + 1, black0, white0);
                    }
                    return Err(SfenFault::InvalidHandPiece);
                };
                let color = if char_is_upper(ch) {
                    Color::Black
                } else {
                    Color::White
                };
                self.put_in_hand(color, kind, amount as u8);
                count = 0;
                counting = false;
            }
            i += 1;
        }
        proof {
            assert(hand_part@.take(hand_part@.len() as int) =~= hand_part@);
        }
        if counting {
            return Err(SfenFault::DanglingHandCount);
        }
        Ok(())
    }
}

/// What reading a position text gives: the consistent position of the state
/// that the text describes, with its own key as its history, or the error
/// that reports the first fault of the text.
pub open spec fn sfen_outcome(text: Seq<char>, r: Result<Position, PositionError>) -> bool {
    match parse_sfen(text) {
        Ok(state) => r is Ok && r->Ok_0.wf() && r->Ok_0@ == state && r->Ok_0.history_view()
            == seq![r->Ok_0.key()],
        Err(fault) => r is Err && r->Err_0.text() == fault.text() && (r->Err_0 is Format
            <==> fault.is_format()),
    }
}

/// Whether a text is the single character given.
fn is_text(text: &Vec<char>, c: char) -> (r: bool)
    ensures
        r == (text@ == seq![c]),
{
    let r = text.len() == 1 && text[0] == c;
    proof {
        if r {
            assert(text@ =~= seq![c]);
        } else if text@ == seq![c] {
            assert(text@.len() == 1 && text@[0] == c);
        }
    }
    r
}

/// A fault found in the first `n` characters of a rank is the fault of the
/// whole rank.
proof fn lemma_scan_rank_fails(text: Seq<char>, n: int, rank: int, board: Seq<Option<Piece>>)
    requires
        0 <= n <= text.len(),
        scan_rank(text.take(n), rank, board) is Err,
    ensures
        scan_rank(text, rank, board) == scan_rank(text.take(n), rank, board),
    decreases text.len() - n,
{
    if n < text.len() {
        assert(text.take(n + 1).drop_last() =~= text.take(n));
        lemma_scan_rank_fails(text, n + 1, rank, board);
    } else {
        assert(text.take(n) =~= text);
    }
}

/// A fault found in the first `n` ranks is the fault of the first `m`.
proof fn lemma_read_ranks_fails(ranks: Seq<Seq<char>>, n: int, m: int)
    requires
        0 <= n <= m,
        read_ranks(ranks, n) is Err,
    ensures
        read_ranks(ranks, m) == read_ranks(ranks, n),
    decreases m - n,
{
    if n < m {
        lemma_read_ranks_fails(ranks, n, m - 1);
    }
}

/// A fault found in the first `n` characters of the hands is the fault of
/// the whole text.
proof fn lemma_scan_hands_fails(text: Seq<char>, n: int, black: Seq<nat>, white: Seq<nat>)
    requires
        0 <= n <= text.len(),
        scan_hands(text.take(n), black, white) is Err,
    ensures
        scan_hands(text, black, white) == scan_hands(text.take(n), black, white),
    decreases text.len() - n,
{
    if n < text.len() {
        assert(text.take(n + 1).drop_last() =~= text.take(n));
        lemma_scan_hands_fails(text, n + 1, black, white);
    } else {
        assert(text.take(n) =~= text);
    }
}

/// The text of an empty hand is empty.
pub proof fn lemma_empty_hand_text(counts: Seq<nat>, lower: bool)
    requires
        counts.len() == 5,
        forall|i: int| 0 <= i < 5 ==> #[trigger] counts[i] == 0,
    ensures
        hand_text(counts, lower).len() == 0,
{
    reveal_with_fuel(crate::hand::hand_text_upto, 6);
    assert(counts[0] == 0 && counts[1] == 0 && counts[2] == 0 && counts[3] == 0 && counts[4] == 0);
}

/// The text of a hand that holds a piece is not empty.
pub proof fn lemma_held_hand_text(counts: Seq<nat>, lower: bool)
    requires
        counts.len() == 5,
        !(forall|i: int| 0 <= i < 5 ==> #[trigger] counts[i] == 0),
    ensures
        hand_text(counts, lower).len() > 0,
{
    reveal_with_fuel(crate::hand::hand_text_upto, 6);
}

} // verus!
