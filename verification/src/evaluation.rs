use vstd::prelude::*;
use crate::board::Square;
use crate::hand::{Hand, hand_kind_at, HandPieceKind};
use crate::piece::{Color, Piece, PieceKind};
use crate::position::Position;
use crate::state::State;

verus! {

/// The material value of each kind, by the kind's index.
pub const PIECE_VALUES: [i32; 10] = [15_000, 700, 600, 650, 900, 1_100, 1_000, 1_200, 100, 400];

/// The material value of a kind of piece.
pub open spec fn material_value(kind: PieceKind) -> int {
    match kind {
        PieceKind::King => 15_000,
        PieceKind::Gold => 700,
        PieceKind::Silver => 600,
        PieceKind::PromotedSilver => 650,
        PieceKind::Bishop => 900,
        PieceKind::PromotedBishop => 1_100,
        PieceKind::Rook => 1_000,
        PieceKind::PromotedRook => 1_200,
        PieceKind::Pawn => 100,
        PieceKind::Tokin => 400,
    }
}

/// The distance between two numbers.
pub open spec fn distance(a: int, b: int) -> int {
    if a >= b {
        a - b
    } else {
        b - a
    }
}

/// The bonus for standing near the centre: ten for each step that the
/// square is nearer to it than four steps.
pub open spec fn center_bonus(square: int) -> int {
    let d = distance(square % 5, 2) + distance(square / 5, 2);
    if d < 4 {
        (4 - d) * 10
    } else {
        0
    }
}

/// How many ranks a piece has advanced from its own back rank.
pub open spec fn advancement(color: Color, square: int) -> int {
    match color {
        Color::Black => 4 - square / 5,
        Color::White => square / 5,
    }
}

/// The bonus of a kind of piece from its advancement, its centre bonus
/// and the distance of its rank from the middle rank.
pub open spec fn kind_bonus(kind: PieceKind, adv: int, center: int, rank_distance: int) -> int {
    match kind {
        PieceKind::Pawn => adv * 25 + center * 2,
        PieceKind::Tokin => adv * 20 + center * 3 + 50,
        PieceKind::Silver => adv * 15 + center * 3,
        PieceKind::PromotedSilver => adv * 20 + center * 3 + 40,
        PieceKind::Bishop => center * 5,
        PieceKind::PromotedBishop => center * 6 + 40,
        PieceKind::Rook => adv * 10 + center * 6,
        PieceKind::PromotedRook => adv * 12 + center * 6 + 60,
        PieceKind::Gold => adv * 12 + center * 3,
        PieceKind::King => (4 - rank_distance) * 20 - adv * 10,
    }
}

/// The positional bonus of a piece on a square.
pub open spec fn position_bonus(piece: Piece, square: int) -> int {
    kind_bonus(
        piece.kind,
        advancement(piece.color, square),
        center_bonus(square),
        distance(square / 5, 2),
    )
}

/// A value counted for Black and against White.
pub open spec fn signed(color: Color, value: int) -> int {
    match color {
        Color::Black => value,
        Color::White => -value,
    }
}

/// What the piece on a square, if any, adds to the score.
pub open spec fn square_score(cell: Option<Piece>, square: int) -> int {
    match cell {
        Some(piece) => signed(piece.color, material_value(piece.kind) + position_bonus(piece, square)),
        None => 0,
    }
}

/// The score of the pieces on the first `n` squares.
pub open spec fn board_score(board: Seq<Option<Piece>>, n: int) -> int
    decreases n,
{
    if n <= 0 {
        0
    } else {
        board_score(board, n - 1) + square_score(board[n - 1], n - 1)
    }
}

/// The score of the first `n` kinds of one side's hand.
pub open spec fn hand_score(color: Color, hand: Seq<nat>, n: int) -> int
    decreases n,
{
    if n <= 0 {
        0
    } else {
        hand_score(color, hand, n - 1) + signed(
            color,
            material_value(hand_kind_at(n - 1).piece_kind()) * hand[n - 1],
        )
    }
}

/// The static score of a state from the point of view of the side to move:
/// material and positional bonus of the pieces on the board and material of
/// the pieces in hand, Black's counted for and White's against, and the
/// sign turned where White is to move.
pub open spec fn evaluation(s: State) -> int {
    let total = board_score(s.board, 25) + hand_score(Color::Black, s.black_hand, 5) + hand_score(
        Color::White,
        s.white_hand,
        5,
    );
    match s.side {
        Color::Black => total,
        Color::White => -total,
    }
}

fn piece_value(kind: PieceKind) -> (v: i32)
    ensures
        v == material_value(kind),
{
    PIECE_VALUES[kind.index()]
}

/// The material value of a kind of piece.
pub fn piece_material_value(kind: PieceKind) -> (v: i32)
    ensures
        v == material_value(kind),
        100 <= v <= 15_000,
{
    piece_value(kind)
}

fn hand_piece_value(kind: HandPieceKind) -> (v: i32)
    ensures
        v == material_value(kind.piece_kind()),
        100 <= v <= 1_000,
{
    match kind {
        HandPieceKind::Gold => piece_value(PieceKind::Gold),
        HandPieceKind::Silver => piece_value(PieceKind::Silver),
        HandPieceKind::Bishop => piece_value(PieceKind::Bishop),
        HandPieceKind::Rook => piece_value(PieceKind::Rook),
        HandPieceKind::Pawn => piece_value(PieceKind::Pawn),
    }
}

fn score_hand(color: Color, hand: &Hand) -> (score: i32)
    ensures
        score == hand_score(color, hand@, 5),
        -30_000 <= score <= 30_000,
{
    let kinds = HandPieceKind::all();
    let mut score: i32 = 0;
    let mut i: usize = 0;
    while i < 5
        invariant
            i <= 5,
            forall|j: int| 0 <= j < 5 ==> #[trigger] kinds[j] == hand_kind_at(j),
            score == hand_score(color, hand@, i as int),
            -6_000 * i <= score <= 6_000 * i,
        decreases 5 - i,
    {
        let kind = kinds[i];
        let count = hand.count(kind) as i32;
        let value = hand_piece_value(kind) * count;
        score = score + match color {
            Color::Black => value,
            Color::White => -value,
        };
        i += 1;
    }
    score
}

fn bonus_of_kind(kind: PieceKind, advancement: i32, center_bonus: i32, rank_distance: i32) -> (bonus:
    i32)
    requires
        0 <= advancement <= 4,
        0 <= center_bonus <= 40,
        0 <= rank_distance <= 2,
    ensures
        bonus == kind_bonus(kind, advancement as int, center_bonus as int, rank_distance as int),
        -40 <= bonus <= 400,
{
    match kind {
        PieceKind::Pawn => advancement * 25 + center_bonus * 2,
        PieceKind::Tokin => advancement * 20 + center_bonus * 3 + 50,
        PieceKind::Silver => advancement * 15 + center_bonus * 3,
        PieceKind::PromotedSilver => advancement * 20 + center_bonus * 3 + 40,
        PieceKind::Bishop => center_bonus * 5,
        PieceKind::PromotedBishop => center_bonus * 6 + 40,
        PieceKind::Rook => advancement * 10 + center_bonus * 6,
        PieceKind::PromotedRook => advancement * 12 + center_bonus * 6 + 60,
        PieceKind::Gold => advancement * 12 + center_bonus * 3,
        PieceKind::King => (4 - rank_distance) * 20 - advancement * 10,
    }
}

fn positional_bonus(piece: Piece, square: Square) -> (bonus: i32)
    ensures
        bonus == position_bonus(piece, square@),
        -40 <= bonus <= 400,
{
    let file = square.file() as i32;
    let rank = square.rank() as i32;
    let file_distance = if file >= 2 {
        file - 2
    } else {
        2 - file
    };
    let rank_distance = if rank >= 2 {
        rank - 2
    } else {
        2 - rank
    };
    let center_distance = file_distance + rank_distance;
    let center_bonus = if center_distance < 4 {
        (4 - center_distance) * 10
    } else {
        0
    };
    let advancement = match piece.color {
        Color::Black => 4 - rank,
        Color::White => rank,
    };
    bonus_of_kind(piece.kind, advancement, center_bonus, rank_distance)
}

fn score_board(position: &Position) -> (score: i32)
    ensures
        score == board_score(position@.board, 25),
        -400_000 <= score <= 400_000,
{
    let mut score: i32 = 0;
    let mut index: u8 = 0;
    while index < 25
        invariant
            index <= 25,
            score == board_score(position@.board, index as int),
            -16_000 * index <= score <= 16_000 * index,
        decreases 25 - index,
    {
        let square = Square::from_index(index);
        match position.piece_at(square) {
            Some(piece) => {
                let material = piece_value(piece.kind);
                let positional = positional_bonus(piece, square);
                let value = material + positional;
                score = score + match piece.color {
                    Color::Black => value,
                    Color::White => -value,
                };
            },
            None => {},
        }
        index += 1;
    }
    score
}

/// The static score of a position from the point of view of the side to move.
pub fn evaluate(position: &Position) -> (score: i32)
    requires
        position.wf(),
    ensures
        score == evaluation(position@),
        -460_000 <= score <= 460_000,
{
    let mut score = score_board(position);
    score = score + score_hand(Color::Black, position.hand(Color::Black));
    score = score + score_hand(Color::White, position.hand(Color::White));
    match position.side_to_move() {
        Color::Black => score,
        Color::White => -score,
    }
}

} // verus!
