use vstd::prelude::*;
use crate::hand::{digit_char, hand_kind_at, hand_text, hand_text_upto, hand_token, HandPieceKind};
use crate::piece::{Color, kind_of_letter, Piece, piece_text, PieceKind, upper_letter};
use crate::position::empty_state;
use crate::sfen::{
    board_text, color_of_letter, count_after_adding, hand_kind_of_letter, hand_step, hands_text,
    HandScan, parse_sfen, print_rank, rank_step, rank_text, RankScan, read_board, read_hands,
    read_rank, read_ranks, read_turn, scan_hands, scan_rank, sfen_text, SfenFault, side_char,
};
use crate::state::State;
use crate::text::{
    all_digits, decimal_text, digit_value, digits_value, fields_of, is_digit, is_space, is_upper,
    parse_decimal, Scan, scan_fields, scan_pieces,
};

verus! {

/// Whether a character is one that position texts are written with, apart
/// from the space and the slash: a digit, a piece letter, `+` or `-`.
pub open spec fn is_plain(c: char) -> bool {
    is_digit(c) || c == '+' || c == '-' || c == 'K' || c == 'G' || c == 'S' || c == 'B' || c == 'R'
        || c == 'P' || c == 'k' || c == 'g' || c == 's' || c == 'b' || c == 'r' || c == 'p' || c
        == 'w'
}

/// Whether a text is written with plain characters only.
pub open spec fn all_plain(s: Seq<char>) -> bool {
    forall|i: int| 0 <= i < s.len() ==> is_plain(#[trigger] s[i])
}

/// Whether a text holds no white space.
pub open spec fn spaceless(s: Seq<char>) -> bool {
    forall|i: int| 0 <= i < s.len() ==> !is_space(#[trigger] s[i])
}

/// A text without white space continues the field that is being read.
pub proof fn lemma_scan_fields_plain(x: Seq<char>, t: Seq<char>)
    requires
        spaceless(t),
    ensures
        scan_fields(x + t) == (Scan {
            done: scan_fields(x).done,
            current: scan_fields(x).current + t,
        }),
    decreases t.len(),
{
    if t.len() == 0 {
        assert(x + t =~= x);
        assert(scan_fields(x).current + t =~= scan_fields(x).current);
    } else {
        let rest = t.drop_last();
        assert(spaceless(rest)) by {
            assert forall|i: int| 0 <= i < rest.len() implies !is_space(#[trigger] rest[i]) by {
                assert(rest[i] == t[i]);
            }
        }
        lemma_scan_fields_plain(x, rest);
        assert((x + t).drop_last() =~= x + rest);
        assert(!is_space(t[t.len() - 1]));
        assert(!is_space(t.last()));
        assert(scan_fields(x).current + t =~= (scan_fields(x).current + rest).push(t.last()));
    }
}

/// A space ends the field that is being read.
pub proof fn lemma_scan_fields_space(x: Seq<char>)
    requires
        scan_fields(x).current.len() > 0,
    ensures
        scan_fields(x + seq![' ']) == (Scan {
            done: scan_fields(x).done.push(scan_fields(x).current),
            current: Seq::empty(),
        }),
{
    assert((x + seq![' ']).drop_last() =~= x);
    assert((x + seq![' ']).last() == ' ');
}

/// Four texts without white space, with a space between them, are read as
/// four fields.
pub proof fn lemma_fields_of_joined(a: Seq<char>, b: Seq<char>, c: Seq<char>, d: Seq<char>)
    requires
        spaceless(a),
        spaceless(b),
        spaceless(c),
        spaceless(d),
        a.len() > 0,
        b.len() > 0,
        c.len() > 0,
        d.len() > 0,
    ensures
        fields_of(a + seq![' '] + b + seq![' '] + c + seq![' '] + d) == seq![a, b, c, d],
{
    let e = Seq::<char>::empty();
    let sp = seq![' '];
    lemma_scan_fields_plain(e, a);
    assert(e + a =~= a);
    assert(scan_fields(e).current + a =~= a);
    lemma_scan_fields_space(a);
    lemma_scan_fields_plain(a + sp, b);
    assert(Seq::<char>::empty() + b =~= b);
    lemma_scan_fields_space(a + sp + b);
    lemma_scan_fields_plain(a + sp + b + sp, c);
    assert(Seq::<char>::empty() + c =~= c);
    lemma_scan_fields_space(a + sp + b + sp + c);
    lemma_scan_fields_plain(a + sp + b + sp + c + sp, d);
    assert(Seq::<char>::empty() + d =~= d);
    let done = Seq::<Seq<char>>::empty().push(a).push(b).push(c);
    assert(done.push(d) =~= seq![a, b, c, d]);
}

/// A text of plain characters continues the piece that is being read.
pub proof fn lemma_scan_pieces_plain(x: Seq<char>, t: Seq<char>)
    requires
        all_plain(t),
    ensures
        scan_pieces(x + t, '/') == (Scan {
            done: scan_pieces(x, '/').done,
            current: scan_pieces(x, '/').current + t,
        }),
    decreases t.len(),
{
    if t.len() == 0 {
        assert(x + t =~= x);
        assert(scan_pieces(x, '/').current + t =~= scan_pieces(x, '/').current);
    } else {
        let rest = t.drop_last();
        assert(all_plain(rest)) by {
            assert forall|i: int| 0 <= i < rest.len() implies is_plain(#[trigger] rest[i]) by {
                assert(rest[i] == t[i]);
            }
        }
        lemma_scan_pieces_plain(x, rest);
        assert((x + t).drop_last() =~= x + rest);
        assert(is_plain(t[t.len() - 1]));
        assert(scan_pieces(x, '/').current + t =~= (scan_pieces(x, '/').current + rest).push(
            t.last(),
        ));
    }
}

/// A slash ends the piece that is being read.
pub proof fn lemma_scan_pieces_slash(x: Seq<char>)
    ensures
        scan_pieces(x + seq!['/'], '/') == (Scan {
            done: scan_pieces(x, '/').done.push(scan_pieces(x, '/').current),
            current: Seq::empty(),
        }),
{
    assert((x + seq!['/']).drop_last() =~= x);
    assert((x + seq!['/']).last() == '/');
}

/// The decimal text of a number is made of digits and writes the number.
pub proof fn lemma_decimal_text(n: nat)
    ensures
        decimal_text(n).len() > 0,
        all_digits(decimal_text(n)),
        all_plain(decimal_text(n)),
        digits_value(decimal_text(n)) == n,
        decimal_text(n)[0] != '+',
    decreases n,
{
    let t = decimal_text(n);
    if n < 10 {
        assert(t =~= seq![digit_char(n as int)]);
        assert(t.drop_last() =~= Seq::<char>::empty());
        assert(digit_value(digit_char(n as int)) == n);
        assert(digits_value(t.drop_last()) == 0);
    } else {
        lemma_decimal_text(n / 10);
        let head = decimal_text(n / 10);
        let d = digit_char((n % 10) as int);
        assert(t == head.push(d));
        assert(t.drop_last() =~= head);
        assert(digit_value(d) == n % 10);
        assert forall|i: int| 0 <= i < t.len() implies is_digit(#[trigger] t[i]) by {
            if i < head.len() {
                assert(t[i] == head[i]);
            }
        }
        assert(t[0] == head[0]);
    }
}

/// Reading the decimal text of a number that fits in 32 bits gives the number.
pub proof fn lemma_decimal_round_trip(n: nat)
    requires
        n <= u32::MAX,
    ensures
        parse_decimal(decimal_text(n)) == Some(n),
{
    lemma_decimal_text(n);
}

/// A board with the pieces of the first `n` squares of a rank of another
/// board put on it, from file 4 down.
pub open spec fn rank_filled(
    onto: Seq<Option<Piece>>,
    board: Seq<Option<Piece>>,
    rank: int,
    n: int,
) -> Seq<Option<Piece>>
    decreases n,
{
    if n <= 0 {
        onto
    } else {
        match board[rank * 5 + (5 - n)] {
            Some(piece) => rank_filled(onto, board, rank, n - 1).update(
                rank * 5 + (5 - n),
                Some(piece),
            ),
            None => rank_filled(onto, board, rank, n - 1),
        }
    }
}

/// What `rank_filled` holds on each square.
pub proof fn lemma_rank_filled(
    onto: Seq<Option<Piece>>,
    board: Seq<Option<Piece>>,
    rank: int,
    n: int,
)
    requires
        onto.len() == 25,
        board.len() == 25,
        0 <= rank < 5,
        0 <= n <= 5,
    ensures
        rank_filled(onto, board, rank, n).len() == 25,
        forall|j: int|
            0 <= j < 25 ==> #[trigger] rank_filled(onto, board, rank, n)[j] == if rank * 5 + (5
                - n) <= j < rank * 5 + 5 && board[j] is Some {
                board[j]
            } else {
                onto[j]
            },
    decreases n,
{
    if n > 0 {
        lemma_rank_filled(onto, board, rank, n - 1);
    }
}

/// Reading one more character continues from where the reading stood.
pub proof fn lemma_scan_rank_push(x: Seq<char>, c: char, rank: int, onto: Seq<Option<Piece>>)
    ensures
        scan_rank(x.push(c), rank, onto) == match scan_rank(x, rank, onto) {
            Err(e) => Err(e),
            Ok(st) => rank_step(st, c, rank),
        },
{
    assert(x.push(c).drop_last() =~= x);
}

/// The letter of a piece names the piece's kind and colour, and is neither
/// a digit nor a promotion mark.
pub proof fn lemma_piece_letter(piece: Piece)
    ensures
        ({
            let letter = if piece.color == Color::Black {
                upper_letter(piece.kind.sfen_letter())
            } else {
                piece.kind.sfen_letter()
            };
            &&& kind_of_letter(letter, piece.kind.is_promoted()) == Some(piece.kind)
            &&& color_of_letter(letter) == piece.color
            &&& !is_digit(letter)
            &&& letter != '+'
            &&& is_plain(letter)
            &&& piece_text(piece) == if piece.kind.is_promoted() {
                seq!['+', letter]
            } else {
                seq![letter]
            }
        }),
{
    piece.kind.lemma_letter_round_trip();
}

/// Reading what was written of the first `n` squares of a rank puts their
/// pieces on the board and leaves the squares counted as empty to be
/// written.
pub proof fn lemma_print_then_scan(
    onto: Seq<Option<Piece>>,
    board: Seq<Option<Piece>>,
    rank: int,
    n: int,
)
    requires
        onto.len() == 25,
        board.len() == 25,
        0 <= rank < 5,
        0 <= n <= 5,
    ensures
        0 <= print_rank(board, rank, n).empties <= n,
        all_plain(print_rank(board, rank, n).text),
        scan_rank(print_rank(board, rank, n).text, rank, onto) == Ok::<RankScan, SfenFault>(
            RankScan {
                board: rank_filled(onto, board, rank, n),
                file: 4 - (n - print_rank(board, rank, n).empties),
                pending: false,
            },
        ),
    decreases n,
{
    if n > 0 {
        lemma_print_then_scan(onto, board, rank, n - 1);
        let before = print_rank(board, rank, n - 1);
        let e = before.empties;
        let index = rank * 5 + (5 - n);
        match board[index] {
            None => {},
            Some(piece) => {
                lemma_piece_letter(piece);
                let letter = if piece.color == Color::Black {
                    upper_letter(piece.kind.sfen_letter())
                } else {
                    piece.kind.sfen_letter()
                };
                let y0 = before.text;
                let y1 = if e > 0 {
                    y0.push(digit_char(e))
                } else {
                    y0
                };
                let y2 = if piece.kind.is_promoted() {
                    y1.push('+')
                } else {
                    y1
                };
                let y3 = y2.push(letter);
                assert(print_rank(board, rank, n).text =~= y3);
                if e > 0 {
                    lemma_scan_rank_push(y0, digit_char(e), rank, onto);
                    assert(is_digit(digit_char(e)) && digit_value(digit_char(e)) == e);
                }
                if piece.kind.is_promoted() {
                    lemma_scan_rank_push(y1, '+', rank, onto);
                }
                lemma_scan_rank_push(y2, letter, rank, onto);
                assert forall|i: int| 0 <= i < y3.len() implies is_plain(#[trigger] y3[i]) by {
                    if i < y0.len() {
                        assert(y3[i] == y0[i]);
                    }
                }
            },
        }
    }
}

/// Reading the text of a rank puts the rank's pieces on the board.
pub proof fn lemma_rank_round_trip(onto: Seq<Option<Piece>>, board: Seq<Option<Piece>>, rank: int)
    requires
        onto.len() == 25,
        board.len() == 25,
        0 <= rank < 5,
    ensures
        all_plain(rank_text(board, rank)),
        rank_text(board, rank).len() > 0,
        read_rank(rank_text(board, rank), rank, onto) == Ok::<Seq<Option<Piece>>, SfenFault>(
            rank_filled(onto, board, rank, 5),
        ),
{
    lemma_print_then_scan(onto, board, rank, 5);
    let p = print_rank(board, rank, 5);
    let e = p.empties;
    if e > 0 {
        assert(rank_text(board, rank) =~= p.text.push(digit_char(e)));
        lemma_scan_rank_push(p.text, digit_char(e), rank, onto);
        assert(is_digit(digit_char(e)) && digit_value(digit_char(e)) == e);
        let t = rank_text(board, rank);
        assert forall|i: int| 0 <= i < t.len() implies is_plain(#[trigger] t[i]) by {
            if i < p.text.len() {
                assert(t[i] == p.text[i]);
            }
        }
    } else {
        assert(rank_text(board, rank) =~= p.text);
        lemma_print_nonempty(board, rank, 5);
    }
}

/// Where no empty square waits to be written, something was written.
pub proof fn lemma_print_nonempty(board: Seq<Option<Piece>>, rank: int, n: int)
    requires
        1 <= n <= 5,
        print_rank(board, rank, n).empties == 0,
    ensures
        print_rank(board, rank, n).text.len() > 0,
    decreases n,
{
    let index = rank * 5 + (5 - n);
    match board[index] {
        None => {
            lemma_print_empties(board, rank, n - 1);
        },
        Some(piece) => {
            lemma_piece_letter(piece);
        },
    }
}

/// The count of empty squares is never negative.
pub proof fn lemma_print_empties(board: Seq<Option<Piece>>, rank: int, n: int)
    ensures
        print_rank(board, rank, n).empties >= 0,
    decreases n,
{
    if n > 0 {
        lemma_print_empties(board, rank, n - 1);
    }
}

/// A board whose first `n` ranks are those of another board, and whose
/// other squares are empty.
pub open spec fn ranks_filled(board: Seq<Option<Piece>>, n: int) -> Seq<Option<Piece>> {
    Seq::new(
        25,
        |j: int|
            if j < 5 * n {
                board[j]
            } else {
                None
            },
    )
}

/// The texts of the five ranks of a board.
pub open spec fn rank_texts(board: Seq<Option<Piece>>) -> Seq<Seq<char>> {
    Seq::new(5, |r: int| rank_text(board, r))
}

/// Reading the texts of the first `n` ranks gives those ranks.
pub proof fn lemma_ranks_round_trip(board: Seq<Option<Piece>>, n: int)
    requires
        board.len() == 25,
        0 <= n <= 5,
    ensures
        read_ranks(rank_texts(board), n) == Ok::<Seq<Option<Piece>>, SfenFault>(
            ranks_filled(board, n),
        ),
    decreases n,
{
    if n == 0 {
        assert(ranks_filled(board, 0) =~= empty_state().board);
    } else {
        lemma_ranks_round_trip(board, n - 1);
        let onto = ranks_filled(board, n - 1);
        lemma_rank_round_trip(onto, board, n - 1);
        lemma_rank_filled(onto, board, n - 1, 5);
        assert(rank_filled(onto, board, n - 1, 5) =~= ranks_filled(board, n));
    }
}

/// The text of the first `n` ranks is read as `n` pieces between slashes.
pub proof fn lemma_board_text_pieces(board: Seq<Option<Piece>>, n: int)
    requires
        board.len() == 25,
        1 <= n <= 5,
    ensures
        all_plain_or_slash(board_text(board, n)),
        board_text(board, n).len() > 0,
        scan_pieces(board_text(board, n), '/') == (Scan {
            done: rank_texts(board).take(n - 1),
            current: rank_text(board, n - 1),
        }),
    decreases n,
{
    let e = Seq::<char>::empty();
    let onto = empty_state().board;
    if n == 1 {
        lemma_rank_round_trip(onto, board, 0);
        lemma_scan_pieces_plain(e, rank_text(board, 0));
        assert(e + rank_text(board, 0) =~= rank_text(board, 0));
        assert(rank_texts(board).take(0) =~= Seq::<Seq<char>>::empty());
    } else {
        lemma_board_text_pieces(board, n - 1);
        lemma_rank_round_trip(onto, board, n - 1);
        let head = board_text(board, n - 1);
        lemma_scan_pieces_slash(head);
        lemma_scan_pieces_plain(head + seq!['/'], rank_text(board, n - 1));
        assert(e + rank_text(board, n - 1) =~= rank_text(board, n - 1));
        assert(rank_texts(board).take(n - 2).push(rank_text(board, n - 2)) =~= rank_texts(
            board,
        ).take(n - 1));
        let t = board_text(board, n);
        assert forall|i: int| 0 <= i < t.len() implies is_plain(#[trigger] t[i]) || t[i]
            == '/' by {
            if i < head.len() {
                assert(t[i] == head[i]);
            } else if i > head.len() {
                assert(t[i] == rank_text(board, n - 1)[i - head.len() - 1]);
            }
        }
    }
}

/// Whether a text is written with plain characters and slashes only.
pub open spec fn all_plain_or_slash(s: Seq<char>) -> bool {
    forall|i: int| 0 <= i < s.len() ==> is_plain(#[trigger] s[i]) || s[i] == '/'
}

/// Reading the text of a board gives the board.
pub proof fn lemma_board_round_trip(board: Seq<Option<Piece>>)
    requires
        board.len() == 25,
    ensures
        read_board(board_text(board, 5)) == Ok::<Seq<Option<Piece>>, SfenFault>(board),
        all_plain_or_slash(board_text(board, 5)),
        board_text(board, 5).len() > 0,
{
    lemma_board_text_pieces(board, 5);
    assert(rank_texts(board).take(4).push(rank_text(board, 4)) =~= rank_texts(board));
    lemma_ranks_round_trip(board, 5);
    assert(ranks_filled(board, 5) =~= board);
}

/// Reading one more character of the hands continues from where the
/// reading stood.
pub proof fn lemma_scan_hands_push(x: Seq<char>, c: char, black: Seq<nat>, white: Seq<nat>)
    ensures
        scan_hands(x.push(c), black, white) == match scan_hands(x, black, white) {
            Err(e) => Err(e),
            Ok(st) => hand_step(st, c),
        },
{
    assert(x.push(c).drop_last() =~= x);
}

/// The hand of one side after the counts of the first `n` kinds have been
/// added to it.
pub open spec fn hand_added(base: Seq<nat>, counts: Seq<nat>, n: int) -> Seq<nat> {
    Seq::new(
        5,
        |j: int|
            if j < n {
                count_after_adding(base[j], counts[j])
            } else {
                base[j]
            },
    )
}

/// The hands after the counts of the first `n` kinds have been added to
/// the hand of one side.
pub open spec fn hands_added(st: HandScan, counts: Seq<nat>, lower: bool, n: int) -> HandScan {
    if lower {
        HandScan { black: st.black, white: hand_added(st.white, counts, n), count: None }
    } else {
        HandScan { black: hand_added(st.black, counts, n), white: st.white, count: None }
    }
}

/// Whether a character is one that hands are written with.
pub open spec fn is_hand_char(c: char) -> bool {
    is_digit(c) || hand_kind_of_letter(c) is Some
}

/// The hands after `count` pieces of a kind were added to the hand of one side.
pub open spec fn token_added(st: HandScan, kind: HandPieceKind, count: nat, lower: bool) -> HandScan {
    let j = kind.spec_index();
    if lower {
        HandScan {
            black: st.black,
            white: st.white.update(j, count_after_adding(st.white[j], count)),
            count: None,
        }
    } else {
        HandScan {
            black: st.black.update(j, count_after_adding(st.black[j], count)),
            white: st.white,
            count: None,
        }
    }
}

/// Reading the text of one kind in hand adds its count to the hand of the
/// side that the case of its letter stands for.
pub proof fn lemma_hand_token_scan(
    y: Seq<char>,
    black: Seq<nat>,
    white: Seq<nat>,
    kind: HandPieceKind,
    count: nat,
    lower: bool,
)
    requires
        1 <= count <= 6,
        scan_hands(y, black, white) is Ok,
        scan_hands(y, black, white)->Ok_0.count is None,
    ensures
        scan_hands(y + hand_token(kind, count, lower), black, white) == Ok::<HandScan, SfenFault>(
            token_added(scan_hands(y, black, white)->Ok_0, kind, count, lower),
        ),
        forall|i: int|
            0 <= i < hand_token(kind, count, lower).len() ==> is_hand_char(
                #[trigger] hand_token(kind, count, lower)[i],
            ),
{
    let token = hand_token(kind, count, lower);
    let letter = if lower {
        crate::hand::lower_hand_letter(kind.to_char())
    } else {
        kind.to_char()
    };
    assert(hand_kind_of_letter(letter) == Some(kind));
    assert(is_upper(letter) == !lower);
    assert(!is_digit(letter));
    if count == 1 {
        assert(y + token =~= y.push(letter));
        lemma_scan_hands_push(y, letter, black, white);
    } else {
        let digit = digit_char(count as int);
        assert(is_digit(digit) && digit_value(digit) == count);
        assert(y + token =~= y.push(digit).push(letter));
        lemma_scan_hands_push(y, digit, black, white);
        lemma_scan_hands_push(y.push(digit), letter, black, white);
    }
}

/// Reading the text of the first `n` kinds of a hand, after a text that
/// left no count waiting, adds their counts to the hand of the side that the
/// case of the letters stands for.
pub proof fn lemma_hand_text_scan(
    x: Seq<char>,
    black: Seq<nat>,
    white: Seq<nat>,
    counts: Seq<nat>,
    lower: bool,
    n: int,
)
    requires
        0 <= n <= 5,
        counts.len() == 5,
        forall|i: int| 0 <= i < 5 ==> #[trigger] counts[i] <= 6,
        scan_hands(x, black, white) is Ok,
        scan_hands(x, black, white)->Ok_0.count is None,
        scan_hands(x, black, white)->Ok_0.black.len() == 5,
        scan_hands(x, black, white)->Ok_0.white.len() == 5,
        forall|i: int| 0 <= i < 5 ==> #[trigger] scan_hands(x, black, white)->Ok_0.black[i] <= 6,
        forall|i: int| 0 <= i < 5 ==> #[trigger] scan_hands(x, black, white)->Ok_0.white[i] <= 6,
    ensures
        scan_hands(x + hand_text_upto(counts, lower, n), black, white) == Ok::<
            HandScan,
            SfenFault,
        >(hands_added(scan_hands(x, black, white)->Ok_0, counts, lower, n)),
        forall|i: int|
            0 <= i < hand_text_upto(counts, lower, n).len() ==> is_hand_char(
                #[trigger] hand_text_upto(counts, lower, n)[i],
            ),
    decreases n,
{
    let st = scan_hands(x, black, white)->Ok_0;
    if n == 0 {
        assert(x + hand_text_upto(counts, lower, 0) =~= x);
        assert(hand_added(st.white, counts, 0) =~= st.white);
        assert(hand_added(st.black, counts, 0) =~= st.black);
    } else {
        lemma_hand_text_scan(x, black, white, counts, lower, n - 1);
        let kind = hand_kind_at(n - 1);
        let c = counts[n - 1];
        let head = hand_text_upto(counts, lower, n - 1);
        let y0 = x + head;
        let token = hand_token(kind, c, lower);
        let mid = hands_added(st, counts, lower, n - 1);
        let t = hand_text_upto(counts, lower, n);
        assert(t == head + token);
        assert(x + t =~= y0 + token);
        assert(kind.spec_index() == n - 1);
        assert(c <= 6);
        if c == 0 {
            assert(token =~= Seq::<char>::empty());
            assert(y0 + token =~= y0);
            assert(st.black[n - 1] <= 6 && st.white[n - 1] <= 6);
            assert(hand_added(st.white, counts, n) =~= hand_added(st.white, counts, n - 1));
            assert(hand_added(st.black, counts, n) =~= hand_added(st.black, counts, n - 1));
        } else {
            lemma_hand_token_scan(y0, black, white, kind, c, lower);
            let end = token_added(mid, kind, c, lower);
            if lower {
                assert(end.white =~= hand_added(st.white, counts, n));
            } else {
                assert(end.black =~= hand_added(st.black, counts, n));
            }
        }
        assert forall|i: int| 0 <= i < t.len() implies is_hand_char(#[trigger] t[i]) by {
            if i < head.len() {
                assert(t[i] == head[i]);
            } else {
                assert(t[i] == token[i - head.len()]);
            }
        }
    }
}

/// Reading the text of the hands of a state gives its hands.
pub proof fn lemma_hands_round_trip(s: State)
    requires
        s.well_formed(),
    ensures
        read_hands(hands_text(s), empty_state().black_hand, empty_state().white_hand) == Ok::<
            (Seq<nat>, Seq<nat>),
            SfenFault,
        >((s.black_hand, s.white_hand)),
        hands_text(s).len() > 0,
        spaceless(hands_text(s)),
{
    let zeros = empty_state().black_hand;
    assert(zeros =~= empty_state().white_hand);
    let upper = hand_text(s.black_hand, false);
    let lower = hand_text(s.white_hand, true);
    let e = Seq::<char>::empty();
    lemma_hand_text_scan(e, zeros, zeros, s.black_hand, false, 5);
    assert(e + upper =~= upper);
    let st0 = scan_hands(e, zeros, zeros)->Ok_0;
    let st1 = hands_added(st0, s.black_hand, false, 5);
    assert(st1.black =~= s.black_hand) by {
        assert forall|j: int| 0 <= j < 5 implies st1.black[j] == s.black_hand[j] by {
            assert(s.black_hand[j] <= 6);
        }
    }
    lemma_hand_text_scan(upper, zeros, zeros, s.white_hand, true, 5);
    let st2 = hands_added(st1, s.white_hand, true, 5);
    assert(st2.white =~= s.white_hand) by {
        assert forall|j: int| 0 <= j < 5 implies st2.white[j] == s.white_hand[j] by {
            assert(s.white_hand[j] <= 6);
        }
    }
    if upper.len() == 0 && lower.len() == 0 {
        if !(forall|i: int| 0 <= i < 5 ==> #[trigger] s.black_hand[i] == 0) {
            crate::sfen::lemma_held_hand_text(s.black_hand, false);
        }
        if !(forall|i: int| 0 <= i < 5 ==> #[trigger] s.white_hand[i] == 0) {
            crate::sfen::lemma_held_hand_text(s.white_hand, true);
        }
        assert(s.black_hand =~= zeros);
        assert(s.white_hand =~= zeros);
        assert(!is_space('-'));
    } else {
        let t = upper + lower;
        assert forall|i: int| 0 <= i < t.len() implies is_hand_char(#[trigger] t[i]) by {
            if i < upper.len() {
                assert(t[i] == upper[i]);
            } else {
                assert(t[i] == lower[i - upper.len()]);
            }
        }
        assert(is_hand_char(t[0]));
        assert(t[0] != '-');
        assert(t != seq!['-']) by {
            if t == seq!['-'] {
                assert(t[0] == seq!['-'][0]);
            }
        }
        assert forall|i: int| 0 <= i < t.len() implies !is_space(#[trigger] t[i]) by {
            assert(is_hand_char(t[i]));
        }
    }
}

/// Reading a position text gives the position: the text of a well-formed
/// state, whose ply fits in 32 bits, is read as that state.
pub proof fn lemma_sfen_round_trip(s: State)
    requires
        s.well_formed(),
        s.ply <= u32::MAX,
    ensures
        parse_sfen(sfen_text(s)) == Ok::<State, SfenFault>(s),
{
    let a = board_text(s.board, 5);
    let b = seq![side_char(s.side)];
    let c = hands_text(s);
    let d = decimal_text(s.ply);
    let sp = seq![' '];
    lemma_board_round_trip(s.board);
    lemma_hands_round_trip(s);
    lemma_decimal_round_trip(s.ply);
    lemma_decimal_text(s.ply);
    assert(sfen_text(s) =~= a + sp + b + sp + c + sp + d);
    assert(spaceless(a)) by {
        assert forall|i: int| 0 <= i < a.len() implies !is_space(#[trigger] a[i]) by {
            assert(is_plain(a[i]) || a[i] == '/');
        }
    }
    assert(spaceless(b)) by {
        assert forall|i: int| 0 <= i < b.len() implies !is_space(#[trigger] b[i]) by {
            assert(b[i] == 'b' || b[i] == 'w');
        }
    }
    assert(spaceless(d)) by {
        assert forall|i: int| 0 <= i < d.len() implies !is_space(#[trigger] d[i]) by {
            assert(is_digit(d[i]));
        }
    }
    lemma_fields_of_joined(a, b, c, d);
    let fields = fields_of(sfen_text(s));
    assert(fields[0] == a && fields[1] == b && fields[2] == c && fields[3] == d);
    assert(read_turn(b) == Ok::<Color, SfenFault>(s.side)) by {
        match s.side {
            Color::Black => {
                assert(b =~= seq!['b']);
            },
            Color::White => {
                assert(b =~= seq!['w']);
                assert(b[0] != 'b' && seq!['b'][0] == 'b' && seq!['B'][0] == 'B');
            },
        }
    }
}

/// What stands on each square at the start of a game.
pub open spec fn initial_cell(index: int) -> Option<Piece> {
    if index == 0 {
        Some(Piece { color: Color::White, kind: PieceKind::King })
    } else if index == 1 {
        Some(Piece { color: Color::White, kind: PieceKind::Gold })
    } else if index == 2 {
        Some(Piece { color: Color::White, kind: PieceKind::Silver })
    } else if index == 3 {
        Some(Piece { color: Color::White, kind: PieceKind::Bishop })
    } else if index == 4 {
        Some(Piece { color: Color::White, kind: PieceKind::Rook })
    } else if index == 5 {
        Some(Piece { color: Color::White, kind: PieceKind::Pawn })
    } else if index == 19 {
        Some(Piece { color: Color::Black, kind: PieceKind::Pawn })
    } else if index == 20 {
        Some(Piece { color: Color::Black, kind: PieceKind::Rook })
    } else if index == 21 {
        Some(Piece { color: Color::Black, kind: PieceKind::Bishop })
    } else if index == 22 {
        Some(Piece { color: Color::Black, kind: PieceKind::Silver })
    } else if index == 23 {
        Some(Piece { color: Color::Black, kind: PieceKind::Gold })
    } else if index == 24 {
        Some(Piece { color: Color::Black, kind: PieceKind::King })
    } else {
        None
    }
}

/// The state at the start of a game: each side's king, gold, silver, bishop
/// and rook on its back rank with a pawn before the king, empty hands, and
/// Black to move at ply 1.
pub open spec fn initial_state() -> State {
    State {
        board: Seq::new(25, |i: int| initial_cell(i)),
        black_hand: Seq::new(5, |i: int| 0nat),
        white_hand: Seq::new(5, |i: int| 0nat),
        side: Color::Black,
        ply: 1,
    }
}

proof fn lemma_initial_rank_texts()
    ensures
        rank_text(initial_state().board, 0) == seq!['r', 'b', 's', 'g', 'k'],
        rank_text(initial_state().board, 1) == seq!['4', 'p'],
        rank_text(initial_state().board, 2) == seq!['5'],
        rank_text(initial_state().board, 3) == seq!['P', '4'],
        rank_text(initial_state().board, 4) == seq!['K', 'G', 'S', 'B', 'R'],
{
    reveal_with_fuel(print_rank, 6);
    let board = initial_state().board;
    assert(rank_text(board, 0) =~= seq!['r', 'b', 's', 'g', 'k']);
    assert(rank_text(board, 1) =~= seq!['4', 'p']);
    assert(rank_text(board, 2) =~= seq!['5']);
    assert(rank_text(board, 3) =~= seq!['P', '4']);
    assert(rank_text(board, 4) =~= seq!['K', 'G', 'S', 'B', 'R']);
}

/// The text of the state at the start of a game is the initial position text.
pub proof fn lemma_initial_text()
    ensures
        sfen_text(initial_state()) == crate::sfen::INITIAL_SFEN@,
        initial_state().well_formed(),
        parse_sfen(crate::sfen::INITIAL_SFEN@) == Ok::<State, SfenFault>(initial_state()),
{
    reveal_strlit("rbsgk/4p/5/P4/KGSBR b - 1");
    let s = initial_state();
    lemma_initial_rank_texts();
    reveal_with_fuel(board_text, 6);
    crate::sfen::lemma_empty_hand_text(s.black_hand, false);
    crate::sfen::lemma_empty_hand_text(s.white_hand, true);
    assert(hands_text(s) =~= seq!['-']);
    assert(decimal_text(1) =~= seq!['1']);
    let t = sfen_text(s);
    let lit = crate::sfen::INITIAL_SFEN@;
    assert(board_text(s.board, 5) =~= seq![
        'r',
        'b',
        's',
        'g',
        'k',
        '/',
        '4',
        'p',
        '/',
        '5',
        '/',
        'P',
        '4',
        '/',
        'K',
        'G',
        'S',
        'B',
        'R',
    ]);
    assert(t.len() == 25);
    assert(t =~= lit);
    lemma_sfen_round_trip(s);
}

/// A position that is written and read again is the same: what reading the
/// text of a consistent position gives is a consistent position with the
/// same board, hands, side to move and ply, and with the same key.
pub proof fn lemma_position_round_trip(
    p: crate::position::Position,
    r: Result<crate::position::Position, crate::position::PositionError>,
)
    requires
        p.wf(),
        crate::sfen::sfen_outcome(sfen_text(p@), r),
    ensures
        r is Ok,
        r->Ok_0.wf(),
        r->Ok_0@ == p@,
        r->Ok_0.key() == p.key(),
{
    p.lemma_wf();
    lemma_sfen_round_trip(p@);
    r->Ok_0.lemma_wf();
}

} // verus!
