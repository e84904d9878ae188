use vstd::prelude::*;
use crate::board::{coord_text, lemma_coord_injective, Square};
use crate::piece::PieceKind;

verus! {

/// A move: a piece going from one square to another, with or without
/// promotion, or a piece dropped from the hand (`from` is `None`).
#[derive(Clone, Copy, Debug, PartialEq, Eq, Structural)]
pub struct Move {
    pub from: Option<Square>,
    pub to: Square,
    pub piece: PieceKind,
    pub promote: bool,
}

pub type MoveList = Vec<Move>;

/// The text of a move: `<from><to>` with `+` for a promotion, or
/// `<letter>*<to>` for a drop.
pub open spec fn usi_text(mv: Move) -> Seq<char> {
    match mv.from {
        Some(from) => coord_text(from@) + coord_text(mv.to@) + if mv.promote {
            seq!['+']
        } else {
            Seq::<char>::empty()
        },
        None => seq![mv.piece.drop_char()->0, '*'] + coord_text(mv.to@),
    }
}

impl Move {
    /// Whether the move's squares are on the board and, for a drop, its piece
    /// can be dropped and is not promoted on the way.
    pub open spec fn well_formed(self) -> bool {
        &&& self.to.on_board()
        &&& match self.from {
            Some(from) => from.on_board(),
            None => self.piece.drop_char() is Some && !self.promote,
        }
    }

    pub open spec fn spec_is_drop(self) -> bool {
        self.from is None
    }

    pub fn normal(from: Square, to: Square, piece: PieceKind, promote: bool) -> (mv: Move)
        ensures
            mv == (Move { from: Some(from), to, piece, promote }),
    {
        Move { from: Some(from), to, piece, promote }
    }

    pub fn drop(to: Square, piece: PieceKind) -> (mv: Move)
        ensures
            mv == (Move { from: None, to, piece, promote: false }),
    {
        Move { from: None, to, piece, promote: false }
    }

    #[verifier::when_used_as_spec(spec_is_drop)]
    pub fn is_drop(self) -> (r: bool)
        ensures
            r == self.spec_is_drop(),
    {
        self.from.is_none()
    }

    /// The characters of the move's text.
    pub fn usi_chars(&self) -> (v: Vec<char>)
        requires
            self.from is None ==> self.piece.drop_char() is Some,
        ensures
            v@ == usi_text(*self),
    {
        let mut v: Vec<char> = Vec::new();
        let (tf, tr) = self.to.coord_chars();
        match self.from {
            Some(from) => {
                let (ff, fr) = from.coord_chars();
                v.push(ff);
                v.push(fr);
                v.push(tf);
                v.push(tr);
                if self.promote {
                    v.push('+');
                }
                proof {
                    assert(coord_text(from@) =~= seq![ff, fr]);
                    assert(coord_text(self.to@) =~= seq![tf, tr]);
                    assert(v@ =~= usi_text(*self));
                }
            },
            None => {
                let piece_char = match self.piece.drop_char() {
                    Some(c) => c,
                    None => 'P',
                };
                v.push(piece_char);
                v.push('*');
                v.push(tf);
                v.push(tr);
                proof {
                    assert(coord_text(self.to@) =~= seq![tf, tr]);
                    assert(v@ =~= usi_text(*self));
                }
            },
        }
        v
    }

    /// Writes the move in the engine protocol's notation, such as `5e5d`,
    /// `2c2b+` or `G*3c`.
    pub fn to_usi(&self) -> (s: String)
        requires
            self.from is None ==> self.piece.drop_char() is Some,
        ensures
            s@ == usi_text(*self),
    {
        let v = self.usi_chars();
        crate::text::text_of(&v)
    }
}

/// Two well-formed moves with the same text are the same move, provided that
/// moves from the same square move the same kind of piece.
pub proof fn lemma_usi_text_injective(a: Move, b: Move)
    requires
        a.well_formed(),
        b.well_formed(),
        a.from is Some && a.from == b.from ==> a.piece == b.piece,
        usi_text(a) == usi_text(b),
    ensures
        a == b,
{
    a.to.lemma_on_board();
    b.to.lemma_on_board();
    let ta = usi_text(a);
    let tb = usi_text(b);
    assert(coord_text(a.to@).len() == 2);
    assert(coord_text(b.to@).len() == 2);
    match (a.from, b.from) {
        (Some(fa), Some(fb)) => {
            fa.lemma_on_board();
            fb.lemma_on_board();
            assert(ta.len() == tb.len());
            assert(a.promote == b.promote);
            assert(ta[0] == tb[0] && ta[1] == tb[1] && ta[2] == tb[2] && ta[3] == tb[3]);
            assert(coord_text(fa@) =~= coord_text(fb@));
            assert(coord_text(a.to@) =~= coord_text(b.to@));
            lemma_coord_injective(fa@, fb@);
            lemma_coord_injective(a.to@, b.to@);
            Square::lemma_index_determines(fa, fb);
            Square::lemma_index_determines(a.to, b.to);
        },
        (None, None) => {
            assert(ta[0] == tb[0] && ta[2] == tb[2] && ta[3] == tb[3]);
            assert(coord_text(a.to@) =~= coord_text(b.to@));
            lemma_coord_injective(a.to@, b.to@);
            Square::lemma_index_determines(a.to, b.to);
        },
        (Some(fa), None) => {
            assert(ta[1] != '*');
            assert(tb[1] == '*');
        },
        (None, Some(fb)) => {
            assert(tb[1] != '*');
            assert(ta[1] == '*');
        },
    }
}

} // verus!
