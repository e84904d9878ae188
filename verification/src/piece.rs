use vstd::prelude::*;

verus! {

/// The two sides. Black moves first and plays towards rank 0.
#[derive(Clone, Copy, Debug, PartialEq, Eq, Hash, Structural)]
pub enum Color {
    Black,
    White,
}

impl Color {
    pub open spec fn spec_index(self) -> int {
        match self {
            Color::Black => 0,
            Color::White => 1,
        }
    }

    pub open spec fn spec_opponent(self) -> Color {
        match self {
            Color::Black => Color::White,
            Color::White => Color::Black,
        }
    }

    pub fn index(self) -> (i: usize)
        ensures
            i == self.spec_index(),
            i < 2,
    {
        match self {
            Color::Black => 0,
            Color::White => 1,
        }
    }

    #[verifier::when_used_as_spec(spec_opponent)]
    pub fn opponent(self) -> (c: Color)
        ensures
            c == self.spec_opponent(),
    {
        match self {
            Color::Black => Color::White,
            Color::White => Color::Black,
        }
    }

    /// The opponent of the opponent is the side itself.
    pub proof fn lemma_opponent_involution(self)
        ensures
            self.opponent().opponent() == self,
            self.opponent() != self,
    {
    }
}

pub const COLORS: [Color; 2] = [Color::Black, Color::White];

/// The colour with the given index: Black is 0, White is 1.
pub open spec fn color_at(index: int) -> Color {
    if index == 0 {
        Color::Black
    } else {
        Color::White
    }
}

/// The ten kinds of piece, promoted forms included.
#[derive(Clone, Copy, Debug, PartialEq, Eq, Hash, Structural)]
pub enum PieceKind {
    King,
    Gold,
    Silver,
    PromotedSilver,
    Bishop,
    PromotedBishop,
    Rook,
    PromotedRook,
    Pawn,
    Tokin,
}

pub const PIECE_KIND_COUNT: usize = 10;

/// The kind with the given index, in the order of declaration.
pub open spec fn kind_at(index: int) -> PieceKind {
    if index == 0 {
        PieceKind::King
    } else if index == 1 {
        PieceKind::Gold
    } else if index == 2 {
        PieceKind::Silver
    } else if index == 3 {
        PieceKind::PromotedSilver
    } else if index == 4 {
        PieceKind::Bishop
    } else if index == 5 {
        PieceKind::PromotedBishop
    } else if index == 6 {
        PieceKind::Rook
    } else if index == 7 {
        PieceKind::PromotedRook
    } else if index == 8 {
        PieceKind::Pawn
    } else {
        PieceKind::Tokin
    }
}

/// The base kind that a lower-case or upper-case board letter names.
pub open spec fn base_of_letter(ch: char) -> Option<PieceKind> {
    if ch == 'k' || ch == 'K' {
        Some(PieceKind::King)
    } else if ch == 'g' || ch == 'G' {
        Some(PieceKind::Gold)
    } else if ch == 's' || ch == 'S' {
        Some(PieceKind::Silver)
    } else if ch == 'b' || ch == 'B' {
        Some(PieceKind::Bishop)
    } else if ch == 'r' || ch == 'R' {
        Some(PieceKind::Rook)
    } else if ch == 'p' || ch == 'P' {
        Some(PieceKind::Pawn)
    } else {
        None
    }
}

/// The kind that a board letter names, promoted if asked for and possible.
pub open spec fn kind_of_letter(ch: char, promoted: bool) -> Option<PieceKind> {
    match base_of_letter(ch) {
        Some(base) => if promoted {
            base.promote()
        } else {
            Some(base)
        },
        None => None,
    }
}

/// The droppable kind that a drop letter names, in either case.
pub open spec fn kind_of_drop_char(ch: char) -> Option<PieceKind> {
    if ch == 'g' || ch == 'G' {
        Some(PieceKind::Gold)
    } else if ch == 's' || ch == 'S' {
        Some(PieceKind::Silver)
    } else if ch == 'b' || ch == 'B' {
        Some(PieceKind::Bishop)
    } else if ch == 'r' || ch == 'R' {
        Some(PieceKind::Rook)
    } else if ch == 'p' || ch == 'P' {
        Some(PieceKind::Pawn)
    } else {
        None
    }
}

/// The upper-case form of a lower-case piece letter.
pub open spec fn upper_letter(ch: char) -> char {
    if ch == 'k' {
        'K'
    } else if ch == 'g' {
        'G'
    } else if ch == 's' {
        'S'
    } else if ch == 'b' {
        'B'
    } else if ch == 'r' {
        'R'
    } else if ch == 'p' {
        'P'
    } else {
        ch
    }
}

impl PieceKind {
    pub open spec fn spec_index(self) -> int {
        match self {
            PieceKind::King => 0,
            PieceKind::Gold => 1,
            PieceKind::Silver => 2,
            PieceKind::PromotedSilver => 3,
            PieceKind::Bishop => 4,
            PieceKind::PromotedBishop => 5,
            PieceKind::Rook => 6,
            PieceKind::PromotedRook => 7,
            PieceKind::Pawn => 8,
            PieceKind::Tokin => 9,
        }
    }

    pub open spec fn spec_is_promoted(self) -> bool {
        self == PieceKind::PromotedSilver || self == PieceKind::PromotedBishop || self
            == PieceKind::PromotedRook || self == PieceKind::Tokin
    }

    pub open spec fn spec_can_promote(self) -> bool {
        self == PieceKind::Silver || self == PieceKind::Bishop || self == PieceKind::Rook || self
            == PieceKind::Pawn
    }

    pub open spec fn spec_promote(self) -> Option<PieceKind> {
        match self {
            PieceKind::Silver => Some(PieceKind::PromotedSilver),
            PieceKind::Bishop => Some(PieceKind::PromotedBishop),
            PieceKind::Rook => Some(PieceKind::PromotedRook),
            PieceKind::Pawn => Some(PieceKind::Tokin),
            _ => None,
        }
    }

    pub open spec fn spec_demote(self) -> Option<PieceKind> {
        match self {
            PieceKind::PromotedSilver => Some(PieceKind::Silver),
            PieceKind::PromotedBishop => Some(PieceKind::Bishop),
            PieceKind::PromotedRook => Some(PieceKind::Rook),
            PieceKind::Tokin => Some(PieceKind::Pawn),
            _ => None,
        }
    }

    pub open spec fn spec_base(self) -> PieceKind {
        match self {
            PieceKind::PromotedSilver => PieceKind::Silver,
            PieceKind::PromotedBishop => PieceKind::Bishop,
            PieceKind::PromotedRook => PieceKind::Rook,
            PieceKind::Tokin => PieceKind::Pawn,
            other => other,
        }
    }

    /// The lower-case letter of the kind's base form.
    pub open spec fn spec_sfen_letter(self) -> char {
        match self.spec_base() {
            PieceKind::King => 'k',
            PieceKind::Gold => 'g',
            PieceKind::Silver => 's',
            PieceKind::Bishop => 'b',
            PieceKind::Rook => 'r',
            _ => 'p',
        }
    }

    /// The upper-case letter by which a droppable kind is dropped.
    pub open spec fn spec_drop_char(self) -> Option<char> {
        match self {
            PieceKind::Gold => Some('G'),
            PieceKind::Silver => Some('S'),
            PieceKind::Bishop => Some('B'),
            PieceKind::Rook => Some('R'),
            PieceKind::Pawn => Some('P'),
            _ => None,
        }
    }

    pub fn index(self) -> (i: usize)
        ensures
            i == self.spec_index(),
            i < 10,
            kind_at(i as int) == self,
    {
        match self {
            PieceKind::King => 0,
            PieceKind::Gold => 1,
            PieceKind::Silver => 2,
            PieceKind::PromotedSilver => 3,
            PieceKind::Bishop => 4,
            PieceKind::PromotedBishop => 5,
            PieceKind::Rook => 6,
            PieceKind::PromotedRook => 7,
            PieceKind::Pawn => 8,
            PieceKind::Tokin => 9,
        }
    }

    /// All ten kinds, each at its own index.
    pub fn all() -> (kinds: [PieceKind; 10])
        ensures
            forall|i: int| 0 <= i < 10 ==> #[trigger] kinds[i] == kind_at(i),
    {
        [
            PieceKind::King,
            PieceKind::Gold,
            PieceKind::Silver,
            PieceKind::PromotedSilver,
            PieceKind::Bishop,
            PieceKind::PromotedBishop,
            PieceKind::Rook,
            PieceKind::PromotedRook,
            PieceKind::Pawn,
            PieceKind::Tokin,
        ]
    }

    #[verifier::when_used_as_spec(spec_is_promoted)]
    pub fn is_promoted(self) -> (b: bool)
        ensures
            b == self.spec_is_promoted(),
    {
        matches!(
            self,
            PieceKind::PromotedSilver | PieceKind::PromotedBishop | PieceKind::PromotedRook
                | PieceKind::Tokin
        )
    }

    #[verifier::when_used_as_spec(spec_can_promote)]
    pub fn can_promote(self) -> (b: bool)
        ensures
            b == self.spec_can_promote(),
    {
        matches!(self, PieceKind::Silver | PieceKind::Bishop | PieceKind::Rook | PieceKind::Pawn)
    }

    #[verifier::when_used_as_spec(spec_promote)]
    pub fn promote(self) -> (r: Option<PieceKind>)
        ensures
            r == self.spec_promote(),
    {
        match self {
            PieceKind::Silver => Some(PieceKind::PromotedSilver),
            PieceKind::Bishop => Some(PieceKind::PromotedBishop),
            PieceKind::Rook => Some(PieceKind::PromotedRook),
            PieceKind::Pawn => Some(PieceKind::Tokin),
            _ => None,
        }
    }

    #[verifier::when_used_as_spec(spec_demote)]
    pub fn demote(self) -> (r: Option<PieceKind>)
        ensures
            r == self.spec_demote(),
    {
        match self {
            PieceKind::PromotedSilver => Some(PieceKind::Silver),
            PieceKind::PromotedBishop => Some(PieceKind::Bishop),
            PieceKind::PromotedRook => Some(PieceKind::Rook),
            PieceKind::Tokin => Some(PieceKind::Pawn),
            _ => None,
        }
    }

    #[verifier::when_used_as_spec(spec_base)]
    pub fn base(self) -> (k: PieceKind)
        ensures
            k == self.spec_base(),
    {
        match self {
            PieceKind::PromotedSilver => PieceKind::Silver,
            PieceKind::PromotedBishop => PieceKind::Bishop,
            PieceKind::PromotedRook => PieceKind::Rook,
            PieceKind::Tokin => PieceKind::Pawn,
            other => other,
        }
    }

    #[verifier::when_used_as_spec(spec_sfen_letter)]
    pub fn sfen_letter(self) -> (ch: char)
        ensures
            ch == self.spec_sfen_letter(),
    {
        match self.base() {
            PieceKind::King => 'k',
            PieceKind::Gold => 'g',
            PieceKind::Silver => 's',
            PieceKind::Bishop => 'b',
            PieceKind::Rook => 'r',
            _ => 'p',
        }
    }

    /// Reads a board letter in either case; with `promoted`, gives the promoted
    /// form, and nothing where the kind has none.
    pub fn from_sfen_letter(ch: char, promoted: bool) -> (r: Option<PieceKind>)
        ensures
            r == kind_of_letter(ch, promoted),
    {
        let base = if ch == 'k' || ch == 'K' {
            PieceKind::King
        } else if ch == 'g' || ch == 'G' {
            PieceKind::Gold
        } else if ch == 's' || ch == 'S' {
            PieceKind::Silver
        } else if ch == 'b' || ch == 'B' {
            PieceKind::Bishop
        } else if ch == 'r' || ch == 'R' {
            PieceKind::Rook
        } else if ch == 'p' || ch == 'P' {
            PieceKind::Pawn
        } else {
            return None;
        };
        if promoted {
            base.promote()
        } else {
            Some(base)
        }
    }

    #[verifier::when_used_as_spec(spec_drop_char)]
    pub fn drop_char(self) -> (r: Option<char>)
        ensures
            r == self.spec_drop_char(),
    {
        match self {
            PieceKind::Gold => Some('G'),
            PieceKind::Silver => Some('S'),
            PieceKind::Bishop => Some('B'),
            PieceKind::Rook => Some('R'),
            PieceKind::Pawn => Some('P'),
            _ => None,
        }
    }

    /// Reads a drop letter in either case.
    pub fn from_drop_char(ch: char) -> (r: Option<PieceKind>)
        ensures
            r == kind_of_drop_char(ch),
    {
        if ch == 'g' || ch == 'G' {
            Some(PieceKind::Gold)
        } else if ch == 's' || ch == 'S' {
            Some(PieceKind::Silver)
        } else if ch == 'b' || ch == 'B' {
            Some(PieceKind::Bishop)
        } else if ch == 'r' || ch == 'R' {
            Some(PieceKind::Rook)
        } else if ch == 'p' || ch == 'P' {
            Some(PieceKind::Pawn)
        } else {
            None
        }
    }

    /// Promotion and demotion undo each other, and both keep the base kind.
    pub proof fn lemma_promotion_relations(self)
        ensures
            self.can_promote() <==> self.promote() is Some,
            self.is_promoted() <==> self.demote() is Some,
            self.promote() is Some ==> self.promote()->0.demote() == Some(self)
                && self.promote()->0.base() == self && self.promote()->0.is_promoted(),
            self.demote() is Some ==> self.demote()->0.promote() == Some(self)
                && self.demote()->0 == self.base(),
            !self.base().is_promoted(),
            !self.is_promoted() ==> self.base() == self,
            self.base().base() == self.base(),
    {
    }

    /// Reading a kind's board letter, with its promotion mark, gives the kind back.
    pub proof fn lemma_letter_round_trip(self)
        ensures
            kind_of_letter(self.sfen_letter(), self.is_promoted()) == Some(self),
            kind_of_letter(upper_letter(self.sfen_letter()), self.is_promoted()) == Some(self),
            self.drop_char() is Some ==> kind_of_drop_char(self.drop_char()->0) == Some(self),
    {
    }
}

/// A piece on the board: its owner and its kind.
#[derive(Clone, Copy, Debug, PartialEq, Eq, Structural)]
pub struct Piece {
    pub color: Color,
    pub kind: PieceKind,
}

/// The board text of a piece: `+` if promoted, then its letter, upper case for Black.
pub open spec fn piece_text(piece: Piece) -> Seq<char> {
    let letter = if piece.color == Color::Black {
        upper_letter(piece.kind.sfen_letter())
    } else {
        piece.kind.sfen_letter()
    };
    if piece.kind.is_promoted() {
        seq!['+', letter]
    } else {
        seq![letter]
    }
}

impl Piece {
    pub fn new(color: Color, kind: PieceKind) -> (p: Piece)
        ensures
            p == (Piece { color, kind }),
    {
        Piece { color, kind }
    }

    /// The piece's letter, upper case for Black and lower case for White.
    pub fn letter(self) -> (ch: char)
        ensures
            ch == if self.color == Color::Black {
                upper_letter(self.kind.sfen_letter())
            } else {
                self.kind.sfen_letter()
            },
    {
        let ch = self.kind.sfen_letter();
        match self.color {
            Color::White => ch,
            Color::Black => if ch == 'k' {
                'K'
            } else if ch == 'g' {
                'G'
            } else if ch == 's' {
                'S'
            } else if ch == 'b' {
                'B'
            } else if ch == 'r' {
                'R'
            } else {
                'P'
            },
        }
    }

    pub fn to_sfen(self) -> (txt: String)
        ensures
            txt@ == piece_text(self),
    {
        let mut txt = String::new();
        if self.kind.is_promoted() {
            txt.push('+');
        }
        txt.push(self.letter());
        txt
    }
}

} // verus!
