use vstd::prelude::*;
use crate::piece::PieceKind;
use crate::text::text_of;

verus! {

/// The five kinds that can be held in hand and dropped.
#[derive(Clone, Copy, Debug, PartialEq, Eq, Structural)]
pub enum HandPieceKind {
    Gold,
    Silver,
    Bishop,
    Rook,
    Pawn,
}

pub const HAND_PIECE_KIND_COUNT: usize = 5;

/// The largest number of pieces of one kind that a hand holds.
pub const HAND_MAX_COUNT: usize = 6;

/// The hand kind with the given index, in the order of declaration.
pub open spec fn hand_kind_at(index: int) -> HandPieceKind {
    if index == 0 {
        HandPieceKind::Gold
    } else if index == 1 {
        HandPieceKind::Silver
    } else if index == 2 {
        HandPieceKind::Bishop
    } else if index == 3 {
        HandPieceKind::Rook
    } else {
        HandPieceKind::Pawn
    }
}

/// The hand kind of a piece kind, for the five kinds that can be dropped.
pub open spec fn hand_kind_of(kind: PieceKind) -> Option<HandPieceKind> {
    match kind {
        PieceKind::Gold => Some(HandPieceKind::Gold),
        PieceKind::Silver => Some(HandPieceKind::Silver),
        PieceKind::Bishop => Some(HandPieceKind::Bishop),
        PieceKind::Rook => Some(HandPieceKind::Rook),
        PieceKind::Pawn => Some(HandPieceKind::Pawn),
        _ => None,
    }
}

/// The character that prints a count between 0 and 9.
pub open spec fn digit_char(d: int) -> char {
    if d == 0 {
        '0'
    } else if d == 1 {
        '1'
    } else if d == 2 {
        '2'
    } else if d == 3 {
        '3'
    } else if d == 4 {
        '4'
    } else if d == 5 {
        '5'
    } else if d == 6 {
        '6'
    } else if d == 7 {
        '7'
    } else if d == 8 {
        '8'
    } else {
        '9'
    }
}

/// The lower-case form of a hand letter.
pub open spec fn lower_hand_letter(ch: char) -> char {
    if ch == 'G' {
        'g'
    } else if ch == 'S' {
        's'
    } else if ch == 'B' {
        'b'
    } else if ch == 'R' {
        'r'
    } else {
        'p'
    }
}

/// The text of one kind in hand: nothing for none, the letter for one, and
/// the count before the letter for more.
pub open spec fn hand_token(kind: HandPieceKind, count: nat, lower: bool) -> Seq<char> {
    let letter = if lower {
        lower_hand_letter(kind.to_char())
    } else {
        kind.to_char()
    };
    if count == 0 {
        Seq::<char>::empty()
    } else if count == 1 {
        seq![letter]
    } else {
        seq![digit_char(count as int), letter]
    }
}

/// The text of the first `n` kinds of a hand, in the order of declaration.
pub open spec fn hand_text_upto(counts: Seq<nat>, lower: bool, n: int) -> Seq<char>
    decreases n,
{
    if n <= 0 {
        Seq::<char>::empty()
    } else {
        hand_text_upto(counts, lower, n - 1) + hand_token(hand_kind_at(n - 1), counts[n - 1], lower)
    }
}

/// The text of a whole hand.
pub open spec fn hand_text(counts: Seq<nat>, lower: bool) -> Seq<char> {
    hand_text_upto(counts, lower, 5)
}

impl HandPieceKind {
    pub open spec fn spec_index(self) -> int {
        match self {
            HandPieceKind::Gold => 0,
            HandPieceKind::Silver => 1,
            HandPieceKind::Bishop => 2,
            HandPieceKind::Rook => 3,
            HandPieceKind::Pawn => 4,
        }
    }

    pub open spec fn spec_to_char(self) -> char {
        match self {
            HandPieceKind::Gold => 'G',
            HandPieceKind::Silver => 'S',
            HandPieceKind::Bishop => 'B',
            HandPieceKind::Rook => 'R',
            HandPieceKind::Pawn => 'P',
        }
    }

    /// The piece kind that this hand kind is dropped as.
    pub open spec fn spec_piece_kind(self) -> PieceKind {
        match self {
            HandPieceKind::Gold => PieceKind::Gold,
            HandPieceKind::Silver => PieceKind::Silver,
            HandPieceKind::Bishop => PieceKind::Bishop,
            HandPieceKind::Rook => PieceKind::Rook,
            HandPieceKind::Pawn => PieceKind::Pawn,
        }
    }

    /// All five hand kinds, each at its own index.
    pub fn all() -> (kinds: [HandPieceKind; 5])
        ensures
            forall|i: int| 0 <= i < 5 ==> #[trigger] kinds[i] == hand_kind_at(i),
    {
        [
            HandPieceKind::Gold,
            HandPieceKind::Silver,
            HandPieceKind::Bishop,
            HandPieceKind::Rook,
            HandPieceKind::Pawn,
        ]
    }

    pub fn index(self) -> (i: usize)
        ensures
            i == self.spec_index(),
            i < 5,
            hand_kind_at(i as int) == self,
    {
        match self {
            HandPieceKind::Gold => 0,
            HandPieceKind::Silver => 1,
            HandPieceKind::Bishop => 2,
            HandPieceKind::Rook => 3,
            HandPieceKind::Pawn => 4,
        }
    }

    pub fn from_piece_kind(kind: PieceKind) -> (r: Option<HandPieceKind>)
        ensures
            r == hand_kind_of(kind),
    {
        match kind {
            PieceKind::Gold => Some(HandPieceKind::Gold),
            PieceKind::Silver => Some(HandPieceKind::Silver),
            PieceKind::Bishop => Some(HandPieceKind::Bishop),
            PieceKind::Rook => Some(HandPieceKind::Rook),
            PieceKind::Pawn => Some(HandPieceKind::Pawn),
            _ => None,
        }
    }

    #[verifier::when_used_as_spec(spec_piece_kind)]
    pub fn piece_kind(self) -> (k: PieceKind)
        ensures
            k == self.spec_piece_kind(),
            hand_kind_of(k) == Some(self),
    {
        match self {
            HandPieceKind::Gold => PieceKind::Gold,
            HandPieceKind::Silver => PieceKind::Silver,
            HandPieceKind::Bishop => PieceKind::Bishop,
            HandPieceKind::Rook => PieceKind::Rook,
            HandPieceKind::Pawn => PieceKind::Pawn,
        }
    }

    #[verifier::when_used_as_spec(spec_to_char)]
    pub fn to_char(self) -> (ch: char)
        ensures
            ch == self.spec_to_char(),
    {
        match self {
            HandPieceKind::Gold => 'G',
            HandPieceKind::Silver => 'S',
            HandPieceKind::Bishop => 'B',
            HandPieceKind::Rook => 'R',
            HandPieceKind::Pawn => 'P',
        }
    }

    /// The letter of the kind, in the case asked for.
    pub fn letter(self, lower: bool) -> (ch: char)
        ensures
            ch == if lower {
                lower_hand_letter(self.to_char())
            } else {
                self.to_char()
            },
    {
        if lower {
            match self {
                HandPieceKind::Gold => 'g',
                HandPieceKind::Silver => 's',
                HandPieceKind::Bishop => 'b',
                HandPieceKind::Rook => 'r',
                HandPieceKind::Pawn => 'p',
            }
        } else {
            self.to_char()
        }
    }

    /// A hand kind and the piece kind it is dropped as name each other.
    pub proof fn lemma_kind_round_trip(self)
        ensures
            hand_kind_of(self.piece_kind()) == Some(self),
            self.piece_kind().drop_char() == Some(self.to_char()),
            !self.piece_kind().is_promoted(),
            self.piece_kind() != PieceKind::King,
            0 <= self.spec_index() < 5,
            hand_kind_at(self.spec_index()) == self,
    {
    }
}

/// The digit that prints `d`, for `d` below ten.
pub fn digit_of(d: u8) -> (ch: char)
    requires
        d < 10,
    ensures
        ch == digit_char(d as int),
{
    if d == 0 {
        '0'
    } else if d == 1 {
        '1'
    } else if d == 2 {
        '2'
    } else if d == 3 {
        '3'
    } else if d == 4 {
        '4'
    } else if d == 5 {
        '5'
    } else if d == 6 {
        '6'
    } else if d == 7 {
        '7'
    } else if d == 8 {
        '8'
    } else {
        '9'
    }
}

/// The pieces that one side holds in hand: a count from 0 to 6 for each
/// droppable kind.
#[derive(Clone, Copy, Debug, PartialEq, Eq)]
pub struct Hand {
    counts: [u8; 5],
}

impl View for Hand {
    type V = Seq<nat>;

    /// The five counts, in the order of the hand kinds.
    closed spec fn view(&self) -> Seq<nat> {
        Seq::new(5, |i: int| self.counts[i] as nat)
    }
}

impl Default for Hand {
    fn default() -> (h: Hand)
        ensures
            h@ == Seq::new(5, |i: int| 0nat),
            h.bounded(),
    {
        let h = Hand { counts: [0;5] };
        assert(h@ =~= Seq::new(5, |i: int| 0nat));
        h
    }
}

impl Hand {
    /// No count of an executable hand is above the maximum.
    #[verifier::type_invariant]
    pub closed spec fn bounded(self) -> bool {
        forall|i: int| 0 <= i < 5 ==> #[trigger] self.counts[i] <= 6
    }

    /// The number of pieces of the given kind.
    pub open spec fn count_of(self, kind: HandPieceKind) -> nat {
        self@[kind.spec_index()]
    }

    /// A hand has five counts, and a bounded hand has none above six.
    pub proof fn lemma_view(self)
        ensures
            self@.len() == 5,
            self.bounded() <==> forall|i: int| 0 <= i < 5 ==> #[trigger] self@[i] <= 6,
            forall|i: int| 0 <= i < 5 ==> #[trigger] self@[i] <= 255,
    {
        if self.bounded() {
            assert forall|i: int| 0 <= i < 5 implies #[trigger] self@[i] <= 6 by {
                assert(self.counts[i] <= 6);
            }
        }
        if forall|i: int| 0 <= i < 5 ==> #[trigger] self@[i] <= 6 {
            assert forall|i: int| 0 <= i < 5 implies #[trigger] self.counts[i] <= 6 by {
                assert(self@[i] <= 6);
            }
        }
    }

    /// Hands with the same counts are equal.
    pub proof fn lemma_view_determines(a: Hand, b: Hand)
        requires
            a@ == b@,
        ensures
            a == b,
    {
        assert forall|i: int| 0 <= i < 5 implies a.counts[i] == b.counts[i] by {
            assert(a@[i] == a.counts[i] as nat);
            assert(b@[i] == b.counts[i] as nat);
        }
        assert(a.counts =~= b.counts);
    }

    /// Adds `amount` pieces of a kind, stopping at the maximum of six; returns
    /// the new count.
    pub fn add(&mut self, kind: HandPieceKind, amount: u8) -> (r: u8)
        ensures
            r == if old(self).count_of(kind) + amount > 6 {
                6
            } else {
                old(self).count_of(kind) + amount
            },
            final(self)@ == old(self)@.update(kind.spec_index(), r as nat),
            final(self).bounded(),
    {
        proof {
            use_type_invariant(&*self);
        }
        let i = kind.index();
        let old_count = self.counts[i];
        let new_count: u8 = if amount > 6 - old_count {
            6
        } else {
            old_count + amount
        };
        self.counts[i] = new_count;
        assert(self@ =~= old(self)@.update(kind.spec_index(), new_count as nat));
        new_count
    }

    /// Takes `amount` pieces of a kind away, stopping at zero; returns the new
    /// count.
    pub fn remove(&mut self, kind: HandPieceKind, amount: u8) -> (r: u8)
        ensures
            r == if old(self).count_of(kind) < amount {
                0
            } else {
                old(self).count_of(kind) - amount
            },
            final(self)@ == old(self)@.update(kind.spec_index(), r as nat),
            final(self).bounded(),
    {
        proof {
            use_type_invariant(&*self);
        }
        let i = kind.index();
        let old_count = self.counts[i];
        let new_count: u8 = if amount > old_count {
            0
        } else {
            old_count - amount
        };
        self.counts[i] = new_count;
        assert(self@ =~= old(self)@.update(kind.spec_index(), new_count as nat));
        new_count
    }

    /// Sets the count of a kind; an amount above the maximum of six counts as six.
    pub fn set(&mut self, kind: HandPieceKind, amount: u8)
        ensures
            final(self)@ == old(self)@.update(
                kind.spec_index(),
                if amount > 6 {
                    6nat
                } else {
                    amount as nat
                },
            ),
            final(self).bounded(),
    {
        proof {
            use_type_invariant(&*self);
        }
        let i = kind.index();
        let new_count: u8 = if amount > 6 {
            6
        } else {
            amount
        };
        self.counts[i] = new_count;
        assert(self@ =~= old(self)@.update(kind.spec_index(), new_count as nat));
    }

    pub fn count(&self, kind: HandPieceKind) -> (r: u8)
        ensures
            r == self.count_of(kind),
            r <= 6,
            self.bounded(),
    {
        proof {
            use_type_invariant(self);
        }
        self.counts[kind.index()]
    }

    pub fn is_empty(&self) -> (r: bool)
        ensures
            r == forall|i: int| 0 <= i < 5 ==> #[trigger] self@[i] == 0,
    {
        let r = self.counts[0] == 0 && self.counts[1] == 0 && self.counts[2] == 0
            && self.counts[3] == 0 && self.counts[4] == 0;
        proof {
            if r {
                assert forall|i: int| 0 <= i < 5 implies #[trigger] self@[i] == 0 by {}
            } else {
                assert(self@[0] == self.counts[0] && self@[1] == self.counts[1] && self@[2]
                    == self.counts[2] && self@[3] == self.counts[3] && self@[4] == self.counts[4]);
            }
        }
        r
    }

    /// Appends the text of the hand to `out`.
    pub fn write_sfen(&self, lower: bool, out: &mut Vec<char>)
        ensures
            final(out)@ == old(out)@ + hand_text(self@, lower),
    {
        let kinds = HandPieceKind::all();
        let mut i: usize = 0;
        while i < 5
            invariant
                i <= 5,
                forall|j: int| 0 <= j < 5 ==> #[trigger] kinds[j] == hand_kind_at(j),
                out@ == old(out)@ + hand_text_upto(self@, lower, i as int),
            decreases 5 - i,
        {
            let kind = kinds[i];
            let count = self.count(kind);
            let ghost before = out@;
            if count > 1 {
                out.push(digit_of(count));
            }
            if count > 0 {
                out.push(kind.letter(lower));
            }
            proof {
                assert(out@ =~= before + hand_token(kind, count as nat, lower));
                assert(out@ =~= old(out)@ + hand_text_upto(self@, lower, i as int + 1));
            }
            i += 1;
        }
    }

    /// The text of the hand: for each kind held, its count if above one, then
    /// its letter, in lower case if asked for.
    pub fn to_sfen(&self, lower: bool) -> (s: String)
        ensures
            s@ == hand_text(self@, lower),
    {
        let mut out: Vec<char> = Vec::new();
        self.write_sfen(lower, &mut out);
        assert(out@ =~= hand_text(self@, lower));
        text_of(&out)
    }
}

} // verus!
