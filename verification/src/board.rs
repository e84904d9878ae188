use vstd::prelude::*;

verus! {

pub const BOARD_FILES: usize = 5;

pub const BOARD_RANKS: usize = 5;

pub const BOARD_SQUARES: usize = 25;

/// The digit that names a file: file 0 prints `1`, file 4 prints `5`.
pub open spec fn file_char(file: int) -> char {
    if file == 0 {
        '1'
    } else if file == 1 {
        '2'
    } else if file == 2 {
        '3'
    } else if file == 3 {
        '4'
    } else {
        '5'
    }
}

/// The letter that names a rank: rank 0 prints `a`, rank 4 prints `e`.
pub open spec fn rank_char(rank: int) -> char {
    if rank == 0 {
        'a'
    } else if rank == 1 {
        'b'
    } else if rank == 2 {
        'c'
    } else if rank == 3 {
        'd'
    } else {
        'e'
    }
}

/// The two-character coordinate of the square with the given index.
pub open spec fn coord_text(index: int) -> Seq<char> {
    seq![file_char(index % 5), rank_char(index / 5)]
}

/// The file that a digit names, if it names one.
pub open spec fn file_of_char(c: char) -> Option<int> {
    if c == '1' {
        Some(0)
    } else if c == '2' {
        Some(1)
    } else if c == '3' {
        Some(2)
    } else if c == '4' {
        Some(3)
    } else if c == '5' {
        Some(4)
    } else {
        None
    }
}

/// The rank that a letter names, if it names one.
pub open spec fn rank_of_char(c: char) -> Option<int> {
    if c == 'a' {
        Some(0)
    } else if c == 'b' {
        Some(1)
    } else if c == 'c' {
        Some(2)
    } else if c == 'd' {
        Some(3)
    } else if c == 'e' {
        Some(4)
    } else {
        None
    }
}

/// The index of the square that a coordinate names, if it names one.
pub open spec fn parse_coord(s: Seq<char>) -> Option<int> {
    if s.len() == 2 && file_of_char(s[0]) is Some && rank_of_char(s[1]) is Some {
        Some(rank_of_char(s[1])->0 * 5 + file_of_char(s[0])->0)
    } else {
        None
    }
}

/// The index reached from `index` by `df` files and `dr` ranks, if it is on the board.
pub open spec fn offset_index(index: int, df: int, dr: int) -> Option<int> {
    let file = index % 5 + df;
    let rank = index / 5 + dr;
    if 0 <= file < 5 && 0 <= rank < 5 {
        Some(rank * 5 + file)
    } else {
        None
    }
}

/// One of the 25 squares of the board, numbered rank by rank.
#[derive(Clone, Copy, Debug, PartialEq, Eq, Hash, Structural)]
pub struct Square(u8);

impl View for Square {
    type V = int;

    /// The square's index, `rank * 5 + file`.
    closed spec fn view(&self) -> int {
        self.0 as int
    }
}

impl Square {
    /// Every square that executable code can hold lies on the board.
    #[verifier::type_invariant]
    pub closed spec fn on_board(self) -> bool {
        self.0 < 25
    }

    /// The square with the given index.
    pub closed spec fn at(index: int) -> Square {
        Square(index as u8)
    }

    /// The square with an index has that index.
    pub proof fn lemma_at(index: int)
        requires
            0 <= index < 25,
        ensures
            Square::at(index)@ == index,
            Square::at(index).on_board(),
    {
    }

    /// A square is the square with its index.
    pub proof fn lemma_at_view(self)
        ensures
            Square::at(self@) == self,
    {
    }

    /// A square is on the board exactly when its index is below 25.
    pub proof fn lemma_on_board(self)
        ensures
            self.on_board() <==> 0 <= self@ < 25,
            0 <= self@ < 256,
    {
    }

    /// Two squares with the same index are the same square.
    pub proof fn lemma_index_determines(a: Square, b: Square)
        ensures
            a@ == b@ <==> a == b,
    {
    }

    pub fn from_file_rank(file: u8, rank: u8) -> (sq: Square)
        requires
            file < 5,
            rank < 5,
        ensures
            sq@ == rank * 5 + file,
            sq.on_board(),
    {
        Square(rank * 5 + file)
    }

    pub fn from_index(index: u8) -> (sq: Square)
        requires
            index < 25,
        ensures
            sq@ == index,
            sq.on_board(),
    {
        Square(index)
    }

    pub fn index(self) -> (i: u32)
        ensures
            i == self@,
            i < 25,
            self.on_board(),
    {
        proof {
            use_type_invariant(&self);
        }
        self.0 as u32
    }

    pub fn file(self) -> (f: u8)
        ensures
            f == self@ % 5,
            f < 5,
    {
        self.0 % 5
    }

    pub fn rank(self) -> (r: u8)
        ensures
            r == self@ / 5,
            r < 5,
    {
        proof {
            use_type_invariant(&self);
        }
        self.0 / 5
    }

    /// The square `df` files and `dr` ranks away, if there is one.
    pub fn offset(self, df: i8, dr: i8) -> (r: Option<Square>)
        ensures
            r is Some <==> offset_index(self@, df as int, dr as int) is Some,
            r is Some ==> r->0@ == offset_index(self@, df as int, dr as int)->0 && r->0.on_board(),
    {
        let file: i16 = self.file() as i16 + df as i16;
        let rank: i16 = self.rank() as i16 + dr as i16;
        if 0 <= file && file < 5 && 0 <= rank && rank < 5 {
            Some(Self::from_file_rank(file as u8, rank as u8))
        } else {
            None
        }
    }

    /// Reads a coordinate such as `3c`: a file digit `1..5`, then a rank letter `a..e`.
    pub fn from_coord(coord: &str) -> (r: Option<Square>)
        ensures
            r is Some <==> parse_coord(coord@) is Some,
            r is Some ==> r->0@ == parse_coord(coord@)->0 && r->0.on_board(),
    {
        if coord.unicode_len() != 2 {
            return None;
        }
        let file_char = coord.get_char(0);
        let rank_char = coord.get_char(1);
        let file: u8 = if file_char == '1' {
            0
        } else if file_char == '2' {
            1
        } else if file_char == '3' {
            2
        } else if file_char == '4' {
            3
        } else if file_char == '5' {
            4
        } else {
            return None;
        };
        let rank: u8 = if rank_char == 'a' {
            0
        } else if rank_char == 'b' {
            1
        } else if rank_char == 'c' {
            2
        } else if rank_char == 'd' {
            3
        } else if rank_char == 'e' {
            4
        } else {
            return None;
        };
        Some(Self::from_file_rank(file, rank))
    }

    /// The characters of the square's coordinate.
    pub fn coord_chars(self) -> (r: (char, char))
        ensures
            seq![r.0, r.1] == coord_text(self@),
    {
        let file = self.file();
        let rank = self.rank();
        let fc = if file == 0 {
            '1'
        } else if file == 1 {
            '2'
        } else if file == 2 {
            '3'
        } else if file == 3 {
            '4'
        } else {
            '5'
        };
        let rc = if rank == 0 {
            'a'
        } else if rank == 1 {
            'b'
        } else if rank == 2 {
            'c'
        } else if rank == 3 {
            'd'
        } else {
            'e'
        };
        (fc, rc)
    }

    /// Writes the square as a coordinate such as `1e`.
    pub fn to_coord(self) -> (s: String)
        ensures
            s@ == coord_text(self@),
    {
        let (fc, rc) = self.coord_chars();
        let mut s = String::new();
        s.push(fc);
        s.push(rc);
        s
    }
}

/// Reading a square's coordinate gives the square back.
pub proof fn lemma_coord_round_trip(index: int)
    requires
        0 <= index < 25,
    ensures
        parse_coord(coord_text(index)) == Some(index),
{
}

/// Squares with different indices have different coordinates.
pub proof fn lemma_coord_injective(a: int, b: int)
    requires
        0 <= a < 25,
        0 <= b < 25,
        coord_text(a) == coord_text(b),
    ensures
        a == b,
{
    lemma_coord_round_trip(a);
    lemma_coord_round_trip(b);
}

/// All squares, from index 0 (file 1, rank a) to index 24 (file 5, rank e).
pub fn all_squares() -> (squares: [Square; 25])
    ensures
        forall|i: int| 0 <= i < 25 ==> (#[trigger] squares[i])@ == i && squares[i].on_board(),
{
    let mut squares = [Square(0);25];
    let mut idx: u8 = 0;
    while idx < 25
        invariant
            idx <= 25,
            forall|i: int| 0 <= i < idx ==> (#[trigger] squares[i])@ == i && squares[i].on_board(),
        decreases 25 - idx,
    {
        squares[idx as usize] = Square(idx);
        idx += 1;
    }
    squares
}

} // verus!
