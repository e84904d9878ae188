use vstd::prelude::*;
use crate::board::Square;
use crate::hand::HandPieceKind;
use crate::piece::{Color, PieceKind};

verus! {

/// The seed of the key stream, and the increment of its mixing step.
pub const ZOBRIST_SEED: u64 = 0x9E37_79B9_7F4A_7C15;

/// One step of the SplitMix64 mixer.
pub open spec fn splitmix64_spec(x: u64) -> u64 {
    let x1 = x.wrapping_add(0x9E37_79B9_7F4A_7C15u64);
    let z1 = (x1 ^ (x1 >> 30)).wrapping_mul(0xBF58_476D_1CE4_E5B9u64);
    let z2 = (z1 ^ (z1 >> 27)).wrapping_mul(0x94D0_49BB_1331_11EBu64);
    z2 ^ (z2 >> 31)
}

/// The `n`-th value of the key stream: the seed, mixed `n` times.
pub open spec fn key_stream(n: nat) -> u64
    decreases n,
{
    if n == 0 {
        ZOBRIST_SEED
    } else {
        splitmix64_spec(key_stream((n - 1) as nat))
    }
}

/// The key of a piece of the given colour and kind on a square: the keys of
/// the 500 combinations are the first 500 values drawn from the stream.
pub open spec fn piece_square_key(color: Color, kind: PieceKind, square: int) -> u64 {
    key_stream((color.spec_index() * 250 + kind.spec_index() * 25 + square + 1) as nat)
}

/// The table slot of a hand count: counts above five share the last slot.
pub open spec fn hand_slot(count: int) -> int {
    if count >= 5 {
        5
    } else {
        count
    }
}

/// The key of a number of pieces of one kind in one side's hand: the next 60
/// values of the stream.
pub open spec fn hand_key(color: Color, kind: HandPieceKind, count: int) -> u64 {
    key_stream((500 + color.spec_index() * 30 + kind.spec_index() * 6 + hand_slot(count) + 1) as nat)
}

/// The key of White being the side to move: the value drawn last.
pub open spec fn side_key() -> u64 {
    key_stream(561)
}

fn splitmix64(x: u64) -> (r: u64)
    ensures
        r == splitmix64_spec(x),
{
    let x1 = x.wrapping_add(0x9E37_79B9_7F4A_7C15u64);
    let z1 = (x1 ^ (x1 >> 30)).wrapping_mul(0xBF58_476D_1CE4_E5B9u64);
    let z2 = (z1 ^ (z1 >> 27)).wrapping_mul(0x94D0_49BB_1331_11EBu64);
    z2 ^ (z2 >> 31)
}

/// The keys of every piece on every square, of every count in hand, and of
/// the side to move.
#[derive(Clone, Copy, Debug)]
pub struct ZobristTables {
    piece_square: [[[u64; 25]; 10]; 2],
    hand: [[[u64; 6]; 5]; 2],
    side_to_move: u64,
}

impl ZobristTables {
    /// Every table that executable code can hold is the generated one.
    #[verifier::type_invariant]
    pub closed spec fn generated(self) -> bool {
        &&& forall|c: int, k: int, s: int|
            0 <= c < 2 && 0 <= k < 10 && 0 <= s < 25 ==> #[trigger] self.piece_square[c][k][s]
                == key_stream((c * 250 + k * 25 + s + 1) as nat)
        &&& forall|c: int, k: int, n: int|
            0 <= c < 2 && 0 <= k < 5 && 0 <= n < 6 ==> #[trigger] self.hand[c][k][n] == key_stream(
                (500 + c * 30 + k * 6 + n + 1) as nat,
            )
        &&& self.side_to_move == key_stream(561)
    }

    /// Draws the 561 keys from the stream, in the order piece keys, hand
    /// keys, side key.
    pub fn generate() -> (t: ZobristTables)
        ensures
            t.generated(),
    {
        let mut state: u64 = ZOBRIST_SEED;
        let ghost mut drawn: nat = 0;
        let mut piece_square = [[[0u64;25];10];2];
        let mut color: usize = 0;
        while color < 2
            invariant
                color <= 2,
                drawn == color * 250,
                state == key_stream(drawn),
                forall|c: int, k: int, s: int|
                    0 <= c < color && 0 <= k < 10 && 0 <= s < 25 ==> #[trigger] piece_square[c][k][s]
                        == key_stream((c * 250 + k * 25 + s + 1) as nat),
            decreases 2 - color,
        {
            let mut kind: usize = 0;
            while kind < 10
                invariant
                    color < 2,
                    kind <= 10,
                    drawn == color * 250 + kind * 25,
                    state == key_stream(drawn),
                    forall|c: int, k: int, s: int|
                        0 <= c < color && 0 <= k < 10 && 0 <= s < 25
                            ==> #[trigger] piece_square[c][k][s] == key_stream(
                            (c * 250 + k * 25 + s + 1) as nat,
                        ),
                    forall|k: int, s: int|
                        0 <= k < kind && 0 <= s < 25 ==> #[trigger] piece_square[color as int][k][s]
                            == key_stream((color * 250 + k * 25 + s + 1) as nat),
                decreases 10 - kind,
            {
                let mut square: usize = 0;
                while square < 25
                    invariant
                        color < 2,
                        kind < 10,
                        square <= 25,
                        drawn == color * 250 + kind * 25 + square,
                        state == key_stream(drawn),
                        forall|c: int, k: int, s: int|
                            0 <= c < color && 0 <= k < 10 && 0 <= s < 25
                                ==> #[trigger] piece_square[c][k][s] == key_stream(
                                (c * 250 + k * 25 + s + 1) as nat,
                            ),
                        forall|k: int, s: int|
                            0 <= k < kind && 0 <= s < 25
                                ==> #[trigger] piece_square[color as int][k][s] == key_stream(
                                (color * 250 + k * 25 + s + 1) as nat,
                            ),
                        forall|s: int|
                            0 <= s < square ==> #[trigger] piece_square[color as int][kind as int][s]
                                == key_stream((color * 250 + kind * 25 + s + 1) as nat),
                    decreases 25 - square,
                {
                    state = splitmix64(state);
                    proof {
                        drawn = drawn + 1;
                    }
                    piece_square[color][kind][square] = state;
                    square += 1;
                }
                kind += 1;
            }
            color += 1;
        }
        let mut hand = [[[0u64;6];5];2];
        let mut color: usize = 0;
        while color < 2
            invariant
                color <= 2,
                drawn == 500 + color * 30,
                state == key_stream(drawn),
                forall|c: int, k: int, n: int|
                    0 <= c < color && 0 <= k < 5 && 0 <= n < 6 ==> #[trigger] hand[c][k][n]
                        == key_stream((500 + c * 30 + k * 6 + n + 1) as nat),
            decreases 2 - color,
        {
            let mut kind: usize = 0;
            while kind < 5
                invariant
                    color < 2,
                    kind <= 5,
                    drawn == 500 + color * 30 + kind * 6,
                    state == key_stream(drawn),
                    forall|c: int, k: int, n: int|
                        0 <= c < color && 0 <= k < 5 && 0 <= n < 6 ==> #[trigger] hand[c][k][n]
                            == key_stream((500 + c * 30 + k * 6 + n + 1) as nat),
                    forall|k: int, n: int|
                        0 <= k < kind && 0 <= n < 6 ==> #[trigger] hand[color as int][k][n]
                            == key_stream((500 + color * 30 + k * 6 + n + 1) as nat),
                decreases 5 - kind,
            {
                let mut count: usize = 0;
                while count < 6
                    invariant
                        color < 2,
                        kind < 5,
                        count <= 6,
                        drawn == 500 + color * 30 + kind * 6 + count,
                        state == key_stream(drawn),
                        forall|c: int, k: int, n: int|
                            0 <= c < color && 0 <= k < 5 && 0 <= n < 6 ==> #[trigger] hand[c][k][n]
                                == key_stream((500 + c * 30 + k * 6 + n + 1) as nat),
                        forall|k: int, n: int|
                            0 <= k < kind && 0 <= n < 6 ==> #[trigger] hand[color as int][k][n]
                                == key_stream((500 + color * 30 + k * 6 + n + 1) as nat),
                        forall|n: int|
                            0 <= n < count ==> #[trigger] hand[color as int][kind as int][n]
                                == key_stream((500 + color * 30 + kind * 6 + n + 1) as nat),
                    decreases 6 - count,
                {
                    state = splitmix64(state);
                    proof {
                        drawn = drawn + 1;
                    }
                    hand[color][kind][count] = state;
                    count += 1;
                }
                kind += 1;
            }
            color += 1;
        }
        let side_to_move = splitmix64(state);
        ZobristTables { piece_square, hand, side_to_move }
    }

    /// The key of a piece on a square.
    pub fn piece_square(&self, color: Color, kind: PieceKind, square: Square) -> (key: u64)
        ensures
            key == piece_square_key(color, kind, square@),
    {
        proof {
            use_type_invariant(self);
        }
        self.piece_square[color.index()][kind.index()][square.index() as usize]
    }

    /// The key of a count of one kind in one side's hand.
    pub fn hand(&self, color: Color, kind: HandPieceKind, count: usize) -> (key: u64)
        ensures
            key == hand_key(color, kind, count as int),
    {
        proof {
            use_type_invariant(self);
        }
        let idx = if count >= 5 {
            5
        } else {
            count
        };
        self.hand[color.index()][kind.index()][idx]
    }

    /// The key of White being the side to move.
    pub fn side_to_move(&self) -> (key: u64)
        ensures
            key == side_key(),
    {
        proof {
            use_type_invariant(self);
        }
        self.side_to_move
    }
}

/// The key of a piece of the given colour and kind on a square.
pub fn piece_square(color: Color, kind: PieceKind, square: Square) -> (key: u64)
    ensures
        key == piece_square_key(color, kind, square@),
{
    ZobristTables::generate().piece_square(color, kind, square)
}

/// The key of `count` pieces of one kind in one side's hand; counts above
/// five share the key of five.
pub fn hand(color: Color, kind: HandPieceKind, count: usize) -> (key: u64)
    ensures
        key == hand_key(color, kind, count as int),
{
    ZobristTables::generate().hand(color, kind, count)
}

/// The key of White being the side to move.
pub fn side_to_move() -> (key: u64)
    ensures
        key == side_key(),
{
    ZobristTables::generate().side_to_move()
}

} // verus!
