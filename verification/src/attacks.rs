use vstd::prelude::*;
use crate::bitboard::Bitboard;
use crate::board::{offset_index, Square};
use crate::piece::{Color, PieceKind};

verus! {

/// The four directions of a rook, as steps in file and rank.
pub const DIR_ROOK: [(i8, i8); 4] = [(0, 1), (0, -1), (-1, 0), (1, 0)];

/// The four directions of a bishop.
pub const DIR_BISHOP: [(i8, i8); 4] = [(1, 1), (1, -1), (-1, 1), (-1, -1)];

/// The change of rank of a step forward: Black plays towards rank 0.
pub open spec fn forward(color: Color) -> int {
    match color {
        Color::Black => -1,
        Color::White => 1,
    }
}

/// The difference in file from one square to another.
pub open spec fn file_delta(from: int, to: int) -> int {
    to % 5 - from % 5
}

/// The difference in rank from one square to another.
pub open spec fn rank_delta(from: int, to: int) -> int {
    to / 5 - from / 5
}

pub open spec fn both_on_board(from: int, to: int) -> bool {
    0 <= from < 25 && 0 <= to < 25
}

/// A pawn attacks the square straight ahead.
pub open spec fn pawn_reach(color: Color, from: int, to: int) -> bool {
    both_on_board(from, to) && file_delta(from, to) == 0 && rank_delta(from, to) == forward(color)
}

/// A king attacks its eight neighbours.
pub open spec fn king_reach(from: int, to: int) -> bool {
    &&& both_on_board(from, to)
    &&& from != to
    &&& -1 <= file_delta(from, to) <= 1
    &&& -1 <= rank_delta(from, to) <= 1
}

/// A silver attacks the four diagonal neighbours and the square straight ahead.
pub open spec fn silver_reach(color: Color, from: int, to: int) -> bool {
    &&& king_reach(from, to)
    &&& (file_delta(from, to) != 0 && rank_delta(from, to) != 0) || (file_delta(from, to) == 0
        && rank_delta(from, to) == forward(color))
}

/// A gold attacks every neighbour but the two diagonally behind it.
pub open spec fn gold_reach(color: Color, from: int, to: int) -> bool {
    &&& king_reach(from, to)
    &&& !(file_delta(from, to) != 0 && rank_delta(from, to) == -forward(color))
}

/// The square reached from `from` by `n` steps of (`df`, `dr`), if none of
/// them leaves the board.
pub open spec fn walk(from: int, df: int, dr: int, n: nat) -> Option<int>
    decreases n,
{
    if n == 0 {
        Some(from)
    } else {
        match walk(from, df, dr, (n - 1) as nat) {
            Some(s) => offset_index(s, df, dr),
            None => None,
        }
    }
}

/// A slider reaches `to` in `n` steps when every square it passes is empty;
/// `to` itself may be occupied.
pub open spec fn slides_in(from: int, to: int, df: int, dr: int, occ: Set<int>, n: nat) -> bool {
    &&& n >= 1
    &&& walk(from, df, dr, n) == Some(to)
    &&& forall|k: nat| 1 <= k < n ==> !occ.contains(#[trigger] walk(from, df, dr, k)->0)
}

/// A slider in direction (`df`, `dr`) attacks every square up to and
/// including the first occupied one.
pub open spec fn ray_reach(from: int, to: int, df: int, dr: int, occ: Set<int>) -> bool {
    exists|n: nat| #[trigger] slides_in(from, to, df, dr, occ, n)
}

/// `to` is attacked along one of the first `count` directions.
pub open spec fn rays_reach(
    from: int,
    to: int,
    directions: Seq<(i8, i8)>,
    occ: Set<int>,
    count: int,
) -> bool {
    exists|j: int|
        0 <= j < count && #[trigger] ray_reach(
            from,
            to,
            directions[j].0 as int,
            directions[j].1 as int,
            occ,
        )
}

/// `to` lies one of the first `count` offsets away from `from`.
pub open spec fn steps_reach(from: int, to: int, offsets: Seq<(i8, i8)>, count: int) -> bool {
    exists|j: int|
        0 <= j < count && #[trigger] offset_index(from, offsets[j].0 as int, offsets[j].1 as int)
            == Some(to)
}

pub open spec fn rook_reach(from: int, to: int, occ: Set<int>) -> bool {
    ray_reach(from, to, 0, 1, occ) || ray_reach(from, to, 0, -1, occ) || ray_reach(
        from,
        to,
        -1,
        0,
        occ,
    ) || ray_reach(from, to, 1, 0, occ)
}

pub open spec fn bishop_reach(from: int, to: int, occ: Set<int>) -> bool {
    ray_reach(from, to, 1, 1, occ) || ray_reach(from, to, 1, -1, occ) || ray_reach(
        from,
        to,
        -1,
        1,
        occ,
    ) || ray_reach(from, to, -1, -1, occ)
}

/// The squares that a piece of the given kind and colour on `from` attacks
/// when the squares in `occ` are occupied.
pub open spec fn piece_reach(color: Color, kind: PieceKind, from: int, to: int, occ: Set<int>) -> bool {
    match kind {
        PieceKind::King => king_reach(from, to),
        PieceKind::Gold | PieceKind::PromotedSilver | PieceKind::Tokin => gold_reach(
            color,
            from,
            to,
        ),
        PieceKind::Silver => silver_reach(color, from, to),
        PieceKind::Bishop => bishop_reach(from, to, occ),
        PieceKind::PromotedBishop => bishop_reach(from, to, occ) || king_reach(from, to),
        PieceKind::Rook => rook_reach(from, to, occ),
        PieceKind::PromotedRook => rook_reach(from, to, occ) || king_reach(from, to),
        PieceKind::Pawn => pawn_reach(color, from, to),
    }
}

/// A walk stays on the board, and a walk of `n` steps has passed the walks of
/// fewer steps.
pub proof fn lemma_walk_prefix(from: int, df: int, dr: int, n: nat, k: nat)
    requires
        0 <= from < 25,
        k <= n,
        walk(from, df, dr, n) is Some,
    ensures
        walk(from, df, dr, k) is Some,
        0 <= walk(from, df, dr, k)->0 < 25,
    decreases n,
{
    if n > 0 {
        if k < n {
            lemma_walk_prefix(from, df, dr, (n - 1) as nat, k);
        } else {
            lemma_walk_prefix(from, df, dr, (n - 1) as nat, (n - 1) as nat);
        }
    }
}

fn step_attacks(square: Square, offsets: &[(i8, i8)]) -> (attacks: Bitboard)
    ensures
        forall|t: int| #[trigger]
            attacks@.contains(t) <==> steps_reach(square@, t, offsets@, offsets@.len() as int),
{
    let mut attacks = Bitboard::empty();
    let mut i: usize = 0;
    while i < offsets.len()
        invariant
            i <= offsets.len(),
            forall|t: int| #[trigger]
                attacks@.contains(t) <==> steps_reach(square@, t, offsets@, i as int),
        decreases offsets.len() - i,
    {
        let (df, dr) = offsets[i];
        let ghost before = attacks@;
        match square.offset(df, dr) {
            Some(sq) => {
                attacks.insert(sq);
            },
            None => {},
        }
        proof {
            assert forall|t: int| #[trigger]
                attacks@.contains(t) <==> steps_reach(square@, t, offsets@, i as int + 1) by {
                if attacks@.contains(t) {
                    if before.contains(t) {
                        let j = choose|j: int|
                            0 <= j < i && #[trigger] offset_index(
                                square@,
                                offsets@[j].0 as int,
                                offsets@[j].1 as int,
                            ) == Some(t);
                        assert(offset_index(square@, offsets@[j].0 as int, offsets@[j].1 as int)
                            == Some(t));
                    } else {
                        assert(offset_index(
                            square@,
                            offsets@[i as int].0 as int,
                            offsets@[i as int].1 as int,
                        ) == Some(t));
                    }
                }
                if steps_reach(square@, t, offsets@, i as int + 1) {
                    let j = choose|j: int|
                        0 <= j < i + 1 && #[trigger] offset_index(
                            square@,
                            offsets@[j].0 as int,
                            offsets@[j].1 as int,
                        ) == Some(t);
                    if j < i {
                        assert(steps_reach(square@, t, offsets@, i as int));
                    }
                }
            }
        }
        i += 1;
    }
    attacks
}

/// `to` is one of the first `n` squares of the walk.
pub open spec fn walked(from: int, to: int, df: int, dr: int, n: nat) -> bool {
    exists|k: nat| 1 <= k <= n && #[trigger] walk(from, df, dr, k) == Some(to)
}

/// The squares of the walk up to `n` steps are empty.
pub open spec fn walk_is_clear(from: int, df: int, dr: int, occ: Set<int>, n: nat) -> bool {
    forall|k: nat| 1 <= k <= n ==> !occ.contains(#[trigger] walk(from, df, dr, k)->0)
}

proof fn lemma_walked_step(from: int, to: int, df: int, dr: int, n: nat)
    ensures
        walked(from, to, df, dr, n + 1) <==> walked(from, to, df, dr, n) || walk(
            from,
            df,
            dr,
            n + 1,
        ) == Some(to),
        !walked(from, to, df, dr, 0),
{
    if walked(from, to, df, dr, n + 1) {
        let k = choose|k: nat| 1 <= k <= n + 1 && #[trigger] walk(from, df, dr, k) == Some(to);
        if k <= n {
            assert(walked(from, to, df, dr, n));
        }
    }
    if walked(from, to, df, dr, n) {
        let k = choose|k: nat| 1 <= k <= n && #[trigger] walk(from, df, dr, k) == Some(to);
        assert(1 <= k <= n + 1 && walk(from, df, dr, k) == Some(to));
    }
    if walk(from, df, dr, n + 1) == Some(to) {
        assert(walked(from, to, df, dr, n + 1));
    }
}

/// Where the walk ends at the board's edge after `n` empty squares, the ray
/// attacks exactly those squares.
proof fn lemma_ray_to_edge(from: int, to: int, df: int, dr: int, occ: Set<int>, n: nat)
    requires
        0 <= from < 25,
        walk(from, df, dr, n) is Some,
        walk(from, df, dr, n + 1) is None,
        walk_is_clear(from, df, dr, occ, n),
    ensures
        ray_reach(from, to, df, dr, occ) <==> walked(from, to, df, dr, n),
{
    if walked(from, to, df, dr, n) {
        let k = choose|k: nat| 1 <= k <= n && #[trigger] walk(from, df, dr, k) == Some(to);
        assert(slides_in(from, to, df, dr, occ, k));
    }
    if ray_reach(from, to, df, dr, occ) {
        let m = choose|m: nat| #[trigger] slides_in(from, to, df, dr, occ, m);
        if m > n {
            lemma_walk_prefix(from, df, dr, m, n + 1);
        } else {
            assert(walk(from, df, dr, m) == Some(to));
        }
    }
}

/// Where the walk meets its first occupied square at step `n + 1`, the ray
/// attacks the squares up to that one.
proof fn lemma_ray_to_blocker(from: int, to: int, df: int, dr: int, occ: Set<int>, n: nat)
    requires
        0 <= from < 25,
        walk(from, df, dr, n + 1) is Some,
        occ.contains(walk(from, df, dr, n + 1)->0),
        walk_is_clear(from, df, dr, occ, n),
    ensures
        ray_reach(from, to, df, dr, occ) <==> walked(from, to, df, dr, n + 1),
{
    if walked(from, to, df, dr, n + 1) {
        let k = choose|k: nat| 1 <= k <= n + 1 && #[trigger] walk(from, df, dr, k) == Some(to);
        assert(slides_in(from, to, df, dr, occ, k));
    }
    if ray_reach(from, to, df, dr, occ) {
        let m = choose|m: nat| #[trigger] slides_in(from, to, df, dr, occ, m);
        if m > n + 1 {
            assert(!occ.contains(walk(from, df, dr, n + 1)->0));
        } else {
            assert(walk(from, df, dr, m) == Some(to));
        }
    }
}

/// The distance from a square to the edge of the board in a direction.
pub open spec fn room(index: int, df: int, dr: int) -> int {
    if df > 0 {
        4 - index % 5
    } else if df < 0 {
        index % 5
    } else if dr > 0 {
        4 - index / 5
    } else {
        index / 5
    }
}

proof fn lemma_room_shrinks(index: int, df: int, dr: int)
    requires
        0 <= index < 25,
        df != 0 || dr != 0,
        offset_index(index, df, dr) is Some,
    ensures
        0 <= room(offset_index(index, df, dr)->0, df, dr) < room(index, df, dr),
{
    let file = index % 5 + df;
    let rank = index / 5 + dr;
    let next = rank * 5 + file;
    assert(next % 5 == file && next / 5 == rank);
}

/// The squares attacked along one direction.
fn ray_attacks_one(square: Square, occupancy: Bitboard, df: i8, dr: i8) -> (attacks: Bitboard)
    requires
        df != 0 || dr != 0,
    ensures
        forall|t: int| #[trigger]
            attacks@.contains(t) <==> ray_reach(square@, t, df as int, dr as int, occupancy@),
{
    let mut attacks = Bitboard::empty();
    let mut current = square;
    let ghost from = square@;
    let ghost occ = occupancy@;
    let ghost mut n: nat = 0;
    let ghost mut taken: nat = 0;
    let mut open = true;
    proof {
        use_type_invariant(&square);
        square.lemma_on_board();
        assert forall|t: int| #[trigger] attacks@.contains(t) <==> walked(from, t, df as int, dr as int, 0) by {
            lemma_walked_step(from, t, df as int, dr as int, 0);
        }
    }
    while open
        invariant
            0 <= from < 25,
            from == square@,
            occ == occupancy@,
            df != 0 || dr != 0,
            current.on_board(),
            open ==> taken == n,
            walk(from, df as int, dr as int, n) == Some(current@),
            walk_is_clear(from, df as int, dr as int, occ, n),
            forall|t: int| #[trigger]
                attacks@.contains(t) <==> walked(from, t, df as int, dr as int, taken),
            !open ==> forall|t: int|
                ray_reach(from, t, df as int, dr as int, occ) <==> #[trigger] walked(
                    from,
                    t,
                    df as int,
                    dr as int,
                    taken,
                ),
        decreases
            if open { 1int } else { 0int },
            room(current@, df as int, dr as int),
    {
        proof {
            current.lemma_on_board();
        }
        match current.offset(df, dr) {
            Some(next) => {
                proof {
                    next.lemma_on_board();
                    lemma_room_shrinks(current@, df as int, dr as int);
                    assert(walk(from, df as int, dr as int, n + 1) == Some(next@));
                    assert forall|t: int|
                        attacks@.insert(next@).contains(t) <==> #[trigger] walked(
                            from,
                            t,
                            df as int,
                            dr as int,
                            n + 1,
                        ) by {
                        lemma_walked_step(from, t, df as int, dr as int, n);
                    }
                }
                attacks.insert(next);
                if occupancy.contains(next) {
                    open = false;
                    proof {
                        assert forall|t: int|
                            ray_reach(from, t, df as int, dr as int, occ) <==> #[trigger] walked(
                                from,
                                t,
                                df as int,
                                dr as int,
                                n + 1,
                            ) by {
                            lemma_ray_to_blocker(from, t, df as int, dr as int, occ, n);
                        }
                        taken = n + 1;
                    }
                } else {
                    proof {
                        n = n + 1;
                        taken = n;
                    }
                    current = next;
                }
            },
            None => {
                open = false;
                proof {
                    assert(walk(from, df as int, dr as int, n + 1) is None);
                    assert forall|t: int|
                        ray_reach(from, t, df as int, dr as int, occ) <==> #[trigger] walked(
                            from,
                            t,
                            df as int,
                            dr as int,
                            n,
                        ) by {
                        lemma_ray_to_edge(from, t, df as int, dr as int, occ, n);
                    }
                }
            },
        }
    }
    attacks
}

fn ray_attacks(square: Square, occupancy: Bitboard, directions: &[(i8, i8)]) -> (attacks: Bitboard)
    requires
        forall|j: int|
            0 <= j < directions@.len() ==> (#[trigger] directions@[j]).0 != 0 || directions@[j].1
                != 0,
    ensures
        forall|t: int| #[trigger]
            attacks@.contains(t) <==> rays_reach(
                square@,
                t,
                directions@,
                occupancy@,
                directions@.len() as int,
            ),
{
    let mut attacks = Bitboard::empty();
    let mut i: usize = 0;
    while i < directions.len()
        invariant
            i <= directions.len(),
            forall|j: int|
                0 <= j < directions@.len() ==> (#[trigger] directions@[j]).0 != 0
                    || directions@[j].1 != 0,
            forall|t: int| #[trigger]
                attacks@.contains(t) <==> rays_reach(square@, t, directions@, occupancy@, i as int),
        decreases directions.len() - i,
    {
        let (df, dr) = directions[i];
        assert(directions@[i as int].0 != 0 || directions@[i as int].1 != 0);
        let ray = ray_attacks_one(square, occupancy, df, dr);
        let ghost before = attacks@;
        attacks = attacks.union(ray);
        proof {
            assert forall|t: int| #[trigger]
                attacks@.contains(t) <==> rays_reach(
                    square@,
                    t,
                    directions@,
                    occupancy@,
                    i as int + 1,
                ) by {
                if attacks@.contains(t) {
                    if before.contains(t) {
                        let j = choose|j: int|
                            0 <= j < i && #[trigger] ray_reach(
                                square@,
                                t,
                                directions@[j].0 as int,
                                directions@[j].1 as int,
                                occupancy@,
                            );
                        assert(ray_reach(
                            square@,
                            t,
                            directions@[j].0 as int,
                            directions@[j].1 as int,
                            occupancy@,
                        ));
                    } else {
                        assert(ray_reach(
                            square@,
                            t,
                            directions@[i as int].0 as int,
                            directions@[i as int].1 as int,
                            occupancy@,
                        ));
                    }
                }
                if rays_reach(square@, t, directions@, occupancy@, i as int + 1) {
                    let j = choose|j: int|
                        0 <= j < i + 1 && #[trigger] ray_reach(
                            square@,
                            t,
                            directions@[j].0 as int,
                            directions@[j].1 as int,
                            occupancy@,
                        );
                    if j < i {
                        assert(rays_reach(square@, t, directions@, occupancy@, i as int));
                    }
                }
            }
        }
        i += 1;
    }
    attacks
}

/// A step to a square is the difference of the two squares' files and ranks.
pub proof fn lemma_offset_geometry(from: int, to: int, df: int, dr: int)
    requires
        0 <= from < 25,
    ensures
        offset_index(from, df, dr) == Some(to) <==> (0 <= to < 25 && file_delta(from, to) == df
            && rank_delta(from, to) == dr),
{
    let file = from % 5 + df;
    let rank = from / 5 + dr;
    if 0 <= file < 5 && 0 <= rank < 5 {
        let next = rank * 5 + file;
        assert(next % 5 == file && next / 5 == rank);
    }
    if 0 <= to < 25 {
        assert(to == (to / 5) * 5 + to % 5);
    }
}

/// What a list of steps reaches, in terms of the steps themselves.
proof fn lemma_steps_geometry(from: int, to: int, offsets: Seq<(i8, i8)>)
    requires
        0 <= from < 25,
    ensures
        steps_reach(from, to, offsets, offsets.len() as int) <==> (0 <= to < 25 && exists|j: int|
            0 <= j < offsets.len() && (#[trigger] offsets[j]).0 == file_delta(from, to)
                && offsets[j].1 == rank_delta(from, to)),
{
    if steps_reach(from, to, offsets, offsets.len() as int) {
        let j = choose|j: int|
            0 <= j < offsets.len() && #[trigger] offset_index(
                from,
                offsets[j].0 as int,
                offsets[j].1 as int,
            ) == Some(to);
        lemma_offset_geometry(from, to, offsets[j].0 as int, offsets[j].1 as int);
        assert(offsets[j].0 == file_delta(from, to));
    }
    if 0 <= to < 25 && exists|j: int|
        0 <= j < offsets.len() && (#[trigger] offsets[j]).0 == file_delta(from, to) && offsets[j].1
            == rank_delta(from, to) {
        let j = choose|j: int|
            0 <= j < offsets.len() && (#[trigger] offsets[j]).0 == file_delta(from, to)
                && offsets[j].1 == rank_delta(from, to);
        lemma_offset_geometry(from, to, offsets[j].0 as int, offsets[j].1 as int);
        assert(offset_index(from, offsets[j].0 as int, offsets[j].1 as int) == Some(to));
    }
}

/// The square that a pawn of the given colour on `square` attacks.
pub fn pawn_attacks(color: Color, square: Square) -> (attacks: Bitboard)
    ensures
        attacks@ == Set::new(|t: int| pawn_reach(color, square@, t)),
{
    let attacks = match color {
        Color::Black => {
            let offsets: [(i8, i8); 1] = [(0, -1)];
            let a = step_attacks(square, &offsets);
            proof {
                use_type_invariant(&square);
                square.lemma_on_board();
                assert forall|t: int| a@.contains(t) <==> pawn_reach(color, square@, t) by {
                    lemma_steps_geometry(square@, t, offsets@);
                    if pawn_reach(color, square@, t) {
                        assert(offsets@[0].0 == file_delta(square@, t));
                    }
                }
            }
            a
        },
        Color::White => {
            let offsets: [(i8, i8); 1] = [(0, 1)];
            let a = step_attacks(square, &offsets);
            proof {
                use_type_invariant(&square);
                square.lemma_on_board();
                assert forall|t: int| a@.contains(t) <==> pawn_reach(color, square@, t) by {
                    lemma_steps_geometry(square@, t, offsets@);
                    if pawn_reach(color, square@, t) {
                        assert(offsets@[0].0 == file_delta(square@, t));
                    }
                }
            }
            a
        },
    };
    assert(attacks@ =~= Set::new(|t: int| pawn_reach(color, square@, t)));
    attacks
}

/// One of the deltas -1, 0, 1 in file and rank is the step at the index
/// given, in the order of a king's eight steps.
spec fn king_step_index(df: int, dr: int) -> int {
    if dr == -1 {
        df + 1
    } else if dr == 0 {
        if df == -1 {
            3
        } else {
            4
        }
    } else {
        df + 6
    }
}

/// The squares that a king on `square` attacks.
pub fn king_attacks(square: Square) -> (attacks: Bitboard)
    ensures
        attacks@ == Set::new(|t: int| king_reach(square@, t)),
{
    let offsets: [(i8, i8); 8] = [
        (-1, -1),
        (0, -1),
        (1, -1),
        (-1, 0),
        (1, 0),
        (-1, 1),
        (0, 1),
        (1, 1),
    ];
    let attacks = step_attacks(square, &offsets);
    proof {
        use_type_invariant(&square);
        square.lemma_on_board();
        assert forall|t: int| attacks@.contains(t) <==> king_reach(square@, t) by {
            lemma_steps_geometry(square@, t, offsets@);
            if king_reach(square@, t) {
                let j = king_step_index(file_delta(square@, t), rank_delta(square@, t));
                assert(offsets@[j].0 == file_delta(square@, t));
            }
        }
        assert(attacks@ =~= Set::new(|t: int| king_reach(square@, t)));
    }
    attacks
}

/// The squares that a silver of the given colour on `square` attacks.
pub fn silver_attacks(color: Color, square: Square) -> (attacks: Bitboard)
    ensures
        attacks@ == Set::new(|t: int| silver_reach(color, square@, t)),
{
    let offsets: [(i8, i8); 5] = match color {
        Color::Black => [(-1, -1), (0, -1), (1, -1), (-1, 1), (1, 1)],
        Color::White => [(-1, -1), (1, -1), (-1, 1), (0, 1), (1, 1)],
    };
    let attacks = step_attacks(square, &offsets);
    proof {
        use_type_invariant(&square);
        square.lemma_on_board();
        assert forall|t: int| attacks@.contains(t) <==> silver_reach(color, square@, t) by {
            lemma_steps_geometry(square@, t, offsets@);
            let df = file_delta(square@, t);
            let dr = rank_delta(square@, t);
            if silver_reach(color, square@, t) {
                let j: int = if color == Color::Black {
                    if dr == -1 {
                        df + 1
                    } else if df == -1 {
                        3
                    } else {
                        4
                    }
                } else {
                    if dr == -1 {
                        if df == -1 {
                            0
                        } else {
                            1
                        }
                    } else {
                        df + 3
                    }
                };
                assert(offsets@[j].0 == df && offsets@[j].1 == dr);
            }
        }
        assert(attacks@ =~= Set::new(|t: int| silver_reach(color, square@, t)));
    }
    attacks
}

/// The squares that a gold (or a piece that moves like one) of the given
/// colour on `square` attacks.
pub fn gold_attacks(color: Color, square: Square) -> (attacks: Bitboard)
    ensures
        attacks@ == Set::new(|t: int| gold_reach(color, square@, t)),
{
    let offsets: [(i8, i8); 6] = match color {
        Color::Black => [(-1, -1), (0, -1), (1, -1), (-1, 0), (0, 1), (1, 0)],
        Color::White => [(-1, 0), (0, -1), (1, 0), (-1, 1), (0, 1), (1, 1)],
    };
    let attacks = step_attacks(square, &offsets);
    proof {
        use_type_invariant(&square);
        square.lemma_on_board();
        assert forall|t: int| attacks@.contains(t) <==> gold_reach(color, square@, t) by {
            lemma_steps_geometry(square@, t, offsets@);
            let df = file_delta(square@, t);
            let dr = rank_delta(square@, t);
            if gold_reach(color, square@, t) {
                let j: int = if color == Color::Black {
                    if dr == -1 {
                        df + 1
                    } else if dr == 1 {
                        4
                    } else if df == -1 {
                        3
                    } else {
                        5
                    }
                } else {
                    if dr == 1 {
                        df + 4
                    } else if dr == -1 {
                        1
                    } else if df == -1 {
                        0
                    } else {
                        2
                    }
                };
                assert(offsets@[j].0 == df && offsets@[j].1 == dr);
            }
        }
        assert(attacks@ =~= Set::new(|t: int| gold_reach(color, square@, t)));
    }
    attacks
}

/// The squares that a bishop on `square` attacks when the squares in
/// `occupancy` are occupied.
pub fn bishop_attacks(square: Square, occupancy: Bitboard) -> (attacks: Bitboard)
    ensures
        attacks@ == Set::new(|t: int| bishop_reach(square@, t, occupancy@)),
{
    let attacks = ray_attacks(square, occupancy, &DIR_BISHOP);
    proof {
        let d = DIR_BISHOP@;
        assert forall|t: int| attacks@.contains(t) <==> bishop_reach(square@, t, occupancy@) by {
            if rays_reach(square@, t, d, occupancy@, 4) {
                let j = choose|j: int|
                    0 <= j < 4 && #[trigger] ray_reach(
                        square@,
                        t,
                        d[j].0 as int,
                        d[j].1 as int,
                        occupancy@,
                    );
                assert(j == 0 || j == 1 || j == 2 || j == 3);
            }
            if bishop_reach(square@, t, occupancy@) {
                assert(ray_reach(square@, t, d[0].0 as int, d[0].1 as int, occupancy@) || ray_reach(
                    square@,
                    t,
                    d[1].0 as int,
                    d[1].1 as int,
                    occupancy@,
                ) || ray_reach(square@, t, d[2].0 as int, d[2].1 as int, occupancy@) || ray_reach(
                    square@,
                    t,
                    d[3].0 as int,
                    d[3].1 as int,
                    occupancy@,
                ));
            }
        }
        assert(attacks@ =~= Set::new(|t: int| bishop_reach(square@, t, occupancy@)));
    }
    attacks
}

/// The squares that a rook on `square` attacks when the squares in
/// `occupancy` are occupied.
pub fn rook_attacks(square: Square, occupancy: Bitboard) -> (attacks: Bitboard)
    ensures
        attacks@ == Set::new(|t: int| rook_reach(square@, t, occupancy@)),
{
    let attacks = ray_attacks(square, occupancy, &DIR_ROOK);
    proof {
        let d = DIR_ROOK@;
        assert forall|t: int| attacks@.contains(t) <==> rook_reach(square@, t, occupancy@) by {
            if rays_reach(square@, t, d, occupancy@, 4) {
                let j = choose|j: int|
                    0 <= j < 4 && #[trigger] ray_reach(
                        square@,
                        t,
                        d[j].0 as int,
                        d[j].1 as int,
                        occupancy@,
                    );
                assert(j == 0 || j == 1 || j == 2 || j == 3);
            }
            if rook_reach(square@, t, occupancy@) {
                assert(ray_reach(square@, t, d[0].0 as int, d[0].1 as int, occupancy@) || ray_reach(
                    square@,
                    t,
                    d[1].0 as int,
                    d[1].1 as int,
                    occupancy@,
                ) || ray_reach(square@, t, d[2].0 as int, d[2].1 as int, occupancy@) || ray_reach(
                    square@,
                    t,
                    d[3].0 as int,
                    d[3].1 as int,
                    occupancy@,
                ));
            }
        }
        assert(attacks@ =~= Set::new(|t: int| rook_reach(square@, t, occupancy@)));
    }
    attacks
}

/// The squares that a promoted bishop attacks: those of a bishop and of a king.
pub fn horse_attacks(square: Square, occupancy: Bitboard) -> (attacks: Bitboard)
    ensures
        attacks@ == Set::new(
            |t: int| bishop_reach(square@, t, occupancy@) || king_reach(square@, t),
        ),
{
    let attacks = bishop_attacks(square, occupancy).union(king_attacks(square));
    assert(attacks@ =~= Set::new(
        |t: int| bishop_reach(square@, t, occupancy@) || king_reach(square@, t),
    ));
    attacks
}

/// The squares that a promoted rook attacks: those of a rook and of a king.
pub fn dragon_attacks(square: Square, occupancy: Bitboard) -> (attacks: Bitboard)
    ensures
        attacks@ == Set::new(|t: int| rook_reach(square@, t, occupancy@) || king_reach(square@, t)),
{
    let attacks = rook_attacks(square, occupancy).union(king_attacks(square));
    assert(attacks@ =~= Set::new(
        |t: int| rook_reach(square@, t, occupancy@) || king_reach(square@, t),
    ));
    attacks
}

/// The squares that a piece of the given colour and kind on `square` attacks
/// when the squares in `occupancy` are occupied.
pub fn piece_attacks(color: Color, kind: PieceKind, square: Square, occupancy: Bitboard) -> (attacks:
    Bitboard)
    ensures
        attacks@ == Set::new(|t: int| piece_reach(color, kind, square@, t, occupancy@)),
{
    let attacks = match kind {
        PieceKind::King => king_attacks(square),
        PieceKind::Gold | PieceKind::PromotedSilver | PieceKind::Tokin => gold_attacks(
            color,
            square,
        ),
        PieceKind::Silver => silver_attacks(color, square),
        PieceKind::Bishop => bishop_attacks(square, occupancy),
        PieceKind::PromotedBishop => horse_attacks(square, occupancy),
        PieceKind::Rook => rook_attacks(square, occupancy),
        PieceKind::PromotedRook => dragon_attacks(square, occupancy),
        PieceKind::Pawn => pawn_attacks(color, square),
    };
    assert(attacks@ =~= Set::new(|t: int| piece_reach(color, kind, square@, t, occupancy@)));
    attacks
}

/// The squares attacked by pawns of the given colour standing on the squares
/// of `occupancy`.
pub fn pawn_attack_bitboard(color: Color, occupancy: Bitboard) -> (result: Bitboard)
    ensures
        result@ == Set::new(
            |t: int| exists|s: int| occupancy@.contains(s) && #[trigger] pawn_reach(color, s, t),
        ),
{
    let mut result = Bitboard::empty();
    let mut index: u8 = 0;
    while index < 25
        invariant
            index <= 25,
            forall|t: int| #[trigger]
                result@.contains(t) <==> exists|s: int|
                    0 <= s < index && occupancy@.contains(s) && #[trigger] pawn_reach(color, s, t),
        decreases 25 - index,
    {
        let square = Square::from_index(index);
        let ghost before = result@;
        if occupancy.contains(square) {
            result = result.union(pawn_attacks(color, square));
        }
        proof {
            assert forall|t: int| #[trigger]
                result@.contains(t) <==> exists|s: int|
                    0 <= s < index + 1 && occupancy@.contains(s) && #[trigger] pawn_reach(
                        color,
                        s,
                        t,
                    ) by {
                if result@.contains(t) {
                    if before.contains(t) {
                        let s = choose|s: int|
                            0 <= s < index && occupancy@.contains(s) && #[trigger] pawn_reach(
                                color,
                                s,
                                t,
                            );
                        assert(pawn_reach(color, s, t));
                    } else {
                        assert(pawn_reach(color, index as int, t));
                    }
                }
                if exists|s: int|
                    0 <= s < index + 1 && occupancy@.contains(s) && #[trigger] pawn_reach(
                        color,
                        s,
                        t,
                    ) {
                    let s = choose|s: int|
                        0 <= s < index + 1 && occupancy@.contains(s) && #[trigger] pawn_reach(
                            color,
                            s,
                            t,
                        );
                    if s < index {
                        assert(before.contains(t));
                    }
                }
            }
        }
        index += 1;
    }
    proof {
        assert forall|t: int|
            result@.contains(t) <==> exists|s: int|
                occupancy@.contains(s) && #[trigger] pawn_reach(color, s, t) by {
            if result@.contains(t) {
                let s = choose|s: int|
                    0 <= s < 25 && occupancy@.contains(s) && #[trigger] pawn_reach(color, s, t);
                assert(pawn_reach(color, s, t));
            }
            if exists|s: int| occupancy@.contains(s) && #[trigger] pawn_reach(color, s, t) {
                let s = choose|s: int| occupancy@.contains(s) && #[trigger] pawn_reach(color, s, t);
                assert(0 <= s < 25);
            }
        }
        assert(result@ =~= Set::new(
            |t: int| exists|s: int| occupancy@.contains(s) && #[trigger] pawn_reach(color, s, t),
        ));
    }
    result
}

} // verus!
