use vstd::prelude::*;
use crate::evaluation::{evaluate, material_value, piece_material_value};
use crate::model::{
    alpha_beta_of, alpha_beta_sweep, aspiration, capture_entries, child_depth, counted, deepening,
    fresh_memory, leading, Memory, moves_of, order_entries, order_score, ordered, Outcome, picked,
    Progress, quiescence_of, quiescence_sweep, registered, rng_after_pick, rng_draw,
    root_iteration_of, root_sweep, RootSweep, search_of, search_progress, stored, Sweep,
    tactical_kept, tactical_list,
};
use crate::movelist::legal_list;
use crate::moves::{Move, MoveList, usi_text};
use crate::ordering::{lemma_stable_sorted, RootEntry, sort_entries, stable_sorted};
use crate::piece::{Color, PieceKind};
use crate::position::{occurrences, Position, PositionError};
use crate::rules::{in_check, legal, lemma_pseudo_legal_applies};
use crate::state::State;
use crate::table::{Bound, compute_hash, TableEntry, TranspositionTable};
use crate::text::{decimal_text, push_decimal_u64, push_signed, push_text, signed_text, text_of};

verus! {

/// The score of a mate at the root.
pub const MATE_VALUE: i32 = 30_000;

/// The number of plies that have killer moves of their own.
pub const MAX_PLY: usize = 64;

/// No score is farther from zero than this.
pub const SCORE_LIMIT: i32 = 460_000;

/// No history score is above this.
pub const HISTORY_LIMIT: i32 = 1_073_741_823;

/// Whether a value can be a score.
pub open spec fn score_ok(v: int) -> bool {
    -460_000 <= v <= 460_000
}

/// Whether two values can be the lower and the upper end of a search window.
pub open spec fn window_ok(alpha: int, beta: int) -> bool {
    -460_001 <= alpha <= 460_000 && -460_000 <= beta <= 460_001
}

/// The score of a position without legal moves, for the side to move at
/// `ply` plies from the root: a mate that counts less the farther it is,
/// or zero where the side is not in check.
pub open spec fn terminal_value(checked: bool, ply: int) -> int {
    if checked {
        if ply < 29_999 {
            -30_000 + ply
        } else {
            -1
        }
    } else {
        0
    }
}

/// A penalty counted against the mover: Black's scores count upwards.
pub open spec fn against(mover: Color, penalty: int) -> int {
    match mover {
        Color::Black => -penalty,
        Color::White => penalty,
    }
}

/// The score of a position that has occurred `repeat_count` times, against
/// the side that moved into it: a loss at the fourth time, a quarter of a
/// mate at the third, 500 at the second, and nothing before.
pub open spec fn repetition_value(mover: Color, repeat_count: int, ply: int) -> Option<int> {
    if repeat_count >= 4 {
        Some(
            against(
                mover,
                if ply < 29_999 {
                    30_000 - ply
                } else {
                    1
                },
            ),
        )
    } else if repeat_count == 3 {
        Some(against(mover, 7_500))
    } else if repeat_count == 2 {
        Some(against(mover, 500))
    } else {
        None
    }
}

/// The keys that a history does not hold.
pub open spec fn unseen_keys(history: Seq<u64>) -> Set<u64> {
    Set::new(|k: u64| !history.contains(k))
}

/// How many keys a history does not hold.
pub open spec fn room_left(history: Seq<u64>) -> nat {
    unseen_keys(history).len()
}

/// A key that occurs in a history is counted.
pub proof fn lemma_occurrences(history: Seq<u64>, key: u64)
    ensures
        occurrences(history, key) == 0 <==> !history.contains(key),
        occurrences(history.push(key), key) == occurrences(history, key) + 1,
    decreases history.len(),
{
    broadcast use vstd::seq_lib::lemma_seq_contains_after_push;

    assert(history.push(key).drop_last() =~= history);
    if history.len() > 0 {
        lemma_occurrences(history.drop_last(), key);
        assert(history =~= history.drop_last().push(history.last()));
    }
}

/// A history that takes up a key which it did not hold leaves less room.
pub proof fn lemma_new_key_takes_room(history: Seq<u64>, key: u64)
    requires
        !history.contains(key),
    ensures
        room_left(history.push(key)) < room_left(history),
{
    broadcast use vstd::seq_lib::lemma_seq_contains_after_push;
    broadcast use vstd::set::group_set_axioms;

    <u64 as vstd::set_lib::FiniteFull>::full_properties();
    let before = unseen_keys(history);
    let after = unseen_keys(history.push(key));
    vstd::set_lib::lemma_set_subset_finite(Set::<u64>::full(), before);
    assert(after =~= before.remove(key));
    assert(before.contains(key));
}

/// A point in time, as the system clock gives it.
#[verifier::external_type_specification]
#[verifier::external_body]
pub struct ExSystemTime(std::time::SystemTime);

/// `SystemTime::now` reads the system clock. Nothing is claimed of the
/// time that it gives.
#[verifier::external_body]
fn clock_now() -> (now: std::time::SystemTime) {
    std::time::SystemTime::now()
}

/// `SystemTime::duration_since` gives the time from one point to a later
/// one; here from the epoch to `time`, and nothing where `time` lies before
/// the epoch. Nothing is claimed of the duration.
#[verifier::external_body]
fn since_epoch(time: &std::time::SystemTime) -> (elapsed: Option<core::time::Duration>) {
    time.duration_since(std::time::UNIX_EPOCH).ok()
}

/// `Duration::as_nanos` gives a duration in nanoseconds. Nothing is
/// claimed of the number.
#[verifier::external_body]
fn nanos_of(elapsed: &core::time::Duration) -> (nanos: u128) {
    elapsed.as_nanos()
}

/// A seed from the clock: the seed that the nanoseconds since the epoch
/// give, as the clock stands when it is read.
fn clock_seed() -> (seed: u64) {
    let now = clock_now();
    let elapsed_nanos = match since_epoch(&now) {
        Some(elapsed) => Some(nanos_of(&elapsed)),
        None => None,
    };
    seed_from_clock(elapsed_nanos)
}

/// The seed that a reading of the clock gives: the nanoseconds since the
/// epoch, as far as they fit in 64 bits (the rest is cut off), and a fixed
/// seed where the clock stands before the epoch.
pub open spec fn seed_value(elapsed_nanos: Option<u128>) -> u64 {
    match elapsed_nanos {
        Some(nanos) => (nanos % 0x1_0000_0000_0000_0000u128) as u64,
        None => 0x9E37_79B9_7F4A_7C15u64,
    }
}

/// The seed that a reading of the clock gives.
pub fn seed_from_clock(elapsed_nanos: Option<u128>) -> (seed: u64)
    ensures
        seed == seed_value(elapsed_nanos),
{
    match elapsed_nanos {
        Some(nanos) => (nanos % 0x1_0000_0000_0000_0000u128) as u64,
        None => 0x9E37_79B9_7F4A_7C15,
    }
}

/// A small generator of pseudo-random numbers.
#[derive(Clone, Copy)]
pub struct SimpleRng(u64);

/// The generator's state after one step.
pub open spec fn rng_step(x: u64) -> u64 {
    let a = x ^ (x >> 12);
    let b = a ^ (a << 25);
    b ^ (b >> 27)
}

impl SimpleRng {
    pub closed spec fn state(self) -> u64 {
        self.0
    }

    /// A generator that starts from the seed; a seed of zero is replaced.
    pub fn new(seed: u64) -> (rng: SimpleRng)
        ensures
            rng.state() == if seed == 0 {
                0x9E37_79B9_7F4A_7C15u64
            } else {
                seed
            },
    {
        let mut s = seed;
        if s == 0 {
            s = 0x9E37_79B9_7F4A_7C15;
        }
        SimpleRng(s)
    }

    pub fn next_u64(&mut self) -> (r: u64)
        ensures
            final(self).state() == rng_step(old(self).state()),
            r == rng_step(old(self).state()).wrapping_mul(0x2545_F491_4F6C_DD1Du64),
    {
        let mut x = self.0;
        x = x ^ (x >> 12);
        x = x ^ (x << 25);
        x = x ^ (x >> 27);
        self.0 = x;
        x.wrapping_mul(0x2545_F491_4F6C_DD1D)
    }

    /// A number from `start` up to, but not including, `end`; `start` itself
    /// where the two are equal.
    pub fn gen_range(&mut self, range: core::ops::Range<usize>) -> (r: usize)
        requires
            range.start <= range.end,
        ensures
            range.start == range.end ==> r == range.start && final(self).state() == old(self).state(),
            range.start < range.end ==> range.start <= r < range.end && final(self).state()
                == rng_step(old(self).state()) && r == range.start + rng_draw(old(self).state()) % ((
            range.end - range.start) as u64),
    {
        let span = range.end - range.start;
        if span == 0 {
            return range.start;
        }
        let draw = self.next_u64() % (span as u64);
        (draw as usize) + range.start
    }
}

/// What a search found.
#[derive(Debug, Clone, Copy)]
pub struct SearchResult {
    pub best_move: Option<Move>,
    pub score: i32,
    pub depth: usize,
    pub nodes: u64,
}

impl Default for SearchResult {
    fn default() -> (r: SearchResult)
        ensures
            r.best_move is None,
            r.score == 0,
            r.depth == 0,
            r.nodes == 0,
    {
        SearchResult { best_move: None, score: 0, depth: 0, nodes: 0 }
    }
}

/// How far to search, and how far below the best score a move may be
/// chosen at random.
#[derive(Debug, Clone, Copy)]
pub struct SearchLimits {
    pub depth: usize,
    pub randomness: i32,
}

impl Default for SearchLimits {
    fn default() -> (l: SearchLimits)
        ensures
            l.depth == 3,
            l.randomness == 0,
    {
        SearchLimits { depth: 3, randomness: 0 }
    }
}

/// What is known after one iteration of the search: its depth, its score,
/// the nodes visited so far and the best move.
#[derive(Debug, Clone, Copy)]
pub struct SearchInfo {
    pub depth: usize,
    pub score: i32,
    pub nodes: u64,
    pub best_move: Option<Move>,
}

impl SearchInfo {
    /// Whether the best move, if there is one, can be written.
    pub open spec fn can_be_written(self) -> bool {
        self.best_move is Some ==> self.best_move->0.well_formed()
    }

    /// Writes the record as a line of the engine protocol.
    pub fn to_line(&self) -> (line: String)
        requires
            self.can_be_written(),
        ensures
            line@ == info_text(*self),
    {
        let mut out: Vec<char> = Vec::new();
        push_text(&mut out, "info depth ");
        push_decimal_u64(&mut out, self.depth as u64);
        push_text(&mut out, " score ");
        let score = self.score;
        if score >= MATE_VALUE - 100 || score <= -(MATE_VALUE - 100) {
            push_text(&mut out, "mate ");
            let mate: i32 = if score > 0 {
                if score <= MATE_VALUE + 1 {
                    (MATE_VALUE - score + 1) / 2
                } else {
                    -((score - MATE_VALUE - 1) / 2)
                }
            } else {
                if score >= -MATE_VALUE - 1 {
                    -((MATE_VALUE + score + 1) / 2)
                } else {
                    (-MATE_VALUE - score - 1) / 2
                }
            };
            push_signed(&mut out, mate);
        } else {
            push_text(&mut out, "cp ");
            push_signed(&mut out, score);
        }
        push_text(&mut out, " nodes ");
        push_decimal_u64(&mut out, self.nodes);
        match self.best_move {
            Some(mv) => {
                push_text(&mut out, " pv ");
                let mut text = mv.usi_chars();
                out.append(&mut text);
            },
            None => {},
        }
        proof {
            assert(out@ =~= info_text(*self));
        }
        text_of(&out)
    }
}

/// Half of a number, rounded towards zero.
pub open spec fn half(x: int) -> int {
    if x >= 0 {
        x / 2
    } else {
        -((-x) / 2)
    }
}

/// Whether a score is that of a mate in sight: within 100 of the mate value.
pub open spec fn is_mate_score(score: int) -> bool {
    score >= 29_900 || score <= -29_900
}

/// The number of moves to the mate that a score stands for: positive where
/// the side to move mates.
pub open spec fn mate_distance(score: int) -> int {
    if score > 0 {
        half(30_000 - score + 1)
    } else {
        -half(30_000 + score + 1)
    }
}

/// The line that reports an iteration: its depth, its score in hundredths
/// of a pawn or as a distance to mate, the nodes visited, and the best move.
pub open spec fn info_text(info: SearchInfo) -> Seq<char> {
    "info depth "@ + decimal_text(info.depth as nat) + " score "@ + (if is_mate_score(
        info.score as int,
    ) {
        "mate "@ + signed_text(mate_distance(info.score as int))
    } else {
        "cp "@ + signed_text(info.score as int)
    }) + " nodes "@ + decimal_text(info.nodes as nat) + (match info.best_move {
        Some(mv) => " pv "@ + usi_text(mv),
        None => Seq::<char>::empty(),
    })
}

/// The ply after this one.
fn next_ply(ply: usize) -> (r: usize)
    ensures
        r == if ply < usize::MAX {
            ply + 1
        } else {
            ply as int
        },
{
    if ply < usize::MAX {
        ply + 1
    } else {
        ply
    }
}

/// The score of a position without legal moves.
pub fn terminal_score(position: &Position, ply: usize) -> (r: Result<i32, PositionError>)
    requires
        position.wf(),
    ensures
        r is Ok,
        r->Ok_0 == terminal_value(in_check(position@, position@.side), ply as int),
        score_ok(r->Ok_0 as int),
{
    if position.is_in_check(position.side_to_move()) {
        if ply < 29_999 {
            Ok(-MATE_VALUE + ply as i32)
        } else {
            Ok(-1)
        }
    } else {
        Ok(0)
    }
}

/// The score of a position that has occurred `repeat_count` times, if that
/// ends the line.
pub fn repetition_terminal_value(mover: Color, repeat_count: usize, ply_from_root: usize) -> (r:
    Option<i32>)
    ensures
        r is Some <==> repeat_count >= 2,
        r is Some <==> repetition_value(mover, repeat_count as int, ply_from_root as int) is Some,
        r is Some ==> r->0 == repetition_value(mover, repeat_count as int, ply_from_root as int)->0,
        r is Some ==> -30_000 <= r->0 <= 30_000 && r->0 != 0,
{
    if repeat_count >= 4 {
        let mate_score: i32 = if ply_from_root < 29_999 {
            MATE_VALUE - ply_from_root as i32
        } else {
            1
        };
        let value = match mover {
            Color::Black => -mate_score,
            Color::White => mate_score,
        };
        return Some(value);
    }
    if repeat_count == 3 {
        let penalty: i32 = MATE_VALUE / 4;
        return Some(
            match mover {
                Color::Black => -penalty,
                Color::White => penalty,
            },
        );
    }
    if repeat_count == 2 {
        let soft_penalty: i32 = 500;
        return Some(
            match mover {
                Color::Black => -soft_penalty,
                Color::White => soft_penalty,
            },
        );
    }
    None
}

/// The margin below the best score within which a move may be chosen.
pub open spec fn margin(limits: SearchLimits) -> int {
    if limits.randomness > 0 {
        limits.randomness as int
    } else {
        0
    }
}

/// Whether a legal move is tactical: a capture or a promotion, and no drop.
pub open spec fn tactical(s: State, mv: Move) -> bool {
    legal(s, mv) && mv.from is Some && (s.board[mv.to@] is Some || mv.promote)
}

/// What a capture is worth for ordering: the value of what is taken, less
/// the value of what takes.
pub open spec fn capture_value(s: State, mv: Move) -> int {
    let taken = match s.board[mv.to@] {
        Some(piece) => material_value(piece.kind),
        None => 0,
    };
    taken - material_value(mv.piece)
}

/// A history score after a cutoff at `ply`: raised by the square of
/// `ply + 1`, as far as the limit allows, and halved where it is above 200 000.
pub open spec fn history_after_cutoff(value: int, ply: int) -> int {
    let raised = if ply < 46_000 && value + (ply + 1) * (ply + 1) <= 2_147_483_647 {
        value + (ply + 1) * (ply + 1)
    } else {
        2_147_483_647
    };
    if raised > 200_000 {
        raised / 2
    } else {
        raised
    }
}

/// The engine's search: alpha-beta with a transposition table, killer
/// moves, history scores and a quiescence search.
pub struct Searcher {
    tt: TranspositionTable,
    nodes: u64,
    killers: [[Option<Move>; 2]; 64],
    history: [[[i32; 25]; 10]; 2],
    rng: SimpleRng,
    limits: SearchLimits,
    root_entries: Vec<RootEntry>,
    infos: Vec<SearchInfo>,
    trace: Ghost<Seq<RootEntry>>,
}

impl Default for Searcher {
    fn default() -> (s: Searcher)
        ensures
            s.wf(),
            s.root_view() == Seq::<RootEntry>::empty(),
            s.info_view() == Seq::<SearchInfo>::empty(),
    {
        Searcher::new()
    }
}

impl Searcher {
    /// The scores that the searcher holds are within their limits.
    pub closed spec fn wf(&self) -> bool {
        &&& forall|k: u64| #[trigger] self.tt@.contains_key(k) ==> score_ok(self.tt@[k].score as int)
        &&& forall|c: int, k: int, s: int|
            0 <= c < 2 && 0 <= k < 10 && 0 <= s < 25 ==> 0 <= #[trigger] self.history[c][k][s]
                <= HISTORY_LIMIT
        &&& forall|i: int|
            0 <= i < self.root_entries@.len() ==> score_ok(
                (#[trigger] self.root_entries@[i]).score as int,
            )
        &&& forall|i: int| 0 <= i < self.infos@.len() ==> (#[trigger] self.infos@[i]).can_be_written()
    }

    /// The moves of the root with their scores from the last iteration,
    /// best first.
    pub closed spec fn root_view(&self) -> Seq<RootEntry> {
        self.root_entries@
    }

    /// The moves of the root with their scores from the last iteration, in
    /// the order in which they were searched.
    pub closed spec fn trace_view(&self) -> Seq<RootEntry> {
        self.trace@
    }

    /// What was known after each iteration of the last search.
    pub closed spec fn info_view(&self) -> Seq<SearchInfo> {
        self.infos@
    }

    /// The number of nodes visited.
    pub closed spec fn node_count(&self) -> u64 {
        self.nodes
    }

    /// The state of the generator that picks among near-best moves.
    pub closed spec fn rng_state(&self) -> u64 {
        self.rng.state()
    }

    /// What the searcher remembers from node to node.
    pub closed spec fn memory(&self) -> Memory {
        Memory {
            table: self.tt@,
            nodes: self.nodes,
            killers: Seq::new(64, |p: int| Seq::new(2, |i: int| self.killers[p][i])),
            history: Seq::new(
                2,
                |c: int| Seq::new(10, |k: int| Seq::new(25, |t: int| self.history[c][k][t])),
            ),
        }
    }

    /// The history score of moves of a kind of piece of one side to a square.
    pub closed spec fn history_score(&self, color: Color, kind: PieceKind, square: int) -> int {
        self.history[color.spec_index()][kind.spec_index()][square] as int
    }

    /// The killer move in the given slot of a ply.
    pub closed spec fn killer(&self, ply: int, slot: int) -> Option<Move> {
        self.killers[ply][slot]
    }

    /// A searcher whose generator starts from the given seed.
    pub fn with_seed(seed: u64) -> (s: Searcher)
        ensures
            s.wf(),
            s.root_view() == Seq::<RootEntry>::empty(),
            s.info_view() == Seq::<SearchInfo>::empty(),
            s.rng_state() == if seed == 0 {
                0x9E37_79B9_7F4A_7C15u64
            } else {
                seed
            },
    {
        Searcher {
            tt: TranspositionTable::new(),
            nodes: 0,
            killers: [[None;2];64],
            history: [[[0;25];10];2],
            rng: SimpleRng::new(seed),
            limits: SearchLimits::default(),
            root_entries: Vec::new(),
            infos: Vec::new(),
            trace: Ghost(Seq::empty()),
        }
    }

    /// A searcher whose generator is seeded from the clock.
    pub fn new() -> (s: Searcher)
        ensures
            s.wf(),
            s.root_view() == Seq::<RootEntry>::empty(),
            s.info_view() == Seq::<SearchInfo>::empty(),
    {
        Self::with_seed(clock_seed())
    }

    /// What was known after each iteration of the last search.
    pub fn info(&self) -> (v: &Vec<SearchInfo>)
        ensures
            v@ == self.info_view(),
            self.wf() ==> forall|i: int| 0 <= i < v@.len() ==> (#[trigger] v@[i]).can_be_written(),
    {
        &self.infos
    }

    /// The lines that report the iterations of the last search.
    pub fn info_lines(&self) -> (lines: Vec<String>)
        requires
            self.wf(),
        ensures
            lines@.len() == self.info_view().len(),
            forall|i: int|
                0 <= i < lines@.len() ==> (#[trigger] lines@[i])@ == info_text(self.info_view()[i]),
    {
        let mut lines: Vec<String> = Vec::new();
        let mut i: usize = 0;
        while i < self.infos.len()
            invariant
                self.wf(),
                i <= self.infos.len(),
                lines@.len() == i,
                forall|j: int| 0 <= j < i ==> (#[trigger] lines@[j])@ == info_text(self.infos@[j]),
            decreases self.infos.len() - i,
        {
            assert(self.infos@[i as int].can_be_written());
            lines.push(self.infos[i].to_line());
            i += 1;
        }
        lines
    }

    fn count_node(&mut self)
        ensures
            final(self).tt == old(self).tt,
            final(self).killers == old(self).killers,
            final(self).history == old(self).history,
            final(self).rng == old(self).rng,
            final(self).limits == old(self).limits,
            final(self).root_entries == old(self).root_entries,
            final(self).infos == old(self).infos,
            final(self).trace == old(self).trace,
            final(self).nodes == if old(self).nodes < u64::MAX {
                (old(self).nodes + 1) as u64
            } else {
                old(self).nodes
            },
            final(self).memory() == counted(old(self).memory()),
    {
        if self.nodes < u64::MAX {
            self.nodes = self.nodes + 1;
        }
    }

    fn clear_heuristics(&mut self)
        ensures
            final(self).tt == old(self).tt,
            final(self).nodes == old(self).nodes,
            final(self).rng == old(self).rng,
            final(self).limits == old(self).limits,
            final(self).root_entries == old(self).root_entries,
            final(self).infos == old(self).infos,
            final(self).trace == old(self).trace,
            forall|p: int, i: int|
                0 <= p < 64 && 0 <= i < 2 ==> (#[trigger] final(self).killers[p][i]) is None,
            forall|c: int, k: int, s: int|
                0 <= c < 2 && 0 <= k < 10 && 0 <= s < 25 ==> #[trigger] final(self).history[c][k][s] == 0,
            final(self).memory().killers == fresh_memory().killers,
            final(self).memory().history == fresh_memory().history,
    {
        self.killers = [[None;2];64];
        self.history = [[[0;25];10];2];
        proof {
            assert(self.memory().killers =~~= fresh_memory().killers);
            assert(self.memory().history =~~= fresh_memory().history);
        }
    }

    /// The value of what a move takes, less the value of what takes.
    fn capture_order_score(&self, position: &Position, mv: &Move) -> (score: i32)
        ensures
            score == capture_value(position@, *mv),
            -15_000 <= score <= 15_000,
    {
        let taken = match position.piece_at(mv.to) {
            Some(piece) => piece_material_value(piece.kind),
            None => 0,
        };
        taken - piece_material_value(mv.piece)
    }

    /// What a move scores as a killer move of a ply.
    fn killer_score(&self, mv: Move, ply: usize) -> (score: i32)
        ensures
            score == crate::model::killer_bonus(self.memory(), mv, ply as int),
            0 <= score <= 900_000,
    {
        if ply < 64 {
            let first = match self.killers[ply][0] {
                Some(k) => k == mv,
                None => false,
            };
            let second = match self.killers[ply][1] {
                Some(k) => k == mv,
                None => false,
            };
            if first {
                900_000
            } else if second {
                800_000
            } else {
                0
            }
        } else {
            0
        }
    }

    /// What a move scores as a capture or a promotion.
    fn tactic_score(position: &Position, mv: Move) -> (score: i32)
        ensures
            score == crate::model::tactic_bonus(position@, mv),
            0 <= score <= 520_000,
    {
        match position.piece_at(mv.to) {
            Some(captured) => {
                let capture_value = piece_material_value(captured.kind);
                let mover_value = piece_material_value(mv.piece);
                500_000 + (capture_value - mover_value)
            },
            None => {
                if mv.promote {
                    400_000
                } else {
                    0
                }
            },
        }
    }

    /// The history score of a move.
    fn history_of(&self, position: &Position, mv: Move) -> (score: i32)
        requires
            self.wf(),
        ensures
            score == crate::model::history_bonus(self.memory(), position@, mv),
            0 <= score <= HISTORY_LIMIT,
    {
        proof {
            use_type_invariant(&mv.to);
            mv.to.lemma_on_board();
        }
        let color_idx = position.side_to_move().index();
        let kind_idx = mv.piece.index();
        let to_idx = mv.to.index() as usize;
        assert(0 <= self.history[color_idx as int][kind_idx as int][to_idx as int]
            <= HISTORY_LIMIT);
        self.history[color_idx][kind_idx][to_idx]
    }

    /// The score by which a move is ordered: the move of the transposition
    /// table first, then the killer moves of the ply, captures by what they
    /// win, promotions, and the history score on top.
    fn move_score(&self, position: &Position, mv: Move, tt_move: Option<Move>, ply: usize) -> (score:
        i32)
        requires
            self.wf(),
        ensures
            score == order_score(self.memory(), position@, mv, tt_move, ply as int),
            0 <= score <= 2_000_000_000,
    {
        match tt_move {
            Some(m) => {
                if m == mv {
                    return 1_000_000;
                }
            },
            None => {},
        }
        self.killer_score(mv, ply) + Self::tactic_score(position, mv) + self.history_of(
            position,
            mv,
        )
    }

    /// Puts the moves in descending order of their scores; moves that score
    /// the same keep their order.
    fn order_moves(
        &mut self,
        position: &Position,
        moves: &mut MoveList,
        tt_move: Option<Move>,
        ply: usize,
    )
        requires
            old(self).wf(),
        ensures
            *final(self) == *old(self),
            final(moves)@.len() == old(moves)@.len(),
            forall|mv: Move| #[trigger] final(moves)@.contains(mv) <==> old(moves)@.contains(mv),
            final(moves)@ == ordered(
                old(self).memory(),
                position@,
                old(moves)@,
                tt_move,
                ply as int,
            ),
    {
        let mut entries: Vec<RootEntry> = Vec::new();
        let mut i: usize = 0;
        while i < moves.len()
            invariant
                self.wf(),
                *self == *old(self),
                *moves == *old(moves),
                i <= moves.len(),
                entries@.len() == i,
                forall|j: int| 0 <= j < i ==> (#[trigger] entries@[j]).mv == moves@[j],
                forall|j: int|
                    0 <= j < i ==> (#[trigger] entries@[j]).score == order_score(
                        self.memory(),
                        position@,
                        moves@[j],
                        tt_move,
                        ply as int,
                    ),
            decreases moves.len() - i,
        {
            let mv = moves[i];
            entries.push(RootEntry { mv, score: self.move_score(position, mv, tt_move, ply) });
            i += 1;
        }
        let sorted = sort_entries(&entries);
        proof {
            lemma_stable_sorted(entries@);
            assert(entries@ =~= order_entries(
                self.memory(),
                position@,
                moves@,
                tt_move,
                ply as int,
            ));
        }
        let mut ordered: MoveList = Vec::new();
        let mut j: usize = 0;
        while j < sorted.len()
            invariant
                j <= sorted.len(),
                ordered@.len() == j,
                forall|k: int| 0 <= k < j ==> #[trigger] ordered@[k] == sorted@[k].mv,
            decreases sorted.len() - j,
        {
            ordered.push(sorted[j].mv);
            j += 1;
        }
        proof {
            assert(ordered@ =~= moves_of(sorted@));
            assert forall|mv: Move| #[trigger] ordered@.contains(mv) <==> moves@.contains(mv) by {
                if ordered@.contains(mv) {
                    let k = choose|k: int| 0 <= k < ordered@.len() && ordered@[k] == mv;
                    assert(sorted@.contains(sorted@[k]));
                    assert(entries@.contains(sorted@[k]));
                    let n = choose|n: int| 0 <= n < entries@.len() && entries@[n] == sorted@[k];
                    assert(moves@[n] == mv);
                }
                if moves@.contains(mv) {
                    let n = choose|n: int| 0 <= n < moves@.len() && moves@[n] == mv;
                    assert(entries@.contains(entries@[n]));
                    assert(sorted@.contains(entries@[n]));
                    let k = choose|k: int| 0 <= k < sorted@.len() && sorted@[k] == entries@[n];
                    assert(ordered@[k] == mv);
                }
            }
        }
        *moves = ordered;
    }

    /// Remembers a move that cut the search off: as a killer move of the
    /// ply, if it is a quiet move on the board, and in the history scores.
    fn register_cutoff(&mut self, position: &Position, mv: Move, ply: usize)
        requires
            old(self).wf(),
        ensures
            final(self).wf(),
            final(self).tt == old(self).tt,
            final(self).nodes == old(self).nodes,
            final(self).rng == old(self).rng,
            final(self).limits == old(self).limits,
            final(self).root_entries == old(self).root_entries,
            final(self).infos == old(self).infos,
            final(self).trace == old(self).trace,
            final(self).history_score(position@.side, mv.piece, mv.to@) == history_after_cutoff(
                old(self).history_score(position@.side, mv.piece, mv.to@),
                ply as int,
            ),
            final(self).memory() == registered(old(self).memory(), position@, mv, ply as int),
    {
        proof {
            use_type_invariant(&mv.to);
            mv.to.lemma_on_board();
        }
        let idx = if ply < 63 {
            ply
        } else {
            63
        };
        if !mv.is_drop() && position.piece_at(mv.to).is_none() {
            let first = self.killers[idx][0];
            let same = match first {
                Some(k) => k == mv,
                None => false,
            };
            if !same {
                self.killers[idx][1] = first;
                self.killers[idx][0] = Some(mv);
            }
        }
        let color_idx = position.side_to_move().index();
        let kind_idx = mv.piece.index();
        let to_idx = mv.to.index() as usize;
        let value = self.history[color_idx][kind_idx][to_idx];
        let raised: i32 = if ply < 46_000 {
            let p = ply as i64 + 1;
            assert(0 <= p * p <= 46_000 * 46_000) by (nonlinear_arith)
                requires
                    1 <= p <= 46_000,
            ;
            let step = p * p;
            if value as i64 + step <= 2_147_483_647 {
                (value as i64 + step) as i32
            } else {
                2_147_483_647
            }
        } else {
            2_147_483_647
        };
        let settled = if raised > 200_000 {
            raised / 2
        } else {
            raised
        };
        self.history[color_idx][kind_idx][to_idx] = settled;
        proof {
            let m = old(self).memory();
            let want = registered(m, position@, mv, ply as int);
            assert(self.memory().killers =~~= want.killers);
            assert(self.memory().history =~~= want.history);
        }
    }

    /// The legal moves that capture or promote; drops are left out.
    fn generate_tactical_moves(&self, position: &Position) -> (r: Result<MoveList, PositionError>)
        requires
            position.wf(),
        ensures
            r is Ok,
            forall|mv: Move| #[trigger] r->Ok_0@.contains(mv) <==> tactical(position@, mv),
            r->Ok_0@ == tactical_list(position@),
    {
        let mut result: MoveList = Vec::new();
        let moves = match position.generate_legal_moves() {
            Ok(moves) => moves,
            Err(e) => {
                return Err(e);
            },
        };
        let ghost s = position@;
        let mut i: usize = 0;
        while i < moves.len()
            invariant
                s == position@,
                i <= moves.len(),
                moves@ == legal_list(s),
                result@ == tactical_kept(moves@, s, i as int),
                forall|mv: Move| #[trigger] moves@.contains(mv) <==> legal(s, mv),
                forall|mv: Move| #[trigger]
                    result@.contains(mv) <==> tactical(s, mv) && exists|j: int|
                        0 <= j < i && moves@[j] == mv,
            decreases moves.len() - i,
        {
            let mv = moves[i];
            let ghost before = result@;
            proof {
                assert(moves@.contains(mv));
            }
            if !mv.is_drop() && (position.piece_at(mv.to).is_some() || mv.promote) {
                result.push(mv);
            }
            proof {
                broadcast use vstd::seq_lib::lemma_seq_contains_after_push;

                assert(result@ =~= tactical_kept(moves@, s, i as int + 1));
                assert forall|m: Move| #[trigger]
                    result@.contains(m) <==> tactical(s, m) && exists|j: int|
                        0 <= j < i + 1 && moves@[j] == m by {
                    if before.contains(m) {
                        let j = choose|j: int| 0 <= j < i && moves@[j] == m;
                        assert(0 <= j < i + 1 && moves@[j] == m);
                    }
                    if tactical(s, m) && exists|j: int| 0 <= j < i + 1 && moves@[j] == m {
                        let j = choose|j: int| 0 <= j < i + 1 && moves@[j] == m;
                        if j < i {
                            assert(before.contains(m));
                        }
                    }
                }
            }
            i += 1;
        }
        proof {
            assert forall|mv: Move| #[trigger] result@.contains(mv) <==> tactical(s, mv) by {
                if tactical(s, mv) {
                    assert(moves@.contains(mv));
                    let j = choose|j: int| 0 <= j < moves@.len() && moves@[j] == mv;
                    assert(0 <= j < i && moves@[j] == mv);
                }
            }
        }
        Ok(result)
    }

    /// What stays as it is while the tree below the root is searched.
    pub closed spec fn same_root(&self, other: &Searcher) -> bool {
        &&& self.rng == other.rng
        &&& self.limits == other.limits
        &&& self.root_entries == other.root_entries
        &&& self.infos == other.infos
        &&& self.trace == other.trace
    }

    /// Searches captures and promotions until the position is quiet, and
    /// returns its score within the window.
    fn quiescence(&mut self, position: &Position, alpha: i32, beta: i32, ply: usize) -> (r: Result<
        i32,
        PositionError,
    >)
        requires
            old(self).wf(),
            position.wf(),
            window_ok(alpha as int, beta as int),
        ensures
            final(self).wf(),
            final(self).same_root(old(self)),
            r is Ok,
            score_ok(r->Ok_0 as int),
            (Outcome { memory: final(self).memory(), score: r->Ok_0 as int }) == quiescence_of(
                old(self).memory(),
                position.node(),
                alpha as int,
                beta as int,
                ply as int,
            ),
        decreases room_left(position.history_view()), 0nat,
    {
        let ghost goal = quiescence_of(
            old(self).memory(),
            position.node(),
            alpha as int,
            beta as int,
            ply as int,
        );
        let ghost node = position.node();
        let ghost alpha0 = alpha;
        let mut alpha = alpha;
        self.count_node();
        match repetition_terminal_value(
            position.side_to_move(),
            position.current_repetition_count(),
            ply,
        ) {
            Some(score) => {
                return Ok(score);
            },
            None => {},
        }
        let stand_pat = evaluate(position);
        if stand_pat >= beta {
            return Ok(beta);
        }
        let mut value = stand_pat;
        if value > alpha {
            alpha = value;
        }
        let moves = match self.generate_tactical_moves(position) {
            Ok(moves) => moves,
            Err(e) => {
                return Err(e);
            },
        };
        if moves.len() == 0 {
            return Ok(value);
        }
        let mut entries: Vec<RootEntry> = Vec::new();
        let mut k: usize = 0;
        while k < moves.len()
            invariant
                k <= moves.len(),
                entries@.len() == k,
                forall|j: int| 0 <= j < k ==> (#[trigger] entries@[j]).mv == moves@[j],
                forall|j: int|
                    0 <= j < k ==> (#[trigger] entries@[j]).score == capture_value(
                        position@,
                        moves@[j],
                    ),
            decreases moves.len() - k,
        {
            let mv = moves[k];
            entries.push(RootEntry { mv, score: self.capture_order_score(position, &mv) });
            k += 1;
        }
        let sorted = sort_entries(&entries);
        let ghost ms = moves_of(sorted@);
        proof {
            lemma_stable_sorted(entries@);
            position.lemma_wf();
            assert(entries@ =~= capture_entries(position@, moves@));
            assert forall|j: int| 0 <= j < sorted@.len() implies legal(
                position@,
                (#[trigger] sorted@[j]).mv,
            ) by {
                assert(sorted@.contains(sorted@[j]));
                assert(entries@.contains(sorted@[j]));
                let n = choose|n: int| 0 <= n < entries@.len() && entries@[n] == sorted@[j];
                assert(moves@.contains(moves@[n]));
                assert(tactical(position@, moves@[n]));
            }
        }
        let mover = position.side_to_move();
        let mut cut = false;
        let mut i: usize = 0;
        while i < sorted.len()
            invariant_except_break
                !cut,
                quiescence_sweep(
                    self.memory(),
                    node,
                    ms,
                    i as int,
                    alpha as int,
                    beta as int,
                    value as int,
                    ply as int,
                ) == goal,
            invariant
                self.wf(),
                self.same_root(old(self)),
                position.wf(),
                position@.well_formed(),
                node == position.node(),
                mover == position@.side,
                i <= sorted.len(),
                ms == moves_of(sorted@),
                window_ok(alpha as int, beta as int),
                score_ok(value as int),
                forall|j: int|
                    0 <= j < sorted@.len() ==> legal(position@, (#[trigger] sorted@[j]).mv),
            ensures
                cut ==> score_ok(beta as int),
                (Outcome {
                    memory: self.memory(),
                    score: if cut {
                        beta as int
                    } else {
                        value as int
                    },
                }) == goal,
            decreases sorted.len() - i,
        {
            let mv = sorted[i].mv;
            i += 1;
            proof {
                assert(legal(position@, sorted@[i - 1].mv));
                lemma_pseudo_legal_applies(position@, mv);
                assert(ms[i - 1] == mv);
            }
            let next = match position.play_move(&mv) {
                Ok(next) => next,
                Err(e) => {
                    return Err(e);
                },
            };
            proof {
                next.lemma_wf();
                assert(next.node() == node.child(mv));
            }
            match repetition_terminal_value(
                mover,
                next.current_repetition_count(),
                next_ply(ply),
            ) {
                Some(score) => {
                    if score > value {
                        value = score;
                    }
                    if value >= beta {
                        cut = true;
                        break ;
                    }
                    if value > alpha {
                        alpha = value;
                    }
                    continue ;
                },
                None => {},
            }
            proof {
                lemma_occurrences(position.history_view(), next.key());
                lemma_new_key_takes_room(position.history_view(), next.key());
            }
            let score = match self.quiescence(&next, -beta, -alpha, next_ply(ply)) {
                Ok(v) => -v,
                Err(e) => {
                    return Err(e);
                },
            };
            if score >= beta {
                cut = true;
                break ;
            }
            if score > value {
                value = score;
            }
            if score > alpha {
                alpha = score;
            }
        }
        if cut {
            Ok(beta)
        } else {
            Ok(value)
        }
    }

    /// Searches the position to the given depth and returns its score
    /// within the window.
    fn alpha_beta(
        &mut self,
        position: &Position,
        depth: usize,
        alpha: i32,
        beta: i32,
        ply: usize,
    ) -> (r: Result<i32, PositionError>)
        requires
            old(self).wf(),
            position.wf(),
            window_ok(alpha as int, beta as int),
        ensures
            final(self).wf(),
            final(self).same_root(old(self)),
            r is Ok,
            score_ok(r->Ok_0 as int),
            (Outcome { memory: final(self).memory(), score: r->Ok_0 as int }) == alpha_beta_of(
                old(self).memory(),
                position.node(),
                depth as int,
                alpha as int,
                beta as int,
                ply as int,
            ),
        decreases room_left(position.history_view()), 1nat,
    {
        let ghost goal = alpha_beta_of(
            old(self).memory(),
            position.node(),
            depth as int,
            alpha as int,
            beta as int,
            ply as int,
        );
        let ghost node = position.node();
        let mut alpha = alpha;
        let mut beta = beta;
        self.count_node();
        let ghost m1 = self.memory();
        match repetition_terminal_value(
            position.side_to_move(),
            position.current_repetition_count(),
            ply,
        ) {
            Some(score) => {
                return Ok(score);
            },
            None => {},
        }
        if depth == 0 {
            return self.quiescence(position, alpha, beta, ply);
        }
        let hash = compute_hash(position);
        proof {
            position.lemma_wf();
        }
        let mut tt_move: Option<Move> = None;
        match self.tt.probe(hash) {
            Some(found) => {
                let entry = *found;
                tt_move = entry.best_move;
                if entry.depth >= depth {
                    match entry.bound {
                        Bound::Exact => {
                            return Ok(entry.score);
                        },
                        Bound::Lower => {
                            if entry.score > alpha {
                                alpha = entry.score;
                            }
                        },
                        Bound::Upper => {
                            if entry.score < beta {
                                beta = entry.score;
                            }
                        },
                    }
                    if alpha >= beta {
                        return Ok(entry.score);
                    }
                }
            },
            None => {},
        }
        let mut moves = match position.generate_legal_moves() {
            Ok(moves) => moves,
            Err(e) => {
                return Err(e);
            },
        };
        if moves.len() == 0 {
            return terminal_score(position, ply);
        }
        self.order_moves(position, &mut moves, tt_move, ply);
        let alpha_start = alpha;
        let mut best_value = -MATE_VALUE;
        let mut best_move: Option<Move> = None;
        let mut searched_any = false;
        let mover = position.side_to_move();
        let ghost sweep_goal = alpha_beta_sweep(
            m1,
            node,
            moves@,
            0,
            depth as int,
            alpha as int,
            beta as int,
            Sweep { memory: m1, best_value: -30_000, best_move: None, searched_any: false },
            ply as int,
        );
        let mut i: usize = 0;
        while i < moves.len()
            invariant_except_break
                alpha_beta_sweep(
                    self.memory(),
                    node,
                    moves@,
                    i as int,
                    depth as int,
                    alpha as int,
                    beta as int,
                    Sweep {
                        memory: self.memory(),
                        best_value: best_value as int,
                        best_move,
                        searched_any,
                    },
                    ply as int,
                ) == sweep_goal,
            invariant
                self.wf(),
                self.same_root(old(self)),
                position.wf(),
                position@.well_formed(),
                node == position.node(),
                mover == position@.side,
                depth >= 1,
                i <= moves.len(),
                window_ok(alpha as int, beta as int),
                score_ok(best_value as int),
                forall|mv: Move| #[trigger] moves@.contains(mv) <==> legal(position@, mv),
            ensures
                (Sweep {
                    memory: self.memory(),
                    best_value: best_value as int,
                    best_move,
                    searched_any,
                }) == sweep_goal,
            decreases moves.len() - i,
        {
            let mv = moves[i];
            i += 1;
            proof {
                assert(moves@.contains(mv));
                lemma_pseudo_legal_applies(position@, mv);
            }
            let next = match position.play_move(&mv) {
                Ok(next) => next,
                Err(e) => {
                    return Err(e);
                },
            };
            proof {
                next.lemma_wf();
                assert(next.node() == node.child(mv));
            }
            match repetition_terminal_value(
                mover,
                next.current_repetition_count(),
                next_ply(ply),
            ) {
                Some(score) => {
                    if score > best_value {
                        best_value = score;
                        best_move = Some(mv);
                    }
                    if score > alpha {
                        alpha = score;
                    }
                    if alpha >= beta {
                        self.register_cutoff(position, mv, ply);
                        break ;
                    }
                    continue ;
                },
                None => {},
            }
            let mut child_depth = depth - 1;
            if next.is_in_check(next.side_to_move()) {
                child_depth = child_depth + 1;
            }
            proof {
                lemma_occurrences(position.history_view(), next.key());
                lemma_new_key_takes_room(position.history_view(), next.key());
            }
            let score = match self.alpha_beta(&next, child_depth, -beta, -alpha, next_ply(ply)) {
                Ok(v) => -v,
                Err(e) => {
                    return Err(e);
                },
            };
            searched_any = true;
            if score > best_value {
                best_value = score;
                best_move = Some(mv);
            }
            if score > alpha {
                alpha = score;
            }
            if alpha >= beta {
                self.register_cutoff(position, mv, ply);
                break ;
            }
        }
        let bound = if best_value <= alpha_start {
            Bound::Upper
        } else if best_value >= beta {
            Bound::Lower
        } else {
            Bound::Exact
        };
        if searched_any {
            self.store_entry(hash, TableEntry { depth, score: best_value, bound, best_move });
        }
        Ok(best_value)
    }

    /// Offers an entry to the transposition table.
    fn store_entry(&mut self, hash: u64, entry: TableEntry)
        requires
            old(self).wf(),
            score_ok(entry.score as int),
        ensures
            final(self).wf(),
            final(self).same_root(old(self)),
            final(self).nodes == old(self).nodes,
            final(self).memory() == stored(old(self).memory(), hash, entry),
    {
        self.tt.store(hash, entry);
    }

    /// How far the search has come, with the result so far and the score of
    /// the last iteration.
    pub open spec fn progress(&self, result: SearchResult, last_score: int) -> Progress {
        Progress {
            memory: self.memory(),
            trace: self.trace_view(),
            infos: self.info_view(),
            result,
            last_score,
        }
    }

    /// Searches every legal move of the root to the given depth and keeps
    /// the moves with their scores, best first.
    fn root_iteration(&mut self, position: &Position, depth: usize, alpha: i32, beta: i32) -> (r:
        Result<SearchResult, PositionError>)
        requires
            old(self).wf(),
            position.wf(),
            depth >= 1,
            window_ok(alpha as int, beta as int),
        ensures
            final(self).wf(),
            final(self).rng == old(self).rng,
            final(self).limits == old(self).limits,
            final(self).infos == old(self).infos,
            r is Ok,
            score_ok(r->Ok_0.score as int),
            r->Ok_0.nodes == final(self).node_count(),
            ({
                let it = root_iteration_of(
                    old(self).memory(),
                    position.node(),
                    depth as int,
                    alpha as int,
                    beta as int,
                );
                &&& final(self).memory() == it.memory
                &&& r->Ok_0.best_move == it.best_move
                &&& r->Ok_0.score == it.score
                &&& r->Ok_0.depth == it.depth
                &&& r->Ok_0.nodes == it.memory.nodes
                &&& final(self).trace_view() == match it.entries {
                    Some(entries) => entries,
                    None => old(self).trace_view(),
                }
                &&& it.entries is None ==> final(self).root_view() == old(self).root_view()
                &&& it.entries is Some <==> exists|mv: Move| legal(position@, mv)
            }),
            (forall|mv: Move| !legal(position@, mv)) ==> {
                &&& r->Ok_0.best_move is None
                &&& r->Ok_0.depth == 0
                &&& r->Ok_0.score == terminal_value(in_check(position@, position@.side), 0)
                &&& final(self).root_view() == old(self).root_view()
                &&& final(self).trace_view() == old(self).trace_view()
            },
            (exists|mv: Move| legal(position@, mv)) ==> {
                &&& r->Ok_0.depth == depth
                &&& final(self).trace_view().len() > 0
                &&& final(self).root_view() == stable_sorted(final(self).trace_view())
                &&& forall|i: int|
                    0 <= i < final(self).trace_view().len() ==> legal(
                        position@,
                        (#[trigger] final(self).trace_view()[i]).mv,
                    )
                &&& r->Ok_0.best_move is Some ==> legal(position@, r->Ok_0.best_move->0)
            },
    {
        let ghost node = position.node();
        let mut alpha = alpha;
        self.count_node();
        let ghost m1 = self.memory();
        let hash = compute_hash(position);
        proof {
            position.lemma_wf();
        }
        let tt_move = match self.tt.probe(hash) {
            Some(entry) => entry.best_move,
            None => None,
        };
        let mut moves = match position.generate_legal_moves() {
            Ok(moves) => moves,
            Err(e) => {
                return Err(e);
            },
        };
        if moves.len() == 0 {
            proof {
                assert forall|mv: Move| !legal(position@, mv) by {
                    if legal(position@, mv) {
                        assert(moves@.contains(mv));
                    }
                }
            }
            let score = match terminal_score(position, 0) {
                Ok(score) => score,
                Err(e) => {
                    return Err(e);
                },
            };
            return Ok(SearchResult { best_move: None, score, depth: 0, nodes: self.nodes });
        }
        proof {
            assert(moves@.contains(moves@[0]));
            assert(legal(position@, moves@[0]));
        }
        self.order_moves(position, &mut moves, tt_move, 0);
        let mut best_move: Option<Move> = None;
        let mut best_score = -MATE_VALUE;
        let mut local_entries: Vec<RootEntry> = Vec::new();
        let mover = position.side_to_move();
        let ghost sweep_goal = root_sweep(
            m1,
            node,
            moves@,
            0,
            depth as int,
            alpha as int,
            beta as int,
            RootSweep { memory: m1, best_score: -30_000, best_move: None, entries: Seq::empty() },
        );
        let mut i: usize = 0;
        while i < moves.len()
            invariant
                self.wf(),
                self.same_root(old(self)),
                position.wf(),
                position@.well_formed(),
                node == position.node(),
                mover == position@.side,
                depth >= 1,
                i <= moves.len(),
                window_ok(alpha as int, beta as int),
                score_ok(best_score as int),
                local_entries@.len() == i,
                forall|mv: Move| #[trigger] moves@.contains(mv) <==> legal(position@, mv),
                forall|j: int|
                    0 <= j < i ==> legal(position@, (#[trigger] local_entries@[j]).mv) && score_ok(
                        local_entries@[j].score as int,
                    ),
                best_move is Some ==> legal(position@, best_move->0),
                root_sweep(
                    self.memory(),
                    node,
                    moves@,
                    i as int,
                    depth as int,
                    alpha as int,
                    beta as int,
                    RootSweep {
                        memory: self.memory(),
                        best_score: best_score as int,
                        best_move,
                        entries: local_entries@,
                    },
                ) == sweep_goal,
            decreases moves.len() - i,
        {
            let mv = moves[i];
            i += 1;
            proof {
                assert(moves@.contains(mv));
                lemma_pseudo_legal_applies(position@, mv);
            }
            let next = match position.play_move(&mv) {
                Ok(next) => next,
                Err(e) => {
                    return Err(e);
                },
            };
            proof {
                next.lemma_wf();
                assert(next.node() == node.child(mv));
            }
            let score = match repetition_terminal_value(mover, next.current_repetition_count(), 1) {
                Some(score) => score,
                None => {
                    let mut child_depth = depth - 1;
                    if next.is_in_check(next.side_to_move()) {
                        child_depth = child_depth + 1;
                    }
                    match self.alpha_beta(&next, child_depth, -beta, -alpha, 1) {
                        Ok(v) => -v,
                        Err(e) => {
                            return Err(e);
                        },
                    }
                },
            };
            local_entries.push(RootEntry { mv, score });
            if score > best_score {
                best_score = score;
                best_move = Some(mv);
            }
            if score > alpha {
                alpha = score;
            }
        }
        let sorted = sort_entries(&local_entries);
        proof {
            lemma_stable_sorted(local_entries@);
            assert forall|j: int| 0 <= j < sorted@.len() implies score_ok(
                (#[trigger] sorted@[j]).score as int,
            ) by {
                assert(sorted@.contains(sorted@[j]));
                assert(local_entries@.contains(sorted@[j]));
            }
            assert(exists|mv: Move| legal(position@, mv));
        }
        self.root_entries = sorted;
        self.trace = Ghost(local_entries@);
        match best_move {
            Some(best) => {
                self.store_root(
                    hash,
                    TableEntry {
                        depth,
                        score: best_score,
                        bound: Bound::Exact,
                        best_move: Some(best),
                    },
                );
            },
            None => {},
        }
        Ok(SearchResult { best_move, score: best_score, depth, nodes: self.nodes })
    }

    /// Offers the entry of the root to the transposition table.
    fn store_root(&mut self, hash: u64, entry: TableEntry)
        requires
            old(self).wf(),
            score_ok(entry.score as int),
        ensures
            final(self).wf(),
            final(self).rng == old(self).rng,
            final(self).limits == old(self).limits,
            final(self).infos == old(self).infos,
            final(self).root_entries == old(self).root_entries,
            final(self).trace == old(self).trace,
            final(self).nodes == old(self).nodes,
            final(self).memory() == stored(old(self).memory(), hash, entry),
    {
        self.tt.store(hash, entry);
    }

    /// Picks the move to play from the scored moves of the root: the best
    /// one, or one that scores no more than the margin of randomness below it.
    fn pick_root_move(&mut self) -> (r: Option<Move>)
        requires
            old(self).wf(),
        ensures
            final(self).wf(),
            final(self).root_view() == old(self).root_view(),
            final(self).trace_view() == old(self).trace_view(),
            final(self).info_view() == old(self).info_view(),
            final(self).memory() == old(self).memory(),
            final(self).limits == old(self).limits,
            r == picked(old(self).root_view(), old(self).limits, old(self).rng_state()),
            final(self).rng_state() == rng_after_pick(
                old(self).root_view(),
                old(self).limits,
                old(self).rng_state(),
            ),
            r is None <==> old(self).root_view().len() == 0,
            r is Some && old(self).limits.randomness <= 0 ==> r->0 == old(self).root_view()[0].mv
                && final(self).rng_state() == old(self).rng_state(),
            r is Some ==> exists|i: int|
                0 <= i < old(self).root_view().len() && r->0 == (#[trigger] old(
                    self,
                ).root_view()[i]).mv && old(self).root_view()[i].score >= old(self).root_view()[0].score
                    - margin(old(self).limits),
    {
        if self.root_entries.len() == 0 {
            return None;
        }
        let best_score = self.root_entries[0].score;
        if self.limits.randomness <= 0 {
            proof {
                assert(self.root_view()[0].score >= self.root_view()[0].score - margin(
                    self.limits,
                ));
            }
            return Some(self.root_entries[0].mv);
        }
        let threshold: i64 = best_score as i64 - self.limits.randomness as i64;
        let mut candidates: Vec<Move> = Vec::new();
        let mut i: usize = 0;
        let ghost root = self.root_entries@;
        while i < self.root_entries.len()
            invariant_except_break
                leading(root, threshold as int, 0) == i + leading(root, threshold as int, i as int),
            invariant
                *self == *old(self),
                root == self.root_entries@,
                i <= self.root_entries.len(),
                candidates@.len() == i,
                threshold == self.root_entries@[0].score - self.limits.randomness,
                forall|j: int|
                    0 <= j < i ==> #[trigger] candidates@[j] == self.root_entries@[j].mv
                        && self.root_entries@[j].score >= threshold,
            ensures
                leading(root, threshold as int, 0) == i,
            decreases self.root_entries.len() - i,
        {
            let entry = self.root_entries[i];
            if entry.score as i64 >= threshold {
                candidates.push(entry.mv);
            } else {
                break ;
            }
            i += 1;
        }
        assert(candidates@.len() >= 1) by {
            assert(root[0].score >= threshold);
            crate::model::lemma_leading_bounds(root, threshold as int, 1);
        }
        let idx = self.rng.gen_range(0..candidates.len());
        proof {
            assert(candidates@[idx as int] == self.root_view()[idx as int].mv);
        }
        Some(candidates[idx])
    }

    /// Searches the position by iterative deepening to the depth of the
    /// limits (at least 1) and returns the move to play with its score.
    ///
    /// A position without legal moves has no best move, and its score is
    /// that of a mate if the side to move is in check and zero otherwise.
    /// Otherwise the best move is a legal move: the head of the root's moves
    /// in descending order of score, or, with a margin of randomness, one of
    /// those within the margin of the head. The result is a function of the
    /// position, its history, the limits and the state of the generator.
    pub fn search(&mut self, position: &Position, limits: SearchLimits) -> (r: Result<
        SearchResult,
        PositionError,
    >)
        requires
            old(self).wf(),
            position.wf(),
        ensures
            final(self).wf(),
            r is Ok,
            r->Ok_0 == search_of(position.node(), limits, old(self).rng_state()),
            final(self).progress(
                search_progress(position.node(), limits).result,
                search_progress(position.node(), limits).last_score,
            ) == search_progress(position.node(), limits),
            final(self).root_view() == stable_sorted(final(self).trace_view()),
            final(self).rng_state() == rng_after_pick(
                final(self).root_view(),
                limits,
                old(self).rng_state(),
            ),
            score_ok(r->Ok_0.score as int),
            (forall|mv: Move| !legal(position@, mv)) ==> {
                &&& r->Ok_0.best_move is None
                &&& r->Ok_0.depth == 0
                &&& r->Ok_0.nodes == 0
                &&& r->Ok_0.score == terminal_value(in_check(position@, position@.side), 0)
                &&& final(self).root_view().len() == 0
            },
            (exists|mv: Move| legal(position@, mv)) ==> {
                &&& r->Ok_0.best_move is Some
                &&& legal(position@, r->Ok_0.best_move->0)
                &&& r->Ok_0.depth <= if limits.depth < 1 {
                    1
                } else {
                    limits.depth as int
                }
                &&& final(self).trace_view().len() > 0
                &&& forall|i: int|
                    0 <= i < final(self).trace_view().len() ==> legal(
                        position@,
                        (#[trigger] final(self).trace_view()[i]).mv,
                    )
                &&& limits.randomness <= 0 ==> r->Ok_0.best_move == Some(
                    final(self).root_view()[0].mv,
                ) && final(self).rng_state() == old(self).rng_state()
                &&& exists|i: int|
                    0 <= i < final(self).root_view().len() && r->Ok_0.best_move == Some(
                        (#[trigger] final(self).root_view()[i]).mv,
                    ) && final(self).root_view()[i].score >= final(self).root_view()[0].score
                        - margin(limits)
            },
    {
        let ghost node = position.node();
        let ghost goal = search_progress(node, limits);
        self.limits = limits;
        let max_depth = if limits.depth < 1 {
            1
        } else {
            limits.depth
        };
        self.nodes = 0;
        self.tt.clear();
        self.clear_heuristics();
        self.root_entries = Vec::new();
        self.infos = Vec::new();
        self.trace = Ghost(Seq::empty());
        proof {
            assert(self.memory() == fresh_memory());
            lemma_stable_sorted(Seq::<RootEntry>::empty());
        }
        let legal_moves = match position.generate_legal_moves() {
            Ok(moves) => moves,
            Err(e) => {
                return Err(e);
            },
        };
        if legal_moves.len() == 0 {
            proof {
                assert forall|mv: Move| !legal(position@, mv) by {
                    if legal(position@, mv) {
                        assert(legal_moves@.contains(mv));
                    }
                }
                assert(stable_sorted(Seq::<RootEntry>::empty()) =~= Seq::<RootEntry>::empty());
            }
            let score = match terminal_score(position, 0) {
                Ok(score) => score,
                Err(e) => {
                    return Err(e);
                },
            };
            return Ok(SearchResult { best_move: None, score, depth: 0, nodes: self.nodes });
        }
        proof {
            assert(legal_moves@.contains(legal_moves@[0]));
            assert(legal(position@, legal_moves@[0]));
        }
        let mut result = SearchResult { best_move: None, score: 0, depth: 0, nodes: 0 };
        let mut last_score: i32 = 0;
        let mut depth: usize = 1;
        let mut ran = false;
        loop
            invariant_except_break
                deepening(
                    self.progress(result, last_score as int),
                    node,
                    max_depth as int,
                    depth as int,
                ) == goal,
            invariant
                self.wf(),
                position.wf(),
                node == position.node(),
                self.limits == limits,
                self.rng == old(self).rng,
                1 <= depth <= max_depth,
                max_depth == if limits.depth < 1 {
                    1
                } else {
                    limits.depth as int
                },
                score_ok(last_score as int),
                score_ok(result.score as int),
                result.depth <= depth,
                exists|mv: Move| legal(position@, mv),
                ran ==> self.trace_view().len() > 0 && self.root_view() == stable_sorted(
                    self.trace_view(),
                ) && forall|i: int|
                    0 <= i < self.trace_view().len() ==> legal(
                        position@,
                        (#[trigger] self.trace_view()[i]).mv,
                    ),
                !ran ==> depth == 1,
            ensures
                self.wf(),
                self.limits == limits,
                self.rng == old(self).rng,
                score_ok(result.score as int),
                result.depth <= max_depth,
                self.trace_view().len() > 0,
                self.root_view() == stable_sorted(self.trace_view()),
                forall|i: int|
                    0 <= i < self.trace_view().len() ==> legal(
                        position@,
                        (#[trigger] self.trace_view()[i]).mv,
                    ),
                self.progress(result, last_score as int) == goal,
            decreases max_depth - depth,
        {
            let mut alpha = -MATE_VALUE;
            let mut beta = MATE_VALUE;
            if depth > 1 {
                let window: i32 = 50;
                alpha = if last_score - window < -MATE_VALUE {
                    -MATE_VALUE
                } else {
                    last_score - window
                };
                beta = if last_score + window > MATE_VALUE {
                    MATE_VALUE
                } else {
                    last_score + window
                };
            }
            let ghost step_goal = aspiration(
                self.progress(result, last_score as int),
                node,
                depth as int,
                alpha as int,
                beta as int,
                false,
                false,
            );
            let mut widened_low = false;
            let mut widened_high = false;
            loop
                invariant_except_break
                    aspiration(
                        self.progress(result, last_score as int),
                        node,
                        depth as int,
                        alpha as int,
                        beta as int,
                        widened_low,
                        widened_high,
                    ) == step_goal,
                invariant
                    self.wf(),
                    position.wf(),
                    node == position.node(),
                    self.limits == limits,
                    self.rng == old(self).rng,
                    depth >= 1,
                    window_ok(alpha as int, beta as int),
                    score_ok(last_score as int),
                    score_ok(result.score as int),
                    result.depth <= depth,
                    exists|mv: Move| legal(position@, mv),
                    ran ==> self.trace_view().len() > 0 && self.root_view() == stable_sorted(
                        self.trace_view(),
                    ) && forall|i: int|
                        0 <= i < self.trace_view().len() ==> legal(
                            position@,
                            (#[trigger] self.trace_view()[i]).mv,
                        ),
                ensures
                    self.wf(),
                    self.limits == limits,
                    self.rng == old(self).rng,
                    score_ok(last_score as int),
                    score_ok(result.score as int),
                    result.depth <= depth,
                    ran,
                    self.trace_view().len() > 0,
                    self.root_view() == stable_sorted(self.trace_view()),
                    forall|i: int|
                        0 <= i < self.trace_view().len() ==> legal(
                            position@,
                            (#[trigger] self.trace_view()[i]).mv,
                        ),
                    self.progress(result, last_score as int) == step_goal,
                decreases
                        (if widened_low {
                            0int
                        } else {
                            1int
                        }) + (if widened_high {
                            0int
                        } else {
                            1int
                        }),
            {
                let iteration = match self.root_iteration(position, depth, alpha, beta) {
                    Ok(iteration) => iteration,
                    Err(e) => {
                        return Err(e);
                    },
                };
                ran = true;
                if iteration.best_move.is_none() {
                    break ;
                }
                let score = iteration.score;
                last_score = score;
                result.best_move = iteration.best_move;
                result.score = score;
                result.depth = depth;
                proof {
                    crate::theorems::lemma_pseudo_legal_named(position@, iteration.best_move->0);
                }
                result.nodes = self.nodes;
                self.record_info(
                    SearchInfo { depth, score, nodes: self.nodes, best_move: iteration.best_move },
                );
                if score <= alpha && !widened_low {
                    alpha = -MATE_VALUE;
                    beta = score + 1;
                    widened_low = true;
                    continue ;
                }
                if score >= beta && !widened_high {
                    beta = MATE_VALUE;
                    alpha = score - 1;
                    widened_high = true;
                    continue ;
                }
                break ;
            }
            if depth >= max_depth {
                break ;
            }
            depth = depth + 1;
        }
        proof {
            lemma_stable_sorted(self.trace_view());
        }
        let ghost root = self.root_view();
        let ghost trace = self.trace_view();
        result.best_move = self.pick_root_move();
        proof {
            let i = choose|i: int|
                0 <= i < root.len() && result.best_move->0 == (#[trigger] root[i]).mv && root[i].score
                    >= root[0].score - margin(limits);
            assert(root.contains(root[i]));
            assert(trace.contains(root[i]));
            let n = choose|n: int| 0 <= n < trace.len() && trace[n] == root[i];
            assert(legal(position@, trace[n].mv));
        }
        Ok(result)
    }

    /// Keeps what is known after an iteration.
    fn record_info(&mut self, info: SearchInfo)
        requires
            old(self).wf(),
            info.can_be_written(),
        ensures
            final(self).wf(),
            final(self).tt == old(self).tt,
            final(self).nodes == old(self).nodes,
            final(self).rng == old(self).rng,
            final(self).limits == old(self).limits,
            final(self).root_entries == old(self).root_entries,
            final(self).trace == old(self).trace,
            final(self).memory() == old(self).memory(),
            final(self).info_view() == old(self).info_view().push(info),
    {
        self.infos.push(info);
    }
}

} // verus!
