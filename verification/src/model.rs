use vstd::prelude::*;
use crate::evaluation::{evaluation, material_value};
use crate::movelist::legal_list;
use crate::moves::Move;
use crate::ordering::{RootEntry, stable_sorted};
use crate::position::occurrences;
use crate::rules::{after_move, in_check};
use crate::search::{
    capture_value, history_after_cutoff, lemma_new_key_takes_room, lemma_occurrences,
    repetition_value, rng_step, room_left, SearchInfo, SearchLimits, SearchResult, terminal_value,
};
use crate::state::{State, state_key};
use crate::table::{after_store, Bound, TableEntry};

verus! {

/// What a search remembers from node to node: the transposition table, the
/// number of nodes visited, the killer moves of each ply, and the history
/// scores by colour, kind and square.
pub struct Memory {
    pub table: Map<u64, TableEntry>,
    pub nodes: u64,
    pub killers: Seq<Seq<Option<Move>>>,
    pub history: Seq<Seq<Seq<i32>>>,
}

/// A position as the search sees it: its state, and the keys of the
/// positions that led to it, its own key last.
pub struct Node {
    pub state: State,
    pub history: Seq<u64>,
}

impl Node {
    /// The node after a move.
    pub open spec fn child(self, mv: Move) -> Node {
        let next = after_move(self.state, mv);
        Node { state: next, history: self.history.push(state_key(next)) }
    }

    /// How often the key recorded last occurs in the history.
    pub open spec fn repeats(self) -> nat {
        if self.history.len() == 0 {
            0
        } else {
            occurrences(self.history, self.history.last())
        }
    }
}

/// The ply after this one, as far as a count of plies goes.
pub open spec fn ply_after(ply: int) -> int {
    if ply < usize::MAX {
        ply + 1
    } else {
        ply
    }
}

/// The memory after one more node was visited.
pub open spec fn counted(m: Memory) -> Memory {
    Memory {
        nodes: if m.nodes < u64::MAX {
            (m.nodes + 1) as u64
        } else {
            m.nodes
        },
        ..m
    }
}

/// The greater of two numbers.
pub open spec fn greater(a: int, b: int) -> int {
    if a >= b {
        a
    } else {
        b
    }
}

/// The smaller of two numbers.
pub open spec fn smaller(a: int, b: int) -> int {
    if a <= b {
        a
    } else {
        b
    }
}

/// Those among the first `n` moves of a list that capture or promote, and
/// are no drops.
pub open spec fn tactical_kept(list: Seq<Move>, s: State, n: int) -> Seq<Move>
    decreases n,
{
    if n <= 0 {
        Seq::empty()
    } else {
        tactical_kept(list, s, n - 1) + if list[n - 1].from is Some && (s.board[list[n - 1].to@]
            is Some || list[n - 1].promote) {
            seq![list[n - 1]]
        } else {
            Seq::empty()
        }
    }
}

/// The legal moves that capture or promote, in the order of generation.
pub open spec fn tactical_list(s: State) -> Seq<Move> {
    tactical_kept(legal_list(s), s, legal_list(s).len() as int)
}

/// The moves of a list with what each capture is worth.
pub open spec fn capture_entries(s: State, moves: Seq<Move>) -> Seq<RootEntry> {
    Seq::new(moves.len(), |i: int| RootEntry { mv: moves[i], score: capture_value(s, moves[i]) as i32 })
}

/// The moves of a list of entries.
pub open spec fn moves_of(entries: Seq<RootEntry>) -> Seq<Move> {
    Seq::new(entries.len(), |i: int| entries[i].mv)
}

/// What a move scores as a killer move of a ply: 900 000 as the first,
/// 800 000 as the second.
pub open spec fn killer_bonus(m: Memory, mv: Move, ply: int) -> int {
    if 0 <= ply < 64 {
        if m.killers[ply][0] == Some(mv) {
            900_000
        } else if m.killers[ply][1] == Some(mv) {
            800_000
        } else {
            0
        }
    } else {
        0
    }
}

/// What a move scores as a capture or a promotion: 500 000 and what it
/// wins for a capture, 400 000 for a promotion without capture.
pub open spec fn tactic_bonus(s: State, mv: Move) -> int {
    match s.board[mv.to@] {
        Some(captured) => 500_000 + material_value(captured.kind) - material_value(mv.piece),
        None => if mv.promote {
            400_000
        } else {
            0
        },
    }
}

/// The history score of a move.
pub open spec fn history_bonus(m: Memory, s: State, mv: Move) -> int {
    m.history[s.side.spec_index()][mv.piece.spec_index()][mv.to@] as int
}

/// The score by which a move is ordered: a million for the move of the
/// transposition table; else what it scores as a killer move, as a capture
/// or promotion, and in the history scores, together.
pub open spec fn order_score(m: Memory, s: State, mv: Move, tt_move: Option<Move>, ply: int) -> int {
    if tt_move == Some(mv) {
        1_000_000
    } else {
        killer_bonus(m, mv, ply) + tactic_bonus(s, mv) + history_bonus(m, s, mv)
    }
}

/// The moves of a list with the scores by which they are ordered.
pub open spec fn order_entries(
    m: Memory,
    s: State,
    moves: Seq<Move>,
    tt_move: Option<Move>,
    ply: int,
) -> Seq<RootEntry> {
    Seq::new(
        moves.len(),
        |i: int| RootEntry { mv: moves[i], score: order_score(m, s, moves[i], tt_move, ply) as i32 },
    )
}

/// The moves of a list in descending order of their ordering scores; moves
/// that score the same keep their order.
pub open spec fn ordered(m: Memory, s: State, moves: Seq<Move>, tt_move: Option<Move>, ply: int) -> Seq<
    Move,
> {
    moves_of(stable_sorted(order_entries(m, s, moves, tt_move, ply)))
}

/// The memory after a move has cut the search off at a ply: a quiet move on
/// the board becomes the first killer move of the ply (the ply's last, at
/// most 63), unless it is that already, and the old first becomes the second;
/// the history score of the move's piece and target is raised.
pub open spec fn registered(m: Memory, s: State, mv: Move, ply: int) -> Memory {
    let idx = if ply < 63 {
        ply
    } else {
        63
    };
    let killers = if mv.from is Some && s.board[mv.to@] is None && m.killers[idx][0] != Some(mv) {
        m.killers.update(idx, seq![Some(mv), m.killers[idx][0]])
    } else {
        m.killers
    };
    let c = s.side.spec_index();
    let k = mv.piece.spec_index();
    let t = mv.to@;
    let history = m.history.update(
        c,
        m.history[c].update(
            k,
            m.history[c][k].update(t, history_after_cutoff(m.history[c][k][t] as int, ply) as i32),
        ),
    );
    Memory { killers, history, ..m }
}

/// The memory after an entry was offered to the transposition table.
pub open spec fn stored(m: Memory, hash: u64, entry: TableEntry) -> Memory {
    Memory { table: after_store(m.table, hash, entry), ..m }
}

/// What a search returns: the memory after it, and the score.
pub struct Outcome {
    pub memory: Memory,
    pub score: int,
}

/// What the search of the moves of a node returns: the memory after it,
/// the best score and the move that gave it, and whether any move was
/// searched below the node.
pub struct Sweep {
    pub memory: Memory,
    pub best_value: int,
    pub best_move: Option<Move>,
    pub searched_any: bool,
}

/// The score of a node by the quiescence search within a window: the static
/// score, improved by the captures and promotions that improve it.
pub open spec fn quiescence_of(m: Memory, node: Node, alpha: int, beta: int, ply: int) -> Outcome
    decreases room_left(node.history), 1nat, 0nat,
{
    let m1 = counted(m);
    match repetition_value(node.state.side, node.repeats() as int, ply) {
        Some(score) => Outcome { memory: m1, score },
        None => {
            let stand_pat = evaluation(node.state);
            if stand_pat >= beta {
                Outcome { memory: m1, score: beta }
            } else {
                let moves = tactical_list(node.state);
                if moves.len() == 0 {
                    Outcome { memory: m1, score: stand_pat }
                } else {
                    quiescence_sweep(
                        m1,
                        node,
                        moves_of(stable_sorted(capture_entries(node.state, moves))),
                        0,
                        greater(alpha, stand_pat),
                        beta,
                        stand_pat,
                        ply,
                    )
                }
            }
        },
    }
}

/// The quiescence search of the moves of a node from the `i`-th on.
pub open spec fn quiescence_sweep(
    m: Memory,
    node: Node,
    moves: Seq<Move>,
    i: int,
    alpha: int,
    beta: int,
    value: int,
    ply: int,
) -> Outcome
    decreases room_left(node.history), 0nat, moves.len() - i,
{
    if i < 0 || i >= moves.len() {
        Outcome { memory: m, score: value }
    } else {
        let next = node.child(moves[i]);
        match repetition_value(node.state.side, next.repeats() as int, ply_after(ply)) {
            Some(score) => {
                let raised = greater(value, score);
                if raised >= beta {
                    Outcome { memory: m, score: beta }
                } else {
                    quiescence_sweep(
                        m,
                        node,
                        moves,
                        i + 1,
                        greater(alpha, raised),
                        beta,
                        raised,
                        ply,
                    )
                }
            },
            None => {
                proof {
                    lemma_occurrences(node.history, state_key(next.state));
                    if !node.history.contains(state_key(next.state)) {
                        lemma_new_key_takes_room(node.history, state_key(next.state));
                    }
                }
                let below = quiescence_of(m, next, -beta, -alpha, ply_after(ply));
                let score = -below.score;
                if score >= beta {
                    Outcome { memory: below.memory, score: beta }
                } else {
                    quiescence_sweep(
                        below.memory,
                        node,
                        moves,
                        i + 1,
                        greater(alpha, score),
                        beta,
                        greater(value, score),
                        ply,
                    )
                }
            },
        }
    }
}

/// What a stored score says of a best value within a window: an upper
/// bound where it did not rise above the lower end, a lower bound where it
/// reached the upper end, and the exact score between the two.
pub open spec fn bound_of(best_value: int, alpha: int, beta: int) -> Bound {
    if best_value <= alpha {
        Bound::Upper
    } else if best_value >= beta {
        Bound::Lower
    } else {
        Bound::Exact
    }
}

/// The score of a node searched to a depth within a window.
pub open spec fn alpha_beta_of(
    m: Memory,
    node: Node,
    depth: int,
    alpha: int,
    beta: int,
    ply: int,
) -> Outcome
    decreases room_left(node.history), 3nat, 0nat,
{
    let m1 = counted(m);
    match repetition_value(node.state.side, node.repeats() as int, ply) {
        Some(score) => Outcome { memory: m1, score },
        None => if depth <= 0 {
            quiescence_of(m1, node, alpha, beta, ply)
        } else {
            let hash = state_key(node.state);
            let found = m1.table.contains_key(hash);
            let entry = m1.table[hash];
            let usable = found && entry.depth >= depth;
            let tt_move = if found {
                entry.best_move
            } else {
                None
            };
            let low = if usable && entry.bound == Bound::Lower {
                greater(alpha, entry.score as int)
            } else {
                alpha
            };
            let high = if usable && entry.bound == Bound::Upper {
                smaller(beta, entry.score as int)
            } else {
                beta
            };
            if usable && (entry.bound == Bound::Exact || low >= high) {
                Outcome { memory: m1, score: entry.score as int }
            } else {
                let moves = legal_list(node.state);
                if moves.len() == 0 {
                    Outcome {
                        memory: m1,
                        score: terminal_value(in_check(node.state, node.state.side), ply),
                    }
                } else {
                    let sweep = alpha_beta_sweep(
                        m1,
                        node,
                        ordered(m1, node.state, moves, tt_move, ply),
                        0,
                        depth,
                        low,
                        high,
                        Sweep {
                            memory: m1,
                            best_value: -30_000,
                            best_move: None,
                            searched_any: false,
                        },
                        ply,
                    );
                    Outcome {
                        memory: if sweep.searched_any {
                            stored(
                                sweep.memory,
                                hash,
                                TableEntry {
                                    depth: depth as usize,
                                    score: sweep.best_value as i32,
                                    bound: bound_of(sweep.best_value, low, high),
                                    best_move: sweep.best_move,
                                },
                            )
                        } else {
                            sweep.memory
                        },
                        score: sweep.best_value,
                    }
                }
            }
        },
    }
}

/// The depth to which the node after a move is searched: one less, and
/// one more again where the side to move there is in check.
pub open spec fn child_depth(depth: int, next: State) -> int {
    if in_check(next, next.side) {
        depth
    } else {
        depth - 1
    }
}

/// A sweep after a move scored: the best score and move follow, if the
/// score is better.
pub open spec fn swept(sweep: Sweep, m: Memory, mv: Move, score: int, searched: bool) -> Sweep {
    Sweep {
        memory: m,
        best_value: if score > sweep.best_value {
            score
        } else {
            sweep.best_value
        },
        best_move: if score > sweep.best_value {
            Some(mv)
        } else {
            sweep.best_move
        },
        searched_any: sweep.searched_any || searched,
    }
}

/// The search of the moves of a node from the `i`-th on, which ends where
/// a move reaches the upper end of the window.
pub open spec fn alpha_beta_sweep(
    m: Memory,
    node: Node,
    moves: Seq<Move>,
    i: int,
    depth: int,
    alpha: int,
    beta: int,
    sweep: Sweep,
    ply: int,
) -> Sweep
    decreases room_left(node.history), 2nat, moves.len() - i,
{
    if i < 0 || i >= moves.len() {
        Sweep { memory: m, ..sweep }
    } else {
        let mv = moves[i];
        let next = node.child(mv);
        match repetition_value(node.state.side, next.repeats() as int, ply_after(ply)) {
            Some(score) => {
                let raised = greater(alpha, score);
                if raised >= beta {
                    swept(sweep, registered(m, node.state, mv, ply), mv, score, false)
                } else {
                    alpha_beta_sweep(
                        m,
                        node,
                        moves,
                        i + 1,
                        depth,
                        raised,
                        beta,
                        swept(sweep, m, mv, score, false),
                        ply,
                    )
                }
            },
            None => {
                proof {
                    lemma_occurrences(node.history, state_key(next.state));
                    if !node.history.contains(state_key(next.state)) {
                        lemma_new_key_takes_room(node.history, state_key(next.state));
                    }
                }
                let below = alpha_beta_of(
                    m,
                    next,
                    child_depth(depth, next.state),
                    -beta,
                    -alpha,
                    ply_after(ply),
                );
                let score = -below.score;
                let raised = greater(alpha, score);
                if raised >= beta {
                    swept(sweep, registered(below.memory, node.state, mv, ply), mv, score, true)
                } else {
                    alpha_beta_sweep(
                        below.memory,
                        node,
                        moves,
                        i + 1,
                        depth,
                        raised,
                        beta,
                        swept(sweep, below.memory, mv, score, true),
                        ply,
                    )
                }
            },
        }
    }
}

/// What the search of the moves of the root has found: the memory after
/// it, the best score and the move that gave it first, and every move with
/// its score, in the order in which they were searched.
pub struct RootSweep {
    pub memory: Memory,
    pub best_score: int,
    pub best_move: Option<Move>,
    pub entries: Seq<RootEntry>,
}

/// The search of the moves of the root from the `i`-th on: every move is
/// searched, whatever the others scored.
pub open spec fn root_sweep(
    m: Memory,
    node: Node,
    moves: Seq<Move>,
    i: int,
    depth: int,
    alpha: int,
    beta: int,
    sweep: RootSweep,
) -> RootSweep
    decreases moves.len() - i,
{
    if i < 0 || i >= moves.len() {
        RootSweep { memory: m, ..sweep }
    } else {
        let mv = moves[i];
        let next = node.child(mv);
        let below = match repetition_value(node.state.side, next.repeats() as int, 1) {
            Some(score) => Outcome { memory: m, score: -score },
            None => alpha_beta_of(m, next, child_depth(depth, next.state), -beta, -alpha, 1),
        };
        let score = -below.score;
        root_sweep(
            below.memory,
            node,
            moves,
            i + 1,
            depth,
            greater(alpha, score),
            beta,
            RootSweep {
                memory: below.memory,
                best_score: if score > sweep.best_score {
                    score
                } else {
                    sweep.best_score
                },
                best_move: if score > sweep.best_score {
                    Some(mv)
                } else {
                    sweep.best_move
                },
                entries: sweep.entries.push(RootEntry { mv, score: score as i32 }),
            },
        )
    }
}

/// What one iteration at the root gives: the memory after it, the best move
/// with its score, the depth reached, and the moves of the root with their
/// scores in the order in which they were searched (nothing, where the root
/// has no legal move).
pub struct RootOutcome {
    pub memory: Memory,
    pub best_move: Option<Move>,
    pub score: int,
    pub depth: int,
    pub entries: Option<Seq<RootEntry>>,
}

/// One iteration at the root: every legal move is searched to the depth
/// within the window, and the best move is stored as exact.
pub open spec fn root_iteration_of(m: Memory, node: Node, depth: int, alpha: int, beta: int) -> RootOutcome {
    let m1 = counted(m);
    let hash = state_key(node.state);
    let tt_move = if m1.table.contains_key(hash) {
        m1.table[hash].best_move
    } else {
        None
    };
    let moves = legal_list(node.state);
    if moves.len() == 0 {
        RootOutcome {
            memory: m1,
            best_move: None,
            score: terminal_value(in_check(node.state, node.state.side), 0),
            depth: 0,
            entries: None,
        }
    } else {
        let sweep = root_sweep(
            m1,
            node,
            ordered(m1, node.state, moves, tt_move, 0),
            0,
            depth,
            alpha,
            beta,
            RootSweep { memory: m1, best_score: -30_000, best_move: None, entries: Seq::empty() },
        );
        RootOutcome {
            memory: match sweep.best_move {
                Some(best) => stored(
                    sweep.memory,
                    hash,
                    TableEntry {
                        depth: depth as usize,
                        score: sweep.best_score as i32,
                        bound: Bound::Exact,
                        best_move: Some(best),
                    },
                ),
                None => sweep.memory,
            },
            best_move: sweep.best_move,
            score: sweep.best_score,
            depth,
            entries: Some(sweep.entries),
        }
    }
}

/// How far a search has come: what it remembers, the moves of the root
/// from the last iteration in the order searched, the reports of the
/// iterations, the result so far, and the score of the last iteration.
pub struct Progress {
    pub memory: Memory,
    pub trace: Seq<RootEntry>,
    pub infos: Seq<SearchInfo>,
    pub result: SearchResult,
    pub last_score: int,
}

/// The progress after an iteration that found a best move.
pub open spec fn advanced(p: Progress, it: RootOutcome) -> Progress {
    Progress {
        memory: it.memory,
        trace: match it.entries {
            Some(entries) => entries,
            None => p.trace,
        },
        infos: p.infos.push(
            SearchInfo {
                depth: it.depth as usize,
                score: it.score as i32,
                nodes: it.memory.nodes,
                best_move: it.best_move,
            },
        ),
        result: SearchResult {
            best_move: it.best_move,
            score: it.score as i32,
            depth: it.depth as usize,
            nodes: it.memory.nodes,
        },
        last_score: it.score,
    }
}

/// The iterations of one depth: the first within the window given, and
/// where its score falls on or outside an end of the window, one more with
/// that end moved out to the mate score, at most once for each end.
pub open spec fn aspiration(
    p: Progress,
    node: Node,
    depth: int,
    alpha: int,
    beta: int,
    widened_low: bool,
    widened_high: bool,
) -> Progress
    decreases
            (if widened_low {
                0int
            } else {
                1int
            }) + (if widened_high {
                0int
            } else {
                1int
            }),
{
    let it = root_iteration_of(p.memory, node, depth, alpha, beta);
    if it.best_move is None {
        Progress {
            memory: it.memory,
            trace: match it.entries {
                Some(entries) => entries,
                None => p.trace,
            },
            ..p
        }
    } else {
        let next = advanced(p, it);
        if it.score <= alpha && !widened_low {
            aspiration(next, node, depth, -30_000, it.score + 1, true, widened_high)
        } else if it.score >= beta && !widened_high {
            aspiration(next, node, depth, it.score - 1, 30_000, widened_low, true)
        } else {
            next
        }
    }
}

/// The window of a depth: the whole range of scores at depth 1, and 50 to
/// either side of the last score after that, within the mate scores.
pub open spec fn window_of(depth: int, last_score: int) -> (int, int) {
    if depth > 1 {
        (greater(last_score - 50, -30_000), smaller(last_score + 50, 30_000))
    } else {
        (-30_000, 30_000)
    }
}

/// The iterations from a depth up to the greatest depth.
pub open spec fn deepening(p: Progress, node: Node, max_depth: int, depth: int) -> Progress
    decreases max_depth - depth,
{
    let window = window_of(depth, p.last_score);
    let next = aspiration(p, node, depth, window.0, window.1, false, false);
    if depth >= max_depth {
        next
    } else {
        deepening(next, node, max_depth, depth + 1)
    }
}

/// The memory at the start of a search: an empty table, no nodes, no
/// killer moves and no history scores.
pub open spec fn fresh_memory() -> Memory {
    Memory {
        table: Map::empty(),
        nodes: 0,
        killers: Seq::new(64, |p: int| Seq::new(2, |i: int| None::<Move>)),
        history: Seq::new(2, |c: int| Seq::new(10, |k: int| Seq::new(25, |t: int| 0i32))),
    }
}

/// How many of the entries from the `i`-th on score at least the threshold,
/// before the first that does not.
pub open spec fn leading(root: Seq<RootEntry>, threshold: int, i: int) -> int
    decreases root.len() - i,
{
    if 0 <= i < root.len() && root[i].score >= threshold {
        1 + leading(root, threshold, i + 1)
    } else {
        0
    }
}

/// A count of leading entries is no less than zero and no more than the
/// entries there are.
pub proof fn lemma_leading_bounds(root: Seq<RootEntry>, threshold: int, i: int)
    requires
        0 <= i <= root.len(),
    ensures
        0 <= leading(root, threshold, i) <= root.len() - i,
    decreases root.len() - i,
{
    if i < root.len() && root[i].score >= threshold {
        lemma_leading_bounds(root, threshold, i + 1);
    }
}

/// The number that the generator draws from a state.
pub open spec fn rng_draw(state: u64) -> u64 {
    rng_step(state).wrapping_mul(0x2545_F491_4F6C_DD1Du64)
}

/// The move that is played from the moves of the root, best first: none
/// where there is none; the first without randomness; else the one that the
/// generator draws among the leading moves that score no more than the
/// margin below the first.
pub open spec fn picked(root: Seq<RootEntry>, limits: SearchLimits, rng: u64) -> Option<Move> {
    if root.len() == 0 {
        None
    } else if limits.randomness <= 0 {
        Some(root[0].mv)
    } else {
        let count = leading(root, root[0].score - limits.randomness, 0);
        Some(root[(rng_draw(rng) % (count as u64)) as int].mv)
    }
}

/// The state of the generator after a move was picked.
pub open spec fn rng_after_pick(root: Seq<RootEntry>, limits: SearchLimits, rng: u64) -> u64 {
    if root.len() == 0 || limits.randomness <= 0 {
        rng
    } else {
        rng_step(rng)
    }
}

/// What a search of a position gives: the progress of its iterations from
/// depth 1 to the depth of the limits (at least 1); nothing is searched
/// where the position has no legal move.
pub open spec fn search_progress(node: Node, limits: SearchLimits) -> Progress {
    let start = Progress {
        memory: fresh_memory(),
        trace: Seq::empty(),
        infos: Seq::empty(),
        result: SearchResult { best_move: None, score: 0, depth: 0, nodes: 0 },
        last_score: 0,
    };
    if legal_list(node.state).len() == 0 {
        Progress {
            result: SearchResult {
                best_move: None,
                score: terminal_value(in_check(node.state, node.state.side), 0) as i32,
                depth: 0,
                nodes: 0,
            },
            ..start
        }
    } else {
        deepening(
            start,
            node,
            if limits.depth < 1 {
                1
            } else {
                limits.depth as int
            },
            1,
        )
    }
}

/// The result of a search: the score, depth and nodes of its last
/// iteration that found a best move, and the move picked from the moves of
/// the root of its last iteration.
pub open spec fn search_of(node: Node, limits: SearchLimits, rng: u64) -> SearchResult {
    let p = search_progress(node, limits);
    SearchResult { best_move: picked(stable_sorted(p.trace), limits, rng), ..p.result }
}

} // verus!
