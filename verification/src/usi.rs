use vstd::prelude::*;
use crate::model::{Node, search_of};
use crate::movelist::legal_list;
use crate::moves::{Move, usi_text};
use crate::position::{Position, PositionError};
use crate::round_trip::initial_state;
use crate::rules::{after_move, in_check, legal, lemma_pseudo_legal_applies};
use crate::search::{Searcher, SearchLimits};
use crate::sfen::parse_sfen;
use crate::state::State;
use crate::text::{chars_of, parse_signed, parse_unsigned, read_signed, read_unsigned, text_of};
use crate::theorems::lemma_legal_moves_have_their_own_text;

verus! {

/// A letter in lower case; any other character as it is.
pub open spec fn lower_ascii(c: char) -> char {
    if 0x41 <= c as u32 <= 0x5A {
        ((c as u32) + 32) as char
    } else {
        c
    }
}

/// Whether two texts are equal apart from the case of their letters.
pub open spec fn same_word(a: Seq<char>, b: Seq<char>) -> bool {
    a.len() == b.len() && forall|i: int| 0 <= i < a.len() ==> lower_ascii(#[trigger] a[i])
        == lower_ascii(b[i])
}

fn char_lower(c: char) -> (r: char)
    ensures
        r == lower_ascii(c),
{
    if c == 'A' {
        'a'
    } else if c == 'B' {
        'b'
    } else if c == 'C' {
        'c'
    } else if c == 'D' {
        'd'
    } else if c == 'E' {
        'e'
    } else if c == 'F' {
        'f'
    } else if c == 'G' {
        'g'
    } else if c == 'H' {
        'h'
    } else if c == 'I' {
        'i'
    } else if c == 'J' {
        'j'
    } else if c == 'K' {
        'k'
    } else if c == 'L' {
        'l'
    } else if c == 'M' {
        'm'
    } else if c == 'N' {
        'n'
    } else if c == 'O' {
        'o'
    } else if c == 'P' {
        'p'
    } else if c == 'Q' {
        'q'
    } else if c == 'R' {
        'r'
    } else if c == 'S' {
        's'
    } else if c == 'T' {
        't'
    } else if c == 'U' {
        'u'
    } else if c == 'V' {
        'v'
    } else if c == 'W' {
        'w'
    } else if c == 'X' {
        'x'
    } else if c == 'Y' {
        'y'
    } else if c == 'Z' {
        'z'
    } else {
        c
    }
}

/// Whether two texts are the same.
fn same_text(a: &Vec<char>, b: &Vec<char>) -> (r: bool)
    ensures
        r == (a@ == b@),
{
    if a.len() != b.len() {
        return false;
    }
    let mut i: usize = 0;
    while i < a.len()
        invariant
            a.len() == b.len(),
            i <= a.len(),
            forall|j: int| 0 <= j < i ==> a@[j] == b@[j],
        decreases a.len() - i,
    {
        if a[i] != b[i] {
            return false;
        }
        i += 1;
    }
    assert(a@ =~= b@);
    true
}

/// Whether a text is the given word.
fn is_word(token: &str, word: &str) -> (r: bool)
    ensures
        r == (token@ == word@),
{
    same_text(&chars_of(token), &chars_of(word))
}

/// Whether a text is the given word, apart from the case of its letters.
fn is_word_any_case(token: &str, word: &str) -> (r: bool)
    ensures
        r == same_word(token@, word@),
{
    let a = chars_of(token);
    let b = chars_of(word);
    if a.len() != b.len() {
        return false;
    }
    let mut i: usize = 0;
    while i < a.len()
        invariant
            a.len() == b.len(),
            a@ == token@,
            b@ == word@,
            i <= a.len(),
            forall|j: int| 0 <= j < i ==> lower_ascii(#[trigger] a@[j]) == lower_ascii(b@[j]),
        decreases a.len() - i,
    {
        if char_lower(a[i]) != char_lower(b[i]) {
            assert(lower_ascii(a@[i as int]) != lower_ascii(b@[i as int]));
            return false;
        }
        i += 1;
    }
    true
}

/// The move that a text names in a state: the legal move that is written so.
pub open spec fn move_named(s: State, name: Seq<char>) -> Option<Move> {
    if exists|mv: Move| legal(s, mv) && usi_text(mv) == name {
        Some(choose|mv: Move| legal(s, mv) && usi_text(mv) == name)
    } else {
        None
    }
}

/// The state after the first `n` of the named moves have been played, as
/// far as each of them names a legal move.
pub open spec fn play_named(s: State, names: Seq<Seq<char>>, n: int) -> Option<State>
    decreases n,
{
    if n <= 0 {
        Some(s)
    } else {
        match play_named(s, names, n - 1) {
            None => None,
            Some(t) => match move_named(t, names[n - 1]) {
                Some(mv) => Some(after_move(t, mv)),
                None => None,
            },
        }
    }
}

/// Four fields with a space between them.
pub open spec fn joined_fields(a: Seq<char>, b: Seq<char>, c: Seq<char>, d: Seq<char>) -> Seq<char> {
    a + seq![' '] + b + seq![' '] + c + seq![' '] + d
}

/// What the limits are after the arguments from `i` on have been read:
/// `depth` and `random` take the argument behind them as their value, and
/// leave the limit as it is where that is no number.
pub open spec fn limits_from(args: Seq<Seq<char>>, i: int, limits: SearchLimits) -> SearchLimits
    decreases args.len() - i,
{
    if i < 0 || i >= args.len() {
        limits
    } else if same_word(args[i], "depth"@) {
        if i + 1 < args.len() {
            limits_from(
                args,
                i + 2,
                match parse_unsigned(args[i + 1], usize::MAX as nat) {
                    Some(v) => SearchLimits {
                        depth: if v < 1 {
                            1usize
                        } else {
                            v as usize
                        },
                        ..limits
                    },
                    None => limits,
                },
            )
        } else {
            limits
        }
    } else if same_word(args[i], "random"@) {
        if i + 1 < args.len() {
            limits_from(
                args,
                i + 2,
                match parse_signed(args[i + 1]) {
                    Some(v) => SearchLimits {
                        randomness: if v < 0 {
                            0i32
                        } else {
                            v as i32
                        },
                        ..limits
                    },
                    None => limits,
                },
            )
        } else {
            limits
        }
    } else {
        limits_from(args, i + 1, limits)
    }
}

/// The texts of a list of words.
pub open spec fn words(tokens: Seq<&str>) -> Seq<Seq<char>> {
    Seq::new(tokens.len(), |i: int| tokens[i]@)
}

/// The engine behind the text protocol: a position, and the searcher that
/// finds moves for it.
pub struct UsiEngine {
    position: Position,
    searcher: Searcher,
    default_limits: SearchLimits,
}

impl UsiEngine {
    /// The engine's position is consistent, and its searcher's scores are
    /// within their limits.
    pub closed spec fn wf(&self) -> bool {
        self.position.wf() && self.searcher.wf()
    }

    /// The state of the engine's position.
    pub closed spec fn state(&self) -> State {
        self.position@
    }

    /// The limits of a search that is given none.
    pub closed spec fn limits(&self) -> SearchLimits {
        self.default_limits
    }

    /// The engine's position as a search sees it.
    pub closed spec fn node(&self) -> Node {
        self.position.node()
    }

    /// The state of the generator of the engine's searcher.
    pub closed spec fn rng_state(&self) -> u64 {
        self.searcher.rng_state()
    }

    /// The node of the engine holds the engine's state.
    pub proof fn lemma_node(&self)
        ensures
            self.node().state == self.state(),
    {
    }

    /// An engine at the start of a game, with a search depth of 3 and no
    /// randomness.
    pub fn new() -> (r: Result<UsiEngine, PositionError>)
        ensures
            r is Ok,
            r->Ok_0.wf(),
            r->Ok_0.state() == initial_state(),
            r->Ok_0.limits().depth == 3,
            r->Ok_0.limits().randomness == 0,
    {
        match Position::initial() {
            Ok(position) => Ok(
                UsiEngine {
                    position,
                    searcher: Searcher::new(),
                    default_limits: SearchLimits::default(),
                },
            ),
            Err(e) => Err(e),
        }
    }

    /// The engine's position.
    pub fn position(&self) -> (p: &Position)
        ensures
            p@ == self.state(),
            self.wf() ==> p.wf(),
    {
        &self.position
    }

    /// Puts the position back to the start of a game.
    pub fn reset(&mut self) -> (r: Result<(), PositionError>)
        requires
            old(self).wf(),
        ensures
            final(self).wf(),
            final(self).limits() == old(self).limits(),
            r is Ok,
            final(self).state() == initial_state(),
    {
        match Position::initial() {
            Ok(position) => {
                self.position = position;
                Ok(())
            },
            Err(e) => Err(e),
        }
    }

    /// Sets the position from the arguments of a `position` command:
    /// `startpos` or `sfen` with the four fields of a position text, and
    /// after that, if wanted, `moves` with the moves to play from there.
    ///
    /// Without arguments, with an unknown first word, with fewer than four
    /// fields, or with a text that is no position, the command is an error and
    /// the position stays as it was. A move that is not legal where it is to
    /// be played is an error too, and the position is left where the moves
    /// before it led.
    #[verifier::loop_isolation(false)]
    pub fn parse_position(&mut self, tokens: &[&str]) -> (r: Result<(), PositionError>)
        requires
            old(self).wf(),
        ensures
            final(self).wf(),
            final(self).limits() == old(self).limits(),
            position_outcome(words(tokens@), old(self).state(), final(self).state(), r),
    {
        let ghost w = words(tokens@);
        if tokens.len() == 0 {
            return Err(PositionError::Format("position requires arguments"));
        }
        let mut idx: usize = 0;
        proof {
            assert(w[0] == tokens@[0]@);
        }
        if is_word(tokens[0], "startpos") {
            match self.reset() {
                Ok(()) => {},
                Err(e) => {
                    return Err(e);
                },
            }
            idx = 1;
        } else if is_word(tokens[0], "sfen") {
            if tokens.len() < 5 {
                return Err(PositionError::Format("invalid sfen command"));
            }
            let mut text: Vec<char> = chars_of(tokens[1]);
            text.push(' ');
            let mut b = chars_of(tokens[2]);
            text.append(&mut b);
            text.push(' ');
            let mut c = chars_of(tokens[3]);
            text.append(&mut c);
            text.push(' ');
            let mut d = chars_of(tokens[4]);
            text.append(&mut d);
            proof {
                assert(w[1] == tokens@[1]@ && w[2] == tokens@[2]@ && w[3] == tokens@[3]@ && w[4]
                    == tokens@[4]@);
                assert(text@ =~= joined_fields(w[1], w[2], w[3], w[4]));
            }
            let sfen = text_of(&text);
            match Position::from_sfen(sfen.as_str()) {
                Ok(position) => {
                    self.position = position;
                },
                Err(e) => {
                    return Err(e);
                },
            }
            idx = 5;
        } else {
            return Err(PositionError::Format("unknown position command"));
        }
        let ghost base = self.position@;
        let ghost first = idx as int + 1;
        let has_moves = idx < tokens.len() && is_word(tokens[idx], "moves");
        proof {
            if idx < tokens.len() {
                assert(w[idx as int] == tokens@[idx as int]@);
            }
        }
        if has_moves {
            idx += 1;
            let ghost names = w.skip(first);
            proof {
                assert(names.len() == w.len() - first);
            }
            while idx < tokens.len()
                invariant
                    self.wf(),
                    self.limits() == old(self).limits(),
                    1 <= first <= idx <= tokens.len(),
                    w == words(tokens@),
                    w.len() == tokens@.len(),
                    names == w.skip(first),
                    names.len() == w.len() - first,
                    play_named(base, names, idx - first) == Some(self.state()),
                decreases tokens.len() - idx,
            {
                let ghost k = idx - first;
                proof {
                    assert(w[idx as int] == tokens@[idx as int]@);
                    assert(names[k] == w[idx as int]);
                }
                let mv = match self.find_legal_move(tokens[idx]) {
                    Ok(mv) => mv,
                    Err(e) => {
                        proof {
                            assert(play_named(base, names, k) == Some(self.state()));
                            assert(move_named(self.state(), names[k]) is None);
                            assert(play_named(base, names, k + 1) is None);
                            lemma_play_named_fails(base, names, k + 1, names.len() as int);
                        }
                        return Err(e);
                    },
                };
                proof {
                    self.position.lemma_wf();
                    lemma_pseudo_legal_applies(self.position@, mv);
                }
                match self.position.play_move_mut(&mv) {
                    Ok(()) => {},
                    Err(e) => {
                        return Err(e);
                    },
                }
                idx += 1;
            }
        }
        Ok(())
    }

    /// The legal move of the position that is written as the text says.
    pub fn find_legal_move(&self, token: &str) -> (r: Result<Move, PositionError>)
        requires
            self.wf(),
        ensures
            r is Ok <==> move_named(self.state(), token@) is Some,
            r is Ok ==> r->Ok_0 == move_named(self.state(), token@)->0 && legal(
                self.state(),
                r->Ok_0,
            ) && usi_text(r->Ok_0) == token@,
            r is Err ==> r->Err_0 is Message && r->Err_0.text() == "illegal move: "@ + token@,
    {
        let wanted = chars_of(token);
        let legal_moves = match self.position.generate_legal_moves() {
            Ok(moves) => moves,
            Err(e) => {
                return Err(e);
            },
        };
        let ghost s = self.position@;
        proof {
            self.position.lemma_wf();
        }
        let mut i: usize = 0;
        while i < legal_moves.len()
            invariant
                s == self.position@,
                s.well_formed(),
                wanted@ == token@,
                i <= legal_moves.len(),
                forall|mv: Move| #[trigger] legal_moves@.contains(mv) <==> legal(s, mv),
                forall|j: int| 0 <= j < i ==> usi_text(#[trigger] legal_moves@[j]) != token@,
            decreases legal_moves.len() - i,
        {
            let mv = legal_moves[i];
            proof {
                assert(legal_moves@.contains(mv));
                lemma_pseudo_legal_applies(s, mv);
                crate::theorems::lemma_pseudo_legal_named(s, mv);
            }
            let text = mv.usi_chars();
            if same_text(&text, &wanted) {
                proof {
                    let named = move_named(s, token@)->0;
                    assert(legal(s, named) && usi_text(named) == token@);
                    lemma_legal_moves_have_their_own_text(s, mv, named);
                }
                return Ok(mv);
            }
            i += 1;
        }
        proof {
            assert forall|mv: Move| !(legal(s, mv) && usi_text(mv) == token@) by {
                if legal(s, mv) {
                    assert(legal_moves@.contains(mv));
                    let j = choose|j: int| 0 <= j < legal_moves@.len() && legal_moves@[j] == mv;
                    assert(usi_text(legal_moves@[j]) != token@);
                }
            }
        }
        let mut message = String::from_str("illegal move: ");
        message.append(token);
        Err(PositionError::Message(message))
    }

    /// The limits of a `go` command: `depth N` (at least 1) and `random M`
    /// (at least 0) replace the engine's own limits.
    pub fn parse_go_limits(&self, args: &[&str]) -> (limits: SearchLimits)
        ensures
            limits == limits_from(words(args@), 0, self.limits()),
    {
        let mut limits = self.default_limits;
        let ghost w = words(args@);
        let mut i: usize = 0;
        while i < args.len()
            invariant
                i <= args.len(),
                w == words(args@),
                limits_from(w, i as int, limits) == limits_from(w, 0, self.limits()),
            decreases args.len() - i,
        {
            proof {
                assert(w[i as int] == args@[i as int]@);
                if i + 1 < args.len() {
                    assert(w[i as int + 1] == args@[i as int + 1]@);
                }
            }
            let token = args[i];
            if is_word_any_case(token, "depth") {
                if i + 1 < args.len() {
                    match read_unsigned(&chars_of(args[i + 1]), usize::MAX as u64) {
                        Some(parsed) => {
                            limits.depth = if parsed < 1 {
                                1
                            } else {
                                parsed as usize
                            };
                        },
                        None => {},
                    }
                    i += 2;
                } else {
                    i += 1;
                }
            } else if is_word_any_case(token, "random") {
                if i + 1 < args.len() {
                    match read_signed(&chars_of(args[i + 1])) {
                        Some(parsed) => {
                            limits.randomness = if parsed < 0 {
                                0
                            } else {
                                parsed
                            };
                        },
                        None => {},
                    }
                    i += 2;
                } else {
                    i += 1;
                }
            } else {
                i += 1;
            }
        }
        limits
    }

    /// The legal moves of the position as texts, and whether the side to
    /// move is in check.
    pub fn legal_moves(&self) -> (r: Result<(Vec<String>, bool), PositionError>)
        requires
            self.wf(),
        ensures
            r is Ok,
            r->Ok_0.1 == in_check(self.state(), self.state().side),
            names_legal_moves(self.state(), r->Ok_0.0@),
            r->Ok_0.0@.len() == legal_list(self.state()).len(),
            forall|i: int|
                0 <= i < r->Ok_0.0@.len() ==> (#[trigger] r->Ok_0.0@[i])@ == usi_text(
                    legal_list(self.state())[i],
                ),
    {
        let moves = match self.position.generate_legal_moves() {
            Ok(moves) => moves,
            Err(e) => {
                return Err(e);
            },
        };
        let ghost s = self.position@;
        proof {
            self.position.lemma_wf();
        }
        let mut move_strings: Vec<String> = Vec::new();
        let mut i: usize = 0;
        while i < moves.len()
            invariant
                s == self.position@,
                s.well_formed(),
                i <= moves.len(),
                move_strings@.len() == i,
                forall|mv: Move| #[trigger] moves@.contains(mv) <==> legal(s, mv),
                forall|j: int| 0 <= j < i ==> (#[trigger] move_strings@[j])@ == usi_text(moves@[j]),
            decreases moves.len() - i,
        {
            let mv = moves[i];
            proof {
                assert(moves@.contains(mv));
                lemma_pseudo_legal_applies(s, mv);
                crate::theorems::lemma_pseudo_legal_named(s, mv);
            }
            move_strings.push(mv.to_usi());
            i += 1;
        }
        let in_check = self.position.is_in_check(self.position.side_to_move());
        proof {
            lemma_names_legal_moves(s, moves@, move_strings@);
        }
        Ok((move_strings, in_check))
    }

    /// Searches the position within the limits of the arguments and plays
    /// the move found. Returns the move's text, or `resign` where the
    /// position has no legal move.
    pub fn go(&mut self, args: &[&str]) -> (r: Result<String, PositionError>)
        requires
            old(self).wf(),
        ensures
            final(self).wf(),
            final(self).limits() == old(self).limits(),
            r is Ok,
            match search_of(
                old(self).node(),
                limits_from(words(args@), 0, old(self).limits()),
                old(self).rng_state(),
            ).best_move {
                Some(best) => legal(old(self).state(), best) && r->Ok_0@ == usi_text(best)
                    && final(self).state() == after_move(old(self).state(), best),
                None => r->Ok_0@ == "resign"@ && final(self).state() == old(self).state(),
            },
            (forall|mv: Move| !legal(old(self).state(), mv)) ==> r->Ok_0@ == "resign"@,
    {
        let limits = self.parse_go_limits(args);
        let result = match self.searcher.search(&self.position, limits) {
            Ok(result) => result,
            Err(e) => {
                return Err(e);
            },
        };
        match result.best_move {
            Some(best) => {
                proof {
                    self.position.lemma_wf();
                    lemma_pseudo_legal_applies(self.position@, best);
                    crate::theorems::lemma_pseudo_legal_named(self.position@, best);
                }
                let move_txt = best.to_usi();
                match self.position.play_move_mut(&best) {
                    Ok(()) => {},
                    Err(e) => {
                        return Err(e);
                    },
                }
                Ok(move_txt)
            },
            None => Ok(String::from_str("resign")),
        }
    }

    /// The searcher, with what it knows from its last search.
    pub fn searcher(&self) -> (s: &Searcher)
        ensures
            self.wf() ==> s.wf(),
    {
        &self.searcher
    }
}

/// Whether the texts are the texts of the legal moves of a state.
pub open spec fn names_legal_moves(s: State, names: Seq<String>) -> bool {
    &&& forall|i: int|
        0 <= i < names.len() ==> move_named(s, (#[trigger] names[i])@) is Some
    &&& forall|mv: Move| #[trigger]
        legal(s, mv) ==> exists|i: int| 0 <= i < names.len() && #[trigger] names[i]@ == usi_text(mv)
}

proof fn lemma_names_legal_moves(s: State, moves: Seq<Move>, names: Seq<String>)
    requires
        moves.len() == names.len(),
        forall|mv: Move| #[trigger] moves.contains(mv) <==> legal(s, mv),
        forall|j: int| 0 <= j < moves.len() ==> (#[trigger] names[j])@ == usi_text(moves[j]),
    ensures
        names_legal_moves(s, names),
{
    assert forall|i: int| 0 <= i < names.len() implies move_named(s, (#[trigger] names[i])@)
        is Some by {
        assert(moves.contains(moves[i]));
        assert(legal(s, moves[i]) && usi_text(moves[i]) == names[i]@);
    }
    assert forall|mv: Move| #[trigger] legal(s, mv) implies exists|i: int|
        0 <= i < names.len() && #[trigger] names[i]@ == usi_text(mv) by {
        assert(moves.contains(mv));
        let j = choose|j: int| 0 <= j < moves.len() && moves[j] == mv;
        assert(names[j]@ == usi_text(mv));
    }
}

/// What the position is after a `position` command, and what the command returns.
pub open spec fn position_outcome(
    w: Seq<Seq<char>>,
    before: State,
    after: State,
    r: Result<(), PositionError>,
) -> bool {
    if w.len() == 0 {
        r is Err && r->Err_0 is Format && r->Err_0.text() == "position requires arguments"@
            && after == before
    } else if w[0] == "startpos"@ {
        moves_outcome(w, 1, initial_state(), after, r)
    } else if w[0] == "sfen"@ {
        if w.len() < 5 {
            r is Err && r->Err_0 is Format && r->Err_0.text() == "invalid sfen command"@ && after
                == before
        } else {
            match parse_sfen(joined_fields(w[1], w[2], w[3], w[4])) {
                Ok(base) => moves_outcome(w, 5, base, after, r),
                Err(fault) => r is Err && r->Err_0.text() == fault.text() && after == before,
            }
        }
    } else {
        r is Err && r->Err_0 is Format && r->Err_0.text() == "unknown position command"@ && after
            == before
    }
}

/// What the position is after the moves of a `position` command, which
/// start behind the word `moves` at index `idx`, have been played from `base`.
pub open spec fn moves_outcome(
    w: Seq<Seq<char>>,
    idx: int,
    base: State,
    after: State,
    r: Result<(), PositionError>,
) -> bool {
    if idx < w.len() && w[idx] == "moves"@ {
        let names = w.skip(idx + 1);
        match play_named(base, names, names.len() as int) {
            Some(end) => r is Ok && after == end,
            None => r is Err && r->Err_0 is Message && exists|k: int|
                0 <= k < names.len() && #[trigger] play_named(base, names, k) == Some(after)
                    && move_named(after, names[k]) is None && r->Err_0.text() == "illegal move: "@
                    + names[k],
        }
    } else {
        r is Ok && after == base
    }
}

/// Where the first `n` named moves cannot be played, neither can the first `m`.
proof fn lemma_play_named_fails(s: State, names: Seq<Seq<char>>, n: int, m: int)
    requires
        0 <= n <= m,
        play_named(s, names, n) is None,
    ensures
        play_named(s, names, m) is None,
    decreases m - n,
{
    if n < m {
        lemma_play_named_fails(s, names, n, m - 1);
    }
}

} // verus!
