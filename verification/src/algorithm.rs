//! The engine.
use crate::board::has_room;
use crate::board::law_fewer_moves_are_searchable;
use crate::board::law_playable_boards_have_room;
use crate::board::leads_on;
use crate::board::moves_of;
use crate::board::playable;
use crate::board::searchable;
use crate::board::side_of;
use crate::board::status_of;
use crate::board::text_after;
use crate::board::Action;
use crate::board::Board;
use crate::board::BoardStatus;
use crate::board::ChessMove;
use crate::board::Color;
use crate::board::Piece;
use crate::clock::elapsed_nanos;
use crate::clock::expired;
use crate::clock::now;
use crate::clock::Clock;
use crate::counts::count_of;
use crate::counts::counts;
use crate::counts::counts_only;
use crate::counts::law_take_back_restores;
use crate::counts::BoardCounts;
use crate::deepening::decided;
use crate::deepening::deepened;
use crate::deepening::layer;
use crate::deepening::Decision;
use crate::deepening::Layer;
use crate::deepening::LAST_DEPTH;
use crate::deepening::START_DEPTH;
use crate::evaluation::carry;
use crate::evaluation::placement_of;
use crate::evaluation::static_eval;
use crate::evaluation::tapered_psqt;
use crate::evaluation::tapered_psqt_calc;
use crate::evaluation::Placement;
use crate::evaluation::Weights;
use crate::laws::law_decision_is_sound;
use crate::laws::law_deepening_answers;
use crate::laws::law_layer_answers;
use crate::memory::Memory;
use crate::memory::MemoryView;
use crate::modules::enabled;
use crate::modules::module_enabled;
use crate::modules::ALPHA_BETA;
use crate::modules::NAIVE_PSQT;
use crate::modules::PAWN_STRUCTURE;
use crate::modules::SKIP_BAD_MOVES;
use crate::modules::SQUARE_CONTROL_METRIC;
use crate::modules::TAPERED_INCREMENTAL_PESTO_PSQT;
use crate::modules::TRANSPOSITION_TABLE;
use crate::move_order::candidates;
use crate::move_order::ordered;
use crate::move_order::place;
use crate::move_order::Candidate;
use crate::outcome::blank_stats;
use crate::outcome::Analysis;
use crate::outcome::Evaluation;
use crate::outcome::Stats;
use crate::outcome::TranspositionEntry;
use crate::score::Score;
use crate::search::concluded;
use crate::search::explored;
use crate::search::extend_by;
use crate::search::generated;
use crate::search::leaf_memo;
use crate::search::leaf_naive_memos;
use crate::search::leaf_score;
use crate::search::looked_at;
use crate::search::looked_up;
use crate::search::maximises;
use crate::search::narrow;
use crate::search::progress_on_layer;
use crate::search::queue;
use crate::search::reach;
use crate::search::replace_best;
use crate::search::report;
use crate::search::score_of_mated;
use crate::search::searched;
use crate::search::Line;
use crate::search::Node;
use crate::search::Setup;
use crate::search::World;
use std::time::Duration;
use tokio::time::Instant;
use vstd::prelude::*;

verus! {

/// A chess engine.
#[verifier::reject_recursive_types(S)]
pub struct Algorithm<S> {
    /// The modules that are switched on.
    pub modules: u32,
    /// The time for a move.
    pub time_per_move: Duration,
    /// What the engine knows.
    pub memory: Memory<S>,
}

impl<S: Score> Algorithm<S> {
    /// What stays the same during a search.
    pub open spec fn setup(self) -> Setup<S> {
        Setup {
            modules: self.modules,
            weights: self.memory@.weights,
            played: self.memory@.played,
        }
    }

    /// What is remembered of the evaluation is right.
    pub open spec fn wf(self) -> bool {
        self.memory@.wf()
    }

    /// What changes during a search.
    pub open spec fn world(self, stats: Stats<S>, asked: nat) -> World<S> {
        World {
            table: self.memory@.table,
            pawn_memo: self.memory@.pawn_memo,
            naive_memos: self.memory@.naive_memos,
            stats: stats.timeless(),
            asked,
        }
    }

    /// Whether an engine has made a decision and returned it, by a clock.
    pub open spec fn has_decided(
        self,
        r: (Action, Option<Analysis<S>>, Stats<S>),
        clock: Clock,
        decision: Decision<S>,
    ) -> bool {
        &&& r.0 == decision.action
        &&& r.1 == decision.analysis
        &&& r.2.timeless() == decision.stats
        &&& self.memory@.played == decision.played
        &&& self.world(blank_stats(), clock.asked()) == decision.world
    }

    /// Whether an engine, here before it decides, has by a deadline made a
    /// decision on a board and returned it. When the deadline passes is up to the
    /// time: the decision is that of a number of the check at which a clock with
    /// this deadline, asked as often as the searches ask, may first have found it
    /// passed.
    pub open spec fn decides(
        self,
        after: Self,
        text: Seq<char>,
        deadline: Instant,
        r: (Action, Option<Analysis<S>>, Stats<S>),
    ) -> bool {
        &&& exists|clock: Clock, limit: Option<nat>| #[trigger]
            clock.admits(limit) && clock.ends_at() == Some(deadline) && after.has_decided(
                r,
                clock,
                decided(self.setup(), self.world(blank_stats(), 0), text, limit),
            )
        &&& match r.0 {
            Action::MakeMove(chess_move) => moves_of(text).contains(chess_move),
            Action::Resign(side) => status_of(text) == BoardStatus::Checkmate && side == side_of(
                text,
            ),
            Action::DeclareDraw => status_of(text) != BoardStatus::Checkmate,
        }
        &&& START_DEPTH <= r.2.depth <= LAST_DEPTH
        &&& !enabled(self.modules, TRANSPOSITION_TABLE) || moves_of(text).len() == 0
            ==> r.2.time_for_transposition_access == 0
        &&& counts_what_is_played(self.memory@.played, after.memory@.played, text, r.0)
        &&& after.modules == self.modules
        &&& after.memory@.weights == self.memory@.weights
        &&& after.time_per_move == self.time_per_move
    }

    /// Makes an engine.
    pub fn new(modules: u32, time_per_move: Duration, weights: Weights<S>) -> (r: Self)
        ensures
            r.modules == modules,
            r.time_per_move == time_per_move,
            r.memory@ == MemoryView::blank(weights),
            r.wf(),
    {
        Algorithm { modules, time_per_move, memory: Memory::new(weights) }
    }

    /// Forgets everything but the settings.
    pub fn reset(&mut self)
        ensures
            final(self).modules == old(self).modules,
            final(self).time_per_move == old(self).time_per_move,
            final(self).memory@ == MemoryView::blank(old(self).memory@.weights),
            final(self).wf(),
    {
        self.memory.reset();
    }

    /// The entries of a tapered table for the pieces of the side to move, the
    /// kinds being numbered from the pawn to the king.
    pub fn calc_tapered_psqt_eval(&self, board: &Board, piece: u8, mg_eg: bool) -> (r: S)
        requires
            piece < 6,
        ensures
            forall|kind: Piece|
                #![trigger kind.index()]
                kind.index() == piece ==> r == tapered_psqt(
                    self.memory@.weights,
                    placement_of(board@),
                    kind,
                    mg_eg,
                ),
    {
        let kind: Piece = match piece {
            0 => Piece::Pawn,
            1 => Piece::Knight,
            2 => Piece::Bishop,
            3 => Piece::Rook,
            4 => Piece::Queen,
            _ => Piece::King,
        };
        tapered_psqt_calc(self.memory.weights(), &Placement::of_board(board), kind, mg_eg)
    }

    /// Scores a board without looking ahead.
    pub fn eval(
        &mut self,
        board: &Board,
        board_played_times_prediction: &BoardCounts,
        mg_incremental_psqt_eval: S,
        eg_incremental_psqt_eval: S,
    ) -> (r: S)
        requires
            old(self).wf(),
            searchable(board@, 0),
        ensures
            r == leaf_score(
                old(self).setup(),
                board@,
                count_of(board_played_times_prediction@, board@),
                mg_incremental_psqt_eval,
                eg_incremental_psqt_eval,
            ),
            final(self).memory@ == (MemoryView {
                pawn_memo: leaf_memo(
                    old(self).setup(),
                    old(self).memory@.pawn_memo,
                    board@,
                    count_of(board_played_times_prediction@, board@),
                ),
                naive_memos: leaf_naive_memos(
                    old(self).setup(),
                    old(self).memory@.naive_memos,
                    board@,
                    count_of(board_played_times_prediction@, board@),
                ),
                ..old(self).memory@
            }),
            final(self).modules == old(self).modules,
            final(self).time_per_move == old(self).time_per_move,
            final(self).wf(),
    {
        proof {
            lemma_has_room(board@, 0);
        }
        match board.status() {
            BoardStatus::Stalemate => {
                return S::from_int(0);
            },
            BoardStatus::Checkmate => {
                return score_of_mated(board.side_to_move());
            },
            BoardStatus::Ongoing => {},
        }
        let played: u32 = self.memory.times_played(board);
        let predicted: u32 = board_played_times_prediction.times(board);
        if played.wrapping_add(predicted) >= 2 {
            return S::from_int(0);
        }
        let p: Placement = Placement::of_board(board);
        let move_count: usize = if module_enabled(self.modules, SQUARE_CONTROL_METRIC) {
            board.legal_moves().len()
        } else {
            0
        };
        let naive: S = if module_enabled(self.modules, NAIVE_PSQT) {
            self.memory.naive_psqt_sum(&p)
        } else {
            S::from_int(0)
        };
        let pawns: S = if module_enabled(self.modules, PAWN_STRUCTURE) {
            self.memory.pawn_structure_score(&p)
        } else {
            S::from_int(0)
        };
        static_eval(
            self.memory.weights(),
            self.modules,
            &p,
            move_count,
            naive,
            pawns,
            mg_incremental_psqt_eval,
            eg_incremental_psqt_eval,
        )
    }

    fn entry_of(&self, board: &Board, stats: &mut Stats<S>) -> (r: Option<TranspositionEntry<S>>)
        ensures
            r == looked_up(self.setup(), self.memory@.table, board@),
            final(stats).timeless() == old(stats).timeless(),
            final(stats).time_for_transposition_access >= old(stats).time_for_transposition_access,
            !enabled(self.modules, TRANSPOSITION_TABLE) ==> *final(stats) == *old(stats),
    {
        if !module_enabled(self.modules, TRANSPOSITION_TABLE) {
            return None;
        }
        let start: Instant = now();
        let entry: Option<TranspositionEntry<S>> = self.memory.entry(board);
        stats.time_for_transposition_access =
        stats.time_for_transposition_access.saturating_add(elapsed_nanos(start));
        entry
    }

    fn remember(&mut self, board: &Board, entry: TranspositionEntry<S>, stats: &mut Stats<S>)
        ensures
            final(self).memory@ == (MemoryView {
                table: old(self).memory@.table.insert(board@, entry),
                ..old(self).memory@
            }),
            final(self).modules == old(self).modules,
            final(self).time_per_move == old(self).time_per_move,
            final(stats).timeless() == old(stats).timeless(),
            final(stats).time_for_transposition_access >= old(stats).time_for_transposition_access,
    {
        let start: Instant = now();
        self.memory.remember(board, entry);
        stats.time_for_transposition_access =
        stats.time_for_transposition_access.saturating_add(elapsed_nanos(start));
    }

    fn gather(
        &self,
        board: &Board,
        moves: &Vec<ChessMove>,
        stats: &mut Stats<S>,
        Ghost(ahead): Ghost<nat>,
    ) -> (r: Vec<Candidate<S>>)
        requires
            ahead > 0,
            searchable(board@, ahead),
            moves@ == moves_of(board@),
            forall|i: int|
                0 <= i < moves@.len() ==> (#[trigger] moves@[i]).source < 64 && moves@[i].dest < 64,
        ensures
            candidates(r@) == queue(self.setup(), self.memory@.table, board@),
            r@.len() == moves@.len(),
            forall|j: int|
                0 <= j < r@.len() ==> searchable(
                    (#[trigger] r@[j]).board@,
                    (ahead - 1) as nat,
                ),
            final(stats).timeless() == old(stats).timeless(),
            final(stats).time_for_transposition_access >= old(stats).time_for_transposition_access,
            !enabled(self.modules, TRANSPOSITION_TABLE) ==> *final(stats) == *old(stats),
    {
        let maximise: bool = board.side_to_move() == Color::White;
        let mut found: Vec<Candidate<S>> = Vec::new();
        let mut i: usize = 0;
        assert(candidates(found@) =~= ordered(
            maximise,
            generated(self.setup(), self.memory@.table, board@, 0),
        ));
        while i < moves.len()
            invariant
                i <= moves@.len(),
                moves@ == moves_of(board@),
                maximise == maximises(board@),
                forall|j: int|
                    0 <= j < moves@.len() ==> (#[trigger] moves@[j]).source < 64 && moves@[j].dest
                        < 64,
                ahead > 0,
                searchable(board@, ahead),
                found@.len() == i,
                forall|j: int|
                    0 <= j < found@.len() ==> searchable(
                        (#[trigger] found@[j]).board@,
                        (ahead - 1) as nat,
                    ),
                candidates(found@) == ordered(
                    maximise,
                    generated(self.setup(), self.memory@.table, board@, i as nat),
                ),
                stats.timeless() == old(stats).timeless(),
                stats.time_for_transposition_access >= old(stats).time_for_transposition_access,
                !enabled(self.modules, TRANSPOSITION_TABLE) ==> *stats == *old(stats),
            decreases moves@.len() - i,
        {
            let chess_move: ChessMove = moves[i];
            assert(moves_of(board@).contains(moves@[i as int]));
            proof {
                lemma_has_room(board@, ahead);
                assert(playable(board@) || leads_on(board@, moves_of(board@)[i as int]));
            }
            let next: Board = board.make_move_new(chess_move);
            assert(searchable(next@, (ahead - 1) as nat));
            let entry: Option<TranspositionEntry<S>> = self.entry_of(&next, stats);
            let ghost before = generated(self.setup(), self.memory@.table, board@, i as nat);
            let ghost after = generated(self.setup(), self.memory@.table, board@, (i + 1) as nat);
            assert(after.drop_last() =~= before);
            place(maximise, &mut found, Candidate { chess_move, board: next, entry });
            i = i + 1;
        }
        found
    }

    fn conclude(
        &mut self,
        board: &Board,
        depth: u32,
        best: Evaluation<S>,
        stats: &mut Stats<S>,
        Ghost(n): Ghost<Node>,
        Ghost(asked): Ghost<nat>,
    ) -> (r: Evaluation<S>)
        requires
            old(self).wf(),
            n.text == board@,
            n.depth == depth,
        ensures
            (r, final(self).world(*final(stats), asked)) == concluded(
                old(self).setup(),
                old(self).world(*old(stats), asked),
                n,
                best,
            ),
            final(self).wf(),
            final(self).setup() == old(self).setup(),
            final(self).time_per_move == old(self).time_per_move,
            final(stats).time_for_transposition_access >= old(stats).time_for_transposition_access,
            !enabled(old(self).modules, TRANSPOSITION_TABLE) ==> *final(stats) == *old(stats),
    {
        if module_enabled(self.modules, TRANSPOSITION_TABLE) && depth >= 3 {
            match best.eval {
                Some(eval) => {
                    self.remember(
                        board,
                        TranspositionEntry { depth, eval, next_action: best.next_action },
                        stats,
                    );
                },
                None => {},
            }
            stats.transposition_table_entries = stats.transposition_table_entries.wrapping_add(1);
        }
        report(best)
    }

    /// Searches a node of the search tree.
    ///
    /// What is found and what is left behind is what [`searched`] says for every
    /// number of the check at which the clock may have run out, given its
    /// answers. The counts of the line are left as they were.
    pub fn node_eval_recursive(
        &mut self,
        board: &Board,
        depth: u32,
        alpha: S,
        beta: S,
        original: bool,
        clock: &mut Clock,
        stats: &mut Stats<S>,
        num_extensions: u32,
        board_played_times_prediction: &mut BoardCounts,
        mg_incremental_psqt_eval: S,
        eg_incremental_psqt_eval: S,
    ) -> (r: Evaluation<S>)
        requires
            old(self).wf(),
            searchable(board@, reach(old(self).modules, depth, num_extensions)),
        ensures
            forall|limit: Option<nat>| #[trigger]
                final(clock).admits(limit) ==> old(clock).admits(limit) && (
                    r,
                    final(self).world(*final(stats), final(clock).asked()),
                ) == searched(
                    old(self).setup(),
                    old(self).world(*old(stats), old(clock).asked()),
                    Node {
                        text: board@,
                        depth,
                        original,
                        extensions: num_extensions,
                        predicted: counts(old(board_played_times_prediction)@),
                    },
                    limit,
                    alpha,
                    beta,
                    mg_incremental_psqt_eval,
                    eg_incremental_psqt_eval,
                ),
            final(self).wf(),
            final(self).setup() == old(self).setup(),
            final(self).time_per_move == old(self).time_per_move,
            final(clock).ends_at() == old(clock).ends_at(),
            final(stats).time_for_transposition_access >= old(stats).time_for_transposition_access,
            !enabled(old(self).modules, TRANSPOSITION_TABLE) || (depth > 0 && moves_of(board@).len()
                == 0) ==> final(stats).time_for_transposition_access == old(
                stats,
            ).time_for_transposition_access,
            old(board_played_times_prediction)@.dom().subset_of(
                final(board_played_times_prediction)@.dom(),
            ),
            counts(final(board_played_times_prediction)@) == counts(
                old(board_played_times_prediction)@,
            ),
        decreases
                depth + if num_extensions > 3 {
                    0
                } else {
                    4 - num_extensions
                },
    {
        let ghost c = self.setup();
        let ghost w0 = self.world(*stats, clock.asked());
        let ghost n = Node {
            text: board@,
            depth,
            original,
            extensions: num_extensions,
            predicted: counts(board_played_times_prediction@),
        };
        let ghost ahead = reach(self.modules, depth, num_extensions);
        proof {
            law_fewer_moves_are_searchable(board@, ahead, 0);
            lemma_has_room(board@, 0);
        }
        let mut mg: S = mg_incremental_psqt_eval;
        let mut eg: S = eg_incremental_psqt_eval;
        if depth == 0 {
            stats.leaves_visited = stats.leaves_visited.wrapping_add(1);
            let eval: S = self.eval(board, board_played_times_prediction, mg, eg);
            if module_enabled(self.modules, TRANSPOSITION_TABLE) {
                self.remember(
                    board,
                    TranspositionEntry { depth, eval, next_action: None },
                    stats,
                );
                stats.transposition_table_entries =
                stats.transposition_table_entries.wrapping_add(1);
            }
            return Evaluation {
                eval: Some(eval),
                next_action: None,
                debug_data: None,
                incremental_psqt_eval: Some(mg.sum(eg)),
            };
        }
        let side: Color = board.side_to_move();
        let maximise: bool = side == Color::White;
        let moves: Vec<ChessMove> = board.legal_moves();
        let num_legal_moves: usize = moves.len();
        if num_legal_moves == 0 {
            return Evaluation {
                eval: Some(
                    if board.checkers() == 0 {
                        S::from_int(0)
                    } else {
                        score_of_mated(side)
                    },
                ),
                next_action: None,
                debug_data: None,
                incremental_psqt_eval: None,
            };
        }
        let boards: Vec<Candidate<S>> = self.gather(board, &moves, stats, Ghost(ahead));
        let ghost all = candidates(boards@);
        let mut low: S = alpha;
        let mut high: S = beta;
        let mut best: Evaluation<S> = Evaluation {
            eval: None,
            next_action: None,
            debug_data: None,
            incremental_psqt_eval: None,
        };
        let mut i: usize = 0;
        while i < num_legal_moves
            invariant
                i <= num_legal_moves,
                boards@.len() == num_legal_moves,
                ahead == reach(c.modules, depth, num_extensions),
                forall|j: int|
                    0 <= j < boards@.len() ==> searchable(
                        (#[trigger] boards@[j]).board@,
                        (ahead - 1) as nat,
                    ),
                all == candidates(boards@),
                depth > 0,
                n.text == board@,
                n.depth == depth,
                n.original == original,
                n.extensions == num_extensions,
                n.predicted == counts(old(board_played_times_prediction)@),
                maximise == maximises(board@),
                self.wf(),
                self.setup() == c,
                c == old(self).setup(),
                w0 == old(self).world(*old(stats), old(clock).asked()),
                self.time_per_move == old(self).time_per_move,
                clock.ends_at() == old(clock).ends_at(),
                stats.time_for_transposition_access >= old(stats).time_for_transposition_access,
                num_legal_moves == moves_of(board@).len(),
                !enabled(c.modules, TRANSPOSITION_TABLE) ==> stats.time_for_transposition_access
                    == old(stats).time_for_transposition_access,
                old(board_played_times_prediction)@.dom().subset_of(
                    board_played_times_prediction@.dom(),
                ),
                counts(board_played_times_prediction@) == counts(
                    old(board_played_times_prediction)@,
                ),
                forall|limit: Option<nat>| #[trigger]
                    clock.admits(limit) ==> old(clock).admits(limit) && searched(
                        c,
                        w0,
                        n,
                        limit,
                        alpha,
                        beta,
                        mg_incremental_psqt_eval,
                        eg_incremental_psqt_eval,
                    ) == explored(
                        c,
                        self.world(*stats, clock.asked()),
                        n,
                        limit,
                        all,
                        i as nat,
                        Line { alpha: low, beta: high, mg, eg, best },
                    ),
            decreases num_legal_moves - i,
        {
            let ghost w = self.world(*stats, clock.asked());
            let ghost line = Line { alpha: low, beta: high, mg, eg, best };
            let candidate: &Candidate<S> = &boards[i];
            let ghost x = all[i as int];
            assert(x == candidate@);
            if clock.check() {
                stats.progress_on_next_layer =
                progress_on_layer(stats.progress_on_next_layer, i, num_legal_moves);
                return best;
            }
            if depth > stats.max_depth {
                stats.max_depth = depth;
            }
            if module_enabled(self.modules, SKIP_BAD_MOVES) && i > num_legal_moves {
                return best;
            }
            let known: Option<TranspositionEntry<S>> = match candidate.entry {
                Some(entry) => if entry.depth >= depth {
                    Some(entry)
                } else {
                    None
                },
                None => None,
            };
            let found: Evaluation<S> = match known {
                Some(entry) => {
                    stats.transposition_table_accesses =
                    stats.transposition_table_accesses.wrapping_add(1);
                    Evaluation {
                        eval: Some(entry.eval),
                        next_action: entry.next_action,
                        debug_data: None,
                        incremental_psqt_eval: Some(mg.sum(eg)),
                    }
                },
                None => {
                    let further: u32 = extend_by(
                        self.modules,
                        num_extensions,
                        num_legal_moves,
                        candidate.board.checkers(),
                    );
                    proof {
                        law_fewer_moves_are_searchable(
                            candidate.board@,
                            (ahead - 1) as nat,
                            reach(
                                self.modules,
                                (depth - 1 + further) as u32,
                                (num_extensions + further) as u32,
                            ),
                        );
                    }
                    let ghost before = board_played_times_prediction@;
                    board_played_times_prediction.count(&candidate.board);
                    let found: Evaluation<S> = self.node_eval_recursive(
                        &candidate.board,
                        depth - 1 + further,
                        low,
                        high,
                        false,
                        clock,
                        stats,
                        num_extensions + further,
                        board_played_times_prediction,
                        mg,
                        eg,
                    );
                    proof {
                        law_take_back_restores(before, board_played_times_prediction@, x.text);
                    }
                    board_played_times_prediction.take_back(&candidate.board);
                    found
                },
            };
            let ghost after = self.world(*stats, clock.asked());
            assert forall|limit: Option<nat>| #[trigger] clock.admits(limit) implies old(
                clock,
            ).admits(limit) && looked_at(c, w, n, limit, all, i as nat, line) == (found, after) by {
            }
            stats.nodes_visited = stats.nodes_visited.wrapping_add(1);
            best =
            replace_best(
                self.modules,
                maximise,
                original,
                best,
                candidate.chess_move,
                found.eval,
            );
            if module_enabled(self.modules, ALPHA_BETA) {
                let (next_low, next_high): (S, S) = narrow(maximise, low, high, found.eval);
                low = next_low;
                high = next_high;
                if high.less_than(low) {
                    stats.alpha_beta_breaks = stats.alpha_beta_breaks.wrapping_add(1);
                    return self.conclude(
                        board,
                        depth,
                        best,
                        stats,
                        Ghost(n),
                        Ghost(clock.asked()),
                    );
                }
            }
            if module_enabled(self.modules, TAPERED_INCREMENTAL_PESTO_PSQT) {
                let (next_mg, next_eg): (S, S) = carry(
                    self.memory.weights(),
                    &Placement::of_board(board),
                    mg,
                    eg,
                );
                mg = next_mg;
                eg = next_eg;
            }
            best =
            Evaluation {
                eval: best.eval,
                next_action: best.next_action,
                debug_data: best.debug_data,
                incremental_psqt_eval: Some(mg.sum(eg)),
            };
            i = i + 1;
        }
        self.conclude(board, depth, best, stats, Ghost(n), Ghost(clock.asked()))
    }

    /// Searches a layer from the root.
    pub fn next_action(&mut self, board: &Board, depth: u32, clock: &mut Clock) -> (r: (
        Option<Action>,
        Option<Analysis<S>>,
        Stats<S>,
    ))
        requires
            old(self).wf(),
            searchable(board@, reach(old(self).modules, depth, 0)),
        ensures
            forall|limit: Option<nat>| #[trigger]
                final(clock).admits(limit) ==> old(clock).admits(limit) && (
                    Layer { action: r.0, analysis: r.1, stats: r.2.timeless() },
                    final(self).world(blank_stats(), final(clock).asked()),
                ) == layer(
                    old(self).setup(),
                    old(self).world(blank_stats(), old(clock).asked()),
                    board@,
                    depth,
                    limit,
                ),
            !enabled(old(self).modules, TRANSPOSITION_TABLE) || (depth > 0 && moves_of(board@).len()
                == 0) ==> r.2.time_for_transposition_access == 0,
            final(self).wf(),
            final(self).setup() == old(self).setup(),
            final(self).time_per_move == old(self).time_per_move,
            final(clock).ends_at() == old(clock).ends_at(),
    {
        let mut stats: Stats<S> = Stats::blank();
        let mut prediction: BoardCounts = BoardCounts::new();
        let out: Evaluation<S> = self.node_eval_recursive(
            board,
            depth,
            S::lowest(),
            S::highest(),
            true,
            clock,
            &mut stats,
            0,
            &mut prediction,
            S::from_int(0),
            S::from_int(0),
        );
        (out.next_action, out.debug_data, stats)
    }

    fn deepen(
        &mut self,
        board: &Board,
        clock: &mut Clock,
        first: (Option<Action>, Option<Analysis<S>>, Stats<S>),
    ) -> (r: (Option<Action>, Option<Analysis<S>>, Stats<S>, u32))
        requires
            old(self).wf(),
            searchable(board@, reach(old(self).modules, LAST_DEPTH, 0)),
        ensures
            forall|limit: Option<nat>| #[trigger]
                final(clock).admits(limit) ==> old(clock).admits(limit) && (
                    Layer { action: r.0, analysis: r.1, stats: r.2.timeless() },
                    r.3,
                    final(self).world(blank_stats(), final(clock).asked()),
                ) == deepened(
                    old(self).setup(),
                    old(self).world(blank_stats(), old(clock).asked()),
                    board@,
                    (START_DEPTH + 1) as u32,
                    Layer { action: first.0, analysis: first.1, stats: first.2.timeless() },
                    limit,
                ),
            (!enabled(old(self).modules, TRANSPOSITION_TABLE) || moves_of(board@).len() == 0)
                && first.2.time_for_transposition_access == 0
                ==> r.2.time_for_transposition_access == 0,
            final(self).wf(),
            final(self).setup() == old(self).setup(),
            final(self).time_per_move == old(self).time_per_move,
            final(clock).ends_at() == old(clock).ends_at(),
    {
        let (mut action, mut analysis, mut stats): (
            Option<Action>,
            Option<Analysis<S>>,
            Stats<S>,
        ) = first;
        let mut depth: u32 = START_DEPTH + 1;
        while depth <= LAST_DEPTH
            invariant
                START_DEPTH < depth <= LAST_DEPTH + 1,
                searchable(board@, reach(old(self).modules, LAST_DEPTH, 0)),
                self.wf(),
                self.setup() == old(self).setup(),
                self.time_per_move == old(self).time_per_move,
                clock.ends_at() == old(clock).ends_at(),
                (!enabled(old(self).modules, TRANSPOSITION_TABLE) || moves_of(board@).len() == 0)
                    && first.2.time_for_transposition_access == 0
                    ==> stats.time_for_transposition_access == 0,
                forall|limit: Option<nat>| #[trigger]
                    clock.admits(limit) ==> old(clock).admits(limit) && deepened(
                        old(self).setup(),
                        old(self).world(blank_stats(), old(clock).asked()),
                        board@,
                        (START_DEPTH + 1) as u32,
                        Layer { action: first.0, analysis: first.1, stats: first.2.timeless() },
                        limit,
                    ) == deepened(
                        old(self).setup(),
                        self.world(blank_stats(), clock.asked()),
                        board@,
                        depth,
                        Layer { action, analysis, stats: stats.timeless() },
                        limit,
                    ),
            decreases LAST_DEPTH + 1 - depth,
        {
            let ghost w = self.world(blank_stats(), clock.asked());
            proof {
                law_fewer_moves_are_searchable(
                    board@,
                    reach(self.modules, LAST_DEPTH, 0),
                    reach(self.modules, depth, 0),
                );
            }
            let (latest_action, latest_analysis, latest_stats): (
                Option<Action>,
                Option<Analysis<S>>,
                Stats<S>,
            ) = self.next_action(board, depth, clock);
            let ghost latest = Layer {
                action: latest_action,
                analysis: latest_analysis,
                stats: latest_stats.timeless(),
            };
            let ghost after = self.world(blank_stats(), clock.asked());
            let passed: bool = clock.check();
            assert forall|limit: Option<nat>| #[trigger] clock.admits(limit) implies old(
                clock,
            ).admits(limit) && layer(old(self).setup(), w, board@, depth, limit) == (latest, after)
                && passed == expired(limit, after.asked) by {
            }
            if passed {
                stats.progress_on_next_layer = latest_stats.progress_on_next_layer;
                return (action, analysis, stats, depth - 1);
            }
            action = latest_action;
            analysis = latest_analysis;
            stats = latest_stats;
            depth = depth + 1;
        }
        (action, analysis, stats, depth - 1)
    }

    /// Decides what to do on a board: searches layer by layer until the clock
    /// has run out and keeps to the deepest layer that was searched to its end.
    pub fn decide(&mut self, board: &Board, clock: &mut Clock) -> (r: (
        Action,
        Option<Analysis<S>>,
        Stats<S>,
    ))
        requires
            old(self).wf(),
            searchable(board@, reach(old(self).modules, LAST_DEPTH, 0)),
        ensures
            forall|limit: Option<nat>| #[trigger]
                final(clock).admits(limit) ==> old(clock).admits(limit) && (Decision {
                    action: r.0,
                    analysis: r.1,
                    stats: r.2.timeless(),
                    played: final(self).memory@.played,
                    world: final(self).world(blank_stats(), final(clock).asked()),
                }) == decided(
                    old(self).setup(),
                    old(self).world(blank_stats(), old(clock).asked()),
                    board@,
                    limit,
                ),
            !enabled(old(self).modules, TRANSPOSITION_TABLE) || moves_of(board@).len() == 0
                ==> r.2.time_for_transposition_access == 0,
            counts_what_is_played(
                old(self).memory@.played,
                final(self).memory@.played,
                board@,
                r.0,
            ),
            final(self).wf(),
            final(self).modules == old(self).modules,
            final(self).memory@.weights == old(self).memory@.weights,
            final(self).time_per_move == old(self).time_per_move,
            final(clock).ends_at() == old(clock).ends_at(),
    {
        proof {
            let ahead = reach(self.modules, LAST_DEPTH, 0);
            law_fewer_moves_are_searchable(board@, ahead, reach(self.modules, START_DEPTH, 0));
            lemma_has_room(board@, ahead);
        }
        self.memory.count_played(board);
        let ghost c = self.setup();
        let ghost start = self.world(blank_stats(), 0);
        let mut untimed: Clock = Clock::never();
        let first: (Option<Action>, Option<Analysis<S>>, Stats<S>) = self.next_action(
            board,
            START_DEPTH,
            &mut untimed,
        );
        let ghost first_layer = Layer {
            action: first.0,
            analysis: first.1,
            stats: first.2.timeless(),
        };
        let ghost begun = self.world(blank_stats(), clock.asked());
        proof {
            untimed.lemma_admits_limit();
            assert(untimed.admits(None));
            law_layer_answers(c, start, board@, START_DEPTH, None);
            assert(World { asked: clock.asked(), ..layer(c, start, board@, START_DEPTH, None).1 }
                == begun);
        }
        let (action, analysis, stats, depth): (
            Option<Action>,
            Option<Analysis<S>>,
            Stats<S>,
            u32,
        ) = self.deepen(board, clock, first);
        proof {
            clock.lemma_admits_limit();
            law_deepening_answers(
                c,
                begun,
                board@,
                (START_DEPTH + 1) as u32,
                first_layer,
                clock.limit(),
            );
        }
        let mut stats: Stats<S> = stats;
        stats.depth = depth;
        stats.tt_size = self.memory.table_len() as u32;
        let mut chosen: Action = match action {
            Some(action) => action,
            None => match board.status() {
                BoardStatus::Checkmate => Action::Resign(board.side_to_move()),
                _ => Action::DeclareDraw,
            },
        };
        if let Action::MakeMove(chess_move) = chosen {
            match board.try_move(chess_move) {
                Some(new_board) => {
                    let old_value: u32 = self.memory.count_played(&new_board);
                    if old_value >= 3 {
                        chosen = Action::DeclareDraw;
                    }
                },
                None => {},
            }
        }
        (chosen, analysis, stats)
    }

    /// Decides what to do on a board until a deadline.
    pub fn next_action_iterative_deepening(&mut self, board: &Board, deadline: Instant) -> (r: (
        Action,
        Option<Analysis<S>>,
        Stats<S>,
    ))
        requires
            old(self).wf(),
            searchable(board@, reach(old(self).modules, LAST_DEPTH, 0)),
        ensures
            old(self).decides(*final(self), board@, deadline, r),
            final(self).wf(),
    {
        let mut clock: Clock = Clock::until(deadline);
        let r: (Action, Option<Analysis<S>>, Stats<S>) = self.decide(board, &mut clock);
        proof {
            clock.lemma_admits_limit();
            let limit = clock.limit();
            let c = old(self).setup();
            let w = old(self).world(blank_stats(), 0);
            law_decision_is_sound(c, w, board@, limit);
            assert(clock.admits(limit) && self.has_decided(r, clock, decided(c, w, board@, limit)));
        }
        r
    }

    /// Decides what to do on a playable board until a deadline. On another board
    /// nothing is done: who knows that the lines that are searched are defined
    /// there calls [`Self::next_action_iterative_deepening`].
    pub fn act(&mut self, board: &Board, deadline: Instant) -> (r: Option<
        (Action, Option<Analysis<S>>, Stats<S>),
    >)
        requires
            old(self).wf(),
        ensures
            match r {
                Some(decided_on) => playable(board@) && old(self).decides(
                    *final(self),
                    board@,
                    deadline,
                    decided_on,
                ),
                None => !playable(board@) && *final(self) == *old(self),
            },
            final(self).wf(),
    {
        if board.is_playable() {
            Some(self.next_action_iterative_deepening(board, deadline))
        } else {
            None
        }
    }
}

/// What a decision counts: the board that it is made on and, where a move was
/// chosen, the board that the move leads to, and no other.
pub open spec fn counts_what_is_played(
    before: Map<Seq<char>, u32>,
    after: Map<Seq<char>, u32>,
    text: Seq<char>,
    action: Action,
) -> bool {
    match action {
        Action::MakeMove(chess_move) => counts_only(
            before,
            after,
            text,
            Some(text_after(text, chess_move)),
        ),
        Action::Resign(_) => counts_only(before, after, text, None),
        Action::DeclareDraw => if moves_of(text).len() == 0 {
            counts_only(before, after, text, None)
        } else {
            exists|chess_move: ChessMove| #[trigger]
                moves_of(text).contains(chess_move) && counts_only(
                    before,
                    after,
                    text,
                    Some(text_after(text, chess_move)),
                )
        },
    }
}

/// There is room for the moves of a board that can be searched.
proof fn lemma_has_room(text: Seq<char>, moves: nat)
    requires
        searchable(text, moves),
    ensures
        has_room(text),
{
    if playable(text) {
        law_playable_boards_have_room(text);
    }
}

/// An engine that was reset is as good as a new one with the same settings: the
/// two have the same setup and leave the same world to every search.
pub proof fn law_reset_is_as_good_as_new<S: Score>(
    a: Algorithm<S>,
    b: Algorithm<S>,
    stats: Stats<S>,
    asked: nat,
)
    requires
        a.modules == b.modules,
        a.memory@ == MemoryView::blank(a.memory@.weights),
        b.memory@ == MemoryView::blank(a.memory@.weights),
    ensures
        a.setup() == b.setup(),
        a.world(stats, asked) == b.world(stats, asked),
{
}

} // verus!
