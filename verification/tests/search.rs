use chess_search::algorithm::Algorithm;
use chess_search::board::Action;
use chess_search::board::Board;
use chess_search::board::ChessMove;
use chess_search::board::Color;
use chess_search::clock::Clock;
use chess_search::counts::BoardCounts;
use chess_search::evaluation::PieceValues;
use chess_search::evaluation::Weights;
use chess_search::modules::ALPHA_BETA;
use chess_search::modules::ANALYZE;
use chess_search::modules::PAWN_STRUCTURE;
use chess_search::modules::SEARCH_EXTENSIONS;
use chess_search::modules::SKIP_BAD_MOVES;
use chess_search::modules::SQUARE_CONTROL_METRIC;
use chess_search::modules::TAPERED_INCREMENTAL_PESTO_PSQT;
use chess_search::modules::TRANSPOSITION_TABLE;
use chess_search::move_order::place;
use chess_search::move_order::Candidate;
use chess_search::outcome::Evaluation;
use chess_search::outcome::Stats;
use chess_search::outcome::TranspositionEntry;
use chess_search::score::Fixed;
use chess_search::score::Score;
use chess_search::score::STEPS_PER_PAWN;
use chess_search::search::extend_by;
use chess_search::search::is_better;
use chess_search::search::narrow;
use chess_search::search::progress_on_layer;
use chess_search::search::replace_best;
use chess_search::search::report;
use chess_search::search::score_of_mated;
use std::time::Duration;
use tokio::time::Instant;

const START: &str = "rnbqkbnr/pppppppp/8/8/8/8/PPPPPPPP/RNBQKBNR w KQkq - 0 1";
/// White mates with the rook on A8.
const MATE_IN_ONE: &str = "6k1/5ppp/8/8/8/8/8/R5K1 w - - 0 1";
const MATED: &str = "rnb1kbnr/pppp1ppp/8/4p3/6Pq/5P2/PPPPP2P/RNBQKBNR w KQkq - 0 1";
const STALEMATE: &str = "7k/5Q2/6K1/8/8/8/8/8 b - - 0 1";
const MIDDLE: &str = "r1bqk2r/ppp2ppp/2n2n2/3pp3/1b2P3/2NP1N2/PPP2PPP/R1BQKB1R w KQkq - 0 1";

fn board(fen: &str) -> Board {
    Board::from_fen(fen).unwrap()
}

fn pawns(n: i64) -> Fixed {
    Fixed::from_int(n)
}

fn plain(source: u8, dest: u8) -> ChessMove {
    ChessMove { source, dest, promotion: None }
}

fn weights() -> Weights<Fixed> {
    let none = [pawns(0); 64];
    let mut one = none;
    one[36] = pawns(1);
    Weights {
        piece_values: PieceValues { pawn: 1, knight: 3, bishop: 3, rook: 5, queen: 9, king: 100 },
        naive_pawn: none,
        naive_knight: none,
        naive_bishop: none,
        naive_rook: none,
        naive_queen: none,
        naive_king: none,
        middlegame: [one; 6],
        endgame: [none; 6],
    }
}

fn engine(modules: u32) -> Algorithm<Fixed> {
    Algorithm::new(modules, Duration::from_secs(1), weights())
}

fn search(
    e: &mut Algorithm<Fixed>,
    fen: &str,
    depth: u32,
    alpha: Fixed,
    beta: Fixed,
) -> (Evaluation<Fixed>, Stats<Fixed>) {
    let mut stats = Stats::blank();
    let found = e.node_eval_recursive(
        &board(fen),
        depth,
        alpha,
        beta,
        true,
        &mut Clock::never(),
        &mut stats,
        0,
        &mut BoardCounts::new(),
        pawns(0),
        pawns(0),
    );
    (found, stats)
}

fn full(modules: u32, fen: &str, depth: u32) -> (Evaluation<Fixed>, Stats<Fixed>) {
    search(&mut engine(modules), fen, depth, Fixed::lowest(), Fixed::highest())
}

fn layer(modules: u32, fen: &str, depth: u32) -> Option<Action> {
    engine(modules).next_action(&board(fen), depth, &mut Clock::never()).0
}

/// The minimax value of a board.
fn minimax(e: &mut Algorithm<Fixed>, b: &Board, depth: u32, line: &mut BoardCounts) -> Fixed {
    if depth == 0 || b.legal_moves().is_empty() {
        return e.eval(b, line, pawns(0), pawns(0));
    }
    let white = b.side_to_move() == Color::White;
    let mut best = if white { Fixed::lowest() } else { Fixed::highest() };
    for chess_move in b.legal_moves() {
        let next = b.make_move_new(chess_move);
        line.count(&next);
        let value = minimax(e, &next, depth - 1, line);
        line.take_back(&next);
        if white && best.less_than(value) || !white && value.less_than(best) {
            best = value;
        }
    }
    best
}

#[test]
fn mated_sides_have_the_extreme_scores() {
    let white: Fixed = score_of_mated(Color::White);
    let black: Fixed = score_of_mated(Color::Black);
    assert_eq!(white, Fixed::lowest());
    assert_eq!(black, Fixed::highest());
}

#[test]
fn forced_lines_are_extended() {
    let on = SEARCH_EXTENSIONS;
    assert_eq!(extend_by(on, 0, 1, 0), 1);
    assert_eq!(extend_by(on, 0, 20, 0b101), 1);
    assert_eq!(extend_by(on, 0, 20, 0b1), 0);
    assert_eq!(extend_by(on, 3, 1, 0), 1);
    assert_eq!(extend_by(on, 4, 1, 0), 0);
    assert_eq!(extend_by(0, 0, 1, 0b101), 0);
}

#[test]
fn better_is_higher_for_white_and_lower_for_black() {
    assert!(is_better(true, Some(pawns(1)), Some(pawns(2))));
    assert!(!is_better(true, Some(pawns(2)), Some(pawns(2))));
    assert!(!is_better(true, Some(pawns(3)), Some(pawns(2))));
    assert!(is_better(false, Some(pawns(3)), Some(pawns(2))));
    assert!(!is_better(false, Some(pawns(2)), Some(pawns(2))));
    assert!(!is_better(false, Some(pawns(1)), Some(pawns(2))));
    assert!(is_better(true, None, Some(Fixed::lowest())));
    assert!(!is_better::<Fixed>(true, None, None));
    assert!(!is_better(false, Some(pawns(1)), None));
}

#[test]
fn windows_are_narrowed_from_the_side_to_move() {
    let (low, high) = (pawns(-1), pawns(4));
    assert_eq!(narrow(true, low, high, Some(pawns(2))), (pawns(2), high));
    assert_eq!(narrow(true, low, high, Some(pawns(-3))), (low, high));
    assert_eq!(narrow(false, low, high, Some(pawns(2))), (low, pawns(2)));
    assert_eq!(narrow(false, low, high, Some(pawns(5))), (low, high));
    assert_eq!(narrow(true, low, high, None), (low, high));
}

#[test]
fn progress_is_a_share_of_the_moves() {
    assert_eq!(progress_on_layer(pawns(0), 0, 20), pawns(0));
    assert_eq!(progress_on_layer(pawns(0), 1, 20), pawns(0));
    assert_eq!(progress_on_layer(pawns(0), 11, 20), Fixed { steps: 39000 });
    assert_eq!(progress_on_layer(Fixed { steps: 39000 }, 3, 4), Fixed { steps: 9750 + 39000 });
}

#[test]
fn the_first_of_equal_moves_stays_the_best() {
    let nothing: Evaluation<Fixed> =
        Evaluation { eval: None, next_action: None, debug_data: None, incremental_psqt_eval: None };
    let first = replace_best(0, true, true, nothing, plain(1, 2), Some(pawns(3)));
    assert_eq!(first.eval, Some(pawns(3)));
    assert_eq!(first.next_action, Some(Action::MakeMove(plain(1, 2))));
    assert!(first.debug_data.is_none());
    let second = replace_best(0, true, true, first, plain(3, 4), Some(pawns(3)));
    assert_eq!(second.next_action, Some(Action::MakeMove(plain(1, 2))));
    let third = replace_best(0, true, true, second, plain(5, 6), Some(pawns(4)));
    assert_eq!(third.next_action, Some(Action::MakeMove(plain(5, 6))));
    let fourth = replace_best(0, true, true, third, plain(7, 8), None);
    assert_eq!(fourth.eval, Some(pawns(4)));
}

#[test]
fn analyses_tell_how_the_best_move_was_found() {
    let nothing: Evaluation<Fixed> =
        Evaluation { eval: None, next_action: None, debug_data: None, incremental_psqt_eval: None };
    let first = replace_best(ANALYZE, false, true, nothing, plain(1, 2), Some(pawns(3)));
    let second = replace_best(ANALYZE, false, true, first, plain(3, 4), Some(pawns(2)));
    let analysis = report(second).debug_data.unwrap();
    assert_eq!(analysis.modules, ANALYZE);
    assert!(!analysis.maximise);
    assert_eq!(analysis.best_eval, Some(pawns(3)));
    assert_eq!(analysis.new_best_move, plain(3, 4));
    assert_eq!(analysis.new_best_eval, Some(pawns(2)));
    assert_eq!(analysis.previous_best_move, Some(plain(1, 2)));
    assert_eq!(analysis.conclusion, Some((Some(pawns(2)), plain(3, 4))));
    assert!(first.debug_data.unwrap().previous_best_move.is_none());
    assert!(first.debug_data.unwrap().conclusion.is_none());
    let inner = replace_best(ANALYZE, false, false, nothing, plain(1, 2), Some(pawns(3)));
    assert!(report(inner).debug_data.is_none());
}

fn candidate(number: u8, eval: Option<i64>) -> Candidate<Fixed> {
    Candidate {
        chess_move: plain(number, number),
        board: board(START),
        entry: eval.map(|n| TranspositionEntry { depth: 1, eval: pawns(n), next_action: None }),
    }
}

fn order(maximise: bool) -> Vec<u8> {
    let evals = [None, Some(3), Some(-2), Some(3), Some(0), Some(-2), None, Some(7)];
    let mut placed = Vec::new();
    for (i, eval) in evals.iter().enumerate() {
        place(maximise, &mut placed, candidate(i as u8, *eval));
    }
    placed.iter().map(|c| c.chess_move.source).collect()
}

#[test]
fn moves_are_ordered_by_what_is_remembered() {
    assert_eq!(order(true), vec![7, 1, 3, 0, 4, 6, 2, 5]);
    assert_eq!(order(false), vec![2, 5, 0, 4, 6, 1, 3, 7]);
}

#[test]
fn a_mate_in_one_is_found() {
    for modules in [0, ALPHA_BETA, TRANSPOSITION_TABLE, ALPHA_BETA | TRANSPOSITION_TABLE] {
        for depth in 1..4 {
            assert_eq!(
                layer(modules, MATE_IN_ONE, depth),
                Some(Action::MakeMove(plain(0, 56)))
            );
        }
    }
    let (found, _) = full(0, MATE_IN_ONE, 1);
    assert_eq!(found.eval, Some(Fixed::highest()));
}

#[test]
fn leaves_are_scored_without_looking_ahead() {
    let (found, stats) = full(0, STALEMATE, 0);
    assert_eq!(found.eval, Some(pawns(0)));
    assert_eq!(found.next_action, None);
    assert_eq!(found.incremental_psqt_eval, Some(pawns(0)));
    assert_eq!(stats.leaves_visited, 1);
    assert_eq!(stats.nodes_visited, 0);
    assert_eq!(stats.transposition_table_entries, 0);
    let (_, remembering) = full(TRANSPOSITION_TABLE, STALEMATE, 0);
    assert_eq!(remembering.transposition_table_entries, 1);
}

#[test]
fn a_node_without_moves_is_lost_or_drawn() {
    for depth in 1..4 {
        let (mated, stats) = full(TRANSPOSITION_TABLE, MATED, depth);
        assert_eq!(mated.eval, Some(Fixed::lowest()));
        assert_eq!(mated.next_action, None);
        assert_eq!(stats.leaves_visited, 0);
        assert_eq!(stats.max_depth, 0);
        assert_eq!(stats.time_for_transposition_access, 0);
        let (other, _) = full(0, "R5k1/5ppp/8/8/8/8/8/6K1 b - - 0 1", depth);
        assert_eq!(other.eval, Some(Fixed::highest()));
        let (stuck, _) = full(0, STALEMATE, depth);
        assert_eq!(stuck.eval, Some(pawns(0)));
        assert_eq!(stuck.next_action, None);
    }
}

#[test]
fn a_mate_is_preferred_to_a_stalemate() {
    // The queen mates on F8 and stalemates on F7.
    let fen = "7k/8/6K1/8/8/8/8/5Q2 w - - 0 1";
    let stalemating = board(fen).make_move_new(plain(5, 53));
    assert_eq!(stalemating.fen(), STALEMATE);
    assert_eq!(layer(0, fen, 2), Some(Action::MakeMove(plain(5, 61))));
    assert_eq!(full(0, fen, 2).0.eval, Some(Fixed::highest()));
}

#[test]
fn every_leaf_is_visited_without_pruning() {
    let (_, one) = full(0, START, 1);
    assert_eq!(one.leaves_visited, 20);
    assert_eq!(one.nodes_visited, 20);
    assert_eq!(one.max_depth, 1);
    let (_, two) = full(0, START, 2);
    assert_eq!(two.leaves_visited, 400);
    assert_eq!(two.nodes_visited, 420);
    assert_eq!(two.max_depth, 2);
    assert_eq!(two.alpha_beta_breaks, 0);
    let (_, skipping) = full(SKIP_BAD_MOVES, START, 2);
    assert_eq!(skipping.leaves_visited, 400);
}

#[test]
fn searches_find_the_minimax_value() {
    for fen in [START, MATE_IN_ONE, MIDDLE] {
        for depth in 1..3 {
            let mut e = engine(SQUARE_CONTROL_METRIC);
            let value = minimax(&mut e, &board(fen), depth, &mut BoardCounts::new());
            assert_eq!(full(SQUARE_CONTROL_METRIC, fen, depth).0.eval, Some(value));
            let pruned = full(SQUARE_CONTROL_METRIC | ALPHA_BETA, fen, depth).0;
            assert_eq!(pruned.eval, Some(value));
        }
    }
}

#[test]
fn pruning_keeps_the_choice_and_saves_work() {
    for fen in [START, MATE_IN_ONE, MIDDLE] {
        let (plain_found, plain_stats) = full(SQUARE_CONTROL_METRIC, fen, 2);
        let (pruned_found, pruned_stats) = full(SQUARE_CONTROL_METRIC | ALPHA_BETA, fen, 2);
        assert_eq!(plain_found.eval, pruned_found.eval);
        assert_eq!(plain_found.next_action, pruned_found.next_action);
        assert!(pruned_stats.leaves_visited < plain_stats.leaves_visited);
        assert!(pruned_stats.alpha_beta_breaks > 0);
    }
}

#[test]
fn a_window_tells_on_which_side_the_value_lies() {
    let on = SQUARE_CONTROL_METRIC | ALPHA_BETA;
    let value = full(on, MIDDLE, 2).0.eval.unwrap();
    let step = pawns(1);
    let above = (value.sum(step), value.sum(pawns(2)));
    let (low, _) = search(&mut engine(on), MIDDLE, 2, above.0, above.1);
    assert!(low.eval.unwrap().less_than(above.0));
    assert!(!low.eval.unwrap().less_than(value));
    let below = (value.difference(pawns(2)), value.difference(step));
    let (high, _) = search(&mut engine(on), MIDDLE, 2, below.0, below.1);
    assert!(below.1.less_than(high.eval.unwrap()));
    assert!(!value.less_than(high.eval.unwrap()));
    let (inside, _) = search(&mut engine(on), MIDDLE, 2, value.difference(step), value.sum(step));
    assert_eq!(inside.eval, Some(value));
}

#[test]
fn sums_are_carried_from_move_to_move() {
    // The king on E4 is left out; the rook on E4 has entry 36, worth 1.
    let rook = "4k3/8/8/8/4R3/8/8/4K3 b - - 0 1";
    let (found, _) = full(TAPERED_INCREMENTAL_PESTO_PSQT, rook, 1);
    assert_eq!(found.incremental_psqt_eval, Some(pawns(0)));
    let white = "3k4/8/8/8/4R3/8/8/4K3 w - - 0 1";
    let b = board(white);
    let (carried, _) = full(TAPERED_INCREMENTAL_PESTO_PSQT, white, 1);
    let count = b.legal_moves().len() as i64;
    assert_eq!(carried.incremental_psqt_eval, Some(pawns(count)));
    // The last move gets the sum of all moves before it, weighted by 5.
    assert_eq!(carried.eval, Some(pawns(5 + 5 * (count - 1))));
    let last = *b.legal_moves().last().unwrap();
    assert_eq!(carried.next_action, Some(Action::MakeMove(last)));
}

#[test]
fn the_table_is_written() {
    let mut e = engine(TRANSPOSITION_TABLE);
    let (_, _, stats) = e.next_action(&board(START), 3, &mut Clock::never());
    // Every leaf and the root.
    assert_eq!(stats.transposition_table_entries, 8902 + 1);
    assert!(stats.time_for_transposition_access > 0);
    let (_, _, forgetful) = engine(0).next_action(&board(START), 2, &mut Clock::never());
    assert_eq!(forgetful.transposition_table_entries, 0);
    assert_eq!(forgetful.time_for_transposition_access, 0);
}

#[test]
fn a_deep_entry_stands_for_a_search() {
    let mut e = engine(TRANSPOSITION_TABLE);
    let known = board("4k3/8/8/8/8/8/8/R3K3 b - - 0 1");
    e.next_action(&known, 3, &mut Clock::never());
    // One move before, the board is known as deep as is to be searched.
    let earlier = board("4k3/8/8/8/8/8/R7/4K3 w - - 0 1");
    assert_eq!(earlier.try_move(plain(8, 0)).unwrap().fen(), known.fen());
    let (_, _, used) = e.next_action(&earlier, 3, &mut Clock::never());
    assert_eq!(used.transposition_table_accesses, 1);
    e.reset();
    let (_, _, fresh) = e.next_action(&earlier, 3, &mut Clock::never());
    assert_eq!(fresh.transposition_table_accesses, 0);
    assert!(used.leaves_visited < fresh.leaves_visited);
}

#[test]
fn only_moves_are_searched_deeper() {
    // Black has one legal move.
    let forced = "k7/8/1K6/8/8/8/8/7R b - - 0 1";
    assert_eq!(board(forced).legal_moves().len(), 1);
    let (_, plain_stats) = full(0, forced, 1);
    assert_eq!(plain_stats.leaves_visited, 1);
    let (_, extended) = full(SEARCH_EXTENSIONS, forced, 1);
    assert!(extended.leaves_visited > 1);
    assert_eq!(extended.max_depth, 1);
}

#[test]
fn a_clock_without_a_deadline_does_not_run_out() {
    let mut clock = Clock::never();
    for _ in 0..5 {
        assert!(!clock.check());
    }
}

#[test]
fn a_counting_clock_stays_run_out() {
    let mut clock = Clock::expiring_after(2);
    assert!(!clock.check());
    assert!(!clock.check());
    assert!(clock.check());
    assert!(clock.check());
}

#[test]
fn a_clock_goes_by_its_deadline() {
    let mut past = Clock::until(Instant::now());
    assert!(past.check());
    assert!(past.check());
    let mut future = Clock::until(Instant::now() + Duration::from_secs(3600));
    assert!(!future.check());
}

#[test]
fn a_search_stops_when_the_clock_has_run_out() {
    let b = board(START);
    let mut e = engine(0);
    let (none, _, nothing) = e.next_action(&b, 2, &mut Clock::expiring_after(0));
    assert_eq!(none, None);
    assert_eq!(nothing.leaves_visited, 0);
    assert_eq!(nothing.progress_on_next_layer, pawns(0));
    let (some, _, half) = e.next_action(&b, 1, &mut Clock::expiring_after(11));
    assert!(matches!(some, Some(Action::MakeMove(_))));
    assert_eq!(half.leaves_visited, 11);
    assert_eq!(half.progress_on_next_layer, Fixed { steps: 39000 });
    // The first of 20 moves was searched, and a fourth of the second.
    let (_, _, deeper) = e.next_action(&b, 2, &mut Clock::expiring_after(1 + 20 + 1 + 6));
    assert_eq!(deeper.leaves_visited, 26);
    assert_eq!(deeper.progress_on_next_layer, Fixed { steps: 3900 + 975 });
    let (all, _, whole) = e.next_action(&b, 1, &mut Clock::expiring_after(20));
    assert_eq!(all, layer(0, START, 1));
    assert_eq!(whole.leaves_visited, 20);
    assert_eq!(whole.progress_on_next_layer, pawns(0));
}

#[test]
fn at_least_the_first_layer_is_searched() {
    let mut e = engine(ALPHA_BETA);
    let (action, _, stats) = e.decide(&board(START), &mut Clock::expiring_after(0));
    assert_eq!(Some(action), layer(ALPHA_BETA, START, 1));
    assert_eq!(stats.depth, 1);
    assert_eq!(stats.leaves_visited, 20);
}

#[test]
fn the_deepest_complete_layer_decides() {
    let on = ALPHA_BETA | SQUARE_CONTROL_METRIC;
    let (_, _, second) = engine(on).next_action(&board(MATE_IN_ONE), 2, &mut Clock::never());
    // The second layer asks before each move; one more check ends it.
    let checks = second.nodes_visited;
    let mut e = engine(on);
    let (_, _, cut) = e.decide(&board(MATE_IN_ONE), &mut Clock::expiring_after(checks));
    assert_eq!(cut.depth, 1);
    let mut f = engine(on);
    let (action, _, kept) = f.decide(&board(MATE_IN_ONE), &mut Clock::expiring_after(checks + 1));
    assert_eq!(kept.depth, 2);
    assert_eq!(Some(action), layer(on, MATE_IN_ONE, 2));
    assert_eq!(kept.leaves_visited, second.leaves_visited);
}

#[test]
fn ended_games_are_given_up_or_drawn() {
    let mut e = engine(0);
    let (resigned, analysis, stats) = e.decide(&board(MATED), &mut Clock::never());
    assert_eq!(resigned, Action::Resign(Color::White));
    assert!(analysis.is_none());
    assert_eq!(stats.depth, 10);
    let (drawn, _, _) = e.decide(&board(STALEMATE), &mut Clock::never());
    assert_eq!(drawn, Action::DeclareDraw);
    let black = "R5k1/5ppp/8/8/8/8/8/6K1 b - - 0 1";
    let (lost, _, _) = e.decide(&board(black), &mut Clock::never());
    assert_eq!(lost, Action::Resign(Color::Black));
}

#[test]
fn deadlines_are_kept() {
    let mut e = engine(ALPHA_BETA | TRANSPOSITION_TABLE);
    let (action, _, stats) = e.next_action_iterative_deepening(&board(START), Instant::now());
    assert!(matches!(action, Action::MakeMove(_)));
    assert_eq!(stats.depth, 1);
    assert_eq!(stats.tt_size, 20);
    let later = Instant::now() + Duration::from_secs(3600);
    let (resigned, _, whole) = e.next_action_iterative_deepening(&board(MATED), later);
    assert_eq!(resigned, Action::Resign(Color::White));
    assert_eq!(whole.depth, 10);
    let (again, _, cut) = e.next_action_iterative_deepening(&board(MATED), Instant::now());
    assert_eq!(again, Action::Resign(Color::White));
    assert_eq!(cut.depth, 1);
}

#[test]
fn a_board_played_three_times_is_drawn() {
    let mut e = engine(0);
    let b = board(MATE_IN_ONE);
    for _ in 0..3 {
        let (action, _, _) = e.decide(&b, &mut Clock::expiring_after(0));
        assert_eq!(action, Action::MakeMove(plain(0, 56)));
    }
    let (drawn, _, _) = e.decide(&b, &mut Clock::expiring_after(0));
    assert_eq!(drawn, Action::DeclareDraw);
    e.reset();
    let (fresh, _, _) = e.decide(&b, &mut Clock::expiring_after(0));
    assert_eq!(fresh, Action::MakeMove(plain(0, 56)));
}

#[test]
fn played_boards_count_as_occurrences() {
    let mut e = engine(0);
    let b = board(MATE_IN_ONE);
    let none = BoardCounts::new();
    assert_eq!(e.eval(&b, &none, pawns(0), pawns(0)), pawns(2));
    e.decide(&b, &mut Clock::expiring_after(0));
    assert_eq!(e.eval(&b, &none, pawns(0), pawns(0)), pawns(2));
    e.decide(&b, &mut Clock::expiring_after(0));
    assert_eq!(e.eval(&b, &none, pawns(0), pawns(0)), pawns(0));
}

#[test]
fn the_line_is_left_as_it_was() {
    let b = board(MATE_IN_ONE);
    let mut line = BoardCounts::new();
    line.count(&b);
    engine(0).node_eval_recursive(
        &b,
        2,
        Fixed::lowest(),
        Fixed::highest(),
        true,
        &mut Clock::expiring_after(30),
        &mut Stats::blank(),
        0,
        &mut line,
        pawns(0),
        pawns(0),
    );
    assert_eq!(line.times(&b), 1);
    for chess_move in b.legal_moves() {
        assert_eq!(line.times(&b.make_move_new(chess_move)), 0);
    }
}

#[test]
fn layers_are_analysed_on_demand() {
    let b = board(MATE_IN_ONE);
    let (_, none, _) = engine(0).next_action(&b, 1, &mut Clock::never());
    assert!(none.is_none());
    let (_, some, _) = engine(ANALYZE).next_action(&b, 1, &mut Clock::never());
    let analysis = some.unwrap();
    assert!(analysis.maximise);
    assert_eq!(analysis.new_best_move, plain(0, 56));
    assert_eq!(analysis.new_best_eval, Some(Fixed::highest()));
    assert_eq!(analysis.conclusion, Some((Some(Fixed::highest()), plain(0, 56))));
}

#[test]
fn remembered_pawn_structures_do_not_change_a_search() {
    // The king can castle behind its pawns or stay.
    let fen = "4k3/8/8/8/8/8/5PPP/4K2R w K - 0 1";
    let on = PAWN_STRUCTURE;
    let (found, _) = full(on, fen, 2);
    let mut e = engine(on);
    let none = BoardCounts::new();
    e.eval(&board("4k3/8/8/8/8/8/5PPP/6K1 w - - 0 1"), &none, pawns(0), pawns(0));
    let (other, _) = search(&mut e, fen, 2, Fixed::lowest(), Fixed::highest());
    assert_eq!(found.eval, other.eval);
    assert_eq!(found.next_action, other.next_action);
    let mut f = engine(on);
    let value = minimax(&mut f, &board(fen), 2, &mut BoardCounts::new());
    assert_eq!(found.eval, Some(value));
    assert_eq!(full(on | ALPHA_BETA, fen, 2).0.eval, Some(value));
}

#[test]
fn the_window_is_not_used_without_pruning() {
    let (whole, _) = full(SQUARE_CONTROL_METRIC, MIDDLE, 2);
    let mut e = engine(SQUARE_CONTROL_METRIC);
    let (inverted, _) = search(&mut e, MIDDLE, 2, Fixed::highest(), Fixed::lowest());
    assert_eq!(whole.eval, inverted.eval);
    assert_eq!(whole.next_action, inverted.next_action);
}

#[test]
fn modules_leave_only_their_own_traces() {
    let mut e = engine(SQUARE_CONTROL_METRIC);
    let b = board(MIDDLE);
    let (first, _, stats) = e.next_action(&b, 2, &mut Clock::never());
    assert_eq!(stats.transposition_table_entries, 0);
    assert_eq!(stats.transposition_table_accesses, 0);
    assert_eq!(stats.time_for_transposition_access, 0);
    assert_eq!(stats.alpha_beta_breaks, 0);
    assert_eq!(e.memory.table_len(), 0);
    assert_eq!(e.memory.times_played(&b), 0);
    let (second, _, again) = e.next_action(&b, 2, &mut Clock::never());
    assert_eq!(first, second);
    assert_eq!(stats.leaves_visited, again.leaves_visited);
    assert_eq!(stats.nodes_visited, again.nodes_visited);
}

#[test]
fn analysing_and_skipping_change_nothing_else() {
    let b = board(MIDDLE);
    let on = ALPHA_BETA | SQUARE_CONTROL_METRIC;
    let (plain_action, _, plain_stats) = engine(on).next_action(&b, 2, &mut Clock::never());
    for more in [ANALYZE, SKIP_BAD_MOVES, ANALYZE | SKIP_BAD_MOVES] {
        let (action, _, stats) = engine(on | more).next_action(&b, 2, &mut Clock::never());
        assert_eq!(action, plain_action);
        assert_eq!(stats.leaves_visited, plain_stats.leaves_visited);
        assert_eq!(stats.nodes_visited, plain_stats.nodes_visited);
        assert_eq!(stats.alpha_beta_breaks, plain_stats.alpha_beta_breaks);
    }
}

#[test]
fn analyses_need_a_move_to_analyse() {
    let (_, ended, _) = engine(ANALYZE).next_action(&board(MATED), 2, &mut Clock::never());
    assert!(ended.is_none());
    let (_, leaf, _) = engine(ANALYZE).next_action(&board(START), 0, &mut Clock::never());
    assert!(leaf.is_none());
    let (_, decided, _) = engine(ANALYZE).decide(&board(START), &mut Clock::expiring_after(0));
    assert!(decided.is_some());
    let (_, silent, _) = engine(0).decide(&board(START), &mut Clock::expiring_after(0));
    assert!(silent.is_none());
}

#[test]
fn the_largest_depth_is_that_of_the_root() {
    for depth in 1..4 {
        let on = ALPHA_BETA | SEARCH_EXTENSIONS;
        assert_eq!(full(on, MATE_IN_ONE, depth).1.max_depth, depth);
    }
    let (_, _, stopped) = engine(0).next_action(&board(START), 2, &mut Clock::expiring_after(0));
    assert_eq!(stopped.max_depth, 0);
}

#[test]
fn progress_stays_below_one() {
    let b = board(START);
    for checks in 0..60 {
        let mut clock = Clock::expiring_after(checks * 7);
        let (_, _, stats) = engine(0).next_action(&b, 2, &mut clock);
        assert!(0 <= stats.progress_on_next_layer.steps);
        assert!(stats.progress_on_next_layer.steps < STEPS_PER_PAWN);
    }
}

#[test]
fn decisions_count_what_is_played() {
    let mut e = engine(0);
    let b = board(MATE_IN_ONE);
    let next = b.make_move_new(plain(0, 56));
    let other = b.make_move_new(plain(0, 1));
    e.decide(&b, &mut Clock::expiring_after(0));
    assert_eq!(e.memory.times_played(&b), 1);
    assert_eq!(e.memory.times_played(&next), 1);
    assert_eq!(e.memory.times_played(&other), 0);
    let mated = board(MATED);
    e.decide(&mated, &mut Clock::never());
    assert_eq!(e.memory.times_played(&mated), 1);
    assert_eq!(e.memory.times_played(&b), 1);
}

#[test]
fn boards_with_many_men_are_searched() {
    let fen = "rnbqkbnr/pppppppp/8/8/8/P7/PPPPPPPP/RNBQKBNR w KQkq - 0 1";
    let many = board(fen);
    assert!(many.is_walkable(2));
    let mut e = engine(0);
    assert_eq!(e.eval(&many, &BoardCounts::new(), pawns(0), pawns(0)), pawns(1));
    let (found, stats) = full(0, fen, 2);
    assert_eq!(stats.leaves_visited, 18 * 20);
    let value = minimax(&mut e, &many, 2, &mut BoardCounts::new());
    assert_eq!(found.eval, Some(value));
}

#[test]
fn playable_boards_are_acted_on() {
    let mut e = engine(ALPHA_BETA);
    let many = board("rnbqkbnr/pppppppp/8/8/8/P7/PPPPPPPP/RNBQKBNR w KQkq - 0 1");
    assert!(e.act(&many, Instant::now()).is_none());
    assert_eq!(e.memory.times_played(&many), 0);
    let start = board(START);
    let (action, _, stats) = e.act(&start, Instant::now()).unwrap();
    assert_eq!(Some(action), layer(ALPHA_BETA, START, 1));
    assert_eq!(stats.depth, 1);
    assert_eq!(e.memory.times_played(&start), 1);
}

#[test]
fn pruning_changes_only_the_work() {
    for fen in [START, MATE_IN_ONE, MIDDLE] {
        let (found, whole) = full(0, fen, 2);
        let (pruned, less) = full(ALPHA_BETA, fen, 2);
        assert_eq!(found.eval, pruned.eval);
        assert_eq!(found.next_action, pruned.next_action);
        assert!(less.leaves_visited <= whole.leaves_visited);
        assert!(less.nodes_visited <= whole.nodes_visited);
        assert_eq!(whole.alpha_beta_breaks, 0);
    }
}

#[test]
fn settings_can_be_read_and_changed() {
    let mut e = engine(ALPHA_BETA);
    assert_eq!(e.modules, ALPHA_BETA);
    assert_eq!(e.time_per_move, Duration::from_secs(1));
    e.modules = 0;
    e.time_per_move = Duration::from_millis(50);
    e.reset();
    assert_eq!(e.modules, 0);
    assert_eq!(e.time_per_move, Duration::from_millis(50));
}
