//! Iterative deepening: what is played after searching layer by layer.
use crate::board::side_of;
use crate::board::status_of;
use crate::board::text_after;
use crate::board::Action;
use crate::board::BoardStatus;
use crate::clock::expired;
use crate::counts::count_of;
use crate::counts::counts;
use crate::counts::played_once_more;
use crate::outcome::blank_stats;
use crate::outcome::Analysis;
use crate::outcome::Stats;
use crate::score::Score;
use crate::search::searched;
use crate::search::Node;
use crate::search::Setup;
use crate::search::World;
use vstd::prelude::*;

verus! {

/// The layer that is searched whatever the time.
pub const START_DEPTH: u32 = 1;

/// The deepest layer that is searched.
pub const LAST_DEPTH: u32 = 10;

/// What searching a layer finds.
pub struct Layer<S> {
    pub action: Option<Action>,
    pub analysis: Option<Analysis<S>>,
    pub stats: Stats<S>,
}

/// What is decided, and what is left behind.
pub struct Decision<S> {
    pub action: Action,
    pub analysis: Option<Analysis<S>>,
    pub stats: Stats<S>,
    /// How often each board has been played.
    pub played: Map<Seq<char>, u32>,
    pub world: World<S>,
}

/// The root of the search tree.
pub open spec fn root(text: Seq<char>, depth: u32) -> Node {
    Node {
        text,
        depth,
        original: true,
        extensions: 0,
        predicted: counts(Map::<Seq<char>, u32>::empty()),
    }
}

/// Searches a layer with statistics of its own.
pub open spec fn layer<S: Score>(
    c: Setup<S>,
    w: World<S>,
    text: Seq<char>,
    depth: u32,
    limit: Option<nat>,
) -> (Layer<S>, World<S>) {
    let (found, after) = searched(
        c,
        World { stats: blank_stats(), ..w },
        root(text, depth),
        limit,
        S::min_value(),
        S::max_value(),
        S::of_int(0),
        S::of_int(0),
    );
    (
        Layer { action: found.next_action, analysis: found.debug_data, stats: after.stats },
        World { stats: blank_stats(), ..after },
    )
}

/// Searches the layers from `depth` on until the deadline has passed. A layer
/// during which it passed is dropped but for the share of it that was searched.
pub open spec fn deepened<S: Score>(
    c: Setup<S>,
    w: World<S>,
    text: Seq<char>,
    depth: u32,
    best: Layer<S>,
    limit: Option<nat>,
) -> (Layer<S>, u32, World<S>)
    decreases LAST_DEPTH + 1 - depth,
{
    if depth > LAST_DEPTH {
        (best, (depth - 1) as u32, w)
    } else {
        let (latest, after) = layer(c, w, text, depth, limit);
        let asked = World { asked: after.asked + 1, ..after };
        if expired(limit, after.asked) {
            (
                Layer {
                    stats: Stats {
                        progress_on_next_layer: latest.stats.progress_on_next_layer,
                        ..best.stats
                    },
                    ..best
                },
                (depth - 1) as u32,
                asked,
            )
        } else {
            deepened(c, asked, text, (depth + 1) as u32, latest, limit)
        }
    }
}

/// What is done where the search found no action: a draw is declared in
/// stalemate, and the side to move resigns in checkmate.
pub open spec fn without_move(text: Seq<char>) -> Action {
    match status_of(text) {
        BoardStatus::Checkmate => Action::Resign(side_of(text)),
        _ => Action::DeclareDraw,
    }
}

/// What is done once a move is chosen: it is made, unless the board that it
/// leads to was played three times before, when a draw is declared. The board
/// is counted either way.
pub open spec fn repetition_checked(
    played: Map<Seq<char>, u32>,
    text: Seq<char>,
    action: Action,
) -> (Action, Map<Seq<char>, u32>) {
    match action {
        Action::MakeMove(chess_move) => {
            let next = text_after(text, chess_move);
            (
                if count_of(played, next) >= 3 {
                    Action::DeclareDraw
                } else {
                    action
                },
                played_once_more(played, next),
            )
        },
        _ => (action, played),
    }
}

/// What is decided on a board, with a deadline that passes at check `limit`.
pub open spec fn decided<S: Score>(
    c: Setup<S>,
    w: World<S>,
    text: Seq<char>,
    limit: Option<nat>,
) -> Decision<S> {
    let counted = Setup { played: played_once_more(c.played, text), ..c };
    let (first, begun) = layer(counted, World { asked: 0, ..w }, text, START_DEPTH, None);
    let (best, depth, after) = deepened(
        counted,
        World { asked: w.asked, ..begun },
        text,
        (START_DEPTH + 1) as u32,
        first,
        limit,
    );
    let chosen = match best.action {
        Some(action) => action,
        None => without_move(text),
    };
    let (action, played) = repetition_checked(counted.played, text, chosen);
    Decision {
        action,
        analysis: best.analysis,
        stats: Stats { depth, tt_size: after.table.len() as u32, ..best.stats },
        played,
        world: after,
    }
}

} // verus!
