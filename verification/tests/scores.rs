use chess_search::score::max_score;
use chess_search::score::min_score;
use chess_search::score::Fixed;
use chess_search::score::Score;
use chess_search::score::STEPS_PER_PAWN;

fn pawns(n: i64) -> Fixed {
    Fixed { steps: n * STEPS_PER_PAWN }
}

#[test]
fn whole_numbers_are_exact() {
    assert_eq!(Fixed::from_int(0).steps, 0);
    assert_eq!(Fixed::from_int(3).steps, 234000);
    assert_eq!(Fixed::from_int(-2).steps, -156000);
}

#[test]
fn sums_and_differences_stop_at_the_ends() {
    assert_eq!(pawns(2).sum(pawns(5)), pawns(7));
    assert_eq!(pawns(2).difference(pawns(5)), pawns(-3));
    assert_eq!(Fixed::highest().sum(pawns(1)), Fixed::highest());
    assert_eq!(Fixed::lowest().difference(pawns(1)), Fixed::lowest());
    assert_eq!(Fixed::from_int(i64::MAX), Fixed::highest());
    assert_eq!(Fixed::from_int(i64::MIN), Fixed::lowest());
    assert_eq!(Fixed::highest().steps, i64::MAX);
    assert_eq!(Fixed::lowest().steps, i64::MIN);
}

#[test]
fn products_round_toward_zero() {
    assert_eq!(pawns(3).product(pawns(-2)), pawns(-6));
    assert_eq!(Fixed { steps: -1 }.product(Fixed { steps: 1 }), pawns(0));
    assert_eq!(
        Fixed { steps: -100000 }.product(Fixed { steps: 78001 }),
        Fixed { steps: -100001 }
    );
    assert_eq!(Fixed::lowest().product(pawns(-2)), Fixed::highest());
    assert_eq!(Fixed::lowest().product(pawns(2)), Fixed::lowest());
}

#[test]
fn quotients_round_toward_zero() {
    assert_eq!(pawns(1).quotient(pawns(2)), Fixed { steps: 39000 });
    assert_eq!(pawns(-1).quotient(pawns(4)), Fixed { steps: -19500 });
    assert_eq!(pawns(7).quotient(pawns(78)), Fixed { steps: 7000 });
    assert_eq!(pawns(5).quotient(pawns(0)), pawns(0));
    assert_eq!(Fixed { steps: 1 }.quotient(pawns(-2)), pawns(0));
}

#[test]
fn scores_are_ordered_by_their_steps() {
    assert!(pawns(1).less_than(pawns(2)));
    assert!(!pawns(2).less_than(pawns(2)));
    assert!(!pawns(3).less_than(pawns(2)));
    assert!(Fixed::lowest().less_than(Fixed::highest()));
    assert_eq!(max_score(pawns(1), pawns(2)), pawns(2));
    assert_eq!(max_score(pawns(2), pawns(1)), pawns(2));
    assert_eq!(min_score(pawns(1), pawns(2)), pawns(1));
    assert_eq!(min_score(pawns(2), pawns(1)), pawns(1));
}
