use snake_game::helper::{aggregate_moves, get_most_move_occurrences_in};
use snake_game::MovementDirection;
use snake_game::MovementDirection::{Down, Left, Right, Up};

#[test]
fn move_occurrence_counting() {
    let moves = vec![Up, Down, Left, Left, Down, Right];
    let (most, moves_map) = get_most_move_occurrences_in(&moves);
    assert_eq!(most, 2);

    let moves: Vec<MovementDirection> = moves_map.moves_with_count(most);

    assert_eq!(moves.len(), 2);
    assert!(moves.contains(&Down));
    assert!(moves.contains(&Left));
}

#[test]
fn tally_counts_every_direction() {
    let moves = vec![Up, Down, Left, Left, Down, Right];
    let (most, tally) = get_most_move_occurrences_in(&moves);
    assert_eq!(tally.count_of(Up), 1);
    assert_eq!(tally.count_of(Down), 2);
    assert_eq!(tally.count_of(Left), 2);
    assert_eq!(tally.count_of(Right), 1);
    assert_eq!(most, 2);
}

#[test]
fn tally_of_empty_batch_is_zero() {
    let moves: Vec<MovementDirection> = Vec::new();
    let (most, tally) = get_most_move_occurrences_in(&moves);
    assert_eq!(most, 0);
    assert_eq!(tally.count_of(Up), 0);
    assert_eq!(tally.count_of(Down), 0);
    assert_eq!(tally.count_of(Left), 0);
    assert_eq!(tally.count_of(Right), 0);
}

#[test]
fn aggregate_picks_only_tied_leaders() {
    // with the current direction Left nothing is filtered, and the batch has
    // exactly five entries, so the whole batch is the sample: the tally has
    // Down and Left tied at two, so the pick is never Up
    for _ in 0..50 {
        let pending = vec![Up, Down, Left, Left, Down];
        let chosen = aggregate_moves(&pending, Left);
        assert!(matches!(chosen, Some(Down) | Some(Left)));
    }
}

#[test]
fn aggregate_drops_fatal_reversals() {
    // every pending input is the exact reverse of the current direction, so
    // nothing remains and the tick sees no direction change
    let pending = vec![Down, Down, Down];
    assert_eq!(aggregate_moves(&pending, Up), None);
}

#[test]
fn aggregate_of_empty_batch_is_no_change() {
    let pending: Vec<MovementDirection> = Vec::new();
    assert_eq!(aggregate_moves(&pending, Up), None);
}

#[test]
fn aggregate_never_invents_directions() {
    // the sample is drawn from the filtered batch, so a batch holding a
    // single non-reversal direction can only yield that direction
    for _ in 0..20 {
        let pending = vec![Up, Up, Up, Up, Up, Up, Up];
        assert_eq!(aggregate_moves(&pending, Right), Some(Up));
    }
}

#[test]
fn aggregate_majority_wins() {
    // six survivors, five sampled: Up holds at least four of any sample of
    // five, so Up always wins the plurality vote
    for _ in 0..50 {
        let pending = vec![Up, Up, Up, Up, Up, Down];
        assert_eq!(aggregate_moves(&pending, Left), Some(Up));
    }
}
