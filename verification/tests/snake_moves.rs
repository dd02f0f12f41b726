use snake_game::{GameDisplayToString, GameError, GameLevel, MovementDirection, SnakeUnbounded, TileType};

#[test]
fn snake_game_snake_movement_and_grow() {
    let mut level = GameLevel::new(20, 10);
    let mut snake = SnakeUnbounded::new(MovementDirection::Right);
    level.put_fruit(5, 8);
    level.put_fruit(5, 2);
    snake.put_on(&mut level, 3).unwrap();

    let start_len = snake.len();

    let output = GameDisplayToString.render(&level).unwrap();
    println!("{output}");

    for s in 0..63 {
        snake.make_move(&mut level).unwrap();
        let output = GameDisplayToString.render(&level).unwrap();
        println!("Step: {s}");
        println!("{output}");

        match s {
            // go through entire level
            15 => snake.set_direction(MovementDirection::Up).unwrap(),
            17 => {
                // test grow
                assert_eq!(snake.len(), start_len + 1);
            }
            30 => snake.set_direction(MovementDirection::Left).unwrap(),
            45 => snake.set_direction(MovementDirection::Down).unwrap(),
            // go to collision
            60 => snake.set_direction(MovementDirection::Left).unwrap(),
            61 => snake.set_direction(MovementDirection::Up).unwrap(),
            // make collision
            62 => {
                snake.set_direction(MovementDirection::Right).unwrap();
                let result = snake.make_move(&mut level);
                let mut game_over = false;
                if let Err(GameError::GameOver) = result {
                    game_over = true;
                }
                assert!(game_over);
                break;
            }
            _ => (),
        }
    }
}

#[test]
fn tests_snake_movement_and_grow() {
    let mut level = GameLevel::new(20, 10);
    let mut snake = SnakeUnbounded::new(MovementDirection::Right);
    level.put_fruit(5, 8);
    level.put_fruit(5, 2);
    snake.put_on(&mut level, 3).unwrap();

    let start_len = snake.len();

    let output = GameDisplayToString.render(&level).unwrap();
    println!("{output}");

    for s in 0..63 {
        snake.make_move(&mut level).unwrap();
        let output = GameDisplayToString.render(&level).unwrap();
        println!("Step: {s}");
        println!("{output}");

        match s {
            // go through entire level
            15 => snake.set_direction(MovementDirection::Up).unwrap(),
            17 => {
                // test grow
                assert_eq!(snake.len(), start_len + 1);
            }
            30 => snake.set_direction(MovementDirection::Left).unwrap(),
            45 => snake.set_direction(MovementDirection::Down).unwrap(),
            // go to collision
            60 => snake.set_direction(MovementDirection::Left).unwrap(),
            61 => snake.set_direction(MovementDirection::Up).unwrap(),
            // make collision
            62 => {
                snake.set_direction(MovementDirection::Right).unwrap();
                let result = snake.make_move(&mut level);
                let mut game_over = false;
                if let Err(GameError::GameOver) = result {
                    game_over = true;
                }
                assert!(game_over);
                break;
            }
            _ => (),
        }
    }
}

#[test]
fn straight_line_keeps_length() {
    // a straight unobstructed run, wrapping across the level edge on the
    // way, never changes the snake's length
    let mut level = GameLevel::new(8, 5);
    let mut snake = SnakeUnbounded::new(MovementDirection::Right);
    snake.put_on(&mut level, 2).unwrap();
    let start_len = snake.len();
    assert_eq!(start_len, 3);
    for _ in 0..20 {
        snake.make_move(&mut level).unwrap();
        assert_eq!(snake.len(), start_len);
    }
}

#[test]
fn growing_on_fruit_keeps_tail_end() {
    let mut level = GameLevel::new(5, 3);
    let mut snake = SnakeUnbounded::new(MovementDirection::Right);
    // head at index 7 (column 2, row 1), tail at index 6
    snake.put_on(&mut level, 1).unwrap();
    level.put_fruit(3, 1);
    let fruit_count_before = count_fruit(&level);
    assert_eq!(fruit_count_before, 1);

    snake.make_move(&mut level).unwrap();

    // the snake grew by exactly one, the fruit is gone, and the previous
    // tail-end tile is still snake (not cleared)
    assert_eq!(snake.len(), 3);
    assert_eq!(count_fruit(&level), 0);
    assert!(matches!(level.get_tile(6).unwrap().tile_type(), TileType::Snake));
}

#[test]
fn self_collision_commits_nothing() {
    let mut level = GameLevel::new(7, 5);
    let mut snake = SnakeUnbounded::new(MovementDirection::Right);
    // body: indices 17, 16, 15, 14 on the middle row
    snake.put_on(&mut level, 3).unwrap();
    snake.set_direction(MovementDirection::Down).unwrap();
    snake.make_move(&mut level).unwrap();
    snake.set_direction(MovementDirection::Left).unwrap();
    snake.make_move(&mut level).unwrap();
    snake.set_direction(MovementDirection::Up).unwrap();

    let tiles_before: Vec<_> = level.level().to_vec();
    let len_before = snake.len();

    // the tile above the head is part of the body: a self-collision
    let result = snake.make_move(&mut level);
    assert!(matches!(result, Err(GameError::GameOver)));

    // the grid state committed before the step is intact
    let tiles_after: Vec<_> = level.level().to_vec();
    assert_eq!(tiles_before, tiles_after);
    assert_eq!(snake.len(), len_before);
}

#[test]
fn wrap_right_reenters_same_row_left() {
    // on a three-by-three grid a snake moving right from the rightmost
    // column wraps to the same row's leftmost column
    let mut level = GameLevel::new(3, 3);
    let mut snake = SnakeUnbounded::new(MovementDirection::Right);
    // head at the center (index 4), tail to its left (index 3)
    snake.put_on(&mut level, 1).unwrap();
    snake.make_move(&mut level).unwrap();
    assert_eq!(*snake.tail.front().unwrap(), 5);
    snake.make_move(&mut level).unwrap();
    // wrapped: same row (row 1), leftmost column (index 3)
    assert_eq!(*snake.tail.front().unwrap(), 3);
}

#[test]
fn reversal_fails_and_keeps_direction() {
    let mut snake = SnakeUnbounded::new(MovementDirection::Right);
    let result = snake.set_direction(MovementDirection::Left);
    assert!(matches!(result, Err(GameError::GameOver)));
    assert!(matches!(snake.direction(), MovementDirection::Right));

    // the same holds for every opposite pair
    let mut snake = SnakeUnbounded::new(MovementDirection::Up);
    assert!(matches!(snake.set_direction(MovementDirection::Down), Err(GameError::GameOver)));
    assert!(matches!(snake.direction(), MovementDirection::Up));

    // a right-angle turn succeeds
    assert!(snake.set_direction(MovementDirection::Left).is_ok());
    assert!(matches!(snake.direction(), MovementDirection::Left));
}

#[test]
fn placement_rejects_bad_tail_sizes() {
    // a tail size under one is an invalid state
    let mut level = GameLevel::new(7, 5);
    let mut snake = SnakeUnbounded::new(MovementDirection::Right);
    let result = snake.put_on(&mut level, 0);
    assert!(matches!(result, Err(GameError::InvalidInternalState)));
    assert_eq!(snake.len(), 0);

    // a tail that cannot fit between the center and the edge is rejected
    // too, and nothing is committed
    let result = snake.put_on(&mut level, 4);
    assert!(matches!(result, Err(GameError::InvalidInternalState)));
    assert_eq!(snake.len(), 0);
    assert!(level.level().iter().all(|t| !matches!(t.tile_type(), TileType::Snake)));

    // a fitting tail is placed: center of the middle row plus three to the
    // left
    assert!(snake.put_on(&mut level, 3).is_ok());
    assert_eq!(snake.len(), 4);
}

#[test]
fn smallest_level_cannot_hold_a_snake() {
    // placement never wraps, and a one-tile level has no room for a tail
    let mut level = GameLevel::new(1, 1);
    let mut snake = SnakeUnbounded::new(MovementDirection::Right);
    assert!(matches!(snake.put_on(&mut level, 1), Err(GameError::InvalidInternalState)));
}

#[test]
fn wrap_onto_own_body_is_game_over() {
    // a wrapped step resolves the re-entered tile like any other: eating the
    // row full ends the game on the next wrap
    let mut level = GameLevel::new(5, 1);
    let mut snake = SnakeUnbounded::new(MovementDirection::Right);
    snake.put_on(&mut level, 2).unwrap();
    level.put_fruit(3, 0);
    level.put_fruit(4, 0);
    snake.make_move(&mut level).unwrap();
    snake.make_move(&mut level).unwrap();
    assert_eq!(snake.len(), 5);
    let result = snake.make_move(&mut level);
    assert!(matches!(result, Err(GameError::GameOver)));
}

#[test]
fn moving_an_unplaced_snake_is_invalid() {
    let mut level = GameLevel::new(7, 5);
    let mut snake = SnakeUnbounded::new(MovementDirection::Right);
    let result = snake.make_move(&mut level);
    assert!(matches!(result, Err(GameError::InvalidInternalState)));
}

fn count_fruit(level: &GameLevel) -> usize {
    level
        .level()
        .iter()
        .filter(|t| matches!(t.tile_type(), TileType::Fruit))
        .count()
}
