use snake_game::{
    FruitRandomLimited, Game, GameDisplayToString, GameError, GameLevel, MovementDirection,
    SnakeUnbounded, TileType,
};

fn count_fruit(level: &GameLevel) -> usize {
    level
        .level()
        .iter()
        .filter(|t| matches!(t.tile_type(), TileType::Fruit))
        .count()
}

#[test]
fn fruit_chance_must_be_in_range() {
    assert!(matches!(FruitRandomLimited::new(5, 0), Err(GameError::ConfigError)));
    assert!(matches!(FruitRandomLimited::new(5, 101), Err(GameError::ConfigError)));
    assert!(FruitRandomLimited::new(5, 1).is_ok());
    assert!(FruitRandomLimited::new(5, 100).is_ok());
}

#[test]
fn fruit_spawner_respects_limit() {
    // a certain chance on an empty level: each attempt spawns one fruit on
    // an empty tile until the limit is reached, and never beyond it
    let mut level = GameLevel::new(4, 4);
    let fruit = FruitRandomLimited::new(3, 100).unwrap();
    for _ in 0..10 {
        fruit.put_on(&mut level).unwrap();
        assert!(count_fruit(&level) <= 3);
    }
    assert_eq!(count_fruit(&level), 3);
}

#[test]
fn certain_chance_spawns_every_attempt() {
    // a chance of ninety-nine hundredths or more succeeds on every draw:
    // below the limit, with empty tiles left, each attempt adds exactly one
    // fruit
    let mut level = GameLevel::new(3, 3);
    let fruit = FruitRandomLimited::new(9, 99).unwrap();
    for expected in 1..=9usize {
        fruit.put_on(&mut level).unwrap();
        assert_eq!(count_fruit(&level), expected);
    }
}

#[test]
fn fruit_spawner_with_zero_limit_does_nothing() {
    let mut level = GameLevel::new(4, 4);
    let fruit = FruitRandomLimited::new(0, 100).unwrap();
    fruit.put_on(&mut level).unwrap();
    assert_eq!(count_fruit(&level), 0);
}

#[test]
fn fruit_spawner_with_full_level_does_nothing() {
    // every tile empty? no — fill the whole level with fruit first (the
    // limit allows it), then ask for one more with a raised limit
    let mut level = GameLevel::new(2, 2);
    let fruit = FruitRandomLimited::new(4, 100).unwrap();
    for _ in 0..4 {
        fruit.put_on(&mut level).unwrap();
    }
    assert_eq!(count_fruit(&level), 4);
    let fruit = FruitRandomLimited::new(9, 100).unwrap();
    fruit.put_on(&mut level).unwrap();
    assert_eq!(count_fruit(&level), 4);
}

#[test]
fn game_ticks_keep_fruit_under_limit() {
    // across any number of ticks the fruit count never exceeds the limit
    let level = GameLevel::new(12, 8);
    let snake = SnakeUnbounded::new(MovementDirection::Right);
    let fruit = FruitRandomLimited::new(2, 100).unwrap();
    let mut game = Game::new(GameDisplayToString, level, snake, fruit);
    game.put_snake(2).unwrap();
    for _ in 0..200 {
        match game.try_move() {
            Ok(()) => {}
            Err(GameError::GameOver) => break,
            Err(e) => panic!("unexpected error: {:?}", e),
        }
        assert!(count_fruit(game.level()) <= 2);
    }
}

#[test]
fn game_composes_its_parts() {
    let level = GameLevel::new(10, 6);
    let snake = SnakeUnbounded::new(MovementDirection::Right);
    let fruit = FruitRandomLimited::new(1, 50).unwrap();
    let mut game = Game::new(GameDisplayToString, level, snake, fruit);
    game.put_snake(2).unwrap();
    assert_eq!(game.snake().len(), 3);

    // the frame shows the placed snake
    let frame = game.render().unwrap();
    assert!(frame.contains('\u{2588}'));

    // a reversal is refused by the game as well
    assert!(matches!(
        game.set_snake_direction(MovementDirection::Left),
        Err(GameError::GameOver)
    ));
    // a right-angle turn is accepted
    assert!(game.set_snake_direction(MovementDirection::Up).is_ok());

    // a tick moves the snake without changing its length on empty tiles
    let len_before = game.snake().len();
    game.try_move().unwrap();
    assert_eq!(game.snake().len(), len_before);
}

#[test]
fn pending_moves_steer_the_game() {
    let level = GameLevel::new(10, 6);
    let snake = SnakeUnbounded::new(MovementDirection::Right);
    let fruit = FruitRandomLimited::new(1, 50).unwrap();
    let mut game = Game::new(GameDisplayToString, level, snake, fruit);
    game.put_snake(2).unwrap();

    // a batch made only of fatal reversals changes nothing
    game.apply_pending_moves(&vec![MovementDirection::Left, MovementDirection::Left])
        .unwrap();
    assert!(matches!(game.snake().direction(), MovementDirection::Right));

    // one surviving input guarantees a change onto one of the inputs
    game.apply_pending_moves(&vec![MovementDirection::Left, MovementDirection::Down])
        .unwrap();
    assert!(matches!(game.snake().direction(), MovementDirection::Down));
    game.apply_pending_moves(&vec![MovementDirection::Right, MovementDirection::Right])
        .unwrap();
    assert!(matches!(game.snake().direction(), MovementDirection::Right));

    // a unanimous batch wins the vote
    game.apply_pending_moves(&vec![MovementDirection::Up, MovementDirection::Up])
        .unwrap();
    assert!(matches!(game.snake().direction(), MovementDirection::Up));

    // an empty batch means no direction change this tick
    game.apply_pending_moves(&Vec::new()).unwrap();
    assert!(matches!(game.snake().direction(), MovementDirection::Up));
}

#[test]
fn game_put_snake_rejects_zero_tail() {
    let level = GameLevel::new(10, 6);
    let snake = SnakeUnbounded::new(MovementDirection::Right);
    let fruit = FruitRandomLimited::new(1, 50).unwrap();
    let mut game = Game::new(GameDisplayToString, level, snake, fruit);
    assert!(matches!(game.put_snake(0), Err(GameError::InvalidInternalState)));
}
