use snake_game::{GameDisplayToString, GameLevel, MovementDirection, SnakeUnbounded};

#[test]
fn snake_game_level_render() {
    let level = GameLevel::new(20, 10);
    let output = GameDisplayToString.render(&level).unwrap();
    println!("{output}");

    let expected = "######################\n\r\
                              #                    #\n\r\
                              #                    #\n\r\
                              #                    #\n\r\
                              #                    #\n\r\
                              #                    #\n\r\
                              #                    #\n\r\
                              #                    #\n\r\
                              #                    #\n\r\
                              #                    #\n\r\
                              #                    #\n\r\
                              ######################";

    assert_eq!(expected, output)
}

#[test]
fn tests_level_render() {
    let level = GameLevel::new(20, 10);
    let output = GameDisplayToString.render(&level).unwrap();
    println!("{output}");

    let expected = "######################\n\r\
                              #                    #\n\r\
                              #                    #\n\r\
                              #                    #\n\r\
                              #                    #\n\r\
                              #                    #\n\r\
                              #                    #\n\r\
                              #                    #\n\r\
                              #                    #\n\r\
                              #                    #\n\r\
                              #                    #\n\r\
                              ######################";

    assert_eq!(expected, output)
}

#[test]
fn render_frame_shape() {
    // an empty twenty-by-ten grid: border rows of exactly twenty-two wall
    // characters, and ten interior rows each twenty-two characters wide and
    // bounded by walls
    let level = GameLevel::new(20, 10);
    let output = GameDisplayToString.render(&level).unwrap();
    let lines: Vec<&str> = output.split("\n\r").collect();
    assert_eq!(lines.len(), 12);
    assert_eq!(lines[0], "#".repeat(22));
    assert_eq!(lines[11], "#".repeat(22));
    for line in &lines[1..11] {
        assert_eq!(line.chars().count(), 22);
        assert!(line.starts_with('#'));
        assert!(line.ends_with('#'));
        assert!(line[1..21].chars().all(|c| c == ' '));
    }
}

#[test]
fn render_draws_fruit_and_snake_glyphs() {
    let mut level = GameLevel::new(5, 3);
    level.put_fruit(4, 0);
    let mut snake = SnakeUnbounded::new(MovementDirection::Right);
    // head at the center, one tail segment to its left
    snake.put_on(&mut level, 1).unwrap();
    let output = GameDisplayToString.render(&level).unwrap();
    let expected = "#######\n\r\
                    #    @#\n\r\
                    # \u{2588}\u{2588}  #\n\r\
                    #     #\n\r\
                    #######";
    assert_eq!(expected, output);
}
