use std::collections::VecDeque;

use snake_game::random::Rng;
use snake_game::snake::{Direction, GameError, SnakeGame};

#[test]
fn test() {
    println!("{:?}", SnakeGame::new(10, 10));
}

#[test]
fn rejects_zero_dimensions() {
    assert!(matches!(SnakeGame::new(0, 5), Err(GameError::InvalidDimensions)));
    assert!(matches!(SnakeGame::new(5, 0), Err(GameError::InvalidDimensions)));
    assert!(matches!(SnakeGame::new(0, 0), Err(GameError::InvalidDimensions)));
}

#[test]
fn scenario_initial_state() {
    let g = SnakeGame::new(5, 5).unwrap();
    assert_eq!(g.width, 5);
    assert_eq!(g.height, 5);
    assert_eq!(g.snake, VecDeque::from(vec![(3, 2)]));
    assert_eq!(g.food, (2, 2));
    assert_eq!(g.direction, Direction::Left);
    assert_eq!(g.next_direction, Direction::Left);
    assert!(!g.finished);
}

#[test]
fn scenario_eat_first_food() {
    let mut g = SnakeGame::new(5, 5).unwrap();
    g.tick();
    assert_eq!(g.snake, VecDeque::from(vec![(2, 2), (3, 2)]));
    assert!(!g.finished);
    // the food moved to a free cell of the board
    assert!(g.food.0 < 5 && g.food.1 < 5);
    assert!(!g.snake.contains(&g.food));
}

#[test]
fn scenario_wall_collision() {
    let mut g = SnakeGame::new(3, 3).unwrap();
    assert_eq!(g.snake, VecDeque::from(vec![(1, 1)]));
    assert_eq!(g.food, (2, 1));
    g.tick();
    assert_eq!(g.snake, VecDeque::from(vec![(0, 1)]));
    assert!(!g.finished);
    g.tick();
    assert!(g.finished);
    assert_eq!(g.snake, VecDeque::from(vec![(0, 1)]));
    assert_eq!(g.food, (2, 1));
}

#[test]
fn scenario_self_collision() {
    let mut g = SnakeGame::new(5, 5).unwrap();
    g.snake = VecDeque::from(vec![(2, 2), (1, 2)]);
    g.food = (4, 4);
    // the direction is Left, so the head aims at the second segment
    g.tick();
    assert!(g.finished);
    assert_eq!(g.snake, VecDeque::from(vec![(2, 2), (1, 2)]));
    assert_eq!(g.food, (4, 4));
}

#[test]
fn anti_reversal_is_ignored() {
    let mut g = SnakeGame::new(10, 10).unwrap();
    assert_eq!(g.snake, VecDeque::from(vec![(8, 5)]));
    assert_eq!(g.direction, Direction::Left);
    // the exact opposite of the current direction changes nothing
    g.change_direction(Direction::Right);
    assert_eq!(g.next_direction, Direction::Left);
    g.tick();
    assert_eq!(g.snake, VecDeque::from(vec![(7, 5)]));
    // repeating the current direction changes nothing either
    g.change_direction(Direction::Left);
    assert_eq!(g.next_direction, Direction::Left);
    // a perpendicular direction is accepted, and only at the tick
    g.change_direction(Direction::Top);
    assert_eq!(g.direction, Direction::Left);
    assert_eq!(g.next_direction, Direction::Top);
    g.tick();
    assert_eq!(g.direction, Direction::Top);
    assert_eq!(g.snake, VecDeque::from(vec![(7, 4)]));
}

#[test]
fn terminal_state_frozen() {
    let mut g = SnakeGame::new(3, 3).unwrap();
    g.tick();
    g.tick();
    assert!(g.finished);
    let snake = g.snake.clone();
    let food = g.food;
    let direction = g.direction;
    g.tick();
    g.change_direction(Direction::Top);
    g.tick();
    g.change_direction(Direction::Right);
    g.tick();
    assert!(g.finished);
    assert_eq!(g.snake, snake);
    assert_eq!(g.food, food);
    assert_eq!(g.direction, direction);
}

#[test]
fn invariants_hold_through_play() {
    let mut g = SnakeGame::new(5, 5).unwrap();
    // the first tick eats the starting food, so the body has two segments
    g.tick();
    assert_eq!(g.snake.len(), 2);
    let turns = [
        Direction::Top,
        Direction::Right,
        Direction::Bottom,
        Direction::Left,
        Direction::Top,
        Direction::Right,
        Direction::Bottom,
        Direction::Left,
    ];
    for d in turns {
        g.change_direction(d);
        g.tick();
        if g.finished {
            break;
        }
        // the body stays on the board and pairwise distinct
        for i in 0..g.snake.len() {
            assert!(g.snake[i].0 < g.width && g.snake[i].1 < g.height);
            for j in 0..i {
                assert_ne!(g.snake[i], g.snake[j]);
            }
        }
        // the food lies outside the body
        assert!(g.food.0 < g.width && g.food.1 < g.height);
        assert!(!g.snake.contains(&g.food));
    }
}

#[test]
fn board_full_ends_game() {
    let mut g = SnakeGame::new(2, 2).unwrap();
    assert_eq!(g.snake, VecDeque::from(vec![(0, 1)]));
    assert_eq!(g.food, (1, 1));
    g.change_direction(Direction::Top);
    g.tick();
    assert_eq!(g.snake, VecDeque::from(vec![(0, 0)]));
    g.change_direction(Direction::Right);
    g.tick();
    assert_eq!(g.snake, VecDeque::from(vec![(1, 0)]));
    g.change_direction(Direction::Bottom);
    g.tick();
    // the food at (1, 1) was eaten: the snake grew, the food moved
    assert_eq!(g.snake, VecDeque::from(vec![(1, 1), (1, 0)]));
    assert!(!g.finished);
    assert!(g.food == (0, 0) || g.food == (0, 1));
    g.change_direction(Direction::Left);
    g.tick();
    if g.snake.len() == 3 {
        // the food sat at (0, 1): second growth, one free cell is left
        assert_eq!(g.snake, VecDeque::from(vec![(0, 1), (1, 1), (1, 0)]));
        assert_eq!(g.food, (0, 0));
        g.change_direction(Direction::Top);
        g.tick();
    } else {
        // the food sat at (0, 0): plain move, then eat along the left edge
        assert_eq!(g.snake, VecDeque::from(vec![(0, 1), (1, 1)]));
        g.change_direction(Direction::Top);
        g.tick();
        assert_eq!(g.snake, VecDeque::from(vec![(0, 0), (0, 1), (1, 1)]));
        assert_eq!(g.food, (1, 0));
        assert!(!g.finished);
        g.change_direction(Direction::Right);
        g.tick();
    }
    // eating the last free cell would fill the board: the game ends frozen
    assert!(g.finished);
    assert_eq!(g.snake.len(), 3);
}

#[test]
fn is_valid_checks_bounds() {
    let mut g = SnakeGame::new(4, 6).unwrap();
    assert!(g.is_valid((0, 0)));
    assert!(g.is_valid((3, 5)));
    assert!(!g.is_valid((4, 5)));
    assert!(!g.is_valid((3, 6)));
}

#[test]
fn narrow_boards_follow_the_layout_formulas() {
    // width 2: head at the left edge, food beside it
    let g = SnakeGame::new(2, 1).unwrap();
    assert_eq!(g.snake, VecDeque::from(vec![(0, 0)]));
    assert_eq!(g.food, (1, 0));
    // width 1 and width 4 are degenerate: the food formula lands on the head
    let g = SnakeGame::new(1, 3).unwrap();
    assert_eq!(g.snake, VecDeque::from(vec![(0, 1)]));
    assert_eq!(g.food, (0, 1));
    let g = SnakeGame::new(4, 4).unwrap();
    assert_eq!(g.snake, VecDeque::from(vec![(2, 2)]));
    assert_eq!(g.food, (2, 2));
}

#[test]
fn random_range_stays_in_range() {
    let mut rng = Rng::new(42);
    for low in 0..5usize {
        for span in 1..7usize {
            let r = rng.random_range(low, low + span);
            assert!(low <= r && r < low + span);
        }
    }
    let mut rng = Rng::new(0);
    assert_eq!(rng.random_range(3, 4), 3);
}
