use snake_game::game::{DrawItem, Game, MOVING_PERIOD, RESTART_TIME};
use snake_game::map::MapError;
use snake_game::snake::{Block, Direction};

fn b(x: i32, y: i32) -> Block {
    Block { x, y }
}

fn body(g: &Game) -> Vec<Block> {
    g.snake().draw()
}

fn head(g: &Game) -> (i32, i32) {
    g.snake().head_position()
}

/// Grows the snake of a fresh game to five segments: body from (6, 2) back to (2, 2).
fn grown_to_five(g: &mut Game) {
    assert!(g.place_food(5, 2));
    g.key_pressed(Some(Direction::Right));
    assert!(g.place_food(6, 2));
    g.key_pressed(Some(Direction::Right));
    assert_eq!(body(g), vec![b(6, 2), b(5, 2), b(4, 2), b(3, 2), b(2, 2)]);
}

#[test]
fn new_game_starts_running_without_food_or_walls() {
    let g = Game::new(10, 8);
    assert!(!g.is_game_over());
    assert_eq!(g.food(), None);
    assert!(g.blocks().is_empty());
    assert_eq!(g.waiting_time(), 0);
    assert_eq!(body(&g), vec![b(4, 2), b(3, 2), b(2, 2)]);
    assert_eq!(g.snake().head_direction(), Direction::Right);
}

#[test]
fn key_moves_at_once_and_resets_the_clock() {
    let mut g = Game::new(10, 10);
    g.update(100_000);
    assert_eq!(g.waiting_time(), 100_000);
    g.key_pressed(Some(Direction::Up));
    assert_eq!(head(&g), (4, 1));
    assert_eq!(g.snake().head_direction(), Direction::Up);
    assert_eq!(g.waiting_time(), 0);
}

#[test]
fn reversing_key_is_ignored() {
    let mut g = Game::new(10, 10);
    g.key_pressed(Some(Direction::Left));
    assert_eq!(body(&g), vec![b(4, 2), b(3, 2), b(2, 2)]);
    assert!(!g.is_game_over());
}

#[test]
fn key_without_direction_is_ignored() {
    let mut g = Game::new(10, 10);
    g.update(50_000);
    g.key_pressed(None);
    assert_eq!(body(&g), vec![b(4, 2), b(3, 2), b(2, 2)]);
    assert_eq!(g.waiting_time(), 50_000);
}

#[test]
fn every_allowed_key_moves_or_ends_the_game() {
    for d in [Direction::Up, Direction::Down, Direction::Right] {
        let mut g = Game::new(10, 10);
        let before = body(&g);
        g.key_pressed(Some(d));
        assert!(g.is_game_over() || body(&g) != before);
        assert_eq!(head(&g), Game::new(10, 10).snake().next_head(Some(d)));
    }
    let mut g = Game::new(10, 10);
    g.load_map("\n\n     #").unwrap();
    g.key_pressed(Some(Direction::Right));
    assert!(g.is_game_over());
}

#[test]
fn running_into_a_wall_ends_the_game_without_moving() {
    let mut g = Game::new(10, 10);
    g.load_map("\n\n     #").unwrap();
    assert_eq!(g.blocks().clone(), vec![b(5, 2)]);
    g.key_pressed(Some(Direction::Right));
    assert!(g.is_game_over());
    assert_eq!(body(&g), vec![b(4, 2), b(3, 2), b(2, 2)]);
}

#[test]
fn running_into_itself_ends_the_game() {
    let mut g = Game::new(12, 12);
    grown_to_five(&mut g);
    g.key_pressed(Some(Direction::Up));
    g.key_pressed(Some(Direction::Left));
    assert!(!g.is_game_over());
    assert_eq!(body(&g), vec![b(5, 1), b(6, 1), b(6, 2), b(5, 2), b(4, 2)]);
    g.key_pressed(Some(Direction::Down));
    assert!(g.is_game_over());
    assert_eq!(body(&g), vec![b(5, 1), b(6, 1), b(6, 2), b(5, 2), b(4, 2)]);
}

#[test]
fn moving_onto_the_vacated_tail_is_allowed() {
    let mut g = Game::new(12, 12);
    assert!(g.place_food(5, 2));
    g.key_pressed(Some(Direction::Right));
    g.key_pressed(Some(Direction::Up));
    g.key_pressed(Some(Direction::Left));
    assert_eq!(body(&g), vec![b(4, 1), b(5, 1), b(5, 2), b(4, 2)]);
    g.key_pressed(Some(Direction::Down));
    assert!(!g.is_game_over());
    assert_eq!(body(&g), vec![b(4, 2), b(4, 1), b(5, 1), b(5, 2)]);
}

#[test]
fn keys_are_ignored_while_the_game_is_over() {
    let mut g = Game::new(12, 12);
    grown_to_five(&mut g);
    g.key_pressed(Some(Direction::Up));
    g.key_pressed(Some(Direction::Left));
    g.key_pressed(Some(Direction::Down));
    assert!(g.is_game_over());
    let before = body(&g);
    g.key_pressed(Some(Direction::Left));
    assert_eq!(body(&g), before);
}

#[test]
fn eating_grows_by_one_and_new_food_lands_on_a_free_cell() {
    let mut g = Game::new(10, 10);
    g.load_map("\n     #\n\n     #").unwrap();
    assert!(g.place_food(5, 2));
    assert_eq!(g.food(), Some((5, 2)));
    g.key_pressed(Some(Direction::Right));
    assert_eq!(body(&g), vec![b(5, 2), b(4, 2), b(3, 2), b(2, 2)]);
    assert_eq!(g.food(), None);
    g.update(1);
    let (fx, fy) = g.food().unwrap();
    assert!(1 <= fx && fx <= 8 && 1 <= fy && fy <= 8);
    assert!(!g.snake().occupies(fx, fy));
    assert!(!g.blocks().contains(&b(fx, fy)));
}

#[test]
fn food_is_placed_on_every_free_cell_of_a_crowded_board() {
    // interior of a 5 by 3 board is (1, 1), (2, 1), (3, 1)
    let mut g = Game::new(5, 3);
    g.load_map("     \n # # ").unwrap();
    assert!(!g.place_food(1, 1));
    assert!(!g.place_food(0, 0));
    assert!(g.place_food(2, 1));
    let mut g = Game::new(5, 3);
    g.load_map("     \n # # ").unwrap();
    g.update(1);
    assert_eq!(g.food(), Some((2, 1)));
}

#[test]
fn no_food_when_no_cell_is_free() {
    let mut g = Game::new(5, 3);
    g.load_map("     \n ### ").unwrap();
    g.update(1);
    assert_eq!(g.food(), None);
    assert!(!g.is_game_over());
}

#[test]
fn food_is_never_placed_on_the_snake() {
    // walls and the snake cover the interior of a 7 by 5 board but (5, 3)
    let mut g = Game::new(7, 5);
    g.load_map("\n #####\n #   #\n #### ").unwrap();
    assert!(!g.place_food(3, 2));
    assert!(!g.place_food(2, 2));
    g.update(1);
    assert_eq!(g.food(), Some((5, 3)));
}

#[test]
fn game_over_freezes_until_the_restart_delay_passes() {
    let mut g = Game::new(10, 10);
    g.load_map("\n\n     #\n#").unwrap();
    g.key_pressed(Some(Direction::Right));
    assert!(g.is_game_over());
    let frozen = body(&g);
    for _ in 0..4 {
        g.update(250_000);
        assert!(g.is_game_over());
        assert_eq!(body(&g), frozen);
    }
    assert_eq!(g.waiting_time(), RESTART_TIME);
    g.update(1);
    assert!(!g.is_game_over());
    assert_eq!(body(&g), vec![b(4, 2), b(3, 2), b(2, 2)]);
    assert_eq!(g.snake().head_direction(), Direction::Right);
    assert_eq!(g.food(), None);
    assert_eq!(g.waiting_time(), 0);
    assert_eq!(g.blocks().len(), 2);
}

#[test]
fn one_step_once_the_moving_period_is_exceeded() {
    let mut g = Game::new(10, 10);
    for _ in 0..4 {
        g.update(50_000);
        assert_eq!(head(&g), (4, 2));
    }
    // four updates of 50 ms add up to the period itself, which is not yet past it
    assert_eq!(g.waiting_time(), MOVING_PERIOD);
    g.update(50_000);
    assert_eq!(head(&g), (5, 2));
    assert_eq!(g.waiting_time(), 0);
    for _ in 0..4 {
        g.update(50_000);
    }
    assert_eq!(head(&g), (5, 2));
    g.update(1);
    assert_eq!(head(&g), (6, 2));
}

#[test]
fn update_places_food_right_away() {
    let mut g = Game::new(10, 10);
    g.update(1);
    let (fx, fy) = g.food().unwrap();
    assert!(1 <= fx && fx <= 8 && 1 <= fy && fy <= 8);
    assert!(!g.snake().occupies(fx, fy));
    assert_eq!(head(&g), (4, 2));
}

#[test]
fn draw_lists_snake_food_walls_and_cover() {
    let mut g = Game::new(10, 10);
    g.load_map("#\n\n     #").unwrap();
    assert!(g.place_food(7, 7));
    assert_eq!(
        g.draw(),
        vec![
            DrawItem::SnakeCell(b(4, 2)),
            DrawItem::SnakeCell(b(3, 2)),
            DrawItem::SnakeCell(b(2, 2)),
            DrawItem::FoodCell(b(7, 7)),
            DrawItem::WallCell(b(0, 0)),
            DrawItem::WallCell(b(5, 2)),
        ]
    );
    g.key_pressed(Some(Direction::Right));
    assert!(g.is_game_over());
    let items = g.draw();
    assert_eq!(items.last(), Some(&DrawItem::Overlay { width: 10, height: 10 }));
    assert_eq!(items.len(), 7);
}

#[test]
fn load_map_sets_walls_and_food() {
    let mut g = Game::new(10, 10);
    assert_eq!(g.load_map("# #\n @\n"), Ok(()));
    assert_eq!(g.blocks().clone(), vec![b(0, 0), b(2, 0)]);
    assert_eq!(g.food(), Some((1, 1)));
    // loading again adds no second copy of a wall
    assert_eq!(g.load_map("#  #"), Ok(()));
    assert_eq!(g.blocks().clone(), vec![b(0, 0), b(2, 0), b(3, 0)]);
    assert_eq!(g.food(), Some((1, 1)));
}

#[test]
fn load_map_with_an_unexpected_symbol_changes_nothing() {
    let mut g = Game::new(10, 10);
    assert_eq!(
        g.load_map("# #\n x @"),
        Err(MapError::UnexpectedSymbol { x: 1, y: 1, symbol: 'x' })
    );
    assert!(g.blocks().is_empty());
    assert_eq!(g.food(), None);
}
