use snake_game::map::{parse_map, MapError};
use snake_game::snake::Block;

fn b(x: i32, y: i32) -> Block {
    Block { x, y }
}

#[test]
fn corners_of_a_three_by_three_map() {
    let m = parse_map("# #\n   \n# #", 3, 3).unwrap();
    assert_eq!(m.walls, vec![b(0, 0), b(2, 0), b(0, 2), b(2, 2)]);
    assert_eq!(m.food, None);
}

#[test]
fn food_symbol_sets_the_food() {
    let m = parse_map("   \n @ \n   ", 3, 3).unwrap();
    assert!(m.walls.is_empty());
    assert_eq!(m.food, Some(b(1, 1)));
}

#[test]
fn last_food_symbol_wins() {
    let m = parse_map("@  \n  @", 3, 3).unwrap();
    assert_eq!(m.food, Some(b(2, 1)));
}

#[test]
fn unexpected_symbol_is_an_error() {
    assert_eq!(
        parse_map("# #\n #x", 3, 3).err(),
        Some(MapError::UnexpectedSymbol { x: 2, y: 1, symbol: 'x' })
    );
}

#[test]
fn first_unexpected_symbol_is_reported() {
    assert_eq!(
        parse_map("a\nb", 3, 3).err(),
        Some(MapError::UnexpectedSymbol { x: 0, y: 0, symbol: 'a' })
    );
}

#[test]
fn symbols_off_the_board_are_ignored() {
    let m = parse_map("   x\n\n\nzz\n#", 3, 3).unwrap();
    assert!(m.walls.is_empty());
    let m = parse_map("#  #?\n\n  #\n", 3, 3).unwrap();
    assert_eq!(m.walls, vec![b(0, 0), b(2, 2)]);
}

#[test]
fn carriage_return_line_ends_are_accepted() {
    let m = parse_map("#\r\n #\r\n", 3, 3).unwrap();
    assert_eq!(m.walls, vec![b(0, 0), b(1, 1)]);
}

#[test]
fn lone_carriage_return_is_an_error() {
    assert_eq!(
        parse_map("#\r#", 3, 3).err(),
        Some(MapError::UnexpectedSymbol { x: 1, y: 0, symbol: '\r' })
    );
}

#[test]
fn empty_map_has_nothing() {
    let m = parse_map("", 3, 3).unwrap();
    assert!(m.walls.is_empty());
    assert_eq!(m.food, None);
}
