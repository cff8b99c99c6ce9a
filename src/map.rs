use crate::snake::Block;
use vstd::prelude::*;
use vstd::string::*;

verus! {

/// The number of line feeds among the first `i` characters: the row of
/// character `i`.
pub open spec fn row_of(s: Seq<char>, i: int) -> int
    decreases i,
{
    if i <= 0 {
        0
    } else {
        row_of(s, i - 1) + if s[i - 1] == '\n' { 1int } else { 0int }
    }
}

/// The index just after the last line feed before character `i`.
pub open spec fn line_start(s: Seq<char>, i: int) -> int
    decreases i,
{
    if i <= 0 {
        0
    } else if s[i - 1] == '\n' {
        i
    } else {
        line_start(s, i - 1)
    }
}

/// The column of character `i` within its line.
pub open spec fn col_of(s: Seq<char>, i: int) -> int {
    i - line_start(s, i)
}

/// Character `i` ends a line: a line feed, or a carriage return just before one.
pub open spec fn ends_line(s: Seq<char>, i: int) -> bool {
    s[i] == '\n' || (s[i] == '\r' && i + 1 < s.len() && s[i + 1] == '\n')
}

/// Character `i` stands on a board of `width` columns and `height` rows.
pub open spec fn on_board(s: Seq<char>, i: int, width: i32, height: i32) -> bool {
    &&& 0 <= i < s.len()
    &&& !ends_line(s, i)
    &&& col_of(s, i) < width
    &&& row_of(s, i) < height
}

/// The cell of character `i`.
pub open spec fn cell_of(s: Seq<char>, i: int) -> Block {
    Block { x: col_of(s, i) as i32, y: row_of(s, i) as i32 }
}

/// Character `i` is on the board and is none of wall, food or empty.
pub open spec fn is_bad_symbol(s: Seq<char>, i: int, width: i32, height: i32) -> bool {
    on_board(s, i, width, height) && s[i] != '#' && s[i] != '@' && s[i] != ' '
}

/// The first unexpected symbol among the first `n` characters.
pub open spec fn first_bad(s: Seq<char>, n: int, width: i32, height: i32) -> Option<int>
    decreases n,
{
    if n <= 0 {
        None
    } else {
        match first_bad(s, n - 1, width, height) {
            Some(i) => Some(i),
            None => if is_bad_symbol(s, n - 1, width, height) {
                Some(n - 1)
            } else {
                None
            },
        }
    }
}

/// Character `i` puts a wall at `b`.
pub open spec fn wall_at(s: Seq<char>, i: int, width: i32, height: i32, b: Block) -> bool {
    on_board(s, i, width, height) && s[i] == '#' && cell_of(s, i) == b
}

/// The map `s` has a wall at `b`.
pub open spec fn map_wall(s: Seq<char>, width: i32, height: i32, b: Block) -> bool {
    exists|i: int| #[trigger] wall_at(s, i, width, height, b)
}

/// The cell of the last food symbol among the first `n` characters.
pub open spec fn last_food(s: Seq<char>, n: int, width: i32, height: i32) -> Option<Block>
    decreases n,
{
    if n <= 0 {
        None
    } else if on_board(s, n - 1, width, height) && s[n - 1] == '@' {
        Some(cell_of(s, n - 1))
    } else {
        last_food(s, n - 1, width, height)
    }
}

/// The food cell of the map `s`: its last food symbol on the board.
pub open spec fn map_food(s: Seq<char>, width: i32, height: i32) -> Option<Block> {
    last_food(s, s.len() as int, width, height)
}

/// A symbol in a map that is none of `#`, `@` and space.
#[derive(Debug, Clone, Copy, PartialEq, Eq, Structural)]
pub enum MapError {
    UnexpectedSymbol { x: i32, y: i32, symbol: char },
}

/// The error for character `i` of `s`.
pub open spec fn error_at(s: Seq<char>, i: int) -> MapError {
    MapError::UnexpectedSymbol { x: col_of(s, i) as i32, y: row_of(s, i) as i32, symbol: s[i] }
}

/// The content of a map: its walls and its food cell.
pub struct MapLayout {
    pub walls: Vec<Block>,
    pub food: Option<Block>,
}

proof fn lemma_step_counters(s: Seq<char>, i: int)
    requires
        0 <= i < s.len(),
    ensures
        row_of(s, i + 1) == row_of(s, i) + if s[i] == '\n' { 1int } else { 0int },
        s[i] == '\n' ==> col_of(s, i + 1) == 0,
        s[i] != '\n' ==> col_of(s, i + 1) == col_of(s, i) + 1,
{
}

proof fn lemma_first_bad_stays(s: Seq<char>, i: int, n: int, width: i32, height: i32)
    requires
        0 <= i < n,
        first_bad(s, i, width, height) is None,
        is_bad_symbol(s, i, width, height),
    ensures
        first_bad(s, n, width, height) == Some(i),
    decreases n - i,
{
    if n > i + 1 {
        lemma_first_bad_stays(s, i, n - 1, width, height);
    }
}

proof fn lemma_counters_bounded(s: Seq<char>, i: int)
    requires
        0 <= i <= s.len(),
    ensures
        0 <= row_of(s, i) <= i,
        0 <= line_start(s, i) <= i,
    decreases i,
{
    if i > 0 {
        lemma_counters_bounded(s, i - 1);
    }
}

/// Reads a map: row `y` is line `y`, column `x` is character `x` of its line.
/// `#` is a wall, `@` the food (the last one counts) and a space is empty.
/// Rows from `height` on and columns from `width` on are ignored. Any other
/// symbol on the board is an error, the first one is reported.
pub fn parse_map(text: &str, width: i32, height: i32) -> (r: Result<MapLayout, MapError>)
    ensures
        match first_bad(text@, text@.len() as int, width, height) {
            Some(i) => r == Err::<MapLayout, MapError>(error_at(text@, i)),
            None => r matches Ok(m) && m.food == map_food(text@, width, height) && (forall|b: Block|
                #[trigger] m.walls@.contains(b) <==> map_wall(text@, width, height, b)),
        },
{
    let ghost s = text@;
    let n = text.unicode_len();
    let mut walls: Vec<Block> = Vec::new();
    let mut food: Option<Block> = None;
    let mut row: usize = 0;
    let mut col: usize = 0;
    let mut i: usize = 0;
    while i < n
        invariant
            s == text@,
            n == s.len(),
            i <= n,
            row == row_of(s, i as int),
            col == col_of(s, i as int),
            first_bad(s, i as int, width, height) is None,
            food == last_food(s, i as int, width, height),
            forall|b: Block| #[trigger]
                walls@.contains(b) <==> exists|j: int| 0 <= j < i && #[trigger] wall_at(s, j, width, height, b),
        decreases n - i,
    {
        proof {
            lemma_step_counters(s, i as int);
            lemma_counters_bounded(s, i as int);
        }
        let c = text.get_char(i);
        let at_break = c == '\n' || (c == '\r' && i + 1 < n && text.get_char(i + 1) == '\n');
        let on = !at_break && width > 0 && col < width as usize && height > 0 && row < height as usize;
        let ghost old_walls = walls@;
        if on {
            let b = Block { x: col as i32, y: row as i32 };
            if c == '#' {
                walls.push(b);
            } else if c == '@' {
                food = Some(b);
            } else if c != ' ' {
                proof {
                    lemma_first_bad_stays(s, i as int, n as int, width, height);
                }
                return Err(MapError::UnexpectedSymbol { x: col as i32, y: row as i32, symbol: c });
            }
        }
        assert forall|b: Block| #[trigger]
            walls@.contains(b) <==> exists|j: int| 0 <= j < i + 1 && #[trigger] wall_at(s, j, width, height, b) by {
            if walls@.contains(b) && !old_walls.contains(b) {
                let k = choose|k: int| 0 <= k < walls@.len() && walls@[k] == b;
                if k < old_walls.len() {
                    assert(old_walls[k] == walls@[k]);
                }
                assert(wall_at(s, i as int, width, height, b));
            }
            if exists|j: int| 0 <= j < i + 1 && #[trigger] wall_at(s, j, width, height, b) {
                let j = choose|j: int| 0 <= j < i + 1 && #[trigger] wall_at(s, j, width, height, b);
                if j < i {
                    assert(old_walls.contains(b));
                    if on && c == '#' {
                        assert(walls@[old_walls.len() as int] == cell_of(s, i as int));
                        assert(walls@.take(old_walls.len() as int) =~= old_walls);
                        let k = choose|k: int| 0 <= k < old_walls.len() && old_walls[k] == b;
                        assert(walls@[k] == b);
                    }
                } else {
                    assert(walls@.last() == b);
                }
            }
        }
        if c == '\n' {
            row += 1;
            col = 0;
        } else {
            col += 1;
        }
        i += 1;
    }
    assert forall|b: Block| #[trigger] walls@.contains(b) <==> map_wall(s, width, height, b) by {
        if map_wall(s, width, height, b) {
            let j = choose|j: int| #[trigger] wall_at(s, j, width, height, b);
            assert(0 <= j < i);
        }
    }
    Ok(MapLayout { walls, food })
}

} // verus!
