use crate::map::{error_at, first_bad, map_food, map_wall, parse_map, MapError};
use crate::snake::{lemma_step_and_grow, Block, Direction, Snake, SnakeView};
use rand::rngs::ThreadRng;
use rand::Rng;
use vstd::prelude::*;

verus! {

/// Microseconds that pass between two steps of the snake.
pub const MOVING_PERIOD: u64 = 200_000;

/// Microseconds from the end of a game to the start of the next one.
pub const RESTART_TIME: u64 = 1_000_000;

/// Random draws for a food cell before the free cells are searched in order.
pub const FOOD_DRAWS: u32 = 64;

/// The thread-local random generator of rand, carried through opaquely.
#[verifier::external_type_specification]
#[verifier::external_body]
pub struct ExThreadRng(ThreadRng);

/// Relies on rand::thread_rng (rand 0.7): a handle to the thread's generator;
/// nothing is promised of what it will draw.
pub assume_specification[ rand::thread_rng ]() -> ThreadRng;

/// Relies on rand::Rng::gen_range (rand 0.7): a value drawn from `low..high`;
/// it panics when `low >= high`.
#[verifier::external_body]
fn random_in_range(rng: &mut ThreadRng, low: i32, high: i32) -> (r: i32)
    requires
        low < high,
    ensures
        low <= r < high,
{
    rng.gen_range(low, high)
}

/// One thing to paint, in grid cells.
#[derive(Debug, Clone, Copy, PartialEq, Eq, Structural)]
pub enum DrawItem {
    SnakeCell(Block),
    FoodCell(Block),
    WallCell(Block),
    /// A translucent cover over the whole board, shown while a game is over.
    Overlay { width: i32, height: i32 },
}

/// The abstract state of a game.
pub ghost struct GameView {
    pub snake: SnakeView,
    /// The walls, each cell once.
    pub blocks: Seq<Block>,
    pub food_exists: bool,
    pub food_x: i32,
    pub food_y: i32,
    pub width: i32,
    pub height: i32,
    pub game_over: bool,
    /// Microseconds since the latest step, or since the game ended.
    pub waiting_time: u64,
}

impl GameView {
    pub open spec fn wf(self) -> bool {
        &&& self.snake.wf()
        &&& 5 <= self.width
        &&& 3 <= self.height
        &&& self.snake.max_x == self.width - 1
        &&& self.snake.max_y == self.height - 1
        &&& self.blocks.no_duplicates()
    }

    pub open spec fn food(self) -> Block {
        Block { x: self.food_x, y: self.food_y }
    }

    /// A step towards `dir` would run into the snake itself or into a wall.
    pub open spec fn blocked(self, dir: Option<Direction>) -> bool {
        let p = self.snake.next_head(dir);
        self.snake.overlaps_tail(p) || self.blocks.contains(p)
    }

    /// One step towards `dir`: the game ends if the way is blocked; else the
    /// snake moves, and grows if its head lands on the food, which is eaten.
    pub open spec fn after_step(self, dir: Option<Direction>) -> GameView {
        if self.blocked(dir) {
            GameView { game_over: true, waiting_time: 0, ..self }
        } else {
            let m = self.snake.moved(dir);
            if self.food_exists && m.head() == self.food() {
                GameView { snake: m.grown(), food_exists: false, waiting_time: 0, ..self }
            } else {
                GameView { snake: m, waiting_time: 0, ..self }
            }
        }
    }

    /// A key press: one with a direction that does not reverse the snake
    /// makes a step at once while the game runs; any other is ignored.
    pub open spec fn after_key(self, key: Option<Direction>) -> GameView {
        if !self.game_over && key is Some && key->0 != self.snake.direction.spec_opposite() {
            self.after_step(key)
        } else {
            self
        }
    }

    /// A new game on the same board with the same walls.
    pub open spec fn restarted(self) -> GameView {
        GameView {
            snake: SnakeView::spawn(2, 2, (self.width - 1) as i32, (self.height - 1) as i32),
            waiting_time: 0,
            food_exists: false,
            game_over: false,
            ..self
        }
    }

    /// `b` is off the border ring and held by neither the snake nor a wall.
    pub open spec fn free_for_food(self, b: Block) -> bool {
        &&& 1 <= b.x <= self.width - 2
        &&& 1 <= b.y <= self.height - 2
        &&& !self.snake.body.contains(b)
        &&& !self.blocks.contains(b)
    }

    pub open spec fn has_free_cell(self) -> bool {
        exists|b: Block| #[trigger] self.free_for_food(b)
    }

    /// An update of `delta` microseconds while the game is over.
    pub open spec fn game_over_tick(self, delta: u64) -> GameView {
        let t = self.waiting_time.saturating_add(delta);
        if t > RESTART_TIME {
            self.restarted()
        } else {
            GameView { waiting_time: t, ..self }
        }
    }

    /// What `draw` paints: the snake head first, the food, the walls and,
    /// once the game is over, the cover.
    pub open spec fn draw_items(self) -> Seq<DrawItem> {
        self.snake.body.map_values(|b: Block| DrawItem::SnakeCell(b)) + (if self.food_exists {
            seq![DrawItem::FoodCell(self.food())]
        } else {
            Seq::empty()
        }) + self.blocks.map_values(|b: Block| DrawItem::WallCell(b)) + (if self.game_over {
            seq![DrawItem::Overlay { width: self.width, height: self.height }]
        } else {
            Seq::empty()
        })
    }
}

/// The sum of a run of time steps.
pub open spec fn total(ds: Seq<u64>) -> int
    decreases ds.len(),
{
    if ds.len() == 0 {
        0
    } else {
        total(ds.drop_last()) + ds.last()
    }
}

/// The state after updates of `ds` microseconds, one after another, from a
/// game that is over.
pub open spec fn run_game_over(g: GameView, ds: Seq<u64>) -> GameView
    decreases ds.len(),
{
    if ds.len() == 0 {
        g
    } else {
        run_game_over(g, ds.drop_last()).game_over_tick(ds.last())
    }
}

/// While a game is over, updates that add up to at most the restart delay
/// change nothing but the clock.
pub proof fn lemma_game_over_freezes(g: GameView, ds: Seq<u64>)
    requires
        g.wf(),
        g.game_over,
        g.waiting_time + total(ds) <= RESTART_TIME,
    ensures
        run_game_over(g, ds) == (GameView { waiting_time: (g.waiting_time + total(ds)) as u64, ..g }),
    decreases ds.len(),
{
    lemma_total_nonneg(ds);
    if ds.len() > 0 {
        lemma_total_nonneg(ds.drop_last());
        lemma_game_over_freezes(g, ds.drop_last());
    }
}

proof fn lemma_total_nonneg(ds: Seq<u64>)
    ensures
        total(ds) >= 0,
    decreases ds.len(),
{
    if ds.len() > 0 {
        lemma_total_nonneg(ds.drop_last());
    }
}

/// The update that takes the time since the end of a game past the restart
/// delay starts a new game with the snake at its spawn.
pub proof fn lemma_game_over_restarts(g: GameView, ds: Seq<u64>)
    requires
        g.wf(),
        g.game_over,
        ds.len() >= 1,
        g.waiting_time + total(ds.drop_last()) <= RESTART_TIME,
        g.waiting_time + total(ds) > RESTART_TIME,
    ensures
        run_game_over(g, ds) == g.restarted(),
        run_game_over(g, ds).snake == SnakeView::spawn(2, 2, (g.width - 1) as i32, (g.height - 1) as i32),
        !run_game_over(g, ds).game_over,
        run_game_over(g, ds).wf(),
{
    lemma_game_over_freezes(g, ds.drop_last());
    SnakeView::lemma_spawn_wf(2, 2, (g.width - 1) as i32, (g.height - 1) as i32);
}

/// A key with a direction that does not reverse the snake, pressed while the
/// game runs, either moves the snake at once or ends the game.
pub proof fn lemma_key_moves_or_ends(g: GameView, d: Direction)
    requires
        g.wf(),
        !g.game_over,
        d != g.snake.direction.spec_opposite(),
    ensures
        g.after_key(Some(d)).game_over || (g.after_key(Some(d)).snake.head() == g.snake.next_head(
            Some(d),
        ) && g.after_key(Some(d)).snake.direction == d),
        g.after_key(Some(d)) != g,
{
    lemma_step_and_grow(g.snake, Some(d));
    assert(g.snake.next_head(Some(d)) != g.snake.head());
}

/// Eating adds exactly one segment and uses up the food.
pub proof fn lemma_eating_grows(g: GameView, dir: Option<Direction>)
    requires
        g.wf(),
        !g.blocked(dir),
        g.food_exists,
        g.snake.next_head(dir) == g.food(),
    ensures
        g.after_step(dir).snake.body.len() == g.snake.body.len() + 1,
        !g.after_step(dir).food_exists,
        g.after_step(dir).wf(),
{
    lemma_step_and_grow(g.snake, dir);
}

proof fn lemma_step_wf(g: GameView, dir: Option<Direction>)
    requires
        g.wf(),
    ensures
        g.after_step(dir).wf(),
{
    lemma_step_and_grow(g.snake, dir);
}

/// A game of Snake on a wrap-around board with walls.
pub struct Game {
    snake: Snake,
    blocks: Vec<Block>,
    food_exists: bool,
    food_x: i32,
    food_y: i32,
    width: i32,
    height: i32,
    game_over: bool,
    waiting_time: u64,
}

impl View for Game {
    type V = GameView;

    closed spec fn view(&self) -> GameView {
        GameView {
            snake: self.snake@,
            blocks: self.blocks@,
            food_exists: self.food_exists,
            food_x: self.food_x,
            food_y: self.food_y,
            width: self.width,
            height: self.height,
            game_over: self.game_over,
            waiting_time: self.waiting_time,
        }
    }
}

impl Game {
    /// A game on a board of `width` by `height` cells with no walls and no
    /// food, the snake spawned with its tail at `(2, 2)`.
    pub fn new(width: i32, height: i32) -> (r: Game)
        requires
            5 <= width,
            3 <= height,
        ensures
            r@.wf(),
            r@ == (GameView {
                snake: SnakeView::spawn(2, 2, (width - 1) as i32, (height - 1) as i32),
                blocks: Seq::empty(),
                food_exists: false,
                food_x: 0,
                food_y: 0,
                width,
                height,
                game_over: false,
                waiting_time: 0,
            }),
    {
        Game {
            snake: Snake::new(2, 2, width - 1, height - 1),
            blocks: Vec::new(),
            waiting_time: 0,
            food_exists: false,
            food_x: 0,
            food_y: 0,
            width,
            height,
            game_over: false,
        }
    }

    /// Handles a key press; `None` stands for a key without a direction.
    pub fn key_pressed(&mut self, key: Option<Direction>)
        requires
            old(self)@.wf(),
        ensures
            final(self)@ == old(self)@.after_key(key),
            final(self)@.wf(),
    {
        if self.game_over {
            return;
        }
        match key {
            Some(d) => {
                if d == self.snake.head_direction().opposite() {
                    return;
                }
            },
            None => return,
        }
        self.update_snake(key);
    }

    /// The things to paint, in order: the snake head first, the food, the
    /// walls, and the cover once the game is over.
    pub fn draw(&self) -> (r: Vec<DrawItem>)
        requires
            self@.wf(),
        ensures
            r@ == self@.draw_items(),
    {
        let cells = self.snake.draw();
        let mut r: Vec<DrawItem> = Vec::new();
        for i in 0..cells.len()
            invariant
                cells@ == self@.snake.body,
                r@ == self@.snake.body.take(i as int).map_values(|b: Block| DrawItem::SnakeCell(b)),
        {
            r.push(DrawItem::SnakeCell(cells[i]));
            assert(r@ =~= self@.snake.body.take(i + 1).map_values(|b: Block| DrawItem::SnakeCell(b)));
        }
        assert(self@.snake.body.take(cells.len() as int) =~= self@.snake.body);
        let ghost with_snake = r@;
        if self.food_exists {
            r.push(DrawItem::FoodCell(Block { x: self.food_x, y: self.food_y }));
        }
        let ghost with_food = r@;
        for i in 0..self.blocks.len()
            invariant
                r@ == with_food + self@.blocks.take(i as int).map_values(|b: Block| DrawItem::WallCell(b)),
        {
            r.push(DrawItem::WallCell(self.blocks[i]));
            assert(r@ =~= with_food + self@.blocks.take(i + 1).map_values(|b: Block| DrawItem::WallCell(b)));
        }
        assert(self@.blocks.take(self.blocks.len() as int) =~= self@.blocks);
        if self.game_over {
            r.push(DrawItem::Overlay { width: self.width, height: self.height });
        }
        assert(r@ =~= self@.draw_items());
        r
    }

    /// Advances the clock by `delta_time` microseconds. While the game is
    /// over, a new one starts once the time since its end passes the restart
    /// delay. While it runs, food is placed if there is none, and the snake
    /// steps once the time since its latest step passes the moving period.
    pub fn update(&mut self, delta_time: u64)
        requires
            old(self)@.wf(),
        ensures
            final(self)@.wf(),
            old(self)@.game_over ==> final(self)@ == old(self)@.game_over_tick(delta_time),
            !old(self)@.game_over ==> ({
                let t = old(self)@.waiting_time.saturating_add(delta_time);
                let placed = !old(self)@.food_exists && old(self)@.has_free_cell();
                let m = GameView {
                    food_exists: old(self)@.food_exists || old(self)@.has_free_cell(),
                    food_x: if placed { final(self)@.food_x } else { old(self)@.food_x },
                    food_y: if placed { final(self)@.food_y } else { old(self)@.food_y },
                    waiting_time: t,
                    ..old(self)@
                };
                &&& placed ==> old(self)@.free_for_food(m.food())
                &&& final(self)@ == if t > MOVING_PERIOD { m.after_step(None) } else { m }
            }),
    {
        self.waiting_time = self.waiting_time.saturating_add(delta_time);
        if self.game_over {
            if self.waiting_time > RESTART_TIME {
                self.restart();
            }
            return;
        }
        let ghost timed = self@;
        assert forall|b: Block| timed.free_for_food(b) == old(self)@.free_for_food(b) by {}
        assert(timed.has_free_cell() == old(self)@.has_free_cell()) by {
            if old(self)@.has_free_cell() {
                let b = choose|b: Block| old(self)@.free_for_food(b);
                assert(timed.free_for_food(b));
            }
        }
        if !self.food_exists {
            self.add_food();
        }
        let ghost fed = self@;
        if self.waiting_time > MOVING_PERIOD {
            self.update_snake(None);
        }
        assert(self@.food_x == fed.food_x && self@.food_y == fed.food_y);
    }

    fn check_eating(&mut self)
        requires
            old(self)@.wf(),
            old(self)@.snake.tail is Some,
        ensures
            final(self)@ == if old(self)@.food_exists && old(self)@.snake.head() == old(self)@.food() {
                GameView { snake: old(self)@.snake.grown(), food_exists: false, ..old(self)@ }
            } else {
                old(self)@
            },
    {
        let (head_x, head_y) = self.snake.head_position();
        if self.food_exists && self.food_x == head_x && self.food_y == head_y {
            self.food_exists = false;
            self.snake.restore_tail();
        }
    }

    fn check_if_snake_alive(&self, dir: Option<Direction>) -> (r: bool)
        requires
            self@.wf(),
        ensures
            r == !self@.blocked(dir),
    {
        let (next_x, next_y) = self.snake.next_head(dir);
        let overlap = self.snake.overlap_tail(next_x, next_y);
        let crash = self.check_in_blocks(next_x, next_y);
        !overlap && !crash
    }

    fn check_in_blocks(&self, x: i32, y: i32) -> (r: bool)
        ensures
            r == self@.blocks.contains(Block { x, y }),
    {
        let n = self.blocks.len();
        for i in 0..n
            invariant
                n == self@.blocks.len(),
                forall|j: int| 0 <= j < i ==> self@.blocks[j] != (Block { x, y }),
        {
            let c = self.blocks[i];
            if c.x == x && c.y == y {
                return true;
            }
        }
        false
    }

    /// Whether `(x, y)` is off the border ring and held by neither the
    /// snake nor a wall.
    pub fn food_cell_free(&self, x: i32, y: i32) -> (r: bool)
        requires
            self@.wf(),
        ensures
            r == self@.free_for_food(Block { x, y }),
    {
        1 <= x && x <= self.width - 2 && 1 <= y && y <= self.height - 2 && !self.snake.occupies(x, y)
            && !self.check_in_blocks(x, y)
    }

    /// Puts the food at `(x, y)` if that cell is free for it, and tells
    /// whether it did.
    pub fn place_food(&mut self, x: i32, y: i32) -> (r: bool)
        requires
            old(self)@.wf(),
        ensures
            r == old(self)@.free_for_food(Block { x, y }),
            r ==> final(self)@ == (GameView { food_exists: true, food_x: x, food_y: y, ..old(self)@ }),
            !r ==> final(self)@ == old(self)@,
    {
        if self.food_cell_free(x, y) {
            self.food_x = x;
            self.food_y = y;
            self.food_exists = true;
            true
        } else {
            false
        }
    }

    /// Puts the food on a free cell: a few random draws first, then the
    /// first free cell row by row. Where no cell is free there stays no food.
    fn add_food(&mut self)
        requires
            old(self)@.wf(),
            !old(self)@.food_exists,
        ensures
            final(self)@ == (GameView {
                food_exists: old(self)@.has_free_cell(),
                food_x: final(self)@.food_x,
                food_y: final(self)@.food_y,
                ..old(self)@
            }),
            final(self)@.food_exists ==> old(self)@.free_for_food(final(self)@.food()),
            !final(self)@.food_exists ==> final(self)@ == old(self)@,
    {
        let mut rng = rand::thread_rng();
        let mut k: u32 = 0;
        while k < FOOD_DRAWS
            invariant
                self@ == old(self)@,
                self@.wf(),
                !self@.food_exists,
            decreases FOOD_DRAWS - k,
        {
            let x = random_in_range(&mut rng, 1, self.width - 1);
            let y = random_in_range(&mut rng, 1, self.height - 1);
            if self.place_food(x, y) {
                return;
            }
            k += 1;
        }
        let mut y: i32 = 1;
        while y < self.height - 1
            invariant
                self@ == old(self)@,
                self@.wf(),
                1 <= y <= self.height - 1,
                forall|b: Block| 1 <= b.y < y ==> !#[trigger] self@.free_for_food(b),
            decreases self.height - 1 - y,
        {
            let mut x: i32 = 1;
            while x < self.width - 1
                invariant
                    self@ == old(self)@,
                    self@.wf(),
                    1 <= y < self.height - 1,
                    1 <= x <= self.width - 1,
                    forall|b: Block| 1 <= b.y < y ==> !#[trigger] self@.free_for_food(b),
                    forall|b: Block| b.y == y && 1 <= b.x < x ==> !#[trigger] self@.free_for_food(b),
                decreases self.width - 1 - x,
            {
                if self.place_food(x, y) {
                    return;
                }
                x += 1;
            }
            y += 1;
        }
        assert(!self@.has_free_cell());
    }

    fn update_snake(&mut self, dir: Option<Direction>)
        requires
            old(self)@.wf(),
        ensures
            final(self)@ == old(self)@.after_step(dir),
            final(self)@.wf(),
    {
        proof {
            lemma_step_wf(self@, dir);
            lemma_step_and_grow(self@.snake, dir);
        }
        if self.check_if_snake_alive(dir) {
            self.snake.move_forward(dir);
            self.check_eating();
        } else {
            self.game_over = true;
        }
        self.waiting_time = 0;
    }

    fn restart(&mut self)
        requires
            old(self)@.wf(),
        ensures
            final(self)@ == old(self)@.restarted(),
            final(self)@.wf(),
    {
        self.snake = Snake::new(2, 2, self.width - 1, self.height - 1);
        self.waiting_time = 0;
        self.food_exists = false;
        self.game_over = false;
    }

    /// Adds the walls and the food of the map `text` to the game (see
    /// `parse_map`). On an unexpected symbol the game is left as it was.
    pub fn load_map(&mut self, text: &str) -> (r: Result<(), MapError>)
        requires
            old(self)@.wf(),
        ensures
            final(self)@.wf(),
            match first_bad(text@, text@.len() as int, old(self)@.width, old(self)@.height) {
                Some(i) => r == Err::<(), MapError>(error_at(text@, i)) && final(self)@ == old(self)@,
                None => {
                    &&& r is Ok
                    &&& final(self)@ == (GameView {
                        blocks: final(self)@.blocks,
                        food_exists: final(self)@.food_exists,
                        food_x: final(self)@.food_x,
                        food_y: final(self)@.food_y,
                        ..old(self)@
                    })
                    &&& forall|b: Block| #[trigger]
                        final(self)@.blocks.contains(b) <==> old(self)@.blocks.contains(b) || map_wall(
                            text@,
                            old(self)@.width,
                            old(self)@.height,
                            b,
                        )
                    &&& match map_food(text@, old(self)@.width, old(self)@.height) {
                        Some(f) => final(self)@.food_exists && final(self)@.food() == f,
                        None => final(self)@.food_exists == old(self)@.food_exists
                            && final(self)@.food() == old(self)@.food(),
                    }
                },
            },
    {
        let layout = match parse_map(text, self.width, self.height) {
            Ok(m) => m,
            Err(e) => {
                return Err(e);
            },
        };
        let walls = layout.walls;
        for i in 0..walls.len()
            invariant
                self@.wf(),
                self@ == (GameView { blocks: self@.blocks, ..old(self)@ }),
                forall|b: Block| #[trigger]
                    self@.blocks.contains(b) <==> old(self)@.blocks.contains(b) || walls@.take(
                        i as int,
                    ).contains(b),
        {
            let b = walls[i];
            let ghost before = self@.blocks;
            if !self.check_in_blocks(b.x, b.y) {
                self.blocks.push(b);
                proof {
                    assert forall|j: int, k: int|
                        0 <= j < self@.blocks.len() && 0 <= k < self@.blocks.len() && j != k
                            implies self@.blocks[j] != self@.blocks[k] by {
                        if j < before.len() && k < before.len() {
                            assert(self@.blocks[j] == before[j] && self@.blocks[k] == before[k]);
                        } else if j < before.len() {
                            assert(self@.blocks[j] == before[j]);
                        } else {
                            assert(self@.blocks[k] == before[k]);
                        }
                    }
                }
            }
            let ghost upto = walls@.take(i as int);
            let ghost next = walls@.take(i + 1);
            assert(next =~= upto.push(b));
            assert forall|c: Block| #[trigger] self@.blocks.contains(c) <==> before.contains(c) || c == b by {
                if self@.blocks.contains(c) && !before.contains(c) {
                    let j = choose|j: int| 0 <= j < self@.blocks.len() && self@.blocks[j] == c;
                    if j < before.len() {
                        assert(before[j] == c);
                    }
                }
                if before.contains(c) {
                    let j = choose|j: int| 0 <= j < before.len() && before[j] == c;
                    assert(self@.blocks[j] == c);
                }
                if c == b && before.len() < self@.blocks.len() {
                    assert(self@.blocks[before.len() as int] == c);
                }
            }
            assert forall|c: Block| #[trigger] next.contains(c) <==> upto.contains(c) || c == b by {
                if next.contains(c) {
                    let j = choose|j: int| 0 <= j < next.len() && next[j] == c;
                    if j < upto.len() {
                        assert(upto[j] == c);
                    }
                }
                if upto.contains(c) {
                    let j = choose|j: int| 0 <= j < upto.len() && upto[j] == c;
                    assert(next[j] == c);
                }
                if c == b {
                    assert(next[i as int] == c);
                }
            }
        }
        assert(walls@.take(walls.len() as int) =~= walls@);
        if let Some(f) = layout.food {
            self.food_exists = true;
            self.food_x = f.x;
            self.food_y = f.y;
        }
        Ok(())
    }

    /// The snake of the game.
    pub fn snake(&self) -> (r: &Snake)
        ensures
            r@ == self@.snake,
    {
        &self.snake
    }

    /// The walls, each cell once.
    pub fn blocks(&self) -> (r: &Vec<Block>)
        ensures
            r@ == self@.blocks,
    {
        &self.blocks
    }

    /// The food cell, if there is food.
    pub fn food(&self) -> (r: Option<(i32, i32)>)
        ensures
            r == if self@.food_exists { Some((self@.food_x, self@.food_y)) } else { None },
    {
        if self.food_exists {
            Some((self.food_x, self.food_y))
        } else {
            None
        }
    }

    pub fn is_game_over(&self) -> (r: bool)
        ensures
            r == self@.game_over,
    {
        self.game_over
    }

    /// Microseconds since the latest step, or since the game ended.
    pub fn waiting_time(&self) -> (r: u64)
        ensures
            r == self@.waiting_time,
    {
        self.waiting_time
    }
}

} // verus!
