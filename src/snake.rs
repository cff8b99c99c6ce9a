use std::collections::VecDeque;
use vstd::prelude::*;

verus! {

/// One of the four headings on the grid.
#[derive(Debug, Clone, Copy, PartialEq, Eq, Structural)]
pub enum Direction {
    Up,
    Down,
    Left,
    Right,
}

impl Direction {
    pub open spec fn spec_opposite(self) -> Direction {
        match self {
            Direction::Up => Direction::Down,
            Direction::Down => Direction::Up,
            Direction::Left => Direction::Right,
            Direction::Right => Direction::Left,
        }
    }

    /// The heading that points the other way.
    pub fn opposite(&self) -> (r: Direction)
        ensures
            r == self.spec_opposite(),
    {
        match *self {
            Direction::Up => Direction::Down,
            Direction::Down => Direction::Up,
            Direction::Left => Direction::Right,
            Direction::Right => Direction::Left,
        }
    }
}

/// Turning around twice gives back the heading one started with.
pub proof fn lemma_opposite_involutive(d: Direction)
    ensures
        d.spec_opposite().spec_opposite() == d,
        d.spec_opposite() != d,
{
}

/// A grid cell.
#[derive(Debug, Clone, Copy, PartialEq, Eq, Hash, Structural)]
pub struct Block {
    pub x: i32,
    pub y: i32,
}

/// A cell lies on the board `0..=max_x` by `0..=max_y`.
pub open spec fn in_grid(b: Block, max_x: i32, max_y: i32) -> bool {
    0 <= b.x <= max_x && 0 <= b.y <= max_y
}

/// The cell one step from `p` towards `d`, entering again from the far edge
/// when it leaves the board.
pub open spec fn wrap_step(p: Block, d: Direction, max_x: i32, max_y: i32) -> Block {
    match d {
        Direction::Up => Block { x: p.x, y: if p.y == 0 { max_y } else { (p.y - 1) as i32 } },
        Direction::Down => Block { x: p.x, y: if p.y == max_y { 0 } else { (p.y + 1) as i32 } },
        Direction::Left => Block { x: if p.x == 0 { max_x } else { (p.x - 1) as i32 }, y: p.y },
        Direction::Right => Block { x: if p.x == max_x { 0 } else { (p.x + 1) as i32 }, y: p.y },
    }
}

/// Leaving the board through any edge enters it again at the opposite edge.
pub proof fn lemma_wrap_around(p: Block, max_x: i32, max_y: i32)
    requires
        in_grid(p, max_x, max_y),
    ensures
        p.x == max_x ==> wrap_step(p, Direction::Right, max_x, max_y) == (Block { x: 0, y: p.y }),
        p.x == 0 ==> wrap_step(p, Direction::Left, max_x, max_y) == (Block { x: max_x, y: p.y }),
        p.y == max_y ==> wrap_step(p, Direction::Down, max_x, max_y) == (Block { x: p.x, y: 0 }),
        p.y == 0 ==> wrap_step(p, Direction::Up, max_x, max_y) == (Block { x: p.x, y: max_y }),
        forall|d: Direction| in_grid(#[trigger] wrap_step(p, d, max_x, max_y), max_x, max_y),
{
}

/// The abstract state of a snake.
pub ghost struct SnakeView {
    pub direction: Direction,
    /// Head first, tail last.
    pub body: Seq<Block>,
    /// The segment dropped by the latest step, if any.
    pub tail: Option<Block>,
    pub max_x: i32,
    pub max_y: i32,
}

impl SnakeView {
    pub open spec fn wf(self) -> bool {
        &&& self.body.len() >= 1
        &&& forall|i: int| 0 <= i < self.body.len() ==> in_grid(#[trigger] self.body[i], self.max_x, self.max_y)
        &&& self.tail matches Some(t) ==> in_grid(t, self.max_x, self.max_y)
    }

    pub open spec fn head(self) -> Block {
        self.body[0]
    }

    /// The heading a step towards `dir` takes: `dir` itself, or the current one.
    pub open spec fn heading(self, dir: Option<Direction>) -> Direction {
        match dir {
            Some(d) => d,
            None => self.direction,
        }
    }

    pub open spec fn next_head(self, dir: Option<Direction>) -> Block {
        wrap_step(self.head(), self.heading(dir), self.max_x, self.max_y)
    }

    /// `p` is a segment other than the last one.
    pub open spec fn overlaps_tail(self, p: Block) -> bool {
        exists|i: int| 0 <= i < self.body.len() - 1 && self.body[i] == p
    }

    /// The snake after one step towards `dir`, without growing.
    pub open spec fn moved(self, dir: Option<Direction>) -> SnakeView {
        SnakeView {
            direction: self.heading(dir),
            body: seq![self.next_head(dir)] + self.body.drop_last(),
            tail: Some(self.body.last()),
            ..self
        }
    }

    /// The snake with its last dropped segment put back at the end.
    pub open spec fn grown(self) -> SnakeView {
        SnakeView { body: self.body.push(self.tail->0), ..self }
    }

    /// A fresh three-segment snake with its tail at `(x, y)`, heading right.
    pub open spec fn spawn(x: i32, y: i32, max_x: i32, max_y: i32) -> SnakeView {
        SnakeView {
            direction: Direction::Right,
            body: seq![
                Block { x: (x + 2) as i32, y },
                Block { x: (x + 1) as i32, y },
                Block { x, y },
            ],
            tail: None,
            max_x,
            max_y,
        }
    }

    /// A fresh snake lies on its board when its three cells do.
    pub proof fn lemma_spawn_wf(x: i32, y: i32, max_x: i32, max_y: i32)
        requires
            0 <= x,
            x + 2 <= max_x,
            0 <= y <= max_y,
        ensures
            SnakeView::spawn(x, y, max_x, max_y).wf(),
    {
        let s = SnakeView::spawn(x, y, max_x, max_y);
        assert forall|i: int| 0 <= i < s.body.len() implies in_grid(#[trigger] s.body[i], max_x, max_y) by {}
    }
}

/// A step onto the cell that the tail leaves is no collision, unless that
/// cell is held by another segment as well.
pub proof fn lemma_vacated_tail_is_free(s: SnakeView)
    requires
        s.wf(),
        s.body.len() >= 2,
    ensures
        s.overlaps_tail(s.body.last()) == s.body.drop_last().contains(s.body.last()),
        !s.body.drop_last().contains(s.body.last()) ==> !s.overlaps_tail(s.body.last()),
{
    let last = s.body.last();
    if s.overlaps_tail(last) {
        let i = choose|i: int| 0 <= i < s.body.len() - 1 && s.body[i] == last;
        assert(s.body.drop_last()[i] == last);
    }
    if s.body.drop_last().contains(last) {
        let i = choose|i: int| 0 <= i < s.body.drop_last().len() && s.body.drop_last()[i] == last;
        assert(s.body[i] == last);
    }
}

/// Stepping keeps the snake on the board and its length unchanged; growing
/// adds exactly one segment.
pub proof fn lemma_step_and_grow(s: SnakeView, dir: Option<Direction>)
    requires
        s.wf(),
    ensures
        s.moved(dir).wf(),
        s.moved(dir).body.len() == s.body.len(),
        s.moved(dir).head() == s.next_head(dir),
        s.moved(dir).grown().wf(),
        s.moved(dir).grown().body.len() == s.body.len() + 1,
        s.moved(dir).grown().head() == s.next_head(dir),
{
    let m = s.moved(dir);
    assert forall|i: int| 0 <= i < m.body.len() implies in_grid(#[trigger] m.body[i], m.max_x, m.max_y) by {
        if i > 0 {
            assert(m.body[i] == s.body[i - 1]);
        }
    }
    let g = m.grown();
    assert forall|i: int| 0 <= i < g.body.len() implies in_grid(#[trigger] g.body[i], g.max_x, g.max_y) by {
        if i < m.body.len() {
            assert(g.body[i] == m.body[i]);
        }
    }
}

/// A snake on a wrap-around board.
pub struct Snake {
    direction: Direction,
    body: VecDeque<Block>,
    tail: Option<Block>,
    max_x: i32,
    max_y: i32,
}

impl View for Snake {
    type V = SnakeView;

    closed spec fn view(&self) -> SnakeView {
        SnakeView {
            direction: self.direction,
            body: self.body@,
            tail: self.tail,
            max_x: self.max_x,
            max_y: self.max_y,
        }
    }
}

impl Snake {
    /// A snake of three segments from `(x, y)` to its head at `(x + 2, y)`,
    /// heading right, on the board `0..=max_x` by `0..=max_y`.
    pub fn new(x: i32, y: i32, max_x: i32, max_y: i32) -> (r: Snake)
        requires
            0 <= x,
            x + 2 <= max_x,
            0 <= y <= max_y,
        ensures
            r@ == SnakeView::spawn(x, y, max_x, max_y),
            r@.wf(),
    {
        proof {
            SnakeView::lemma_spawn_wf(x, y, max_x, max_y);
        }
        let mut body: VecDeque<Block> = VecDeque::new();
        body.push_back(Block { x: x + 2, y });
        body.push_back(Block { x: x + 1, y });
        body.push_back(Block { x: x, y });
        let r = Snake { direction: Direction::Right, body, tail: None, max_x, max_y };
        assert(r@.body =~= SnakeView::spawn(x, y, max_x, max_y).body);
        r
    }

    /// The cells to paint for the snake, head first.
    pub fn draw(&self) -> (r: Vec<Block>)
        ensures
            r@ == self@.body,
    {
        let mut r: Vec<Block> = Vec::new();
        let n = self.body.len();
        for i in 0..n
            invariant
                n == self@.body.len(),
                r@ == self@.body.take(i as int),
        {
            r.push(self.body[i]);
            assert(r@ =~= self@.body.take(i + 1));
        }
        assert(r@ =~= self@.body);
        r
    }

    /// The number of segments.
    pub fn len(&self) -> (r: usize)
        ensures
            r == self@.body.len(),
    {
        self.body.len()
    }

    /// The segment dropped by the latest step, if any.
    pub fn tail(&self) -> (r: Option<Block>)
        ensures
            r == self@.tail,
    {
        self.tail
    }

    pub fn head_position(&self) -> (r: (i32, i32))
        requires
            self@.wf(),
        ensures
            r == (self@.head().x, self@.head().y),
    {
        let head_block = self.body[0];
        (head_block.x, head_block.y)
    }

    /// Takes one step towards `dir`, or along the current heading when
    /// `dir` is `None`; the last segment is dropped and remembered.
    pub fn move_forward(&mut self, dir: Option<Direction>)
        requires
            old(self)@.wf(),
        ensures
            final(self)@ == old(self)@.moved(dir),
            final(self)@.wf(),
    {
        proof {
            lemma_step_and_grow(self@, dir);
        }
        let (x, y) = self.next_head(dir);
        if let Some(d) = dir {
            self.direction = d;
        }
        let new_block = Block { x, y };
        self.body.push_front(new_block);
        let removed_block = self.body.pop_back();
        self.tail = removed_block;
        assert(self@.body =~= old(self)@.moved(dir).body);
    }

    pub fn head_direction(&self) -> (r: Direction)
        ensures
            r == self@.direction,
    {
        self.direction
    }

    /// Where the head would go on a step towards `dir` (or along the
    /// current heading), with wrap-around.
    pub fn next_head(&self, dir: Option<Direction>) -> (r: (i32, i32))
        requires
            self@.wf(),
        ensures
            r == (self@.next_head(dir).x, self@.next_head(dir).y),
    {
        let (head_x, head_y) = self.head_position();
        let mut moving_dir = self.direction;
        if let Some(d) = dir {
            moving_dir = d;
        }
        match moving_dir {
            Direction::Up => (head_x, if head_y == 0 { self.max_y } else { head_y - 1 }),
            Direction::Down => (head_x, if head_y == self.max_y { 0 } else { head_y + 1 }),
            Direction::Left => (if head_x == 0 { self.max_x } else { head_x - 1 }, head_y),
            Direction::Right => (if head_x == self.max_x { 0 } else { head_x + 1 }, head_y),
        }
    }

    /// Appends the segment dropped by the latest step again. A second call
    /// without a step in between appends the same cell once more.
    pub fn restore_tail(&mut self)
        requires
            old(self)@.wf(),
            old(self)@.tail is Some,
        ensures
            final(self)@ == old(self)@.grown(),
            final(self)@.wf(),
    {
        let blk = self.tail.unwrap();
        self.body.push_back(blk);
        assert forall|i: int| 0 <= i < self@.body.len() implies in_grid(
            #[trigger] self@.body[i],
            self@.max_x,
            self@.max_y,
        ) by {
            if i < old(self)@.body.len() {
                assert(self@.body[i] == old(self)@.body[i]);
            }
        }
    }

    /// Whether `(x, y)` is held by any segment.
    pub fn occupies(&self, x: i32, y: i32) -> (r: bool)
        ensures
            r == self@.body.contains(Block { x, y }),
    {
        let n = self.body.len();
        for i in 0..n
            invariant
                n == self@.body.len(),
                forall|j: int| 0 <= j < i ==> self@.body[j] != (Block { x, y }),
        {
            let b = self.body[i];
            if b.x == x && b.y == y {
                return true;
            }
        }
        false
    }

    /// Whether `(x, y)` is held by a segment other than the last one, which
    /// moves away on the coming step.
    pub fn overlap_tail(&self, x: i32, y: i32) -> (r: bool)
        requires
            self@.wf(),
        ensures
            r == self@.overlaps_tail(Block { x, y }),
    {
        let n = self.body.len();
        let mut i: usize = 0;
        while i + 1 < n
            invariant
                n == self@.body.len(),
                n >= 1,
                i < n,
                forall|j: int| 0 <= j < i ==> self@.body[j] != (Block { x, y }),
            decreases n - i,
        {
            let b = self.body[i];
            if b.x == x && b.y == y {
                return true;
            }
            i += 1;
        }
        false
    }
}

} // verus!
