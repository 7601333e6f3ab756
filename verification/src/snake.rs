use vstd::prelude::*;

use crate::random::Rng;
use std::collections::VecDeque;

verus! {

/// A cell of the board: `(x, y)`, with `x` growing rightward and `y` downward.
pub type Position = (usize, usize);

#[derive(Debug, Clone, Copy, PartialEq, Eq, Structural)]
pub enum Direction {
    Top,
    Right,
    Bottom,
    Left,
}

/// The direction that undoes one step of `d`.
pub open spec fn opposite(d: Direction) -> Direction {
    match d {
        Direction::Top => Direction::Bottom,
        Direction::Right => Direction::Left,
        Direction::Bottom => Direction::Top,
        Direction::Left => Direction::Right,
    }
}

#[derive(Debug, Clone, Copy, PartialEq, Eq, Structural)]
pub enum GameError {
    /// Construction was asked for a board with a zero dimension.
    InvalidDimensions,
}

/// The single starting cell of the snake on a `width x height` board.
pub open spec fn start_head(width: usize, height: usize) -> Position {
    (if width >= 2 { (width - 2) as usize } else { 0usize }, (height / 2) as usize)
}

/// The starting food cell on a `width x height` board.
pub open spec fn start_food(width: usize, height: usize) -> Position {
    (if width >= 3 { 2usize } else { (width - 1) as usize }, (height / 2) as usize)
}

/// The cell one step from `p` in direction `d` (meaningful when that step
/// stays on the board; see `SnakeGame::can_step`).
pub open spec fn stepped(p: Position, d: Direction) -> Position {
    match d {
        Direction::Top => (p.0, (p.1 - 1) as usize),
        Direction::Right => ((p.0 + 1) as usize, p.1),
        Direction::Bottom => (p.0, (p.1 + 1) as usize),
        Direction::Left => ((p.0 - 1) as usize, p.1),
    }
}

/// Whether `a` and `b` lie on the same axis: equal or opposite.
fn same_axis(a: Direction, b: Direction) -> (r: bool)
    ensures
        r == (b == a || b == opposite(a)),
{
    match (a, b) {
        (Direction::Top, Direction::Top)
        | (Direction::Top, Direction::Bottom)
        | (Direction::Right, Direction::Right)
        | (Direction::Right, Direction::Left)
        | (Direction::Bottom, Direction::Top)
        | (Direction::Bottom, Direction::Bottom)
        | (Direction::Left, Direction::Right)
        | (Direction::Left, Direction::Left) => true,
        _ => false,
    }
}

/// Whether the body `s` occupies the cell `p`.
fn body_contains(s: &VecDeque<Position>, p: Position) -> (r: bool)
    ensures
        r == s@.contains(p),
{
    let mut i: usize = 0;
    while i < s.len()
        invariant
            i <= s@.len(),
            forall|j: int| 0 <= j < i ==> s@[j] != p,
        decreases s@.len() - i,
    {
        let q: Position = s[i];
        if q.0 == p.0 && q.1 == p.1 {
            assert(s@[i as int] == p);
            return true;
        }
        i = i + 1;
    }
    false
}

/// The simulation state of the game: board size, snake body (head first,
/// tail last), current and buffered direction, food cell, terminal flag.
#[derive(Debug)]
pub struct SnakeGame {
    pub width: usize,
    pub height: usize,
    /// Head is the first item, tail is the last item.
    pub snake: VecDeque<Position>,
    pub direction: Direction,
    /// The direction buffered for the next tick.
    pub next_direction: Direction,
    pub food: Position,
    pub finished: bool,
    /// Source of the index used to relocate the food.
    pub rng: Rng,
}

impl SnakeGame {
    /// `p` lies on the board.
    pub open spec fn in_board(self, p: Position) -> bool {
        p.0 < self.width && p.1 < self.height
    }

    /// Basic validity: positive dimensions, every tracked cell on the board.
    pub open spec fn sane(self) -> bool {
        &&& 1 <= self.width
        &&& 1 <= self.height
        &&& forall|i: int| 0 <= i < self.snake@.len() ==> self.in_board(#[trigger] self.snake@[i])
        &&& self.in_board(self.food)
    }

    /// Invariant of reachable states: while the game is running, the body is
    /// pairwise distinct and the food lies outside it.
    pub open spec fn wf(self) -> bool {
        &&& self.sane()
        &&& 1 <= self.snake@.len()
        &&& (!self.finished ==> self.snake@.no_duplicates())
        &&& (!self.finished ==> !self.snake@.contains(self.food))
    }

    /// One step from `p` in direction `d` stays on the board
    /// (assuming `p` itself lies on it).
    pub open spec fn can_step(self, p: Position, d: Direction) -> bool {
        match d {
            Direction::Top => 1 <= p.1,
            Direction::Right => p.0 + 1 < self.width,
            Direction::Bottom => p.1 + 1 < self.height,
            Direction::Left => 1 <= p.0,
        }
    }

    /// Every board cell occurs in `body`: no free cell is left for food.
    pub open spec fn full_with(self, body: Seq<Position>) -> bool {
        forall|p: Position| self.in_board(p) ==> #[trigger] body.contains(p)
    }

    /// Creates a game on a `width x height` board: a one-segment snake near
    /// the right edge, food near the left edge, both on the middle row, the
    /// snake headed left. A zero dimension is rejected.
    pub fn new(width: usize, height: usize) -> (r: Result<SnakeGame, GameError>)
        ensures
            (r is Err) <==> (width == 0 || height == 0),
            r is Err ==> r == Result::<SnakeGame, GameError>::Err(GameError::InvalidDimensions),
            r is Ok ==> ({
                let g = r->Ok_0;
                &&& g.width == width
                &&& g.height == height
                &&& g.snake@ == seq![start_head(width, height)]
                &&& g.direction == Direction::Left
                &&& g.next_direction == Direction::Left
                &&& g.food == start_food(width, height)
                &&& !g.finished
                &&& g.sane()
                &&& (g.food != start_head(width, height) ==> g.wf())
            }),
    {
        if width == 0 || height == 0 {
            return Err(GameError::InvalidDimensions);
        }
        let hx: usize = if width >= 2 { width - 2 } else { 0 };
        let hy: usize = height / 2;
        let fx: usize = if width >= 3 { 2 } else { width - 1 };
        let mut snake: VecDeque<Position> = VecDeque::new();
        snake.push_back((hx, hy));
        let seed: u64 = (width as u64 % 65521) * 65536 + (height as u64 % 65521);
        let g = SnakeGame {
            width,
            height,
            snake,
            direction: Direction::Left,
            next_direction: Direction::Left,
            food: (fx, hy),
            finished: false,
            rng: Rng::new(seed),
        };
        proof {
            assert(g.snake@ =~= seq![start_head(width, height)]);
            assert(g.snake@[0] == start_head(width, height));
            if g.food != start_head(width, height) {
                assert(g.snake@.no_duplicates());
                assert(!g.snake@.contains(g.food));
            }
        }
        Ok(g)
    }

    /// Buffers `direction` to take effect at the next tick, unless the game
    /// is over or `direction` lies on the current axis — the anti-reversal
    /// rule: the exact opposite of the current direction is never accepted,
    /// so the snake cannot be steered straight back into its own neck.
    pub fn change_direction(&mut self, direction: Direction)
        ensures
            final(self).width == old(self).width,
            final(self).height == old(self).height,
            final(self).snake == old(self).snake,
            final(self).direction == old(self).direction,
            final(self).food == old(self).food,
            final(self).finished == old(self).finished,
            final(self).rng == old(self).rng,
            (!old(self).finished && direction != old(self).direction && direction != opposite(
                old(self).direction,
            )) ==> final(self).next_direction == direction,
            (old(self).finished || direction == old(self).direction || direction == opposite(
                old(self).direction,
            )) ==> *final(self) == *old(self),
            direction == opposite(old(self).direction) ==> final(self).next_direction == old(
                self,
            ).next_direction,
            old(self).wf() ==> final(self).wf(),
    {
        if self.finished {
            return;
        }
        if !same_axis(self.direction, direction) {
            self.next_direction = direction;
        }
    }

    /// Whether `p` lies on the board.
    pub fn is_valid(&mut self, p: Position) -> (r: bool)
        ensures
            *final(self) == *old(self),
            r == old(self).in_board(p),
    {
        p.0 < self.width && p.1 < self.height
    }

    /// Advances the simulation by one step.
    ///
    /// A finished game (and, defensively, an empty snake) is left untouched.
    /// Otherwise the buffered direction takes effect and the head advances by
    /// one cell. Leaving the board or hitting the body ends the game with the
    /// state otherwise frozen. On an ordinary move the tail is dropped and the
    /// new head prepended. On reaching the food the snake grows by one, and
    /// the food moves to a cell chosen from those not covered by the grown
    /// body — unless no such cell is left, in which case the board is full and
    /// the game ends. Running states keep the invariant `wf`.
    #[verifier::loop_isolation(false)]
    pub fn tick(&mut self)
        requires
            old(self).sane(),
        ensures
            final(self).width == old(self).width,
            final(self).height == old(self).height,
            final(self).next_direction == old(self).next_direction,
            final(self).sane(),
            old(self).finished ==> *final(self) == *old(self),
            !old(self).finished && old(self).snake@.len() == 0 ==> *final(self) == *old(self),
            !old(self).finished && 0 < old(self).snake@.len() ==> ({
                let d = old(self).next_direction;
                let h = old(self).snake@[0];
                let nh = stepped(h, d);
                &&& final(self).direction == d
                &&& if !old(self).can_step(h, d) || old(self).snake@.contains(nh) {
                    // the head would leave the board or run into the body
                    &&& final(self).finished
                    &&& final(self).snake@ == old(self).snake@
                    &&& final(self).food == old(self).food
                    &&& final(self).rng == old(self).rng
                } else if nh != old(self).food {
                    // ordinary move: slide forward
                    &&& !final(self).finished
                    &&& final(self).snake@ == seq![nh] + old(self).snake@.drop_last()
                    &&& final(self).food == old(self).food
                    &&& final(self).rng == old(self).rng
                } else {
                    // the food is eaten: grow, then relocate the food
                    let grown = seq![nh] + old(self).snake@;
                    if old(self).full_with(grown) {
                        &&& final(self).finished
                        &&& final(self).snake@ == old(self).snake@
                        &&& final(self).food == old(self).food
                    } else {
                        &&& !final(self).finished
                        &&& final(self).snake@ == grown
                        &&& final(self).snake@.len() == old(self).snake@.len() + 1
                        &&& old(self).in_board(final(self).food)
                        &&& !grown.contains(final(self).food)
                    }
                }
            }),
            old(self).wf() ==> final(self).wf(),
    {
        if self.finished || self.snake.len() == 0 {
            return;
        }
        self.direction = self.next_direction;

        let head: Position = self.snake[0];
        let x: usize = head.0;
        let y: usize = head.1;
        proof {
            assert(self.in_board(self.snake@[0]));
        }
        let fits: bool = match self.direction {
            Direction::Top => 1 <= y,
            Direction::Right => x + 1 < self.width,
            Direction::Bottom => y + 1 < self.height,
            Direction::Left => 1 <= x,
        };
        if !fits {
            self.finished = true;
            return;
        }
        let new_head: Position = match self.direction {
            Direction::Top => (x, y - 1),
            Direction::Right => (x + 1, y),
            Direction::Bottom => (x, y + 1),
            Direction::Left => (x - 1, y),
        };
        if body_contains(&self.snake, new_head) {
            self.finished = true;
            return;
        }

        if !(new_head.0 == self.food.0 && new_head.1 == self.food.1) {
            // Ordinary move: drop the tail, prepend the new head.
            let ghost pre = self.snake@;
            self.snake.pop_back();
            self.snake.push_front(new_head);
            proof {
                assert(self.snake@ =~= seq![new_head] + pre.drop_last());
                if old(self).wf() {
                    Self::lemma_shift_keeps_distinct(pre, new_head);
                    assert(forall|j: int|
                        0 <= j < pre.drop_last().len() ==> pre.drop_last()[j] == pre[j]);
                    assert(!self.snake@.contains(self.food));
                }
            }
        } else {
            // The food is eaten. Collect every cell left free by the grown
            // body; the new head itself is not eligible.
            let ghost grown: Seq<Position> = seq![new_head] + self.snake@;
            proof {
                assert forall|q: Position|
                    grown.contains(q) <==> (q == new_head || self.snake@.contains(q)) by {
                    if grown.contains(q) {
                        let i = choose|i: int| 0 <= i < grown.len() && grown[i] == q;
                        if i != 0 {
                            assert(self.snake@[i - 1] == q);
                        }
                    }
                    if q == new_head {
                        assert(grown[0] == q);
                    }
                    if self.snake@.contains(q) {
                        let i = choose|i: int|
                            0 <= i < self.snake@.len() && self.snake@[i] == q;
                        assert(grown[i + 1] == q);
                    }
                }
            }
            let mut free: Vec<Position> = Vec::new();
            let mut cy: usize = 0;
            while cy < self.height
                invariant
                    cy <= self.height,
                    forall|k: int|
                        0 <= k < free@.len() ==> self.in_board(#[trigger] free@[k]) && !grown.contains(
                            free@[k],
                        ),
                    forall|p: Position|
                        self.in_board(p) && p.1 < cy && !#[trigger] grown.contains(p)
                            ==> free@.contains(p),
                decreases self.height - cy,
            {
                let mut cx: usize = 0;
                while cx < self.width
                    invariant
                        cy < self.height,
                        cx <= self.width,
                        forall|k: int|
                            0 <= k < free@.len() ==> self.in_board(#[trigger] free@[k])
                                && !grown.contains(free@[k]),
                        forall|p: Position|
                            self.in_board(p) && p.1 < cy && !#[trigger] grown.contains(p)
                                ==> free@.contains(p),
                        forall|p: Position|
                            self.in_board(p) && p.1 == cy && p.0 < cx && !#[trigger] grown.contains(
                                p,
                            ) ==> free@.contains(p),
                    decreases self.width - cx,
                {
                    let cell: Position = (cx, cy);
                    let ghost free_pre = free@;
                    let taken: bool = (cell.0 == new_head.0 && cell.1 == new_head.1)
                        || body_contains(&self.snake, cell);
                    if !taken {
                        free.push(cell);
                    }
                    proof {
                        assert forall|p: Position| free_pre.contains(p) implies free@.contains(
                            p,
                        ) by {
                            let k = choose|k: int| 0 <= k < free_pre.len() && free_pre[k] == p;
                            assert(free@[k] == p);
                        }
                        if taken {
                            assert(grown.contains(cell));
                        } else {
                            assert(free@[free@.len() - 1] == cell);
                            assert(free@.contains(cell));
                        }
                        assert forall|p: Position|
                            self.in_board(p) && p.1 == cy && p.0 < cx + 1 && !grown.contains(
                                p,
                            ) implies free@.contains(p) by {
                            if p.0 < cx {
                                assert(free_pre.contains(p));
                            } else {
                                assert(p == cell);
                            }
                        }
                    }
                    cx = cx + 1;
                }
                cy = cy + 1;
            }
            if free.len() == 0 {
                proof {
                    assert forall|p: Position| self.in_board(p) implies #[trigger] grown.contains(
                        p,
                    ) by {
                        if !grown.contains(p) {
                            assert(free@.contains(p));
                        }
                    }
                }
                self.finished = true;
                return;
            }
            let i: usize = self.rng.random_range(0, free.len());
            proof {
                assert(free@.contains(free@[i as int]));
                assert(!self.full_with(grown));
            }
            self.food = free[i];
            self.snake.push_front(new_head);
            proof {
                assert(self.snake@ =~= grown);
                if old(self).wf() {
                    Self::lemma_prepend_keeps_distinct(old(self).snake@, new_head);
                }
            }
        }
    }

    /// Prepending a fresh head to a distinct body keeps it distinct.
    proof fn lemma_prepend_keeps_distinct(body: Seq<Position>, h: Position)
        requires
            body.no_duplicates(),
            !body.contains(h),
        ensures
            (seq![h] + body).no_duplicates(),
    {
        let grown = seq![h] + body;
        assert forall|i: int, j: int|
            0 <= i < grown.len() && 0 <= j < grown.len() && i != j implies grown[i]
            != grown[j] by {
            if i == 0 {
                assert(grown[j] == body[j - 1]);
            } else if j == 0 {
                assert(grown[i] == body[i - 1]);
            } else {
                assert(grown[i] == body[i - 1] && grown[j] == body[j - 1]);
            }
        }
    }

    /// Dropping the tail and prepending a head not on the body keeps the
    /// body distinct.
    proof fn lemma_shift_keeps_distinct(body: Seq<Position>, h: Position)
        requires
            0 < body.len(),
            body.no_duplicates(),
            !body.contains(h),
        ensures
            (seq![h] + body.drop_last()).no_duplicates(),
    {
        let shifted = seq![h] + body.drop_last();
        assert forall|i: int, j: int|
            0 <= i < shifted.len() && 0 <= j < shifted.len() && i != j implies shifted[i]
            != shifted[j] by {
            if i == 0 {
                assert(shifted[j] == body[j - 1]);
            } else if j == 0 {
                assert(shifted[i] == body[i - 1]);
            } else {
                assert(shifted[i] == body[i - 1] && shifted[j] == body[j - 1]);
            }
        }
    }
}

} // verus!
