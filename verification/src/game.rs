//! The game: the snake, the apple, the grid they live on, and the rules of a
//! move.
use vstd::prelude::*;
use std::ops::Range;
use vstd::std_specs::vecdeque::axiom_spec_len;
use crate::errors::InvalidMove;
use crate::grid::{lemma_sub_undoes_add, Dir, Pos, SCALE};
use crate::random::{gen_range, thread_rng};
use crate::screen::{
    apply_event, apply_events, lemma_apply_events_push, lemma_grid_cell_fits, screen_fits, screen_of,
    to_screen, ScreenPos, ScreenSize, UserEvent, WindowId,
};
use crate::snake::{
    grown, lemma_grown, lemma_rotated, rotated, segs_cover, shows_window, windows_numbered, Snake, TailSeg,
};

verus! {

/// The segment of `segs` that window `i` shows.
pub open spec fn seg_of_window(segs: Seq<TailSeg>, i: int) -> int {
    choose|j: int| 0 <= j < segs.len() && #[trigger] segs[j].index == i
}

/// With windows numbered once each, the segment that window `segs[j].index`
/// shows is `segs[j]`.
pub proof fn lemma_seg_of_window(segs: Seq<TailSeg>, j: int)
    requires
        windows_numbered(segs),
        0 <= j < segs.len(),
    ensures
        shows_window(segs, segs[j].index as int),
        seg_of_window(segs, segs[j].index as int) == j,
{
    let i = segs[j].index as int;
    assert(segs[j].index == i);
    let k = seg_of_window(segs, i);
    assert(0 <= k < segs.len() && segs[k].index == i);
}

/// Two events applied in turn.
pub proof fn lemma_apply_two(screen: Map<WindowId, ScreenPos>, e1: UserEvent, e2: UserEvent)
    ensures
        apply_events(screen, seq![e1, e2]) == apply_event(apply_event(screen, e1), e2),
{
    let empty = Seq::<UserEvent>::empty();
    assert(seq![e1, e2] =~= empty.push(e1).push(e2));
    lemma_apply_events_push(screen, empty, e1);
    lemma_apply_events_push(screen, empty.push(e1), e2);
}

/// Three events applied in turn.
pub proof fn lemma_apply_three(screen: Map<WindowId, ScreenPos>, e1: UserEvent, e2: UserEvent, e3: UserEvent)
    ensures
        apply_events(screen, seq![e1, e2, e3]) == apply_event(apply_event(apply_event(screen, e1), e2), e3),
{
    let empty = Seq::<UserEvent>::empty();
    assert(seq![e1, e2, e3] =~= empty.push(e1).push(e2).push(e3));
    lemma_apply_events_push(screen, empty, e1);
    lemma_apply_events_push(screen, empty.push(e1), e2);
    lemma_apply_events_push(screen, empty.push(e1).push(e2), e3);
}

/// The column where the head starts.
pub const START_X: u32 = 4;

/// The row where the head starts.
pub const START_Y: u32 = 7;

/// The cell where the head starts.
pub open spec fn start_pos() -> Pos {
    Pos { x: START_X, y: START_Y }
}

/// Whether cell `q` comes before cell `p` when the grid is scanned column by
/// column, and each column row by row.
pub open spec fn scans_before(q: Pos, p: Pos) -> bool {
    q.x < p.x || (q.x == p.x && q.y < p.y)
}

/// One cell drawn for the apple: the ranges that its column and its row were
/// drawn from, and the cell.
pub struct Draw {
    /// The range the column was drawn from, and the column drawn.
    pub column: (u32, u32, u32),
    /// The range the row was drawn from, and the row drawn.
    pub row: (u32, u32, u32),
    pub cell: Pos,
}

/// What a game turn came to.
#[derive(Clone, Copy, Debug, PartialEq, Eq, Structural)]
pub enum Turn {
    /// The snake moved.
    Moved,
    /// The move broke the rules and the game is over; `new_high_score`
    /// tells whether the final score equals the high score.
    Over { reason: InvalidMove, new_high_score: bool },
    /// The snake ate, but no free cell was found for the apple.
    Stuck,
}

pub struct Game {
    pub snake: Snake,
    pub apple: Pos,
    pub validx: Range<u32>,
    pub validy: Range<u32>,
    pub size: ScreenSize,
}

impl Game {
    /// The number of cells of the grid.
    pub open spec fn cells(self) -> int {
        (self.validx.end - self.validx.start) * (self.validy.end - self.validy.start)
    }

    /// Whether `p` is a cell of the grid.
    pub open spec fn in_grid(self, p: Pos) -> bool {
        &&& self.validx.start <= p.x < self.validx.end
        &&& self.validy.start <= p.y < self.validy.end
    }

    /// The grid is the whole cells of the screen, counted in `usize`, and
    /// every cell in play has a screen position.
    pub open spec fn wf(self) -> bool {
        &&& self.snake.wf()
        &&& self.validx.start == 0
        &&& self.validy.start == 0
        &&& self.validx.end == self.size.width / SCALE
        &&& self.validy.end == self.size.height / SCALE
        &&& self.cells() <= usize::MAX
        &&& screen_fits(self.snake.head, self.size)
        &&& screen_fits(self.apple, self.size)
        &&& forall|j: int| 0 <= j < self.snake.tail@.len()
            ==> screen_fits(#[trigger] self.snake.tail@[j].pos, self.size)
    }

    /// The rules of the game hold: the snake is one connected piece that
    /// never overlaps itself, and the apple lies on the grid off the snake.
    pub open spec fn sound(self) -> bool {
        &&& self.snake.connected()
        &&& self.snake.no_overlap()
        &&& self.in_grid(self.apple)
        &&& !self.snake.covers(self.apple)
    }

    /// The snake and the apple are on the grid, the snake never overlaps
    /// itself, and the apple is off the snake.
    pub open spec fn on_board(self) -> bool {
        &&& self.in_grid(self.snake.head)
        &&& forall|j: int| 0 <= j < self.snake.tail@.len() ==> self.in_grid(#[trigger] self.snake.tail@[j].pos)
        &&& self.snake.no_overlap()
        &&& self.in_grid(self.apple)
        &&& !self.snake.covers(self.apple)
    }

    /// Where the windows of this game stand on the screen.
    pub open spec fn display(self) -> Map<WindowId, ScreenPos> {
        Map::new(
            |w: WindowId|
                match w {
                    WindowId::Tail(i) => shows_window(self.snake.tail@, i as int),
                    _ => true,
                },
            |w: WindowId|
                match w {
                    WindowId::Head => screen_of(self.snake.head, self.size),
                    WindowId::Apple => screen_of(self.apple, self.size),
                    WindowId::Tail(i) => screen_of(
                        self.snake.tail@[seg_of_window(self.snake.tail@, i as int)].pos,
                        self.size,
                    ),
                },
        )
    }

    /// Whether moving in `dir` takes the head onto the apple.
    pub open spec fn eats(self, dir: Dir) -> bool {
        self.apple == self.snake.head.stepped(dir)
    }

    /// What the rules say of a move in `dir`: the cell that the head would
    /// reach must lie on the grid and off the tail. A step past the range of
    /// `u32` is out of bounds too, reported at the cell that `u32` arithmetic
    /// wraps around to.
    pub open spec fn move_verdict(self, dir: Dir) -> Result<(), InvalidMove> {
        let np = self.snake.head.stepped(dir);
        if !self.snake.head.can_step(dir) {
            Err(InvalidMove::OutOfBounds(self.snake.head.wrapping_stepped(dir)))
        } else if !(self.validx.start <= np.x < self.validx.end) {
            Err(InvalidMove::OutOfBounds(np))
        } else if !(self.validy.start <= np.y < self.validy.end) {
            Err(InvalidMove::OutOfBounds(np))
        } else if self.snake.on_tail(np) {
            Err(InvalidMove::TailCollision)
        } else {
            Ok(())
        }
    }

    /// The events that a move in `dir` sends, where `apple` is where the
    /// apple stands after it: the window that takes the cell the head
    /// leaves, then the apple's window if the snake ate, then the head's.
    pub open spec fn move_events(self, dir: Dir, apple: Pos) -> Seq<UserEvent> {
        let nh = self.snake.head.stepped(dir);
        if self.eats(dir) {
            seq![
                UserEvent::Move {
                    pos: screen_of(self.snake.head, self.size),
                    window: WindowId::Tail(self.snake.tail@.len() as usize),
                },
                UserEvent::Move { pos: screen_of(apple, self.size), window: WindowId::Apple },
                UserEvent::Move { pos: screen_of(nh, self.size), window: WindowId::Head },
            ]
        } else {
            seq![
                UserEvent::Move {
                    pos: screen_of(self.snake.head, self.size),
                    window: WindowId::Tail(self.snake.tail@.last().index),
                },
                UserEvent::Move { pos: screen_of(nh, self.size), window: WindowId::Head },
            ]
        }
    }

    /// How a move in `dir` turns this game into `after`, with the score going
    /// from `score` to `score_after` and the high score from `high` to
    /// `high_after`: the head steps; if it reaches the apple, the snake grows
    /// by a segment with the next window, the score goes up by one and the
    /// high score follows it up; otherwise the last segment with its window
    /// takes the cell that the head leaves and the apple stays.
    pub open spec fn moved_to(self, dir: Dir, after: Game, score: u32, score_after: u32, high: u32, high_after: u32) -> bool {
        &&& after.validx == self.validx
        &&& after.validy == self.validy
        &&& after.size == self.size
        &&& after.snake.head == self.snake.head.stepped(dir)
        &&& if self.eats(dir) {
            &&& after.snake.tail@ == grown(self.snake.tail@, self.snake.head)
            &&& score_after == score + 1
            &&& high_after == if high < score_after { score_after } else { high }
        } else {
            &&& after.snake.tail@ == rotated(self.snake.tail@, self.snake.head)
            &&& after.apple == self.apple
            &&& score_after == score
            &&& high_after == high
        }
    }

    /// How the draws `d` for the apple went on this game, the apple ending at
    /// `apple` if `placed`: there is at least one draw and no more than the
    /// grid has cells less the tail's length, plus one; every draw takes its
    /// column and its row from the whole grid, and its cell is made of the
    /// column and the row drawn; every draw but the last hit the snake; a
    /// last draw that is free gets the apple; if it hit the snake too, all
    /// the draws were made, and the apple went to the first free cell in scan
    /// order.
    pub open spec fn apple_drawn(self, d: Seq<Draw>, placed: bool, apple: Pos) -> bool {
        &&& 1 <= d.len() <= self.cells() - self.snake.tail@.len() + 1
        &&& forall|k: int| 0 <= k < d.len() ==> {
            &&& (#[trigger] d[k]).column.0 == self.validx.start
            &&& d[k].column.1 == self.validx.end
            &&& d[k].row.0 == self.validy.start
            &&& d[k].row.1 == self.validy.end
            &&& d[k].cell == Pos { x: d[k].column.2, y: d[k].row.2 }
            &&& self.in_grid(d[k].cell)
        }
        &&& forall|k: int| 0 <= k < d.len() - 1 ==> self.snake.covers(#[trigger] d[k].cell)
        &&& !self.snake.covers(d.last().cell) ==> placed && apple == d.last().cell
        &&& self.snake.covers(d.last().cell) ==> {
            &&& d.len() == self.cells() - self.snake.tail@.len() + 1
            &&& placed ==> forall|q: Pos| self.in_grid(q) && scans_before(q, apple)
                ==> #[trigger] self.snake.covers(q)
        }
    }

    /// Places the apple at `pos` unless the snake covers it, and returns
    /// whether it did.
    pub fn try_place_apple(&mut self, pos: Pos, events: &mut Vec<UserEvent>) -> (placed: bool)
        requires
            old(self).wf(),
            old(self).in_grid(pos),
        ensures
            placed == !old(self).snake.covers(pos),
            final(self).snake == old(self).snake,
            final(self).validx == old(self).validx,
            final(self).validy == old(self).validy,
            final(self).size == old(self).size,
            placed ==> final(self).apple == pos,
            placed ==> final(events)@ == old(events)@.push(
                UserEvent::Move { pos: screen_of(pos, old(self).size), window: WindowId::Apple },
            ),
            !placed ==> final(self).apple == old(self).apple,
            !placed ==> final(events)@ == old(events)@,
            final(self).wf(),
    {
        if self.snake.is_tail(pos) {
            return false;
        }
        if pos == self.snake.head {
            return false;
        }
        proof {
            lemma_grid_cell_fits(pos, self.size);
        }
        self.apple = pos;
        events.push(UserEvent::Move { pos: to_screen(pos, self.size), window: WindowId::Apple });
        true
    }

    /// The first free cell of the grid, scanning column by column and each
    /// column row by row, or `None` when the snake covers every cell.
    pub fn first_free_cell(&self) -> (r: Option<Pos>)
        requires
            self.validx.start <= self.validx.end,
            self.validy.start <= self.validy.end,
        ensures
            r is None <==> (forall|p: Pos| self.in_grid(p) ==> #[trigger] self.snake.covers(p)),
            r matches Some(p) ==> {
                &&& self.in_grid(p)
                &&& !self.snake.covers(p)
                &&& forall|q: Pos| self.in_grid(q) && scans_before(q, p) ==> #[trigger] self.snake.covers(q)
            },
    {
        let mut x: u32 = self.validx.start;
        while x < self.validx.end
            invariant
                self.validx.start <= x <= self.validx.end,
                self.validy.start <= self.validy.end,
                forall|q: Pos| self.in_grid(q) && q.x < x ==> #[trigger] self.snake.covers(q),
            decreases self.validx.end - x,
        {
            let mut y: u32 = self.validy.start;
            while y < self.validy.end
                invariant
                    self.validx.start <= x < self.validx.end,
                    self.validy.start <= y <= self.validy.end,
                    forall|q: Pos| self.in_grid(q) && (q.x < x || (q.x == x && q.y < y))
                        ==> #[trigger] self.snake.covers(q),
                decreases self.validy.end - y,
            {
                let p = Pos::new(x, y);
                if !self.snake.is_tail(p) && p != self.snake.head {
                    assert(self.in_grid(p) && !self.snake.covers(p));
                    return Some(p);
                }
                y += 1;
            }
            x += 1;
        }
        None
    }

    /// Moves the apple to a random free cell of the grid. It draws a column
    /// from the grid's columns and a row from its rows, at most as many times
    /// as the grid has cells less the tail's length, plus one, and stops at
    /// the first free cell drawn. When every draw hits the snake, it takes the
    /// first free cell of the grid in scan order instead. It fails exactly
    /// when no cell is free. Beside the result it hands back a ghost record of
    /// the random draws.
    pub fn randomize_apple(&mut self, events: &mut Vec<UserEvent>) -> (r: (Result<(), ()>, Ghost<Seq<Draw>>))
        requires
            old(self).wf(),
            old(self).snake.tail@.len() <= old(self).cells(),
        ensures
            final(self).snake == old(self).snake,
            final(self).validx == old(self).validx,
            final(self).validy == old(self).validy,
            final(self).size == old(self).size,
            final(self).wf(),
            r.0 is Err <==> (forall|p: Pos| old(self).in_grid(p) ==> #[trigger] old(self).snake.covers(p)),
            r.0 is Ok ==> {
                &&& final(self).in_grid(final(self).apple)
                &&& !final(self).snake.covers(final(self).apple)
                &&& final(events)@ == old(events)@.push(
                    UserEvent::Move { pos: screen_of(final(self).apple, final(self).size), window: WindowId::Apple },
                )
            },
            r.0 is Err ==> {
                &&& final(self).apple == old(self).apple
                &&& final(events)@ == old(events)@
            },
            // how the draws went
            old(self).apple_drawn(r.1@, r.0 is Ok, final(self).apple),
    {
        let mut rng = thread_rng();
        let cols: usize = (self.validx.end - self.validx.start) as usize;
        let rows: usize = (self.validy.end - self.validy.start) as usize;
        assert(cols * rows <= usize::MAX);
        let attempts: usize = (cols * rows) - self.snake.tail.len() + 1;
        assert(cols > 0 && rows > 0) by (nonlinear_arith)
            requires cols * rows >= 1;
        let ghost mut log: Seq<Draw> = Seq::empty();
        let mut i: usize = 0;
        while i < attempts
            invariant
                0 <= i <= attempts,
                attempts == old(self).cells() - old(self).snake.tail@.len() + 1,
                attempts >= 1,
                self.wf(),
                self.snake == old(self).snake,
                self.validx == old(self).validx,
                self.validy == old(self).validy,
                self.size == old(self).size,
                self.apple == old(self).apple,
                events@ == old(events)@,
                self.validx.start < self.validx.end,
                self.validy.start < self.validy.end,
                log.len() == i,
                forall|k: int| 0 <= k < log.len() ==> {
                    &&& (#[trigger] log[k]).column.0 == old(self).validx.start
                    &&& log[k].column.1 == old(self).validx.end
                    &&& log[k].row.0 == old(self).validy.start
                    &&& log[k].row.1 == old(self).validy.end
                    &&& log[k].cell == Pos { x: log[k].column.2, y: log[k].row.2 }
                    &&& old(self).in_grid(log[k].cell)
                    &&& old(self).snake.covers(log[k].cell)
                },
            decreases attempts - i,
        {
            let (x, xs) = gen_range(&mut rng, self.validx.start, self.validx.end);
            let (y, ys) = gen_range(&mut rng, self.validy.start, self.validy.end);
            let new_pos = Pos::new(x, y);
            proof {
                log = log.push(Draw { column: xs@, row: ys@, cell: new_pos });
            }
            if self.try_place_apple(new_pos, events) {
                return (Ok(()), Ghost(log));
            }
            i += 1;
        }
        match self.first_free_cell() {
            Some(pos) => {
                let placed = self.try_place_apple(pos, events);
                assert(placed);
                (Ok(()), Ghost(log))
            },
            None => (Err(()), Ghost(log)),
        }
    }

    /// A new game on a screen of `size`: the head at the start cell, one tail
    /// segment to its left shown by window 0, and the apple at a random free
    /// cell. Returns the game and the events that place its windows, or
    /// `None` if no free cell was found for the apple. When neither start
    /// cell lies on the grid, the first cell drawn is free, so the game is
    /// always made.
    pub fn new(size: ScreenSize) -> (r: Option<(Game, Vec<UserEvent>)>)
        requires
            (size.width / SCALE) * (size.height / SCALE) >= 1,
            (size.width / SCALE) * (size.height / SCALE) <= usize::MAX,
        ensures
            r matches Some((g, evs)) ==> {
                &&& g.wf()
                &&& g.sound()
                &&& g.size == size
                &&& g.validx == (Range { start: 0u32, end: size.width / SCALE })
                &&& g.validy == (Range { start: 0u32, end: size.height / SCALE })
                &&& g.snake.head == start_pos()
                &&& g.snake.tail@ == seq![TailSeg { pos: start_pos().stepped(Dir::Left), index: 0 }]
                &&& evs@ == seq![
                    UserEvent::Move { pos: screen_of(start_pos(), size), window: WindowId::Head },
                    UserEvent::Move {
                        pos: screen_of(start_pos().stepped(Dir::Left), size),
                        window: WindowId::Tail(0),
                    },
                    UserEvent::Move { pos: screen_of(g.apple, size), window: WindowId::Apple },
                ]
                &&& apply_events(Map::empty(), evs@) == g.display()
            },
            // it fails exactly when the two start cells are the whole grid
            r is None <==> (forall|p: Pos| #![trigger p.x, p.y]
                p.x < size.width / SCALE && p.y < size.height / SCALE
                    ==> p == start_pos() || p == start_pos().stepped(Dir::Left)),
    {
        Self::new_with_draws(size).0
    }

    /// The same as `new`, with a ghost record of the draws for the apple.
    pub fn new_with_draws(size: ScreenSize) -> (r: (Option<(Game, Vec<UserEvent>)>, Ghost<Seq<Draw>>))
        requires
            (size.width / SCALE) * (size.height / SCALE) >= 1,
            (size.width / SCALE) * (size.height / SCALE) <= usize::MAX,
        ensures
            r.0 matches Some((g, evs)) ==> {
                &&& g.apple_drawn(r.1@, true, g.apple)
                &&& g.wf()
                &&& g.sound()
                &&& g.size == size
                &&& g.validx == (Range { start: 0u32, end: size.width / SCALE })
                &&& g.validy == (Range { start: 0u32, end: size.height / SCALE })
                &&& g.snake.head == start_pos()
                &&& g.snake.tail@ == seq![TailSeg { pos: start_pos().stepped(Dir::Left), index: 0 }]
                &&& evs@ == seq![
                    UserEvent::Move { pos: screen_of(start_pos(), size), window: WindowId::Head },
                    UserEvent::Move {
                        pos: screen_of(start_pos().stepped(Dir::Left), size),
                        window: WindowId::Tail(0),
                    },
                    UserEvent::Move { pos: screen_of(g.apple, size), window: WindowId::Apple },
                ]
                &&& apply_events(Map::empty(), evs@) == g.display()
            },
            // it fails exactly when the two start cells are the whole grid
            r.0 is None <==> (forall|p: Pos| #![trigger p.x, p.y]
                p.x < size.width / SCALE && p.y < size.height / SCALE
                    ==> p == start_pos() || p == start_pos().stepped(Dir::Left)),
    {
        let head = Pos::new(START_X, START_Y);
        let mut out = Game {
            snake: Snake::new(head),
            apple: Pos::new(0, 0),
            validx: Range { start: 0, end: size.width / SCALE },
            validy: Range { start: 0, end: size.height / SCALE },
            size,
        };
        let mut events: Vec<UserEvent> = Vec::new();
        events.push(UserEvent::Move { pos: to_screen(head, size), window: WindowId::Head });
        events.push(UserEvent::Move { pos: to_screen(out.snake.head + Dir::Left, size), window: WindowId::Tail(0) });
        proof {
            assert(out.snake.tail@[0].pos == head.stepped(Dir::Left));
            assert forall|p: Pos| out.in_grid(p) && (p == start_pos() || p == start_pos().stepped(Dir::Left))
                implies #[trigger] out.snake.covers(p) by {
                if p != start_pos() {
                    assert(out.snake.tail@[0].pos == p);
                }
            }
            assert forall|p: Pos| #[trigger] out.snake.covers(p)
                implies p == start_pos() || p == start_pos().stepped(Dir::Left) by {
                if out.snake.on_tail(p) {
                    let j = choose|j: int| 0 <= j < out.snake.tail@.len() && #[trigger] out.snake.tail@[j].pos == p;
                    assert(j == 0);
                }
            }
        }
        let (placed, draws) = out.randomize_apple(&mut events);
        match placed {
            Ok(()) => {
                proof {
                    let g = out;
                    let t = g.snake.tail@;
                    let e1 = UserEvent::Move { pos: screen_of(head, size), window: WindowId::Head };
                    let e2 = UserEvent::Move { pos: screen_of(head.stepped(Dir::Left), size), window: WindowId::Tail(0) };
                    let e3 = UserEvent::Move { pos: screen_of(g.apple, size), window: WindowId::Apple };
                    lemma_apply_three(Map::empty(), e1, e2, e3);
                    let d = Map::<WindowId, ScreenPos>::empty().insert(WindowId::Head, screen_of(head, size)).insert(
                        WindowId::Tail(0),
                        screen_of(head.stepped(Dir::Left), size),
                    ).insert(WindowId::Apple, screen_of(g.apple, size));
                    lemma_seg_of_window(t, 0);
                    assert forall|w: WindowId| #[trigger] d.dom().contains(w) == g.display().dom().contains(w) by {
                        match w {
                            WindowId::Tail(i) => {
                                if shows_window(t, i as int) {
                                    let j = choose|j: int| 0 <= j < t.len() && #[trigger] t[j].index == i;
                                    assert(j == 0);
                                }
                            },
                            _ => {},
                        }
                    }
                    assert(d =~= g.display());
                    assert(g.wf());
                    assert(g.snake.connected());
                    assert(g.snake.no_overlap());
                    assert(g.sound());
                    assert(events@ =~= seq![e1, e2, e3]);
                    assert(apply_events(Map::empty(), events@) == g.display());
                }
                (Some((out, events)), draws)
            },
            Err(()) => {
                proof {
                    assert forall|p: Pos| p.x < size.width / SCALE && p.y < size.height / SCALE
                        implies p == start_pos() || p == start_pos().stepped(Dir::Left) by {
                        assert(out.in_grid(p));
                        assert(out.snake.covers(p));
                        if out.snake.on_tail(p) {
                            let j = choose|j: int| 0 <= j < out.snake.tail@.len() && #[trigger] out.snake.tail@[j].pos == p;
                            assert(j == 0);
                        }
                    }
                }
                (None, draws)
            },
        }
    }

    /// One turn of the game: checks the move in `dir` against the rules and
    /// makes it if they allow it; if not, the game is over and the event that
    /// closes the windows is appended to `events`.
    pub fn step(&mut self, dir: Dir, score: &mut u32, high_score: &mut u32, events: &mut Vec<UserEvent>) -> (t: Turn)
        requires
            old(self).wf(),
            old(self).move_verdict(dir) is Ok && old(self).eats(dir) ==> {
                &&& *old(score) < u32::MAX
                &&& old(self).snake.tail@.len() + 1 <= old(self).cells()
            },
        ensures
            final(self).wf(),
            old(self).move_verdict(dir) matches Err(reason) ==> {
                &&& t == Turn::Over { reason, new_high_score: *old(high_score) == *old(score) }
                &&& final(self).snake == old(self).snake
                &&& final(self).apple == old(self).apple
                &&& *final(score) == *old(score)
                &&& *final(high_score) == *old(high_score)
                &&& final(events)@ == old(events)@.push(UserEvent::Kill)
            },
            old(self).move_verdict(dir) is Ok ==> {
                &&& t is Moved || t is Stuck
                &&& old(self).moved_to(dir, *final(self), *old(score), *final(score), *old(high_score), *final(high_score))
                &&& t is Stuck ==> old(self).eats(dir) && final(self).apple == old(self).apple
                &&& t is Stuck <==> old(self).eats(dir)
                    && (forall|p: Pos| final(self).in_grid(p) ==> #[trigger] final(self).snake.covers(p))
            },
            t is Moved ==> final(events)@ == old(events)@ + old(self).move_events(dir, final(self).apple),
            t is Moved ==> apply_events(old(self).display(), old(self).move_events(dir, final(self).apple))
                == final(self).display(),
            t is Moved && old(self).sound() ==> final(self).sound(),
            t is Moved && old(self).on_board() ==> final(self).on_board(),
            // a move onto a cell of the grid off the tail is played, apple or not
            old(self).snake.head.can_step(dir) && old(self).in_grid(old(self).snake.head.stepped(dir))
                && !old(self).snake.on_tail(old(self).snake.head.stepped(dir)) ==> {
                &&& !(t is Over)
                &&& final(self).snake.head == old(self).snake.head.stepped(dir)
                &&& old(self).eats(dir) ==> *final(score) == *old(score) + 1
            },
            final(self).snake.tail@.len() - old(self).snake.tail@.len() == *final(score) - *old(score),
            *old(high_score) >= *old(score) ==> *final(high_score) >= *final(score),
    {
        match self.valid_move(dir) {
            Ok(()) => {
                proof {
                    lemma_grid_cell_fits(self.snake.head.stepped(dir), self.size);
                }
                match self.do_move(dir, score, high_score, events) {
                    Ok(()) => Turn::Moved,
                    Err(()) => Turn::Stuck,
                }
            },
            Err(reason) => {
                events.push(UserEvent::Kill);
                Turn::Over { reason, new_high_score: *high_score == *score }
            },
        }
    }

    /// Checks a move in `dir` against the rules.
    pub fn valid_move(&self, dir: Dir) -> (r: Result<(), InvalidMove>)
        ensures
            r == self.move_verdict(dir),
            r is Ok <==> self.snake.head.can_step(dir) && self.in_grid(self.snake.head.stepped(dir))
                && !self.snake.on_tail(self.snake.head.stepped(dir)),
            r == Err::<(), InvalidMove>(InvalidMove::TailCollision) <==> self.snake.head.can_step(dir)
                && self.in_grid(self.snake.head.stepped(dir)) && self.snake.on_tail(self.snake.head.stepped(dir)),
    {
        if !self.snake.head.can_add(dir) {
            return Err(InvalidMove::OutOfBounds(self.snake.head.wrapping_add(dir)));
        }
        let new_pos = self.snake.head + dir;
        if !self.validx.contains(&new_pos.x) {
            return Err(InvalidMove::OutOfBounds(new_pos));
        }
        if !self.validy.contains(&new_pos.y) {
            return Err(InvalidMove::OutOfBounds(new_pos));
        }
        if self.snake.is_tail(new_pos) {
            return Err(InvalidMove::TailCollision);
        }
        Ok(())
    }

    /// Moves the snake one step in `dir`. If the head reaches the apple, the
    /// score goes up by one (and the high score with it, if passed), the snake
    /// grows and the apple moves to a random free cell; `Err` means no free
    /// cell was found for it. Otherwise the last tail segment takes the cell
    /// that the head leaves. The events that move the windows are appended
    /// to `events`.
    pub fn do_move(&mut self, dir: Dir, score: &mut u32, high_score: &mut u32, events: &mut Vec<UserEvent>)
        -> (r: Result<(), ()>)
        requires
            old(self).wf(),
            old(self).snake.head.can_step(dir),
            screen_fits(old(self).snake.head.stepped(dir), old(self).size),
            old(self).eats(dir) ==> *old(score) < u32::MAX,
            old(self).eats(dir) ==> old(self).snake.tail@.len() + 1 <= old(self).cells(),
        ensures
            final(self).wf(),
            old(self).moved_to(dir, *final(self), *old(score), *final(score), *old(high_score), *final(high_score)),
            !old(self).eats(dir) ==> r is Ok,
            // after eating, it fails exactly when the grown snake covers the grid
            old(self).eats(dir) ==> (r is Err <==> (forall|p: Pos| final(self).in_grid(p)
                ==> #[trigger] final(self).snake.covers(p))),
            old(self).eats(dir) && r is Ok ==> {
                &&& final(self).in_grid(final(self).apple)
                &&& !final(self).snake.covers(final(self).apple)
            },
            old(self).eats(dir) && r is Err ==> {
                &&& final(self).apple == old(self).apple
                &&& final(events)@ == old(events)@ + old(self).move_events(dir, old(self).apple).take(1)
            },
            r is Ok ==> final(events)@ == old(events)@ + old(self).move_events(dir, final(self).apple),
            // the windows show the new state once the events are applied
            r is Ok ==> apply_events(old(self).display(), old(self).move_events(dir, final(self).apple))
                == final(self).display(),
            // a move that the rules allow keeps the rules
            r is Ok && old(self).sound() && old(self).move_verdict(dir) is Ok ==> final(self).sound(),
            r is Ok && old(self).on_board() && old(self).move_verdict(dir) is Ok ==> final(self).on_board(),
            // the snake grows by what the score goes up by
            final(self).snake.tail@.len() - old(self).snake.tail@.len() == *final(score) - *old(score),
            *old(high_score) >= *old(score) ==> *final(high_score) >= *final(score),
    {
        self.do_move_with_draws(dir, score, high_score, events).0
    }

    /// The same as `do_move`, with a ghost record of the draws for the apple
    /// when the snake eats.
    pub fn do_move_with_draws(
        &mut self,
        dir: Dir,
        score: &mut u32,
        high_score: &mut u32,
        events: &mut Vec<UserEvent>,
    ) -> (r: (Result<(), ()>, Ghost<Seq<Draw>>))
        requires
            old(self).wf(),
            old(self).snake.head.can_step(dir),
            screen_fits(old(self).snake.head.stepped(dir), old(self).size),
            old(self).eats(dir) ==> *old(score) < u32::MAX,
            old(self).eats(dir) ==> old(self).snake.tail@.len() + 1 <= old(self).cells(),
        ensures
            final(self).wf(),
            old(self).moved_to(dir, *final(self), *old(score), *final(score), *old(high_score), *final(high_score)),
            !old(self).eats(dir) ==> r.0 is Ok,
            // after eating, it fails exactly when the grown snake covers the grid
            old(self).eats(dir) ==> (r.0 is Err <==> (forall|p: Pos| final(self).in_grid(p)
                ==> #[trigger] final(self).snake.covers(p))),
            old(self).eats(dir) && r.0 is Ok ==> {
                &&& final(self).in_grid(final(self).apple)
                &&& !final(self).snake.covers(final(self).apple)
            },
            old(self).eats(dir) && r.0 is Err ==> {
                &&& final(self).apple == old(self).apple
                &&& final(events)@ == old(events)@ + old(self).move_events(dir, old(self).apple).take(1)
            },
            r.0 is Ok ==> final(events)@ == old(events)@ + old(self).move_events(dir, final(self).apple),
            // the windows show the new state once the events are applied
            r.0 is Ok ==> apply_events(old(self).display(), old(self).move_events(dir, final(self).apple))
                == final(self).display(),
            // a move that the rules allow keeps the rules
            r.0 is Ok && old(self).sound() && old(self).move_verdict(dir) is Ok ==> final(self).sound(),
            r.0 is Ok && old(self).on_board() && old(self).move_verdict(dir) is Ok ==> final(self).on_board(),
            // the snake grows by what the score goes up by
            final(self).snake.tail@.len() - old(self).snake.tail@.len() == *final(score) - *old(score),
            *old(high_score) >= *old(score) ==> *final(high_score) >= *final(score),
            // after eating, the apple goes where the draws put it on the grown snake
            old(self).eats(dir) ==> final(self).apple_drawn(r.1@, r.0 is Ok, final(self).apple),
            !old(self).eats(dir) ==> r.1@.len() == 0,
    {
        let ghost o = *self;
        let ghost ev0 = events@;
        let new_head = self.snake.head + dir;
        if self.apple == new_head {
            *score += 1;
            if *high_score < *score {
                *high_score = *score;
            }
            let n: usize = self.snake.tail.len();
            events.push(UserEvent::Move { pos: to_screen(self.snake.head, self.size), window: WindowId::Tail(n) });
            self.snake.move_grow(dir);
            proof {
                let nt = self.snake.tail@;
                assert forall|j: int| 0 <= j < nt.len() implies screen_fits(#[trigger] nt[j].pos, self.size) by {
                    if j > 0 {
                        assert(nt[j] == o.snake.tail@[j - 1]);
                    }
                }
            }
            let (placed, draws) = self.randomize_apple(events);
            if placed.is_err() {
                proof {
                    assert(events@ == ev0 + o.move_events(dir, o.apple).take(1));
                }
                return (Err(()), draws);
            }
            events.push(UserEvent::Move { pos: to_screen(self.snake.head, self.size), window: WindowId::Head });
            proof {
                assert(events@ =~= ev0 + o.move_events(dir, self.apple));
                lemma_display_grow_move(o, *self, dir);
                if o.on_board() && o.move_verdict(dir) is Ok {
                    lemma_move_keeps_board(o, *self, dir, *old(score), *score, *old(high_score), *high_score);
                }
                if o.sound() && o.move_verdict(dir) is Ok {
                    assert(o.snake.head.stepped(dir) != o.snake.head);
                }
            }
            (Ok(()), draws)
        } else {
            let last: usize = self.snake.tail.len() - 1;
            let idx: usize = self.snake.tail[last].index;
            events.push(UserEvent::Move { pos: to_screen(self.snake.head, self.size), window: WindowId::Tail(idx) });
            self.snake.move_nor(dir);
            events.push(UserEvent::Move { pos: to_screen(self.snake.head, self.size), window: WindowId::Head });
            proof {
                let nt = self.snake.tail@;
                let ot = o.snake.tail@;
                assert forall|j: int| 0 <= j < nt.len() implies screen_fits(#[trigger] nt[j].pos, self.size) by {
                    if j > 0 {
                        assert(nt[j] == ot[j - 1]);
                    }
                }
                assert(events@ =~= ev0 + o.move_events(dir, self.apple));
                lemma_display_plain_move(o, *self, dir);
                if o.on_board() && o.move_verdict(dir) is Ok {
                    lemma_move_keeps_board(o, *self, dir, *old(score), *score, *old(high_score), *high_score);
                }
                if o.sound() && o.move_verdict(dir) is Ok {
                    if self.snake.on_tail(self.apple) {
                        let j = choose|j: int| 0 <= j < nt.len() && #[trigger] nt[j].pos == self.apple;
                        if j > 0 {
                            assert(nt[j] == ot[j - 1]);
                        }
                    }
                }
            }
            (Ok(()), Ghost(Seq::empty()))
        }
    }
}


/// After a move that does not eat, the events sent leave every window where
/// the new state shows it.
proof fn lemma_display_plain_move(o: Game, f: Game, dir: Dir)
    requires
        o.snake.wf(),
        f.snake.wf(),
        !o.eats(dir),
        f.snake.head == o.snake.head.stepped(dir),
        f.snake.tail@ == seq![TailSeg { pos: o.snake.head, index: o.snake.tail@.last().index }]
            + o.snake.tail@.drop_last(),
        f.apple == o.apple,
        f.size == o.size,
    ensures
        apply_events(o.display(), o.move_events(dir, f.apple)) == f.display(),
{
    let ot = o.snake.tail@;
    let nt = f.snake.tail@;
    let n = ot.len();
    let l = ot[n - 1].index;
    let e1 = UserEvent::Move { pos: screen_of(o.snake.head, o.size), window: WindowId::Tail(l) };
    let e2 = UserEvent::Move { pos: screen_of(f.snake.head, o.size), window: WindowId::Head };
    assert(o.move_events(dir, f.apple) == seq![e1, e2]);
    lemma_apply_two(o.display(), e1, e2);
    let d2 = o.display().insert(WindowId::Tail(l), screen_of(o.snake.head, o.size)).insert(
        WindowId::Head,
        screen_of(f.snake.head, o.size),
    );
    assert(nt.len() == n);
    assert forall|j: int| 1 <= j < n implies #[trigger] nt[j] == ot[j - 1] by {}
    lemma_seg_of_window(nt, 0);
    lemma_seg_of_window(ot, n - 1);
    assert forall|w: WindowId| #[trigger] d2.dom().contains(w) == f.display().dom().contains(w) by {
        match w {
            WindowId::Tail(i) => {
                if shows_window(ot, i as int) {
                    let k = choose|k: int| 0 <= k < n && #[trigger] ot[k].index == i;
                    if k == n - 1 {
                        assert(nt[0].index == i);
                    } else {
                        assert(nt[k + 1].index == i);
                    }
                }
                if shows_window(nt, i as int) {
                    let j = choose|j: int| 0 <= j < n && #[trigger] nt[j].index == i;
                    if j == 0 {
                        assert(ot[n - 1].index == i);
                    } else {
                        assert(ot[j - 1].index == i);
                    }
                }
            },
            _ => {},
        }
    }
    assert forall|w: WindowId| d2.dom().contains(w) implies d2[w] == #[trigger] f.display()[w] by {
        match w {
            WindowId::Tail(i) => {
                if i != l {
                    let k = seg_of_window(ot, i as int);
                    assert(0 <= k < n && ot[k].index == i);
                    assert(nt[k + 1] == ot[k]);
                    lemma_seg_of_window(nt, k + 1);
                }
            },
            _ => {},
        }
    }
    assert(d2 =~= f.display());
}

/// After a move that eats, the events sent leave every window where the new
/// state shows it.
proof fn lemma_display_grow_move(o: Game, f: Game, dir: Dir)
    requires
        o.snake.wf(),
        f.snake.wf(),
        o.eats(dir),
        f.snake.head == o.snake.head.stepped(dir),
        f.snake.tail@ == seq![TailSeg { pos: o.snake.head, index: o.snake.tail@.len() as usize }]
            + o.snake.tail@,
        f.size == o.size,
    ensures
        apply_events(o.display(), o.move_events(dir, f.apple)) == f.display(),
{
    axiom_spec_len(&o.snake.tail);
    let ot = o.snake.tail@;
    let nt = f.snake.tail@;
    let n = ot.len();
    let e1 = UserEvent::Move { pos: screen_of(o.snake.head, o.size), window: WindowId::Tail(n as usize) };
    let e2 = UserEvent::Move { pos: screen_of(f.apple, o.size), window: WindowId::Apple };
    let e3 = UserEvent::Move { pos: screen_of(f.snake.head, o.size), window: WindowId::Head };
    assert(o.move_events(dir, f.apple) == seq![e1, e2, e3]);
    lemma_apply_three(o.display(), e1, e2, e3);
    let d3 = o.display().insert(WindowId::Tail(n as usize), screen_of(o.snake.head, o.size)).insert(
        WindowId::Apple,
        screen_of(f.apple, o.size),
    ).insert(WindowId::Head, screen_of(f.snake.head, o.size));
    assert(nt.len() == n + 1);
    assert forall|j: int| 1 <= j < n + 1 implies #[trigger] nt[j] == ot[j - 1] by {}
    lemma_seg_of_window(nt, 0);
    assert forall|w: WindowId| #[trigger] d3.dom().contains(w) == f.display().dom().contains(w) by {
        match w {
            WindowId::Tail(i) => {
                if shows_window(ot, i as int) {
                    let k = choose|k: int| 0 <= k < n && #[trigger] ot[k].index == i;
                    assert(nt[k + 1].index == i);
                }
                if shows_window(nt, i as int) {
                    let j = choose|j: int| 0 <= j < n + 1 && #[trigger] nt[j].index == i;
                    if j > 0 {
                        assert(ot[j - 1].index == i);
                    }
                }
            },
            _ => {},
        }
    }
    assert forall|w: WindowId| d3.dom().contains(w) implies d3[w] == #[trigger] f.display()[w] by {
        match w {
            WindowId::Tail(i) => {
                if i != n {
                    let k = seg_of_window(ot, i as int);
                    assert(0 <= k < n && ot[k].index == i);
                    assert(nt[k + 1] == ot[k]);
                    lemma_seg_of_window(nt, k + 1);
                }
            },
            _ => {},
        }
    }
    assert(d3 =~= f.display());
}

/// Law: whatever a move in `dir` does to a game, once its events are applied
/// to the windows of the old game, every window stands where the new game
/// shows it, and the tail windows stay numbered once each.
pub proof fn lemma_windows_follow_move(
    o: Game,
    f: Game,
    dir: Dir,
    score: u32,
    score_after: u32,
    high: u32,
    high_after: u32,
)
    requires
        o.snake.wf(),
        o.snake.head.can_step(dir),
        o.moved_to(dir, f, score, score_after, high, high_after),
    ensures
        f.snake.wf(),
        apply_events(o.display(), o.move_events(dir, f.apple)) == f.display(),
{
    axiom_spec_len(&o.snake.tail);
    if o.eats(dir) {
        lemma_grown(o.snake.tail@, o.snake.head, dir);
        lemma_display_grow_move(o, f, dir);
    } else {
        lemma_rotated(o.snake.tail@, o.snake.head, dir);
        lemma_display_plain_move(o, f, dir);
    }
}

/// Law: the tail grows exactly when the score rises, so a tail one longer
/// than the score stays so; and the high score never falls below the score.
pub proof fn lemma_tail_tracks_score(
    o: Game,
    f: Game,
    dir: Dir,
    score: u32,
    score_after: u32,
    high: u32,
    high_after: u32,
)
    requires
        o.moved_to(dir, f, score, score_after, high, high_after),
        o.snake.tail@.len() == score + 1,
    ensures
        f.snake.tail@.len() == score_after + 1,
        high >= score ==> high_after >= score_after,
{
}

/// Law: a move that the rules allow keeps the snake and the apple on the
/// grid, the snake free of overlaps and the apple off the snake, provided
/// that after eating the apple moves to a free cell of the grid.
pub proof fn lemma_move_keeps_board(
    o: Game,
    f: Game,
    dir: Dir,
    score: u32,
    score_after: u32,
    high: u32,
    high_after: u32,
)
    requires
        o.snake.wf(),
        o.on_board(),
        o.move_verdict(dir) is Ok,
        o.moved_to(dir, f, score, score_after, high, high_after),
        o.eats(dir) ==> f.in_grid(f.apple) && !f.snake.covers(f.apple),
    ensures
        f.on_board(),
{
    let ot = o.snake.tail@;
    let nt = f.snake.tail@;
    let nh = o.snake.head.stepped(dir);
    lemma_sub_undoes_add(o.snake.head, dir);
    axiom_spec_len(&o.snake.tail);
    if o.eats(dir) {
        lemma_grown(ot, o.snake.head, dir);
    } else {
        lemma_rotated(ot, o.snake.head, dir);
    }
    assert forall|j: int| 0 <= j < nt.len() implies f.in_grid(#[trigger] nt[j].pos) by {
        assert(segs_cover(nt, nt[j].pos));
        if nt[j].pos != o.snake.head {
            let k = choose|k: int| 0 <= k < ot.len() && #[trigger] ot[k].pos == nt[j].pos;
            assert(o.in_grid(ot[k].pos));
        }
    }
    if !o.eats(dir) && f.snake.on_tail(f.apple) {
        assert(f.apple == o.snake.head || segs_cover(ot, f.apple));
    }
}

/// Law: the rules refuse a move exactly when the head would leave the grid
/// or run into the tail. A move whose cell lies on the grid and off the tail
/// is allowed, whether or not the apple is there; one off the grid is out of
/// bounds; one onto the tail is a collision.
pub proof fn lemma_move_rule(g: Game, dir: Dir)
    ensures
        g.move_verdict(dir) is Ok <==> g.snake.head.can_step(dir) && g.in_grid(g.snake.head.stepped(dir))
            && !g.snake.on_tail(g.snake.head.stepped(dir)),
        g.move_verdict(dir) == Err::<(), InvalidMove>(InvalidMove::TailCollision) <==> g.snake.head.can_step(dir)
            && g.in_grid(g.snake.head.stepped(dir)) && g.snake.on_tail(g.snake.head.stepped(dir)),
        (g.move_verdict(dir) matches Err(InvalidMove::OutOfBounds(_))) <==> !(g.snake.head.can_step(dir)
            && g.in_grid(g.snake.head.stepped(dir))),
        g.move_verdict(dir) matches Err(InvalidMove::OutOfBounds(p)) ==> p == g.snake.head.wrapping_stepped(dir),
{
}

/// Law: an apple placed by draws sits at the column and the row that were
/// drawn last, both drawn from the whole grid, whenever that cell is free;
/// every earlier draw, and the last one if the apple went elsewhere, was a
/// cell under the snake.
pub proof fn lemma_apple_from_draws(g: Game, d: Seq<Draw>, placed: bool, apple: Pos)
    requires
        g.apple_drawn(d, placed, apple),
    ensures
        d.len() >= 1,
        forall|k: int| 0 <= k < d.len() ==> {
            &&& g.validx.start <= (#[trigger] d[k]).column.2 < g.validx.end
            &&& g.validy.start <= d[k].row.2 < g.validy.end
            &&& (d[k].column.0, d[k].column.1) == (g.validx.start, g.validx.end)
            &&& (d[k].row.0, d[k].row.1) == (g.validy.start, g.validy.end)
        },
        !g.snake.covers(Pos { x: d.last().column.2, y: d.last().row.2 })
            ==> placed && apple.x == d.last().column.2 && apple.y == d.last().row.2,
        placed && (apple.x != d.last().column.2 || apple.y != d.last().row.2) ==> forall|k: int|
            0 <= k < d.len() ==> g.snake.covers(Pos { x: (#[trigger] d[k]).column.2, y: d[k].row.2 }),
{
    assert forall|k: int| 0 <= k < d.len() implies g.validx.start <= (#[trigger] d[k]).column.2 < g.validx.end by {
        assert(d[k].cell == Pos { x: d[k].column.2, y: d[k].row.2 });
        assert(g.in_grid(d[k].cell));
    }
    let last = d.len() - 1;
    assert(d[last] == d.last());
    assert(d[last].cell == Pos { x: d.last().column.2, y: d.last().row.2 });
    if placed && (apple.x != d.last().column.2 || apple.y != d.last().row.2) {
        assert forall|k: int| 0 <= k < d.len() implies g.snake.covers(
            Pos { x: (#[trigger] d[k]).column.2, y: d[k].row.2 },
        ) by {
            assert(d[k].cell == Pos { x: d[k].column.2, y: d[k].row.2 });
            if k < last {
                assert(g.snake.covers(d[k].cell));
            }
        }
    }
}

} // verus!
