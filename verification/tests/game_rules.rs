use std::collections::{HashMap, VecDeque};
use std::ops::Range;

use snake::errors::InvalidMove;
use snake::game::{Game, Turn, START_X, START_Y};
use snake::grid::{Dir, Pos};
use snake::screen::{ScreenPos, ScreenSize, UserEvent, WindowId};
use snake::snake::{Snake, TailSeg};

fn seg(x: u32, y: u32, index: usize) -> TailSeg {
    TailSeg::new(Pos::new(x, y), index)
}

/// A 10 by 10 grid on a 1050 by 1030 screen, with the given snake and apple.
fn game_with(head: Pos, tail: Vec<TailSeg>, apple: Pos) -> Game {
    let mut t = VecDeque::new();
    for s in tail {
        t.push_back(s);
    }
    Game {
        snake: Snake { head, tail: t },
        apple,
        validx: Range { start: 0, end: 10 },
        validy: Range { start: 0, end: 10 },
        size: ScreenSize { width: 1050, height: 1030 },
    }
}

fn tail_of(g: &Game) -> Vec<(u32, u32, usize)> {
    g.snake.tail.iter().map(|s| (s.pos.x, s.pos.y, s.index)).collect()
}

fn screen(x: u32, y: u32) -> ScreenPos {
    ScreenPos { x, y }
}

/// Where each window stands once `events` are applied in turn.
fn apply(mut windows: HashMap<WindowId, (u32, u32)>, events: &[UserEvent]) -> HashMap<WindowId, (u32, u32)> {
    for e in events {
        if let UserEvent::Move { pos, window } = e {
            windows.insert(*window, (pos.x, pos.y));
        }
    }
    windows
}

/// Where the game says each window should stand.
fn shown(g: &Game) -> HashMap<WindowId, (u32, u32)> {
    let mut m = HashMap::new();
    let at = |p: Pos| (p.x * 100 + g.size.width % 100, p.y * 100 + g.size.height % 100);
    m.insert(WindowId::Head, at(g.snake.head));
    m.insert(WindowId::Apple, at(g.apple));
    for s in g.snake.tail.iter() {
        m.insert(WindowId::Tail(s.index), at(s.pos));
    }
    m
}

#[test]
fn valid_move_out_of_bounds_on_each_side() {
    let g = game_with(Pos::new(9, 5), vec![seg(8, 5, 0)], Pos::new(0, 0));
    assert_eq!(g.valid_move(Dir::Right), Err(InvalidMove::OutOfBounds(Pos::new(10, 5))));
    let g = game_with(Pos::new(5, 9), vec![seg(5, 8, 0)], Pos::new(0, 0));
    assert_eq!(g.valid_move(Dir::Up), Err(InvalidMove::OutOfBounds(Pos::new(5, 10))));
    let g = game_with(Pos::new(5, 5), vec![seg(4, 5, 0)], Pos::new(0, 0));
    assert_eq!(g.valid_move(Dir::Down), Ok(()));
}

#[test]
fn valid_move_tail_collision() {
    let g = game_with(Pos::new(5, 5), vec![seg(4, 5, 0), seg(4, 6, 1), seg(5, 6, 2)], Pos::new(0, 0));
    assert_eq!(g.valid_move(Dir::Left), Err(InvalidMove::TailCollision));
    // the last segment counts too, although it would move away
    assert_eq!(g.valid_move(Dir::Up), Err(InvalidMove::TailCollision));
    assert_eq!(g.valid_move(Dir::Right), Ok(()));
}

#[test]
fn do_move_without_apple_rotates_the_last_window() {
    let mut g = game_with(Pos::new(5, 5), vec![seg(4, 5, 1), seg(3, 5, 0)], Pos::new(0, 0));
    let mut score = 3;
    let mut high = 7;
    let mut events = Vec::new();
    let before = shown(&g);
    assert_eq!(g.do_move(Dir::Up, &mut score, &mut high, &mut events), Ok(()));
    assert_eq!(g.snake.head, Pos::new(5, 6));
    assert_eq!(tail_of(&g), vec![(5, 5, 0), (4, 5, 1)]);
    assert_eq!((score, high), (3, 7));
    assert_eq!(
        events,
        vec![
            UserEvent::Move { pos: screen(550, 530), window: WindowId::Tail(0) },
            UserEvent::Move { pos: screen(550, 630), window: WindowId::Head },
        ]
    );
    assert_eq!(apply(before, &events), shown(&g));
}

#[test]
fn do_move_onto_apple_grows_and_scores() {
    let mut g = game_with(Pos::new(5, 5), vec![seg(4, 5, 0)], Pos::new(6, 5));
    let mut score = 4;
    let mut high = 4;
    let mut events = Vec::new();
    let before = shown(&g);
    assert_eq!(g.do_move(Dir::Right, &mut score, &mut high, &mut events), Ok(()));
    assert_eq!(g.snake.head, Pos::new(6, 5));
    assert_eq!(tail_of(&g), vec![(5, 5, 1), (4, 5, 0)]);
    assert_eq!((score, high), (5, 5));
    assert_eq!(events.len(), 3);
    assert_eq!(events[0], UserEvent::Move { pos: screen(550, 530), window: WindowId::Tail(1) });
    assert_eq!(events[1], UserEvent::Move { pos: screen(g.apple.x * 100 + 50, g.apple.y * 100 + 30), window: WindowId::Apple });
    assert_eq!(events[2], UserEvent::Move { pos: screen(650, 530), window: WindowId::Head });
    assert!(g.apple.x < 10 && g.apple.y < 10);
    assert!(g.apple != g.snake.head && !g.snake.is_tail(g.apple));
    assert_eq!(apply(before, &events), shown(&g));
}

#[test]
fn high_score_only_follows_a_higher_score() {
    let mut g = game_with(Pos::new(5, 5), vec![seg(4, 5, 0)], Pos::new(6, 5));
    let mut score = 2;
    let mut high = 9;
    let mut events = Vec::new();
    assert_eq!(g.do_move(Dir::Right, &mut score, &mut high, &mut events), Ok(()));
    assert_eq!((score, high), (3, 9));
}

#[test]
fn step_that_breaks_the_rules_ends_the_game() {
    let mut g = game_with(Pos::new(0, 5), vec![seg(1, 5, 0)], Pos::new(3, 3));
    let mut score = 6;
    let mut high = 6;
    let mut events = Vec::new();
    let t = g.step(Dir::Right, &mut score, &mut high, &mut events);
    assert_eq!(t, Turn::Over { reason: InvalidMove::TailCollision, new_high_score: true });
    assert_eq!(events, vec![UserEvent::Kill]);
    assert_eq!(g.snake.head, Pos::new(0, 5));
    let mut high = 10;
    let mut events = Vec::new();
    let t = g.step(Dir::Up, &mut score, &mut high, &mut events);
    assert_eq!(t, Turn::Moved);
    let mut g = game_with(Pos::new(5, 9), vec![seg(5, 8, 0)], Pos::new(3, 3));
    let t = g.step(Dir::Up, &mut score, &mut high, &mut events);
    assert_eq!(t, Turn::Over { reason: InvalidMove::OutOfBounds(Pos::new(5, 10)), new_high_score: false });
}

#[test]
fn new_game_places_its_windows() {
    let size = ScreenSize { width: 1920, height: 1080 };
    let (g, events) = Game::new(size).expect("a free cell for the apple");
    assert_eq!(g.snake.head, Pos::new(START_X, START_Y));
    assert_eq!(tail_of(&g), vec![(3, 7, 0)]);
    assert_eq!((g.validx.clone(), g.validy.clone()), (0..19, 0..10));
    assert_eq!(events.len(), 3);
    assert_eq!(events[0], UserEvent::Move { pos: screen(420, 780), window: WindowId::Head });
    assert_eq!(events[1], UserEvent::Move { pos: screen(320, 780), window: WindowId::Tail(0) });
    assert!(g.apple.x < 19 && g.apple.y < 10);
    assert!(g.apple != g.snake.head && !g.snake.is_tail(g.apple));
    assert_eq!(apply(HashMap::new(), &events), shown(&g));
}

#[test]
fn randomize_apple_fails_when_no_cell_is_free() {
    let mut g = game_with(Pos::new(0, 0), vec![seg(1, 0, 0)], Pos::new(0, 0));
    g.validx = 0..1;
    g.validy = 0..1;
    g.size = ScreenSize { width: 150, height: 130 };
    let mut events = Vec::new();
    assert_eq!(g.randomize_apple(&mut events).0, Err(()));
    assert!(events.is_empty());
    assert_eq!(g.apple, Pos::new(0, 0));
}

#[test]
fn randomize_apple_finds_the_only_free_cell() {
    // a 2 by 1 grid with the head on one cell
    let mut g = game_with(Pos::new(0, 0), vec![seg(0, 1, 0)], Pos::new(0, 0));
    g.validx = 0..2;
    g.validy = 0..1;
    g.size = ScreenSize { width: 250, height: 130 };
    for _ in 0..50 {
        let mut events = Vec::new();
        assert_eq!(g.randomize_apple(&mut events).0, Ok(()));
        assert_eq!(g.apple, Pos::new(1, 0));
        assert_eq!(events, vec![UserEvent::Move { pos: screen(150, 30), window: WindowId::Apple }]);
    }
}

#[test]
fn randomize_apple_fills_a_nearly_full_grid() {
    // a 3 by 1 grid; the snake covers two cells, one stays free
    for _ in 0..50 {
        let mut g = game_with(Pos::new(0, 0), vec![seg(2, 0, 0)], Pos::new(5, 5));
        g.validx = 0..3;
        g.validy = 0..1;
        g.size = ScreenSize { width: 300, height: 100 };
        let mut events = Vec::new();
        assert_eq!(g.randomize_apple(&mut events).0, Ok(()));
        assert_eq!(g.apple, Pos::new(1, 0));
    }
}

#[test]
fn first_free_cell_scans_columns_then_rows() {
    let g = game_with(Pos::new(0, 0), vec![seg(0, 1, 0), seg(1, 1, 1)], Pos::new(5, 5));
    assert_eq!(g.first_free_cell(), Some(Pos::new(0, 2)));
    let mut g = game_with(Pos::new(0, 0), vec![seg(1, 0, 0)], Pos::new(5, 5));
    g.validx = 0..2;
    g.validy = 0..1;
    assert_eq!(g.first_free_cell(), None);
}

#[test]
fn randomize_apple_draws_different_cells() {
    let mut g = game_with(Pos::new(5, 5), vec![seg(4, 5, 0)], Pos::new(0, 0));
    let mut seen = std::collections::HashSet::new();
    for _ in 0..200 {
        let mut events = Vec::new();
        assert_eq!(g.randomize_apple(&mut events).0, Ok(()));
        seen.insert((g.apple.x, g.apple.y));
    }
    assert!(seen.len() > 1);
}

#[test]
fn try_place_apple_refuses_the_snake() {
    let mut g = game_with(Pos::new(5, 5), vec![seg(4, 5, 0)], Pos::new(0, 0));
    let mut events = Vec::new();
    assert!(!g.try_place_apple(Pos::new(5, 5), &mut events));
    assert!(!g.try_place_apple(Pos::new(4, 5), &mut events));
    assert!(events.is_empty());
    assert!(g.try_place_apple(Pos::new(2, 3), &mut events));
    assert_eq!(g.apple, Pos::new(2, 3));
    assert_eq!(events, vec![UserEvent::Move { pos: screen(250, 330), window: WindowId::Apple }]);
}

#[test]
fn a_long_game_keeps_the_rules() {
    // walk a square, eating whatever apple is on the way; every turn the
    // windows follow the game and the snake neither breaks nor overlaps
    let size = ScreenSize { width: 1000, height: 1000 };
    let (mut g, events) = Game::new(size).expect("a free cell for the apple");
    let mut windows = apply(HashMap::new(), &events);
    let mut score = 0u32;
    let mut high = 0u32;
    let moves = [Dir::Right, Dir::Right, Dir::Up, Dir::Up, Dir::Left, Dir::Left, Dir::Left, Dir::Down, Dir::Down];
    for d in moves.iter().cycle().take(40) {
        let mut events = Vec::new();
        match g.step(*d, &mut score, &mut high, &mut events) {
            Turn::Moved => {
                windows = apply(windows, &events);
                assert_eq!(windows, shown(&g));
                assert_eq!(g.snake.tail.len() as u32, score + 1);
                assert!(high >= score);
                let mut cells: Vec<(u32, u32)> = g.snake.tail.iter().map(|s| (s.pos.x, s.pos.y)).collect();
                cells.push((g.snake.head.x, g.snake.head.y));
                let n = cells.len();
                assert!(cells.iter().all(|&(x, y)| x < 10 && y < 10));
                assert!(g.apple.x < 10 && g.apple.y < 10 && !cells.contains(&(g.apple.x, g.apple.y)));
                cells.sort();
                cells.dedup();
                assert_eq!(cells.len(), n);
            }
            _ => break,
        }
    }
}

#[test]
fn new_game_always_starts_when_the_start_cells_are_off_the_grid() {
    // a 3 by 3 grid: the start cells (4, 7) and (3, 7) lie outside it
    for _ in 0..50 {
        let (g, events) = Game::new(ScreenSize { width: 350, height: 320 }).expect("a free cell for the apple");
        assert!(g.apple.x < 3 && g.apple.y < 3);
        assert_eq!(events.len(), 3);
    }
}

#[test]
fn randomize_apple_always_succeeds_on_a_free_grid() {
    let mut g = game_with(Pos::new(20, 20), vec![seg(19, 20, 0)], Pos::new(0, 0));
    g.size = ScreenSize { width: 250, height: 250 };
    g.validx = 0..2;
    g.validy = 0..2;
    for _ in 0..50 {
        let mut events = Vec::new();
        assert_eq!(g.randomize_apple(&mut events).0, Ok(()));
        assert!(g.apple.x < 2 && g.apple.y < 2);
        assert_eq!(events.len(), 1);
    }
}

#[test]
fn step_off_the_left_or_bottom_edge_is_out_of_bounds() {
    let mut g = game_with(Pos::new(0, 5), vec![seg(1, 5, 0)], Pos::new(3, 3));
    assert_eq!(g.valid_move(Dir::Left), Err(InvalidMove::OutOfBounds(Pos::new(u32::MAX, 5))));
    let mut score = 2;
    let mut high = 4;
    let mut events = Vec::new();
    let t = g.step(Dir::Left, &mut score, &mut high, &mut events);
    assert_eq!(t, Turn::Over { reason: InvalidMove::OutOfBounds(Pos::new(u32::MAX, 5)), new_high_score: false });
    assert_eq!(events, vec![UserEvent::Kill]);
    let g = game_with(Pos::new(5, 0), vec![seg(5, 1, 0)], Pos::new(3, 3));
    assert_eq!(g.valid_move(Dir::Down), Err(InvalidMove::OutOfBounds(Pos::new(5, u32::MAX))));
}

#[test]
fn pos_wrapping_add_wraps_at_the_u32_ends() {
    assert_eq!(Pos::new(0, 0).wrapping_add(Dir::Left), Pos::new(u32::MAX, 0));
    assert_eq!(Pos::new(0, 0).wrapping_add(Dir::Down), Pos::new(0, u32::MAX));
    assert_eq!(Pos::new(u32::MAX, 1).wrapping_add(Dir::Right), Pos::new(0, 1));
    assert_eq!(Pos::new(1, u32::MAX).wrapping_add(Dir::Up), Pos::new(1, 0));
    assert_eq!(Pos::new(3, 3).wrapping_add(Dir::Up), Pos::new(3, 4));
    assert!(!Pos::new(0, 3).can_add(Dir::Left));
    assert!(Pos::new(0, 3).can_add(Dir::Right));
}
