use snake::controls::{key_action, Key, KeyAction};
use snake::errors::InvalidMove;
use snake::grid::{Dir, Pos};
use snake::score::{decode_high_score, encode_high_score};
use snake::screen::{tail_window_count, to_screen, ScreenPos, ScreenSize, WindowId};
use snake::snake::{Snake, TailSeg};

#[test]
fn pos_add_steps_each_way() {
    let p = Pos::new(5, 5);
    assert_eq!(p + Dir::Up, Pos::new(5, 6));
    assert_eq!(p + Dir::Down, Pos::new(5, 4));
    assert_eq!(p + Dir::Left, Pos::new(4, 5));
    assert_eq!(p + Dir::Right, Pos::new(6, 5));
}

#[test]
fn pos_sub_undoes_add() {
    let p = Pos::new(3, 8);
    for d in [Dir::Up, Dir::Down, Dir::Left, Dir::Right] {
        assert_eq!((p + d) - d, p);
        assert_ne!(p + d, p);
    }
    assert_eq!(Pos::new(5, 5) - Dir::Up, Pos::new(5, 4));
    assert_eq!(Pos::new(5, 5) - Dir::Right, Pos::new(4, 5));
}

#[test]
fn pos_add_assign_moves_in_place() {
    let mut p = Pos::new(1, 1);
    p.add_assign(Dir::Right);
    p.add_assign(Dir::Up);
    p.add_assign(Dir::Up);
    assert_eq!(p, Pos::new(2, 3));
    p.add_assign(Dir::Left);
    p.add_assign(Dir::Down);
    assert_eq!(p, Pos::new(1, 2));
}

#[test]
fn screen_position_of_a_cell() {
    let size = ScreenSize { width: 1920, height: 1080 };
    assert_eq!(to_screen(Pos::new(3, 7), size), ScreenPos { x: 320, y: 780 });
    assert_eq!(to_screen(Pos::new(0, 0), size), ScreenPos { x: 20, y: 80 });
}

#[test]
fn tail_windows_cover_the_grid() {
    assert_eq!(tail_window_count(ScreenSize { width: 1920, height: 1080 }), 190);
    assert_eq!(tail_window_count(ScreenSize { width: 99, height: 1080 }), 0);
}

#[test]
fn new_snake_has_one_segment_left_of_the_head() {
    let s = Snake::new(Pos::new(4, 7));
    assert_eq!(s.head, Pos::new(4, 7));
    assert_eq!(s.tail.len(), 1);
    assert_eq!(s.tail[0].pos, Pos::new(3, 7));
    assert_eq!(s.tail[0].index, 0);
}

#[test]
fn move_nor_hands_the_last_window_to_the_old_head_cell() {
    let mut s = Snake::new(Pos::new(4, 7));
    s.move_grow(Dir::Right);
    s.move_grow(Dir::Right);
    // tail: (5,7)#2, (4,7)#1, (3,7)#0; head (6,7)
    s.move_nor(Dir::Up);
    assert_eq!(s.head, Pos::new(6, 8));
    let t: Vec<(u32, u32, usize)> = s.tail.iter().map(|x| (x.pos.x, x.pos.y, x.index)).collect();
    assert_eq!(t, vec![(6, 7, 0), (5, 7, 2), (4, 7, 1)]);
}

#[test]
fn move_grow_uses_the_next_window() {
    let mut s = Snake::new(Pos::new(4, 7));
    s.move_grow(Dir::Down);
    assert_eq!(s.head, Pos::new(4, 6));
    let t: Vec<(u32, u32, usize)> = s.tail.iter().map(|x| (x.pos.x, x.pos.y, x.index)).collect();
    assert_eq!(t, vec![(4, 7, 1), (3, 7, 0)]);
}

#[test]
fn is_tail_finds_every_segment() {
    let mut s = Snake::new(Pos::new(4, 7));
    s.move_grow(Dir::Up);
    assert!(s.is_tail(Pos::new(4, 7)));
    assert!(s.is_tail(Pos::new(3, 7)));
    assert!(!s.is_tail(Pos::new(4, 8)));
    assert!(!s.is_tail(Pos::new(0, 0)));
}

#[test]
fn tail_segment_equals_its_cell() {
    let t = TailSeg::new(Pos::new(2, 9), 4);
    assert!(t == Pos::new(2, 9));
    assert!(t != Pos::new(9, 2));
}

#[test]
fn keys_map_to_moves() {
    assert_eq!(key_action(Key::Escape, true), KeyAction::Quit);
    assert_eq!(key_action(Key::S, true), KeyAction::Move(Dir::Up));
    assert_eq!(key_action(Key::Down, true), KeyAction::Move(Dir::Up));
    assert_eq!(key_action(Key::W, true), KeyAction::Move(Dir::Down));
    assert_eq!(key_action(Key::Up, true), KeyAction::Move(Dir::Down));
    assert_eq!(key_action(Key::A, true), KeyAction::Move(Dir::Left));
    assert_eq!(key_action(Key::Left, true), KeyAction::Move(Dir::Left));
    assert_eq!(key_action(Key::D, true), KeyAction::Move(Dir::Right));
    assert_eq!(key_action(Key::Right, true), KeyAction::Move(Dir::Right));
    assert_eq!(key_action(Key::Other, true), KeyAction::Ignore);
    assert_eq!(key_action(Key::W, false), KeyAction::Ignore);
    assert_eq!(key_action(Key::Escape, false), KeyAction::Ignore);
}

#[test]
fn high_score_bytes_are_little_endian() {
    assert_eq!(encode_high_score(258), [2, 1, 0, 0]);
    assert_eq!(encode_high_score(0x12345678), [0x78, 0x56, 0x34, 0x12]);
    assert_eq!(decode_high_score([0xff, 0xff, 0xff, 0xff]), u32::MAX);
    assert_eq!(decode_high_score([7, 0, 0, 1]), 16777223);
}

#[test]
fn high_score_reads_back_what_was_written() {
    for v in [0u32, 1, 255, 256, 65535, 1234567, u32::MAX] {
        assert_eq!(decode_high_score(encode_high_score(v)), v);
        assert_eq!(encode_high_score(v), v.to_le_bytes());
    }
    let b = [9, 8, 7, 6];
    assert_eq!(encode_high_score(decode_high_score(b)), b);
}

#[test]
fn descriptions() {
    assert_eq!(Pos::new(12, 0).to_string(), "x: 12, y: 0");
    assert_eq!(Dir::Up.to_string(), "Up");
    assert_eq!(Dir::Down.to_string(), "Down");
    assert_eq!(Dir::Left.to_string(), "Left");
    assert_eq!(Dir::Right.to_string(), "Right");
    assert_eq!(WindowId::Head.to_string(), "head");
    assert_eq!(WindowId::Apple.to_string(), "apple");
    assert_eq!(WindowId::Tail(107).to_string(), "tail#107");
    assert_eq!(InvalidMove::OutOfBounds(Pos::new(4294967295, 10)).to_string(), "out of bounds(x: 4294967295, y: 10)");
    assert_eq!(InvalidMove::TailCollision.to_string(), "tail collision");
}
