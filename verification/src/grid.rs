//! Grid positions, directions and the conversion of a grid cell to a
//! position on the screen.
use vstd::prelude::*;
use vstd::string::StringExecFns;
use crate::text::{decimal, u32_to_string};

verus! {

/// Side length, in pixels, of one grid cell (one window on the screen).
pub const SCALE: u32 = 100;

/// A direction in which the snake can move. `Up` increases `y`.
#[derive(Clone, Copy, Debug, PartialEq, Eq, Structural)]
pub enum Dir {
    Up,
    Down,
    Left,
    Right,
}

impl Dir {
    /// The name of the direction.
    pub open spec fn text(self) -> Seq<char> {
        match self {
            Dir::Up => "Up"@,
            Dir::Down => "Down"@,
            Dir::Left => "Left"@,
            Dir::Right => "Right"@,
        }
    }

    /// The name of the direction, as a `String`.
    pub fn to_string(&self) -> (s: String)
        ensures
            s@ == self.text(),
    {
        match self {
            Dir::Up => String::from_str("Up"),
            Dir::Down => String::from_str("Down"),
            Dir::Left => String::from_str("Left"),
            Dir::Right => String::from_str("Right"),
        }
    }
}

/// The change in `x` that one step in `d` makes.
pub open spec fn dir_dx(d: Dir) -> int {
    match d {
        Dir::Left => -1,
        Dir::Right => 1,
        _ => 0,
    }
}

/// The change in `y` that one step in `d` makes.
pub open spec fn dir_dy(d: Dir) -> int {
    match d {
        Dir::Up => 1,
        Dir::Down => -1,
        _ => 0,
    }
}

/// Whether `v` is a value of `u32`.
pub open spec fn in_u32(v: int) -> bool {
    0 <= v <= u32::MAX
}

/// `v` taken modulo 2^32, for `v` at most one step outside the `u32` range.
pub open spec fn wrap(v: int) -> u32 {
    if v < 0 {
        (v + 0x1_0000_0000) as u32
    } else if v > u32::MAX {
        (v - 0x1_0000_0000) as u32
    } else {
        v as u32
    }
}

/// A cell of the grid.
#[derive(Clone, Copy, Debug, PartialEq, Eq, Structural)]
pub struct Pos {
    pub x: u32,
    pub y: u32,
}

impl Pos {
    /// Whether the cell one step in `d` from `self` has coordinates of `u32`.
    pub open spec fn can_step(self, d: Dir) -> bool {
        in_u32(self.x + dir_dx(d)) && in_u32(self.y + dir_dy(d))
    }

    /// Whether the cell one step against `d` from `self` has coordinates of `u32`.
    pub open spec fn can_step_back(self, d: Dir) -> bool {
        in_u32(self.x - dir_dx(d)) && in_u32(self.y - dir_dy(d))
    }

    /// The cell one step in `d` from `self`.
    pub open spec fn stepped(self, d: Dir) -> Pos {
        Pos { x: (self.x + dir_dx(d)) as u32, y: (self.y + dir_dy(d)) as u32 }
    }

    /// The cell one step against `d` from `self`.
    pub open spec fn stepped_back(self, d: Dir) -> Pos {
        Pos { x: (self.x - dir_dx(d)) as u32, y: (self.y - dir_dy(d)) as u32 }
    }

    /// The cell one step in `d` from `self`, each coordinate taken modulo
    /// 2^32: what unchecked `u32` arithmetic gives.
    pub open spec fn wrapping_stepped(self, d: Dir) -> Pos {
        Pos { x: wrap(self.x + dir_dx(d)), y: wrap(self.y + dir_dy(d)) }
    }

    /// Whether one step in `d` from `self` stays within `u32` coordinates.
    pub fn can_add(&self, d: Dir) -> (b: bool)
        ensures
            b == self.can_step(d),
    {
        match d {
            Dir::Up => self.y < u32::MAX,
            Dir::Down => self.y > 0,
            Dir::Left => self.x > 0,
            Dir::Right => self.x < u32::MAX,
        }
    }

    /// The cell one step in `d` from `self`, each coordinate taken modulo
    /// 2^32.
    pub fn wrapping_add(&self, d: Dir) -> (p: Pos)
        ensures
            p == self.wrapping_stepped(d),
            self.can_step(d) ==> p == self.stepped(d),
    {
        match d {
            Dir::Up => Pos::new(self.x, if self.y == u32::MAX { 0 } else { self.y + 1 }),
            Dir::Down => Pos::new(self.x, if self.y == 0 { u32::MAX } else { self.y - 1 }),
            Dir::Left => Pos::new(if self.x == 0 { u32::MAX } else { self.x - 1 }, self.y),
            Dir::Right => Pos::new(if self.x == u32::MAX { 0 } else { self.x + 1 }, self.y),
        }
    }

    /// The description of the cell: its two coordinates.
    pub open spec fn text(self) -> Seq<char> {
        "x: "@ + decimal(self.x as nat) + ", y: "@ + decimal(self.y as nat)
    }

    /// The description of the cell, as a `String`.
    pub fn to_string(&self) -> (s: String)
        ensures
            s@ == self.text(),
    {
        let mut s = String::from_str("x: ");
        let xs = u32_to_string(self.x);
        s.append(xs.as_str());
        s.append(", y: ");
        let ys = u32_to_string(self.y);
        s.append(ys.as_str());
        s
    }

    pub fn new(x: u32, y: u32) -> (p: Pos)
        ensures
            p.x == x,
            p.y == y,
    {
        Pos { x, y }
    }
}

impl std::ops::Add<Dir> for Pos {
    type Output = Pos;

    /// The cell one step in `rhs` from `self`.
    fn add(self, rhs: Dir) -> (r: Pos) {
        match rhs {
            Dir::Up => Pos::new(self.x, self.y + 1),
            Dir::Down => Pos::new(self.x, self.y - 1),
            Dir::Left => Pos::new(self.x - 1, self.y),
            Dir::Right => Pos::new(self.x + 1, self.y),
        }
    }
}

impl vstd::std_specs::ops::AddSpecImpl<Dir> for Pos {
    open spec fn obeys_add_spec() -> bool {
        true
    }

    open spec fn add_req(self, rhs: Dir) -> bool {
        self.can_step(rhs)
    }

    open spec fn add_spec(self, rhs: Dir) -> Pos {
        self.stepped(rhs)
    }
}

impl std::ops::Sub<Dir> for Pos {
    type Output = Pos;

    /// The cell one step against `rhs` from `self`.
    fn sub(self, rhs: Dir) -> (r: Pos) {
        match rhs {
            Dir::Up => Pos::new(self.x, self.y - 1),
            Dir::Down => Pos::new(self.x, self.y + 1),
            Dir::Left => Pos::new(self.x + 1, self.y),
            Dir::Right => Pos::new(self.x - 1, self.y),
        }
    }
}

impl vstd::std_specs::ops::SubSpecImpl<Dir> for Pos {
    open spec fn obeys_sub_spec() -> bool {
        true
    }

    open spec fn sub_req(self, rhs: Dir) -> bool {
        self.can_step_back(rhs)
    }

    open spec fn sub_spec(self, rhs: Dir) -> Pos {
        self.stepped_back(rhs)
    }
}

impl Pos {
    /// Moves `self` one step in `rhs`, in place.
    pub fn add_assign(&mut self, rhs: Dir)
        requires
            old(self).can_step(rhs),
        ensures
            *final(self) == old(self).stepped(rhs),
    {
        match rhs {
            Dir::Up => {
                self.y += 1;
            },
            Dir::Down => {
                self.y -= 1;
            },
            Dir::Left => {
                self.x -= 1;
            },
            Dir::Right => {
                self.x += 1;
            },
        }
    }
}

/// One step against `d` undoes a step in `d`, and a step always changes the
/// cell.
pub proof fn lemma_sub_undoes_add(p: Pos, d: Dir)
    requires
        p.can_step(d),
    ensures
        p.stepped(d).can_step_back(d),
        p.stepped(d).stepped_back(d) == p,
        p.stepped(d) != p,
{
}

} // verus!
