//! The four directions a cell can face, and their arithmetic in quarter turns.

use vstd::prelude::*;
use vstd::std_specs::convert::FromSpecImpl;
use vstd::std_specs::ops::AddSpecImpl;
use vstd::std_specs::ops::RemSpecImpl;
use vstd::std_specs::ops::SubSpecImpl;

verus! {

/// A direction of a cell. Counted in clockwise quarter turns from `Right`,
/// on a grid whose y axis points up.
#[derive(Debug, Clone, Copy, PartialEq, Eq, Structural)]
pub enum Direction {
    Right,
    Down,
    Left,
    Up,
}

impl Direction {
    /// The number of clockwise quarter turns that lead from `Right` to `self`.
    pub open spec fn turns(self) -> int {
        match self {
            Direction::Right => 0,
            Direction::Down => 1,
            Direction::Left => 2,
            Direction::Up => 3,
        }
    }

    /// The direction reached from `Right` by `n` clockwise quarter turns;
    /// a negative `n` turns counter-clockwise.
    pub open spec fn from_turns(n: int) -> Direction {
        let r = n % 4;
        if r == 0 {
            Direction::Right
        } else if r == 1 {
            Direction::Down
        } else if r == 2 {
            Direction::Left
        } else {
            Direction::Up
        }
    }

    /// `self` turned clockwise by `n` quarter turns.
    pub open spec fn turned(self, n: int) -> Direction {
        Direction::from_turns(self.turns() + n)
    }

    /// The step along the x axis that one move in this direction makes.
    pub open spec fn dx(self) -> int {
        match self {
            Direction::Right => 1,
            Direction::Left => -1,
            _ => 0,
        }
    }

    /// The step along the y axis that one move in this direction makes.
    pub open spec fn dy(self) -> int {
        match self {
            Direction::Up => 1,
            Direction::Down => -1,
            _ => 0,
        }
    }

    /// The direction a half turn on.
    pub open spec fn spec_flip(self) -> Direction {
        self.turned(2)
    }

    /// The direction a quarter turn counter-clockwise on.
    pub open spec fn spec_rotate_left(self) -> Direction {
        self.turned(-1)
    }

    /// The direction a quarter turn clockwise on.
    pub open spec fn spec_rotate_right(self) -> Direction {
        self.turned(1)
    }

    /// The direction with its quarter turns reduced modulo `radius`.
    pub open spec fn spec_shrink(self, radius: u8) -> Direction {
        Direction::from_turns(self.turns() % (radius as int))
    }

    /// `self` turned clockwise by as many quarter turns as `rhs` counts.
    pub open spec fn spec_plus(self, rhs: Direction) -> Direction {
        self.turned(rhs.turns())
    }

    /// `self` turned counter-clockwise by as many quarter turns as `rhs`
    /// counts.
    pub open spec fn spec_minus(self, rhs: Direction) -> Direction {
        self.turned(-rhs.turns())
    }

    /// `self` after `k` applications of `rotate_left`.
    pub open spec fn rotate_left_times(self, k: nat) -> Direction
        decreases k,
    {
        if k == 0 {
            self
        } else {
            self.rotate_left_times((k - 1) as nat).spec_rotate_left()
        }
    }

    /// The number of quarter turns, as a byte.
    pub fn to_u8(self) -> (r: u8)
        ensures
            r == self.turns(),
    {
        match self {
            Direction::Right => 0,
            Direction::Down => 1,
            Direction::Left => 2,
            Direction::Up => 3,
        }
    }

    /// The direction with `i mod 4` quarter turns.
    pub fn from_u8(i: u8) -> (r: Direction)
        ensures
            r == Direction::from_turns(i as int),
    {
        let m: u8 = i % 4;
        if m == 0 {
            Direction::Right
        } else if m == 1 {
            Direction::Down
        } else if m == 2 {
            Direction::Left
        } else {
            Direction::Up
        }
    }

    /// Turns the direction into a unit vector `(x, y)`; y grows upward.
    pub fn to_vector(self) -> (v: (isize, isize))
        ensures
            v.0 == self.dx(),
            v.1 == self.dy(),
    {
        match self {
            Direction::Right => (1, 0),
            Direction::Down => (0, -1),
            Direction::Left => (-1, 0),
            Direction::Up => (0, 1),
        }
    }

    /// Rotates the direction by a half turn.
    #[verifier::when_used_as_spec(spec_flip)]
    pub fn flip(self) -> (r: Direction)
        ensures
            r == self.spec_flip(),
    {
        match self {
            Direction::Right => Direction::Left,
            Direction::Down => Direction::Up,
            Direction::Left => Direction::Right,
            Direction::Up => Direction::Down,
        }
    }

    /// Rotates the direction one quarter turn counter-clockwise: `Right`
    /// becomes `Up`.
    #[verifier::when_used_as_spec(spec_rotate_left)]
    pub fn rotate_left(self) -> (r: Direction)
        ensures
            r == self.spec_rotate_left(),
    {
        match self {
            Direction::Right => Direction::Up,
            Direction::Down => Direction::Right,
            Direction::Left => Direction::Down,
            Direction::Up => Direction::Left,
        }
    }

    /// Rotates the direction one quarter turn clockwise: `Right` becomes
    /// `Down`.
    #[verifier::when_used_as_spec(spec_rotate_right)]
    pub fn rotate_right(self) -> (r: Direction)
        ensures
            r == self.spec_rotate_right(),
    {
        match self {
            Direction::Right => Direction::Down,
            Direction::Down => Direction::Left,
            Direction::Left => Direction::Up,
            Direction::Up => Direction::Right,
        }
    }

    /// Reduces the direction modulo `radius` quarter turns. With a radius of
    /// 2, `Right` and `Left` both shrink to `Right`, `Down` and `Up` to `Down`.
    #[verifier::when_used_as_spec(spec_shrink)]
    pub fn shrink(self, radius: u8) -> (r: Direction)
        requires
            radius > 0,
        ensures
            r == self.spec_shrink(radius),
    {
        Direction::from_u8(self.to_u8() % radius)
    }

    /// `self` turned clockwise by as many quarter turns as `rhs` counts.
    #[verifier::when_used_as_spec(spec_plus)]
    pub fn plus(self, rhs: Direction) -> (r: Direction)
        ensures
            r == self.spec_plus(rhs),
    {
        Direction::from_u8(self.to_u8() + rhs.to_u8())
    }

    /// `self` turned counter-clockwise by as many quarter turns as `rhs`
    /// counts.
    #[verifier::when_used_as_spec(spec_minus)]
    pub fn minus(self, rhs: Direction) -> (r: Direction)
        ensures
            r == self.spec_minus(rhs),
    {
        Direction::from_u8(self.to_u8() + 4 - rhs.to_u8())
    }
}

impl Direction {
    /// The direction with `i mod 4` quarter turns; a negative `i` counts
    /// counter-clockwise.
    pub fn from_i32(i: i32) -> (r: Direction)
        ensures
            r == Direction::from_turns(i as int),
    {
        let m: i32 = i % 4;
        if m == 0 {
            Direction::Right
        } else if m == 1 || m == -3 {
            Direction::Down
        } else if m == 2 || m == -2 {
            Direction::Left
        } else {
            Direction::Up
        }
    }

    /// The direction with `i mod 4` quarter turns.
    pub fn from_usize(i: usize) -> (r: Direction)
        ensures
            r == Direction::from_turns(i as int),
    {
        Direction::from_u8((i % 4) as u8)
    }

    /// The name of the direction.
    pub fn name(self) -> (r: &'static str)
        ensures
            r@ == self.spec_name(),
    {
        match self {
            Direction::Right => "Right",
            Direction::Down => "Down",
            Direction::Left => "Left",
            Direction::Up => "Up",
        }
    }

    /// The name of the direction.
    pub open spec fn spec_name(self) -> Seq<char> {
        match self {
            Direction::Right => "Right"@,
            Direction::Down => "Down"@,
            Direction::Left => "Left"@,
            Direction::Up => "Up"@,
        }
    }
}

impl From<u8> for Direction {
    fn from(i: u8) -> (r: Direction) {
        Direction::from_u8(i)
    }
}

impl FromSpecImpl<u8> for Direction {
    open spec fn obeys_from_spec() -> bool {
        true
    }

    open spec fn from_spec(i: u8) -> Direction {
        Direction::from_turns(i as int)
    }
}

impl From<i32> for Direction {
    fn from(i: i32) -> (r: Direction) {
        Direction::from_i32(i)
    }
}

impl FromSpecImpl<i32> for Direction {
    open spec fn obeys_from_spec() -> bool {
        true
    }

    open spec fn from_spec(i: i32) -> Direction {
        Direction::from_turns(i as int)
    }
}

impl From<usize> for Direction {
    fn from(i: usize) -> (r: Direction) {
        Direction::from_usize(i)
    }
}

impl FromSpecImpl<usize> for Direction {
    open spec fn obeys_from_spec() -> bool {
        true
    }

    open spec fn from_spec(i: usize) -> Direction {
        Direction::from_turns(i as int)
    }
}

impl From<Direction> for u8 {
    fn from(d: Direction) -> (r: u8) {
        d.to_u8()
    }
}

impl FromSpecImpl<Direction> for u8 {
    open spec fn obeys_from_spec() -> bool {
        true
    }

    open spec fn from_spec(d: Direction) -> u8 {
        d.turns() as u8
    }
}

impl From<Direction> for i32 {
    fn from(d: Direction) -> (r: i32) {
        d.to_u8() as i32
    }
}

impl FromSpecImpl<Direction> for i32 {
    open spec fn obeys_from_spec() -> bool {
        true
    }

    open spec fn from_spec(d: Direction) -> i32 {
        d.turns() as i32
    }
}

impl From<Direction> for usize {
    fn from(d: Direction) -> (r: usize) {
        d.to_u8() as usize
    }
}

impl FromSpecImpl<Direction> for usize {
    open spec fn obeys_from_spec() -> bool {
        true
    }

    open spec fn from_spec(d: Direction) -> usize {
        d.turns() as usize
    }
}

impl std::ops::Add<Direction> for Direction {
    type Output = Direction;

    fn add(self, rhs: Direction) -> (r: Direction) {
        self.plus(rhs)
    }
}

impl AddSpecImpl<Direction> for Direction {
    open spec fn obeys_add_spec() -> bool {
        true
    }

    open spec fn add_req(self, rhs: Direction) -> bool {
        true
    }

    open spec fn add_spec(self, rhs: Direction) -> Direction {
        self.spec_plus(rhs)
    }
}

impl std::ops::Add<u8> for Direction {
    type Output = Direction;

    fn add(self, rhs: u8) -> (r: Direction) {
        self.plus(Direction::from_u8(rhs))
    }
}

impl AddSpecImpl<u8> for Direction {
    open spec fn obeys_add_spec() -> bool {
        true
    }

    open spec fn add_req(self, rhs: u8) -> bool {
        true
    }

    open spec fn add_spec(self, rhs: u8) -> Direction {
        self.turned(rhs as int)
    }
}

impl std::ops::Sub<Direction> for Direction {
    type Output = Direction;

    fn sub(self, rhs: Direction) -> (r: Direction) {
        self.minus(rhs)
    }
}

impl SubSpecImpl<Direction> for Direction {
    open spec fn obeys_sub_spec() -> bool {
        true
    }

    open spec fn sub_req(self, rhs: Direction) -> bool {
        true
    }

    open spec fn sub_spec(self, rhs: Direction) -> Direction {
        self.spec_minus(rhs)
    }
}

impl std::ops::Sub<u8> for Direction {
    type Output = Direction;

    fn sub(self, rhs: u8) -> (r: Direction) {
        self.minus(Direction::from_u8(rhs))
    }
}

impl SubSpecImpl<u8> for Direction {
    open spec fn obeys_sub_spec() -> bool {
        true
    }

    open spec fn sub_req(self, rhs: u8) -> bool {
        true
    }

    open spec fn sub_spec(self, rhs: u8) -> Direction {
        self.turned(-(rhs as int))
    }
}

impl std::ops::Rem<u8> for Direction {
    type Output = Direction;

    fn rem(self, rhs: u8) -> (r: Direction) {
        self.shrink(rhs)
    }
}

impl RemSpecImpl<u8> for Direction {
    open spec fn obeys_rem_spec() -> bool {
        true
    }

    open spec fn rem_req(self, rhs: u8) -> bool {
        rhs > 0
    }

    open spec fn rem_spec(self, rhs: u8) -> Direction {
        self.spec_shrink(rhs)
    }
}

impl std::ops::AddAssign<u8> for Direction {
    fn add_assign(&mut self, rhs: u8)
        ensures
            *final(self) == old(self).turned(rhs as int),
    {
        *self = self.plus(Direction::from_u8(rhs));
    }
}

impl std::ops::SubAssign<u8> for Direction {
    fn sub_assign(&mut self, rhs: u8)
        ensures
            *final(self) == old(self).turned(-(rhs as int)),
    {
        *self = self.minus(Direction::from_u8(rhs));
    }
}

/// Every direction is the one that its own count of quarter turns names.
pub proof fn lemma_from_turns_of_turns(d: Direction)
    ensures
        Direction::from_turns(d.turns()) == d,
        0 <= d.turns() < 4,
{
}

/// A half turn made twice leads back to the start.
pub proof fn lemma_flip_flip(d: Direction)
    ensures
        d.flip().flip() == d,
{
}

/// Turning left `k` times is turning clockwise by `(-k) mod 4` quarter turns.
pub proof fn lemma_rotate_left_times(d: Direction, k: nat)
    ensures
        d.rotate_left_times(k) == d.turned((-(k as int)) % 4),
    decreases k,
{
    if k > 0 {
        lemma_rotate_left_times(d, (k - 1) as nat);
        let before = (-((k - 1) as int)) % 4;
        let after = (-(k as int)) % 4;
        let t = d.turns();
        let prev = d.rotate_left_times((k - 1) as nat);
        assert(after == (before + 3) % 4);
        assert(prev.turns() == (t + before) % 4);
        assert(prev.spec_rotate_left().turns() == (prev.turns() + 3) % 4);
        assert(d.turned(after).turns() == (t + after) % 4);
        assert(prev.spec_rotate_left().turns() == d.turned(after).turns());
        lemma_from_turns_of_turns(prev.spec_rotate_left());
        lemma_from_turns_of_turns(d.turned(after));
    }
}

} // verus!
