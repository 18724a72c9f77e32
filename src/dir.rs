use vstd::prelude::*;

verus! {

/// One of the eight compass headings, listed in clockwise order from north.
#[derive(Debug, Clone, Copy, PartialEq, Eq, Structural)]
pub enum Dir {
    N,
    NE,
    E,
    SE,
    S,
    SW,
    W,
    NW,
}

impl Dir {
    /// Position of the heading in the clockwise cycle N, NE, E, SE, S, SW, W, NW.
    pub open spec fn ord(self) -> int {
        match self {
            Dir::N => 0,
            Dir::NE => 1,
            Dir::E => 2,
            Dir::SE => 3,
            Dir::S => 4,
            Dir::SW => 5,
            Dir::W => 6,
            Dir::NW => 7,
        }
    }

    /// The heading at position `n` of the cycle, counted modulo 8.
    pub open spec fn of_ord(n: int) -> Dir {
        let k = n % 8;
        if k == 0 {
            Dir::N
        } else if k == 1 {
            Dir::NE
        } else if k == 2 {
            Dir::E
        } else if k == 3 {
            Dir::SE
        } else if k == 4 {
            Dir::S
        } else if k == 5 {
            Dir::SW
        } else if k == 6 {
            Dir::W
        } else {
            Dir::NW
        }
    }

    /// Column offset of one step; x grows eastwards.
    pub open spec fn dx(self) -> int {
        match self {
            Dir::NE | Dir::E | Dir::SE => 1,
            Dir::SW | Dir::W | Dir::NW => -1,
            _ => 0,
        }
    }

    /// Row offset of one step; y grows southwards.
    pub open spec fn dy(self) -> int {
        match self {
            Dir::SE | Dir::S | Dir::SW => 1,
            Dir::NE | Dir::N | Dir::NW => -1,
            _ => 0,
        }
    }

    /// North, east, south or west.
    pub open spec fn is_cardinal(self) -> bool {
        self is N || self is E || self is S || self is W
    }

    /// The heading `i` eighths of a turn clockwise from this one.
    pub open spec fn turned(self, i: int) -> Dir {
        Dir::of_ord(self.ord() + i)
    }

    /// This heading reflected across the line through `axis`.
    pub open spec fn mirrored(self, axis: Dir) -> Dir {
        Dir::of_ord(2 * axis.ord() - self.ord())
    }

    /// The heading pointing the other way.
    pub open spec fn opposite(self) -> Dir {
        match self {
            Dir::N => Dir::S,
            Dir::NE => Dir::SW,
            Dir::E => Dir::W,
            Dir::SE => Dir::NW,
            Dir::S => Dir::N,
            Dir::SW => Dir::NE,
            Dir::W => Dir::E,
            Dir::NW => Dir::SE,
        }
    }

    /// The glyph of an arrow pointing along the heading.
    pub open spec fn arrow(self) -> char {
        match self {
            Dir::N => '↑',
            Dir::NE => '↗',
            Dir::E => '→',
            Dir::SE => '↘',
            Dir::S => '↓',
            Dir::SW => '↙',
            Dir::W => '←',
            Dir::NW => '↖',
        }
    }

    fn index(self) -> (r: u8)
        ensures
            r as int == self.ord(),
    {
        match self {
            Dir::N => 0,
            Dir::NE => 1,
            Dir::E => 2,
            Dir::SE => 3,
            Dir::S => 4,
            Dir::SW => 5,
            Dir::W => 6,
            Dir::NW => 7,
        }
    }

    fn from_index(n: u8) -> (r: Dir)
        requires
            n < 8,
        ensures
            r == Dir::of_ord(n as int),
    {
        match n {
            0 => Dir::N,
            1 => Dir::NE,
            2 => Dir::E,
            3 => Dir::SE,
            4 => Dir::S,
            5 => Dir::SW,
            6 => Dir::W,
            _ => Dir::NW,
        }
    }

    /// Column and row offsets of one step along the heading.
    pub fn offsets(self) -> (r: (i8, i8))
        ensures
            r.0 as int == self.dx(),
            r.1 as int == self.dy(),
    {
        match self {
            Dir::N => (0, -1),
            Dir::NE => (1, -1),
            Dir::E => (1, 0),
            Dir::SE => (1, 1),
            Dir::S => (0, 1),
            Dir::SW => (-1, 1),
            Dir::W => (-1, 0),
            Dir::NW => (-1, -1),
        }
    }

    /// Turns the heading by `i` eighths: positive clockwise, negative
    /// counter-clockwise.
    pub fn turn(&mut self, i: i8)
        ensures
            *final(self) == old(self).turned(i as int),
    {
        let k: u16 = (i as i16 + 128) as u16;
        let n: u16 = self.index() as u16 + k;
        let r: u8 = (n % 8) as u8;
        assert((old(self).ord() + i + 128) % 8 == (old(self).ord() + i) % 8);
        *self = Dir::from_index(r);
    }

    /// Reflects the heading across the line through `axis`.
    pub fn mirror(&mut self, axis: Dir)
        ensures
            *final(self) == old(self).mirrored(axis),
    {
        let n: u8 = 2 * axis.index() + 8 - self.index();
        let r: u8 = n % 8;
        assert((2 * axis.ord() + 8 - old(self).ord()) % 8 == (2 * axis.ord() - old(self).ord())
            % 8);
        *self = Dir::from_index(r);
    }

    /// Reverses the heading.
    pub fn bounce(&mut self)
        ensures
            *final(self) == old(self).opposite(),
    {
        self.turn(4);
        proof {
            lemma_opposite_is_half_turn(*old(self));
        }
    }
}

impl From<Dir> for char {
    fn from(d: Dir) -> (r: char) {
        match d {
            Dir::N => '↑',
            Dir::NE => '↗',
            Dir::E => '→',
            Dir::SE => '↘',
            Dir::S => '↓',
            Dir::SW => '↙',
            Dir::W => '←',
            Dir::NW => '↖',
        }
    }
}

impl vstd::std_specs::convert::FromSpecImpl<Dir> for char {
    open spec fn obeys_from_spec() -> bool {
        true
    }

    open spec fn from_spec(d: Dir) -> char {
        d.arrow()
    }
}

impl From<Dir> for (isize, isize) {
    fn from(d: Dir) -> (r: (isize, isize)) {
        let (dx, dy) = d.offsets();
        (dx as isize, dy as isize)
    }
}

impl vstd::std_specs::convert::FromSpecImpl<Dir> for (isize, isize) {
    open spec fn obeys_from_spec() -> bool {
        true
    }

    open spec fn from_spec(d: Dir) -> (isize, isize) {
        (d.dx() as isize, d.dy() as isize)
    }
}

/// The position in the cycle of the heading at position `n` is `n` modulo 8.
pub proof fn lemma_of_ord_ord(n: int)
    ensures
        Dir::of_ord(n).ord() == n % 8,
{
}

/// Every heading sits at its own position of the cycle.
pub proof fn lemma_ord_of_ord(d: Dir)
    ensures
        Dir::of_ord(d.ord()) == d,
        0 <= d.ord() < 8,
{
}

/// Reversing a heading is the same as turning it by half a circle.
pub proof fn lemma_opposite_is_half_turn(d: Dir)
    ensures
        d.opposite() == d.turned(4),
{
}

/// Turning by `i` and then by `-i` restores the heading, for any integer `i`.
pub proof fn lemma_turn_back(d: Dir, i: int)
    ensures
        d.turned(i).turned(-i) == d,
{
    lemma_of_ord_ord(d.ord() + i);
    let k = (d.ord() + i) % 8;
    assert((k - i) % 8 == d.ord() % 8);
    lemma_ord_of_ord(d);
}

/// Mirroring twice across the same axis restores the heading.
pub proof fn lemma_mirror_involution(d: Dir, axis: Dir)
    ensures
        d.mirrored(axis).mirrored(axis) == d,
{
    lemma_of_ord_ord(2 * axis.ord() - d.ord());
    let k = (2 * axis.ord() - d.ord()) % 8;
    assert((2 * axis.ord() - k) % 8 == d.ord() % 8);
    lemma_ord_of_ord(d);
}

} // verus!
