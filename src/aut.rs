use vstd::prelude::*;

use crate::coord::Coord;
use crate::dir::Dir;

verus! {

/// A block that travels across the grid on its own, pushing and bouncing.
#[derive(Debug, Clone, Copy, PartialEq, Eq, Structural)]
pub struct Automaton {
    pub coord: Coord,
    pub dir: Dir,
}

/// The glyphs that stand for automata: `^`, `>`, `v` and `<`.
pub open spec fn is_glyph(c: char) -> bool {
    c == '^' || c == '>' || c == 'v' || c == '<'
}

/// The heading of an automaton glyph.
pub open spec fn glyph_dir(c: char) -> Option<Dir> {
    if c == '^' {
        Some(Dir::N)
    } else if c == '>' {
        Some(Dir::E)
    } else if c == 'v' {
        Some(Dir::S)
    } else if c == '<' {
        Some(Dir::W)
    } else {
        None
    }
}

/// The glyph of an automaton with a cardinal heading.
pub open spec fn dir_glyph(d: Dir) -> char {
    match d {
        Dir::N => '^',
        Dir::E => '>',
        Dir::S => 'v',
        _ => '<',
    }
}

/// An automaton may push any character but the wall `O`.
pub open spec fn pushable(c: char) -> bool {
    c != 'O'
}

impl Automaton {
    /// Whether `c` is an automaton glyph.
    pub fn is_automaton(c: char) -> (r: bool)
        ensures
            r == is_glyph(c),
    {
        c == '^' || c == '>' || c == 'v' || c == '<'
    }

    /// Whether an automaton can push `c` out of its way.
    pub fn is_pushable(c: char) -> (r: bool)
        ensures
            r == pushable(c),
    {
        c != 'O'
    }

    /// The heading an automaton glyph stands for, if `c` is one.
    pub fn char_to_dir(c: char) -> (r: Option<Dir>)
        ensures
            r == glyph_dir(c),
            r is Some <==> is_glyph(c),
            r matches Some(d) ==> d.is_cardinal(),
    {
        match c {
            '^' => Some(Dir::N),
            '>' => Some(Dir::E),
            'v' => Some(Dir::S),
            '<' => Some(Dir::W),
            _ => None,
        }
    }

    /// An automaton at `coord` heading along `dir`.
    pub fn new(coord: Coord, dir: Dir) -> (r: Automaton)
        requires
            dir.is_cardinal(),
        ensures
            r == (Automaton { coord, dir }),
    {
        Automaton { coord, dir }
    }

    /// The glyph that shows the automaton.
    pub fn glyph(&self) -> (r: char)
        requires
            self.dir.is_cardinal(),
        ensures
            r == dir_glyph(self.dir),
            is_glyph(r),
            glyph_dir(r) == Some(self.dir),
    {
        match self.dir {
            Dir::N => '^',
            Dir::E => '>',
            Dir::S => 'v',
            _ => '<',
        }
    }
}

} // verus!
