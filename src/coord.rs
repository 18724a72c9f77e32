use vstd::prelude::*;

use crate::dir::Dir;

verus! {

/// A cell of the grid: `x` is the column, `y` the row.
#[derive(Debug, Clone, Copy, PartialEq, Eq, Structural)]
pub struct Coord {
    pub x: usize,
    pub y: usize,
}

/// `v + delta` brought back into `[0, n)`.
pub open spec fn wrapped(v: int, delta: int, n: int) -> int {
    (v + delta) % n
}

impl Coord {
    /// The cell lies on a grid of `width` columns and `height` rows.
    pub open spec fn within(self, width: int, height: int) -> bool {
        self.x < width && self.y < height
    }

    /// The cell one step along `d` on a wrapping grid.
    pub open spec fn stepped(self, d: Dir, width: int, height: int) -> Coord {
        Coord {
            x: wrapped(self.x as int, d.dx(), width) as usize,
            y: wrapped(self.y as int, d.dy(), height) as usize,
        }
    }

    /// The cell `n` steps along `d` on a wrapping grid.
    pub open spec fn stepped_n(self, d: Dir, width: int, height: int, n: nat) -> Coord
        decreases n,
    {
        if n == 0 {
            self
        } else {
            self.stepped_n(d, width, height, (n - 1) as nat).stepped(d, width, height)
        }
    }

    /// The cell in column `x` of row `y`.
    pub fn new(x: usize, y: usize) -> (r: Coord)
        ensures
            r == (Coord { x, y }),
    {
        Coord { x, y }
    }

    /// Moves one step along `dir`, leaving one edge of the grid to come back
    /// at the opposite one.
    pub fn advance(&mut self, dir: Dir, width: usize, height: usize)
        requires
            old(self).within(width as int, height as int),
        ensures
            *final(self) == old(self).stepped(dir, width as int, height as int),
            final(self).within(width as int, height as int),
    {
        let (dx, dy) = dir.offsets();
        self.x = wrap_step(self.x, dx, width);
        self.y = wrap_step(self.y, dy, height);
    }

    /// Moves `n` steps along `dir`, one at a time.
    pub fn moven(&mut self, dir: Dir, width: usize, height: usize, n: u32)
        requires
            old(self).within(width as int, height as int),
        ensures
            *final(self) == old(self).stepped_n(dir, width as int, height as int, n as nat),
            final(self).within(width as int, height as int),
    {
        let mut i: u32 = 0;
        while i < n
            invariant
                i <= n,
                self.within(width as int, height as int),
                *self == old(self).stepped_n(dir, width as int, height as int, i as nat),
            decreases n - i,
        {
            self.advance(dir, width, height);
            i = i + 1;
        }
    }
}

/// One step from `v` by `delta` (one of -1, 0, 1) in `[0, n)`, wrapping round.
fn wrap_step(v: usize, delta: i8, n: usize) -> (r: usize)
    requires
        v < n,
        -1 <= delta <= 1,
    ensures
        r as int == wrapped(v as int, delta as int, n as int),
        r < n,
{
    if delta > 0 {
        if v + 1 == n {
            proof {
                vstd::arithmetic::div_mod::lemma_mod_self_0(n as int);
            }
            0
        } else {
            proof {
                vstd::arithmetic::div_mod::lemma_small_mod((v + 1) as nat, n as nat);
            }
            v + 1
        }
    } else if delta < 0 {
        if v == 0 {
            proof {
                vstd::arithmetic::div_mod::lemma_mod_add_multiples_vanish(-1, n as int);
                vstd::arithmetic::div_mod::lemma_small_mod((n - 1) as nat, n as nat);
            }
            n - 1
        } else {
            proof {
                vstd::arithmetic::div_mod::lemma_small_mod((v - 1) as nat, n as nat);
            }
            v - 1
        }
    } else {
        proof {
            vstd::arithmetic::div_mod::lemma_small_mod(v as nat, n as nat);
        }
        v
    }
}

impl From<(usize, usize)> for Coord {
    fn from(p: (usize, usize)) -> (r: Coord) {
        Coord { x: p.0, y: p.1 }
    }
}

impl vstd::std_specs::convert::FromSpecImpl<(usize, usize)> for Coord {
    open spec fn obeys_from_spec() -> bool {
        true
    }

    open spec fn from_spec(p: (usize, usize)) -> Coord {
        Coord { x: p.0, y: p.1 }
    }
}

/// A step keeps a cell on the grid.
pub proof fn lemma_stepped_within(c: Coord, d: Dir, width: int, height: int)
    requires
        c.within(width, height),
        width <= usize::MAX,
        height <= usize::MAX,
    ensures
        c.stepped(d, width, height).within(width, height),
{
    vstd::arithmetic::div_mod::lemma_mod_bound(c.x + d.dx(), width);
    vstd::arithmetic::div_mod::lemma_mod_bound(c.y + d.dy(), height);
}

/// Any number of steps keeps a cell on the grid.
pub proof fn lemma_stepped_n_within(c: Coord, d: Dir, width: int, height: int, n: nat)
    requires
        c.within(width, height),
        width <= usize::MAX,
        height <= usize::MAX,
    ensures
        c.stepped_n(d, width, height, n).within(width, height),
    decreases n,
{
    if n > 0 {
        lemma_stepped_n_within(c, d, width, height, (n - 1) as nat);
        lemma_stepped_within(c.stepped_n(d, width, height, (n - 1) as nat), d, width, height);
    }
}

/// After `n` steps each coordinate has moved by `n` offsets, taken modulo the
/// grid's size.
pub proof fn lemma_stepped_n_closed_form(c: Coord, d: Dir, width: int, height: int, n: nat)
    requires
        c.within(width, height),
        width <= usize::MAX,
        height <= usize::MAX,
    ensures
        c.stepped_n(d, width, height, n).x as int == (c.x + n * d.dx()) % width,
        c.stepped_n(d, width, height, n).y as int == (c.y + n * d.dy()) % height,
    decreases n,
{
    if n == 0 {
        vstd::arithmetic::div_mod::lemma_small_mod(c.x as nat, width as nat);
        vstd::arithmetic::div_mod::lemma_small_mod(c.y as nat, height as nat);
    } else {
        let m = (n - 1) as nat;
        lemma_stepped_n_closed_form(c, d, width, height, m);
        lemma_stepped_n_within(c, d, width, height, m);
        let p = c.stepped_n(d, width, height, m);
        vstd::arithmetic::div_mod::lemma_add_mod_noop(c.x + m * d.dx(), d.dx(), width);
        vstd::arithmetic::div_mod::lemma_add_mod_noop(p.x as int, d.dx(), width);
        vstd::arithmetic::div_mod::lemma_mod_twice(c.x + m * d.dx(), width);
        vstd::arithmetic::div_mod::lemma_add_mod_noop(c.y + m * d.dy(), d.dy(), height);
        vstd::arithmetic::div_mod::lemma_add_mod_noop(p.y as int, d.dy(), height);
        vstd::arithmetic::div_mod::lemma_mod_twice(c.y + m * d.dy(), height);
        assert(c.x + m * d.dx() + d.dx() == c.x + n * d.dx()) by (nonlinear_arith)
            requires
                n == m + 1,
        ;
        assert(c.y + m * d.dy() + d.dy() == c.y + n * d.dy()) by (nonlinear_arith)
            requires
                n == m + 1,
        ;
        lemma_stepped_within(p, d, width, height);
        vstd::arithmetic::div_mod::lemma_mod_bound(c.x + n * d.dx(), width);
        vstd::arithmetic::div_mod::lemma_mod_bound(c.y + n * d.dy(), height);
    }
}

/// A whole multiple `k` of `m` added to `v` in `[0, m)` leaves `v` modulo `m`.
proof fn lemma_multiple_vanishes(v: int, k: int, m: int)
    requires
        0 <= v < m,
    ensures
        (v + m * k) % m == v,
{
    vstd::arithmetic::div_mod::lemma_mod_multiples_vanish(k, v, m);
    vstd::arithmetic::div_mod::lemma_small_mod(v as nat, m as nat);
}

/// Walking `width` steps east or west, or `height` steps north or south,
/// comes back to the starting cell.
pub proof fn lemma_wrap_around(c: Coord, d: Dir, width: int, height: int)
    requires
        c.within(width, height),
        width <= usize::MAX,
        height <= usize::MAX,
    ensures
        d.dy() == 0 ==> c.stepped_n(d, width, height, width as nat) == c,
        d.dx() == 0 ==> c.stepped_n(d, width, height, height as nat) == c,
{
    lemma_stepped_n_closed_form(c, d, width, height, width as nat);
    lemma_stepped_n_closed_form(c, d, width, height, height as nat);
    lemma_multiple_vanishes(c.x as int, d.dx(), width);
    lemma_multiple_vanishes(c.y as int, d.dy(), height);
    vstd::arithmetic::div_mod::lemma_small_mod(c.x as nat, width as nat);
    vstd::arithmetic::div_mod::lemma_small_mod(c.y as nat, height as nat);
    assert(d.dy() == 0 ==> width * d.dy() == 0) by (nonlinear_arith);
    assert(d.dx() == 0 ==> height * d.dx() == 0) by (nonlinear_arith);
}

/// Walking `width * height` steps in any direction comes back to the starting
/// cell.
pub proof fn lemma_full_circuit(c: Coord, d: Dir, width: int, height: int)
    requires
        c.within(width, height),
        width <= usize::MAX,
        height <= usize::MAX,
    ensures
        c.stepped_n(d, width, height, (width * height) as nat) == c,
{
    assert(width * height >= 0) by (nonlinear_arith)
        requires
            width > 0,
            height > 0,
    ;
    lemma_stepped_n_closed_form(c, d, width, height, (width * height) as nat);
    lemma_multiple_vanishes(c.x as int, height * d.dx(), width);
    lemma_multiple_vanishes(c.y as int, width * d.dy(), height);
    assert((width * height) * d.dx() == width * (height * d.dx())) by (nonlinear_arith);
    assert((width * height) * d.dy() == height * (width * d.dy())) by (nonlinear_arith);
}

} // verus!
