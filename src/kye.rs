//! The engine: the grid, its threads and its automata, advanced one tick at a
//! time.
use itertools::Itertools;
use vstd::prelude::*;

use crate::aut::Automaton;
use crate::coord::Coord;
use crate::model::{
    automata_ok, body_lines, cell_at, collide, coord_of, dispatch, dispatch_all, drift, escaped,
    glyph_points, ground, lemma_halt_sticks, live_on, loaded, longest, moved, source_at,
    spawn_points, survivors, threads_ok, ticked, KyeView,
};
use crate::ops::{
    act, lemma_automata_ok_push, lemma_automata_ok_update, move_thread, resolve_one, slot,
    spawn_thread,
};
use crate::thread::{State, Thread, ThreadView};

verus! {

/// Engine state: the grid, the roster of threads, the automata and the exit
/// status.
pub struct Kye {
    cells: Vec<char>,
    width: usize,
    height: usize,
    pub threads: Vec<Thread>,
    automata: Vec<Automaton>,
    pub exit_status: u32,
}

impl View for Kye {
    type V = KyeView;

    closed spec fn view(&self) -> KyeView {
        KyeView {
            cells: self.cells@,
            width: self.width as nat,
            height: self.height as nat,
            threads: self.threads@.map_values(|t: Thread| t@),
            automata: self.automata@,
            exit_status: self.exit_status,
        }
    }
}

/// The threads of `s` that stand in cell `p`, in their order.
pub open spec fn threads_on(s: Seq<ThreadView>, p: Coord) -> Seq<ThreadView>
    decreases s.len(),
{
    if s.len() == 0 {
        s
    } else {
        let rest = threads_on(s.drop_last(), p);
        if s.last().coord == p {
            rest.push(s.last())
        } else {
            rest
        }
    }
}

/// The automata of `s` that stand in cell `p`, in their order.
pub open spec fn automata_on(s: Seq<Automaton>, p: Coord) -> Seq<Automaton>
    decreases s.len(),
{
    if s.len() == 0 {
        s
    } else {
        let rest = automata_on(s.drop_last(), p);
        if s.last().coord == p {
            rest.push(s.last())
        } else {
            rest
        }
    }
}

impl Kye {
    /// An engine over `cells`, listed row by row, with the given threads and
    /// automata and an exit status of 0.
    pub fn new(
        cells: Vec<char>,
        threads: Vec<Thread>,
        automata: Vec<Automaton>,
        width: usize,
        height: usize,
    ) -> (r: Kye)
        requires
            (KyeView {
                cells: cells@,
                width: width as nat,
                height: height as nat,
                threads: threads@.map_values(|t: Thread| t@),
                automata: automata@,
                exit_status: 0,
            }).wf(),
        ensures
            r@ == (KyeView {
                cells: cells@,
                width: width as nat,
                height: height as nat,
                threads: threads@.map_values(|t: Thread| t@),
                automata: automata@,
                exit_status: 0,
            }),
            r@.wf(),
    {
        Kye { cells, width, height, threads, automata, exit_status: 0 }
    }

    /// Number of columns.
    pub fn width(&self) -> (r: usize)
        ensures
            r == self@.width,
    {
        self.width
    }

    /// Number of rows.
    pub fn height(&self) -> (r: usize)
        ensures
            r == self@.height,
    {
        self.height
    }

    /// The character in column `x` of row `y`.
    pub fn cell(&self, x: usize, y: usize) -> (r: char)
        requires
            self@.wf(),
            x < self@.width,
            y < self@.height,
        ensures
            r == cell_at(self@.cells, self@.width as int, Coord { x, y }),
    {
        let p = Coord { x, y };
        self.cells[slot(p, self.width, self.height, self.cells.len())]
    }

    /// The automata, in the order in which they move.
    pub fn automata(&self) -> (r: &Vec<Automaton>)
        ensures
            r@ == self@.automata,
    {
        &self.automata
    }

    /// The value that a backslash followed by `c` stands for.
    pub fn esc(c: char) -> (r: u32)
        ensures
            r == escaped(c),
    {
        let v = c as u32;
        if c == 't' {
            9
        } else if c == 'n' {
            10
        } else if c == 'v' {
            0x0B
        } else if c == 'f' {
            0x0C
        } else if c == 'r' {
            13
        } else if 48 <= v && v <= 57 {
            v - 48
        } else {
            v
        }
    }

    /// Copies of the threads that stand in column `x` of row `y`.
    pub fn threads_at(&self, x: usize, y: usize) -> (r: Vec<Thread>)
        ensures
            r@.map_values(|t: Thread| t@) == threads_on(self@.threads, Coord { x, y }),
    {
        let p = Coord { x, y };
        let mut r: Vec<Thread> = Vec::new();
        let mut i: usize = 0;
        while i < self.threads.len()
            invariant
                i <= self.threads@.len(),
                r@.map_values(|t: Thread| t@) == threads_on(
                    self@.threads.subrange(0, i as int),
                    p,
                ),
            decreases self.threads@.len() - i,
        {
            let ghost before = r@;
            proof {
                let s = self@.threads.subrange(0, i + 1);
                assert(s.drop_last() =~= self@.threads.subrange(0, i as int));
                assert(s.last() == self.threads@[i as int]@);
            }
            if self.threads[i].coord == p {
                r.push(self.threads[i].duplicate());
                assert(r@.map_values(|t: Thread| t@) =~= before.map_values(|t: Thread| t@).push(
                    self.threads@[i as int]@,
                ));
            }
            i = i + 1;
        }
        assert(self@.threads.subrange(0, self.threads@.len() as int) =~= self@.threads);
        r
    }

    /// The automata that stand in column `x` of row `y`.
    pub fn automata_at(&self, x: usize, y: usize) -> (r: Vec<Automaton>)
        ensures
            r@ == automata_on(self@.automata, Coord { x, y }),
    {
        let p = Coord { x, y };
        let mut r: Vec<Automaton> = Vec::new();
        let mut i: usize = 0;
        while i < self.automata.len()
            invariant
                i <= self.automata@.len(),
                r@ == automata_on(self.automata@.subrange(0, i as int), p),
            decreases self.automata@.len() - i,
        {
            proof {
                let s = self.automata@.subrange(0, i + 1);
                assert(s.drop_last() =~= self.automata@.subrange(0, i as int));
            }
            if self.automata[i].coord == p {
                r.push(self.automata[i]);
            }
            i = i + 1;
        }
        assert(self.automata@.subrange(0, self.automata@.len() as int) =~= self.automata@);
        r
    }
}


impl Kye {
    /// Advances the engine by one tick and returns the values printed during
    /// it by `,` and `P`, in order. Each live thread acts on the character
    /// under it, in roster order; a halt clears the roster at once and sets
    /// the exit status. Otherwise dead threads leave, started threads join
    /// the roster, every thread moves, and every automaton moves and then
    /// meets what is in its cell. An engine without threads stays as it is.
    pub fn tick(&mut self) -> (out: Vec<u32>)
        requires
            old(self)@.wf(),
        ensures
            (final(self)@, out@) == ticked(old(self)@),
            final(self)@.wf(),
    {
        let mut out: Vec<u32> = Vec::new();
        if self.threads.len() == 0 {
            return out;
        }
        let ghost k0 = self@;
        let ghost w = self.width as int;
        let ghost h = self.height as int;
        let width = self.width;
        let height = self.height;
        let n = self.threads.len();
        // Each thread acts in roster order; the threads it starts wait in
        // `spawn` until the roster is rebuilt.
        let mut spawn: Vec<Thread> = Vec::new();
        let mut i: usize = 0;
        assert(spawn@.map_values(|x: Thread| x@) =~= Seq::<ThreadView>::empty());
        assert forall|j: int| 0 <= j < n implies #[trigger] self.threads@[j].coord.within(w, h) by {
            assert(live_on(k0.threads[j], w, h));
            assert(k0.threads[j] == self.threads@[j]@);
        }
        while i < n
            invariant
                n == self.threads@.len(),
                n == k0.threads.len(),
                i <= n,
                k0.wf(),
                k0 == old(self)@,
                self.width == width,
                self.height == height,
                width == k0.width,
                height == k0.height,
                w == width,
                h == height,
                self.exit_status == k0.exit_status,
                dispatch_all(k0, i as nat).halt is None,
                self.cells@ == dispatch_all(k0, i as nat).cells,
                self.automata@ == dispatch_all(k0, i as nat).automata,
                spawn@.map_values(|x: Thread| x@) == dispatch_all(k0, i as nat).spawned,
                out@ == dispatch_all(k0, i as nat).output,
                dispatch_all(k0, i as nat).threads.len() == i,
                forall|j: int|
                    0 <= j < i ==> self.threads@[j]@ == #[trigger] dispatch_all(
                        k0,
                        i as nat,
                    ).threads[j],
                forall|j: int| i <= j < n ==> #[trigger] self.threads@[j]@ == k0.threads[j],
                forall|j: int|
                    0 <= j < n ==> #[trigger] self.threads@[j].coord.within(w, h),
                self.cells@.len() == width * height,
                automata_ok(self.automata@, w, h),
                threads_ok(spawn@.map_values(|x: Thread| x@), w, h),
            decreases n - i,
        {
            let ghost r0 = dispatch_all(k0, i as nat);
            let ghost t0 = self.threads@[i as int];
            assert(live_on(k0.threads[i as int], w, h));
            let halt = act(
                &mut self.threads[i],
                &mut self.cells,
                &mut self.automata,
                width,
                height,
                &mut spawn,
                &mut out,
            );
            let ghost r1 = dispatch_all(k0, (i + 1) as nat);
            assert(r1 == dispatch(r0, t0@, w, h));
            match halt {
                Some(v) => {
                    proof {
                        lemma_halt_sticks(k0, (i + 1) as nat, n as nat);
                    }
                    self.threads.clear();
                    self.exit_status = v;
                    assert(self.threads@.map_values(|x: Thread| x@) =~= Seq::<ThreadView>::empty());
                    return out;
                },
                None => {},
            }
            assert forall|j: int| 0 <= j < i + 1 implies self.threads@[j]@ == #[trigger] r1.threads[j] by {
                if j < i {
                    assert(r1.threads[j] == r0.threads[j]);
                }
            }
            i = i + 1;
        }
        let ghost r = dispatch_all(k0, n as nat);
        // Dead threads leave; the others move, then the started ones join.
        let mut roster: Vec<Thread> = Vec::new();
        let mut j: usize = 0;
        assert(roster@.map_values(|x: Thread| x@) =~= Seq::<ThreadView>::empty());
        assert(r.threads.subrange(0, 0) =~= Seq::<ThreadView>::empty());
        while j < n
            invariant
                j <= n,
                n == self.threads@.len(),
                r.threads.len() == n,
                forall|q: int| 0 <= q < n ==> self.threads@[q]@ == #[trigger] r.threads[q],
                forall|q: int|
                    0 <= q < n ==> #[trigger] self.threads@[q].coord.within(w, h),
                self.cells@ == r.cells,
                self.cells@.len() == width * height,
                w == width,
                h == height,
                roster@.map_values(|x: Thread| x@) == survivors(
                    r.threads.subrange(0, j as int),
                    r.cells,
                    w,
                    h,
                ),
                threads_ok(roster@.map_values(|x: Thread| x@), w, h),
            decreases n - j,
        {
            proof {
                let q = r.threads.subrange(0, j + 1);
                assert(q.drop_last() =~= r.threads.subrange(0, j as int));
                assert(q.last() == self.threads@[j as int]@);
            }
            match self.threads[j].state {
                State::Dead => {},
                _ => {
                    let mut t = self.threads[j].duplicate();
                    move_thread(&mut t, &self.cells, width, height);
                    spawn_thread(&mut roster, t, Ghost(w), Ghost(h));
                },
            }
            j = j + 1;
        }
        assert(r.threads.subrange(0, n as int) =~= r.threads);
        let ghost kept = roster@.map_values(|x: Thread| x@);
        let mut k: usize = 0;
        assert(r.spawned.subrange(0, 0).map_values(|t: ThreadView| moved(t, r.cells, w, h))
            =~= Seq::<ThreadView>::empty());
        assert(kept + Seq::<ThreadView>::empty() =~= kept);
        while k < spawn.len()
            invariant
                k <= spawn@.len(),
                spawn@.map_values(|x: Thread| x@) == r.spawned,
                threads_ok(r.spawned, w, h),
                self.cells@ == r.cells,
                self.cells@.len() == width * height,
                w == width,
                h == height,
                roster@.map_values(|x: Thread| x@) == kept + r.spawned.subrange(
                    0,
                    k as int,
                ).map_values(|t: ThreadView| moved(t, r.cells, w, h)),
                threads_ok(roster@.map_values(|x: Thread| x@), w, h),
            decreases spawn@.len() - k,
        {
            assert(spawn@[k as int]@ == r.spawned[k as int]);
            assert(live_on(r.spawned[k as int], w, h));
            let mut t = spawn[k].duplicate();
            move_thread(&mut t, &self.cells, width, height);
            spawn_thread(&mut roster, t, Ghost(w), Ghost(h));
            assert(r.spawned.subrange(0, k + 1).map_values(|t: ThreadView| moved(t, r.cells, w, h))
                =~= r.spawned.subrange(0, k as int).map_values(
                |t: ThreadView| moved(t, r.cells, w, h),
            ).push(moved(r.spawned[k as int], r.cells, w, h)));
            k = k + 1;
        }
        assert(r.spawned.subrange(0, spawn@.len() as int) =~= r.spawned);
        // Every automaton steps along its heading.
        let m = self.automata.len();
        let mut k: usize = 0;
        while k < m
            invariant
                k <= m,
                m == self.automata@.len(),
                m == r.automata.len(),
                forall|q: int|
                    0 <= q < k ==> #[trigger] self.automata@[q] == drift(r.automata[q], w, h),
                forall|q: int| k <= q < m ==> #[trigger] self.automata@[q] == r.automata[q],
                automata_ok(self.automata@, w, h),
                self.cells@ == r.cells,
                self.cells@.len() == width * height,
                w == width,
                h == height,
                self.width == width,
                self.height == height,
                self.exit_status == k0.exit_status,
                width == k0.width,
                height == k0.height,
            decreases m - k,
        {
            let mut a = self.automata[k];
            assert(a.coord.within(w, h));
            a.coord.advance(a.dir, width, height);
            proof {
                lemma_automata_ok_update(self.automata@, k as int, a, w, h);
            }
            self.automata.set(k, a);
            k = k + 1;
        }
        let ghost drifted = r.automata.map_values(|a: Automaton| drift(a, w, h));
        assert(self.automata@ =~= drifted);
        // Then each meets what is in its new cell.
        let mut settled: Vec<Automaton> = Vec::new();
        let mut k: usize = 0;
        assert(settled@ =~= Seq::<Automaton>::empty());
        while k < m
            invariant
                k <= m,
                m == self.automata@.len(),
                self.automata@ == drifted,
                automata_ok(self.automata@, w, h),
                (self.cells@, settled@) == collide(r.cells, drifted, w, h, k as nat),
                self.cells@.len() == width * height,
                automata_ok(settled@, w, h),
                w == width,
                h == height,
                self.width == width,
                self.height == height,
                self.exit_status == k0.exit_status,
                width == k0.width,
                height == k0.height,
            decreases m - k,
        {
            let a = self.automata[k];
            assert(a.coord.within(w, h));
            let b = resolve_one(&mut self.cells, &self.automata, a, width, height);
            proof {
                lemma_automata_ok_push(settled@, b, w, h);
            }
            settled.push(b);
            k = k + 1;
        }
        self.automata = settled;
        self.threads = roster;
        out
    }
}

/// The cell numbered `y * width + x` is column `x` of row `y`.
proof fn lemma_cell_number(x: int, y: int, width: int)
    requires
        0 <= x < width,
        0 <= y,
    ensures
        (y * width + x) / width == y,
        (y * width + x) % width == x,
{
    vstd::arithmetic::div_mod::lemma_fundamental_div_mod_converse(y * width + x, width, y, x);
}

impl Kye {
    /// Loads a program given line by line. A first line that starts with `#`
    /// is skipped; the grid is as wide as the longest remaining line, shorter
    /// lines being padded with blanks. Each `$` starts a thread heading east,
    /// and each of `^ > v <` an automaton heading north, east, south or west;
    /// these markers leave blank cells. Threads and automata are listed row
    /// by row.
    pub fn read(lines: &Vec<Vec<char>>) -> (r: Kye)
        ensures
            r@ == loaded(lines@.map_values(|l: Vec<char>| l@)),
            r@.wf(),
    {
        let ghost all = lines@.map_values(|l: Vec<char>| l@);
        let skip: usize = if lines.len() > 0 && lines[0].len() > 0 && lines[0][0] == '#' {
            1
        } else {
            0
        };
        let ghost body = body_lines(all);
        assert(body.len() == lines@.len() - skip);
        assert forall|q: int| 0 <= q < body.len() implies #[trigger] body[q] == lines@[q + skip]@ by {
            if skip == 1 {
                assert(body[q] == all[q + 1]);
            }
        }
        let mut width: usize = 0;
        let mut y: usize = skip;
        while y < lines.len()
            invariant
                skip <= y <= lines@.len(),
                body.len() == lines@.len() - skip,
                forall|q: int| 0 <= q < body.len() ==> #[trigger] body[q] == lines@[q + skip]@,
                width == longest(body.subrange(0, y - skip)),
            decreases lines@.len() - y,
        {
            proof {
                let q = body.subrange(0, y - skip + 1);
                assert(q.drop_last() =~= body.subrange(0, y - skip));
                assert(q.last() == lines@[y as int]@);
            }
            if lines[y].len() > width {
                width = lines[y].len();
            }
            y = y + 1;
        }
        assert(body.subrange(0, body.len() as int) =~= body);
        let total = lines.len();
        let height = total - skip;
        let ghost w = width as nat;
        let mut cells: Vec<char> = Vec::new();
        let mut threads: Vec<Thread> = Vec::new();
        let mut automata: Vec<Automaton> = Vec::new();
        let mut y: usize = 0;
        assert(threads@.map_values(|t: Thread| t@) =~= Seq::<ThreadView>::empty());
        while y < height
            invariant
                y <= height,
                height == body.len(),
                w == width,
                w == longest(body),
                forall|q: int| 0 <= q < body.len() ==> #[trigger] body[q] == lines@[q + skip]@,
                skip + height == total,
                total == lines@.len(),
                cells@.len() == y * width,
                forall|i: int| 0 <= i < cells@.len() ==> #[trigger] cells@[i] == ground(source_at(body, w, i)),
                threads@.map_values(|t: Thread| t@) == spawn_points(body, w, cells@.len()),
                automata@ == glyph_points(body, w, cells@.len()),
                threads_ok(threads@.map_values(|t: Thread| t@), width as int, height as int),
                automata_ok(automata@, width as int, height as int),
            decreases height - y,
        {
            let line = &lines[skip + y];
            assert(line@ == body[y as int]);
            let mut x: usize = 0;
            while x < width
                invariant
                    x <= width,
                    y < height,
                    height == body.len(),
                    w == width,
                    line@ == body[y as int],
                    cells@.len() == y * width + x,
                    forall|i: int|
                        0 <= i < cells@.len() ==> #[trigger] cells@[i] == ground(source_at(body, w, i)),
                    threads@.map_values(|t: Thread| t@) == spawn_points(body, w, cells@.len()),
                    automata@ == glyph_points(body, w, cells@.len()),
                    threads_ok(threads@.map_values(|t: Thread| t@), width as int, height as int),
                    automata_ok(automata@, width as int, height as int),
                decreases width - x,
            {
                let ghost i = y * width + x;
                proof {
                    lemma_cell_number(x as int, y as int, width as int);
                }
                let c = if x < line.len() {
                    line[x]
                } else {
                    ' '
                };
                assert(c == source_at(body, w, i));
                let p = Coord { x, y };
                assert(coord_of(i, w) == p);
                let ghost before = cells@;
                let ghost tbefore = threads@.map_values(|t: Thread| t@);
                if c == '$' {
                    cells.push(' ');
                    let t = Thread::new(p);
                    spawn_thread(&mut threads, t, Ghost(width as int), Ghost(height as int));
                } else {
                    match Automaton::char_to_dir(c) {
                        Some(d) => {
                            cells.push(' ');
                            let a = Automaton::new(p, d);
                            proof {
                                lemma_automata_ok_push(automata@, a, width as int, height as int);
                            }
                            automata.push(a);
                        },
                        None => {
                            cells.push(c);
                        },
                    }
                }
                assert forall|j: int| 0 <= j < cells@.len() implies #[trigger] cells@[j] == ground(
                    source_at(body, w, j),
                ) by {
                    if j < before.len() {
                        assert(cells@[j] == before[j]);
                    }
                }
                x = x + 1;
            }
            assert((y + 1) * width == y * width + width) by (nonlinear_arith);
            y = y + 1;
        }
        assert(height * width == width * height) by (nonlinear_arith);
        assert(cells@ =~= Seq::new(w * (height as nat), |i: int| ground(source_at(body, w, i))));
        Kye { cells, width, height, threads, automata, exit_status: 0 }
    }
}

/// Relies on itertools' `Itertools::cartesian_product`: it yields every pair
/// `(a, b)` of an item `a` of the first iterator and an item `b` of the
/// second, with `a` varying slowest.
#[verifier::external_body]
fn grid_positions(height: usize, width: usize) -> (r: Vec<(usize, usize)>)
    ensures
        r@.len() == height * width,
        forall|i: int|
            0 <= i < r@.len() ==> #[trigger] r@[i] == ((i / width as int) as usize, (i
                % width as int) as usize),
{
    (0..height).cartesian_product(0..width).collect()
}

impl Kye {
    /// Every cell as a pair `(y, x)` of row and column, row by row.
    pub fn cells(&self) -> (r: Vec<(usize, usize)>)
        ensures
            r@.len() == self@.height * self@.width,
            forall|i: int|
                0 <= i < r@.len() ==> #[trigger] r@[i] == ((i / self@.width as int) as usize, (i
                    % self@.width as int) as usize),
    {
        grid_positions(self.height, self.width)
    }
}

} // verus!
