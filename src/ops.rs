//! The steps a tick is made of, each on plain data: a thread reading or
//! executing a character, writes to the grid, the moves of threads and
//! automata, and collisions.
use vstd::prelude::*;

use crate::aut::Automaton;
use crate::coord::Coord;
use crate::dir::Dir;
use crate::kye::Kye;
use crate::model::{
    automata_ok, cell_index, code_char, count_at, drained, effect, glide, is_scalar, live_on,
    moved, place, read_char, resolve, seek, steer, threads_ok, without_at,
};
use crate::thread::{State, Thread, ThreadView};

verus! {

/// Relies on `char::from_u32`: it gives the `char` whose code is `i` exactly
/// when `i` is a Unicode scalar value (not a surrogate, at most 0x10FFFF),
/// and `None` otherwise.
pub assume_specification[ <char>::from_u32 ](i: u32) -> (r: Option<char>)
    ensures
        is_scalar(i) ==> r == Some(i as char),
        !is_scalar(i) ==> r is None,
;

/// The character with code `v`, if there is one.
pub fn decode(v: u32) -> (r: Option<char>)
    ensures
        is_scalar(v) ==> r == Some(v as char),
        !is_scalar(v) ==> r is None,
{
    char::from_u32(v)
}

/// The character with code `v`, or `.` where there is none.
pub(crate) fn code_to_char(v: u32) -> (r: char)
    ensures
        r == code_char(v),
{
    match char::from_u32(v) {
        Some(c) => c,
        None => '.',
    }
}

/// A cell on a grid of `width * height` cells lies in the list of cells.
pub(crate) proof fn lemma_index_bound(p: Coord, width: int, height: int)
    requires
        p.within(width, height),
    ensures
        0 <= cell_index(p, width) < width * height,
{
    assert(0 <= p.y * width + p.x < width * height) by (nonlinear_arith)
        requires
            0 <= p.x < width,
            0 <= p.y < height,
    ;
}

/// The position of cell `p` in the row-major list of cells.
pub(crate) fn slot(p: Coord, width: usize, height: usize, len: usize) -> (r: usize)
    requires
        p.within(width as int, height as int),
        len == width * height,
    ensures
        r as int == cell_index(p, width as int),
        r < len,
{
    proof {
        lemma_index_bound(p, width as int, height as int);
    }
    p.y * width + p.x
}

/// A thread inside a string, or after `"`, reading `c`.
pub(crate) fn take_char(t: &mut Thread, c: char)
    requires
        !(old(t).state is Exec),
        !(old(t).state is Dead),
    ensures
        final(t)@ == read_char(old(t)@, c),
{
    match t.state {
        State::Push => {
            if c == '\\' {
                t.state = State::PushEsc;
            } else if c == '\'' {
                t.state = State::Exec;
            } else {
                t.push(c as u32);
            }
        },
        State::PushEsc => {
            t.push(Kye::esc(c));
            t.state = State::Push;
        },
        State::Char => {
            if c == '\\' {
                t.state = State::CharEsc;
            } else {
                t.push(c as u32);
                t.state = State::Exec;
            }
        },
        _ => {
            t.push(Kye::esc(c));
            t.state = State::Exec;
        },
    }
}

/// A grid with a cell on it has at least one cell.
pub(crate) proof fn lemma_grid_nonempty(p: Coord, width: int, height: int)
    requires
        p.within(width, height),
    ensures
        width * height >= 1,
{
    assert(width * height >= 1) by (nonlinear_arith)
        requires
            width > p.x >= 0,
            height > p.y >= 0,
    ;
}

/// The cell where a thread that executes `;` at `start` lands.
pub(crate) fn seek_marker(cells: &Vec<char>, width: usize, height: usize, start: Coord, d: Dir) -> (r: Coord)
    requires
        start.within(width as int, height as int),
        cells@.len() == width * height,
    ensures
        r == seek(cells@, width as int, height as int, start, d, (width * height) as nat),
        r.within(width as int, height as int),
{
    proof {
        lemma_grid_nonempty(start, width as int, height as int);
    }
    let mut p = start;
    let mut fuel: usize = cells.len();
    loop
        invariant
            p.within(width as int, height as int),
            cells@.len() == width * height,
            1 <= fuel,
            seek(cells@, width as int, height as int, start, d, (width * height) as nat) == seek(
                cells@,
                width as int,
                height as int,
                p,
                d,
                fuel as nat,
            ),
        decreases fuel,
    {
        p.advance(d, width, height);
        if fuel <= 1 || cells[slot(p, width, height, cells.len())] == ';' {
            return p;
        }
        fuel = fuel - 1;
    }
}

/// The cell where an executing thread at `start` heading `d` comes to rest.
pub(crate) fn glide_from(cells: &Vec<char>, width: usize, height: usize, start: Coord, d: Dir) -> (r: Coord)
    requires
        start.within(width as int, height as int),
        cells@.len() == width * height,
    ensures
        r == glide(cells@, width as int, height as int, start, d, (width * height) as nat),
        r.within(width as int, height as int),
{
    proof {
        lemma_grid_nonempty(start, width as int, height as int);
    }
    let mut p = start;
    let mut fuel: usize = cells.len();
    loop
        invariant
            p.within(width as int, height as int),
            cells@.len() == width * height,
            1 <= fuel,
            glide(cells@, width as int, height as int, start, d, (width * height) as nat) == glide(
                cells@,
                width as int,
                height as int,
                p,
                d,
                fuel as nat,
            ),
        decreases fuel,
    {
        p.advance(d, width, height);
        if fuel <= 1 || cells[slot(p, width, height, cells.len())] != ' ' {
            return p;
        }
        fuel = fuel - 1;
    }
}

/// A thread executing `c`, for the instructions that change the thread alone.
pub(crate) fn steer_thread(t: &mut Thread, c: char, cells: &Vec<char>, width: usize, height: usize)
    requires
        old(t).coord.within(width as int, height as int),
        cells@.len() == width * height,
    ensures
        final(t)@ == steer(old(t)@, c, cells@, width as int, height as int),
        final(t).coord.within(width as int, height as int),
{
    match c {
        '1' => t.dir = Dir::SW,
        '2' => t.dir = Dir::S,
        '3' => t.dir = Dir::SE,
        '4' => t.dir = Dir::W,
        '6' => t.dir = Dir::E,
        '7' => t.dir = Dir::NW,
        '8' => t.dir = Dir::N,
        '9' => t.dir = Dir::NE,
        'C' => t.dir.turn(2),
        'c' => t.dir.turn(1),
        'A' => t.dir.turn(-2),
        'a' => t.dir.turn(-1),
        '|' => t.dir.mirror(Dir::N),
        '/' => t.dir.mirror(Dir::NE),
        '_' => t.dir.mirror(Dir::E),
        '\\' => t.dir.mirror(Dir::SE),
        '\'' => t.state = State::Push,
        '"' => t.state = State::Char,
        '#' => t.coord.advance(t.dir, width, height),
        'j' => {
            let n = t.pop();
            t.coord.moven(t.dir, width, height, n);
        },
        't' => {
            if t.pop() == 0 {
                t.coord.advance(t.dir, width, height);
            }
        },
        'z' => t.push(0),
        '[' => {
            let v = t.pop();
            t.push(if v == u32::MAX { 0 } else { v + 1 });
        },
        ']' => {
            let v = t.pop();
            t.push(if v == 0 { u32::MAX } else { v - 1 });
        },
        ';' => t.coord = seek_marker(cells, width, height, t.coord, t.dir),
        '@' => t.state = State::Dead,
        _ => {},
    }
}

/// Adding a well-placed automaton keeps the automata well placed.
pub(crate) proof fn lemma_automata_ok_push(s: Seq<Automaton>, a: Automaton, width: int, height: int)
    requires
        automata_ok(s, width, height),
        a.coord.within(width, height),
        a.dir.is_cardinal(),
    ensures
        automata_ok(s.push(a), width, height),
{
    assert forall|i: int| 0 <= i < s.push(a).len() implies {
        &&& #[trigger] s.push(a)[i].coord.within(width, height)
        &&& s.push(a)[i].dir.is_cardinal()
    } by {
        if i < s.len() {
            assert(s.push(a)[i] == s[i]);
            assert(s[i].coord.within(width, height));
        } else {
            assert(s.push(a)[i] == a);
        }
    }
}

/// Removes every automaton that stands in cell `p`.
pub(crate) fn remove_at(automata: &mut Vec<Automaton>, p: Coord, width: Ghost<int>, height: Ghost<int>)
    requires
        automata_ok(old(automata)@, width@, height@),
    ensures
        final(automata)@ == without_at(old(automata)@, p),
        automata_ok(final(automata)@, width@, height@),
{
    let mut kept: Vec<Automaton> = Vec::new();
    let mut i: usize = 0;
    while i < automata.len()
        invariant
            i <= automata@.len(),
            automata@ == old(automata)@,
            kept@ == without_at(automata@.subrange(0, i as int), p),
            automata_ok(automata@, width@, height@),
            automata_ok(kept@, width@, height@),
        decreases automata@.len() - i,
    {
        proof {
            let s = automata@.subrange(0, i + 1);
            assert(s.drop_last() =~= automata@.subrange(0, i as int));
        }
        let a = automata[i];
        if a.coord != p {
            proof {
                assert(automata@[i as int].coord.within(width@, height@));
                lemma_automata_ok_push(kept@, a, width@, height@);
            }
            kept.push(a);
        }
        i = i + 1;
    }
    assert(automata@.subrange(0, automata@.len() as int) =~= automata@);
    *automata = kept;
}

/// Writes `ch` into cell `p`, or puts a new automaton there if `ch` is an
/// automaton glyph; any automaton that stood there is removed.
pub(crate) fn place_char(
    cells: &mut Vec<char>,
    automata: &mut Vec<Automaton>,
    width: usize,
    height: usize,
    p: Coord,
    ch: char,
)
    requires
        p.within(width as int, height as int),
        old(cells)@.len() == width * height,
        automata_ok(old(automata)@, width as int, height as int),
    ensures
        (final(cells)@, final(automata)@) == place(old(cells)@, old(automata)@, width as int, p, ch),
        final(cells)@.len() == width * height,
        automata_ok(final(automata)@, width as int, height as int),
{
    remove_at(automata, p, Ghost(width as int), Ghost(height as int));
    let i = slot(p, width, height, cells.len());
    match Automaton::char_to_dir(ch) {
        Some(d) => {
            cells.set(i, ' ');
            let ghost before = automata@;
            let a = Automaton::new(p, d);
            proof {
                lemma_automata_ok_push(before, a, width as int, height as int);
            }
            automata.push(a);
        },
        None => {
            cells.set(i, ch);
        },
    }
}

/// Pushes `t` on `spawn`.
pub(crate) fn spawn_thread(spawn: &mut Vec<Thread>, t: Thread, width: Ghost<int>, height: Ghost<int>)
    requires
        threads_ok(old(spawn)@.map_values(|x: Thread| x@), width@, height@),
        t.coord.within(width@, height@),
        !(t.state is Dead),
    ensures
        final(spawn)@.map_values(|x: Thread| x@) == old(spawn)@.map_values(|x: Thread| x@).push(t@),
        threads_ok(final(spawn)@.map_values(|x: Thread| x@), width@, height@),
{
    let ghost before = spawn@;
    spawn.push(t);
    assert(spawn@.map_values(|x: Thread| x@) =~= before.map_values(|x: Thread| x@).push(t@));
    proof {
        lemma_threads_ok_push(before.map_values(|x: Thread| x@), t@, width@, height@);
    }
}

/// Adding a live, well-placed thread keeps the threads live and well placed.
pub(crate) proof fn lemma_threads_ok_push(s: Seq<ThreadView>, t: ThreadView, width: int, height: int)
    requires
        threads_ok(s, width, height),
        t.coord.within(width, height),
        !(t.state is Dead),
    ensures
        threads_ok(s.push(t), width, height),
{
    assert forall|i: int| 0 <= i < s.push(t).len() implies #[trigger] live_on(
        s.push(t)[i],
        width,
        height,
    ) by {
        if i < s.len() {
            assert(s.push(t)[i] == s[i]);
            assert(live_on(s[i], width, height));
        } else {
            assert(s.push(t)[i] == t);
        }
    }
}

/// Pops the whole stack of `t` onto `out`, top first.
pub(crate) fn drain(t: &mut Thread, out: &mut Vec<u32>)
    ensures
        final(t)@ == (ThreadView { stack: Seq::empty(), ..old(t)@ }),
        final(out)@ == old(out)@ + drained(old(t)@.stack),
{
    while t.stack.len() > 0
        invariant
            t@ == (ThreadView { stack: t.stack@, ..old(t)@ }),
            out@ + drained(t.stack@) == old(out)@ + drained(old(t)@.stack),
        decreases t.stack@.len(),
    {
        let ghost st = t.stack@;
        let ghost before = out@;
        let v = t.pop();
        out.push(v);
        assert(before + drained(st) =~= out@ + drained(t.stack@));
    }
    assert(t.stack@ =~= Seq::<u32>::empty());
    assert(out@ + drained(t.stack@) =~= out@);
}

/// One thread acting on the character under it: the thread, the grid and
/// the automata change, started threads are added to `spawn` and printed
/// values to `out`; the result is the exit status if the thread halts the
/// engine.
pub(crate) fn act(
    t: &mut Thread,
    cells: &mut Vec<char>,
    automata: &mut Vec<Automaton>,
    width: usize,
    height: usize,
    spawn: &mut Vec<Thread>,
    out: &mut Vec<u32>,
) -> (halt: Option<u32>)
    requires
        old(t).coord.within(width as int, height as int),
        !(old(t).state is Dead),
        old(cells)@.len() == width * height,
        automata_ok(old(automata)@, width as int, height as int),
        threads_ok(old(spawn)@.map_values(|x: Thread| x@), width as int, height as int),
    ensures
        ({
            let e = effect(old(t)@, old(cells)@, old(automata)@, width as int, height as int);
            &&& final(t)@ == e.thread
            &&& final(cells)@ == e.cells
            &&& final(automata)@ == e.automata
            &&& final(spawn)@.map_values(|x: Thread| x@) == old(spawn)@.map_values(|x: Thread| x@)
                + e.spawned
            &&& final(out)@ == old(out)@ + e.output
            &&& halt == e.halt
        }),
        final(t).coord.within(width as int, height as int),
        final(cells)@.len() == width * height,
        automata_ok(final(automata)@, width as int, height as int),
        threads_ok(final(spawn)@.map_values(|x: Thread| x@), width as int, height as int),
{
    let ghost w = width as int;
    let ghost h = height as int;
    let ghost spawn0 = spawn@.map_values(|x: Thread| x@);
    let ghost out0 = out@;
    let c = cells[slot(t.coord, width, height, cells.len())];
    match t.state {
        State::Exec => {},
        _ => {
            take_char(t, c);
            assert(spawn0 + Seq::<ThreadView>::empty() =~= spawn0);
            assert(out0 + Seq::<u32>::empty() =~= out0);
            return None;
        },
    }
    let halt = match c {
        ',' => {
            let v = t.pop();
            out.push(v);
            None
        },
        'P' => {
            drain(t, out);
            None
        },
        'm' | 'M' => {
            let v = t.pop();
            let ch = code_to_char(v);
            let mut side = t.dir;
            side.turn(if c == 'm' { 2 } else { -2 });
            let mut target = t.coord;
            target.advance(side, width, height);
            place_char(cells, automata, width, height, target, ch);
            None
        },
        'H' => {
            let n = t.pop();
            let v = t.pop();
            let ch = code_to_char(v);
            let mut target = t.coord;
            target.moven(t.dir, width, height, n);
            place_char(cells, automata, width, height, target, ch);
            None
        },
        'G' => {
            spawn_thread(spawn, t.fork(-2), Ghost(w), Ghost(h));
            None
        },
        'g' => {
            spawn_thread(spawn, t.fork(2), Ghost(w), Ghost(h));
            None
        },
        'T' => {
            spawn_thread(spawn, t.fork(2), Ghost(w), Ghost(h));
            t.dir.turn(-2);
            None
        },
        'Y' => {
            spawn_thread(spawn, t.fork(1), Ghost(w), Ghost(h));
            t.dir.turn(-1);
            None
        },
        'Q' => Some(t.pop()),
        _ => {
            steer_thread(t, c, cells, width, height);
            None
        },
    };
    assert(spawn@.map_values(|x: Thread| x@) =~= spawn0 + effect(
        old(t)@,
        old(cells)@,
        old(automata)@,
        w,
        h,
    ).spawned);
    assert(out@ =~= out0 + effect(old(t)@, old(cells)@, old(automata)@, w, h).output);
    halt
}

/// Overwriting a well-placed automaton with another keeps them well placed.
pub(crate) proof fn lemma_automata_ok_update(s: Seq<Automaton>, i: int, a: Automaton, width: int, height: int)
    requires
        automata_ok(s, width, height),
        0 <= i < s.len(),
        a.coord.within(width, height),
        a.dir.is_cardinal(),
    ensures
        automata_ok(s.update(i, a), width, height),
{
    assert forall|j: int| 0 <= j < s.update(i, a).len() implies {
        &&& #[trigger] s.update(i, a)[j].coord.within(width, height)
        &&& s.update(i, a)[j].dir.is_cardinal()
    } by {
        if j != i {
            assert(s.update(i, a)[j] == s[j]);
            assert(s[j].coord.within(width, height));
        } else {
            assert(s.update(i, a)[j] == a);
        }
    }
}

/// A thread's move at the end of a tick.
pub(crate) fn move_thread(t: &mut Thread, cells: &Vec<char>, width: usize, height: usize)
    requires
        old(t).coord.within(width as int, height as int),
        cells@.len() == width * height,
    ensures
        final(t)@ == moved(old(t)@, cells@, width as int, height as int),
        final(t).coord.within(width as int, height as int),
{
    match t.state {
        State::Exec => {
            t.coord = glide_from(cells, width, height, t.coord, t.dir);
        },
        _ => {
            t.coord.advance(t.dir, width, height);
        },
    }
}

/// How many automata of `s` stand in cell `p`.
pub(crate) fn count_in(s: &Vec<Automaton>, p: Coord) -> (r: usize)
    ensures
        r == count_at(s@, p),
{
    let mut r: usize = 0;
    let mut i: usize = 0;
    while i < s.len()
        invariant
            i <= s@.len(),
            r <= i,
            r == count_at(s@.subrange(0, i as int), p),
        decreases s@.len() - i,
    {
        proof {
            let q = s@.subrange(0, i + 1);
            assert(q.drop_last() =~= s@.subrange(0, i as int));
        }
        if s[i].coord == p {
            r = r + 1;
        }
        i = i + 1;
    }
    assert(s@.subrange(0, s@.len() as int) =~= s@);
    r
}

/// The automaton `a`, which has just moved, meeting what is in its cell.
pub(crate) fn resolve_one(
    cells: &mut Vec<char>,
    snapshot: &Vec<Automaton>,
    a: Automaton,
    width: usize,
    height: usize,
) -> (r: Automaton)
    requires
        a.coord.within(width as int, height as int),
        a.dir.is_cardinal(),
        old(cells)@.len() == width * height,
    ensures
        (final(cells)@, r) == resolve(old(cells)@, snapshot@, a, width as int, height as int),
        final(cells)@.len() == width * height,
        r.coord.within(width as int, height as int),
        r.dir.is_cardinal(),
{
    let len = cells.len();
    let at = slot(a.coord, width, height, len);
    let here = cells[at];
    let crowded = count_in(snapshot, a.coord) > 1;
    if here != ' ' || crowded {
        let mut peek = a.coord;
        peek.advance(a.dir, width, height);
        if !crowded && Automaton::is_pushable(here) {
            let ahead = slot(peek, width, height, len);
            if cells[ahead] == ' ' {
                cells.set(ahead, here);
                cells.set(at, ' ');
            }
        }
        let mut d = a.dir;
        d.bounce();
        let mut first = a.coord;
        first.advance(d, width, height);
        let mut second = first;
        second.advance(d, width, height);
        let coord = if cells[slot(second, width, height, len)] == ' ' {
            second
        } else {
            first
        };
        Automaton { coord, dir: d }
    } else {
        a
    }
}

} // verus!
