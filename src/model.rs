//! The meaning of one tick, stated over mathematical values.
use vstd::prelude::*;

use crate::aut::{glyph_dir, is_glyph, pushable, Automaton};
use crate::coord::Coord;
use crate::dir::Dir;
use crate::thread::{popped, top_or_zero, State, ThreadView};

verus! {

/// Where the cell `p` sits in the row-major list of cells.
pub open spec fn cell_index(p: Coord, width: int) -> int {
    p.y * width + p.x
}

/// The character in cell `p`.
pub open spec fn cell_at(cells: Seq<char>, width: int, p: Coord) -> char {
    cells[cell_index(p, width)]
}

/// Whether `v` is the code of a Unicode scalar value, that is of a `char`.
pub open spec fn is_scalar(v: u32) -> bool {
    v < 0xD800 || (0xE000 <= v && v <= 0x10FFFF)
}

/// The character with code `v`, or `.` where `v` is the code of none.
pub open spec fn code_char(v: u32) -> char {
    if is_scalar(v) {
        v as char
    } else {
        '.'
    }
}

/// The value that a backslash followed by `c` stands for.
pub open spec fn escaped(c: char) -> u32 {
    if c == 't' {
        9
    } else if c == 'n' {
        10
    } else if c == 'v' {
        0x0B
    } else if c == 'f' {
        0x0C
    } else if c == 'r' {
        13
    } else if 48 <= c as u32 && c as u32 <= 57 {
        (c as u32 - 48) as u32
    } else {
        c as u32
    }
}

/// The heading set by a digit, laid out as on a numeric keypad.
pub open spec fn keypad(c: char) -> Option<Dir> {
    if c == '1' {
        Some(Dir::SW)
    } else if c == '2' {
        Some(Dir::S)
    } else if c == '3' {
        Some(Dir::SE)
    } else if c == '4' {
        Some(Dir::W)
    } else if c == '6' {
        Some(Dir::E)
    } else if c == '7' {
        Some(Dir::NW)
    } else if c == '8' {
        Some(Dir::N)
    } else if c == '9' {
        Some(Dir::NE)
    } else {
        None
    }
}

/// `v + 1` on 32 bits, wrapping round.
pub open spec fn succ(v: u32) -> u32 {
    if v == u32::MAX {
        0
    } else {
        (v + 1) as u32
    }
}

/// `v - 1` on 32 bits, wrapping round.
pub open spec fn pred(v: u32) -> u32 {
    if v == 0 {
        u32::MAX
    } else {
        (v - 1) as u32
    }
}

/// A thread reading `c` inside a string or after `"`.
pub open spec fn read_char(t: ThreadView, c: char) -> ThreadView {
    match t.state {
        State::Push => {
            if c == '\\' {
                ThreadView { state: State::PushEsc, ..t }
            } else if c == '\'' {
                ThreadView { state: State::Exec, ..t }
            } else {
                ThreadView { stack: t.stack.push(c as u32), ..t }
            }
        },
        State::PushEsc => ThreadView { state: State::Push, stack: t.stack.push(escaped(c)), ..t },
        State::Char => {
            if c == '\\' {
                ThreadView { state: State::CharEsc, ..t }
            } else {
                ThreadView { state: State::Exec, stack: t.stack.push(c as u32), ..t }
            }
        },
        State::CharEsc => ThreadView { state: State::Exec, stack: t.stack.push(escaped(c)), ..t },
        _ => t,
    }
}

/// The first cell after `p` along `d` that holds `;`, looking at most `fuel`
/// cells ahead and stopping at the last of them.
pub open spec fn seek(cells: Seq<char>, width: int, height: int, p: Coord, d: Dir, fuel: nat) -> Coord
    decreases fuel,
{
    let q = p.stepped(d, width, height);
    if fuel <= 1 || cell_at(cells, width, q) == ';' {
        q
    } else {
        seek(cells, width, height, q, d, (fuel - 1) as nat)
    }
}

/// The first cell after `p` along `d` that is not blank, looking at most
/// `fuel` cells ahead and stopping at the last of them.
pub open spec fn glide(cells: Seq<char>, width: int, height: int, p: Coord, d: Dir, fuel: nat) -> Coord
    decreases fuel,
{
    let q = p.stepped(d, width, height);
    if fuel <= 1 || cell_at(cells, width, q) != ' ' {
        q
    } else {
        glide(cells, width, height, q, d, (fuel - 1) as nat)
    }
}

/// A thread executing `c`, for the instructions that change the thread alone.
pub open spec fn steer(t: ThreadView, c: char, cells: Seq<char>, width: int, height: int) -> ThreadView {
    let v = top_or_zero(t.stack);
    let rest = ThreadView { stack: popped(t.stack), ..t };
    if keypad(c) is Some {
        ThreadView { dir: keypad(c)->0, ..t }
    } else if c == 'C' {
        ThreadView { dir: t.dir.turned(2), ..t }
    } else if c == 'c' {
        ThreadView { dir: t.dir.turned(1), ..t }
    } else if c == 'A' {
        ThreadView { dir: t.dir.turned(-2), ..t }
    } else if c == 'a' {
        ThreadView { dir: t.dir.turned(-1), ..t }
    } else if c == '|' {
        ThreadView { dir: t.dir.mirrored(Dir::N), ..t }
    } else if c == '/' {
        ThreadView { dir: t.dir.mirrored(Dir::NE), ..t }
    } else if c == '_' {
        ThreadView { dir: t.dir.mirrored(Dir::E), ..t }
    } else if c == '\\' {
        ThreadView { dir: t.dir.mirrored(Dir::SE), ..t }
    } else if c == '\'' {
        ThreadView { state: State::Push, ..t }
    } else if c == '"' {
        ThreadView { state: State::Char, ..t }
    } else if c == '#' {
        ThreadView { coord: t.coord.stepped(t.dir, width, height), ..t }
    } else if c == 'j' {
        ThreadView { coord: t.coord.stepped_n(t.dir, width, height, v as nat), ..rest }
    } else if c == 't' {
        if v == 0 {
            ThreadView { coord: t.coord.stepped(t.dir, width, height), ..rest }
        } else {
            rest
        }
    } else if c == 'z' {
        ThreadView { stack: t.stack.push(0), ..t }
    } else if c == '[' {
        ThreadView { stack: popped(t.stack).push(succ(v)), ..t }
    } else if c == ']' {
        ThreadView { stack: popped(t.stack).push(pred(v)), ..t }
    } else if c == ';' {
        ThreadView { coord: seek(cells, width, height, t.coord, t.dir, (width * height) as nat), ..t }
    } else if c == '@' {
        ThreadView { state: State::Dead, ..t }
    } else {
        t
    }
}

/// The automata without those in cell `p`, in their order.
pub open spec fn without_at(s: Seq<Automaton>, p: Coord) -> Seq<Automaton>
    decreases s.len(),
{
    if s.len() == 0 {
        s
    } else {
        let rest = without_at(s.drop_last(), p);
        if s.last().coord == p {
            rest
        } else {
            rest.push(s.last())
        }
    }
}

/// Writing `ch` into cell `p`: any automaton there is removed; an automaton
/// glyph becomes a new automaton over a blank cell, any other character is
/// written as it is.
pub open spec fn place(cells: Seq<char>, automata: Seq<Automaton>, width: int, p: Coord, ch: char) -> (
    Seq<char>,
    Seq<Automaton>,
) {
    let rest = without_at(automata, p);
    if is_glyph(ch) {
        (
            cells.update(cell_index(p, width), ' '),
            rest.push(Automaton { coord: p, dir: glyph_dir(ch)->0 }),
        )
    } else {
        (cells.update(cell_index(p, width), ch), rest)
    }
}

/// The values that popping a whole stack gives, top first.
pub open spec fn drained(s: Seq<u32>) -> Seq<u32>
    decreases s.len(),
{
    if s.len() == 0 {
        Seq::empty()
    } else {
        seq![s.last()] + drained(s.drop_last())
    }
}

/// What one thread does in one tick: the thread itself afterwards, the grid
/// and automata it leaves, the threads it starts, the values it prints, and
/// the exit status if it halts the engine.
pub struct Effect {
    pub thread: ThreadView,
    pub cells: Seq<char>,
    pub automata: Seq<Automaton>,
    pub spawned: Seq<ThreadView>,
    pub output: Seq<u32>,
    pub halt: Option<u32>,
}

/// A copy of `t` turned by `i` eighths.
pub open spec fn forked(t: ThreadView, i: int) -> ThreadView {
    ThreadView { dir: t.dir.turned(i), ..t }
}

/// A thread executing the instruction `c`.
pub open spec fn exec_effect(
    t: ThreadView,
    c: char,
    cells: Seq<char>,
    automata: Seq<Automaton>,
    width: int,
    height: int,
) -> Effect {
    let plain = Effect {
        thread: t,
        cells,
        automata,
        spawned: Seq::empty(),
        output: Seq::empty(),
        halt: None,
    };
    let v = top_or_zero(t.stack);
    let rest = ThreadView { stack: popped(t.stack), ..t };
    if c == ',' {
        Effect { thread: rest, output: seq![v], ..plain }
    } else if c == 'P' {
        Effect { thread: ThreadView { stack: Seq::empty(), ..t }, output: drained(t.stack), ..plain }
    } else if c == 'm' || c == 'M' {
        let side = if c == 'm' {
            t.dir.turned(2)
        } else {
            t.dir.turned(-2)
        };
        let target = t.coord.stepped(side, width, height);
        let placed = place(cells, automata, width, target, code_char(v));
        Effect { thread: rest, cells: placed.0, automata: placed.1, ..plain }
    } else if c == 'H' {
        let ch = code_char(top_or_zero(rest.stack));
        let target = t.coord.stepped_n(t.dir, width, height, v as nat);
        let placed = place(cells, automata, width, target, ch);
        Effect {
            thread: ThreadView { stack: popped(rest.stack), ..t },
            cells: placed.0,
            automata: placed.1,
            ..plain
        }
    } else if c == 'G' {
        Effect { spawned: seq![forked(t, -2)], ..plain }
    } else if c == 'g' {
        Effect { spawned: seq![forked(t, 2)], ..plain }
    } else if c == 'T' {
        Effect { thread: forked(t, -2), spawned: seq![forked(t, 2)], ..plain }
    } else if c == 'Y' {
        Effect { thread: forked(t, -1), spawned: seq![forked(t, 1)], ..plain }
    } else if c == 'Q' {
        Effect { thread: rest, halt: Some(v), ..plain }
    } else {
        Effect { thread: steer(t, c, cells, width, height), ..plain }
    }
}

/// A thread acting on the character under it.
pub open spec fn effect(
    t: ThreadView,
    cells: Seq<char>,
    automata: Seq<Automaton>,
    width: int,
    height: int,
) -> Effect {
    let c = cell_at(cells, width, t.coord);
    if t.state is Exec {
        exec_effect(t, c, cells, automata, width, height)
    } else {
        Effect {
            thread: read_char(t, c),
            cells,
            automata,
            spawned: Seq::empty(),
            output: Seq::empty(),
            halt: None,
        }
    }
}

/// The engine as a mathematical value. The cells are listed row by row.
pub struct KyeView {
    pub cells: Seq<char>,
    pub width: nat,
    pub height: nat,
    pub threads: Seq<ThreadView>,
    pub automata: Seq<Automaton>,
    pub exit_status: u32,
}

/// The thread is alive and holds a cell of the grid.
pub open spec fn live_on(t: ThreadView, width: int, height: int) -> bool {
    t.coord.within(width, height) && !(t.state is Dead)
}

/// The threads are alive and hold cells of the grid.
pub open spec fn threads_ok(s: Seq<ThreadView>, width: int, height: int) -> bool {
    forall|i: int| 0 <= i < s.len() ==> #[trigger] live_on(s[i], width, height)
}

/// The automata hold cells of the grid and cardinal headings.
pub open spec fn automata_ok(s: Seq<Automaton>, width: int, height: int) -> bool {
    forall|i: int|
        0 <= i < s.len() ==> {
            &&& #[trigger] s[i].coord.within(width, height)
            &&& s[i].dir.is_cardinal()
        }
}

impl KyeView {
    /// Every cell is present, every thread is alive and on the grid, and
    /// every automaton is on the grid with a cardinal heading.
    pub open spec fn wf(self) -> bool {
        &&& self.cells.len() == self.width * self.height
        &&& threads_ok(self.threads, self.width as int, self.height as int)
        &&& automata_ok(self.automata, self.width as int, self.height as int)
    }
}

/// The state of a tick part way through dispatch: grid and automata so far,
/// the threads dispatched so far, the threads they started, what they
/// printed, and the exit status if one of them halted.
pub struct Round {
    pub cells: Seq<char>,
    pub automata: Seq<Automaton>,
    pub threads: Seq<ThreadView>,
    pub spawned: Seq<ThreadView>,
    pub output: Seq<u32>,
    pub halt: Option<u32>,
}

/// The round after the next thread, `t`, has acted.
pub open spec fn dispatch(r: Round, t: ThreadView, width: int, height: int) -> Round {
    let e = effect(t, r.cells, r.automata, width, height);
    Round {
        cells: e.cells,
        automata: e.automata,
        threads: r.threads.push(e.thread),
        spawned: r.spawned + e.spawned,
        output: r.output + e.output,
        halt: e.halt,
    }
}

/// The round once the first `n` threads of the roster have acted, in order;
/// nothing more happens after a halt.
pub open spec fn dispatch_all(k: KyeView, n: nat) -> Round
    decreases n,
{
    if n == 0 {
        Round {
            cells: k.cells,
            automata: k.automata,
            threads: Seq::empty(),
            spawned: Seq::empty(),
            output: Seq::empty(),
            halt: None,
        }
    } else {
        let r = dispatch_all(k, (n - 1) as nat);
        if r.halt is Some {
            r
        } else {
            dispatch(r, k.threads[n - 1], k.width as int, k.height as int)
        }
    }
}

/// A thread's move at the end of a tick: one step, and for an executing
/// thread further steps for as long as it lands on blank cells, but at most
/// `width * height` steps in all; after that many steps any walk is back at
/// its start, so a thread whose whole path is blank stays where it was.
pub open spec fn moved(t: ThreadView, cells: Seq<char>, width: int, height: int) -> ThreadView {
    if t.state is Exec {
        ThreadView {
            coord: glide(cells, width, height, t.coord, t.dir, (width * height) as nat),
            ..t
        }
    } else {
        ThreadView { coord: t.coord.stepped(t.dir, width, height), ..t }
    }
}

/// The threads that are not dead, each moved.
pub open spec fn survivors(s: Seq<ThreadView>, cells: Seq<char>, width: int, height: int) -> Seq<
    ThreadView,
>
    decreases s.len(),
{
    if s.len() == 0 {
        Seq::empty()
    } else {
        let rest = survivors(s.drop_last(), cells, width, height);
        if s.last().state is Dead {
            rest
        } else {
            rest.push(moved(s.last(), cells, width, height))
        }
    }
}

/// An automaton one step further along its heading.
pub open spec fn drift(a: Automaton, width: int, height: int) -> Automaton {
    Automaton { coord: a.coord.stepped(a.dir, width, height), dir: a.dir }
}

/// How many automata stand in cell `p`.
pub open spec fn count_at(s: Seq<Automaton>, p: Coord) -> nat
    decreases s.len(),
{
    if s.len() == 0 {
        0
    } else {
        count_at(s.drop_last(), p) + if s.last().coord == p {
            1nat
        } else {
            0nat
        }
    }
}

/// The automaton `a`, which has just moved, meeting what is in its cell:
/// another automaton of `snapshot`, or a character that it pushes on when
/// it can; either way it turns back.
pub open spec fn resolve(
    cells: Seq<char>,
    snapshot: Seq<Automaton>,
    a: Automaton,
    width: int,
    height: int,
) -> (Seq<char>, Automaton) {
    let here = cell_at(cells, width, a.coord);
    let crowded = count_at(snapshot, a.coord) > 1;
    if here != ' ' || crowded {
        let peek = a.coord.stepped(a.dir, width, height);
        let pushed = if !crowded && pushable(here) && cell_at(cells, width, peek) == ' ' {
            cells.update(cell_index(peek, width), here).update(cell_index(a.coord, width), ' ')
        } else {
            cells
        };
        let d = a.dir.opposite();
        let first = a.coord.stepped(d, width, height);
        let second = first.stepped(d, width, height);
        let coord = if cell_at(pushed, width, second) == ' ' {
            second
        } else {
            first
        };
        (pushed, Automaton { coord, dir: d })
    } else {
        (cells, a)
    }
}

/// The grid and the first `n` automata of `snapshot` once each has met what
/// is in its cell, in order.
pub open spec fn collide(cells: Seq<char>, snapshot: Seq<Automaton>, width: int, height: int, n: nat) -> (
    Seq<char>,
    Seq<Automaton>,
)
    decreases n,
{
    if n == 0 {
        (cells, Seq::empty())
    } else {
        let prev = collide(cells, snapshot, width, height, (n - 1) as nat);
        let r = resolve(prev.0, snapshot, snapshot[n - 1], width, height);
        (r.0, prev.1.push(r.1))
    }
}

/// The engine after one tick, and the values printed during it.
pub open spec fn ticked(k: KyeView) -> (KyeView, Seq<u32>) {
    let w = k.width as int;
    let h = k.height as int;
    if k.threads.len() == 0 {
        (k, Seq::empty())
    } else {
        let r = dispatch_all(k, k.threads.len());
        if r.halt is Some {
            (
                KyeView {
                    cells: r.cells,
                    threads: Seq::empty(),
                    automata: r.automata,
                    exit_status: r.halt->0,
                    ..k
                },
                r.output,
            )
        } else {
            let roster = survivors(r.threads, r.cells, w, h) + r.spawned.map_values(
                |t: ThreadView| moved(t, r.cells, w, h),
            );
            let drifted = r.automata.map_values(|a: Automaton| drift(a, w, h));
            let settled = collide(r.cells, drifted, w, h, drifted.len());
            (KyeView { cells: settled.0, threads: roster, automata: settled.1, ..k }, r.output)
        }
    }
}

/// The lines that make up the grid: all of them, but for a first line that
/// starts with `#`.
pub open spec fn body_lines(lines: Seq<Seq<char>>) -> Seq<Seq<char>> {
    if lines.len() > 0 && lines[0].len() > 0 && lines[0][0] == '#' {
        lines.drop_first()
    } else {
        lines
    }
}

/// The length of the longest line.
pub open spec fn longest(lines: Seq<Seq<char>>) -> nat
    decreases lines.len(),
{
    if lines.len() == 0 {
        0
    } else {
        let m = longest(lines.drop_last());
        if lines.last().len() > m {
            lines.last().len()
        } else {
            m
        }
    }
}

/// The character of the program text for cell `i`, counting row by row,
/// where lines shorter than `width` are padded with blanks.
pub open spec fn source_at(lines: Seq<Seq<char>>, width: nat, i: int) -> char {
    let y = i / width as int;
    let x = i % width as int;
    if x < lines[y].len() {
        lines[y][x]
    } else {
        ' '
    }
}

/// What a character of the program text leaves in its cell: the markers of
/// threads and automata leave a blank.
pub open spec fn ground(c: char) -> char {
    if c == '$' || is_glyph(c) {
        ' '
    } else {
        c
    }
}

/// The cell numbered `i`, counting row by row.
pub open spec fn coord_of(i: int, width: nat) -> Coord {
    Coord { x: (i % width as int) as usize, y: (i / width as int) as usize }
}

/// The threads started by the `$` markers among the first `n` cells, in order.
pub open spec fn spawn_points(lines: Seq<Seq<char>>, width: nat, n: nat) -> Seq<ThreadView>
    decreases n,
{
    if n == 0 {
        Seq::empty()
    } else {
        let rest = spawn_points(lines, width, (n - 1) as nat);
        if source_at(lines, width, n - 1) == '$' {
            rest.push(
                ThreadView {
                    coord: coord_of(n - 1, width),
                    dir: Dir::E,
                    state: State::Exec,
                    stack: Seq::empty(),
                },
            )
        } else {
            rest
        }
    }
}

/// The automata of the glyphs among the first `n` cells, in order.
pub open spec fn glyph_points(lines: Seq<Seq<char>>, width: nat, n: nat) -> Seq<Automaton>
    decreases n,
{
    if n == 0 {
        Seq::empty()
    } else {
        let rest = glyph_points(lines, width, (n - 1) as nat);
        let c = source_at(lines, width, n - 1);
        if is_glyph(c) {
            rest.push(Automaton { coord: coord_of(n - 1, width), dir: glyph_dir(c)->0 })
        } else {
            rest
        }
    }
}

/// The engine that a program text, given line by line, loads into.
pub open spec fn loaded(lines: Seq<Seq<char>>) -> KyeView {
    let body = body_lines(lines);
    let w = longest(body);
    let h = body.len();
    KyeView {
        cells: Seq::new(w * h, |i: int| ground(source_at(body, w, i))),
        width: w,
        height: h,
        threads: spawn_points(body, w, w * h),
        automata: glyph_points(body, w, w * h),
        exit_status: 0,
    }
}

/// Once a thread has halted the engine, later threads change nothing.
pub proof fn lemma_halt_sticks(k: KyeView, m: nat, n: nat)
    requires
        m <= n,
        dispatch_all(k, m).halt is Some,
    ensures
        dispatch_all(k, n) == dispatch_all(k, m),
    decreases n - m,
{
    if n > m {
        lemma_halt_sticks(k, m, (n - 1) as nat);
    }
}

/// When a thread halts the engine, the tick ends there: the roster is
/// emptied, the exit status is the value the thread popped, and the grid,
/// the automata and the output are those left by the threads up to and
/// including it; the threads after it do nothing.
pub proof fn lemma_halt_ends_tick(k: KyeView, m: nat, v: u32)
    requires
        m <= k.threads.len(),
        dispatch_all(k, m).halt == Some(v),
    ensures
        ticked(k).0.threads.len() == 0,
        ticked(k).0.exit_status == v,
        ticked(k).0.cells == dispatch_all(k, m).cells,
        ticked(k).0.automata == dispatch_all(k, m).automata,
        ticked(k).1 == dispatch_all(k, m).output,
{
    lemma_halt_sticks(k, m, k.threads.len());
    if m == 0 {
        assert(dispatch_all(k, 0).halt is None);
    }
}

/// An engine without threads is finished: a tick leaves it as it is and
/// prints nothing.
pub proof fn lemma_finished_engine_is_still(k: KyeView)
    requires
        k.threads.len() == 0,
    ensures
        ticked(k) == (k, Seq::<u32>::empty()),
{
}

/// A search for `;` that starts from a cell holding `;` ends on a cell
/// holding `;`: at the latest it comes round to where it started.
pub proof fn lemma_seek_lands_on_marker(cells: Seq<char>, width: int, height: int, start: Coord, d: Dir)
    requires
        start.within(width, height),
        width <= usize::MAX,
        height <= usize::MAX,
        cells.len() == width * height,
        cell_at(cells, width, start) == ';',
    ensures
        cell_at(cells, width, seek(cells, width, height, start, d, (width * height) as nat)) == ';',
{
    assert(width * height >= 1) by (nonlinear_arith)
        requires
            width > start.x >= 0,
            height > start.y >= 0,
    ;
    lemma_seek_from(cells, width, height, start, d, 0);
}

proof fn lemma_seek_from(cells: Seq<char>, width: int, height: int, start: Coord, d: Dir, k: nat)
    requires
        start.within(width, height),
        width <= usize::MAX,
        height <= usize::MAX,
        cell_at(cells, width, start) == ';',
        k < width * height,
    ensures
        cell_at(
            cells,
            width,
            seek(
                cells,
                width,
                height,
                start.stepped_n(d, width, height, k),
                d,
                (width * height - k) as nat,
            ),
        ) == ';',
    decreases width * height - k,
{
    let p = start.stepped_n(d, width, height, k);
    let q = p.stepped(d, width, height);
    assert(q == start.stepped_n(d, width, height, k + 1));
    if width * height - k <= 1 {
        crate::coord::lemma_full_circuit(start, d, width, height);
        assert(k + 1 == width * height);
    } else if cell_at(cells, width, q) != ';' {
        lemma_seek_from(cells, width, height, start, d, k + 1);
    }
}

} // verus!
