use kye::{Automaton, Coord, Dir, Kye, State, Thread};

fn lines(rows: &[&str]) -> Vec<Vec<char>> {
    rows.iter().map(|r| r.chars().collect()).collect()
}

fn grid(rows: &[&str]) -> (Vec<char>, usize, usize) {
    let width = rows[0].chars().count();
    let cells: Vec<char> = rows.iter().flat_map(|r| r.chars()).collect();
    (cells, width, rows.len())
}

fn thread_at(x: usize, y: usize, stack: &[u32]) -> Thread {
    let mut t = Thread::new(Coord::new(x, y));
    for v in stack {
        t.push(*v);
    }
    t
}

fn engine(rows: &[&str], threads: Vec<Thread>, automata: Vec<Automaton>) -> Kye {
    let (cells, width, height) = grid(rows);
    Kye::new(cells, threads, automata, width, height)
}

fn row(k: &Kye, y: usize) -> String {
    (0..k.width()).map(|x| k.cell(x, y)).collect()
}

#[test]
fn digit_sets_heading_on_single_cell() {
    let mut k = engine(&["3"], vec![thread_at(0, 0, &[])], vec![]);
    let out = k.tick();
    assert!(out.is_empty());
    assert_eq!(k.threads.len(), 1);
    assert_eq!(k.threads[0].dir, Dir::SE);
    assert_eq!(k.threads[0].coord, Coord::new(0, 0));
}

#[test]
fn string_pushes_each_character() {
    let mut k = engine(&["'ab'"], vec![thread_at(0, 0, &[])], vec![]);
    for _ in 0..4 {
        k.tick();
    }
    assert_eq!(k.threads[0].stack, vec!['a' as u32, 'b' as u32]);
    assert_eq!(k.threads[0].state, State::Exec);
    assert_eq!(k.threads[0].coord, Coord::new(0, 0));
}

#[test]
fn string_escapes() {
    let mut k = engine(&["'\\n\\7'"], vec![thread_at(0, 0, &[])], vec![]);
    for _ in 0..6 {
        k.tick();
    }
    assert_eq!(k.threads[0].stack, vec![10, 7]);
    let mut k = engine(&["\"\\t"], vec![thread_at(0, 0, &[])], vec![]);
    for _ in 0..3 {
        k.tick();
    }
    assert_eq!(k.threads[0].stack, vec![9]);
    assert_eq!(k.threads[0].state, State::Exec);
}

#[test]
fn automaton_bounces_off_wall_two_cells_back() {
    let mut k = Kye::read(&lines(&[">O   ", "$    "]));
    k.tick();
    assert_eq!(row(&k, 0), " O   ");
    let a = k.automata()[0];
    assert_eq!(a.dir, Dir::W);
    assert_eq!(a.coord, Coord::new(4, 0));
}

#[test]
fn automaton_bounces_off_wall_one_cell_back() {
    let mut k = Kye::read(&lines(&[">O  X", "$    "]));
    k.tick();
    assert_eq!(row(&k, 0), " O  X");
    let a = k.automata()[0];
    assert_eq!(a.dir, Dir::W);
    assert_eq!(a.coord, Coord::new(0, 0));
}

#[test]
fn automaton_pushes_glyph_into_blank() {
    let mut k = Kye::read(&lines(&[">X  ", "$   "]));
    k.tick();
    assert_eq!(row(&k, 0), "  X ");
    let a = k.automata()[0];
    assert_eq!(a.dir, Dir::W);
    assert_eq!(a.coord, Coord::new(3, 0));
}

#[test]
fn automaton_push_refused_when_blocked() {
    let mut k = Kye::read(&lines(&[">XY  ", "$    "]));
    k.tick();
    assert_eq!(row(&k, 0), " XY  ");
    let a = k.automata()[0];
    assert_eq!(a.dir, Dir::W);
    assert_eq!(a.coord, Coord::new(4, 0));
}

#[test]
fn automata_meeting_bounce() {
    let mut k = Kye::read(&lines(&["> <  ", "$    "]));
    k.tick();
    let a = k.automata();
    assert_eq!(a.len(), 2);
    assert_eq!(a[0].dir, Dir::W);
    assert_eq!(a[0].coord, Coord::new(4, 0));
    assert_eq!(a[1].dir, Dir::E);
    assert_eq!(a[1].coord, Coord::new(3, 0));
    assert_eq!(row(&k, 0), "     ");
}

#[test]
fn halt_clears_roster_before_later_threads_act() {
    let threads = vec![thread_at(0, 0, &[42]), thread_at(1, 0, &['X' as u32])];
    let mut k = engine(&["Qm", "  "], threads, vec![]);
    let out = k.tick();
    assert!(out.is_empty());
    assert!(k.threads.is_empty());
    assert_eq!(k.exit_status, 42);
    assert_eq!(row(&k, 1), "  ");
}

#[test]
fn halt_on_empty_stack_gives_zero() {
    let threads = vec![thread_at(0, 0, &[]), thread_at(1, 0, &[])];
    let mut k = engine(&["Qz"], threads, vec![]);
    k.tick();
    assert!(k.threads.is_empty());
    assert_eq!(k.exit_status, 0);
}

#[test]
fn later_thread_sees_earlier_write() {
    let threads = vec![thread_at(0, 0, &['Q' as u32]), thread_at(0, 1, &[7])];
    let mut k = engine(&["m ", "  "], threads, vec![]);
    k.tick();
    assert!(k.threads.is_empty());
    assert_eq!(k.exit_status, 7);
}

#[test]
fn finished_engine_stays_still() {
    let mut k = Kye::read(&lines(&["> X ", "    "]));
    assert!(k.threads.is_empty());
    let before: Vec<Automaton> = k.automata().clone();
    let out = k.tick();
    assert!(out.is_empty());
    assert_eq!(k.automata(), &before);
    assert_eq!(row(&k, 0), "  X ");
    assert_eq!(k.exit_status, 0);
}

#[test]
fn read_skips_shebang_and_pads() {
    let k = Kye::read(&lines(&["#!/usr/bin/kye", "$ >", "ab", "v"]));
    assert_eq!(k.width(), 3);
    assert_eq!(k.height(), 3);
    assert_eq!(row(&k, 0), "   ");
    assert_eq!(row(&k, 1), "ab ");
    assert_eq!(row(&k, 2), "   ");
    assert_eq!(k.threads.len(), 1);
    assert_eq!(k.threads[0].coord, Coord::new(0, 0));
    assert_eq!(k.threads[0].dir, Dir::E);
    let a = k.automata();
    assert_eq!(a.len(), 2);
    assert_eq!(a[0], Automaton::new(Coord::new(2, 0), Dir::E));
    assert_eq!(a[1], Automaton::new(Coord::new(0, 2), Dir::S));
}

#[test]
fn read_keeps_first_line_without_hash() {
    let k = Kye::read(&lines(&["ab", "#$"]));
    assert_eq!(k.height(), 2);
    assert_eq!(row(&k, 0), "ab");
    assert_eq!(row(&k, 1), "# ");
    assert_eq!(k.threads[0].coord, Coord::new(1, 1));
}

#[test]
fn read_empty_program() {
    let k = Kye::read(&lines(&[]));
    assert_eq!(k.width(), 0);
    assert_eq!(k.height(), 0);
    assert!(k.threads.is_empty());
}

#[test]
fn comma_prints_popped_value() {
    let mut k = engine(&["\"A,"], vec![thread_at(0, 0, &[])], vec![]);
    assert!(k.tick().is_empty());
    assert!(k.tick().is_empty());
    assert_eq!(k.threads[0].coord, Coord::new(2, 0));
    assert_eq!(k.tick(), vec![65]);
    assert!(k.threads[0].stack.is_empty());
}

#[test]
fn p_prints_whole_stack_top_first() {
    let mut k = engine(&["P"], vec![thread_at(0, 0, &[1, 2, 3])], vec![]);
    assert_eq!(k.tick(), vec![3, 2, 1]);
    assert!(k.threads[0].stack.is_empty());
}

#[test]
fn increment_and_decrement_wrap() {
    let mut k = engine(&["["], vec![thread_at(0, 0, &[])], vec![]);
    k.tick();
    assert_eq!(k.threads[0].stack, vec![1]);
    let mut k = engine(&["]"], vec![thread_at(0, 0, &[])], vec![]);
    k.tick();
    assert_eq!(k.threads[0].stack, vec![u32::MAX]);
    let mut k = engine(&["["], vec![thread_at(0, 0, &[u32::MAX])], vec![]);
    k.tick();
    assert_eq!(k.threads[0].stack, vec![0]);
}

#[test]
fn turns_and_mirrors_in_program() {
    let mut k = engine(&["C"], vec![thread_at(0, 0, &[])], vec![]);
    k.tick();
    assert_eq!(k.threads[0].dir, Dir::S);
    let mut k = engine(&["a"], vec![thread_at(0, 0, &[])], vec![]);
    k.tick();
    assert_eq!(k.threads[0].dir, Dir::NE);
    let mut k = engine(&["/"], vec![thread_at(0, 0, &[])], vec![]);
    k.tick();
    assert_eq!(k.threads[0].dir, Dir::N);
    let mut k = engine(&["5"], vec![thread_at(0, 0, &[])], vec![]);
    k.tick();
    assert_eq!(k.threads[0].dir, Dir::E);
}

#[test]
fn exec_thread_glides_over_blanks() {
    let mut k = engine(&["z   x"], vec![thread_at(0, 0, &[])], vec![]);
    k.tick();
    assert_eq!(k.threads[0].coord, Coord::new(4, 0));
    assert_eq!(k.threads[0].stack, vec![0]);
}

#[test]
fn thread_on_blank_line_comes_back() {
    let mut k = engine(&["   "], vec![thread_at(1, 0, &[])], vec![]);
    k.tick();
    assert_eq!(k.threads[0].coord, Coord::new(1, 0));
}

#[test]
fn trampoline_skips_one_cell() {
    let mut k = engine(&["#ab"], vec![thread_at(0, 0, &[])], vec![]);
    k.tick();
    assert_eq!(k.threads[0].coord, Coord::new(2, 0));
}

#[test]
fn jump_pops_distance() {
    let mut k = engine(&["jabcd"], vec![thread_at(0, 0, &[2])], vec![]);
    k.tick();
    assert_eq!(k.threads[0].coord, Coord::new(3, 0));
    assert!(k.threads[0].stack.is_empty());
}

#[test]
fn test_instruction_skips_on_zero() {
    let mut k = engine(&["tab"], vec![thread_at(0, 0, &[0])], vec![]);
    k.tick();
    assert_eq!(k.threads[0].coord, Coord::new(2, 0));
    let mut k = engine(&["tab"], vec![thread_at(0, 0, &[3])], vec![]);
    k.tick();
    assert_eq!(k.threads[0].coord, Coord::new(1, 0));
}

#[test]
fn semicolon_skips_to_next_marker() {
    let mut k = engine(&[";ab;cd"], vec![thread_at(0, 0, &[])], vec![]);
    k.tick();
    assert_eq!(k.threads[0].coord, Coord::new(4, 0));
    let mut k = engine(&[";ab"], vec![thread_at(0, 0, &[])], vec![]);
    k.tick();
    assert_eq!(k.threads[0].coord, Coord::new(1, 0));
}

#[test]
fn at_sign_ends_thread() {
    let mut k = engine(&["@"], vec![thread_at(0, 0, &[])], vec![]);
    k.tick();
    assert!(k.threads.is_empty());
    assert_eq!(k.exit_status, 0);
}

#[test]
fn forks_join_next_tick() {
    let mut k = engine(&["G.", ".."], vec![thread_at(0, 0, &[5])], vec![]);
    k.tick();
    assert_eq!(k.threads.len(), 2);
    assert_eq!(k.threads[0].dir, Dir::E);
    assert_eq!(k.threads[0].coord, Coord::new(1, 0));
    assert_eq!(k.threads[1].dir, Dir::N);
    assert_eq!(k.threads[1].coord, Coord::new(0, 1));
    assert_eq!(k.threads[1].stack, vec![5]);

    let mut k = engine(&["T.", ".."], vec![thread_at(0, 0, &[])], vec![]);
    k.tick();
    assert_eq!(k.threads[0].dir, Dir::N);
    assert_eq!(k.threads[1].dir, Dir::S);

    let mut k = engine(&["Y.", ".."], vec![thread_at(0, 0, &[])], vec![]);
    k.tick();
    assert_eq!(k.threads[0].dir, Dir::NE);
    assert_eq!(k.threads[1].dir, Dir::SE);
}

#[test]
fn write_to_the_right_and_left() {
    let mut k = engine(&["...", ".m.", "..."], vec![thread_at(1, 1, &['Z' as u32])], vec![]);
    k.tick();
    assert_eq!(row(&k, 2), ".Z.");
    let mut k = engine(&["...", ".M.", "..."], vec![thread_at(1, 1, &['Z' as u32])], vec![]);
    k.tick();
    assert_eq!(row(&k, 0), ".Z.");
}

#[test]
fn write_invalid_code_gives_dot() {
    let mut k = engine(&["m", " "], vec![thread_at(0, 0, &[0xD800])], vec![]);
    k.tick();
    assert_eq!(row(&k, 1), ".");
}

#[test]
fn write_glyph_spawns_automaton_and_replaces_old() {
    let old = Automaton::new(Coord::new(0, 1), Dir::N);
    let mut k = engine(&["m", " ", " "], vec![thread_at(0, 0, &['v' as u32])], vec![old]);
    k.tick();
    let a = k.automata();
    assert_eq!(a.len(), 1);
    assert_eq!(a[0].dir, Dir::S);
    assert_eq!(a[0].coord, Coord::new(0, 2));
    assert_eq!(k.cell(0, 1), ' ');
}

#[test]
fn h_writes_at_distance() {
    let mut k = engine(&["H...."], vec![thread_at(0, 0, &['Q' as u32, 3])], vec![]);
    k.tick();
    assert_eq!(row(&k, 0), "H..Q.");
    assert!(k.threads[0].stack.is_empty());
}

#[test]
fn lookups_by_cell() {
    let threads = vec![thread_at(1, 0, &[]), thread_at(0, 1, &[]), thread_at(1, 0, &[3])];
    let automata = vec![Automaton::new(Coord::new(1, 0), Dir::E)];
    let k = engine(&["ab", "cd"], threads, automata);
    let here = k.threads_at(1, 0);
    assert_eq!(here.len(), 2);
    assert_eq!(here[1].stack, vec![3]);
    assert!(k.threads_at(1, 1).is_empty());
    assert_eq!(k.automata_at(1, 0).len(), 1);
    assert!(k.automata_at(0, 0).is_empty());
    assert_eq!(k.cells(), vec![(0, 0), (0, 1), (1, 0), (1, 1)]);
}
