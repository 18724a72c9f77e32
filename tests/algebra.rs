use kye::{decode, Automaton, Coord, Dir, Kye, State, Thread};

const ALL: [Dir; 8] = [Dir::N, Dir::NE, Dir::E, Dir::SE, Dir::S, Dir::SW, Dir::W, Dir::NW];

fn turned(d: Dir, i: i8) -> Dir {
    let mut r = d;
    r.turn(i);
    r
}

fn mirrored(d: Dir, axis: Dir) -> Dir {
    let mut r = d;
    r.mirror(axis);
    r
}

#[test]
fn turn_by_eighths() {
    assert_eq!(turned(Dir::E, 2), Dir::S);
    assert_eq!(turned(Dir::E, 1), Dir::SE);
    assert_eq!(turned(Dir::N, -1), Dir::NW);
    assert_eq!(turned(Dir::N, -2), Dir::W);
    assert_eq!(turned(Dir::NW, 1), Dir::N);
    assert_eq!(turned(Dir::SE, 8), Dir::SE);
    assert_eq!(turned(Dir::N, -128), Dir::N);
    assert_eq!(turned(Dir::N, 127), Dir::NW);
}

#[test]
fn bounce_is_half_turn() {
    for d in ALL {
        let mut b = d;
        b.bounce();
        assert_eq!(b, turned(d, 4));
    }
    let mut d = Dir::NE;
    d.bounce();
    assert_eq!(d, Dir::SW);
}

#[test]
fn turn_then_turn_back() {
    for d in ALL {
        for i in -127i8..=127 {
            assert_eq!(turned(turned(d, i), -i), d);
        }
    }
}

#[test]
fn mirrors() {
    assert_eq!(mirrored(Dir::E, Dir::N), Dir::W);
    assert_eq!(mirrored(Dir::E, Dir::NE), Dir::N);
    assert_eq!(mirrored(Dir::N, Dir::E), Dir::S);
    assert_eq!(mirrored(Dir::E, Dir::SE), Dir::S);
    assert_eq!(mirrored(Dir::NE, Dir::N), Dir::NW);
}

#[test]
fn mirror_twice_restores() {
    for d in ALL {
        for a in ALL {
            assert_eq!(mirrored(mirrored(d, a), a), d);
        }
    }
}

#[test]
fn direction_conversions() {
    assert_eq!(char::from(Dir::NE), '↗');
    assert_eq!(char::from(Dir::W), '←');
    assert_eq!(<(isize, isize)>::from(Dir::SW), (-1, 1));
    assert_eq!(<(isize, isize)>::from(Dir::N), (0, -1));
    assert_eq!(Dir::E.offsets(), (1, 0));
}

#[test]
fn advance_wraps_at_edges() {
    let mut c = Coord::new(0, 0);
    c.advance(Dir::W, 3, 2);
    assert_eq!(c, Coord::new(2, 0));
    c.advance(Dir::N, 3, 2);
    assert_eq!(c, Coord::new(2, 1));
    c.advance(Dir::SE, 3, 2);
    assert_eq!(c, Coord::new(0, 0));
    c.advance(Dir::NE, 3, 2);
    assert_eq!(c, Coord::new(1, 1));
}

#[test]
fn moven_steps_n_times() {
    let mut c = Coord::new(1, 1);
    c.moven(Dir::E, 4, 3, 2);
    assert_eq!(c, Coord::new(3, 1));
    c.moven(Dir::SW, 4, 3, 0);
    assert_eq!(c, Coord::new(3, 1));
    c.moven(Dir::SW, 4, 3, 5);
    assert_eq!(c, Coord::new(2, 0));
}

#[test]
fn full_width_or_height_walk_returns() {
    for (w, h) in [(1usize, 1usize), (5, 4), (3, 7)] {
        for x in 0..w {
            for y in 0..h {
                let start = Coord::new(x, y);
                for d in [Dir::E, Dir::W] {
                    let mut c = start;
                    c.moven(d, w, h, w as u32);
                    assert_eq!(c, start);
                }
                for d in [Dir::N, Dir::S] {
                    let mut c = start;
                    c.moven(d, w, h, h as u32);
                    assert_eq!(c, start);
                }
                let mut c = start;
                c.moven(Dir::NE, w, h, (w * h) as u32);
                assert_eq!(c, start);
            }
        }
    }
}

#[test]
fn coord_from_pair() {
    assert_eq!(Coord::from((2, 3)), Coord { x: 2, y: 3 });
}

#[test]
fn pop_on_empty_stack_gives_zero() {
    let mut t = Thread::new(Coord::new(0, 0));
    assert_eq!(t.pop(), 0);
    assert!(t.stack.is_empty());
}

#[test]
fn push_then_pop_gives_value_back() {
    let mut t = Thread::new(Coord::new(0, 0));
    t.push(5);
    t.push(7);
    assert_eq!(t.pop(), 7);
    assert_eq!(t.stack, vec![5]);
}

#[test]
fn stack_is_last_in_first_out() {
    let mut t = Thread::new(Coord::new(0, 0));
    for v in [1, 2, 3] {
        t.push(v);
    }
    assert_eq!(t.pop(), 3);
    assert_eq!(t.pop(), 2);
    t.push(9);
    assert_eq!(t.pop(), 9);
    assert_eq!(t.pop(), 1);
    assert_eq!(t.pop(), 0);
}

#[test]
fn new_thread_and_fork() {
    let mut t = Thread::new(Coord::new(2, 1));
    assert_eq!(t.dir, Dir::E);
    assert_eq!(t.state, State::Exec);
    t.push(4);
    let f = t.fork(2);
    assert_eq!(f.dir, Dir::S);
    assert_eq!(f.coord, Coord::new(2, 1));
    assert_eq!(f.stack, vec![4]);
    assert_eq!(t.dir, Dir::E);
    assert_eq!(t.fork(-1).dir, Dir::NE);
}

#[test]
fn automaton_glyphs() {
    assert!(Automaton::is_automaton('^'));
    assert!(Automaton::is_automaton('<'));
    assert!(!Automaton::is_automaton('V'));
    assert!(Automaton::is_pushable('X'));
    assert!(!Automaton::is_pushable('O'));
    assert_eq!(Automaton::char_to_dir('v'), Some(Dir::S));
    assert_eq!(Automaton::char_to_dir('>'), Some(Dir::E));
    assert_eq!(Automaton::char_to_dir('x'), None);
    let a = Automaton::new(Coord::new(1, 2), Dir::W);
    assert_eq!(a.glyph(), '<');
    assert_eq!(a.coord, Coord::new(1, 2));
}

#[test]
fn escapes() {
    assert_eq!(Kye::esc('t'), 9);
    assert_eq!(Kye::esc('n'), 10);
    assert_eq!(Kye::esc('v'), 0x0B);
    assert_eq!(Kye::esc('f'), 0x0C);
    assert_eq!(Kye::esc('r'), 13);
    assert_eq!(Kye::esc('0'), 0);
    assert_eq!(Kye::esc('7'), 7);
    assert_eq!(Kye::esc('x'), 'x' as u32);
    assert_eq!(Kye::esc('\\'), '\\' as u32);
}

#[test]
fn decoding_codes() {
    assert_eq!(decode(0x41), Some('A'));
    assert_eq!(decode(0x2192), Some('→'));
    assert_eq!(decode(0xD800), None);
    assert_eq!(decode(0x110000), None);
}
